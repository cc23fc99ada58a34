use mdbook_include_rs::directive::DirectiveKind;
use mdbook_include_rs::extractor::const_finder::{find_const, ConstFinder};
use mdbook_include_rs::extractor::impl_finder::{
    find_impl_methods, find_struct_impl, find_trait_impl, ImplType, SpanRef, StructImplFinder,
    TraitImplFinder,
};
use mdbook_include_rs::extractor::item_finder::{find_enum, find_function, find_struct};
use mdbook_include_rs::extractor::static_finder::{find_static, StaticFinder};
use mdbook_include_rs::extractor::trait_finder::{find_trait, TraitFinder, TraitType};
use mdbook_include_rs::model::{
    FileModel, ImplItemModel, ImplModel, ItemKind, ItemModel, PathModel, TypeModel,
};
use mdbook_include_rs::parser::{process_directive, process_extra};

fn named(kind: ItemKind, name: &str, class: usize) -> ItemModel {
    ItemModel {
        kind,
        ident: Some(name.to_string()),
        impl_block: None,
        const_trait_ident: None,
        top_level: true,
        class,
    }
}

fn path(name: &str) -> PathModel {
    PathModel { last_segment: Some(name.to_string()) }
}

fn impl_item(kind: ItemKind, trait_name: Option<&str>, self_name: &str, fns: &[&str], class: usize) -> ItemModel {
    ItemModel {
        kind,
        ident: None,
        impl_block: Some(ImplModel {
            trait_path: trait_name.map(path),
            self_ty: TypeModel::Path(path(self_name)),
            items: fns.iter().map(|f| ImplItemModel::Fn(f.to_string())).collect(),
        }),
        const_trait_ident: None,
        top_level: true,
        class,
    }
}

/// The items of the book's test file, in visiting order.
fn book_file() -> FileModel {
    let mut const_trait = named(ItemKind::Verbatim, "", 5);
    const_trait.ident = None;
    const_trait.const_trait_ident = Some("X".to_string());
    FileModel {
        items: vec![
            named(ItemKind::Fn, "hello_world", 0),
            named(ItemKind::Static, "TEST_STATIC", 1),
            named(ItemKind::Const, "TEST_CONST", 2),
            named(ItemKind::Struct, "TestStruct", 3),
            named(ItemKind::Struct, "Testing", 4),
            const_trait,
            impl_item(ItemKind::Impl, Some("X"), "Testing", &[], 6),
            impl_item(ItemKind::Impl, None, "TestStruct", &["new", "print"], 7),
            named(ItemKind::Enum, "TestEnum", 8),
            named(ItemKind::Trait, "TestTrait", 9),
            impl_item(ItemKind::Impl, Some("TestTrait"), "TestStruct", &["test_method"], 10),
        ],
    }
}

#[test]
fn named_finders() {
    let f = book_file();
    assert_eq!(find_const(&f, "TEST_CONST"), Some(2));
    assert_eq!(find_const(&f, "TEST_STATIC"), None);
    assert_eq!(find_static(&f, "TEST_STATIC"), Some(1));
    assert_eq!(find_function(&f, "hello_world"), Some(0));
    assert_eq!(find_struct(&f, "Testing"), Some(4));
    assert_eq!(find_enum(&f, "TestEnum"), Some(8));
    assert_eq!(find_struct(&f, "TestEnum"), None);
    assert_eq!(find_trait(&f, "TestTrait"), Some(TraitType::Reg(9)));
    assert_eq!(find_trait(&f, "X"), Some(TraitType::Const(5)));
    assert_eq!(find_trait(&f, "Y"), None);
}

#[test]
fn finders_keep_the_last_match() {
    let mut f = book_file();
    let mut nested = named(ItemKind::Const, "TEST_CONST", 11);
    nested.top_level = false;
    f.items.push(nested);
    assert_eq!(find_const(&f, "TEST_CONST"), Some(11));
    f.items.push(impl_item(ItemKind::Verbatim, None, "TestStruct", &[], 12));
    assert_eq!(find_struct_impl(&f, "TestStruct"), Some(ImplType::Const(12)));
}

#[test]
fn finder_values() {
    let c = ConstFinder::new("A");
    assert_eq!(c.const_name, "A");
    assert_eq!(c.const_item, None);
    let s = StaticFinder::new("B");
    assert_eq!(s.static_name, "B");
    let t = TraitFinder::new("T");
    assert_eq!(t.trait_item, None);
    let si = StructImplFinder::new("S");
    assert_eq!(si.struct_name, "S");
    let ti = TraitImplFinder::new("T", "S");
    assert_eq!((ti.trait_name.as_str(), ti.struct_name.as_str()), ("T", "S"));
    assert_eq!(ImplType::Const(4).item(), 4);
    assert_eq!(ImplType::Reg(7).item(), 7);
    assert_eq!(TraitType::Const(5).item(), 5);
    assert_eq!(TraitType::Reg(9).item(), 9);
}

#[test]
fn impl_finders() {
    let f = book_file();
    assert_eq!(find_struct_impl(&f, "TestStruct"), Some(ImplType::Reg(7)));
    assert_eq!(find_struct_impl(&f, "Testing"), None);
    let (impls, spans) = find_trait_impl(&f, "TestTrait", "TestStruct");
    assert_eq!(impls, vec![ImplType::Reg(10)]);
    assert_eq!(spans, vec![SpanRef::Item(10)]);
    let (impls, _) = find_trait_impl(&f, "X", "Testing");
    assert_eq!(impls, vec![ImplType::Reg(6)]);
    assert_eq!(find_trait_impl(&f, "X", "TestStruct").0, vec![]);
}

#[test]
fn impl_method_finder() {
    let f = book_file();
    let (fns, spans) = find_impl_methods(&f, "TestStruct", vec!["new"]);
    assert_eq!(fns, vec![(7, 0)]);
    assert_eq!(spans, vec![SpanRef::ImplHeader(7), SpanRef::Method(7, 0), SpanRef::ImplClose(7)]);
    let (fns, spans) = find_impl_methods(&f, "TestStruct", vec!["print", "new", "missing"]);
    assert_eq!(fns, vec![(7, 0), (7, 1)]);
    assert_eq!(spans.len(), 4);
    let (fns, spans) = find_impl_methods(&f, "Nothing", vec!["new"]);
    assert!(fns.is_empty() && spans.is_empty());
}

#[test]
fn impl_method_finder_covers_every_inherent_impl() {
    let mut f = book_file();
    f.items.push(impl_item(ItemKind::Impl, None, "TestStruct", &["other", "new"], 11));
    let (fns, spans) = find_impl_methods(&f, "TestStruct", vec!["new"]);
    assert_eq!(fns, vec![(7, 0), (11, 1)]);
    assert_eq!(
        spans,
        vec![
            SpanRef::ImplHeader(7),
            SpanRef::Method(7, 0),
            SpanRef::ImplClose(7),
            SpanRef::ImplHeader(11),
            SpanRef::Method(11, 1),
            SpanRef::ImplClose(11),
        ]
    );
}

#[test]
fn extra_items_are_shown_and_the_rest_hidden() {
    let f = book_file();
    let extras = vec!["struct TestStruct".to_string(), "impl TestTrait for TestStruct".to_string(), "TestEnum".to_string()];
    let (hidden, visible) = process_extra(&f, 0, &extras);
    assert_eq!(visible, vec![3, 10, 8]);
    assert_eq!(hidden, vec![1, 2, 4, 5, 6, 7, 9]);
}

#[test]
fn extra_item_forms() {
    let f = book_file();
    let v = |e: &str| process_extra(&f, 0, &vec![e.to_string()]).1;
    assert_eq!(v("enum TestEnum"), vec![8]);
    assert_eq!(v("trait X"), vec![5]);
    assert_eq!(v("trait TestTrait"), vec![9]);
    assert_eq!(v("impl TestStruct"), vec![7]);
    assert_eq!(v("impl  X for Testing "), vec![6]);
    assert_eq!(v("impl X for A for B"), Vec::<usize>::new());
    assert_eq!(v("struct struct  TestStruct "), vec![3]);
    assert_eq!(v("Testing"), vec![4]);
    assert_eq!(v(" Testing"), Vec::<usize>::new());
    assert_eq!(v("nothing"), Vec::<usize>::new());
}

#[test]
fn equal_items_are_not_hidden() {
    let mut f = book_file();
    // A second copy of the primary item and of a shown item.
    f.items.push(named(ItemKind::Fn, "hello_world", 0));
    f.items.push(named(ItemKind::Struct, "Testing", 4));
    let (hidden, visible) = process_extra(&f, 0, &vec!["Testing".to_string()]);
    assert_eq!(visible, vec![12]);
    assert_eq!(hidden, vec![1, 2, 3, 5, 6, 7, 8, 9, 10]);
}

#[test]
fn directives_resolve_in_the_book_file() {
    let f = book_file();
    let none: Vec<String> = Vec::new();
    let r = process_directive(DirectiveKind::FunctionBody, &f, "hello_world", &none).unwrap();
    assert_eq!(r.primary, 0);
    assert_eq!(r.spans, vec![SpanRef::Item(0)]);
    assert_eq!(r.visible, Vec::<usize>::new());
    assert_eq!(r.hidden, vec![1, 2, 3, 4, 5, 6, 7, 8, 9, 10]);
    let r = process_directive(DirectiveKind::ImplMethod, &f, "TestStruct::new", &none).unwrap();
    assert_eq!(r.primary, 7);
    assert_eq!(r.spans, vec![SpanRef::ImplHeader(7), SpanRef::Method(7, 0), SpanRef::ImplClose(7)]);
    let r = process_directive(DirectiveKind::TraitImpl, &f, "TestTrait for TestStruct", &none).unwrap();
    assert_eq!((r.primary, r.spans), (10, vec![SpanRef::Item(10)]));
    assert_eq!(process_directive(DirectiveKind::Trait, &f, "X", &none).unwrap().primary, 5);
    assert_eq!(process_directive(DirectiveKind::Static, &f, "TEST_STATIC", &none).unwrap().primary, 1);
    assert_eq!(process_directive(DirectiveKind::Const, &f, "TEST_CONST", &none).unwrap().primary, 2);
    assert_eq!(process_directive(DirectiveKind::Struct, &f, "Testing", &none).unwrap().primary, 4);
    assert_eq!(process_directive(DirectiveKind::Enum, &f, "TestEnum", &none).unwrap().primary, 8);
    assert_eq!(process_directive(DirectiveKind::Impl, &f, "TestStruct", &none).unwrap().primary, 7);
    assert_eq!(process_directive(DirectiveKind::Function, &f, "hello_world", &none).unwrap().primary, 0);
}

#[test]
fn directives_that_name_nothing() {
    let f = book_file();
    let none: Vec<String> = Vec::new();
    assert!(process_directive(DirectiveKind::Struct, &f, "Missing", &none).is_none());
    assert!(process_directive(DirectiveKind::ImplMethod, &f, "TestStruct", &none).is_none());
    assert!(process_directive(DirectiveKind::ImplMethod, &f, "Missing::new", &none).is_none());
    assert!(process_directive(DirectiveKind::TraitImpl, &f, "TestTrait", &none).is_none());
    assert!(process_directive(DirectiveKind::SourceFile, &f, "x", &none).is_none());
}

#[test]
fn trait_impl_finder_collects_every_impl_in_order() {
    let mut f = book_file();
    f.items.push(impl_item(ItemKind::Verbatim, Some("TestTrait"), "TestStruct", &[], 11));
    f.items.push(impl_item(ItemKind::Impl, Some("Other"), "TestStruct", &[], 12));
    let (impls, spans) = find_trait_impl(&f, "TestTrait", "TestStruct");
    assert_eq!(impls, vec![ImplType::Reg(10), ImplType::Const(11)]);
    assert_eq!(spans, vec![SpanRef::Item(10), SpanRef::Item(11)]);
    let none: Vec<String> = Vec::new();
    let r = process_directive(DirectiveKind::TraitImpl, &f, "TestTrait for TestStruct", &none).unwrap();
    assert_eq!(r.primary, 10);
    assert_eq!(r.spans, vec![SpanRef::Item(10), SpanRef::Item(11)]);
}
