use mdbook_include_rs::directive::{directive_kind, impl_method_target, method_names, trait_impl_target, DirectiveKind};
use mdbook_include_rs::text::{is_whitespace, same_text, trim};

#[test]
fn whitespace_agrees_with_std_for_every_char() {
    for u in 0u32..=0x10ffff {
        if let Some(c) = char::from_u32(u) {
            assert_eq!(is_whitespace(c), c.is_whitespace(), "U+{:04X}", u);
        }
    }
}

#[test]
fn trim_agrees_with_std() {
    let samples = ["", "  ", "a", "  a b  ", "\t\nx\r\n", "\u{3000}名前\u{2003}", "\u{85}z\u{a0}", " \u{200b} "];
    for s in samples {
        assert_eq!(trim(s), s.trim(), "{:?}", s);
    }
}

#[test]
fn same_text_compares_characters() {
    assert!(same_text("Foo", "Foo"));
    assert!(!same_text("Foo", "Fo"));
    assert!(!same_text("Foo", "Fox"));
    assert!(same_text("", ""));
    assert!(same_text("ß", "ß"));
}

#[test]
fn directive_kinds_by_name() {
    assert_eq!(directive_kind("source_file!(\"a.rs\")"), Some(DirectiveKind::SourceFile));
    assert_eq!(directive_kind("static!(\"a.rs\", S)"), Some(DirectiveKind::Static));
    assert_eq!(directive_kind("const!(\"a.rs\", C)"), Some(DirectiveKind::Const));
    assert_eq!(directive_kind("function!(\"a.rs\", f)"), Some(DirectiveKind::Function));
    assert_eq!(directive_kind("struct!(\"a.rs\", S)"), Some(DirectiveKind::Struct));
    assert_eq!(directive_kind("enum!(\"a.rs\", E)"), Some(DirectiveKind::Enum));
    assert_eq!(directive_kind("trait!(\"a.rs\", T)"), Some(DirectiveKind::Trait));
    assert_eq!(directive_kind("impl!(\"a.rs\", S)"), Some(DirectiveKind::Impl));
    assert_eq!(directive_kind("impl_method!(\"a.rs\", S::f)"), Some(DirectiveKind::ImplMethod));
    assert_eq!(directive_kind("trait_impl!(\"a.rs\", T for S)"), Some(DirectiveKind::TraitImpl));
    assert_eq!(directive_kind("function_body!(\"a.rs\", f)"), Some(DirectiveKind::FunctionBody));
}

#[test]
fn unknown_or_unmarked_directives_stay() {
    assert_eq!(directive_kind("no bang here"), None);
    assert_eq!(directive_kind("unknown!(x)"), None);
    assert_eq!(directive_kind("Struct!(x)"), None);
    assert_eq!(directive_kind(" struct!(x)"), None);
    assert_eq!(directive_kind("!struct"), None);
    assert_eq!(directive_kind(""), None);
}

#[test]
fn trait_impl_targets() {
    assert_eq!(trait_impl_target("Display for Point"), Some(("Display", "Point")));
    assert_eq!(trait_impl_target("  X<Z>  for  Testing<T> "), Some(("X<Z>", "Testing<T>")));
    assert_eq!(trait_impl_target("Display"), None);
    assert_eq!(trait_impl_target("A for B for C"), None);
    assert_eq!(trait_impl_target(" for B"), Some(("", "B")));
    assert_eq!(trait_impl_target("Afor B"), None);
}

#[test]
fn trait_impl_targets_agree_with_std_split() {
    let samples = ["Display for Point", "A for B for C", "x", " for ", "a  for  b", "for b", "T for"];
    for n in samples {
        let parts: Vec<&str> = n.split(" for ").collect();
        let expected = if parts.len() == 2 { Some((parts[0].trim(), parts[1].trim())) } else { None };
        assert_eq!(trait_impl_target(n), expected, "{:?}", n);
    }
}

#[test]
fn impl_method_targets() {
    assert_eq!(impl_method_target("TestStruct::new"), Some(("TestStruct", vec!["new"])));
    assert_eq!(impl_method_target(" S :: a, b ,, c ,"), Some(("S", vec!["a", "b", "c"])));
    assert_eq!(impl_method_target("S::"), Some(("S", vec![])));
    assert_eq!(impl_method_target("S"), None);
    assert_eq!(impl_method_target("A::B::c"), Some(("A", vec!["B::c"])));
}

#[test]
fn method_names_agree_with_std() {
    let samples = ["", "a", "a,b", " a , , b ", ",,,", "x ,y,\tz\n"];
    for s in samples {
        let expected: Vec<&str> = s.split(',').map(|p| p.trim()).filter(|p| !p.is_empty()).collect();
        assert_eq!(method_names(s), expected, "{:?}", s);
    }
}

#[test]
fn trimming_twice_changes_nothing() {
    for s in ["  a  ", "\u{2028}x y\u{205f}", "", "   ", "b"] {
        let once = trim(s);
        assert_eq!(trim(once), once);
        assert!(!once.starts_with(char::is_whitespace));
        assert!(!once.ends_with(char::is_whitespace));
    }
}
