use mdbook_include_rs::directive::{directive_kind, DirectiveKind};
use mdbook_include_rs::markdown::{locate_directives, replace_directives};
use mdbook_include_rs::scan::{find_directives, DirectiveMatch};
use regex::Regex;

const DIRECTIVE_PATTERN: &str = r"(?ms)^#!\[((?:source_file|static|const|function|struct|enum|trait|impl|impl_method|trait_impl|function_body)![\s\S]*?)\]$";

const CHAPTER: &str = r##"# Chapter 1

This chapter demonstrates the function_body preprocessor:

```rust
#![function_body!("test_file_book.rs", hello_world)]
```

```rust
#![struct!("test_file_book.rs", Testing)]
```

```rust
#![impl_method!("test_file_book.rs", TestStruct::new)]
```

```rust
#![static!("test_file_book.rs", TEST_STATIC)]
```

```rust
#![const!("test_file_book.rs", TEST_CONST)]
```

```rust
#![trait!("test_file_book.rs", X)]
```


```rust
#![enum!("<rustc>/lib/rustlib/src/rust/library/proc_macro/src/lib.rs", TokenTree)]
```

```rust
#![function!("<crateio>/clap_derive-4.5.32/src/lib.rs", to_compile_error)]
```

```rust
#![struct!("<github>/num_enum-9def65cfcc1e6dea/2e53bd3/num_enum/src/lib.rs", TryFromPrimitiveError)]
```
"##;

fn by_regex(content: &str) -> Vec<(usize, usize, usize, usize)> {
    let re = Regex::new(DIRECTIVE_PATTERN).unwrap();
    let mut out = Vec::new();
    for caps in re.captures_iter(content) {
        let m = caps.get(0).unwrap();
        let g = caps.get(1).unwrap();
        out.push((m.start(), m.end(), g.start(), g.end()));
    }
    out
}

fn by_scanner(content: &str) -> Vec<(usize, usize, usize, usize)> {
    find_directives(content).iter().map(|m| (m.start, m.end, m.start + 3, m.end - 1)).collect()
}

#[test]
fn scanner_agrees_with_the_pattern() {
    let samples = [
        CHAPTER,
        "",
        "#![struct!(\"a.rs\", S)]",
        "#![struct!(\"a.rs\", S)]\n",
        "text #![struct!(\"a.rs\", S)]\n",
        "#![struct!(\"a.rs\", S)] trailing\n#![enum!(\"b.rs\", E)]\n",
        "#![struct!(\"a.rs\",\n  S,\n  [x]\n)]\nafter",
        "#![unknown!(x)]\n#![impl!(y)]\n",
        "#![impl_method!(\"a.rs\", S::a, b)]\r\n#![const!(\"a.rs\", C)]\n",
        "#![trait_impl!(\"a.rs\", T for S)\n",
        "#![function_body!(x)]]\n",
        "#![static!(x)]\n#![static!(y)]",
        "é #![const!(ü)]\n#![const!(ß)]\n",
        "#![struct!(a)\n#![enum!(b)]\n",
        "#![function!]",
        "#![struct]\n",
    ];
    for s in samples {
        assert_eq!(by_scanner(s), by_regex(s), "{:?}", s);
    }
}

#[test]
fn scanner_finds_the_chapter_directives() {
    let found = find_directives(CHAPTER);
    let kinds: Vec<DirectiveKind> = found.iter().map(|m| m.kind).collect();
    assert_eq!(
        kinds,
        vec![
            DirectiveKind::FunctionBody,
            DirectiveKind::Struct,
            DirectiveKind::ImplMethod,
            DirectiveKind::Static,
            DirectiveKind::Const,
            DirectiveKind::Trait,
            DirectiveKind::Enum,
            DirectiveKind::Function,
            DirectiveKind::Struct,
        ]
    );
}

#[test]
fn unterminated_directive_is_not_found() {
    assert_eq!(find_directives("#![struct!(\"a.rs\", S)\nno closing"), Vec::<DirectiveMatch>::new());
    assert_eq!(find_directives("#![struct!(\"a.rs\", S)] x\n"), Vec::<DirectiveMatch>::new());
}

#[test]
fn sites_carry_line_column_and_text() {
    let content = "# Title\n\n#![struct!(\"a.rs\", S)]\ntext\n#![impl_method!(\"a.rs\", S::new)]\n";
    let sites = locate_directives(content);
    assert_eq!(sites.len(), 2);
    assert_eq!((sites[0].line, sites[0].col), (3, 1));
    assert_eq!(sites[0].directive, "struct!(\"a.rs\", S)");
    assert_eq!(directive_kind(&sites[0].directive), Some(DirectiveKind::Struct));
    assert_eq!((sites[1].line, sites[1].col), (5, 1));
    assert_eq!(sites[1].directive, "impl_method!(\"a.rs\", S::new)");
    assert_eq!(sites[1].span, DirectiveMatch { start: 37, end: 69, kind: DirectiveKind::ImplMethod });
}

#[test]
fn chapter_sites_are_recognised() {
    for site in locate_directives(CHAPTER) {
        assert_eq!(directive_kind(&site.directive), Some(site.span.kind));
        assert_eq!(site.col, 1);
    }
    let lines: Vec<usize> = locate_directives(CHAPTER).iter().map(|s| s.line).collect();
    assert_eq!(lines, vec![6, 10, 14, 18, 22, 26, 31, 35, 39]);
}

#[test]
fn replacement_keeps_other_text() {
    let content = "a\n#![const!(x)]\nb\n#![static!(y)]";
    let sites = locate_directives(content);
    let reps = vec!["ONE".to_string(), "TWO".to_string()];
    assert_eq!(replace_directives(content, &sites, &reps), "a\nONE\nb\nTWO");
}

#[test]
fn replacement_by_own_text_is_identity() {
    let re = Regex::new(DIRECTIVE_PATTERN).unwrap();
    for content in [CHAPTER, "x", "#![enum!(e)]\n\n#![trait!(t)]\nend"] {
        let sites = locate_directives(content);
        let reps: Vec<String> = sites.iter().map(|s| content[s.span.start..s.span.end].to_string()).collect();
        assert_eq!(replace_directives(content, &sites, &reps), content);
        let marked = replace_directives(content, &sites, &sites.iter().map(|s| format!("<{}>", s.directive)).collect());
        let expected = re.replace_all(content, |caps: &regex::Captures| format!("<{}>", &caps[1]));
        assert_eq!(marked, expected);
    }
}

#[test]
fn scanner_agrees_with_the_pattern_on_generated_texts() {
    let pieces = [
        "#![", "struct!", "impl!", "impl_method!", "function", "_body!", "trait", "_impl!", "]", "]\n",
        "\n", "\r\n", " ", "x", "é", "(\"a.rs\", S)", "#", "!", "[",
    ];
    let mut state: u64 = 0x2545_f491_4f6c_dd1d;
    for _ in 0..4000 {
        let mut text = String::new();
        state = state.wrapping_mul(6364136223846793005).wrapping_add(1442695040888963407);
        let len = (state >> 59) as usize + 1;
        for _ in 0..len {
            state = state.wrapping_mul(6364136223846793005).wrapping_add(1442695040888963407);
            text.push_str(pieces[(state >> 33) as usize % pieces.len()]);
        }
        assert_eq!(by_scanner(&text), by_regex(&text), "{:?}", text);
    }
}
