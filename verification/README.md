# mdbook_include_rs

The core of an mdBook preprocessor that replaces directives such as

    #![struct!("file.rs", Name)]
    #![impl_method!("file.rs", Type::new, other)]
    #![trait_impl!("file.rs", Trait for Type)]

in Markdown chapters with items taken from Rust source files.

`src/` is verified with Verus:

- `lines` — byte offsets of lines and the line/column of a byte offset;
- `scan` — the directive grammar, as a function on the bytes of a chapter;
- `markdown` — directive sites (line, column, text) and the replacement of
  directives by new text;
- `directive` — directive kinds and the reading of item names
  (`Trait for Type`, `Type::a, b`);
- `text` — string equality, Unicode trimming and substring search;
- `model` — a plain-value model of a parsed Rust file (its items in visiting
  order);
- `extractor` — finders for consts, statics, functions, structs, enums,
  traits, impls and impl methods;
- `parser` — what a directive resolves to: the primary item, the source parts
  it marks, and the items shown or hidden around it.

`app/` reads files, parses them with `syn`, builds the file model, prints the
items and reports errors.
