use mdbook_include_rs::lines::{find_line_and_col, line_positions};

fn positions_by_str_lines(content: &str) -> Vec<usize> {
    let mut out = Vec::new();
    let mut pos = 0;
    for line in content.lines() {
        out.push(pos);
        pos += line.len() + 1;
    }
    out
}

#[test]
fn line_positions_of_plain_text() {
    assert_eq!(line_positions("a\nbc\n\nd"), vec![0, 2, 5, 6]);
    assert_eq!(line_positions(""), Vec::<usize>::new());
    assert_eq!(line_positions("x\n"), vec![0]);
}

#[test]
fn line_positions_agree_with_str_lines() {
    let samples = [
        "",
        "\n",
        "\n\n",
        "a",
        "a\r\nb",
        "a\r\nb\r\n",
        "\r\n\r\nx",
        "a\rb\nc",
        "tail\r",
        "é\nü\r\nß",
        "#![struct!(\"f.rs\", S)]\n\ntext\n",
    ];
    for s in samples {
        assert_eq!(line_positions(s), positions_by_str_lines(s), "{:?}", s);
    }
}

#[test]
fn line_and_column_of_positions() {
    let lp = line_positions("ab\ncd\nef");
    assert_eq!(lp, vec![0, 3, 6]);
    assert_eq!(find_line_and_col(&lp, 0), (1, 1));
    assert_eq!(find_line_and_col(&lp, 2), (1, 3));
    assert_eq!(find_line_and_col(&lp, 3), (2, 1));
    assert_eq!(find_line_and_col(&lp, 7), (3, 2));
    assert_eq!(find_line_and_col(&lp, 100), (3, 95));
}

#[test]
fn line_index_stops_at_first_larger_offset() {
    // Offsets out of order: the scan stops at the first one above the position.
    assert_eq!(find_line_and_col(&[0, 10, 2], 5), (1, 6));
}

#[test]
fn carriage_returns_shift_columns() {
    // `str::lines` drops the `\r` of a line ending, so the offsets that follow
    // run one byte behind the true line starts.
    let content = "a\r\nb";
    let lp = line_positions(content);
    assert_eq!(lp, vec![0, 2]);
    assert_eq!(find_line_and_col(&lp, 3), (2, 2));
}

#[test]
fn line_is_one_more_than_line_feeds_before() {
    let content = "one\ntwo\n\nfour";
    let lp = line_positions(content);
    for (p, _) in content.char_indices() {
        let feeds = content[..p].matches('\n').count();
        let start = content[..p].rfind('\n').map_or(0, |i| i + 1);
        assert_eq!(find_line_and_col(&lp, p), (feeds + 1, p - start + 1));
    }
}
