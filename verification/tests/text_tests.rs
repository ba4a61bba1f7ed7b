use perry_codegen::text::lines_exec;

fn lines_of(s: &str) -> Vec<String> {
    let chars: Vec<char> = s.chars().collect();
    lines_exec(&chars)
        .into_iter()
        .map(|l| l.into_iter().collect())
        .collect()
}

#[test]
fn lines_split_like_str_lines() {
    for text in ["", "a", "a\n", "a\r", "a\r\n", "a\nb\r", "foo\nbar\n\r\nbaz\r", "\n\n", "x\r\ry\r\n"] {
        let want: Vec<String> = text.lines().map(|l| l.to_string()).collect();
        assert_eq!(lines_of(text), want, "{text:?}");
    }
    assert_eq!(lines_of("a\r"), vec!["a\r".to_string()]);
}
