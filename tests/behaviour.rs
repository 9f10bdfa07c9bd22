use simple_find_core::{
    pattern_error, push_line_matches, search, split_lines, within_limits, FileInput, Matcher,
    MatchResult,
};

fn file(path: &str, content: &str) -> FileInput {
    FileInput { path: path.to_string(), content: content.to_string() }
}

#[test]
fn case_flag_off_finds_upper_case() {
    let files = vec![file("t", "Hello, WORLD!")];
    let results = search("world", &files, false).unwrap();
    assert_eq!(results.len(), 1);
    assert_eq!(results[0].column, 8);
    assert_eq!(results[0].line, 1);
    assert_eq!(results[0].path, "t");
}

#[test]
fn invalid_pattern_with_no_files_is_an_error() {
    let files: Vec<FileInput> = Vec::new();
    let result = search("[", &files, true);
    assert!(result.is_err());
    let message = result.unwrap_err();
    assert!(message.starts_with("Invalid regex pattern '['"));
}

#[test]
fn invalid_pattern_is_an_error_without_case() {
    let files = vec![file("a", "x"), file("b", "[")];
    assert!(search("(", &files, false).is_err());
}

#[test]
fn valid_pattern_with_no_files_gives_nothing() {
    let files: Vec<FileInput> = Vec::new();
    assert_eq!(search("a", &files, true).unwrap().len(), 0);
}

#[test]
fn results_follow_file_order() {
    let files = vec![file("b.txt", "x\nxx"), file("a.txt", "x"), file("b.txt", "y x")];
    let results = search("x", &files, true).unwrap();
    let got: Vec<(String, u32, u32)> =
        results.iter().map(|m| (m.path.clone(), m.line, m.column)).collect();
    assert_eq!(
        got,
        vec![
            ("b.txt".to_string(), 1, 1),
            ("b.txt".to_string(), 2, 1),
            ("b.txt".to_string(), 2, 2),
            ("a.txt".to_string(), 1, 1),
            ("b.txt".to_string(), 1, 3),
        ]
    );
}

#[test]
fn lines_ascend_and_columns_ascend_within_a_line() {
    let files = vec![file("t", "ab ab\n\nab\nxab ab ab")];
    let results = search("ab", &files, true).unwrap();
    let got: Vec<(u32, u32)> = results.iter().map(|m| (m.line, m.column)).collect();
    assert_eq!(got, vec![(1, 1), (1, 4), (3, 1), (4, 2), (4, 5), (4, 8)]);
    for w in results.windows(2) {
        assert!(w[0].line <= w[1].line);
        if w[0].line == w[1].line {
            assert!(w[0].column < w[1].column);
        }
    }
}

#[test]
fn searching_twice_gives_equal_results() {
    let files = vec![file("t", "one two\nthree two"), file("u", "two")];
    let first = search("t[wh]", &files, true).unwrap();
    let second = search("t[wh]", &files, true).unwrap();
    assert_eq!(first, second);
    assert_eq!(first.len(), 4);
}

#[test]
fn empty_pattern_matches_between_every_character() {
    let files = vec![file("t", "Hello, world!")];
    let results = search("", &files, true).unwrap();
    assert_eq!(results.len(), 14);
    for (k, m) in results.iter().enumerate() {
        assert_eq!(m.column, k as u32 + 1);
        assert_eq!(m.line_text, "Hello, world!");
    }
}

#[test]
fn empty_content_is_one_empty_line() {
    let files = vec![file("e", "")];
    let results = search("", &files, true).unwrap();
    assert_eq!(results.len(), 1);
    assert_eq!(results[0].line, 1);
    assert_eq!(results[0].column, 1);
    assert_eq!(results[0].line_text, "");
}

#[test]
fn matches_do_not_span_lines() {
    let files = vec![file("t", "ab\ncd")];
    assert_eq!(search(r"b\nc", &files, true).unwrap().len(), 0);
    assert_eq!(search(r"b\sc", &files, true).unwrap().len(), 0);
}

#[test]
fn carriage_return_before_newline_is_dropped() {
    let files = vec![file("t", "a\r\nb\r")];
    let results = search("", &files, true).unwrap();
    let texts: Vec<&str> = results.iter().map(|m| m.line_text.as_str()).collect();
    assert_eq!(texts, vec!["a", "a", "b\r", "b\r", "b\r"]);
}

#[test]
fn columns_count_bytes() {
    let files = vec![file("t", "äb b")];
    let results = search("b", &files, true).unwrap();
    let cols: Vec<u32> = results.iter().map(|m| m.column).collect();
    assert_eq!(cols, vec![3, 5]);
}

#[test]
fn split_lines_drops_terminators() {
    assert_eq!(split_lines("a\nb"), vec!["a".to_string(), "b".to_string()]);
    assert_eq!(split_lines("a\n"), vec!["a".to_string()]);
    assert_eq!(split_lines("\n"), vec!["".to_string()]);
    assert_eq!(split_lines(""), vec!["".to_string()]);
    assert_eq!(split_lines("a\n\nb"), vec!["a".to_string(), "".to_string(), "b".to_string()]);
    assert_eq!(split_lines("x\r\ny\r\n"), vec!["x".to_string(), "y".to_string()]);
    assert_eq!(split_lines("\r\n"), vec!["".to_string()]);
    assert_eq!(split_lines("z\r"), vec!["z\r".to_string()]);
}

#[test]
fn push_line_matches_makes_one_result_per_start() {
    let mut results: Vec<MatchResult> = Vec::new();
    let path = "p".to_string();
    let line = "foo bar foo baz".to_string();
    push_line_matches(&mut results, &path, 7, &line, &vec![0, 8]);
    assert_eq!(results.len(), 2);
    assert_eq!(results[0].column, 1);
    assert_eq!(results[1].column, 9);
    assert_eq!(results[1].line, 7);
    assert_eq!(results[1].path, "p");
    assert_eq!(results[1].line_text, "foo bar foo baz");
    push_line_matches(&mut results, &path, 8, &line, &vec![]);
    assert_eq!(results.len(), 2);
}

#[test]
fn matcher_reports_match_starts() {
    let m = Matcher::new("o", true).ok().unwrap();
    assert_eq!(m.find_starts("foo bor"), vec![1, 2, 5]);
    let m = Matcher::new("O", false).ok().unwrap();
    assert_eq!(m.find_starts("foo"), vec![1, 2]);
    assert!(Matcher::new("(", true).is_err());
}

#[test]
fn pattern_error_names_the_pattern() {
    let err = Matcher::new("(ab", true).err().unwrap();
    let message = pattern_error("(ab", &err);
    assert!(message.starts_with("Invalid regex pattern '(ab': "));
    assert!(message.len() > "Invalid regex pattern '(ab': ".len());
}

#[test]
fn within_limits_accepts_ordinary_files() {
    assert!(within_limits(&[file("a", "text"), file("b", "")]));
    assert!(within_limits(&[]));
}
