use jsfx_lint::iterators::dots::Dots;
use jsfx_lint::iterators::lines::Lines;

#[test]
fn normal() {
    let source = "a\nb\nc";
    let lines = Lines::new(source).collect_all();
    assert_eq!(lines.len(), 3);
    assert_eq!(lines[0], ("a", 2));
    assert_eq!(lines[1], ("b", 2));
    assert_eq!(lines[2], ("c", 1));
}

#[test]
fn no_newline() {
    let source = "a";
    let lines = Lines::new(source).collect_all();
    assert_eq!(lines.len(), 1);
    assert_eq!(lines[0], ("a", 1));
}

#[test]
fn newline_at_end() {
    let source = "a\n";
    let lines = Lines::new(source).collect_all();
    assert_eq!(lines.len(), 1);
    assert_eq!(lines[0], ("a", 2));
}

#[test]
fn newline_at_start() {
    let source = "\na";
    let lines = Lines::new(source).collect_all();
    assert_eq!(lines.len(), 2);
    assert_eq!(lines[0], ("", 1));
    assert_eq!(lines[1], ("a", 1));
}

#[test]
fn newline_at_start_and_end() {
    let source = "\na\n";
    let lines = Lines::new(source).collect_all();
    assert_eq!(lines.len(), 2);
    assert_eq!(lines[0], ("", 1));
    assert_eq!(lines[1], ("a", 2));
}

#[test]
fn windows_newline() {
    let source = "a\r\nb\r\nc";
    let lines = Lines::new(source).collect_all();
    assert_eq!(lines.len(), 3);
    assert_eq!(lines[0], ("a", 3));
    assert_eq!(lines[1], ("b", 3));
    assert_eq!(lines[2], ("c", 1));
}

#[test]
fn windows_newline_at_end() {
    let source = "a\r\n";
    let lines = Lines::new(source).collect_all();
    assert_eq!(lines.len(), 1);
    assert_eq!(lines[0], ("a", 3));
}

#[test]
fn windows_newline_at_start() {
    let source = "\r\na";
    let lines = Lines::new(source).collect_all();
    assert_eq!(lines.len(), 2);
    assert_eq!(lines[0], ("", 2));
    assert_eq!(lines[1], ("a", 1));
}

#[test]
fn windows_newline_at_start_and_end() {
    let source = "\r\na\r\n";
    let lines = Lines::new(source).collect_all();
    assert_eq!(lines.len(), 2);
    assert_eq!(lines[0], ("", 2));
    assert_eq!(lines[1], ("a", 3));
}

#[test]
fn mixed_newline() {
    let source = "a\nb\r\nc";
    let lines = Lines::new(source).collect_all();
    assert_eq!(lines.len(), 3);
    assert_eq!(lines[0], ("a", 2));
    assert_eq!(lines[1], ("b", 3));
    assert_eq!(lines[2], ("c", 1));
}

#[test]
fn empty_line() {
    let source = "a\n\nb";
    let lines = Lines::new(source).collect_all();
    assert_eq!(lines.len(), 3);
    assert_eq!(lines[0], ("a", 2));
    assert_eq!(lines[1], ("", 1));
    assert_eq!(lines[2], ("b", 1));
}

#[test]
fn empty_string() {
    let source = "";
    assert_eq!(Lines::new(source).collect_all().len(), 0);
}

#[test]
fn test_dots() {
    let source = "a.b.c..d";
    let dots: Vec<usize> = Dots::new(source).collect_all();
    assert_eq!(dots, vec![1, 3, 5, 6]);
}

#[test]
fn test_no_dots() {
    let source = "abc";
    assert!(Dots::new(source).next().is_none());
}

#[test]
fn test_empty_string() {
    let source = "";
    assert!(Dots::new(source).next().is_none());
}

#[test]
fn test_dots_at_end() {
    let source = "abc.";
    let dots: Vec<usize> = Dots::new(source).collect_all();
    assert_eq!(dots, vec![3]);
}

#[test]
fn test_dots_at_start() {
    let source = ".abc";
    let dots: Vec<usize> = Dots::new(source).collect_all();
    assert_eq!(dots, vec![0]);
}

#[test]
fn test_dots_only() {
    let source = "...";
    let dots: Vec<usize> = Dots::new(source).collect_all();
    assert_eq!(dots, vec![0, 1, 2]);
}

#[test]
fn dots_are_byte_positions() {
    let source = "é.a";
    let dots: Vec<usize> = Dots::new(source).collect_all();
    assert_eq!(dots, vec![2]);
}

#[test]
fn owned_lines() {
    let s = "a\r\nbc\n\nd".to_string();
    let mut it = jsfx_lint::iterators::lines_rc::LinesRc::new(&s);
    let mut got = Vec::new();
    while let Some(x) = it.next() {
        got.push(x);
    }
    assert_eq!(
        got,
        vec![("a".to_string(), 3), ("bc".to_string(), 3), ("".to_string(), 1), ("d".to_string(), 1)]
    );
}

#[test]
fn carriage_return_inside_a_line_is_text() {
    let mut it = jsfx_lint::iterators::lines_range::LineRanges::new("a\rb\n");
    assert_eq!(it.next(), Some((0..3, 4)));
    assert_eq!(it.next(), None);
}

#[test]
fn lone_carriage_return_before_a_wide_char() {
    let lines = Lines::new("\r\u{e9}\n").collect_all();
    assert_eq!(lines, vec![("\r\u{e9}", 4)]);
}

#[test]
fn only_the_carriage_return_before_the_newline_is_cut() {
    let lines = Lines::new("a\r\r\nb").collect_all();
    assert_eq!(lines, vec![("a\r", 4), ("b", 1)]);
}
