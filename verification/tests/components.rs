use confoosion_markdown_parser::error::ParseError;
use confoosion_markdown_parser::putback::{PutBackChars, UnmarkedPutBackChars};
use confoosion_markdown_parser::template::{read_template_argument, TemplateMap};
use confoosion_markdown_parser::title::{read_title, NoTemplates};
use confoosion_markdown_parser::ExitMode;

fn stream(s: &str) -> PutBackChars {
    PutBackChars::new(s.chars().collect())
}

#[test]
fn stream_reads_in_order() {
    let mut c = stream("ab");
    assert_eq!(c.next(), Some('a'));
    assert_eq!(c.next(), Some('b'));
    assert_eq!(c.next(), None);
    assert_eq!(c.next(), None);
}

#[test]
fn stream_putback_is_read_first() {
    let mut c = stream("a");
    c.putback('z');
    c.putback('y');
    assert_eq!(c.next(), Some('y'));
    assert_eq!(c.next(), Some('z'));
    assert_eq!(c.next(), Some('a'));
    assert_eq!(c.next(), None);
}

#[test]
fn stream_tracks_line_and_column() {
    let mut c = stream("a\nb");
    assert_eq!((c.line_number, c.column_number), (1, 1));
    c.next();
    assert_eq!((c.line_number, c.column_number), (1, 2));
    c.next();
    assert_eq!((c.line_number, c.column_number), (2, 1));
    c.next();
    assert_eq!((c.line_number, c.column_number), (2, 2));
}

#[test]
fn stream_putback_unwinds_counters() {
    let mut c = stream("ab");
    c.next();
    c.putback('a');
    assert_eq!((c.line_number, c.column_number), (1, 1));
    c.putback_maybe(None);
    assert_eq!((c.line_number, c.column_number), (1, 1));
}

#[test]
fn primed_stream_starts_with_newline() {
    let mut c = PutBackChars::new_primed("x".chars().collect());
    assert_eq!(c.line_number, 1);
    assert_eq!(c.next(), Some('\n'));
    assert_eq!(c.next(), Some('x'));
}

#[test]
fn unmarked_stream_round_trip() {
    let mut c = UnmarkedPutBackChars::new(vec!['a', 'b']);
    assert_eq!(c.next(), Some('a'));
    c.putback('a');
    assert_eq!(c.next(), Some('a'));
    assert_eq!(c.next(), Some('b'));
    assert_eq!(c.next(), None);
}

#[test]
fn argument_reader_stops_at_separator() {
    let mut c = stream("abc|rest");
    let (text, exit) = read_template_argument(&mut c).unwrap();
    assert_eq!(text, "abc");
    assert_eq!(exit, ExitMode::EndOfArgument);
    assert_eq!(c.next(), Some('r'));
}

#[test]
fn argument_reader_stops_at_link_terminator() {
    let mut c = stream("ab]]x");
    let (text, exit) = read_template_argument(&mut c).unwrap();
    assert_eq!(text, "ab");
    assert_eq!(exit, ExitMode::EndOfLink);
    assert_eq!(c.next(), Some('x'));
}

#[test]
fn argument_reader_stops_at_template_terminator() {
    let mut c = stream("ab}}");
    let (text, exit) = read_template_argument(&mut c).unwrap();
    assert_eq!(text, "ab");
    assert_eq!(exit, ExitMode::EndOfTemplate);
}

#[test]
fn argument_reader_reaches_end_of_file() {
    let mut c = stream("ab");
    let (text, exit) = read_template_argument(&mut c).unwrap();
    assert_eq!(text, "ab");
    assert_eq!(exit, ExitMode::EndOfFile);
}

#[test]
fn argument_reader_keeps_nested_separators_literal() {
    let mut c = stream("{{in|pipe}}out|fin");
    let (text, exit) = read_template_argument(&mut c).unwrap();
    assert_eq!(text, "{{in|pipe}}out");
    assert_eq!(exit, ExitMode::EndOfArgument);
}

#[test]
fn argument_reader_keeps_nested_wikilink_literal() {
    let mut c = stream("[[a|b]]c}}");
    let (text, exit) = read_template_argument(&mut c).unwrap();
    assert_eq!(text, "[[a|b]]c");
    assert_eq!(exit, ExitMode::EndOfTemplate);
}

#[test]
fn argument_reader_escape_keeps_pair() {
    let mut c = stream("a\\|b|c");
    let (text, exit) = read_template_argument(&mut c).unwrap();
    assert_eq!(text, "a\\|b");
    assert_eq!(exit, ExitMode::EndOfArgument);
}

#[test]
fn argument_reader_escape_at_end_fails() {
    let mut c = stream("ab\\");
    assert!(read_template_argument(&mut c).is_err());
}

#[test]
fn argument_reader_lone_bracket_fails() {
    let mut c = stream("a]b");
    assert!(read_template_argument(&mut c).is_err());
    let mut c2 = stream("a}b");
    assert!(read_template_argument(&mut c2).is_err());
}

#[test]
fn registry_insert_reports_new_names() {
    let mut t: TemplateMap<NoTemplates> = TemplateMap::new();
    assert!(t.insert(String::from("a"), NoTemplates));
    assert!(!t.insert(String::from("a"), NoTemplates));
    assert!(t.insert(String::from("b"), NoTemplates));
}

#[test]
fn registry_unknown_name_fails() {
    let t: TemplateMap<NoTemplates> = TemplateMap::new();
    let e = t
        .call(String::from("nope"), Vec::new(), &Vec::new(), &String::new(), 0)
        .unwrap_err();
    assert_eq!(e.comment, "Template {{nope}} not found");
    assert_eq!((e.line, e.column), (0, 0));
}

#[test]
fn registry_depth_bound_refuses_before_lookup() {
    let t: TemplateMap<NoTemplates> = TemplateMap::new();
    let e = t
        .call(String::from("x"), Vec::new(), &Vec::new(), &String::new(), 128)
        .unwrap_err();
    assert_eq!(e.comment, "Maximum template recursion depth exceeded.");
}

#[test]
fn registry_reports_bound() {
    assert_eq!(TemplateMap::<NoTemplates>::max_recursion_depth(), 128);
}

#[test]
fn error_formatting_is_line_column_message() {
    let e = ParseError::empty("boom");
    assert_eq!(e.formatted(), "0:0. boom");
    let c = stream("ab");
    let e2 = ParseError::from_str(&c, "msg");
    assert_eq!(e2.formatted(), "1:1. msg");
    let e3 = ParseError::from_string(&c, String::from("owned"));
    assert_eq!(e3.comment, "owned");
}

#[test]
fn title_resolution_renders_plain_heading() {
    let pages = vec![(String::from("d/p.md"), String::from("# T\nx"))];
    let t = read_title(&pages, &String::from("d/p.md"), 0).unwrap();
    assert_eq!(t, "<p> T</p>");
}

#[test]
fn title_resolution_fails_without_heading() {
    let pages = vec![(String::from("d/p.md"), String::from("plain"))];
    assert!(read_title(&pages, &String::from("d/p.md"), 0).is_none());
    assert!(read_title(&pages, &String::from("d/q.md"), 0).is_none());
}

#[test]
fn title_resolution_rejects_second_hash() {
    let pages = vec![(String::from("p.md"), String::from("# a # b\n"))];
    assert!(read_title(&pages, &String::from("p.md"), 0).is_none());
}

#[test]
fn newline_putback_restores_column() {
    let mut c = stream("ab\ncd");
    c.next();
    c.next();
    assert_eq!((c.line_number, c.column_number), (1, 3));
    c.next();
    assert_eq!((c.line_number, c.column_number), (2, 1));
    c.putback('\n');
    // the pre-newline column is restored exactly
    assert_eq!((c.line_number, c.column_number), (1, 3));
    assert_eq!(c.next(), Some('\n'));
    assert_eq!((c.line_number, c.column_number), (2, 1));
}
