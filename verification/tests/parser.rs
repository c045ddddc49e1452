use confoosion_markdown_parser::error::ParseError;
use confoosion_markdown_parser::markdown_charbuff_to_html;
use confoosion_markdown_parser::putback::PutBackChars;
use confoosion_markdown_parser::template::{template_double, Template, TemplateMap};
use confoosion_markdown_parser::title::NoTemplates;
use confoosion_markdown_parser::{ExitMode, ParsedHTML};

fn stream(s: &str) -> PutBackChars {
    PutBackChars::new(s.chars().collect())
}

fn primed(s: &str) -> PutBackChars {
    PutBackChars::new_primed(s.chars().collect())
}

fn parse(s: &str) -> Result<(ParsedHTML, ExitMode), ParseError> {
    let templates: TemplateMap<NoTemplates> = TemplateMap::new();
    let mut chars = stream(s);
    markdown_charbuff_to_html(&mut chars, &templates, &Vec::new(), &String::new(), 0)
}

fn parse_primed(s: &str) -> Result<(ParsedHTML, ExitMode), ParseError> {
    let templates: TemplateMap<NoTemplates> = TemplateMap::new();
    let mut chars = primed(s);
    markdown_charbuff_to_html(&mut chars, &templates, &Vec::new(), &String::new(), 0)
}

fn parse_with_pages(
    s: &str,
    pages: Vec<(String, String)>,
    dir: &str,
) -> Result<(ParsedHTML, ExitMode), ParseError> {
    let templates: TemplateMap<NoTemplates> = TemplateMap::new();
    let mut chars = stream(s);
    markdown_charbuff_to_html(&mut chars, &templates, &pages, &String::from(dir), 0)
}

#[test]
fn plain_text_passes_through() {
    let (p, exit) = parse("hello world").unwrap();
    assert_eq!(p.html, "<p>hello world</p>");
    assert_eq!(exit, ExitMode::EndOfFile);
    assert!(p.links_to.is_empty());
    assert!(p.parents.is_empty());
}

#[test]
fn empty_input_gives_empty_paragraph() {
    let (p, exit) = parse("").unwrap();
    assert_eq!(p.html, "<p></p>");
    assert_eq!(exit, ExitMode::EndOfFile);
}

#[test]
fn bold_end_to_end() {
    // a bold span framed by paragraph tags
    let (p, _) = parse("**hi**").unwrap();
    assert_eq!(p.html, "<p><b>hi</b></p>");
    assert!(p.html.contains("<b>hi</b>"));
}

#[test]
fn italics_toggles() {
    let (p, _) = parse("*i*").unwrap();
    assert_eq!(p.html, "<p><i>i</i></p>");
}

#[test]
fn strikethrough_toggles() {
    let (p, _) = parse("~~s~~").unwrap();
    assert_eq!(p.html, "<p><del>s</del></p>");
}

#[test]
fn underline_toggles() {
    let (p, _) = parse("__u__").unwrap();
    assert_eq!(p.html, "<p><u>u</u></p>");
}

#[test]
fn nesting_bold_inside_italics() {
    // italics open, bold open/close inside, italics close
    let (p, _) = parse("*a **b** c*").unwrap();
    assert!(p.html.contains("<i>a <b>b</b> c</i>"));
    assert_eq!(p.html, "<p><i>a <b>b</b> c</i></p>");
}

#[test]
fn escaped_star_is_literal() {
    // an escaped delimiter character never toggles a modifier
    let (p, _) = parse("\\*").unwrap();
    assert_eq!(p.html, "<p>*</p>");
    let (q, _) = parse("\\*x\\*").unwrap();
    assert_eq!(q.html, "<p>*x*</p>");
    assert!(!q.html.contains("<i>"));
}

#[test]
fn escape_at_end_of_input_fails() {
    let e = parse("\\").unwrap_err();
    assert_eq!(e.comment, "File may not end with an escape character");
}

#[test]
fn unclosed_modifier_fails_at_end_of_input() {
    let e = parse("**hi").unwrap_err();
    assert_eq!(e.comment, "Unclosed modifiers left on the stack");
    assert_eq!(e.formatted(), "1:5. Unclosed modifiers left on the stack");
}

#[test]
fn heading_captures_line() {
    let (p, _) = parse_primed("# Head\nrest").unwrap();
    assert_eq!(p.html, "<p></p>\n<h1> Head</h1>\n<p>rest</p>");
}

#[test]
fn heading_level_counts_hashes() {
    let (p, _) = parse_primed("### t\n").unwrap();
    assert!(p.html.contains("<h3> t</h3>"));
}

#[test]
fn quote_spans_until_plain_line() {
    let (p, _) = parse_primed("> q\nafter").unwrap();
    assert_eq!(p.html, "<p><blockquote>q</blockquote>\nafter</p>");
}

#[test]
fn paragraph_break_closes_and_reopens() {
    let (p, _) = parse("a\n\nb").unwrap();
    assert_eq!(p.html, "<p>a</p>\n<p>\nb</p>");
}

#[test]
fn inline_code_copies_verbatim() {
    let (p, _) = parse("`a*b`").unwrap();
    assert_eq!(p.html, "<p><code>a*b</code></p>");
}

#[test]
fn inline_code_escaped_backtick() {
    let (p, _) = parse("`a\\`b`").unwrap();
    assert_eq!(p.html, "<p><code>a`b</code></p>");
}

#[test]
fn inline_code_closes_at_end_of_input() {
    let (p, _) = parse("`abc").unwrap();
    assert_eq!(p.html, "<p><code>abc</code></p>");
}

#[test]
fn code_block_with_language_tag() {
    let (p, _) = parse_primed("```rust\ncode\n```\n").unwrap();
    assert_eq!(p.html, "<p><pre><code class=rust>code</code></pre></p>");
}

#[test]
fn code_block_near_miss_fence_stays_literal() {
    let (p, _) = parse_primed("```c\nx\n``y\n```\n").unwrap();
    assert!(p.html.contains("x\n``y"));
}

#[test]
fn code_block_unterminated_fails() {
    let e = parse_primed("```x\nabc").unwrap_err();
    assert_eq!(e.comment, "Cannot end file inside codeblock");
}

#[test]
fn link_emits_anchor() {
    let (p, _) = parse("[text](url)").unwrap();
    assert_eq!(p.html, "<p><a href=url>text</a>\n</p>");
}

#[test]
fn link_without_parenthesis_degrades_to_text() {
    let (p, _) = parse("[text]x").unwrap();
    assert_eq!(p.html, "<p>[text]x</p>");
}

#[test]
fn link_unterminated_name_fails() {
    let e = parse("[abc").unwrap_err();
    assert_eq!(e.comment, "Unterminated link name");
}

#[test]
fn link_unterminated_body_fails() {
    let e = parse("[a](x").unwrap_err();
    assert_eq!(e.comment, "Unterminated link body");
}

#[test]
fn image_emits_img_element() {
    let (p, _) = parse("![alt](u)").unwrap();
    assert_eq!(p.html, "<p><img src=\"u\" alt=\"alt\"/>\n</p>");
}

#[test]
fn image_without_parenthesis_degrades_to_text() {
    let (p, _) = parse("![alt]x").unwrap();
    assert_eq!(p.html, "<p>![alt]x</p>");
}

#[test]
fn stray_terminators_surface_as_exit_modes() {
    let (_, exit) = parse("a|").unwrap();
    assert_eq!(exit, ExitMode::EndOfArgument);
    let (_, exit) = parse("a}}").unwrap();
    assert_eq!(exit, ExitMode::EndOfTemplate);
    let (_, exit) = parse("a]]").unwrap();
    assert_eq!(exit, ExitMode::EndOfLink);
}

#[test]
fn wikilink_title_from_page_heading() {
    let pages = vec![(String::from("dir/page.md"), String::from("# Title\nbody"))];
    let (p, _) = parse_with_pages("[[page]]", pages, "dir").unwrap();
    assert_eq!(p.html, "<p><a href=dir/page.md><p> Title</p></a></p>");
    assert!(p.html.contains("Title"));
}

#[test]
fn wikilink_falls_back_to_file_name_when_page_missing() {
    let (p, _) = parse_with_pages("[[page]]", Vec::new(), "dir").unwrap();
    assert_eq!(p.html, "<p><a href=dir/page.md>page.md</a></p>");
}

#[test]
fn wikilink_falls_back_when_page_has_no_heading() {
    let pages = vec![(String::from("dir/page.md"), String::from("no heading"))];
    let (p, _) = parse_with_pages("[[page]]", pages, "dir").unwrap();
    assert_eq!(p.html, "<p><a href=dir/page.md>page.md</a></p>");
}

#[test]
fn wikilink_explicit_label() {
    let (p, _) = parse_with_pages("[[page|shown]]", Vec::new(), "dir").unwrap();
    assert_eq!(p.html, "<p><a href=dir/page.md>shown</a></p>");
}

#[test]
fn wikilink_three_arguments_fail() {
    let e = parse("[[a|b|c]]").unwrap_err();
    assert_eq!(e.comment, "Cannot supply more than two arguments to a wikilink.");
}

#[test]
fn wikilink_unclosed_fails() {
    let e = parse("[[a").unwrap_err();
    assert_eq!(e.comment, "Unclosed wikilink.");
}

#[test]
fn template_unterminated_fails() {
    let e = parse("{{x").unwrap_err();
    assert_eq!(e.comment, "Unterminated template");
}

struct DoubleTemplate;

impl Template for DoubleTemplate {
    fn render(
        &self,
        args: Vec<String>,
        templates: &TemplateMap<Self>,
        pages: &Vec<(String, String)>,
        directory: &String,
        depth: u16,
    ) -> Result<(ParsedHTML, ExitMode), ParseError> {
        template_double(args, templates, pages, directory, depth)
    }
}

#[test]
fn double_template_duplicates_rendered_argument() {
    let mut templates: TemplateMap<DoubleTemplate> = TemplateMap::new();
    assert!(templates.insert(String::from("double"), DoubleTemplate));
    let mut chars = stream("{{double|abc}}");
    let (p, exit) =
        markdown_charbuff_to_html(&mut chars, &templates, &Vec::new(), &String::new(), 0).unwrap();
    // the nested end-of-template exit is consumed internally, not surfaced
    assert_eq!(exit, ExitMode::EndOfFile);
    assert_eq!(p.html, "<p><p>abc</p><p>abc</p></p>");
}

#[test]
fn double_template_wrong_argument_count_is_wrapped() {
    let mut templates: TemplateMap<DoubleTemplate> = TemplateMap::new();
    templates.insert(String::from("double"), DoubleTemplate);
    let mut chars = stream("{{double|a|b}}");
    let e = markdown_charbuff_to_html(&mut chars, &templates, &Vec::new(), &String::new(), 0)
        .unwrap_err();
    assert_eq!(
        e.comment,
        "Error occurred while parsing template double:\n{{double}} only accepts one argument, not 2"
    );
}

#[test]
fn unknown_template_fails_with_name() {
    let templates: TemplateMap<DoubleTemplate> = TemplateMap::new();
    let mut chars = stream("{{nope}}");
    let e = markdown_charbuff_to_html(&mut chars, &templates, &Vec::new(), &String::new(), 0)
        .unwrap_err();
    assert_eq!(
        e.comment,
        "Error occurred while parsing template nope:\nTemplate {{nope}} not found"
    );
}

struct SelfCall {
    count: std::cell::Cell<u32>,
}

impl Template for SelfCall {
    fn render(
        &self,
        _args: Vec<String>,
        templates: &TemplateMap<Self>,
        pages: &Vec<(String, String)>,
        directory: &String,
        depth: u16,
    ) -> Result<(ParsedHTML, ExitMode), ParseError> {
        self.count.set(self.count.get() + 1);
        templates.call(String::from("self"), Vec::new(), pages, directory, depth)
    }
}

#[test]
fn recursion_guard_stops_at_bound_and_never_invokes_beyond() {
    let mut templates: TemplateMap<SelfCall> = TemplateMap::new();
    templates.insert(String::from("self"), SelfCall { count: std::cell::Cell::new(0) });
    let mut chars = stream("{{self}}");
    let e = markdown_charbuff_to_html(&mut chars, &templates, &Vec::new(), &String::new(), 0)
        .unwrap_err();
    assert!(e.comment.contains("Maximum template recursion depth exceeded."));
    // the renderer ran exactly once per depth level within the bound: never a 129th time
    assert_eq!(templates.entries[0].1.count.get(), 128);
}

#[test]
fn quote_continuation_lines_nest() {
    // each continuation line's marker opens a further quote level, and a
    // blank line closes them all
    let (p, _) = parse_primed("> a\n> b\n\n").unwrap();
    assert!(p.html.contains("<blockquote>a<blockquote>b</blockquote></blockquote>"));
}

struct LinkyTemplate;

impl Template for LinkyTemplate {
    fn render(
        &self,
        _args: Vec<String>,
        _templates: &TemplateMap<Self>,
        _pages: &Vec<(String, String)>,
        _directory: &String,
        _depth: u16,
    ) -> Result<(ParsedHTML, ExitMode), ParseError> {
        Ok((
            ParsedHTML {
                html: String::from("L"),
                links_to: vec![String::from("x")],
                parents: vec![String::from("y")],
            },
            ExitMode::EndOfFile,
        ))
    }
}

#[test]
fn template_results_merge_in_order_without_dedup() {
    let mut templates: TemplateMap<LinkyTemplate> = TemplateMap::new();
    templates.insert(String::from("l"), LinkyTemplate);
    let mut chars = stream("a{{l}}b{{l}}c");
    let (p, _) =
        markdown_charbuff_to_html(&mut chars, &templates, &Vec::new(), &String::new(), 0).unwrap();
    assert_eq!(p.html, "<p>aLbLc</p>");
    assert_eq!(p.links_to, vec![String::from("x"), String::from("x")]);
    assert_eq!(p.parents, vec![String::from("y"), String::from("y")]);
}

struct BadExitTemplate;

impl Template for BadExitTemplate {
    fn render(
        &self,
        _args: Vec<String>,
        _templates: &TemplateMap<Self>,
        _pages: &Vec<(String, String)>,
        _directory: &String,
        _depth: u16,
    ) -> Result<(ParsedHTML, ExitMode), ParseError> {
        Ok((
            ParsedHTML { html: String::new(), links_to: Vec::new(), parents: Vec::new() },
            ExitMode::EndOfArgument,
        ))
    }
}

#[test]
fn renderer_with_nonterminal_exit_is_a_contract_violation() {
    let mut templates: TemplateMap<BadExitTemplate> = TemplateMap::new();
    templates.insert(String::from("bad"), BadExitTemplate);
    let mut chars = stream("{{bad}}");
    let e = markdown_charbuff_to_html(&mut chars, &templates, &Vec::new(), &String::new(), 0)
        .unwrap_err();
    assert!(e.comment.contains("bug report"));
}

#[test]
fn inline_code_escape_at_end_fails() {
    let e = parse("`a\\").unwrap_err();
    assert_eq!(e.comment, "File may not end with escape character.");
}

#[test]
fn template_terminator_inside_wikilink_fails() {
    let e = parse("[[a}}").unwrap_err();
    assert_eq!(e.comment, "Cannot close template inside wikilink.");
}

#[test]
fn wikilink_terminator_inside_template_fails() {
    let e = parse("{{a]]").unwrap_err();
    assert_eq!(e.comment, "Stray wiki-link terminator inside template");
}

#[test]
fn end_of_file_inside_template_argument_fails() {
    let e = parse("{{a|b").unwrap_err();
    assert_eq!(e.comment, "End of file inside template argument");
}

#[test]
fn terminator_exit_keeps_accumulated_html_open() {
    // on a terminator exit no closing paragraph tag is appended
    let (p, exit) = parse("ab|rest").unwrap();
    assert_eq!(p.html, "<p>ab");
    assert_eq!(exit, ExitMode::EndOfArgument);
}

#[test]
fn escaped_sequence_round_trip() {
    let (p, _) = parse("a\\*b\\`c").unwrap();
    assert_eq!(p.html, "<p>a*b`c</p>");
}

#[test]
fn finish_top_level_accepts_end_of_file() {
    let r = confoosion_markdown_parser::finish_top_level(parse("hi"));
    assert_eq!(r.unwrap().html, "<p>hi</p>");
}

#[test]
fn finish_top_level_rejects_stray_terminators() {
    let e = confoosion_markdown_parser::finish_top_level(parse("a|")).unwrap_err();
    assert_eq!(e.comment, "Stray argument separator");
    let e = confoosion_markdown_parser::finish_top_level(parse("a}}")).unwrap_err();
    assert_eq!(e.comment, "Stray template terminator");
    let e = confoosion_markdown_parser::finish_top_level(parse("a]]")).unwrap_err();
    assert_eq!(e.comment, "Stray wiki-link terminator");
}

#[test]
fn finish_top_level_passes_errors_through() {
    let e = confoosion_markdown_parser::finish_top_level(parse("**hi")).unwrap_err();
    assert_eq!(e.comment, "Unclosed modifiers left on the stack");
}

#[test]
fn nested_emphasis_general_shape() {
    // an italics span with one bold span inside, arbitrary plain text around
    let (p, _) = parse("*xy **z** w*").unwrap();
    assert_eq!(p.html, "<p><i>xy <b>z</b> w</i></p>");
}

#[test]
fn merge_concatenates_in_order() {
    let mut base = ParsedHTML {
        html: String::from("a"),
        links_to: vec![String::from("l1")],
        parents: vec![String::from("p1")],
    };
    let rendered = ParsedHTML {
        html: String::from("b"),
        links_to: vec![String::from("l2")],
        parents: vec![String::from("p2")],
    };
    base.merge(rendered);
    assert_eq!(base.html, "ab");
    assert_eq!(base.links_to, vec![String::from("l1"), String::from("l2")]);
    assert_eq!(base.parents, vec![String::from("p1"), String::from("p2")]);
}

#[test]
fn template_error_wrap_names_the_template() {
    let c = stream("x");
    let wrapped = confoosion_markdown_parser::handlers::wrap_template_error(
        &c,
        &String::from("tpl"),
        ParseError::empty("inner failure"),
    );
    assert_eq!(wrapped.comment, "Error occurred while parsing template tpl:\ninner failure");
}
