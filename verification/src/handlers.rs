//! One handler per exclusive construct. Each consumes its input and appends
//! to the caller's accumulated result; the escape, code, link and image
//! handlers are specified exactly, character for character, by the scan
//! functions in this module; the template and wiki-link handlers are
//! specified exactly on every path that does not depend on a caller-supplied
//! renderer or on a page's rendered title.

use vstd::prelude::*;
use vstd::string::*;

use crate::ExitMode;
use crate::ParsedHTML;
use crate::delimiter::ExclusiveModifier;
use crate::error::ParseError;
use crate::plain_text;
use crate::putback::PutBackChars;
use crate::strutil::lemma_prefix_append;
use crate::strutil::lemma_prefix_refl;
use crate::strutil::push_char;
use crate::template::MAX_RECURSION_DEPTH;
use crate::template::Template;
use crate::template::TemplateMap;
use crate::template::arg_scan;
use crate::template::read_template_argument;
use crate::title::page_lookup;
use crate::title::read_title;
use crate::title::title_line;

verus! {

/// The position of the first `stop` in `s`, if any.
pub open spec fn find_char(s: Seq<char>, stop: char) -> Option<nat>
    decreases s.len(),
{
    if s.len() == 0 {
        None
    } else if s[0] == stop {
        Some(0)
    } else {
        match find_char(s.skip(1), stop) {
            None => None,
            Some(i) => Some(i + 1),
        }
    }
}

proof fn lemma_find_char_at(s: Seq<char>, stop: char, k: int)
    requires
        0 <= k <= s.len(),
        forall|i: int| 0 <= i < k ==> s[i] != stop,
        k == s.len() || s[k] == stop,
    ensures
        k < s.len() ==> find_char(s, stop) == Some(k as nat),
        k == s.len() ==> find_char(s, stop) is None,
    decreases k,
{
    if k > 0 {
        assert(s[0] != stop);
        assert forall|i: int| 0 <= i < k - 1 implies s.skip(1)[i] != stop by {
            assert(s.skip(1)[i] == s[i + 1]);
        }
        if k < s.len() {
            assert(s.skip(1)[k - 1] == s[k]);
        }
        lemma_find_char_at(s.skip(1), stop, k - 1);
    }
}

/// A found stop character lies inside the text.
pub proof fn lemma_find_char_le(s: Seq<char>, stop: char)
    ensures
        find_char(s, stop) matches Some(i) ==> i < s.len() && s[i as int] == stop,
    decreases s.len(),
{
    if s.len() > 0 && s[0] != stop {
        lemma_find_char_le(s.skip(1), stop);
        match find_char(s.skip(1), stop) {
            None => {},
            Some(i) => {
                assert(s.skip(1)[i as int] == s[i as int + 1]);
            },
        }
    }
}

/// A known suffix position witnesses the suffix relation.
proof fn lemma_suffix_exists(a: Seq<char>, b: Seq<char>, k: int)
    requires
        0 <= k <= a.len(),
        b =~= a.skip(k),
    ensures
        exists|u: int| 0 <= u <= a.len() && b == a.skip(u),
{
    assert(b == a.skip(k));
    assert(0 <= k <= a.len() && b == a.skip(k));
}

/// Reads characters up to and including the first `stop`, yielding the text
/// before it; at end of input without a `stop`, yields nothing with the
/// stream drained.
#[verifier::loop_isolation(false)]
fn read_until(chars: &mut PutBackChars, stop: char) -> (r: Option<String>)
    requires
        old(chars).wf(),
    ensures
        final(chars).wf(),
        find_char(old(chars)@, stop) matches Some(i) ==> (r matches Some(t) && t@ == old(chars)@.take(i as int) && final(chars)@ == old(chars)@.skip(i as int + 1)),
        find_char(old(chars)@, stop) is None ==> r is None && final(chars)@.len() == 0,
{
    let ghost s0 = old(chars)@;
    let mut text = String::new();
    let ghost mut j: int = 0;
    loop
        invariant
            chars.wf(),
            0 <= j <= s0.len(),
            chars@ == s0.skip(j),
            text@ == s0.take(j),
            forall|i: int| 0 <= i < j ==> s0[i] != stop,
        decreases chars@.len(),
    {
        let ghost cur = chars@;
        match chars.next() {
            None => {
                proof {
                    lemma_find_char_at(s0, stop, j);
                }
                return None;
            },
            Some(c) => {
                proof {
                    assert(cur[0] == s0[j]);
                }
                if c == stop {
                    proof {
                        lemma_find_char_at(s0, stop, j);
                        assert(chars@ =~= s0.skip(j + 1));
                    }
                    return Some(text);
                }
                push_char(&mut text, c);
                proof {
                    assert(text@ =~= s0.take(j + 1));
                    j = j + 1;
                    assert(chars@ =~= s0.skip(j));
                }
            },
        }
    }
}


/// What the escape handler guarantees: the single following character is
/// appended verbatim (never interpreted), or the failure at end of input.
pub open spec fn escape_post(
    pre: Seq<char>,
    post: Seq<char>,
    before: ParsedHTML,
    after: ParsedHTML,
    r: Option<ParseError>,
) -> bool {
    &&& (pre.len() > 0 ==> r is None && after.html@ == before.html@.push(pre[0]) && post
        == pre.skip(1))
    &&& (pre.len() == 0 ==> (r matches Some(e) && e.comment@
        == "File may not end with an escape character"@) && after.html@ == before.html@)
    &&& after.links_to == before.links_to
    &&& after.parents == before.parents
}

/// What the paragraph-break handler guarantees: the current paragraph is
/// closed and a new one opened, nothing consumed.
pub open spec fn paragraph_post(
    pre: Seq<char>,
    post: Seq<char>,
    before: ParsedHTML,
    after: ParsedHTML,
    r: Option<ParseError>,
) -> bool {
    &&& r is None
    &&& after.html@ == before.html@ + "</p>\n<p>"@
    &&& post == pre
    &&& after.links_to == before.links_to
    &&& after.parents == before.parents
}

/// What the inline-code handler guarantees, via `inline_code_scan`.
pub open spec fn inline_code_post(
    pre: Seq<char>,
    post: Seq<char>,
    before: ParsedHTML,
    after: ParsedHTML,
    r: Option<ParseError>,
) -> bool {
    &&& (inline_code_scan(pre) matches Some(t) ==> (r is None && after.html@ == before.html@
        + "<code>"@ + t.0 + "</code>"@ && post == pre.skip(t.1 as int)))
    &&& (inline_code_scan(pre) is None ==> (r matches Some(e) && e.comment@
        == "File may not end with escape character."@))
    &&& after.links_to == before.links_to
    &&& after.parents == before.parents
}

/// What the code-block handler guarantees, via `find_char` for the language
/// line and `code_block_scan` for the body.
pub open spec fn code_block_post(
    pre: Seq<char>,
    post: Seq<char>,
    before: ParsedHTML,
    after: ParsedHTML,
    r: Option<ParseError>,
) -> bool {
    &&& match find_char(pre, '\n') {
        None => r matches Some(e) && e.comment@ == "Cannot end file inside codeblock"@
            && after.html@ == before.html@,
        Some(i) => match code_block_scan(pre.skip(i as int + 1)) {
            None => r matches Some(e) && e.comment@ == "Cannot end file inside codeblock"@,
            Some(t) => r is None && after.html@ == before.html@ + "<pre><code class="@
                + pre.take(i as int) + ">"@ + t.0 + "</code></pre>"@ && post == pre.skip(
                i as int + 1,
            ).skip(t.1 as int),
        },
    }
    &&& after.links_to == before.links_to
    &&& after.parents == before.parents
}

/// What the link handler guarantees: anchor emission, degradation to plain
/// text without a parenthesis, and the two unterminated failures.
pub open spec fn link_post(
    pre: Seq<char>,
    post: Seq<char>,
    before: ParsedHTML,
    after: ParsedHTML,
    r: Option<ParseError>,
) -> bool {
    &&& match find_char(pre, ']') {
        None => r matches Some(e) && e.comment@ == "Unterminated link name"@ && after.html@
            == before.html@,
        Some(i) => {
            let name = pre.take(i as int);
            let rest = pre.skip(i as int + 1);
            if rest.len() == 0 || rest[0] != '(' {
                r is None && after.html@ == before.html@ + "["@ + name + "]"@ && post == rest
            } else {
                match find_char(rest.skip(1), ')') {
                    None => r matches Some(e) && e.comment@ == "Unterminated link body"@,
                    Some(j) => r is None && after.html@ == before.html@ + "<a href="@
                        + rest.skip(1).take(j as int) + ">"@ + name + "</a>\n"@ && post
                        == rest.skip(1).skip(j as int + 1),
                }
            }
        },
    }
    &&& after.links_to == before.links_to
    &&& after.parents == before.parents
}

/// What the image handler guarantees; as `link_post`, with the image element
/// and the `!` kept on the degraded text.
pub open spec fn image_post(
    pre: Seq<char>,
    post: Seq<char>,
    before: ParsedHTML,
    after: ParsedHTML,
    r: Option<ParseError>,
) -> bool {
    &&& match find_char(pre, ']') {
        None => r matches Some(e) && e.comment@ == "Unterminated link name"@ && after.html@
            == before.html@,
        Some(i) => {
            let name = pre.take(i as int);
            let rest = pre.skip(i as int + 1);
            if rest.len() == 0 || rest[0] != '(' {
                r is None && after.html@ == before.html@ + "!["@ + name + "]"@ && post == rest
            } else {
                match find_char(rest.skip(1), ')') {
                    None => r matches Some(e) && e.comment@ == "Unterminated link body"@,
                    Some(j) => r is None && after.html@ == before.html@ + "<img src=\""@
                        + rest.skip(1).take(j as int) + "\" alt=\""@ + name + "\"/>\n"@ && post
                        == rest.skip(1).skip(j as int + 1),
                }
            }
        },
    }
    &&& after.links_to == before.links_to
    &&& after.parents == before.parents
}

/// What the template handler guarantees on every path that does not depend
/// on a caller-supplied renderer: the name and argument reads follow
/// `arg_scan`, each malformed shape gets its diagnostic, success implies the
/// depth was admissible and the name bound, and a failure after a successful
/// no-argument read is either a wrapped renderer failure or the
/// internal-contract diagnostic.
pub open spec fn template_post<R: Template>(
    pre: Seq<char>,
    post: Seq<char>,
    before: ParsedHTML,
    after: ParsedHTML,
    templates: TemplateMap<R>,
    depth: u16,
    r: Option<ParseError>,
) -> bool {
    &&& (arg_scan(pre, Seq::empty()) is None ==> r matches Some(_))
    &&& ((arg_scan(pre, Seq::empty()) matches Some(t) && t.1 == ExitMode::EndOfFile) ==> (
    r matches Some(e) && e.comment@ == "Unterminated template"@))
    &&& ((arg_scan(pre, Seq::empty()) matches Some(t) && t.1 == ExitMode::EndOfLink) ==> (
    r matches Some(e) && e.comment@ == "Stray wiki-link terminator inside template"@))
    &&& ((arg_scan(pre, Seq::empty()) matches Some(t) && t.1 == ExitMode::EndOfTemplate
        && depth >= MAX_RECURSION_DEPTH) ==> r matches Some(_))
    &&& ((arg_scan(pre, Seq::empty()) matches Some(t) && t.1 == ExitMode::EndOfTemplate
        && depth < MAX_RECURSION_DEPTH && !templates.contains_name(t.0)) ==> (r matches Some(e)
        && e.comment@ == "Error occurred while parsing template "@ + arg_scan(
        pre,
        Seq::empty(),
    ).unwrap().0 + ":\n"@ + ("Template {{"@ + arg_scan(pre, Seq::empty()).unwrap().0
        + "}} not found"@)))
    &&& ((arg_scan(pre, Seq::empty()) matches Some(t) && t.1 == ExitMode::EndOfArgument
        && crate::template::args_tail_exit(pre.skip(t.2 as int)) == Some(ExitMode::EndOfFile))
        ==> (r matches Some(e) && e.comment@ == "End of file inside template argument"@))
    &&& ((arg_scan(pre, Seq::empty()) matches Some(t) && t.1 == ExitMode::EndOfArgument
        && crate::template::args_tail_exit(pre.skip(t.2 as int)) == Some(ExitMode::EndOfLink))
        ==> (r matches Some(e) && e.comment@
        == "Stray wiki-link terminator inside template argument"@))
    &&& ((arg_scan(pre, Seq::empty()) matches Some(t) && t.1 == ExitMode::EndOfArgument
        && crate::template::args_tail_exit(pre.skip(t.2 as int)) is None) ==> r matches Some(_))
    &&& (r is Some ==> after.html@ == before.html@ && after.links_to == before.links_to
        && after.parents == before.parents)
    &&& (r is None ==> depth < MAX_RECURSION_DEPTH)
    &&& ((arg_scan(pre, Seq::empty()) matches Some(t) && t.1 == ExitMode::EndOfTemplate && r
        is None) ==> templates.contains_name(arg_scan(pre, Seq::empty()).unwrap().0) && post
        == pre.skip(arg_scan(pre, Seq::empty()).unwrap().2 as int) && (exists|h: Seq<char>|
        after.html@ == before.html@ + h))
    &&& ((arg_scan(pre, Seq::empty()) matches Some(t) && t.1 == ExitMode::EndOfTemplate
        && depth < MAX_RECURSION_DEPTH && templates.contains_name(t.0) && r is Some) ==> ((
    exists|inner: Seq<char>|
        r.unwrap().comment@ == "Error occurred while parsing template "@ + arg_scan(
            pre,
            Seq::empty(),
        ).unwrap().0 + ":\n"@ + inner) || r.unwrap().comment@
        == "If you ever get this error, please send a bug report. I'm very curious how you can get this"@))
    &&& before.html@.is_prefix_of(after.html@)
    &&& before.links_to@.is_prefix_of(after.links_to@)
    &&& before.parents@.is_prefix_of(after.parents@)
}

/// What the wiki-link handler guarantees: name and optional label reads
/// follow `arg_scan`, each malformed shape gets its diagnostic, an explicit
/// label or the resolved title (or the literal file name fallback) is
/// emitted in the anchor.
pub open spec fn wikilink_post(
    pre: Seq<char>,
    post: Seq<char>,
    before: ParsedHTML,
    after: ParsedHTML,
    pages: Seq<(String, String)>,
    directory: Seq<char>,
    depth: u16,
    r: Option<ParseError>,
) -> bool {
    &&& match arg_scan(pre, Seq::empty()) {
        None => r matches Some(_),
        Some(t) => {
            let ap = join_path(directory, t.0 + ".md"@);
            match t.1 {
                ExitMode::EndOfFile => r matches Some(e) && e.comment@ == "Unclosed wikilink."@,
                ExitMode::EndOfTemplate => r matches Some(e) && e.comment@
                    == "Cannot close template inside wikilink."@,
                ExitMode::EndOfLink => {
                    &&& r is None
                    &&& post == pre.skip(t.2 as int)
                    &&& (exists|label: Seq<char>|
                        after.html@ == before.html@ + "<a href="@ + ap + ">"@ + label + "</a>"@)
                    &&& (page_lookup(pages, ap) is None ==> r is None && after.html@
                        == before.html@ + "<a href="@ + ap + ">"@ + (t.0 + ".md"@) + "</a>"@
                        && post == pre.skip(t.2 as int))
                    &&& ((page_lookup(pages, ap) matches Some(c) && title_line(c) is None)
                        ==> r is None && after.html@ == before.html@ + "<a href="@ + ap + ">"@
                        + (t.0 + ".md"@) + "</a>"@ && post == pre.skip(t.2 as int))
                    &&& ((page_lookup(pages, ap) is Some && title_line(
                        page_lookup(pages, ap).unwrap(),
                    ) is Some && plain_text(title_line(page_lookup(pages, ap).unwrap()).unwrap())
                        && depth < MAX_RECURSION_DEPTH && page_lookup(pages, ap).unwrap().len()
                        + 2 <= usize::MAX) ==> r is None && after.html@ == before.html@
                        + "<a href="@ + ap + ">"@ + ("<p>"@ + title_line(
                        page_lookup(pages, ap).unwrap(),
                    ).unwrap() + "</p>"@) + "</a>"@ && post == pre.skip(t.2 as int))
                },
                ExitMode::EndOfArgument => match arg_scan(pre.skip(t.2 as int), Seq::empty()) {
                    None => r matches Some(_),
                    Some(t2) => match t2.1 {
                        ExitMode::EndOfArgument => r matches Some(e) && e.comment@
                            == "Cannot supply more than two arguments to a wikilink."@,
                        ExitMode::EndOfTemplate => r matches Some(e) && e.comment@
                            == "Cannot close template inside wikilink."@,
                        ExitMode::EndOfFile => r matches Some(e) && e.comment@
                            == "Unclosed wikilink."@,
                        ExitMode::EndOfLink => r is None && after.html@ == before.html@
                            + "<a href="@ + ap + ">"@ + t2.0 + "</a>"@ && post == pre.skip(
                            t.2 as int,
                        ).skip(t2.2 as int),
                    },
                },
            }
        },
    }
    &&& after.links_to == before.links_to
    &&& after.parents == before.parents
}

/// Appends the single following character literally; fails at end of input.
pub fn handle_escape(chars: &mut PutBackChars, parsed: &mut ParsedHTML) -> (r: Option<ParseError>)
    requires
        old(chars).wf(),
    ensures
        final(chars).wf(),
        exists|u: int| 0 <= u <= old(chars)@.len() && final(chars)@ == old(chars)@.skip(u),
        old(parsed).html@.is_prefix_of(final(parsed).html@),
        escape_post(old(chars)@, final(chars)@, *old(parsed), *final(parsed), r),
{
    match chars.next() {
        Some(c) => {
            push_char(&mut parsed.html, c);
            proof {
                lemma_prefix_append(old(parsed).html@, seq![c]);
                assert(parsed.html@ =~= old(parsed).html@ + seq![c]);
                assert(exists|u: int|
                    0 <= u <= old(chars)@.len() && chars@ == old(chars)@.skip(u)) by {
                    assert(chars@ == old(chars)@.skip(1));
                }
            }
            None
        },
        None => {
            proof {
                lemma_prefix_refl(old(parsed).html@);
                assert(chars@ =~= old(chars)@.skip(0));
            }
            Some(ParseError::from_str(chars, "File may not end with an escape character"))
        },
    }
}

/// Closes the current paragraph and opens a new one.
pub fn handle_paragraph(parsed: &mut ParsedHTML)
    ensures
        final(parsed).html@ == old(parsed).html@ + "</p>\n<p>"@,
        old(parsed).html@.is_prefix_of(final(parsed).html@),
        final(parsed).links_to == old(parsed).links_to,
        final(parsed).parents == old(parsed).parents,
{
    parsed.html.append("</p>\n<p>");
    proof {
        lemma_prefix_append(old(parsed).html@, "</p>\n<p>"@);
    }
}

/// Prefixes `prefix` (consuming `used` characters) onto the outcome of
/// scanning the rest of the input.
pub open spec fn scan_prepend(
    prefix: Seq<char>,
    used: nat,
    rest: Option<(Seq<char>, nat)>,
) -> Option<(Seq<char>, nat)> {
    match rest {
        None => None,
        Some((t, u)) => Some((prefix + t, used + u)),
    }
}

proof fn lemma_scan_prepend_assoc(
    a: Seq<char>,
    u1: nat,
    b: Seq<char>,
    u2: nat,
    x: Option<(Seq<char>, nat)>,
)
    ensures
        scan_prepend(a, u1, scan_prepend(b, u2, x)) == scan_prepend(a + b, u1 + u2, x),
{
    match x {
        None => {},
        Some((t, u)) => {
            assert(a + (b + t) =~= (a + b) + t);
        },
    }
}

/// What an inline code span emits from `s`: characters copied verbatim up to
/// an unescaped backtick or end of input (both close the span), with `\``
/// emitting a bare backtick and any other escape pair kept literally; an
/// escape character at end of input is the one failure.
pub open spec fn inline_code_scan(s: Seq<char>) -> Option<(Seq<char>, nat)>
    decreases s.len(),
{
    if s.len() == 0 {
        Some((Seq::empty(), 0))
    } else if s[0] == '`' {
        Some((Seq::empty(), 1))
    } else if s[0] == '\\' {
        if s.len() == 1 {
            None
        } else if s[1] == '`' {
            scan_prepend(seq!['`'], 2, inline_code_scan(s.skip(2)))
        } else {
            scan_prepend(seq![s[0], s[1]], 2, inline_code_scan(s.skip(2)))
        }
    } else {
        scan_prepend(seq![s[0]], 1, inline_code_scan(s.skip(1)))
    }
}

/// Copies an inline code span verbatim into a `<code>` element, exactly as
/// `inline_code_scan` describes.
#[verifier::rlimit(60)]
pub fn handle_inline_code(chars: &mut PutBackChars, parsed: &mut ParsedHTML) -> (r: Option<
    ParseError,
>)
    requires
        old(chars).wf(),
    ensures
        final(chars).wf(),
        exists|u: int| 0 <= u <= old(chars)@.len() && final(chars)@ == old(chars)@.skip(u),
        old(parsed).html@.is_prefix_of(final(parsed).html@),
        inline_code_post(old(chars)@, final(chars)@, *old(parsed), *final(parsed), r),
{
    let ghost s0 = old(chars)@;
    let ghost html0 = parsed.html@;
    parsed.html.append("<code>");
    let ghost mut used: int = 0;
    let ghost mut emitted: Seq<char> = Seq::empty();
    loop
        invariant_except_break
            inline_code_scan(s0) == scan_prepend(emitted, used as nat, inline_code_scan(chars@)),
        invariant
            s0 == old(chars)@,
            html0 == old(parsed).html@,
            chars.wf(),
            s0.len() + 1 <= usize::MAX,
            0 <= used <= s0.len(),
            chars@ == s0.skip(used),
            parsed.html@ == html0 + "<code>"@ + emitted,
            parsed.links_to == old(parsed).links_to,
            parsed.parents == old(parsed).parents,
        ensures
            chars.wf(),
            0 <= used <= s0.len(),
            chars@ == s0.skip(used),
            parsed.html@ == html0 + "<code>"@ + emitted,
            parsed.links_to == old(parsed).links_to,
            parsed.parents == old(parsed).parents,
            inline_code_scan(s0) == Some((emitted, used as nat)),
        decreases chars@.len(),
    {
        let ghost cur = chars@;
        let ghost em0 = emitted;
        match chars.next() {
            None => {
                proof {
                    assert(inline_code_scan(cur) == Some((Seq::<char>::empty(), 0nat)));
                    assert(emitted + Seq::<char>::empty() =~= emitted);
                }
                break;
            },
            Some('`') => {
                proof {
                    assert(cur[0] == '`');
                    assert(inline_code_scan(cur) == Some((Seq::<char>::empty(), 1nat)));
                    assert(emitted + Seq::<char>::empty() =~= emitted);
                    used = used + 1;
                    assert(chars@ =~= s0.skip(used));
                }
                break;
            },
            Some('\\') => {
                match chars.next() {
                    None => {
                        proof {
                            assert(cur.len() == 1);
                            assert(inline_code_scan(cur) is None);
                            assert(chars@ =~= s0.skip(s0.len() as int));
                            lemma_prefix_append(html0, "<code>"@ + emitted);
                            assert(html0 + ("<code>"@ + emitted) =~= parsed.html@);
                        }
                        return Some(
                            ParseError::from_str(chars, "File may not end with escape character."),
                        );
                    },
                    Some(c2) => {
                        proof {
                            assert(cur[1] == c2);
                        }
                        if c2 == '`' {
                            push_char(&mut parsed.html, '`');
                            proof {
                                assert(chars@ =~= cur.skip(2));
                                assert(inline_code_scan(cur) == scan_prepend(
                                    seq!['`'],
                                    2nat,
                                    inline_code_scan(cur.skip(2)),
                                ));
                                emitted = em0 + seq!['`'];
                                assert(parsed.html@ =~= html0 + "<code>"@ + emitted);
                                lemma_scan_prepend_assoc(
                                    em0,
                                    used as nat,
                                    seq!['`'],
                                    2,
                                    inline_code_scan(cur.skip(2)),
                                );
                                used = used + 2;
                                assert(chars@ =~= s0.skip(used));
                                assert(inline_code_scan(s0) == scan_prepend(
                                    emitted,
                                    used as nat,
                                    inline_code_scan(chars@),
                                ));
                            }
                        } else {
                            push_char(&mut parsed.html, '\\');
                            push_char(&mut parsed.html, c2);
                            proof {
                                assert(chars@ =~= cur.skip(2));
                                assert(inline_code_scan(cur) == scan_prepend(
                                    seq![cur[0], cur[1]],
                                    2nat,
                                    inline_code_scan(cur.skip(2)),
                                ));
                                emitted = em0 + seq![cur[0], cur[1]];
                                assert(parsed.html@ =~= html0 + "<code>"@ + emitted);
                                lemma_scan_prepend_assoc(
                                    em0,
                                    used as nat,
                                    seq![cur[0], cur[1]],
                                    2,
                                    inline_code_scan(cur.skip(2)),
                                );
                                used = used + 2;
                                assert(chars@ =~= s0.skip(used));
                                assert(inline_code_scan(s0) == scan_prepend(
                                    emitted,
                                    used as nat,
                                    inline_code_scan(chars@),
                                ));
                            }
                        }
                    },
                }
            },
            Some(c) => {
                push_char(&mut parsed.html, c);
                proof {
                    assert(cur[0] == c);
                    assert(inline_code_scan(cur) == scan_prepend(
                        seq![cur[0]],
                        1nat,
                        inline_code_scan(cur.skip(1)),
                    ));
                    emitted = em0 + seq![cur[0]];
                    assert(parsed.html@ =~= html0 + "<code>"@ + emitted);
                    lemma_scan_prepend_assoc(
                        em0,
                        used as nat,
                        seq![cur[0]],
                        1,
                        inline_code_scan(cur.skip(1)),
                    );
                    used = used + 1;
                    assert(chars@ =~= s0.skip(used));
                    assert(inline_code_scan(s0) == scan_prepend(
                        emitted,
                        used as nat,
                        inline_code_scan(chars@),
                    ));
                }
            },
        }
    }
    parsed.html.append("</code>");
    proof {
        assert(parsed.html@ =~= html0 + "<code>"@ + emitted + "</code>"@);
        lemma_prefix_append(html0, "<code>"@ + emitted + "</code>"@);
        assert(html0 + ("<code>"@ + emitted + "</code>"@) =~= parsed.html@);
        assert(html0.is_prefix_of(parsed.html@));
        lemma_suffix_exists(s0, chars@, used);
    }
    None
}

/// What a fenced code block's body emits from `s`: characters copied
/// verbatim until a line consisting of exactly three backticks; a near-miss
/// backtick sequence after a newline is re-emitted literally; end of input
/// before the closing fence is the failure.
pub open spec fn code_block_scan(s: Seq<char>) -> Option<(Seq<char>, nat)>
    decreases s.len(),
{
    if s.len() == 0 {
        None
    } else if s[0] == '\n' {
        if s.len() == 1 {
            None
        } else if s[1] != '`' {
            scan_prepend(seq![s[0], s[1]], 2, code_block_scan(s.skip(2)))
        } else if s.len() == 2 {
            None
        } else if s[2] != '`' {
            scan_prepend(seq![s[0], s[1], s[2]], 3, code_block_scan(s.skip(3)))
        } else if s.len() == 3 {
            None
        } else if s[3] != '`' {
            scan_prepend(seq![s[0], s[1], s[2], s[3]], 4, code_block_scan(s.skip(4)))
        } else if s.len() == 4 {
            None
        } else if s[4] == '\n' {
            Some((Seq::empty(), 5))
        } else {
            scan_prepend(seq![s[0], s[1], s[2], s[3], s[4]], 5, code_block_scan(s.skip(5)))
        }
    } else {
        scan_prepend(seq![s[0]], 1, code_block_scan(s.skip(1)))
    }
}

/// Reads a fenced code block: the first line is the language tag, emitted as
/// a class attribute; the body is copied verbatim as `code_block_scan`
/// describes; an unterminated block fails.
#[verifier::rlimit(100)]
pub fn handle_code_block(chars: &mut PutBackChars, parsed: &mut ParsedHTML) -> (r: Option<
    ParseError,
>)
    requires
        old(chars).wf(),
    ensures
        final(chars).wf(),
        exists|u: int| 0 <= u <= old(chars)@.len() && final(chars)@ == old(chars)@.skip(u),
        old(parsed).html@.is_prefix_of(final(parsed).html@),
        code_block_post(old(chars)@, final(chars)@, *old(parsed), *final(parsed), r),
{
    let ghost s0 = old(chars)@;
    let ghost html0 = parsed.html@;
    let name = match read_until(chars, '\n') {
        None => {
            proof {
                lemma_prefix_refl(html0);
                assert(chars@ =~= s0.skip(s0.len() as int));
            }
            return Some(ParseError::from_str(chars, "Cannot end file inside codeblock"));
        },
        Some(n) => n,
    };
    let ghost rest0 = chars@;
    parsed.html.append("<pre><code class=");
    parsed.html.append(name.as_str());
    parsed.html.append(">");
    let ghost head = html0 + "<pre><code class="@ + name@ + ">"@;
    proof {
        assert(parsed.html@ =~= head);
    }
    let ghost mut used: int = 0;
    let ghost mut emitted: Seq<char> = Seq::empty();
    loop
        invariant_except_break
            code_block_scan(rest0) == scan_prepend(
                emitted,
                used as nat,
                code_block_scan(chars@),
            ),
        invariant
            s0 == old(chars)@,
            html0 == old(parsed).html@,
            find_char(s0, '\n') is Some,
            rest0 == s0.skip(find_char(s0, '\n').unwrap() as int + 1),
            head == html0 + "<pre><code class="@ + s0.take(find_char(s0, '\n').unwrap() as int)
                + ">"@,
            name@ == s0.take(find_char(s0, '\n').unwrap() as int),
            chars.wf(),
            rest0.len() + 1 <= usize::MAX,
            0 <= used <= rest0.len(),
            chars@ == rest0.skip(used),
            parsed.html@ == head + emitted,
            parsed.links_to == old(parsed).links_to,
            parsed.parents == old(parsed).parents,
        ensures
            chars.wf(),
            0 <= used <= rest0.len(),
            chars@ == rest0.skip(used),
            parsed.html@ == head + emitted,
            parsed.links_to == old(parsed).links_to,
            parsed.parents == old(parsed).parents,
            code_block_scan(rest0) == Some((emitted, used as nat)),
        decreases chars@.len(),
    {
        let ghost cur = chars@;
        let ghost em0 = emitted;
        let c = match chars.next() {
            None => {
                proof {
                    assert(code_block_scan(cur) is None);
                }
                proof {
                    assert(chars@ =~= s0.skip(s0.len() as int));
                    lemma_prefix_append(html0, "<pre><code class="@ + name@ + ">"@ + emitted);
                    assert(html0 + ("<pre><code class="@ + name@ + ">"@ + emitted)
                        =~= parsed.html@);
                }
                return Some(ParseError::from_str(chars, "Cannot end file inside codeblock"));
            },
            Some(c) => c,
        };
        proof {
            assert(cur[0] == c);
        }
        if c != '\n' {
            push_char(&mut parsed.html, c);
            proof {
                emitted = em0 + seq![cur[0]];
                assert(parsed.html@ =~= head + emitted);
                lemma_scan_prepend_assoc(
                    em0,
                    used as nat,
                    seq![cur[0]],
                    1,
                    code_block_scan(cur.skip(1)),
                );
                used = used + 1;
                assert(chars@ =~= rest0.skip(used));
            }
            continue;
        }
        let c2 = match chars.next() {
            None => {
                proof {
                    assert(cur.len() == 1);
                    assert(code_block_scan(cur) is None);
                }
                proof {
                    assert(chars@ =~= s0.skip(s0.len() as int));
                    lemma_prefix_append(html0, "<pre><code class="@ + name@ + ">"@ + emitted);
                    assert(html0 + ("<pre><code class="@ + name@ + ">"@ + emitted)
                        =~= parsed.html@);
                }
                return Some(ParseError::from_str(chars, "Cannot end file inside codeblock"));
            },
            Some(c2) => c2,
        };
        proof {
            assert(cur[1] == c2);
        }
        if c2 != '`' {
            push_char(&mut parsed.html, '\n');
            push_char(&mut parsed.html, c2);
            proof {
                assert(chars@ =~= cur.skip(2));
                emitted = em0 + seq![cur[0], cur[1]];
                assert(parsed.html@ =~= head + emitted);
                lemma_scan_prepend_assoc(
                    em0,
                    used as nat,
                    seq![cur[0], cur[1]],
                    2,
                    code_block_scan(cur.skip(2)),
                );
                used = used + 2;
                assert(chars@ =~= rest0.skip(used));
            }
            continue;
        }
        let c3 = match chars.next() {
            None => {
                proof {
                    assert(cur.len() == 2);
                    assert(code_block_scan(cur) is None);
                }
                proof {
                    assert(chars@ =~= s0.skip(s0.len() as int));
                    lemma_prefix_append(html0, "<pre><code class="@ + name@ + ">"@ + emitted);
                    assert(html0 + ("<pre><code class="@ + name@ + ">"@ + emitted)
                        =~= parsed.html@);
                }
                return Some(ParseError::from_str(chars, "Cannot end file inside codeblock"));
            },
            Some(c3) => c3,
        };
        proof {
            assert(cur[2] == c3);
        }
        if c3 != '`' {
            push_char(&mut parsed.html, '\n');
            push_char(&mut parsed.html, '`');
            push_char(&mut parsed.html, c3);
            proof {
                assert(chars@ =~= cur.skip(3));
                emitted = em0 + seq![cur[0], cur[1], cur[2]];
                assert(parsed.html@ =~= head + emitted);
                lemma_scan_prepend_assoc(
                    em0,
                    used as nat,
                    seq![cur[0], cur[1], cur[2]],
                    3,
                    code_block_scan(cur.skip(3)),
                );
                used = used + 3;
                assert(chars@ =~= rest0.skip(used));
            }
            continue;
        }
        let c4 = match chars.next() {
            None => {
                proof {
                    assert(cur.len() == 3);
                    assert(code_block_scan(cur) is None);
                }
                proof {
                    assert(chars@ =~= s0.skip(s0.len() as int));
                    lemma_prefix_append(html0, "<pre><code class="@ + name@ + ">"@ + emitted);
                    assert(html0 + ("<pre><code class="@ + name@ + ">"@ + emitted)
                        =~= parsed.html@);
                }
                return Some(ParseError::from_str(chars, "Cannot end file inside codeblock"));
            },
            Some(c4) => c4,
        };
        proof {
            assert(cur[3] == c4);
        }
        if c4 != '`' {
            push_char(&mut parsed.html, '\n');
            push_char(&mut parsed.html, '`');
            push_char(&mut parsed.html, '`');
            push_char(&mut parsed.html, c4);
            proof {
                assert(chars@ =~= cur.skip(4));
                emitted = em0 + seq![cur[0], cur[1], cur[2], cur[3]];
                assert(parsed.html@ =~= head + emitted);
                lemma_scan_prepend_assoc(
                    em0,
                    used as nat,
                    seq![cur[0], cur[1], cur[2], cur[3]],
                    4,
                    code_block_scan(cur.skip(4)),
                );
                used = used + 4;
                assert(chars@ =~= rest0.skip(used));
            }
            continue;
        }
        let c5 = match chars.next() {
            None => {
                proof {
                    assert(cur.len() == 4);
                    assert(code_block_scan(cur) is None);
                }
                proof {
                    assert(chars@ =~= s0.skip(s0.len() as int));
                    lemma_prefix_append(html0, "<pre><code class="@ + name@ + ">"@ + emitted);
                    assert(html0 + ("<pre><code class="@ + name@ + ">"@ + emitted)
                        =~= parsed.html@);
                }
                return Some(ParseError::from_str(chars, "Cannot end file inside codeblock"));
            },
            Some(c5) => c5,
        };
        proof {
            assert(cur[4] == c5);
        }
        if c5 == '\n' {
            proof {
                assert(chars@ =~= cur.skip(5));
                assert(code_block_scan(cur) == Some((Seq::<char>::empty(), 5nat)));
                assert(emitted + Seq::<char>::empty() =~= emitted);
                used = used + 5;
                assert(chars@ =~= rest0.skip(used));
            }
            break;
        }
        push_char(&mut parsed.html, '\n');
        push_char(&mut parsed.html, '`');
        push_char(&mut parsed.html, '`');
        push_char(&mut parsed.html, '`');
        push_char(&mut parsed.html, c5);
        proof {
            assert(chars@ =~= cur.skip(5));
            emitted = em0 + seq![cur[0], cur[1], cur[2], cur[3], cur[4]];
            assert(parsed.html@ =~= head + emitted);
            lemma_scan_prepend_assoc(
                em0,
                used as nat,
                seq![cur[0], cur[1], cur[2], cur[3], cur[4]],
                5,
                code_block_scan(cur.skip(5)),
            );
            used = used + 5;
            assert(chars@ =~= rest0.skip(used));
        }
    }
    parsed.html.append("</code></pre>");
    proof {
        assert(parsed.html@ =~= html0 + "<pre><code class="@ + name@ + ">"@ + emitted
            + "</code></pre>"@);
        lemma_prefix_append(
            html0,
            "<pre><code class="@ + name@ + ">"@ + emitted + "</code></pre>"@,
        );
        assert(html0 + ("<pre><code class="@ + name@ + ">"@ + emitted + "</code></pre>"@)
            =~= parsed.html@);
        lemma_find_char_le(s0, '\n');
        let fi = find_char(s0, '\n').unwrap() as int;
        assert(chars@ =~= s0.skip(fi + 1 + used));
        lemma_suffix_exists(s0, chars@, fi + 1 + used);
    }
    None
}

/// Reads `[`-delimited display text and then a `(`-delimited URL, emitting
/// an anchor; with no parenthesis after the bracket the bracketed text
/// degrades to plain content. An unterminated bracket or parenthesis fails.
pub fn handle_link(chars: &mut PutBackChars, parsed: &mut ParsedHTML) -> (r: Option<ParseError>)
    requires
        old(chars).wf(),
    ensures
        final(chars).wf(),
        exists|u: int| 0 <= u <= old(chars)@.len() && final(chars)@ == old(chars)@.skip(u),
        old(parsed).html@.is_prefix_of(final(parsed).html@),
        link_post(old(chars)@, final(chars)@, *old(parsed), *final(parsed), r),
{
    let ghost s0 = old(chars)@;
    let ghost html0 = parsed.html@;
    let name = match read_until(chars, ']') {
        None => {
            proof {
                lemma_prefix_refl(html0);
                assert(chars@ =~= s0.skip(s0.len() as int));
            }
            return Some(ParseError::from_str(chars, "Unterminated link name"));
        },
        Some(n) => n,
    };
    let ghost rest = chars@;
    let after = chars.next();
    match after {
        Some('(') => {},
        other => {
            chars.putback_maybe(other);
            proof {
                assert(chars@ =~= rest);
            }
            parsed.html.append("[");
            parsed.html.append(name.as_str());
            parsed.html.append("]");
            proof {
                assert(parsed.html@ =~= html0 + ("["@ + name@ + "]"@));
                lemma_prefix_append(html0, "["@ + name@ + "]"@);
                lemma_find_char_le(s0, ']');
                lemma_suffix_exists(s0, chars@, find_char(s0, ']').unwrap() as int + 1);
            }
            return None;
        },
    }
    let url = match read_until(chars, ')') {
        None => {
            proof {
                lemma_prefix_refl(html0);
                assert(chars@ =~= s0.skip(s0.len() as int));
            }
            return Some(ParseError::from_str(chars, "Unterminated link body"));
        },
        Some(u) => u,
    };
    parsed.html.append("<a href=");
    parsed.html.append(url.as_str());
    parsed.html.append(">");
    parsed.html.append(name.as_str());
    parsed.html.append("</a>\n");
    proof {
        assert(parsed.html@ =~= html0 + ("<a href="@ + url@ + ">"@ + name@ + "</a>\n"@));
        lemma_prefix_append(html0, "<a href="@ + url@ + ">"@ + name@ + "</a>\n"@);
        lemma_find_char_le(s0, ']');
        let fi = find_char(s0, ']').unwrap() as int;
        let rest1 = s0.skip(fi + 1).skip(1);
        lemma_find_char_le(rest1, ')');
        let fj = find_char(rest1, ')').unwrap() as int;
        assert(chars@ =~= s0.skip(fi + 1 + 1 + fj + 1));
        lemma_suffix_exists(s0, chars@, fi + 1 + 1 + fj + 1);
    }
    None
}

/// Reads `[`-delimited alternate text and then a `(`-delimited URL, emitting
/// an image element; with no parenthesis the bracketed text degrades to
/// plain content, keeping its leading `!`.
pub fn handle_image(chars: &mut PutBackChars, parsed: &mut ParsedHTML) -> (r: Option<ParseError>)
    requires
        old(chars).wf(),
    ensures
        final(chars).wf(),
        exists|u: int| 0 <= u <= old(chars)@.len() && final(chars)@ == old(chars)@.skip(u),
        old(parsed).html@.is_prefix_of(final(parsed).html@),
        image_post(old(chars)@, final(chars)@, *old(parsed), *final(parsed), r),
{
    let ghost s0 = old(chars)@;
    let ghost html0 = parsed.html@;
    let name = match read_until(chars, ']') {
        None => {
            proof {
                lemma_prefix_refl(html0);
                assert(chars@ =~= s0.skip(s0.len() as int));
            }
            return Some(ParseError::from_str(chars, "Unterminated link name"));
        },
        Some(n) => n,
    };
    let ghost rest = chars@;
    let after = chars.next();
    match after {
        Some('(') => {},
        other => {
            chars.putback_maybe(other);
            proof {
                assert(chars@ =~= rest);
            }
            parsed.html.append("![");
            parsed.html.append(name.as_str());
            parsed.html.append("]");
            proof {
                assert(parsed.html@ =~= html0 + ("!["@ + name@ + "]"@));
                lemma_prefix_append(html0, "!["@ + name@ + "]"@);
                lemma_find_char_le(s0, ']');
                lemma_suffix_exists(s0, chars@, find_char(s0, ']').unwrap() as int + 1);
            }
            return None;
        },
    }
    let url = match read_until(chars, ')') {
        None => {
            proof {
                lemma_prefix_refl(html0);
                assert(chars@ =~= s0.skip(s0.len() as int));
            }
            return Some(ParseError::from_str(chars, "Unterminated link body"));
        },
        Some(u) => u,
    };
    parsed.html.append("<img src=\"");
    parsed.html.append(url.as_str());
    parsed.html.append("\" alt=\"");
    parsed.html.append(name.as_str());
    parsed.html.append("\"/>\n");
    proof {
        assert(parsed.html@ =~= html0 + ("<img src=\""@ + url@ + "\" alt=\""@ + name@
            + "\"/>\n"@));
        lemma_prefix_append(html0, "<img src=\""@ + url@ + "\" alt=\""@ + name@ + "\"/>\n"@);
        lemma_find_char_le(s0, ']');
        let fi = find_char(s0, ']').unwrap() as int;
        let rest1 = s0.skip(fi + 1).skip(1);
        lemma_find_char_le(rest1, ')');
        let fj = find_char(rest1, ')').unwrap() as int;
        assert(chars@ =~= s0.skip(fi + 1 + 1 + fj + 1));
        lemma_suffix_exists(s0, chars@, fi + 1 + 1 + fj + 1);
    }
    None
}

/// The target path of a wiki-link: the base directory and the file name,
/// joined with a separator unless the directory is empty or already ends
/// with one.
pub open spec fn join_path(dir: Seq<char>, name: Seq<char>) -> Seq<char> {
    if dir.len() == 0 {
        name
    } else if dir.last() == '/' {
        dir + name
    } else {
        dir + seq!['/'] + name
    }
}

fn join_path_exec(directory: &String, name: &String) -> (r: String)
    ensures
        r@ == join_path(directory@, name@),
{
    let n = directory.as_str().unicode_len();
    if n == 0 {
        return name.clone();
    }
    let last = directory.as_str().get_char(n - 1);
    let mut r = directory.clone();
    if last != '/' {
        push_char(&mut r, '/');
        proof {
            assert(r@ =~= directory@ + seq!['/']);
        }
    }
    r.append(name.as_str());
    proof {
        if last == '/' {
            assert(r@ =~= directory@ + name@);
        } else {
            assert(r@ =~= directory@ + seq!['/'] + name@);
        }
    }
    r
}

/// Wraps a failed template invocation's error with the template's name for
/// context, at the stream's current position.
pub fn wrap_template_error(chars: &PutBackChars, name: &String, e: ParseError) -> (r: ParseError)
    ensures
        r.comment@ == "Error occurred while parsing template "@ + name@ + ":\n"@ + e.comment@,
        r.line == chars.line_number,
        r.column == chars.column_number,
{
    let mut comment = String::from_str("Error occurred while parsing template ");
    comment.append(name.as_str());
    comment.append(":\n");
    comment.append(e.comment.as_str());
    ParseError::from_string(chars, comment)
}

/// Reads a template invocation: the name, then raw arguments while each ends
/// on an argument separator, until one ends on the template terminator;
/// invokes the registry and merges the rendered result. A name or argument
/// that ends at end of input, or on a wiki-link terminator, fails; a
/// renderer failure is wrapped with the template's name; a renderer that
/// reports any exit but end-of-file is an internal-contract violation.
#[verifier::rlimit(60)]
#[verifier::loop_isolation(false)]
pub fn handle_template<R: Template>(
    chars: &mut PutBackChars,
    parsed: &mut ParsedHTML,
    templates: &TemplateMap<R>,
    pages: &Vec<(String, String)>,
    directory: &String,
    depth: u16,
) -> (r: Option<ParseError>)
    requires
        old(chars).wf(),
    ensures
        final(chars).wf(),
        exists|u: int| 0 <= u <= old(chars)@.len() && final(chars)@ == old(chars)@.skip(u),
        old(parsed).html@.is_prefix_of(final(parsed).html@),
        template_post(old(chars)@, final(chars)@, *old(parsed), *final(parsed), *templates, depth, r),
{
    let ghost s0 = old(chars)@;
    let ghost html0 = parsed.html@;
    proof {
        lemma_prefix_refl(html0);
        lemma_prefix_refl(old(parsed).links_to@);
        lemma_prefix_refl(old(parsed).parents@);
    }
    let (name, name_exit) = match read_template_argument(chars) {
        Err(e) => {
            return Some(e);
        },
        Ok(p) => p,
    };
    let ghost scan1 = arg_scan(s0, Seq::empty());
    match name_exit {
        ExitMode::EndOfFile => {
            return Some(ParseError::from_str(chars, "Unterminated template"));
        },
        ExitMode::EndOfLink => {
            return Some(ParseError::from_str(chars, "Stray wiki-link terminator inside template"));
        },
        _ => {},
    }
    let mut args: Vec<String> = Vec::new();
    let ghost tail_start = chars@;
    if matches!(name_exit, ExitMode::EndOfArgument) {
        let mut finished = false;
        while !finished
            invariant
                chars.wf(),
                scan1 matches Some(t) && t.1 == ExitMode::EndOfArgument,
                tail_start == s0.skip(scan1.unwrap().2 as int),
                exists|u: int| 0 <= u <= s0.len() && chars@ == s0.skip(u),
                !finished ==> crate::template::args_tail_exit(tail_start)
                    == crate::template::args_tail_exit(chars@),
                finished ==> crate::template::args_tail_exit(tail_start) == Some(
                    ExitMode::EndOfTemplate,
                ),
                parsed.html@ == html0,
                parsed.links_to == old(parsed).links_to,
                parsed.parents == old(parsed).parents,
            decreases chars@.len(),
        {
            let ghost cur = chars@;
            match read_template_argument(chars) {
                Err(e) => {
                    proof {
                        reveal(crate::template::args_tail_exit);
                        assert(crate::template::args_tail_exit(cur) is None);
                        let u0 = choose|u: int| 0 <= u <= s0.len() && cur == s0.skip(u);
                        let u1 = choose|u: int| 0 <= u <= cur.len() && chars@ == cur.skip(u);
                        assert(chars@ =~= s0.skip(u0 + u1));
                    }
                    return Some(e);
                },
                Ok((result, reason)) => {
                    args.push(result);
                    match reason {
                        ExitMode::EndOfArgument => {
                            proof {
                                reveal(crate::template::args_tail_exit);
                                crate::template::lemma_arg_scan_progress(cur, Seq::empty());
                                let u0 = choose|u: int| 0 <= u <= s0.len() && cur == s0.skip(u);
                                let t2 = arg_scan(cur, Seq::empty()).unwrap();
                                assert(chars@ == cur.skip(t2.2 as int));
                                assert(crate::template::args_tail_exit(cur)
                                    == crate::template::args_tail_exit(chars@));
                                assert(chars@ =~= s0.skip(u0 + t2.2));
                            }
                        },
                        ExitMode::EndOfTemplate => {
                            proof {
                                reveal(crate::template::args_tail_exit);
                                crate::template::lemma_arg_scan_progress(cur, Seq::empty());
                                let u0 = choose|u: int| 0 <= u <= s0.len() && cur == s0.skip(u);
                                let t2 = arg_scan(cur, Seq::empty()).unwrap();
                                assert(chars@ == cur.skip(t2.2 as int));
                                assert(crate::template::args_tail_exit(cur) == Some(
                                    ExitMode::EndOfTemplate,
                                ));
                                assert(chars@ =~= s0.skip(u0 + t2.2));
                            }
                            finished = true;
                        },
                        ExitMode::EndOfFile => {
                            proof {
                                reveal(crate::template::args_tail_exit);
                                crate::template::lemma_arg_scan_progress(cur, Seq::empty());
                                let u0 = choose|u: int| 0 <= u <= s0.len() && cur == s0.skip(u);
                                let t2 = arg_scan(cur, Seq::empty()).unwrap();
                                assert(chars@ == cur.skip(t2.2 as int));
                                assert(crate::template::args_tail_exit(cur) == Some(
                                    ExitMode::EndOfFile,
                                ));
                                assert(chars@ =~= s0.skip(u0 + t2.2));
                            }
                            return Some(
                                ParseError::from_str(chars, "End of file inside template argument"),
                            );
                        },
                        ExitMode::EndOfLink => {
                            proof {
                                reveal(crate::template::args_tail_exit);
                                crate::template::lemma_arg_scan_progress(cur, Seq::empty());
                                let u0 = choose|u: int| 0 <= u <= s0.len() && cur == s0.skip(u);
                                let t2 = arg_scan(cur, Seq::empty()).unwrap();
                                assert(chars@ == cur.skip(t2.2 as int));
                                assert(crate::template::args_tail_exit(cur) == Some(
                                    ExitMode::EndOfLink,
                                ));
                                assert(chars@ =~= s0.skip(u0 + t2.2));
                            }
                            return Some(
                                ParseError::from_str(
                                    chars,
                                    "Stray wiki-link terminator inside template argument",
                                ),
                            );
                        },
                    }
                },
            }
        }
    }
    let name_for_error = name.clone();
    let ghost name_view = name@;
    match templates.call(name, args, pages, directory, depth) {
        Ok((result, exit)) => {
            if matches!(exit, ExitMode::EndOfFile) {
                let ghost lt0 = parsed.links_to@;
                let ghost pt0 = parsed.parents@;
                let ghost rh = result.html@;
                parsed.merge(result);
                proof {
                    lemma_prefix_append(html0, rh);
                    lemma_prefix_append(lt0, parsed.links_to@.skip(lt0.len() as int));
                    assert(lt0.is_prefix_of(parsed.links_to@)) by {
                        assert(parsed.links_to@.subrange(0, lt0.len() as int) =~= lt0);
                    }
                    assert(pt0.is_prefix_of(parsed.parents@)) by {
                        assert(parsed.parents@.subrange(0, pt0.len() as int) =~= pt0);
                    }
                    assert(exists|h: Seq<char>| parsed.html@ == html0 + h) by {
                        assert(parsed.html@ == html0 + rh);
                    }
                }
                None
            } else {
                Some(
                    ParseError::from_str(
                        chars,
                        "If you ever get this error, please send a bug report. I'm very curious how you can get this",
                    ),
                )
            }
        },
        Err(e) => {
            let wrapped = wrap_template_error(chars, &name_for_error, e);
            proof {
                assert(exists|inner: Seq<char>|
                    wrapped.comment@ == "Error occurred while parsing template "@ + name_view
                        + ":\n"@ + inner) by {
                    assert(wrapped.comment@ == "Error occurred while parsing template "@
                        + name_view + ":\n"@ + e.comment@);
                }
            }
            Some(wrapped)
        },
    }
}

/// Reads a wiki-link: the target name, an optional explicit display label
/// after one separator, resolution of the target to a `.md` path under the
/// base directory, title resolution when no label was given (falling back to
/// the literal file name), and emission of the anchor.
#[verifier::rlimit(100)]
#[verifier::loop_isolation(false)]
pub fn handle_wikilink(
    chars: &mut PutBackChars,
    parsed: &mut ParsedHTML,
    pages: &Vec<(String, String)>,
    directory: &String,
    depth: u16,
) -> (r: Option<ParseError>)
    requires
        old(chars).wf(),
        depth <= MAX_RECURSION_DEPTH,
    ensures
        final(chars).wf(),
        exists|u: int| 0 <= u <= old(chars)@.len() && final(chars)@ == old(chars)@.skip(u),
        old(parsed).html@.is_prefix_of(final(parsed).html@),
        wikilink_post(
            old(chars)@,
            final(chars)@,
            *old(parsed),
            *final(parsed),
            pages@,
            directory@,
            depth,
            r,
        ),
    decreases MAX_RECURSION_DEPTH - depth, 1int,
{
    let ghost s0 = old(chars)@;
    let ghost html0 = parsed.html@;
    proof {
        lemma_prefix_refl(html0);
        assert(s0.skip(0) =~= s0);
    }
    let (name, reason) = match read_template_argument(chars) {
        Err(e) => {
            return Some(e);
        },
        Ok(p) => p,
    };
    let ghost scan1 = arg_scan(s0, Seq::empty());
    proof {
        crate::template::lemma_arg_scan_progress(s0, Seq::empty());
    }
    let mut full_name = name;
    full_name.append(".md");
    let absolute_path = join_path_exec(directory, &full_name);
    let display_name = match reason {
        ExitMode::EndOfFile => {
            proof {
                lemma_suffix_exists(s0, chars@, scan1.unwrap().2 as int);
            }
            return Some(ParseError::from_str(chars, "Unclosed wikilink."));
        },
        ExitMode::EndOfTemplate => {
            proof {
                lemma_suffix_exists(s0, chars@, scan1.unwrap().2 as int);
            }
            return Some(ParseError::from_str(chars, "Cannot close template inside wikilink."));
        },
        ExitMode::EndOfArgument => {
            let ghost mid = chars@;
            proof {
                crate::template::lemma_arg_scan_progress(mid, Seq::empty());
            }
            match read_template_argument(chars) {
                Err(e) => {
                    proof {
                        let u1 = choose|u: int| 0 <= u <= mid.len() && chars@ == mid.skip(u);
                        assert(chars@ =~= s0.skip(scan1.unwrap().2 + u1));
                    }
                    return Some(e);
                },
                Ok((out, reason2)) => {
                    proof {
                        let k1 = scan1.unwrap().2 as int;
                        let k2 = arg_scan(mid, Seq::empty()).unwrap().2 as int;
                        assert(chars@ == mid.skip(k2));
                        assert(chars@ =~= s0.skip(k1 + k2));
                        lemma_suffix_exists(s0, chars@, k1 + k2);
                    }
                    match reason2 {
                        ExitMode::EndOfArgument => {
                            return Some(
                                ParseError::from_str(
                                    chars,
                                    "Cannot supply more than two arguments to a wikilink.",
                                ),
                            );
                        },
                        ExitMode::EndOfTemplate => {
                            return Some(
                                ParseError::from_str(
                                    chars,
                                    "Cannot close template inside wikilink.",
                                ),
                            );
                        },
                        ExitMode::EndOfFile => {
                            return Some(ParseError::from_str(chars, "Unclosed wikilink."));
                        },
                        ExitMode::EndOfLink => out,
                    }
                },
            }
        },
        ExitMode::EndOfLink => {
            proof {
                lemma_suffix_exists(s0, chars@, scan1.unwrap().2 as int);
            }
            match read_title(pages, &absolute_path, depth) {
                Some(title) => title,
                None => full_name.clone(),
            }
        },
    };
    parsed.html.append("<a href=");
    parsed.html.append(absolute_path.as_str());
    parsed.html.append(">");
    parsed.html.append(display_name.as_str());
    parsed.html.append("</a>");
    proof {
        assert(parsed.html@ =~= html0 + ("<a href="@ + absolute_path@ + ">"@ + display_name@
            + "</a>"@));
        lemma_prefix_append(html0, "<a href="@ + absolute_path@ + ">"@ + display_name@
            + "</a>"@);
        assert(parsed.html@ =~= html0 + "<a href="@ + absolute_path@ + ">"@ + display_name@
            + "</a>"@);
    }
    None
}

impl ExclusiveModifier {
    /// Dispatches one recognized exclusive construct to its handler. The
    /// three terminators never reach here: the block parser returns on them.
    pub fn to_html<R: Template>(
        self,
        chars: &mut PutBackChars,
        parsed: &mut ParsedHTML,
        templates: &TemplateMap<R>,
        pages: &Vec<(String, String)>,
        directory: &String,
        depth: u16,
    ) -> (r: Option<ParseError>)
        requires
            old(chars).wf(),
            depth <= MAX_RECURSION_DEPTH,
            self != ExclusiveModifier::EndOfArgument,
            self != ExclusiveModifier::EndOfTemplate,
            self != ExclusiveModifier::EndOfLink,
        ensures
            final(chars).wf(),
            exists|u: int| 0 <= u <= old(chars)@.len() && final(chars)@ == old(chars)@.skip(u),
            old(parsed).html@.is_prefix_of(final(parsed).html@),
            old(parsed).links_to@.is_prefix_of(final(parsed).links_to@),
            old(parsed).parents@.is_prefix_of(final(parsed).parents@),
            self == ExclusiveModifier::Escape ==> escape_post(
                old(chars)@,
                final(chars)@,
                *old(parsed),
                *final(parsed),
                r,
            ),
            self == ExclusiveModifier::Paragraph ==> paragraph_post(
                old(chars)@,
                final(chars)@,
                *old(parsed),
                *final(parsed),
                r,
            ),
            self == ExclusiveModifier::InlineCode ==> inline_code_post(
                old(chars)@,
                final(chars)@,
                *old(parsed),
                *final(parsed),
                r,
            ),
            self == ExclusiveModifier::CodeBlock ==> code_block_post(
                old(chars)@,
                final(chars)@,
                *old(parsed),
                *final(parsed),
                r,
            ),
            self == ExclusiveModifier::Link ==> link_post(
                old(chars)@,
                final(chars)@,
                *old(parsed),
                *final(parsed),
                r,
            ),
            self == ExclusiveModifier::Image ==> image_post(
                old(chars)@,
                final(chars)@,
                *old(parsed),
                *final(parsed),
                r,
            ),
            self == ExclusiveModifier::Template ==> template_post(
                old(chars)@,
                final(chars)@,
                *old(parsed),
                *final(parsed),
                *templates,
                depth,
                r,
            ),
            self == ExclusiveModifier::WikiLink ==> wikilink_post(
                old(chars)@,
                final(chars)@,
                *old(parsed),
                *final(parsed),
                pages@,
                directory@,
                depth,
                r,
            ),
        decreases MAX_RECURSION_DEPTH - depth, 2int,
    {
        match self {
            ExclusiveModifier::Escape => {
                let r = handle_escape(chars, parsed);
                proof {
                    lemma_prefix_refl(old(parsed).links_to@);
                    lemma_prefix_refl(old(parsed).parents@);
                }
                r
            },
            ExclusiveModifier::Template => handle_template(
                chars,
                parsed,
                templates,
                pages,
                directory,
                depth,
            ),
            ExclusiveModifier::WikiLink => {
                let r = handle_wikilink(chars, parsed, pages, directory, depth);
                proof {
                    lemma_prefix_refl(old(parsed).links_to@);
                    lemma_prefix_refl(old(parsed).parents@);
                }
                r
            },
            ExclusiveModifier::InlineCode => {
                let r = handle_inline_code(chars, parsed);
                proof {
                    lemma_prefix_refl(old(parsed).links_to@);
                    lemma_prefix_refl(old(parsed).parents@);
                }
                r
            },
            ExclusiveModifier::CodeBlock => {
                let r = handle_code_block(chars, parsed);
                proof {
                    lemma_prefix_refl(old(parsed).links_to@);
                    lemma_prefix_refl(old(parsed).parents@);
                }
                r
            },
            ExclusiveModifier::Paragraph => {
                handle_paragraph(parsed);
                proof {
                    lemma_prefix_append(old(parsed).html@, "</p>\n<p>"@);
                    lemma_prefix_refl(old(parsed).links_to@);
                    lemma_prefix_refl(old(parsed).parents@);
                    assert(chars@ =~= old(chars)@.skip(0));
                }
                None
            },
            ExclusiveModifier::Link => {
                let r = handle_link(chars, parsed);
                proof {
                    lemma_prefix_refl(old(parsed).links_to@);
                    lemma_prefix_refl(old(parsed).parents@);
                }
                r
            },
            ExclusiveModifier::Image => {
                let r = handle_image(chars, parsed);
                proof {
                    lemma_prefix_refl(old(parsed).links_to@);
                    lemma_prefix_refl(old(parsed).parents@);
                }
                r
            },
            _ => {
                proof {
                    assert(false);
                }
                None
            },
        }
    }
}

} // verus!
