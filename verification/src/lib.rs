//! A lightweight markup to HTML converter: a character stream with pushback,
//! a delimiter recognizer, a recursive block parser with a stack of open
//! inline modifiers, a template registry with a recursion-depth guard, and
//! wiki-link title resolution over a caller-supplied set of pages.

use vstd::prelude::*;

mod strutil;
pub mod delimiter;
pub mod error;
pub mod handlers;
pub mod putback;
pub mod template;
pub mod title;

use crate::delimiter::Delimiter;
use crate::delimiter::ExclusiveModifier;
use crate::delimiter::TextModifier;
use crate::delimiter::find_open_delimiter;
use crate::delimiter::has_close_delimiter;
use crate::delimiter::open_delim;
use crate::delimiter::open_delim_used;
use crate::error::ParseError;
use crate::putback::PutBackChars;
use crate::strutil::lemma_concat_empty;
use crate::strutil::lemma_cons_head;
use crate::strutil::lemma_skip_skip;
use crate::strutil::lemma_take_concat;
use crate::strutil::lemma_take_push;
use crate::strutil::lemma_push_concat;
use crate::strutil::lemma_subrange_empty;
use crate::strutil::lemma_subrange_push;
use crate::strutil::push_char;
use crate::template::MAX_RECURSION_DEPTH;
use crate::template::Template;
use crate::template::TemplateMap;
use vstd::string::*;

verus! {

/// The accumulated output of one block-parser invocation: HTML text plus the
/// ordered lists of outbound link targets and parent references. Nested
/// parses are merged by concatenation, in order, without deduplication.
#[derive(Debug)]
pub struct ParsedHTML {
    pub html: String,
    pub links_to: Vec<String>,
    pub parents: Vec<String>,
}

impl ParsedHTML {
    /// Merges a nested parse's result into this one: HTML text concatenated,
    /// link and parent lists concatenated, order preserved, no deduplication.
    pub fn merge(&mut self, rendered: ParsedHTML)
        ensures
            final(self).html@ == old(self).html@ + rendered.html@,
            final(self).links_to@ == old(self).links_to@ + rendered.links_to@,
            final(self).parents@ == old(self).parents@ + rendered.parents@,
    {
        let mut rendered = rendered;
        self.html.append(rendered.html.as_str());
        self.links_to.append(&mut rendered.links_to);
        self.parents.append(&mut rendered.parents);
    }
}

/// Why a block-parser invocation stopped. A top-level parse must end in
/// `EndOfFile`; the other three report the terminator that was consumed.
#[derive(Debug, Clone, Copy, PartialEq, Eq, Structural)]
pub enum ExitMode {
    EndOfArgument,
    EndOfTemplate,
    EndOfLink,
    EndOfFile,
}

/// The characters that can begin a delimiter; a text made of anything else
/// passes through the parser verbatim.
pub open spec fn is_delim_lead(c: char) -> bool {
    c == '*' || c == '~' || c == '_' || c == '\n' || c == '\\' || c == '!' || c == '`' || c == '['
        || c == '{' || c == '}' || c == ']' || c == '|'
}

/// Text in which no character can begin a delimiter.
pub open spec fn plain_text(s: Seq<char>) -> bool {
    forall|i: int| 0 <= i < s.len() ==> !is_delim_lead(#[trigger] s[i])
}

/// A character that cannot begin a delimiter opens none.
pub proof fn lemma_no_lead_no_delim(s: Seq<char>)
    requires
        s.len() > 0,
        !is_delim_lead(s[0]),
    ensures
        open_delim(s) == None::<Delimiter>,
{
}

/// Text made only of units the parser copies verbatim: a character that
/// cannot begin a delimiter, or a backslash followed by any character.
pub open spec fn escaped_plain(s: Seq<char>) -> bool
    decreases s.len(),
{
    if s.len() == 0 {
        true
    } else if s[0] == '\\' {
        s.len() >= 2 && escaped_plain(s.skip(2))
    } else {
        !is_delim_lead(s[0]) && escaped_plain(s.skip(1))
    }
}

/// The text such input denotes: each escape pair contributes its second
/// character literally, everything else passes through.
pub open spec fn unescape(s: Seq<char>) -> Seq<char>
    decreases s.len(),
{
    if s.len() == 0 {
        Seq::empty()
    } else if s[0] == '\\' {
        if s.len() >= 2 {
            seq![s[1]] + unescape(s.skip(2))
        } else {
            Seq::empty()
        }
    } else {
        seq![s[0]] + unescape(s.skip(1))
    }
}

/// Escaped-plain units followed by a top-level terminator: `|`, `}}` or
/// `]]`.
pub open spec fn plain_then_term(s: Seq<char>) -> bool
    decreases s.len(),
{
    if s.len() == 0 {
        false
    } else if s[0] == '|' {
        true
    } else if s[0] == '}' {
        s.len() >= 2 && s[1] == '}'
    } else if s[0] == ']' {
        s.len() >= 2 && s[1] == ']'
    } else if s[0] == '\\' {
        s.len() >= 2 && plain_then_term(s.skip(2))
    } else {
        !is_delim_lead(s[0]) && plain_then_term(s.skip(1))
    }
}

/// The exit reason the first top-level terminator of `s` yields.
pub open spec fn term_exit(s: Seq<char>) -> ExitMode
    decreases s.len(),
{
    if s.len() == 0 {
        ExitMode::EndOfFile
    } else if s[0] == '|' {
        ExitMode::EndOfArgument
    } else if s[0] == '}' {
        ExitMode::EndOfTemplate
    } else if s[0] == ']' {
        ExitMode::EndOfLink
    } else if s[0] == '\\' {
        if s.len() >= 2 {
            term_exit(s.skip(2))
        } else {
            ExitMode::EndOfFile
        }
    } else {
        term_exit(s.skip(1))
    }
}

/// The unescaped text before the first top-level terminator of `s`.
pub open spec fn term_prefix_unescaped(s: Seq<char>) -> Seq<char>
    decreases s.len(),
{
    if s.len() == 0 {
        Seq::empty()
    } else if s[0] == '|' || s[0] == '}' || s[0] == ']' {
        Seq::empty()
    } else if s[0] == '\\' {
        if s.len() >= 2 {
            seq![s[1]] + term_prefix_unescaped(s.skip(2))
        } else {
            Seq::empty()
        }
    } else {
        seq![s[0]] + term_prefix_unescaped(s.skip(1))
    }
}

/// What remains after the first top-level terminator of `s` is consumed.
pub open spec fn term_rest(s: Seq<char>) -> Seq<char>
    decreases s.len(),
{
    if s.len() == 0 {
        Seq::empty()
    } else if s[0] == '|' {
        s.skip(1)
    } else if s[0] == '}' || s[0] == ']' {
        s.skip(2)
    } else if s[0] == '\\' {
        if s.len() >= 2 {
            term_rest(s.skip(2))
        } else {
            Seq::empty()
        }
    } else {
        term_rest(s.skip(1))
    }
}

/// One step of an escaped-plain text: an escape pair opens the escape
/// construct, any other head opens nothing.
proof fn lemma_escaped_head(s: Seq<char>)
    requires
        escaped_plain(s),
        s.len() > 0,
    ensures
        s[0] == '\\' ==> s.len() >= 2 && open_delim(s) == Some(
            Delimiter::ExclusiveModifier(ExclusiveModifier::Escape),
        ) && escaped_plain(s.skip(2)) && unescape(s) == seq![s[1]] + unescape(s.skip(2)),
        s[0] != '\\' ==> !is_delim_lead(s[0]) && open_delim(s) == None::<Delimiter>
            && escaped_plain(s.skip(1)) && unescape(s) == seq![s[0]] + unescape(s.skip(1)),
{
    if s[0] != '\\' {
        lemma_no_lead_no_delim(s);
    }
}

/// One step of a plain-then-terminator text: the head is a terminator, an
/// escape pair, or a plain character, and the terminator data is preserved
/// across the non-terminator steps.
proof fn lemma_ptt_head(s: Seq<char>)
    requires
        plain_then_term(s),
        s.len() > 0,
    ensures
        s[0] == '|' ==> open_delim(s) == Some(
            Delimiter::ExclusiveModifier(ExclusiveModifier::EndOfArgument),
        ) && term_exit(s) == ExitMode::EndOfArgument && term_prefix_unescaped(s)
            == Seq::<char>::empty() && term_rest(s) == s.skip(1) && open_delim_used(s) == 1,
        s[0] == '}' ==> s.len() >= 2 && s[1] == '}' && open_delim(s) == Some(
            Delimiter::ExclusiveModifier(ExclusiveModifier::EndOfTemplate),
        ) && term_exit(s) == ExitMode::EndOfTemplate && term_prefix_unescaped(s)
            == Seq::<char>::empty() && term_rest(s) == s.skip(2) && open_delim_used(s) == 2,
        s[0] == ']' ==> s.len() >= 2 && s[1] == ']' && open_delim(s) == Some(
            Delimiter::ExclusiveModifier(ExclusiveModifier::EndOfLink),
        ) && term_exit(s) == ExitMode::EndOfLink && term_prefix_unescaped(s)
            == Seq::<char>::empty() && term_rest(s) == s.skip(2) && open_delim_used(s) == 2,
        s[0] == '\\' ==> s.len() >= 2 && open_delim(s) == Some(
            Delimiter::ExclusiveModifier(ExclusiveModifier::Escape),
        ) && plain_then_term(s.skip(2)) && term_prefix_unescaped(s) == seq![s[1]]
            + term_prefix_unescaped(s.skip(2)) && term_exit(s) == term_exit(s.skip(2))
            && term_rest(s) == term_rest(s.skip(2)),
        (s[0] != '|' && s[0] != '}' && s[0] != ']' && s[0] != '\\') ==> !is_delim_lead(s[0])
            && open_delim(s) == None::<Delimiter> && plain_then_term(s.skip(1))
            && term_prefix_unescaped(s) == seq![s[0]] + term_prefix_unescaped(s.skip(1))
            && term_exit(s) == term_exit(s.skip(1)) && term_rest(s) == term_rest(s.skip(1)),
{
    if s[0] != '|' && s[0] != '}' && s[0] != ']' && s[0] != '\\' {
        lemma_no_lead_no_delim(s);
    }
}

/// A bold opening whose remainder holds no delimiter characters, so no
/// closing marker ever comes.
pub open spec fn bold_unclosed_plain(s: Seq<char>) -> bool {
    s.len() >= 2 && s[0] == '*' && s[1] == '*' && plain_text(s.skip(2))
}

/// The index of the inner bold opening in an italics-bold-italics shape:
/// the first `*` after the italics opener.
pub open spec fn ib_open(s: Seq<char>) -> int {
    1 + crate::handlers::find_char(s.skip(1), '*').unwrap() as int
}

/// The index of the inner bold closing: the first `*` after the bold
/// opener.
pub open spec fn ib_close(s: Seq<char>) -> int {
    ib_open(s) + 2 + crate::handlers::find_char(s.skip(ib_open(s) + 2), '*').unwrap() as int
}

/// An italics span wrapping plain text with one bold span inside:
/// `*` A `**` B `**` C `*`, where A is non-empty and A, B, C hold no
/// delimiter characters.
pub open spec fn italics_bold_plain(s: Seq<char>) -> bool {
    &&& s.len() >= 7
    &&& s[0] == '*'
    &&& crate::handlers::find_char(s.skip(1), '*') is Some
    &&& 2 <= ib_open(s)
    &&& ib_open(s) + 1 < s.len()
    &&& s[ib_open(s) + 1] == '*'
    &&& crate::handlers::find_char(s.skip(ib_open(s) + 2), '*') is Some
    &&& ib_close(s) + 1 < s.len()
    &&& s[ib_close(s) + 1] == '*'
    &&& ib_close(s) + 2 <= s.len() - 1
    &&& s[s.len() - 1] == '*'
    &&& plain_text(s.subrange(1, ib_open(s)))
    &&& plain_text(s.subrange(ib_open(s) + 2, ib_close(s)))
    &&& plain_text(s.subrange(ib_close(s) + 2, s.len() - 1))
}

/// The index facts of an italics-bold-italics shape: where the four markers
/// stand and that everything between them is plain.
proof fn lemma_ib_facts(s: Seq<char>)
    requires
        italics_bold_plain(s),
    ensures
        2 <= ib_open(s),
        ib_open(s) + 2 <= ib_close(s),
        ib_close(s) + 2 <= s.len() - 1,
        s[ib_open(s)] == '*',
        s[ib_open(s) + 1] == '*',
        s[ib_close(s)] == '*',
        s[ib_close(s) + 1] == '*',
        s[s.len() - 1] == '*',
        forall|k: int| 1 <= k < ib_open(s) ==> !is_delim_lead(#[trigger] s[k]),
        forall|k: int| ib_open(s) + 2 <= k < ib_close(s) ==> !is_delim_lead(#[trigger] s[k]),
        forall|k: int| ib_close(s) + 2 <= k < s.len() - 1 ==> !is_delim_lead(#[trigger] s[k]),
{
    crate::handlers::lemma_find_char_le(s.skip(1), '*');
    let fi = crate::handlers::find_char(s.skip(1), '*').unwrap() as int;
    assert(s.skip(1)[fi] == s[fi + 1]);
    crate::handlers::lemma_find_char_le(s.skip(ib_open(s) + 2), '*');
    let fj = crate::handlers::find_char(s.skip(ib_open(s) + 2), '*').unwrap() as int;
    assert(s.skip(ib_open(s) + 2)[fj] == s[ib_open(s) + 2 + fj]);
    assert forall|k: int| 1 <= k < ib_open(s) implies !is_delim_lead(#[trigger] s[k]) by {
        assert(s.subrange(1, ib_open(s))[k - 1] == s[k]);
    }
    assert forall|k: int| ib_open(s) + 2 <= k < ib_close(s) implies !is_delim_lead(
        #[trigger] s[k],
    ) by {
        assert(s.subrange(ib_open(s) + 2, ib_close(s))[k - (ib_open(s) + 2)] == s[k]);
    }
    assert forall|k: int| ib_close(s) + 2 <= k < s.len() - 1 implies !is_delim_lead(
        #[trigger] s[k],
    ) by {
        assert(s.subrange(ib_close(s) + 2, s.len() - 1)[k - (ib_close(s) + 2)] == s[k]);
    }
}

/// A bold span wrapping text that holds no delimiter characters.
pub open spec fn bold_wrapped_plain(s: Seq<char>) -> bool {
    &&& s.len() >= 4
    &&& s[0] == '*'
    &&& s[1] == '*'
    &&& s[s.len() - 2] == '*'
    &&& s[s.len() - 1] == '*'
    &&& plain_text(s.subrange(2, s.len() - 2))
}

/// A plain text opens no delimiter.
pub proof fn lemma_plain_no_delim(s: Seq<char>)
    requires
        plain_text(s),
        s.len() > 0,
    ensures
        open_delim(s) == None::<Delimiter>,
{
    assert(!is_delim_lead(s[0]));
}

/// Every suffix of a plain text is plain.
pub proof fn lemma_plain_skip(s: Seq<char>, k: int)
    requires
        plain_text(s),
        0 <= k <= s.len(),
    ensures
        plain_text(s.skip(k)),
{
    assert forall|i: int| 0 <= i < s.skip(k).len() implies !is_delim_lead(s.skip(k)[i]) by {
        assert(s.skip(k)[i] == s[i + k]);
    }
}

/// An escaped delimiter character is never interpreted: a backslash always
/// begins an escape construct, so whatever follows it, it neither opens nor
/// closes a toggleable modifier.
pub proof fn lemma_escape_never_toggles(s: Seq<char>)
    requires
        s.len() > 0,
        s[0] == '\\',
    ensures
        open_delim(s) == Some(Delimiter::ExclusiveModifier(ExclusiveModifier::Escape)),
        forall|m: TextModifier| !crate::delimiter::close_hit(m, s),
{
    assert forall|m: TextModifier| !crate::delimiter::close_hit(m, s) by {
        match m {
            TextModifier::Bold => {},
            TextModifier::Italics => {},
            TextModifier::Strikethrough => {},
            TextModifier::Underline => {},
            TextModifier::Quote => {},
            TextModifier::Heading(_) => {},
        }
    }
}

/// A matched opening delimiter consumes at least one character and never
/// more than the input holds.
proof fn lemma_open_used_pos(s: Seq<char>)
    requires
        open_delim(s) is Some,
    ensures
        open_delim_used(s) >= 1,
        open_delim_used(s) <= s.len(),
{
    if s.len() >= 2 {
        crate::delimiter::lemma_hash_run_le(s.skip(1));
    }
}

/// The recursive block parser. It emits an opening paragraph tag, then
/// repeatedly: tries to close the modifier at the top of the stack, else
/// tries to recognize an opening delimiter (a toggleable modifier toggles the
/// stack and emits its tag; a terminator returns at once with its exit mode;
/// any other construct is dispatched to its handler), else copies the raw
/// character verbatim; at end of input it emits the closing paragraph tag,
/// and fails if any modifier is still open. On a text with no delimiter
/// characters it returns exactly that text between paragraph tags, with
/// empty link and parent lists.
#[verifier::rlimit(100)]
pub fn markdown_charbuff_to_html<R: Template>(
    chars: &mut PutBackChars,
    templates: &TemplateMap<R>,
    pages: &Vec<(String, String)>,
    directory: &String,
    depth: u16,
) -> (r: Result<(ParsedHTML, ExitMode), ParseError>)
    requires
        old(chars).wf(),
        depth <= MAX_RECURSION_DEPTH,
    ensures
        final(chars).wf(),
        r matches Ok(p) ==> p.0.html@.len() >= 3 && p.0.html@.take(3) == "<p>"@,
        r matches Ok(p) ==> (p.1 == ExitMode::EndOfFile ==> p.0.html@.len() >= 7
            && p.0.html@.skip(p.0.html@.len() - 4) == "</p>"@),
        plain_text(old(chars)@) ==> (r matches Ok(p) && p.1 == ExitMode::EndOfFile && p.0.html@
            == "<p>"@ + old(chars)@ + "</p>"@ && p.0.links_to@.len() == 0 && p.0.parents@.len()
            == 0 && final(chars)@.len() == 0),
        bold_wrapped_plain(old(chars)@) ==> (r matches Ok(p) && p.1 == ExitMode::EndOfFile
            && p.0.html@ == "<p>"@ + "<b>"@ + old(chars)@.subrange(2, old(chars)@.len() - 2)
            + "</b>"@ + "</p>"@ && p.0.links_to@.len() == 0 && p.0.parents@.len() == 0 && final(chars)@.len() == 0),
        escaped_plain(old(chars)@) ==> (r matches Ok(p) && p.1 == ExitMode::EndOfFile
            && p.0.html@ == "<p>"@ + unescape(old(chars)@) + "</p>"@ && p.0.links_to@.len() == 0
            && p.0.parents@.len() == 0 && final(chars)@.len() == 0),
        plain_then_term(old(chars)@) ==> (r matches Ok(p) && p.1 == term_exit(old(chars)@)
            && p.0.html@ == "<p>"@ + term_prefix_unescaped(old(chars)@) && p.0.links_to@.len()
            == 0 && p.0.parents@.len() == 0 && final(chars)@ == term_rest(old(chars)@)),
        bold_unclosed_plain(old(chars)@) ==> (r matches Err(e) && e.comment@
            == "Unclosed modifiers left on the stack"@ && e.line == final(chars).line_number
            && e.column == final(chars).column_number && final(chars)@.len() == 0),
        italics_bold_plain(old(chars)@) ==> (r matches Ok(p) && p.1 == ExitMode::EndOfFile
            && p.0.html@ == "<p>"@ + "<i>"@ + old(chars)@.subrange(1, ib_open(old(chars)@))
            + "<b>"@ + old(chars)@.subrange(ib_open(old(chars)@) + 2, ib_close(old(chars)@))
            + "</b>"@ + old(chars)@.subrange(ib_close(old(chars)@) + 2, old(chars)@.len() - 1)
            + "</i>"@ + "</p>"@ && p.0.links_to@.len() == 0 && p.0.parents@.len() == 0 && final(chars)@.len() == 0),
    decreases MAX_RECURSION_DEPTH - depth, 3int,
{
    let ghost s0 = old(chars)@;
    let mut parsed_html = ParsedHTML { html: String::new(), links_to: Vec::new(), parents: Vec::new() };
    let mut modifier_stack: Vec<TextModifier> = Vec::new();
    parsed_html.html.append("<p>");
    proof {
        reveal_strlit("<p>");
        assert(parsed_html.html@ =~= "<p>"@);
        assert(parsed_html.html@.take(3) =~= "<p>"@);
        assert(s0.take(0) =~= Seq::<char>::empty());
        assert(parsed_html.html@ =~= "<p>"@ + s0.take(0));
    }
    let ghost mut consumed: int = 0;
    loop
        invariant
            s0 == old(chars)@,
            chars.wf(),
            depth <= MAX_RECURSION_DEPTH,
            s0.len() + 1 <= usize::MAX,
            0 <= consumed <= s0.len(),
            chars@ == s0.skip(consumed),
            parsed_html.html@.len() >= 3,
            parsed_html.html@.take(3) == "<p>"@,
            plain_text(s0) ==> modifier_stack@.len() == 0 && parsed_html.html@ == "<p>"@
                + s0.take(consumed) && parsed_html.links_to@.len() == 0
                && parsed_html.parents@.len() == 0,
            bold_wrapped_plain(s0) ==> (consumed == 0 && modifier_stack@.len() == 0
                && parsed_html.html@ == "<p>"@) || (2 <= consumed <= s0.len() - 2
                && modifier_stack@.len() == 1 && modifier_stack@[0] == TextModifier::Bold
                && parsed_html.html@ == "<p>"@ + "<b>"@ + s0.subrange(2, consumed)) || (consumed
                == s0.len() && modifier_stack@.len() == 0 && parsed_html.html@ == "<p>"@ + "<b>"@
                + s0.subrange(2, s0.len() - 2) + "</b>"@),
            bold_wrapped_plain(s0) ==> parsed_html.links_to@.len() == 0
                && parsed_html.parents@.len() == 0,
            escaped_plain(s0) ==> modifier_stack@.len() == 0 && escaped_plain(chars@)
                && parsed_html.html@ + unescape(chars@) == "<p>"@ + unescape(s0)
                && parsed_html.links_to@.len() == 0 && parsed_html.parents@.len() == 0,
            plain_then_term(s0) ==> modifier_stack@.len() == 0 && plain_then_term(chars@)
                && parsed_html.html@ + term_prefix_unescaped(chars@) == "<p>"@
                + term_prefix_unescaped(s0) && term_exit(chars@) == term_exit(s0)
                && term_rest(chars@) == term_rest(s0) && parsed_html.links_to@.len() == 0
                && parsed_html.parents@.len() == 0,
            bold_unclosed_plain(s0) ==> (consumed == 0 && modifier_stack@.len() == 0) || (2
                <= consumed <= s0.len() && modifier_stack@.len() == 1 && modifier_stack@[0]
                == TextModifier::Bold),
            italics_bold_plain(s0) ==> ((consumed == 0 && modifier_stack@.len() == 0
                && parsed_html.html@ == "<p>"@) || (1 <= consumed <= ib_open(s0)
                && modifier_stack@.len() == 1 && modifier_stack@[0] == TextModifier::Italics
                && parsed_html.html@ == "<p>"@ + "<i>"@ + s0.subrange(1, consumed)) || (ib_open(
                s0,
            ) + 2 <= consumed <= ib_close(s0) && modifier_stack@.len() == 2 && modifier_stack@[0]
                == TextModifier::Italics && modifier_stack@[1] == TextModifier::Bold
                && parsed_html.html@ == "<p>"@ + "<i>"@ + s0.subrange(1, ib_open(s0)) + "<b>"@
                + s0.subrange(ib_open(s0) + 2, consumed)) || (ib_close(s0) + 2 <= consumed
                <= s0.len() - 1 && modifier_stack@.len() == 1 && modifier_stack@[0]
                == TextModifier::Italics && parsed_html.html@ == "<p>"@ + "<i>"@ + s0.subrange(
                1,
                ib_open(s0),
            ) + "<b>"@ + s0.subrange(ib_open(s0) + 2, ib_close(s0)) + "</b>"@ + s0.subrange(
                ib_close(s0) + 2,
                consumed,
            )) || (consumed == s0.len() && modifier_stack@.len() == 0 && parsed_html.html@
                == "<p>"@ + "<i>"@ + s0.subrange(1, ib_open(s0)) + "<b>"@ + s0.subrange(
                ib_open(s0) + 2,
                ib_close(s0),
            ) + "</b>"@ + s0.subrange(ib_close(s0) + 2, s0.len() - 1) + "</i>"@)),
            italics_bold_plain(s0) ==> parsed_html.links_to@.len() == 0
                && parsed_html.parents@.len() == 0,
        ensures
            chars.wf(),
            chars@.len() == 0,
            0 <= consumed <= s0.len(),
            chars@ == s0.skip(consumed),
            parsed_html.html@.len() >= 3,
            parsed_html.html@.take(3) == "<p>"@,
            plain_text(s0) ==> modifier_stack@.len() == 0 && parsed_html.html@ == "<p>"@
                + s0.take(consumed) && parsed_html.links_to@.len() == 0
                && parsed_html.parents@.len() == 0,
            bold_wrapped_plain(s0) ==> (consumed == 0 && modifier_stack@.len() == 0
                && parsed_html.html@ == "<p>"@) || (2 <= consumed <= s0.len() - 2
                && modifier_stack@.len() == 1 && modifier_stack@[0] == TextModifier::Bold
                && parsed_html.html@ == "<p>"@ + "<b>"@ + s0.subrange(2, consumed)) || (consumed
                == s0.len() && modifier_stack@.len() == 0 && parsed_html.html@ == "<p>"@ + "<b>"@
                + s0.subrange(2, s0.len() - 2) + "</b>"@),
            bold_wrapped_plain(s0) ==> parsed_html.links_to@.len() == 0
                && parsed_html.parents@.len() == 0,
            escaped_plain(s0) ==> modifier_stack@.len() == 0 && escaped_plain(chars@)
                && parsed_html.html@ + unescape(chars@) == "<p>"@ + unescape(s0)
                && parsed_html.links_to@.len() == 0 && parsed_html.parents@.len() == 0,
            plain_then_term(s0) ==> modifier_stack@.len() == 0 && plain_then_term(chars@)
                && parsed_html.html@ + term_prefix_unescaped(chars@) == "<p>"@
                + term_prefix_unescaped(s0) && term_exit(chars@) == term_exit(s0)
                && term_rest(chars@) == term_rest(s0) && parsed_html.links_to@.len() == 0
                && parsed_html.parents@.len() == 0,
            bold_unclosed_plain(s0) ==> (consumed == 0 && modifier_stack@.len() == 0) || (2
                <= consumed <= s0.len() && modifier_stack@.len() == 1 && modifier_stack@[0]
                == TextModifier::Bold),
            italics_bold_plain(s0) ==> ((consumed == 0 && modifier_stack@.len() == 0
                && parsed_html.html@ == "<p>"@) || (1 <= consumed <= ib_open(s0)
                && modifier_stack@.len() == 1 && modifier_stack@[0] == TextModifier::Italics
                && parsed_html.html@ == "<p>"@ + "<i>"@ + s0.subrange(1, consumed)) || (ib_open(
                s0,
            ) + 2 <= consumed <= ib_close(s0) && modifier_stack@.len() == 2 && modifier_stack@[0]
                == TextModifier::Italics && modifier_stack@[1] == TextModifier::Bold
                && parsed_html.html@ == "<p>"@ + "<i>"@ + s0.subrange(1, ib_open(s0)) + "<b>"@
                + s0.subrange(ib_open(s0) + 2, consumed)) || (ib_close(s0) + 2 <= consumed
                <= s0.len() - 1 && modifier_stack@.len() == 1 && modifier_stack@[0]
                == TextModifier::Italics && parsed_html.html@ == "<p>"@ + "<i>"@ + s0.subrange(
                1,
                ib_open(s0),
            ) + "<b>"@ + s0.subrange(ib_open(s0) + 2, ib_close(s0)) + "</b>"@ + s0.subrange(
                ib_close(s0) + 2,
                consumed,
            )) || (consumed == s0.len() && modifier_stack@.len() == 0 && parsed_html.html@
                == "<p>"@ + "<i>"@ + s0.subrange(1, ib_open(s0)) + "<b>"@ + s0.subrange(
                ib_open(s0) + 2,
                ib_close(s0),
            ) + "</b>"@ + s0.subrange(ib_close(s0) + 2, s0.len() - 1) + "</i>"@)),
            italics_bold_plain(s0) ==> parsed_html.links_to@.len() == 0
                && parsed_html.parents@.len() == 0,
        decreases chars@.len(), modifier_stack@.len(),
    {
        let ghost cur = chars@;
        let ghost html0 = parsed_html.html@;
        let character = match chars.next() {
            None => {
                break;
            },
            Some(c) => c,
        };
        chars.putback(character);
        proof {
            lemma_cons_head(cur);
            assert(chars@ == cur);
        }
        let mut top: Option<TextModifier> = None;
        match modifier_stack.last() {
            Some(m) => {
                top = Some(*m);
            },
            None => {},
        }
        if let Some(open_delimiter) = top {
            proof {
                assert(modifier_stack@.len() > 0);
            }
            if has_close_delimiter(chars, open_delimiter) {
                let _ = modifier_stack.pop();
                let tag = open_delimiter.close();
                parsed_html.html.append(tag.as_str());
                proof {
                    lemma_take_concat(html0, tag@, 3);
                    assert(crate::delimiter::close_used(open_delimiter, cur) <= cur.len());
                    if bold_unclosed_plain(s0) {
                        assert(2 <= consumed);
                        assert(consumed < s0.len());
                        assert(cur[0] == s0[consumed]);
                        assert(s0.skip(2)[consumed - 2] == s0[consumed]);
                        assert(!is_delim_lead(s0[consumed]));
                        assert(open_delimiter == TextModifier::Bold);
                        assert(false);
                    }
                    if italics_bold_plain(s0) {
                        lemma_ib_facts(s0);
                        let i = ib_open(s0);
                        let j = ib_close(s0);
                        let n = s0.len() as int;
                        assert(consumed < n);
                        if consumed <= i {
                            assert(1 <= consumed);
                            assert(open_delimiter == TextModifier::Italics);
                            if consumed < i {
                                assert(cur[0] == s0[consumed]);
                                assert(!is_delim_lead(s0[consumed]));
                                assert(false);
                            }
                            assert(cur[0] == s0[i]);
                            assert(cur[1] == s0[i + 1]);
                            assert(false);
                        } else if consumed <= j {
                            assert(open_delimiter == TextModifier::Bold);
                            if consumed < j {
                                assert(cur[0] == s0[consumed]);
                                assert(!is_delim_lead(s0[consumed]));
                                assert(false);
                            }
                            assert(cur[0] == s0[j] && cur[1] == s0[j + 1]);
                            assert(crate::delimiter::close_used(open_delimiter, cur) == 2);
                            assert(modifier_stack@.len() == 1);
                            assert(modifier_stack@[0] == TextModifier::Italics);
                            lemma_subrange_empty(s0, j + 2);
                            lemma_concat_empty("<p>"@ + "<i>"@ + s0.subrange(1, i) + "<b>"@
                                + s0.subrange(i + 2, j) + "</b>"@);
                            assert(parsed_html.html@ == "<p>"@ + "<i>"@ + s0.subrange(1, i)
                                + "<b>"@ + s0.subrange(i + 2, j) + "</b>"@ + s0.subrange(
                                j + 2,
                                j + 2,
                            ));
                        } else {
                            assert(j + 2 <= consumed <= n - 1);
                            assert(open_delimiter == TextModifier::Italics);
                            if consumed < n - 1 {
                                assert(cur[0] == s0[consumed]);
                                assert(!is_delim_lead(s0[consumed]));
                                assert(false);
                            }
                            assert(cur[0] == s0[n - 1]);
                            assert(cur.len() == 1);
                            assert(crate::delimiter::close_used(open_delimiter, cur) == 1);
                            assert(modifier_stack@.len() == 0);
                            assert(parsed_html.html@ == "<p>"@ + "<i>"@ + s0.subrange(1, i)
                                + "<b>"@ + s0.subrange(i + 2, j) + "</b>"@ + s0.subrange(
                                j + 2,
                                n - 1,
                            ) + "</i>"@);
                        }
                    }
                    if bold_wrapped_plain(s0) {
                        assert(2 <= consumed <= s0.len() - 2);
                        assert(open_delimiter == TextModifier::Bold);
                        if consumed < s0.len() - 2 {
                            assert(cur[0] == s0[consumed]);
                            assert(s0.subrange(2, s0.len() - 2)[consumed - 2] == s0[consumed]);
                            assert(!is_delim_lead(s0[consumed]));
                            assert(false);
                        }
                        assert(cur[0] == s0[s0.len() - 2] && cur[1] == s0[s0.len() - 1]);
                        assert(crate::delimiter::close_used(open_delimiter, cur) == 2);
                        assert(parsed_html.html@ =~= "<p>"@ + "<b>"@ + s0.subrange(
                            2,
                            s0.len() - 2,
                        ) + "</b>"@);
                    }
                    lemma_skip_skip(
                        s0,
                        consumed,
                        crate::delimiter::close_used(open_delimiter, cur) as int,
                    );
                    consumed = consumed + crate::delimiter::close_used(open_delimiter, cur) as int;
                    assert(chars@ == s0.skip(consumed));
                }
                continue;
            }
        }
        proof {
            assert(chars@ =~= cur);
        }
        match find_open_delimiter(chars) {
            Some(Delimiter::TextModifier(text_modifier)) => {
                proof {
                    if plain_text(s0) {
                        lemma_plain_skip(s0, consumed);
                        lemma_plain_no_delim(cur);
                    }
                    if bold_wrapped_plain(s0) {
                        if 2 <= consumed <= s0.len() - 2 {
                            assert(cur[0] == s0[consumed]);
                            if consumed < s0.len() - 2 {
                                assert(s0.subrange(2, s0.len() - 2)[consumed - 2] == s0[
                                    consumed
                                ]);
                                assert(!is_delim_lead(s0[consumed]));
                                lemma_no_lead_no_delim(cur);
                            } else {
                                assert(cur[1] == s0[s0.len() - 1]);
                                assert(crate::delimiter::close_hit(TextModifier::Bold, cur));
                            }
                            assert(false);
                        }
                        if consumed == s0.len() {
                            assert(cur.len() == 0);
                            assert(false);
                        }
                        assert(consumed == 0);
                        assert(cur == s0);
                        assert(text_modifier == TextModifier::Bold);
                        assert(open_delim_used(cur) == 2);
                    }
                    if escaped_plain(s0) {
                        lemma_escaped_head(cur);
                        assert(false);
                    }
                    if plain_then_term(s0) {
                        lemma_ptt_head(cur);
                        assert(false);
                    }
                    if bold_unclosed_plain(s0) {
                        if consumed != 0 {
                            assert(consumed < s0.len());
                            assert(cur[0] == s0[consumed]);
                            assert(s0.skip(2)[consumed - 2] == s0[consumed]);
                            assert(!is_delim_lead(s0[consumed]));
                            lemma_no_lead_no_delim(cur);
                            assert(false);
                        }
                        assert(cur == s0);
                        assert(text_modifier == TextModifier::Bold);
                        assert(open_delim_used(cur) == 2);
                    }
                    if italics_bold_plain(s0) {
                        lemma_ib_facts(s0);
                        let i = ib_open(s0);
                        let j = ib_close(s0);
                        let n = s0.len() as int;
                        if consumed == 0 {
                            assert(cur == s0);
                            assert(!is_delim_lead(s0[1]));
                            assert(text_modifier == TextModifier::Italics);
                            assert(open_delim_used(cur) == 1);
                        } else if consumed <= i {
                            if consumed < i {
                                assert(cur[0] == s0[consumed]);
                                assert(!is_delim_lead(s0[consumed]));
                                lemma_no_lead_no_delim(cur);
                                assert(false);
                            }
                            assert(cur[0] == s0[i] && cur[1] == s0[i + 1]);
                            assert(text_modifier == TextModifier::Bold);
                            assert(open_delim_used(cur) == 2);
                        } else if consumed <= j {
                            if consumed < j {
                                assert(cur[0] == s0[consumed]);
                                assert(!is_delim_lead(s0[consumed]));
                                lemma_no_lead_no_delim(cur);
                                assert(false);
                            }
                            assert(cur[0] == s0[j] && cur[1] == s0[j + 1]);
                            assert(crate::delimiter::close_hit(TextModifier::Bold, cur));
                            assert(false);
                        } else if consumed <= n - 1 {
                            if consumed < n - 1 {
                                assert(cur[0] == s0[consumed]);
                                assert(!is_delim_lead(s0[consumed]));
                                lemma_no_lead_no_delim(cur);
                                assert(false);
                            }
                            assert(cur.len() == 1);
                            assert(cur[0] == s0[n - 1]);
                            assert(crate::delimiter::close_hit(TextModifier::Italics, cur));
                            assert(false);
                        } else {
                            assert(cur.len() == 0);
                            assert(false);
                        }
                    }
                    lemma_open_used_pos(cur);
                    lemma_skip_skip(s0, consumed, open_delim_used(cur) as int);
                    consumed = consumed + open_delim_used(cur) as int;
                    assert(chars@ == s0.skip(consumed));
                }
                modifier_stack.push(text_modifier);
                let tag = text_modifier.open();
                parsed_html.html.append(tag.as_str());
                proof {
                    lemma_take_concat(html0, tag@, 3);
                    if bold_wrapped_plain(s0) {
                        assert(s0.subrange(2, 2) =~= Seq::<char>::empty());
                        assert(parsed_html.html@ =~= "<p>"@ + "<b>"@ + s0.subrange(2, 2));
                    }
                    if italics_bold_plain(s0) {
                        let i = ib_open(s0);
                        if text_modifier == TextModifier::Italics {
                            lemma_subrange_empty(s0, 1);
                            lemma_concat_empty("<p>"@ + "<i>"@);
                            assert(parsed_html.html@ == "<p>"@ + "<i>"@ + s0.subrange(1, 1));
                        } else {
                            lemma_subrange_empty(s0, i + 2);
                            lemma_concat_empty("<p>"@ + "<i>"@ + s0.subrange(1, i) + "<b>"@);
                            assert(parsed_html.html@ == "<p>"@ + "<i>"@ + s0.subrange(1, i)
                                + "<b>"@ + s0.subrange(i + 2, i + 2));
                        }
                    }
                }
            },
            Some(Delimiter::ExclusiveModifier(exclusive_modifier)) => {
                proof {
                    if plain_text(s0) {
                        lemma_plain_skip(s0, consumed);
                        lemma_plain_no_delim(cur);
                    }
                    if bold_wrapped_plain(s0) {
                        if 2 <= consumed <= s0.len() - 2 {
                            assert(cur[0] == s0[consumed]);
                            if consumed < s0.len() - 2 {
                                assert(s0.subrange(2, s0.len() - 2)[consumed - 2] == s0[
                                    consumed
                                ]);
                                assert(!is_delim_lead(s0[consumed]));
                                lemma_no_lead_no_delim(cur);
                            } else {
                                assert(cur[1] == s0[s0.len() - 1]);
                                assert(crate::delimiter::close_hit(TextModifier::Bold, cur));
                            }
                        } else if consumed == s0.len() {
                            assert(cur.len() == 0);
                        } else {
                            assert(consumed == 0);
                            assert(cur == s0);
                        }
                        assert(false);
                    }
                    if bold_unclosed_plain(s0) {
                        if consumed == 0 {
                            assert(cur == s0);
                            assert(open_delim(cur) == Some(
                                Delimiter::TextModifier(TextModifier::Bold),
                            ));
                        } else {
                            assert(consumed < s0.len());
                            assert(cur[0] == s0[consumed]);
                            assert(s0.skip(2)[consumed - 2] == s0[consumed]);
                            assert(!is_delim_lead(s0[consumed]));
                            lemma_no_lead_no_delim(cur);
                        }
                        assert(false);
                    }
                    if italics_bold_plain(s0) {
                        lemma_ib_facts(s0);
                        let i = ib_open(s0);
                        let j = ib_close(s0);
                        let n = s0.len() as int;
                        if consumed == 0 {
                            assert(cur == s0);
                            assert(!is_delim_lead(s0[1]));
                            assert(open_delim(cur) == Some(
                                Delimiter::TextModifier(TextModifier::Italics),
                            ));
                        } else if consumed <= i {
                            if consumed < i {
                                assert(cur[0] == s0[consumed]);
                                assert(!is_delim_lead(s0[consumed]));
                                lemma_no_lead_no_delim(cur);
                            } else {
                                assert(cur[0] == s0[i] && cur[1] == s0[i + 1]);
                                assert(open_delim(cur) == Some(
                                    Delimiter::TextModifier(TextModifier::Bold),
                                ));
                            }
                        } else if consumed <= j {
                            if consumed < j {
                                assert(cur[0] == s0[consumed]);
                                assert(!is_delim_lead(s0[consumed]));
                                lemma_no_lead_no_delim(cur);
                            } else {
                                assert(cur[0] == s0[j] && cur[1] == s0[j + 1]);
                                assert(crate::delimiter::close_hit(TextModifier::Bold, cur));
                            }
                        } else if consumed <= n - 1 {
                            if consumed < n - 1 {
                                assert(cur[0] == s0[consumed]);
                                assert(!is_delim_lead(s0[consumed]));
                                lemma_no_lead_no_delim(cur);
                            } else {
                                assert(cur.len() == 1);
                                assert(cur[0] == s0[n - 1]);
                                assert(crate::delimiter::close_hit(TextModifier::Italics, cur));
                            }
                        } else {
                            assert(cur.len() == 0);
                        }
                        assert(false);
                    }
                }
                match exclusive_modifier {
                    ExclusiveModifier::EndOfArgument => {
                        proof {
                            if escaped_plain(s0) {
                                lemma_escaped_head(cur);
                                assert(false);
                            }
                            if plain_then_term(s0) {
                                lemma_ptt_head(cur);
                                assert(cur[0] == '|');
                                assert(parsed_html.html@ + Seq::<char>::empty()
                                    =~= parsed_html.html@);
                                assert(chars@ =~= cur.skip(1));
                            }
                        }
                        return Ok((parsed_html, ExitMode::EndOfArgument));
                    },
                    ExclusiveModifier::EndOfTemplate => {
                        proof {
                            if escaped_plain(s0) {
                                lemma_escaped_head(cur);
                                assert(false);
                            }
                            if plain_then_term(s0) {
                                lemma_ptt_head(cur);
                                assert(cur[0] == '}');
                                assert(parsed_html.html@ + Seq::<char>::empty()
                                    =~= parsed_html.html@);
                                assert(chars@ =~= cur.skip(2));
                            }
                        }
                        return Ok((parsed_html, ExitMode::EndOfTemplate));
                    },
                    ExclusiveModifier::EndOfLink => {
                        proof {
                            if escaped_plain(s0) {
                                lemma_escaped_head(cur);
                                assert(false);
                            }
                            if plain_then_term(s0) {
                                lemma_ptt_head(cur);
                                assert(cur[0] == ']');
                                assert(parsed_html.html@ + Seq::<char>::empty()
                                    =~= parsed_html.html@);
                                assert(chars@ =~= cur.skip(2));
                            }
                        }
                        return Ok((parsed_html, ExitMode::EndOfLink));
                    },
                    other => {
                        proof {
                            lemma_open_used_pos(cur);
                            if escaped_plain(s0) {
                                lemma_escaped_head(cur);
                                assert(other == ExclusiveModifier::Escape);
                            }
                            if plain_then_term(s0) {
                                lemma_ptt_head(cur);
                                assert(other == ExclusiveModifier::Escape);
                            }
                        }
                        let ghost mid = chars@;
                        let ghost parsed0 = parsed_html;
                        match other.to_html(chars, &mut parsed_html, templates, pages, directory, depth) {
                            Some(e) => {
                                proof {
                                    if escaped_plain(s0) {
                                        assert(mid =~= cur.skip(1));
                                        assert(mid.len() > 0);
                                        assert(false);
                                    }
                                    if plain_then_term(s0) {
                                        assert(mid =~= cur.skip(1));
                                        assert(mid.len() > 0);
                                        assert(false);
                                    }
                                }
                                return Err(e);
                            },
                            None => {},
                        }
                        proof {
                            let u = choose|u: int| 0 <= u <= mid.len() && chars@ == mid.skip(u);
                            lemma_skip_skip(s0, consumed, open_delim_used(cur) as int);
                            lemma_skip_skip(s0, consumed + open_delim_used(cur) as int, u);
                            assert(chars@ == s0.skip(consumed + open_delim_used(cur) as int + u));
                            consumed = consumed + open_delim_used(cur) as int + u;
                            assert(parsed_html.html@.take(3) =~= html0.take(3));
                            if escaped_plain(s0) {
                                assert(mid =~= cur.skip(1));
                                assert(mid.len() > 0);
                                assert(mid[0] == cur[1]);
                                assert(parsed_html.html@ == parsed0.html@.push(cur[1]));
                                assert(chars@ =~= cur.skip(2));
                                assert(parsed_html.html@ + unescape(cur.skip(2))
                                    =~= parsed0.html@ + (seq![cur[1]] + unescape(cur.skip(2))));
                                assert(parsed_html.html@ + unescape(chars@) == "<p>"@ + unescape(
                                    s0,
                                ));
                            }
                            if plain_then_term(s0) {
                                assert(mid =~= cur.skip(1));
                                assert(mid.len() > 0);
                                assert(mid[0] == cur[1]);
                                assert(parsed_html.html@ == parsed0.html@.push(cur[1]));
                                assert(chars@ =~= cur.skip(2));
                                assert(parsed_html.html@ + term_prefix_unescaped(cur.skip(2))
                                    =~= parsed0.html@ + (seq![cur[1]] + term_prefix_unescaped(
                                    cur.skip(2),
                                )));
                                assert(parsed_html.html@ + term_prefix_unescaped(chars@)
                                    == "<p>"@ + term_prefix_unescaped(s0));
                            }
                        }
                    },
                }
            },
            None => {
                match chars.next() {
                    Some(c2) => {
                        push_char(&mut parsed_html.html, c2);
                        proof {
                            lemma_take_push(html0, c2, 3);
                            if plain_text(s0) {
                                assert(c2 == s0[consumed]);
                                assert(s0.take(consumed + 1) =~= s0.take(consumed).push(s0[consumed]));
                                assert(parsed_html.html@ =~= "<p>"@ + s0.take(consumed + 1));
                            }
                            if escaped_plain(s0) {
                                lemma_escaped_head(cur);
                                assert(cur[0] != '\\');
                                assert(c2 == cur[0]);
                                assert(chars@ =~= cur.skip(1));
                                assert(parsed_html.html@ + unescape(cur.skip(1)) =~= html0 + (
                                seq![cur[0]] + unescape(cur.skip(1))));
                                assert(parsed_html.html@ + unescape(chars@) == "<p>"@ + unescape(
                                    s0,
                                ));
                            }
                            if plain_then_term(s0) {
                                lemma_ptt_head(cur);
                                assert(cur[0] != '|' && cur[0] != '}' && cur[0] != ']' && cur[0]
                                    != '\\');
                                assert(c2 == cur[0]);
                                assert(chars@ =~= cur.skip(1));
                                assert(parsed_html.html@ + term_prefix_unescaped(cur.skip(1))
                                    =~= html0 + (seq![cur[0]] + term_prefix_unescaped(cur.skip(
                                    1,
                                ))));
                                assert(parsed_html.html@ + term_prefix_unescaped(chars@)
                                    == "<p>"@ + term_prefix_unescaped(s0));
                            }
                            if bold_unclosed_plain(s0) {
                                if consumed == 0 {
                                    assert(cur == s0);
                                    assert(open_delim(cur) is Some);
                                    assert(false);
                                }
                                assert(consumed < s0.len());
                            }
                            if italics_bold_plain(s0) {
                                lemma_ib_facts(s0);
                                let i = ib_open(s0);
                                let j = ib_close(s0);
                                let n = s0.len() as int;
                                if consumed == 0 {
                                    assert(cur == s0);
                                    assert(!is_delim_lead(s0[1]));
                                    assert(open_delim(cur) is Some);
                                    assert(false);
                                }
                                if consumed == i {
                                    assert(cur[0] == s0[i] && cur[1] == s0[i + 1]);
                                    assert(open_delim(cur) is Some);
                                    assert(false);
                                }
                                if consumed == j {
                                    assert(cur[0] == s0[j] && cur[1] == s0[j + 1]);
                                    assert(crate::delimiter::close_hit(TextModifier::Bold, cur));
                                    assert(false);
                                }
                                if consumed == n - 1 {
                                    assert(cur.len() == 1);
                                    assert(cur[0] == s0[n - 1]);
                                    assert(crate::delimiter::close_hit(
                                        TextModifier::Italics,
                                        cur,
                                    ));
                                    assert(false);
                                }
                                if consumed == n {
                                    assert(cur.len() == 0);
                                    assert(false);
                                }
                                assert(c2 == s0[consumed]);
                                if consumed < i {
                                    lemma_subrange_push(s0, 1, consumed);
                                    lemma_push_concat(
                                        "<p>"@ + "<i>"@,
                                        s0.subrange(1, consumed),
                                        s0[consumed],
                                    );
                                    assert(parsed_html.html@ == "<p>"@ + "<i>"@ + s0.subrange(
                                        1,
                                        consumed + 1,
                                    ));
                                } else if consumed < j {
                                    lemma_subrange_push(s0, i + 2, consumed);
                                    lemma_push_concat(
                                        "<p>"@ + "<i>"@ + s0.subrange(1, i) + "<b>"@,
                                        s0.subrange(i + 2, consumed),
                                        s0[consumed],
                                    );
                                    assert(parsed_html.html@ == "<p>"@ + "<i>"@ + s0.subrange(
                                        1,
                                        i,
                                    ) + "<b>"@ + s0.subrange(i + 2, consumed + 1));
                                } else {
                                    lemma_subrange_push(s0, j + 2, consumed);
                                    lemma_push_concat(
                                        "<p>"@ + "<i>"@ + s0.subrange(1, i) + "<b>"@
                                            + s0.subrange(i + 2, j) + "</b>"@,
                                        s0.subrange(j + 2, consumed),
                                        s0[consumed],
                                    );
                                    assert(parsed_html.html@ == "<p>"@ + "<i>"@ + s0.subrange(
                                        1,
                                        i,
                                    ) + "<b>"@ + s0.subrange(i + 2, j) + "</b>"@ + s0.subrange(
                                        j + 2,
                                        consumed + 1,
                                    ));
                                }
                            }
                            if bold_wrapped_plain(s0) {
                                if consumed == 0 {
                                    assert(open_delim(cur) is Some);
                                    assert(false);
                                }
                                if consumed == s0.len() {
                                    assert(cur.len() == 0);
                                    assert(false);
                                }
                                assert(2 <= consumed <= s0.len() - 2);
                                if consumed == s0.len() - 2 {
                                    assert(cur[0] == s0[s0.len() - 2] && cur[1] == s0[s0.len()
                                        - 1]);
                                    assert(crate::delimiter::close_hit(TextModifier::Bold, cur));
                                    assert(false);
                                }
                                assert(c2 == s0[consumed]);
                                assert(s0.subrange(2, consumed + 1) =~= s0.subrange(
                                    2,
                                    consumed,
                                ).push(s0[consumed]));
                                assert(parsed_html.html@ =~= "<p>"@ + "<b>"@ + s0.subrange(
                                    2,
                                    consumed + 1,
                                ));
                            }
                            lemma_skip_skip(s0, consumed, 1);
                            consumed = consumed + 1;
                            assert(chars@ == s0.skip(consumed));
                        }
                    },
                    None => {
                        proof {
                            assert(false);
                        }
                    },
                }
            },
        }
    }
    let ghost html_end = parsed_html.html@;
    parsed_html.html.append("</p>");
    proof {
        assert(parsed_html.html@.take(3) =~= html_end.take(3));
    }
    if modifier_stack.len() == 0 {
        proof {
            if plain_text(s0) {
                assert(s0.take(consumed) =~= s0);
            }
            if bold_wrapped_plain(s0) {
                assert(consumed == s0.len());
                assert(parsed_html.html@ =~= "<p>"@ + "<b>"@ + s0.subrange(2, s0.len() - 2)
                    + "</b>"@ + "</p>"@);
            }
            if escaped_plain(s0) {
                assert(unescape(chars@) =~= Seq::<char>::empty());
                assert(html_end + Seq::<char>::empty() =~= html_end);
                assert(html_end == "<p>"@ + unescape(s0));
                assert(parsed_html.html@ =~= "<p>"@ + unescape(s0) + "</p>"@);
            }
            if plain_then_term(s0) {
                assert(!plain_then_term(chars@));
                assert(false);
            }
            if italics_bold_plain(s0) {
                assert(consumed == s0.len());
                assert(parsed_html.html@ == "<p>"@ + "<i>"@ + s0.subrange(1, ib_open(s0))
                    + "<b>"@ + s0.subrange(ib_open(s0) + 2, ib_close(s0)) + "</b>"@
                    + s0.subrange(ib_close(s0) + 2, s0.len() - 1) + "</i>"@ + "</p>"@);
            }
            reveal_strlit("</p>");
            assert(parsed_html.html@.skip(parsed_html.html@.len() - 4) =~= "</p>"@);
        }
        Ok((parsed_html, ExitMode::EndOfFile))
    } else {
        proof {
            assert(!plain_text(s0));
            if bold_wrapped_plain(s0) {
                assert(consumed == s0.len());
                assert(false);
            }
            if escaped_plain(s0) {
                assert(false);
            }
            if plain_then_term(s0) {
                assert(!plain_then_term(chars@));
                assert(false);
            }
            if italics_bold_plain(s0) {
                assert(consumed == s0.len());
                assert(false);
            }
        }
        Err(ParseError::from_str(chars, "Unclosed modifiers left on the stack"))
    }
}

/// The top-level rule: a non-nested parse must end at end of input; any
/// other exit reason is a stray terminator, reported as such.
pub fn finish_top_level(result: Result<(ParsedHTML, ExitMode), ParseError>) -> (r: Result<
    ParsedHTML,
    ParseError,
>)
    ensures
        result matches Ok(p) ==> (p.1 == ExitMode::EndOfFile ==> (r matches Ok(q) && q == p.0)),
        result matches Ok(p) ==> (p.1 == ExitMode::EndOfArgument ==> (r matches Err(e)
            && e.comment@ == "Stray argument separator"@)),
        result matches Ok(p) ==> (p.1 == ExitMode::EndOfTemplate ==> (r matches Err(e)
            && e.comment@ == "Stray template terminator"@)),
        result matches Ok(p) ==> (p.1 == ExitMode::EndOfLink ==> (r matches Err(e) && e.comment@
            == "Stray wiki-link terminator"@)),
        result matches Err(e) ==> (r matches Err(f) && f == e),

{
    match result {
        Ok((parsed, ExitMode::EndOfFile)) => Ok(parsed),
        Ok((_, ExitMode::EndOfArgument)) => Err(ParseError::empty("Stray argument separator")),
        Ok((_, ExitMode::EndOfTemplate)) => Err(ParseError::empty("Stray template terminator")),
        Ok((_, ExitMode::EndOfLink)) => Err(ParseError::empty("Stray wiki-link terminator")),
        Err(e) => Err(e),
    }
}

} // verus!
