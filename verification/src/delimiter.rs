//! The delimiter layer: the closed set of modifiers, their HTML tags, and the
//! recognizer that decides whether the upcoming characters open or close a
//! modifier. The recognizer consumes exactly the matched characters and
//! pushes back everything it over-read, so a failed match leaves the stream
//! exactly as it was; the spec functions here state both the decision and the
//! number of characters consumed, character for character.

use vstd::prelude::*;
use vstd::string::*;

use crate::putback::PutBackChars;
use crate::strutil::spec_digits;
use crate::strutil::usize_string;

verus! {

/// A toggleable text span: its state lives on the parser's modifier stack,
/// and one delimiter both opens and closes it.
#[derive(Debug, Clone, Copy, PartialEq, Eq, Structural)]
pub enum TextModifier {
    Bold,
    Italics,
    Strikethrough,
    Underline,
    Quote,
    Heading(usize),
}

/// A non-toggleable construct: consumed and resolved immediately by a
/// dedicated handler, or, for the last three, a terminator that ends the
/// enclosing parse.
#[derive(Debug, Clone, Copy, PartialEq, Eq, Structural)]
pub enum ExclusiveModifier {
    Escape,
    Template,
    WikiLink,
    InlineCode,
    CodeBlock,
    Paragraph,
    Link,
    Image,
    EndOfArgument,
    EndOfTemplate,
    EndOfLink,
}

#[derive(Debug, Clone, Copy, PartialEq, Eq, Structural)]
pub enum Delimiter {
    TextModifier(TextModifier),
    ExclusiveModifier(ExclusiveModifier),
}

/// The number of consecutive `#` characters at the front of `s`.
pub open spec fn hash_run_len(s: Seq<char>) -> nat
    decreases s.len(),
{
    if s.len() > 0 && s[0] == '#' {
        1 + hash_run_len(s.skip(1))
    } else {
        0
    }
}

/// If the first `k` characters of `t` are `#` and the character after them
/// (if any) is not, the run length is exactly `k`.
pub proof fn lemma_hash_run_len(t: Seq<char>, k: int)
    requires
        0 <= k <= t.len(),
        forall|i: int| 0 <= i < k ==> t[i] == '#',
        k == t.len() || t[k] != '#',
    ensures
        hash_run_len(t) == k,
    decreases k,
{
    if k > 0 {
        assert(t[0] == '#');
        assert forall|i: int| 0 <= i < k - 1 implies t.skip(1)[i] == '#' by {
            assert(t.skip(1)[i] == t[i + 1]);
        }
        if k - 1 < t.skip(1).len() {
            assert(t.skip(1)[k - 1] == t[k]);
        }
        lemma_hash_run_len(t.skip(1), k - 1);
    }
}

/// The run is never longer than the text.
pub proof fn lemma_hash_run_le(s: Seq<char>)
    ensures
        hash_run_len(s) <= s.len(),
    decreases s.len(),
{
    if s.len() > 0 && s[0] == '#' {
        lemma_hash_run_le(s.skip(1));
    }
}

/// The delimiter opened by the characters at the front of `s`, if any:
/// `**` bold, `*` italics, `~~` strikethrough, `__` underline, `\` escape,
/// a backtick inline code, newline-newline a paragraph break, newline and
/// three backticks a code block, newline `> ` a quote, newline and a run of
/// `#` a heading of that level, `![` an image, `[[` a wiki-link, `[` a link,
/// `{{` a template, and `}}` / `]]` / `|` the three terminators.
pub open spec fn open_delim(s: Seq<char>) -> Option<Delimiter> {
    if s.len() == 0 {
        None
    } else if s[0] == '*' {
        if s.len() >= 2 && s[1] == '*' {
            Some(Delimiter::TextModifier(TextModifier::Bold))
        } else {
            Some(Delimiter::TextModifier(TextModifier::Italics))
        }
    } else if s[0] == '~' {
        if s.len() >= 2 && s[1] == '~' {
            Some(Delimiter::TextModifier(TextModifier::Strikethrough))
        } else {
            None
        }
    } else if s[0] == '_' {
        if s.len() >= 2 && s[1] == '_' {
            Some(Delimiter::TextModifier(TextModifier::Underline))
        } else {
            None
        }
    } else if s[0] == '\n' {
        if s.len() >= 2 && s[1] == '\n' {
            Some(Delimiter::ExclusiveModifier(ExclusiveModifier::Paragraph))
        } else if s.len() >= 4 && s[1] == '`' && s[2] == '`' && s[3] == '`' {
            Some(Delimiter::ExclusiveModifier(ExclusiveModifier::CodeBlock))
        } else if s.len() >= 3 && s[1] == '>' && s[2] == ' ' {
            Some(Delimiter::TextModifier(TextModifier::Quote))
        } else if s.len() >= 2 && s[1] == '#' {
            Some(Delimiter::TextModifier(TextModifier::Heading(hash_run_len(s.skip(1)) as usize)))
        } else {
            None
        }
    } else if s[0] == '\\' {
        Some(Delimiter::ExclusiveModifier(ExclusiveModifier::Escape))
    } else if s[0] == '!' {
        if s.len() >= 2 && s[1] == '[' {
            Some(Delimiter::ExclusiveModifier(ExclusiveModifier::Image))
        } else {
            None
        }
    } else if s[0] == '`' {
        Some(Delimiter::ExclusiveModifier(ExclusiveModifier::InlineCode))
    } else if s[0] == '[' {
        if s.len() >= 2 && s[1] == '[' {
            Some(Delimiter::ExclusiveModifier(ExclusiveModifier::WikiLink))
        } else {
            Some(Delimiter::ExclusiveModifier(ExclusiveModifier::Link))
        }
    } else if s[0] == '{' {
        if s.len() >= 2 && s[1] == '{' {
            Some(Delimiter::ExclusiveModifier(ExclusiveModifier::Template))
        } else {
            None
        }
    } else if s[0] == '}' {
        if s.len() >= 2 && s[1] == '}' {
            Some(Delimiter::ExclusiveModifier(ExclusiveModifier::EndOfTemplate))
        } else {
            None
        }
    } else if s[0] == ']' {
        if s.len() >= 2 && s[1] == ']' {
            Some(Delimiter::ExclusiveModifier(ExclusiveModifier::EndOfLink))
        } else {
            None
        }
    } else if s[0] == '|' {
        Some(Delimiter::ExclusiveModifier(ExclusiveModifier::EndOfArgument))
    } else {
        None
    }
}

/// How many characters `find_open_delimiter` consumes from `s`: the matched
/// delimiter text, or nothing when no delimiter matches.
pub open spec fn open_delim_used(s: Seq<char>) -> nat {
    match open_delim(s) {
        None => 0,
        Some(Delimiter::TextModifier(m)) => match m {
            TextModifier::Bold => 2,
            TextModifier::Italics => 1,
            TextModifier::Strikethrough => 2,
            TextModifier::Underline => 2,
            TextModifier::Quote => 3,
            TextModifier::Heading(_) => 1 + hash_run_len(s.skip(1)),
        },
        Some(Delimiter::ExclusiveModifier(m)) => match m {
            ExclusiveModifier::Escape => 1,
            ExclusiveModifier::Template => 2,
            ExclusiveModifier::WikiLink => 2,
            ExclusiveModifier::InlineCode => 1,
            ExclusiveModifier::CodeBlock => 4,
            ExclusiveModifier::Paragraph => 1,
            ExclusiveModifier::Link => 1,
            ExclusiveModifier::Image => 2,
            ExclusiveModifier::EndOfArgument => 1,
            ExclusiveModifier::EndOfTemplate => 2,
            ExclusiveModifier::EndOfLink => 2,
        },
    }
}

/// Whether the characters at the front of `s` close an open `m`: bold,
/// strikethrough and underline close on their doubled marker; italics closes
/// on a single `*` that is not the start of `**`; a quote closes on a newline
/// not followed by `> `; a heading closes on a newline.
pub open spec fn close_hit(m: TextModifier, s: Seq<char>) -> bool {
    match m {
        TextModifier::Bold => s.len() >= 2 && s[0] == '*' && s[1] == '*',
        TextModifier::Italics => s.len() >= 1 && s[0] == '*' && !(s.len() >= 2 && s[1] == '*'),
        TextModifier::Strikethrough => s.len() >= 2 && s[0] == '~' && s[1] == '~',
        TextModifier::Underline => s.len() >= 2 && s[0] == '_' && s[1] == '_',
        TextModifier::Quote => s.len() >= 1 && s[0] == '\n' && !(s.len() >= 3 && s[1] == '>'
            && s[2] == ' '),
        TextModifier::Heading(_) => s.len() >= 1 && s[0] == '\n',
    }
}

/// How many characters `has_close_delimiter` consumes from `s`. A quote's
/// close is decided by lookahead alone, so it consumes nothing either way; a
/// failed match always consumes nothing.
pub open spec fn close_used(m: TextModifier, s: Seq<char>) -> nat {
    if close_hit(m, s) {
        match m {
            TextModifier::Bold => 2,
            TextModifier::Italics => 1,
            TextModifier::Strikethrough => 2,
            TextModifier::Underline => 2,
            TextModifier::Quote => 0,
            TextModifier::Heading(_) => 1,
        }
    } else {
        0
    }
}

impl TextModifier {
    /// The HTML emitted when this modifier opens.
    pub open spec fn open_tag(self) -> Seq<char> {
        match self {
            TextModifier::Bold => "<b>"@,
            TextModifier::Italics => "<i>"@,
            TextModifier::Strikethrough => "<del>"@,
            TextModifier::Underline => "<u>"@,
            TextModifier::Quote => "<blockquote>"@,
            TextModifier::Heading(level) => "</p>\n<h"@ + spec_digits(level as int) + ">"@,
        }
    }

    /// The HTML emitted when this modifier closes.
    pub open spec fn close_tag(self) -> Seq<char> {
        match self {
            TextModifier::Bold => "</b>"@,
            TextModifier::Italics => "</i>"@,
            TextModifier::Strikethrough => "</del>"@,
            TextModifier::Underline => "</u>"@,
            TextModifier::Quote => "</blockquote>"@,
            TextModifier::Heading(level) => "</h"@ + spec_digits(level as int) + ">\n<p>"@,
        }
    }

    /// The opening tag: a heading closes the current paragraph and opens the
    /// heading element.
    pub fn open(self) -> (r: String)
        ensures
            r@ == self.open_tag(),
    {
        match self {
            TextModifier::Bold => String::from_str("<b>"),
            TextModifier::Italics => String::from_str("<i>"),
            TextModifier::Strikethrough => String::from_str("<del>"),
            TextModifier::Underline => String::from_str("<u>"),
            TextModifier::Quote => String::from_str("<blockquote>"),
            TextModifier::Heading(level) => {
                let digits = usize_string(level);
                let s = String::from_str("</p>\n<h");
                let s = s.concat(digits.as_str());
                let s = s.concat(">");
                s
            },
        }
    }

    /// The closing tag: a heading reopens a paragraph after its element.
    pub fn close(self) -> (r: String)
        ensures
            r@ == self.close_tag(),
    {
        match self {
            TextModifier::Bold => String::from_str("</b>"),
            TextModifier::Italics => String::from_str("</i>"),
            TextModifier::Strikethrough => String::from_str("</del>"),
            TextModifier::Underline => String::from_str("</u>"),
            TextModifier::Quote => String::from_str("</blockquote>"),
            TextModifier::Heading(level) => {
                let digits = usize_string(level);
                let s = String::from_str("</h");
                let s = s.concat(digits.as_str());
                let s = s.concat(">\n<p>");
                s
            },
        }
    }
}

/// Tries to recognize an opening delimiter at the stream's position,
/// consuming exactly the matched characters; when nothing matches, every
/// character read is pushed back and the stream is left exactly as it was.
#[verifier::rlimit(100)]
pub fn find_open_delimiter(chars: &mut PutBackChars) -> (r: Option<Delimiter>)
    requires
        old(chars).wf(),
    ensures
        final(chars).wf(),
        r == open_delim(old(chars)@),
        final(chars)@ == old(chars)@.skip(open_delim_used(old(chars)@) as int),
        (r is None && 1 <= old(chars).line_number && old(chars).line_number + 2 <= usize::MAX
            && old(chars).column_number + 2 <= usize::MAX) ==> final(chars).line_number == old(chars).line_number && final(chars).column_number == old(chars).column_number && final(chars).column_stack@ == old(chars).column_stack@,
{
    let ghost s = old(chars)@;
    let lead = match chars.next() {
        Some(c) => c,
        None => {
            return None;
        },
    };
    proof {
        assert(s =~= seq![s[0]] + s.skip(1));
    }
    match lead {
        '*' => match chars.next() {
            Some('*') => {
                proof {
                    assert(chars@ =~= s.skip(2));
                }
                Some(Delimiter::TextModifier(TextModifier::Bold))
            },
            other => {
                chars.putback_maybe(other);
                proof {
                    assert(chars@ =~= s.skip(1));
                }
                Some(Delimiter::TextModifier(TextModifier::Italics))
            },
        },
        '~' => match chars.next() {
            Some('~') => {
                proof {
                    assert(chars@ =~= s.skip(2));
                }
                Some(Delimiter::TextModifier(TextModifier::Strikethrough))
            },
            other => {
                chars.putback_maybe(other);
                chars.putback('~');
                proof {
                    assert(chars@ =~= s);
                }
                None
            },
        },
        '_' => match chars.next() {
            Some('_') => {
                proof {
                    assert(chars@ =~= s.skip(2));
                }
                Some(Delimiter::TextModifier(TextModifier::Underline))
            },
            other => {
                chars.putback_maybe(other);
                chars.putback('_');
                proof {
                    assert(chars@ =~= s);
                }
                None
            },
        },
        '\n' => match chars.next() {
            Some('\n') => {
                chars.putback('\n');
                proof {
                    assert(chars@ =~= s.skip(1));
                }
                Some(Delimiter::ExclusiveModifier(ExclusiveModifier::Paragraph))
            },
            Some('`') => match chars.next() {
                Some('`') => match chars.next() {
                    Some('`') => {
                        proof {
                            assert(chars@ =~= s.skip(4));
                        }
                        Some(Delimiter::ExclusiveModifier(ExclusiveModifier::CodeBlock))
                    },
                    other => {
                        chars.putback_maybe(other);
                        chars.putback('`');
                        chars.putback('`');
                        chars.putback('\n');
                        proof {
                            assert(chars@ =~= s);
                        }
                        None
                    },
                },
                other => {
                    chars.putback_maybe(other);
                    chars.putback('`');
                    chars.putback('\n');
                    proof {
                        assert(chars@ =~= s);
                    }
                    None
                },
            },
            Some('>') => match chars.next() {
                Some(' ') => {
                    proof {
                        assert(chars@ =~= s.skip(3));
                    }
                    Some(Delimiter::TextModifier(TextModifier::Quote))
                },
                other => {
                    chars.putback_maybe(other);
                    chars.putback('>');
                    chars.putback('\n');
                    proof {
                        assert(chars@ =~= s);
                    }
                    None
                },
            },
            Some('#') => {
                let mut level: usize = 1;
                loop
                    invariant
                        chars.wf(),
                        s.len() + 1 <= usize::MAX,
                        1 <= level,
                        1 + level <= s.len(),
                        chars@ == s.skip(1 + level),
                        forall|i: int| 1 <= i < 1 + level ==> s[i] == '#',
                    ensures
                        chars.wf(),
                        1 <= level,
                        1 + level <= s.len(),
                        chars@ == s.skip(1 + level),
                        hash_run_len(s.skip(1)) == level,
                    decreases chars@.len(),
                {
                    let ghost cur = chars@;
                    match chars.next() {
                        Some('#') => {
                            proof {
                                assert(cur[0] == s[1 + level]);
                                assert(chars@ =~= s.skip(1 + level + 1));
                            }
                            level = level + 1;
                        },
                        other => {
                            chars.putback_maybe(other);
                            proof {
                                assert(chars@ =~= s.skip(1 + level));
                                if cur.len() > 0 {
                                    assert(s[1 + level] == cur[0]);
                                    assert(s[1 + level] != '#');
                                }
                                assert forall|i: int| 0 <= i < level implies s.skip(1)[i] == '#' by {
                                    assert(s.skip(1)[i] == s[i + 1]);
                                }
                                if (level as int) < s.skip(1).len() {
                                    assert(s.skip(1)[level as int] == s[1 + level]);
                                }
                                lemma_hash_run_len(s.skip(1), level as int);
                            }
                            break;
                        },
                    }
                }
                Some(Delimiter::TextModifier(TextModifier::Heading(level)))
            },
            other => {
                chars.putback_maybe(other);
                chars.putback('\n');
                proof {
                    assert(chars@ =~= s);
                }
                None
            },
        },
        '\\' => Some(Delimiter::ExclusiveModifier(ExclusiveModifier::Escape)),
        '!' => match chars.next() {
            Some('[') => {
                proof {
                    assert(chars@ =~= s.skip(2));
                }
                Some(Delimiter::ExclusiveModifier(ExclusiveModifier::Image))
            },
            other => {
                chars.putback_maybe(other);
                chars.putback('!');
                proof {
                    assert(chars@ =~= s);
                }
                None
            },
        },
        '`' => Some(Delimiter::ExclusiveModifier(ExclusiveModifier::InlineCode)),
        '[' => match chars.next() {
            Some('[') => {
                proof {
                    assert(chars@ =~= s.skip(2));
                }
                Some(Delimiter::ExclusiveModifier(ExclusiveModifier::WikiLink))
            },
            other => {
                chars.putback_maybe(other);
                proof {
                    assert(chars@ =~= s.skip(1));
                }
                Some(Delimiter::ExclusiveModifier(ExclusiveModifier::Link))
            },
        },
        '{' => match chars.next() {
            Some('{') => {
                proof {
                    assert(chars@ =~= s.skip(2));
                }
                Some(Delimiter::ExclusiveModifier(ExclusiveModifier::Template))
            },
            other => {
                chars.putback_maybe(other);
                chars.putback('{');
                proof {
                    assert(chars@ =~= s);
                }
                None
            },
        },
        '}' => match chars.next() {
            Some('}') => {
                proof {
                    assert(chars@ =~= s.skip(2));
                }
                Some(Delimiter::ExclusiveModifier(ExclusiveModifier::EndOfTemplate))
            },
            other => {
                chars.putback_maybe(other);
                chars.putback('}');
                proof {
                    assert(chars@ =~= s);
                }
                None
            },
        },
        ']' => match chars.next() {
            Some(']') => {
                proof {
                    assert(chars@ =~= s.skip(2));
                }
                Some(Delimiter::ExclusiveModifier(ExclusiveModifier::EndOfLink))
            },
            other => {
                chars.putback_maybe(other);
                chars.putback(']');
                proof {
                    assert(chars@ =~= s);
                }
                None
            },
        },
        '|' => Some(Delimiter::ExclusiveModifier(ExclusiveModifier::EndOfArgument)),
        other => {
            chars.putback(other);
            proof {
                assert(chars@ =~= s);
            }
            None
        },
    }
}

/// Checks whether the open modifier at the top of the stack closes here:
/// consumes the close marker on success (nothing, for a quote, whose close is
/// pure lookahead) and restores the stream exactly on failure.
#[verifier::rlimit(100)]
pub fn has_close_delimiter(chars: &mut PutBackChars, delimiter: TextModifier) -> (r: bool)
    requires
        old(chars).wf(),
    ensures
        final(chars).wf(),
        r == close_hit(delimiter, old(chars)@),
        final(chars)@ == old(chars)@.skip(close_used(delimiter, old(chars)@) as int),
        (!r && 1 <= old(chars).line_number && old(chars).line_number + 2 <= usize::MAX
            && old(chars).column_number + 2 <= usize::MAX) ==> final(chars).line_number == old(chars).line_number && final(chars).column_number == old(chars).column_number && final(chars).column_stack@ == old(chars).column_stack@,
{
    let ghost s = old(chars)@;
    proof {
        if s.len() > 0 {
            assert(s =~= seq![s[0]] + s.skip(1));
        }
    }
    match delimiter {
        TextModifier::Bold => match chars.next() {
            Some('*') => match chars.next() {
                Some('*') => {
                    proof {
                        assert(chars@ =~= s.skip(2));
                    }
                    true
                },
                other => {
                    chars.putback_maybe(other);
                    chars.putback('*');
                    proof {
                        assert(chars@ =~= s);
                    }
                    false
                },
            },
            other => {
                chars.putback_maybe(other);
                proof {
                    assert(chars@ =~= s);
                }
                false
            },
        },
        TextModifier::Italics => match chars.next() {
            Some('*') => match chars.next() {
                Some('*') => {
                    chars.putback('*');
                    chars.putback('*');
                    proof {
                        assert(chars@ =~= s);
                    }
                    false
                },
                other => {
                    chars.putback_maybe(other);
                    proof {
                        assert(chars@ =~= s.skip(1));
                    }
                    true
                },
            },
            other => {
                chars.putback_maybe(other);
                proof {
                    assert(chars@ =~= s);
                }
                false
            },
        },
        TextModifier::Strikethrough => match chars.next() {
            Some('~') => match chars.next() {
                Some('~') => {
                    proof {
                        assert(chars@ =~= s.skip(2));
                    }
                    true
                },
                other => {
                    chars.putback_maybe(other);
                    chars.putback('~');
                    proof {
                        assert(chars@ =~= s);
                    }
                    false
                },
            },
            other => {
                chars.putback_maybe(other);
                proof {
                    assert(chars@ =~= s);
                }
                false
            },
        },
        TextModifier::Underline => match chars.next() {
            Some('_') => match chars.next() {
                Some('_') => {
                    proof {
                        assert(chars@ =~= s.skip(2));
                    }
                    true
                },
                other => {
                    chars.putback_maybe(other);
                    chars.putback('_');
                    proof {
                        assert(chars@ =~= s);
                    }
                    false
                },
            },
            other => {
                chars.putback_maybe(other);
                proof {
                    assert(chars@ =~= s);
                }
                false
            },
        },
        TextModifier::Quote => match chars.next() {
            Some('\n') => match chars.next() {
                Some('>') => match chars.next() {
                    Some(' ') => {
                        chars.putback(' ');
                        chars.putback('>');
                        chars.putback('\n');
                        proof {
                            assert(chars@ =~= s);
                        }
                        false
                    },
                    other => {
                        chars.putback_maybe(other);
                        chars.putback('>');
                        chars.putback('\n');
                        proof {
                            assert(chars@ =~= s);
                        }
                        true
                    },
                },
                other => {
                    chars.putback_maybe(other);
                    chars.putback('\n');
                    proof {
                        assert(chars@ =~= s);
                    }
                    true
                },
            },
            other => {
                chars.putback_maybe(other);
                proof {
                    assert(chars@ =~= s);
                }
                false
            },
        },
        TextModifier::Heading(_) => match chars.next() {
            Some('\n') => {
                proof {
                    assert(chars@ =~= s.skip(1));
                }
                true
            },
            other => {
                chars.putback_maybe(other);
                proof {
                    assert(chars@ =~= s);
                }
                false
            },
        },
    }
}

} // verus!
