//! The template registry and the raw-argument reader. Templates are rendered
//! by caller-supplied renderers behind the `Template` trait; nested
//! invocations are bounded by an explicit recursion depth threaded through
//! every call and checked against `MAX_RECURSION_DEPTH` before any renderer
//! runs.

use vstd::prelude::*;
use vstd::string::*;

use crate::ExitMode;
use crate::ParsedHTML;
use crate::error::ParseError;
use crate::putback::PutBackChars;
use crate::strutil::push_char;
use crate::strutil::spec_digits;
use crate::strutil::usize_string;

verus! {

/// The bound on nested template invocations: a `call` at this depth fails
/// without invoking anything.
pub const MAX_RECURSION_DEPTH: u16 = 128;

/// A renderer for one template name. `depth` is the nesting depth this
/// invocation runs at; a renderer that re-enters the registry must pass it
/// on unchanged, which `TemplateMap::call` then checks against the bound.
pub trait Template: Sized {
    fn render(
        &self,
        args: Vec<String>,
        templates: &TemplateMap<Self>,
        pages: &Vec<(String, String)>,
        directory: &String,
        depth: u16,
    ) -> Result<(ParsedHTML, ExitMode), ParseError>;
}

/// A name-to-renderer mapping. Entries are append-only; the binding of a
/// name is its most recently inserted entry, so re-insertion replaces.
pub struct TemplateMap<R> {
    pub entries: Vec<(String, R)>,
}

impl<R: Template> TemplateMap<R> {
    /// Whether some entry binds `name`.
    pub open spec fn contains_name(&self, name: Seq<char>) -> bool {
        exists|i: int| 0 <= i < self.entries@.len() && self.entries@[i].0@ == name
    }

    /// An empty registry.
    pub fn new() -> (r: Self)
        ensures
            r.entries@.len() == 0,
            forall|n: Seq<char>| !r.contains_name(n),
    {
        TemplateMap { entries: Vec::new() }
    }

    #[verifier::loop_isolation(false)]
    fn contains(&self, name: &String) -> (r: bool)
        ensures
            r == self.contains_name(name@),
    {
        let n = self.entries.len();
        let mut i: usize = 0;
        while i < n
            invariant
                i <= n,
                n == self.entries@.len(),
                forall|j: int| 0 <= j < i ==> self.entries@[j].0@ != name@,
            decreases n - i,
        {
            if self.entries[i].0 == *name {
                return true;
            }
            i += 1;
        }
        false
    }

    /// Registers `renderer` under `name`, replacing any earlier binding;
    /// reports whether the name was new.
    pub fn insert(&mut self, name: String, renderer: R) -> (r: bool)
        ensures
            r == !old(self).contains_name(name@),
            final(self).contains_name(name@),
            forall|n: Seq<char>|
                #[trigger] final(self).contains_name(n) == (old(self).contains_name(n) || n
                    == name@),
    {
        let had = self.contains(&name);
        let ghost name_view = name@;
        self.entries.push((name, renderer));
        proof {
            let k = self.entries@.len() - 1;
            assert(self.entries@[k].0@ == name_view);
            assert forall|n: Seq<char>|
                #[trigger] self.contains_name(n) == (old(self).contains_name(n) || n
                    == name_view) by {
                if self.contains_name(n) {
                    let i = choose|i: int|
                        0 <= i < self.entries@.len() && self.entries@[i].0@ == n;
                    if i < k {
                        assert(old(self).entries@[i].0@ == n);
                    }
                }
                if old(self).contains_name(n) {
                    let i = choose|i: int|
                        0 <= i < old(self).entries@.len() && old(self).entries@[i].0@ == n;
                    assert(self.entries@[i].0@ == n);
                }
            }
        }
        !had
    }

    /// Invokes the renderer bound to `name`, unless `depth` has reached the
    /// recursion bound (then nothing is invoked and the call fails) or no
    /// entry binds `name`. The renderer runs at `depth + 1`.
    #[verifier::loop_isolation(false)]
    pub fn call(
        &self,
        name: String,
        args: Vec<String>,
        pages: &Vec<(String, String)>,
        directory: &String,
        depth: u16,
    ) -> (r: Result<(ParsedHTML, ExitMode), ParseError>)
        ensures
            depth >= MAX_RECURSION_DEPTH ==> (r matches Err(e)
                && e.comment@ == "Maximum template recursion depth exceeded."@ && e.line == 0
                && e.column == 0),
            depth < MAX_RECURSION_DEPTH && !self.contains_name(name@) ==> (r matches Err(e)
                && e.comment@ == "Template {{"@ + name@ + "}} not found"@ && e.line == 0
                && e.column == 0),
    {
        if depth >= Self::max_recursion_depth() {
            return Err(ParseError::empty("Maximum template recursion depth exceeded."));
        }
        let mut i: usize = self.entries.len();
        while i > 0
            invariant
                i <= self.entries@.len(),
                forall|j: int| i <= j < self.entries@.len() ==> self.entries@[j].0@ != name@,
            decreases i,
        {
            i = i - 1;
            if self.entries[i].0 == name {
                return self.entries[i].1.render(args, self, pages, directory, depth + 1);
            }
        }
        let mut comment = String::from_str("Template {{");
        comment.append(name.as_str());
        comment.append("}} not found");
        Err(ParseError { comment, line: 0, column: 0 })
    }

    /// The recursion bound.
    pub fn max_recursion_depth() -> (r: u16)
        ensures
            r == MAX_RECURSION_DEPTH,
    {
        128
    }
}

impl<R: Template> Default for TemplateMap<R> {
    /// The empty registry.
    fn default() -> (r: Self)
        ensures
            r.entries@.len() == 0,
    {
        TemplateMap::new()
    }
}

/// The nesting frames the raw-argument reader tracks, so that separators
/// inside a nested template or wiki-link are kept literal.
#[derive(Debug, Clone, Copy, PartialEq, Eq, Structural)]
pub enum NestKind {
    WikiLink,
    Template,
}

/// Prefixes `prefix` (consuming `used` characters) onto the outcome of
/// scanning the rest of the input.
pub open spec fn arg_scan_prepend(
    prefix: Seq<char>,
    used: nat,
    rest: Option<(Seq<char>, ExitMode, nat)>,
) -> Option<(Seq<char>, ExitMode, nat)> {
    match rest {
        None => None,
        Some((t, e, u)) => Some((prefix + t, e, used + u)),
    }
}

proof fn lemma_arg_scan_prepend_assoc(
    a: Seq<char>,
    u1: nat,
    b: Seq<char>,
    u2: nat,
    x: Option<(Seq<char>, ExitMode, nat)>,
)
    ensures
        arg_scan_prepend(a, u1, arg_scan_prepend(b, u2, x)) == arg_scan_prepend(
            a + b,
            u1 + u2,
            x,
        ),
{
    match x {
        None => {},
        Some((t, e, u)) => {
            assert(a + (b + t) =~= (a + b) + t);
        },
    }
}

/// What reading one raw argument from `s` yields, given the stack of open
/// nesting frames: the argument text, the exit that ended it, and how many
/// characters were consumed; or nothing, for the two fatal shapes: an
/// escape character at end of input, and a lone `]` or `}` at nesting depth
/// zero. A backslash always takes the following character literally; `{{`
/// and `[[` push a frame and `}}` / `]]` pop theirs, all four kept literal;
/// at depth zero `|`, `]]` and `}}` end the argument, as does end of input.
pub open spec fn arg_scan(s: Seq<char>, nest: Seq<NestKind>) -> Option<(Seq<char>, ExitMode, nat)>
    decreases s.len(),
{
    if s.len() == 0 {
        Some((Seq::empty(), ExitMode::EndOfFile, 0))
    } else if s[0] == '\\' {
        if s.len() == 1 {
            None
        } else {
            arg_scan_prepend(seq![s[0], s[1]], 2, arg_scan(s.skip(2), nest))
        }
    } else if nest.len() > 0 && nest.last() == NestKind::Template && s[0] == '}' && s.len() >= 2
        && s[1] == '}' {
        arg_scan_prepend(seq![s[0], s[1]], 2, arg_scan(s.skip(2), nest.drop_last()))
    } else if nest.len() > 0 && nest.last() == NestKind::WikiLink && s[0] == ']' && s.len() >= 2
        && s[1] == ']' {
        arg_scan_prepend(seq![s[0], s[1]], 2, arg_scan(s.skip(2), nest.drop_last()))
    } else if nest.len() == 0 && s[0] == '|' {
        Some((Seq::empty(), ExitMode::EndOfArgument, 1))
    } else if nest.len() == 0 && s[0] == ']' {
        if s.len() >= 2 && s[1] == ']' {
            Some((Seq::empty(), ExitMode::EndOfLink, 2))
        } else {
            None
        }
    } else if nest.len() == 0 && s[0] == '}' {
        if s.len() >= 2 && s[1] == '}' {
            Some((Seq::empty(), ExitMode::EndOfTemplate, 2))
        } else {
            None
        }
    } else if s[0] == '{' && s.len() >= 2 && s[1] == '{' {
        arg_scan_prepend(seq![s[0], s[1]], 2, arg_scan(s.skip(2), nest.push(NestKind::Template)))
    } else if s[0] == '[' && s.len() >= 2 && s[1] == '[' {
        arg_scan_prepend(seq![s[0], s[1]], 2, arg_scan(s.skip(2), nest.push(NestKind::WikiLink)))
    } else {
        arg_scan_prepend(seq![s[0]], 1, arg_scan(s.skip(1), nest))
    }
}

/// A successful scan consumes no more than the input, and consumes at
/// least one character unless it ended at end of input.
pub proof fn lemma_arg_scan_progress(s: Seq<char>, nest: Seq<NestKind>)
    ensures
        arg_scan(s, nest) matches Some(t) ==> t.2 <= s.len() && (t.1 == ExitMode::EndOfFile
            || t.2 >= 1),
    decreases s.len(),
{
    if s.len() == 0 {
    } else if s[0] == '\\' {
        if s.len() > 1 {
            lemma_arg_scan_progress(s.skip(2), nest);
        }
    } else if nest.len() > 0 && nest.last() == NestKind::Template && s[0] == '}' && s.len() >= 2
        && s[1] == '}' {
        lemma_arg_scan_progress(s.skip(2), nest.drop_last());
    } else if nest.len() > 0 && nest.last() == NestKind::WikiLink && s[0] == ']' && s.len() >= 2
        && s[1] == ']' {
        lemma_arg_scan_progress(s.skip(2), nest.drop_last());
    } else if nest.len() == 0 && (s[0] == '|' || s[0] == ']' || s[0] == '}') {
    } else if s[0] == '{' && s.len() >= 2 && s[1] == '{' {
        lemma_arg_scan_progress(s.skip(2), nest.push(NestKind::Template));
    } else if s[0] == '[' && s.len() >= 2 && s[1] == '[' {
        lemma_arg_scan_progress(s.skip(2), nest.push(NestKind::WikiLink));
    } else {
        lemma_arg_scan_progress(s.skip(1), nest);
    }
}

/// Scanning a template's remaining arguments from `s`: the exit reason of
/// the first read that does not end on an argument separator, or nothing
/// when a read fails outright.
#[verifier::opaque]
pub open spec fn args_tail_exit(s: Seq<char>) -> Option<ExitMode>
    decreases s.len(),
{
    match arg_scan(s, Seq::empty()) {
        None => None,
        Some((a, e, u)) => if e == ExitMode::EndOfArgument {
            if 1 <= u <= s.len() {
                args_tail_exit(s.skip(u as int))
            } else {
                None
            }
        } else {
            Some(e)
        },
    }
}

/// Reads one raw (un-interpreted) argument for a template or wiki-link,
/// exactly as `arg_scan` describes it on the remaining input with no open
/// nesting frame.
#[verifier::rlimit(100)]
#[verifier::loop_isolation(false)]
pub fn read_template_argument(chars: &mut PutBackChars) -> (r: Result<(String, ExitMode), ParseError>)
    requires
        old(chars).wf(),
    ensures
        final(chars).wf(),
        exists|u: int| 0 <= u <= old(chars)@.len() && final(chars)@ == old(chars)@.skip(u),
        arg_scan(old(chars)@, Seq::empty()) matches Some(t) ==> (r matches Ok(p) && p.0@ == t.0
            && p.1 == t.1 && final(chars)@ == old(chars)@.skip(t.2 as int)),
        arg_scan(old(chars)@, Seq::empty()) is None ==> r matches Err(_),
{
    let ghost s0 = old(chars)@;
    let mut arg = String::new();
    let mut stack: Vec<NestKind> = Vec::new();
    let ghost mut used: int = 0;
    loop
        invariant
            chars.wf(),
            s0.len() + 1 <= usize::MAX,
            0 <= used <= s0.len(),
            chars@ == s0.skip(used),
            arg_scan(s0, Seq::empty()) == arg_scan_prepend(
                arg@,
                used as nat,
                arg_scan(chars@, stack@),
            ),
        decreases chars@.len(),
    {
        let ghost cur = chars@;
        let ghost st = stack@;
        let ghost arg0 = arg@;
        let c = match chars.next() {
            None => {
                proof {
                    assert(arg_scan(cur, st) == Some((Seq::<char>::empty(), ExitMode::EndOfFile, 0nat)));
                    assert(arg0 + Seq::<char>::empty() =~= arg0);
                }
                return Ok((arg, ExitMode::EndOfFile));
            },
            Some(c) => c,
        };
        proof {
            assert(cur =~= seq![cur[0]] + cur.skip(1));
        }
        if c == '\\' {
            match chars.next() {
                None => {
                    proof {
                        assert(arg_scan(cur, st) is None);
                        assert(chars@ =~= s0.skip(used + 1));
                    }
                    return Err(
                        ParseError::from_str(
                            chars,
                            "Stray escape character at end of input inside template or wiki-link",
                        ),
                    );
                },
                Some(c2) => {
                    push_char(&mut arg, c);
                    push_char(&mut arg, c2);
                    proof {
                        assert(chars@ =~= cur.skip(2));
                        assert(arg_scan(cur, st) == arg_scan_prepend(
                            seq![cur[0], cur[1]],
                            2,
                            arg_scan(cur.skip(2), st),
                        ));
                        lemma_arg_scan_prepend_assoc(
                            arg0,
                            used as nat,
                            seq![cur[0], cur[1]],
                            2,
                            arg_scan(cur.skip(2), st),
                        );
                        assert(arg@ =~= arg0 + seq![cur[0], cur[1]]);
                        used = used + 2;
                        assert(chars@ =~= s0.skip(used));
                    }
                },
            }
        } else {
            let mut top_template = false;
            let mut top_wiki = false;
            match stack.last() {
                Some(NestKind::Template) => {
                    top_template = true;
                },
                Some(NestKind::WikiLink) => {
                    top_wiki = true;
                },
                None => {},
            }
            proof {
                assert(top_template == (st.len() > 0 && st.last() == NestKind::Template));
                assert(top_wiki == (st.len() > 0 && st.last() == NestKind::WikiLink));
            }
            if top_template && c == '}' {
                match chars.next() {
                    Some('}') => {
                        push_char(&mut arg, '}');
                        push_char(&mut arg, '}');
                        let _ = stack.pop();
                        proof {
                            assert(chars@ =~= cur.skip(2));
                            assert(stack@ =~= st.drop_last());
                            lemma_arg_scan_prepend_assoc(
                                arg0,
                                used as nat,
                                seq![cur[0], cur[1]],
                                2,
                                arg_scan(cur.skip(2), st.drop_last()),
                            );
                            assert(arg@ =~= arg0 + seq![cur[0], cur[1]]);
                            used = used + 2;
                            assert(chars@ =~= s0.skip(used));
                        }
                    },
                    other => {
                        chars.putback_maybe(other);
                        push_char(&mut arg, c);
                        proof {
                            assert(chars@ =~= cur.skip(1));
                            lemma_arg_scan_prepend_assoc(
                                arg0,
                                used as nat,
                                seq![cur[0]],
                                1,
                                arg_scan(cur.skip(1), st),
                            );
                            assert(arg@ =~= arg0 + seq![cur[0]]);
                            used = used + 1;
                            assert(chars@ =~= s0.skip(used));
                        }
                    },
                }
            } else if top_wiki && c == ']' {
                match chars.next() {
                    Some(']') => {
                        push_char(&mut arg, ']');
                        push_char(&mut arg, ']');
                        let _ = stack.pop();
                        proof {
                            assert(chars@ =~= cur.skip(2));
                            assert(stack@ =~= st.drop_last());
                            lemma_arg_scan_prepend_assoc(
                                arg0,
                                used as nat,
                                seq![cur[0], cur[1]],
                                2,
                                arg_scan(cur.skip(2), st.drop_last()),
                            );
                            assert(arg@ =~= arg0 + seq![cur[0], cur[1]]);
                            used = used + 2;
                            assert(chars@ =~= s0.skip(used));
                        }
                    },
                    other => {
                        chars.putback_maybe(other);
                        push_char(&mut arg, c);
                        proof {
                            assert(chars@ =~= cur.skip(1));
                            lemma_arg_scan_prepend_assoc(
                                arg0,
                                used as nat,
                                seq![cur[0]],
                                1,
                                arg_scan(cur.skip(1), st),
                            );
                            assert(arg@ =~= arg0 + seq![cur[0]]);
                            used = used + 1;
                            assert(chars@ =~= s0.skip(used));
                        }
                    },
                }
            } else if !top_template && !top_wiki && c == '|' {
                proof {
                    assert(arg_scan(cur, st) == Some((Seq::<char>::empty(), ExitMode::EndOfArgument, 1nat)));
                    assert(arg0 + Seq::<char>::empty() =~= arg0);
                    assert(chars@ =~= s0.skip(used + 1));
                }
                return Ok((arg, ExitMode::EndOfArgument));
            } else if !top_template && !top_wiki && c == ']' {
                match chars.next() {
                    Some(']') => {
                        proof {
                            assert(chars@ =~= cur.skip(2));
                            assert(arg_scan(cur, st) == Some((Seq::<char>::empty(), ExitMode::EndOfLink, 2nat)));
                            assert(arg0 + Seq::<char>::empty() =~= arg0);
                            assert(chars@ =~= s0.skip(used + 2));
                        }
                        return Ok((arg, ExitMode::EndOfLink));
                    },
                    other => {
                        chars.putback_maybe(other);
                        proof {
                            assert(arg_scan(cur, st) is None);
                            assert(chars@ =~= s0.skip(used + 1));
                        }
                        return Err(ParseError::from_str(chars, "Lone ] inside link or template"));
                    },
                }
            } else if !top_template && !top_wiki && c == '}' {
                match chars.next() {
                    Some('}') => {
                        proof {
                            assert(chars@ =~= cur.skip(2));
                            assert(arg_scan(cur, st) == Some((Seq::<char>::empty(), ExitMode::EndOfTemplate, 2nat)));
                            assert(arg0 + Seq::<char>::empty() =~= arg0);
                            assert(chars@ =~= s0.skip(used + 2));
                        }
                        return Ok((arg, ExitMode::EndOfTemplate));
                    },
                    other => {
                        chars.putback_maybe(other);
                        proof {
                            assert(arg_scan(cur, st) is None);
                            assert(chars@ =~= s0.skip(used + 1));
                        }
                        return Err(ParseError::from_str(chars, "Lone } inside link or template"));
                    },
                }
            } else if c == '{' {
                match chars.next() {
                    Some('{') => {
                        stack.push(NestKind::Template);
                        push_char(&mut arg, '{');
                        push_char(&mut arg, '{');
                        proof {
                            assert(chars@ =~= cur.skip(2));
                            lemma_arg_scan_prepend_assoc(
                                arg0,
                                used as nat,
                                seq![cur[0], cur[1]],
                                2,
                                arg_scan(cur.skip(2), st.push(NestKind::Template)),
                            );
                            assert(arg@ =~= arg0 + seq![cur[0], cur[1]]);
                            used = used + 2;
                            assert(chars@ =~= s0.skip(used));
                        }
                    },
                    other => {
                        chars.putback_maybe(other);
                        push_char(&mut arg, c);
                        proof {
                            assert(chars@ =~= cur.skip(1));
                            lemma_arg_scan_prepend_assoc(
                                arg0,
                                used as nat,
                                seq![cur[0]],
                                1,
                                arg_scan(cur.skip(1), st),
                            );
                            assert(arg@ =~= arg0 + seq![cur[0]]);
                            used = used + 1;
                            assert(chars@ =~= s0.skip(used));
                        }
                    },
                }
            } else if c == '[' {
                match chars.next() {
                    Some('[') => {
                        stack.push(NestKind::WikiLink);
                        push_char(&mut arg, '[');
                        push_char(&mut arg, '[');
                        proof {
                            assert(chars@ =~= cur.skip(2));
                            lemma_arg_scan_prepend_assoc(
                                arg0,
                                used as nat,
                                seq![cur[0], cur[1]],
                                2,
                                arg_scan(cur.skip(2), st.push(NestKind::WikiLink)),
                            );
                            assert(arg@ =~= arg0 + seq![cur[0], cur[1]]);
                            used = used + 2;
                            assert(chars@ =~= s0.skip(used));
                        }
                    },
                    other => {
                        chars.putback_maybe(other);
                        push_char(&mut arg, c);
                        proof {
                            assert(chars@ =~= cur.skip(1));
                            lemma_arg_scan_prepend_assoc(
                                arg0,
                                used as nat,
                                seq![cur[0]],
                                1,
                                arg_scan(cur.skip(1), st),
                            );
                            assert(arg@ =~= arg0 + seq![cur[0]]);
                            used = used + 1;
                            assert(chars@ =~= s0.skip(used));
                        }
                    },
                }
            } else {
                push_char(&mut arg, c);
                proof {
                    assert(chars@ =~= cur.skip(1));
                    lemma_arg_scan_prepend_assoc(
                        arg0,
                        used as nat,
                        seq![cur[0]],
                        1,
                        arg_scan(cur.skip(1), st),
                    );
                    assert(arg@ =~= arg0 + seq![cur[0]]);
                    used = used + 1;
                    assert(chars@ =~= s0.skip(used));
                }
            }
        }
    }
}

/// The example renderer: duplicates the rendered HTML of its single
/// argument. Any other argument count is refused with a message naming the
/// count.
#[verifier::loop_isolation(false)]
pub fn template_double<R: Template>(
    args: Vec<String>,
    templates: &TemplateMap<R>,
    pages: &Vec<(String, String)>,
    directory: &String,
    depth: u16,
) -> (r: Result<(ParsedHTML, ExitMode), ParseError>)
    ensures
        args@.len() != 1 ==> (r matches Err(e) && e.comment@
            == "{{double}} only accepts one argument, not "@ + spec_digits(args@.len() as int)),
        (args@.len() == 1 && crate::plain_text(args@[0]@) && args@[0]@.len() + 2 <= usize::MAX
            && depth <= MAX_RECURSION_DEPTH) ==> (r matches Ok(p) && p.1 == ExitMode::EndOfFile
            && p.0.html@ == ("<p>"@ + args@[0]@ + "</p>"@) + ("<p>"@ + args@[0]@ + "</p>"@)
            && p.0.links_to@.len() == 0 && p.0.parents@.len() == 0),
{
    if args.len() != 1 {
        let mut comment = String::from_str("{{double}} only accepts one argument, not ");
        let digits = usize_string(args.len());
        comment.append(digits.as_str());
        return Err(ParseError { comment, line: 0, column: 0 });
    }
    if depth > TemplateMap::<R>::max_recursion_depth() {
        return Err(ParseError::empty("Maximum template recursion depth exceeded."));
    }
    let source = crate::strutil::chars_of(args[0].as_str());
    if source.len() >= usize::MAX - 1 {
        return Err(ParseError::empty("Template argument too long"));
    }
    let mut chars = PutBackChars::new(source);
    match crate::markdown_charbuff_to_html(&mut chars, templates, pages, directory, depth) {
        Ok((mut parsed, exit)) => {
            let copy = parsed.html.clone();
            parsed.html.append(copy.as_str());
            Ok((parsed, exit))
        },
        Err(e) => Err(e),
    }
}

} // verus!
