//! Wiki-link title resolution: looking a target page up in the
//! caller-supplied page set, extracting the raw text of its leading heading,
//! and rendering that text through the block parser with an empty template
//! registry, so that a wiki-link without an explicit label can display the
//! target's title.

use vstd::prelude::*;
use vstd::string::*;

use crate::ExitMode;
use crate::ParsedHTML;
use crate::error::ParseError;
use crate::plain_text;
use crate::putback::PutBackChars;
use crate::strutil::chars_of;
use crate::strutil::push_char;
use crate::strutil::take_string;
use crate::template::MAX_RECURSION_DEPTH;
use crate::template::Template;
use crate::template::TemplateMap;

verus! {

/// The renderer type of the empty registry used during title resolution.
/// No instance is ever registered there, so none is ever invoked; one that
/// were would fail.
pub struct NoTemplates;

impl Template for NoTemplates {
    fn render(
        &self,
        args: Vec<String>,
        templates: &TemplateMap<Self>,
        pages: &Vec<(String, String)>,
        directory: &String,
        depth: u16,
    ) -> Result<(ParsedHTML, ExitMode), ParseError> {
        Err(ParseError::empty("No templates are available here"))
    }
}

/// The contents of the first page whose path is `path`, if any.
pub open spec fn page_lookup(pages: Seq<(String, String)>, path: Seq<char>) -> Option<Seq<char>>
    decreases pages.len(),
{
    if pages.len() == 0 {
        None
    } else if pages[0].0@ == path {
        Some(pages[0].1@)
    } else {
        page_lookup(pages.skip(1), path)
    }
}

#[verifier::loop_isolation(false)]
fn lookup_page(pages: &Vec<(String, String)>, path: &String) -> (r: Option<String>)
    ensures
        page_lookup(pages@, path@) matches Some(c) ==> (r matches Some(rc) && rc@ == c),
        page_lookup(pages@, path@) is None ==> r is None,
{
    let n = pages.len();
    let mut i: usize = 0;
    proof {
        assert(pages@.skip(0) =~= pages@);
    }
    while i < n
        invariant
            i <= n,
            n == pages@.len(),
            page_lookup(pages@, path@) == page_lookup(pages@.skip(i as int), path@),
        decreases n - i,
    {
        proof {
            assert(pages@.skip(i as int)[0] == pages@[i as int]);
        }
        if pages[i].0 == *path {
            return Some(pages[i].1.clone());
        }
        proof {
            assert(pages@.skip(i as int).skip(1) =~= pages@.skip(i + 1));
        }
        i += 1;
    }
    None
}

/// The raw text of a heading line read from `s`: characters up to the first
/// unescaped newline, with backslash-escape pairs kept literally. A further
/// `#`, an escape at end of input, or end of input before the newline all
/// yield nothing.
pub open spec fn title_scan(s: Seq<char>) -> Option<Seq<char>>
    decreases s.len(),
{
    if s.len() == 0 {
        None
    } else if s[0] == '#' {
        None
    } else if s[0] == '\\' {
        if s.len() == 1 {
            None
        } else {
            match title_scan(s.skip(2)) {
                None => None,
                Some(t) => Some(seq![s[0], s[1]] + t),
            }
        }
    } else if s[0] == '\n' {
        Some(Seq::empty())
    } else {
        match title_scan(s.skip(1)) {
            None => None,
            Some(t) => Some(seq![s[0]] + t),
        }
    }
}

/// The raw title of a page: its first character must be `#`, and the rest of
/// the first line is read by `title_scan`.
pub open spec fn title_line(s: Seq<char>) -> Option<Seq<char>> {
    if s.len() == 0 || s[0] != '#' {
        None
    } else {
        title_scan(s.skip(1))
    }
}

/// A scanned title is strictly shorter than its input.
proof fn lemma_title_scan_len(s: Seq<char>)
    ensures
        title_scan(s) matches Some(t) ==> t.len() < s.len(),
    decreases s.len(),
{
    if s.len() > 0 && s[0] != '#' {
        if s[0] == '\\' {
            if s.len() > 1 {
                lemma_title_scan_len(s.skip(2));
            }
        } else if s[0] != '\n' {
            lemma_title_scan_len(s.skip(1));
        }
    }
}

/// The length of the directory part of a path: everything before the last
/// `/`, or nothing when there is none.
pub open spec fn parent_len(p: Seq<char>) -> nat
    decreases p.len(),
{
    if p.len() == 0 {
        0
    } else if p.last() == '/' {
        (p.len() - 1) as nat
    } else {
        parent_len(p.drop_last())
    }
}

proof fn lemma_parent_len_suffix(p: Seq<char>, j: int)
    requires
        0 <= j <= p.len(),
        forall|i: int| j <= i < p.len() ==> p[i] != '/',
    ensures
        parent_len(p) == parent_len(p.take(j)),
    decreases p.len() - j,
{
    if j == p.len() {
        assert(p.take(j) =~= p);
    } else {
        assert(p.last() == p[p.len() - 1]);
        assert(p.last() != '/');
        assert forall|i: int| j <= i < p.drop_last().len() implies p.drop_last()[i] != '/' by {
            assert(p.drop_last()[i] == p[i]);
        }
        lemma_parent_len_suffix(p.drop_last(), j);
        assert(p.drop_last().take(j) =~= p.take(j));
    }
}

/// The directory part of `path`: everything before the last `/`, or the
/// empty string when the path has no separator.
pub fn parent_of(path: &String) -> (r: String)
    ensures
        r@ == path@.take(parent_len(path@) as int),
{
    let v = chars_of(path.as_str());
    let mut j: usize = v.len();
    loop
        invariant
            j <= v@.len(),
            v@ == path@,
            forall|i: int| j <= i < v@.len() ==> v@[i] != '/',
        ensures
            j <= v@.len(),
            v@ == path@,
            parent_len(path@) == (if j > 0 { j - 1 } else { 0int }),
            j > 0 ==> path@[j - 1] == '/',
        decreases j,
    {
        if j == 0 {
            proof {
                lemma_parent_len_suffix(path@, 0);
                assert(path@.take(0) =~= Seq::<char>::empty());
            }
            break;
        }
        if v[j - 1] == '/' {
            proof {
                lemma_parent_len_suffix(path@, j as int);
                assert(path@.take(j as int).last() == path@[j - 1]);
            }
            break;
        }
        j = j - 1;
    }
    if j == 0 {
        String::new()
    } else {
        let r = take_string(&v, j - 1);
        r
    }
}

/// Resolves the display title for a wiki-link target: looks the page up,
/// extracts its leading heading text, and renders that text through the
/// block parser with an empty template registry, at one greater nesting
/// depth. Yields nothing when the page is absent, has no leading heading, or
/// its heading fails to render; when the heading text is plain, the result
/// is provably that text between paragraph tags.
#[verifier::rlimit(60)]
pub fn read_title(pages: &Vec<(String, String)>, path: &String, depth: u16) -> (r: Option<String>)
    requires
        depth <= MAX_RECURSION_DEPTH,
    ensures
        page_lookup(pages@, path@) is None ==> r is None,
        (page_lookup(pages@, path@) matches Some(c) && title_line(c) is None) ==> r is None,
        depth >= MAX_RECURSION_DEPTH ==> r is None,
        r matches Some(_) ==> page_lookup(pages@, path@) is Some && title_line(
            page_lookup(pages@, path@).unwrap(),
        ) is Some && depth < MAX_RECURSION_DEPTH,
        (page_lookup(pages@, path@) is Some && title_line(page_lookup(pages@, path@).unwrap())
            is Some && plain_text(title_line(page_lookup(pages@, path@).unwrap()).unwrap())
            && depth < MAX_RECURSION_DEPTH && page_lookup(pages@, path@).unwrap().len() + 2
            <= usize::MAX) ==> (r matches Some(h) && h@ == "<p>"@ + title_line(
            page_lookup(pages@, path@).unwrap(),
        ).unwrap() + "</p>"@),
    decreases MAX_RECURSION_DEPTH - depth, 0int,
{
    if depth >= MAX_RECURSION_DEPTH {
        return None;
    }
    let contents = match lookup_page(pages, path) {
        None => {
            return None;
        },
        Some(c) => c,
    };
    let v = chars_of(contents.as_str());
    if v.len() == 0 {
        return None;
    }
    if v[0] != '#' {
        return None;
    }
    let ghost t0 = v@.skip(1);
    let mut out = String::new();
    let mut i: usize = 1;
    loop
        invariant
            page_lookup(pages@, path@) == Some(contents@),
            t0 == v@.skip(1),
            v@.len() > 0 && v@[0] == '#',
            1 <= i <= v@.len(),
            v@ == contents@,
            title_scan(t0) == (match title_scan(v@.skip(i as int)) {
                None => None::<Seq<char>>,
                Some(t) => Some(out@ + t),
            }),
        ensures
            title_scan(t0) == Some(out@),
        decreases v@.len() - i,
    {
        let ghost cur = v@.skip(i as int);
        proof {
            if cur.len() > 0 {
                assert(cur[0] == v@[i as int]);
            }
        }
        if i == v.len() {
            proof {
                assert(title_scan(cur) is None);
            }
            return None;
        }
        let c = v[i];
        if c == '#' {
            proof {
                assert(title_scan(cur) is None);
            }
            return None;
        }
        if c == '\\' {
            if i + 1 == v.len() {
                proof {
                    assert(cur.len() == 1);
                    assert(title_scan(cur) is None);
                }
                return None;
            }
            let c2 = v[i + 1];
            push_char(&mut out, c);
            push_char(&mut out, c2);
            proof {
                assert(cur[1] == v@[i + 1]);
                assert(cur.skip(2) =~= v@.skip(i + 2));
                match title_scan(v@.skip(i + 2)) {
                    None => {},
                    Some(t) => {
                        assert(out@ + t =~= (out@.drop_last().drop_last()) + (seq![cur[0], cur[1]]
                            + t));
                    },
                }
            }
            i = i + 2;
        } else if c == '\n' {
            proof {
                assert(title_scan(cur) == Some(Seq::<char>::empty()));
                assert(out@ + Seq::<char>::empty() =~= out@);
            }
            break;
        } else {
            push_char(&mut out, c);
            proof {
                assert(cur.skip(1) =~= v@.skip(i + 1));
                match title_scan(v@.skip(i + 1)) {
                    None => {},
                    Some(t) => {
                        assert(out@ + t =~= (out@.drop_last()) + (seq![cur[0]] + t));
                    },
                }
            }
            i = i + 1;
        }
    }
    proof {
        lemma_title_scan_len(t0);
    }
    let empty_templates: TemplateMap<NoTemplates> = TemplateMap::new();
    let dir = parent_of(path);
    let source = chars_of(out.as_str());
    if source.len() > usize::MAX - 2 {
        return None;
    }
    let mut title_chars = PutBackChars::new(source);
    let result = crate::markdown_charbuff_to_html(
        &mut title_chars,
        &empty_templates,
        pages,
        &dir,
        depth + 1,
    );
    match result {
        Err(_) => None,
        Ok((p, _exit)) => Some(p.html),
    }
}

} // verus!
