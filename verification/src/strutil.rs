//! Small verified helpers for building and inspecting strings.

use vstd::prelude::*;
use vstd::string::*;

verus! {

/// Relies on `String::push` from std: appends exactly one character.
#[verifier::external_body]
pub fn push_char(s: &mut String, c: char)
    ensures
        final(s)@ == old(s)@.push(c),
{
    s.push(c);
}

/// The characters of a string as a vector, in order.
pub fn chars_of(s: &str) -> (r: Vec<char>)
    ensures
        r@ == s@,
{
    let n = s.unicode_len();
    let mut v: Vec<char> = Vec::new();
    let mut i: usize = 0;
    while i < n
        invariant
            i <= n,
            n == s@.len(),
            v@ == s@.take(i as int),
        decreases n - i,
    {
        let c = s.get_char(i);
        v.push(c);
        proof {
            assert(v@ =~= s@.take(i + 1));
        }
        i += 1;
    }
    proof {
        assert(v@ =~= s@);
    }
    v
}

/// The decimal digit character for `d`.
pub open spec fn digit_char(d: int) -> char {
    if d == 0 {
        '0'
    } else if d == 1 {
        '1'
    } else if d == 2 {
        '2'
    } else if d == 3 {
        '3'
    } else if d == 4 {
        '4'
    } else if d == 5 {
        '5'
    } else if d == 6 {
        '6'
    } else if d == 7 {
        '7'
    } else if d == 8 {
        '8'
    } else {
        '9'
    }
}

/// The decimal rendering of a non-negative integer, most significant digit
/// first.
pub open spec fn spec_digits(n: int) -> Seq<char>
    decreases n,
{
    if n < 0 {
        Seq::empty()
    } else if n < 10 {
        seq![digit_char(n)]
    } else {
        spec_digits(n / 10).push(digit_char(n % 10))
    }
}

fn digit_of(d: usize) -> (c: char)
    requires
        d < 10,
    ensures
        c == digit_char(d as int),
{
    match d {
        0 => '0',
        1 => '1',
        2 => '2',
        3 => '3',
        4 => '4',
        5 => '5',
        6 => '6',
        7 => '7',
        8 => '8',
        _ => '9',
    }
}

/// A non-negative integer rendered in decimal.
pub fn usize_string(n: usize) -> (r: String)
    ensures
        r@ == spec_digits(n as int),
    decreases n,
{
    if n < 10 {
        let mut s = String::new();
        push_char(&mut s, digit_of(n));
        proof {
            assert(s@ =~= spec_digits(n as int));
        }
        s
    } else {
        let mut s = usize_string(n / 10);
        push_char(&mut s, digit_of(n % 10));
        s
    }
}

/// The first `k` characters of `v` as a string.
pub fn take_string(v: &Vec<char>, k: usize) -> (r: String)
    requires
        k <= v@.len(),
    ensures
        r@ == v@.take(k as int),
{
    let mut s = String::new();
    let mut i: usize = 0;
    while i < k
        invariant
            i <= k <= v@.len(),
            s@ == v@.take(i as int),
        decreases k - i,
    {
        push_char(&mut s, v[i]);
        proof {
            assert(s@ =~= v@.take(i + 1));
        }
        i += 1;
    }
    s
}

/// Extending a subrange by the element at its end.
pub proof fn lemma_subrange_push<A>(s: Seq<A>, a: int, b: int)
    requires
        0 <= a <= b < s.len(),
    ensures
        s.subrange(a, b + 1) == s.subrange(a, b).push(s[b]),
{
    assert(s.subrange(a, b + 1) =~= s.subrange(a, b).push(s[b]));
}

/// Pushing distributes over concatenation.
pub proof fn lemma_push_concat<A>(x: Seq<A>, y: Seq<A>, c: A)
    ensures
        (x + y).push(c) == x + y.push(c),
{
    assert((x + y).push(c) =~= x + y.push(c));
}

/// The empty subrange.
pub proof fn lemma_subrange_empty<A>(s: Seq<A>, a: int)
    requires
        0 <= a <= s.len(),
    ensures
        s.subrange(a, a) == Seq::<A>::empty(),
{
    assert(s.subrange(a, a) =~= Seq::<A>::empty());
}

/// Appending nothing changes nothing.
pub proof fn lemma_concat_empty<A>(x: Seq<A>)
    ensures
        x + Seq::<A>::empty() == x,
{
    assert(x + Seq::<A>::empty() =~= x);
}

/// Skipping twice is skipping the sum.
pub proof fn lemma_skip_skip<A>(s: Seq<A>, a: int, b: int)
    requires
        0 <= a,
        0 <= b,
        a + b <= s.len(),
    ensures
        s.skip(a).skip(b) == s.skip(a + b),
{
    assert(s.skip(a).skip(b) =~= s.skip(a + b));
}

/// A non-empty sequence is its head followed by its tail.
pub proof fn lemma_cons_head<A>(s: Seq<A>)
    requires
        s.len() > 0,
    ensures
        seq![s[0]] + s.skip(1) == s,
{
    assert(seq![s[0]] + s.skip(1) =~= s);
}

/// A short prefix is unaffected by appending.
pub proof fn lemma_take_concat<A>(a: Seq<A>, b: Seq<A>, k: int)
    requires
        0 <= k <= a.len(),
    ensures
        (a + b).take(k) == a.take(k),
{
    assert((a + b).take(k) =~= a.take(k));
}

/// A short prefix is unaffected by pushing.
pub proof fn lemma_take_push<A>(a: Seq<A>, c: A, k: int)
    requires
        0 <= k <= a.len(),
    ensures
        a.push(c).take(k) == a.take(k),
{
    assert(a.push(c).take(k) =~= a.take(k));
}

/// Taking everything is the sequence itself.
pub proof fn lemma_take_all<A>(s: Seq<A>)
    ensures
        s.take(s.len() as int) == s,
{
    assert(s.take(s.len() as int) =~= s);
}

/// A push on the left of a concatenation is prepending to the right part.
pub proof fn lemma_push_prepend<A>(x: Seq<A>, c: A, y: Seq<A>)
    ensures
        x.push(c) + y == x + (seq![c] + y),
{
    assert(x.push(c) + y =~= x + (seq![c] + y));
}

/// Every sequence is a prefix of itself.
pub proof fn lemma_prefix_refl<A>(a: Seq<A>)
    ensures
        a.is_prefix_of(a),
{
    assert(a =~= a.subrange(0, a.len() as int));
}

/// A sequence is a prefix of itself followed by anything.
pub proof fn lemma_prefix_append<A>(a: Seq<A>, b: Seq<A>)
    ensures
        a.is_prefix_of(a + b),
{
    assert((a + b).subrange(0, a.len() as int) =~= a);
}

} // verus!
