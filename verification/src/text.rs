//! Scanning of character sequences: how far a run of characters reaches,
//! where a character first occurs, and whether one text begins another.

use vstd::prelude::*;
use vstd::std_specs::iter::IteratorSpec;

verus! {

/// Number of elements at the front of `s` that all satisfy `p`.
pub open spec fn leading<A>(s: Seq<A>, p: spec_fn(A) -> bool) -> nat
    decreases s.len(),
{
    if s.len() == 0 || !p(s[0]) {
        0
    } else {
        1 + leading(s.drop_first(), p)
    }
}

/// The run counted by `leading` lies within `s`, every element of it
/// satisfies `p`, and the element that follows it, if there is one, does not.
pub proof fn lemma_leading<A>(s: Seq<A>, p: spec_fn(A) -> bool)
    ensures
        leading(s, p) <= s.len(),
        forall|j: int| 0 <= j < leading(s, p) ==> p(#[trigger] s[j]),
        leading(s, p) < s.len() ==> !p(s[leading(s, p) as int]),
    decreases s.len(),
{
    if s.len() != 0 && p(s[0]) {
        let rest = s.drop_first();
        lemma_leading(rest, p);
        assert forall|j: int| 0 <= j < leading(s, p) implies p(#[trigger] s[j]) by {
            if j > 0 {
                assert(s[j] == rest[j - 1]);
            }
        }
    }
}

/// A run of `k` elements that satisfy `p`, followed by the end of `s` or by
/// an element that does not, is the run that `leading` counts.
pub proof fn lemma_leading_is<A>(s: Seq<A>, p: spec_fn(A) -> bool, k: int)
    requires
        0 <= k <= s.len(),
        forall|j: int| 0 <= j < k ==> p(#[trigger] s[j]),
        k < s.len() ==> !p(s[k]),
    ensures
        leading(s, p) == k,
{
    lemma_leading(s, p);
    let found = leading(s, p) as int;
    if found < k {
        assert(p(s[found]));
    } else if k < found {
        assert(p(s[k]));
    }
}

/// What `leading` counts once `x` is added at the end of `s`: the same
/// run where it ended within `s`, else the whole of `s`, and `x` too where
/// it satisfies `p`.
pub proof fn lemma_leading_push<A>(s: Seq<A>, p: spec_fn(A) -> bool, x: A)
    ensures
        leading(s.push(x), p) == if leading(s, p) < s.len() {
            leading(s, p)
        } else if p(x) {
            s.len() + 1
        } else {
            s.len()
        },
{
    lemma_leading(s, p);
    let longer = s.push(x);
    let k: int = if leading(s, p) < s.len() {
        leading(s, p) as int
    } else if p(x) {
        s.len() as int + 1
    } else {
        s.len() as int
    };
    assert forall|j: int| 0 <= j < k implies p(#[trigger] longer[j]) by {
        if j < s.len() {
            assert(longer[j] == s[j]);
        }
    }
    lemma_leading_is(longer, p, k);
}

/// The predicate "is not `c`".
pub open spec fn other_than(c: char) -> spec_fn(char) -> bool {
    |x: char| x != c
}

/// Index of the first occurrence of `c` in `s`, or the length of `s` where
/// `c` does not occur.
pub open spec fn position(s: Seq<char>, c: char) -> nat {
    leading(s, other_than(c))
}

/// `position(s, c)` is `k` where `c` stands at `k` and nowhere before it, or
/// where `k` is the length of `s` and `c` occurs nowhere.
pub proof fn lemma_position_is(s: Seq<char>, c: char, k: int)
    requires
        0 <= k <= s.len(),
        forall|j: int| 0 <= j < k ==> #[trigger] s[j] != c,
        k < s.len() ==> s[k] == c,
    ensures
        position(s, c) == k,
{
    let p = other_than(c);
    assert forall|j: int| 0 <= j < k implies p(#[trigger] s[j]) by {}
    lemma_leading_is(s, p, k);
}

/// What `position` returns: an index within `s` or its length, with no `c`
/// before it and `c` at it.
pub proof fn lemma_position(s: Seq<char>, c: char)
    ensures
        position(s, c) <= s.len(),
        forall|j: int| 0 <= j < position(s, c) ==> #[trigger] s[j] != c,
        position(s, c) < s.len() ==> s[position(s, c) as int] == c,
{
    let p = other_than(c);
    lemma_leading(s, p);
    assert forall|j: int| 0 <= j < position(s, c) implies #[trigger] s[j] != c by {
        assert(p(s[j]));
    }
}

/// The characters that Unicode lists as white space.
pub open spec fn is_whitespace(c: char) -> bool {
    let n = c as u32;
    ||| 0x09 <= n <= 0x0D
    ||| n == 0x20
    ||| n == 0x85
    ||| n == 0xA0
    ||| n == 0x1680
    ||| 0x2000 <= n <= 0x200A
    ||| n == 0x2028
    ||| n == 0x2029
    ||| n == 0x202F
    ||| n == 0x205F
    ||| n == 0x3000
}

/// The predicate `is_whitespace` as a value.
pub open spec fn whitespace() -> spec_fn(char) -> bool {
    |c: char| is_whitespace(c)
}

/// Number of white-space characters at the front of `s`.
pub open spec fn indent(s: Seq<char>) -> nat {
    leading(s, whitespace())
}

/// `s` without the white space at its front.
pub open spec fn trim_start(s: Seq<char>) -> Seq<char> {
    s.skip(indent(s) as int)
}

/// Whether the last character of `s` is `c`.
pub open spec fn ends_with(s: Seq<char>, c: char) -> bool {
    s.len() > 0 && s.last() == c
}

/// Whether the first character of `s` that is no white space is `c`.
pub open spec fn begins_with(s: Seq<char>, c: char) -> bool {
    indent(s) < s.len() && s[indent(s) as int] == c
}

/// Whether `c` is white space.
pub fn char_is_whitespace(c: char) -> (b: bool)
    ensures
        b == is_whitespace(c),
{
    let n: u32 = c as u32;
    (0x09 <= n && n <= 0x0D) || n == 0x20 || n == 0x85 || n == 0xA0 || n == 0x1680 || (0x2000 <= n
        && n <= 0x200A) || n == 0x2028 || n == 0x2029 || n == 0x202F || n == 0x205F || n == 0x3000
}

/// The first index at which `c` occurs in `s`, or the number of characters
/// of `s` where it does not occur.
pub fn find_char(s: &str, c: char) -> (k: usize)
    ensures
        k == position(s@, c),
        k <= s@.len(),
{
    let n = s.unicode_len();
    let mut k: usize = n;
    let mut i: usize = 0;
    for x in it: s.chars()
        invariant
            it.seq() == s@,
            i == it.index(),
            n == s@.len(),
            k <= n,
            k == n ==> forall|j: int| 0 <= j < i ==> #[trigger] s@[j] != c,
            k < n ==> k < i && s@[k as int] == c && forall|j: int|
                0 <= j < k ==> #[trigger] s@[j] != c,
    {
        if k == n && x == c {
            k = i;
        }
        i += 1;
    }
    proof {
        lemma_position_is(s@, c, k as int);
    }
    k
}

/// The number of white-space characters at the front of `s`.
pub fn count_indent(s: &str) -> (k: usize)
    ensures
        k == indent(s@),
        k <= s@.len(),
{
    let n = s.unicode_len();
    let mut k: usize = n;
    let mut i: usize = 0;
    for x in it: s.chars()
        invariant
            it.seq() == s@,
            i == it.index(),
            n == s@.len(),
            k <= n,
            k == n ==> forall|j: int| 0 <= j < i ==> is_whitespace(#[trigger] s@[j]),
            k < n ==> k < i && !is_whitespace(s@[k as int]) && forall|j: int|
                0 <= j < k ==> is_whitespace(#[trigger] s@[j]),
    {
        if k == n && !char_is_whitespace(x) {
            k = i;
        }
        i += 1;
    }
    proof {
        let p = whitespace();
        assert forall|j: int| 0 <= j < k implies p(#[trigger] s@[j]) by {}
        lemma_leading_is(s@, p, k as int);
    }
    k
}

/// Whether `s` ends with the character `c`.
pub fn ends_with_char(s: &str, c: char) -> (b: bool)
    ensures
        b == ends_with(s@, c),
{
    let mut b = false;
    for x in it: s.chars()
        invariant
            it.seq() == s@,
            b == ends_with(s@.take(it.index() as int), c),
    {
        b = x == c;
    }
    assert(s@.take(s@.len() as int) =~= s@);
    b
}

/// Whether `c` is the first character of `s` after its leading white space.
pub fn begins_with_char(s: &str, c: char) -> (b: bool)
    ensures
        b == begins_with(s@, c),
{
    let k = count_indent(s);
    k < s.unicode_len() && s.get_char(k) == c
}

/// The characters of `s`, one by one.
pub fn chars_of(s: &str) -> (v: Vec<char>)
    ensures
        v@ == s@,
{
    let mut v: Vec<char> = Vec::new();
    for x in it: s.chars()
        invariant
            it.seq() == s@,
            v@ == s@.take(it.index() as int),
    {
        v.push(x);
    }
    v
}

/// Whether `s` begins with `prefix`.
pub fn starts_with(s: &str, prefix: &str) -> (b: bool)
    ensures
        b == prefix@.is_prefix_of(s@),
{
    let want = chars_of(prefix);
    let m = want.len();
    if s.unicode_len() < m {
        return false;
    }
    let head = s.substring_char(0, m);
    let mut same = true;
    let mut i: usize = 0;
    for x in it: head.chars()
        invariant
            it.seq() == head@,
            i == it.index(),
            want@ == prefix@,
            head@.len() == m,
            m == want@.len(),
            same == (forall|j: int| 0 <= j < i ==> #[trigger] head@[j] == prefix@[j]),
    {
        if x != want[i] {
            same = false;
        }
        i += 1;
    }
    assert(same == (prefix@ =~= head@));
    same
}

/// Whether `a` and `b` hold the same characters.
pub fn same_text(a: &str, b: &str) -> (same: bool)
    ensures
        same == (a@ == b@),
{
    let prefixed = starts_with(a, b);
    let equal = prefixed && a.unicode_len() == b.unicode_len();
    assert(equal == (a@ =~= b@));
    equal
}

} // verus!
