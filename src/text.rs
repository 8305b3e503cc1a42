//! Character-level helpers on command text.
use vstd::prelude::*;

verus! {

/// Position of the first element of `s` equal to `x`, or `s.len()` when there is none.
pub open spec fn first_pos<A>(s: Seq<A>, x: A) -> int
    decreases s.len(),
{
    if s.len() == 0 {
        0
    } else if s[0] == x {
        0
    } else {
        1 + first_pos(s.drop_first(), x)
    }
}

/// `first_pos` is the index `i` before which `x` does not occur and at which it does,
/// or the end of `s`.
pub proof fn lemma_first_pos<A>(s: Seq<A>, x: A, i: int)
    requires
        0 <= i <= s.len(),
        forall|j: int| 0 <= j < i ==> s[j] != x,
        i == s.len() || s[i] == x,
    ensures
        first_pos(s, x) == i,
    decreases s.len(),
{
    if s.len() > 0 && s[0] != x {
        assert(i > 0);
        lemma_first_pos(s.drop_first(), x, i - 1);
    }
}

/// `first_pos` lies within `0..=s.len()`, no element before it equals `x`,
/// and the element at it, if any, does.
pub proof fn lemma_first_pos_bounds<A>(s: Seq<A>, x: A)
    ensures
        0 <= first_pos(s, x) <= s.len(),
        forall|j: int| 0 <= j < first_pos(s, x) ==> s[j] != x,
        first_pos(s, x) < s.len() ==> s[first_pos(s, x)] == x,
    decreases s.len(),
{
    if s.len() > 0 && s[0] != x {
        lemma_first_pos_bounds(s.drop_first(), x);
        assert forall|j: int| 0 <= j < first_pos(s, x) implies s[j] != x by {
            if j > 0 {
                assert(s[j] == s.drop_first()[j - 1]);
            }
        }
    }
}

/// Index of the first `c` in `s`, counted in characters; `s@.len()` when `c` does not occur.
pub fn find_char(s: &str, c: char) -> (p: usize)
    ensures
        p == first_pos(s@, c),
{
    let n = s.unicode_len();
    let mut i: usize = 0;
    while i < n
        invariant
            n == s@.len(),
            i <= n,
            forall|j: int| 0 <= j < i ==> s@[j] != c,
        decreases n - i,
    {
        if s.get_char(i) == c {
            proof {
                lemma_first_pos(s@, c, i as int);
            }
            return i;
        }
        i = i + 1;
    }
    proof {
        lemma_first_pos(s@, c, i as int);
    }
    i
}

/// Whether `a` and `b` hold the same characters.
pub fn same_text(a: &str, b: &str) -> (r: bool)
    ensures
        r == (a@ == b@),
{
    let n = a.unicode_len();
    if n != b.unicode_len() {
        return false;
    }
    let mut i: usize = 0;
    while i < n
        invariant
            n == a@.len(),
            n == b@.len(),
            i <= n,
            forall|j: int| 0 <= j < i ==> a@[j] == b@[j],
        decreases n - i,
    {
        if a.get_char(i) != b.get_char(i) {
            return false;
        }
        i = i + 1;
    }
    assert(a@ =~= b@);
    true
}

/// What remains of `s` once leading and trailing whitespace is removed.
pub uninterp spec fn trimmed(s: Seq<char>) -> Seq<char>;

/// Relies on `str::trim`: removes leading and trailing Unicode whitespace, so the
/// result depends on the characters of `s` alone.
#[verifier::external_body]
pub(crate) fn trim(s: &str) -> (r: &str)
    ensures
        r@ == trimmed(s@),
{
    s.trim()
}

} // verus!
