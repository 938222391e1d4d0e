//! Character-level helpers on strings.

use vstd::prelude::*;

verus! {

broadcast use vstd::string::group_string_axioms;

/// The characters of `s`, in order.
pub(crate) fn chars_of(s: &str) -> (v: Vec<char>)
    ensures
        v@ == s@,
{
    let mut v: Vec<char> = Vec::new();
    for c in it: s.chars()
        invariant
            it.seq() == s@,
            v@ == it.seq().take(it.index()),
    {
        v.push(c);
    }
    v
}

/// Whether the characters of `a` from `from` on are exactly those of `b`.
pub(crate) fn matches_from(a: &Vec<char>, from: usize, b: &Vec<char>) -> (r: bool)
    requires
        from <= a@.len(),
    ensures
        r == (a@.subrange(from as int, a@.len() as int) == b@),
{
    let n = a.len();
    if n - from != b.len() {
        return false;
    }
    let mut k: usize = 0;
    while k < b.len()
        invariant
            n == a@.len(),
            from <= n,
            n - from == b@.len(),
            k <= b@.len(),
            forall|j: int| 0 <= j < k ==> a@[from + j] == b@[j],
        decreases b@.len() - k,
    {
        if a[from + k] != b[k] {
            return false;
        }
        k += 1;
    }
    assert(a@.subrange(from as int, a@.len() as int) =~= b@);
    true
}

} // verus!
