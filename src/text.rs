//! Small verified helpers on character sequences.
use vstd::prelude::*;
use vstd::string::StrSliceExecFns;

verus! {

/// Copies the characters of `s` into a vector.
pub fn chars_of(s: &str) -> (r: Vec<char>)
    ensures
        r@ == s@,
{
    let n = s.unicode_len();
    let mut r: Vec<char> = Vec::new();
    let mut i: usize = 0;
    while i < n
        invariant
            n == s@.len(),
            i <= n,
            r@ == s@.subrange(0, i as int),
        decreases n - i,
    {
        r.push(s.get_char(i));
        i = i + 1;
    }
    assert(r@ =~= s@);
    r
}

/// Whether `chars[start..end]` spells the word `w`.
pub fn spells(chars: &Vec<char>, start: usize, end: usize, w: &str) -> (r: bool)
    requires
        start <= end <= chars@.len(),
    ensures
        r == (chars@.subrange(start as int, end as int) == w@),
{
    let n = w.unicode_len();
    if end - start != n {
        return false;
    }
    let mut k: usize = 0;
    while k < n
        invariant
            n == w@.len(),
            end - start == n,
            start <= end <= chars@.len(),
            k <= n,
            forall|j: int| 0 <= j < k ==> chars@[start + j] == w@[j],
        decreases n - k,
    {
        if chars[start + k] != w.get_char(k) {
            assert(chars@.subrange(start as int, end as int)[k as int] != w@[k as int]);
            return false;
        }
        k = k + 1;
    }
    assert(chars@.subrange(start as int, end as int) =~= w@);
    true
}

} // verus!
