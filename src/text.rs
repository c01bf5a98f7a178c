//! Byte-string helpers for the model readers: trimming and splitting at a
//! separator, each with the direct statement of what it computes.
use crate::mps::{bytes_view, copy_range, is_blank};
use vstd::prelude::*;

verus! {

/// `s` without its leading blanks.
pub open spec fn trim_start(s: Seq<u8>) -> Seq<u8>
    decreases s.len(),
{
    if s.len() > 0 && is_blank(s[0]) {
        trim_start(s.drop_first())
    } else {
        s
    }
}

/// `s` without its trailing blanks.
pub open spec fn trim_end(s: Seq<u8>) -> Seq<u8>
    decreases s.len(),
{
    if s.len() > 0 && is_blank(s.last()) {
        trim_end(s.drop_last())
    } else {
        s
    }
}

/// `s` without leading and trailing blanks.
pub open spec fn trim(s: Seq<u8>) -> Seq<u8> {
    trim_end(trim_start(s))
}

/// `pat` occurs in `s` at index `k`.
pub open spec fn matches_at(s: Seq<u8>, pat: Seq<u8>, k: int) -> bool {
    0 <= k && k + pat.len() <= s.len() && s.subrange(k, k + pat.len()) == pat
}

/// The first index from `i` on where `pat` occurs in `s`, or `s.len()`.
pub open spec fn index_of(s: Seq<u8>, pat: Seq<u8>, i: int) -> int
    decreases s.len() - i,
{
    if i < 0 || i >= s.len() || i + pat.len() > s.len() {
        s.len() as int
    } else if matches_at(s, pat, i) {
        i
    } else {
        index_of(s, pat, i + 1)
    }
}

/// `pat` occurs somewhere in `s`.
pub open spec fn contains(s: Seq<u8>, pat: Seq<u8>) -> bool {
    index_of(s, pat, 0) < s.len()
}

/// The pieces of `s[i..]` between occurrences of `pat`.
pub open spec fn pieces_from(s: Seq<u8>, pat: Seq<u8>, i: int) -> Seq<Seq<u8>>
    decreases s.len() - i,
{
    if i < 0 || i > s.len() || pat.len() == 0 {
        Seq::empty()
    } else {
        let k = index_of(s, pat, i);
        if k >= s.len() || k < i || k + pat.len() > s.len() {
            seq![s.subrange(i, s.len() as int)]
        } else {
            seq![s.subrange(i, k)] + pieces_from(s, pat, k + pat.len())
        }
    }
}

/// The pieces of `s` between occurrences of `pat`: one more piece than
/// there are occurrences, empty pieces included.
pub open spec fn pieces(s: Seq<u8>, pat: Seq<u8>) -> Seq<Seq<u8>> {
    pieces_from(s, pat, 0)
}

pub proof fn lemma_index_of_bounds(s: Seq<u8>, pat: Seq<u8>, i: int)
    requires
        0 <= i <= s.len(),
        pat.len() > 0,
    ensures
        i <= index_of(s, pat, i) <= s.len(),
        index_of(s, pat, i) < s.len() ==> matches_at(s, pat, index_of(s, pat, i)),
        forall|q: int| i <= q < index_of(s, pat, i) ==> !matches_at(s, pat, q),
    decreases s.len() - i,
{
    if i >= s.len() || i + pat.len() > s.len() {
        assert forall|q: int| i <= q < s.len() implies !matches_at(s, pat, q) by {}
    } else if !matches_at(s, pat, i) {
        lemma_index_of_bounds(s, pat, i + 1);
    }
}

/// A copy of `s` without leading and trailing blanks.
pub fn trim_bytes(s: &Vec<u8>) -> (r: Vec<u8>)
    ensures
        r@ == trim(s@),
{
    let n = s.len();
    let mut lo: usize = 0;
    assert(s@.subrange(0, n as int) =~= s@);
    while lo < n && (s[lo] == 32 || s[lo] == 9 || s[lo] == 13)
        invariant
            n == s@.len(),
            lo <= n,
            trim_start(s@) == trim_start(s@.subrange(lo as int, n as int)),
        decreases n - lo,
    {
        let ghost sub = s@.subrange(lo as int, n as int);
        assert(sub.drop_first() =~= s@.subrange(lo as int + 1, n as int));
        lo = lo + 1;
    }
    let ghost t = s@.subrange(lo as int, n as int);
    assert(trim_start(s@) == t);
    let mut hi: usize = n;
    assert(s@.subrange(lo as int, hi as int) =~= t);
    while hi > lo && (s[hi - 1] == 32 || s[hi - 1] == 9 || s[hi - 1] == 13)
        invariant
            n == s@.len(),
            lo <= hi <= n,
            trim_end(t) == trim_end(s@.subrange(lo as int, hi as int)),
        decreases hi - lo,
    {
        let ghost sub = s@.subrange(lo as int, hi as int);
        assert(sub.drop_last() =~= s@.subrange(lo as int, hi as int - 1));
        hi = hi - 1;
    }
    copy_range(s.as_slice(), lo, hi)
}

/// Whether `pat` occurs in `s` at index `k`.
fn matches_at_exec(s: &Vec<u8>, pat: &Vec<u8>, k: usize) -> (r: bool)
    requires
        k + pat@.len() <= s@.len(),
    ensures
        r == matches_at(s@, pat@, k as int),
{
    let n = s.len();
    let m = pat.len();
    let mut q: usize = 0;
    while q < m
        invariant
            n == s@.len(),
            m == pat@.len(),
            k + m <= s@.len(),
            q <= m,
            forall|p: int| 0 <= p < q ==> s@[k + p] == pat@[p],
        decreases m - q,
    {
        if s[k + q] != pat[q] {
            assert(s@.subrange(k as int, k + m)[q as int] != pat@[q as int]);
            return false;
        }
        q = q + 1;
    }
    assert(s@.subrange(k as int, k + m) =~= pat@);
    true
}

/// The first index from `i` on where `pat` occurs in `s`, or `s.len()`.
pub fn find(s: &Vec<u8>, pat: &Vec<u8>, i: usize) -> (k: usize)
    requires
        pat@.len() > 0,
        i <= s@.len(),
    ensures
        k == index_of(s@, pat@, i as int),
{
    let n = s.len();
    let m = pat.len();
    let mut k: usize = i;
    while m <= n - k
        invariant
            n == s@.len(),
            m == pat@.len(),
            m > 0,
            i <= k <= n,
            index_of(s@, pat@, i as int) == index_of(s@, pat@, k as int),
        decreases n - k,
    {
        if matches_at_exec(s, pat, k) {
            return k;
        }
        k = k + 1;
    }
    n
}

/// The pieces of `s` between occurrences of `pat`.
pub fn split_pieces(s: &Vec<u8>, pat: &Vec<u8>) -> (r: Vec<Vec<u8>>)
    requires
        pat@.len() > 0,
    ensures
        bytes_view(r@) == pieces(s@, pat@),
{
    let n = s.len();
    let m = pat.len();
    let mut acc: Vec<Vec<u8>> = Vec::new();
    let mut i: usize = 0;
    assert(bytes_view(acc@) + pieces_from(s@, pat@, 0) =~= pieces(s@, pat@));
    loop
        invariant
            n == s@.len(),
            m == pat@.len(),
            m > 0,
            i <= n,
            bytes_view(acc@) + pieces_from(s@, pat@, i as int) == pieces(s@, pat@),
        decreases n - i,
    {
        let k = find(s, pat, i);
        proof {
            lemma_index_of_bounds(s@, pat@, i as int);
        }
        let ghost before = bytes_view(acc@);
        if k >= n {
            let piece = copy_range(s.as_slice(), i, n);
            acc.push(piece);
            proof {
                assert(bytes_view(acc@) =~= before.push(piece@));
                assert(pieces_from(s@, pat@, i as int) == seq![s@.subrange(i as int, n as int)]);
                assert(bytes_view(acc@) =~= before + pieces_from(s@, pat@, i as int));
            }
            return acc;
        }
        let piece = copy_range(s.as_slice(), i, k);
        acc.push(piece);
        proof {
            assert(bytes_view(acc@) =~= before.push(piece@));
            assert(pieces_from(s@, pat@, i as int) == seq![s@.subrange(i as int, k as int)] + pieces_from(
                s@,
                pat@,
                k + m,
            ));
            assert(bytes_view(acc@) + pieces_from(s@, pat@, k + m) =~= before + pieces_from(s@, pat@, i as int));
        }
        i = k + m;
    }
}

} // verus!
