use vstd::prelude::*;

verus! {

/// `lit` occurs in `s` starting at position `i`.
pub open spec fn occurs_at(lit: Seq<char>, s: Seq<char>, i: int) -> bool {
    0 <= i && i + lit.len() <= s.len() && s.subrange(i, i + lit.len()) == lit
}

/// The length of the longest of `lits` that occurs in `s` at position `i`;
/// 0 where none does.
pub open spec fn longest_at(lits: Seq<Seq<char>>, s: Seq<char>, i: int) -> nat
    decreases lits.len(),
{
    if lits.len() == 0 {
        0
    } else {
        let rest = longest_at(lits.drop_last(), s, i);
        let lit = lits.last();
        if occurs_at(lit, s, i) && lit.len() > rest {
            lit.len()
        } else {
            rest
        }
    }
}

/// The length of the longest of `lits` that ends `s`; 0 where none does.
pub open spec fn longest_ending(lits: Seq<Seq<char>>, s: Seq<char>) -> nat
    decreases lits.len(),
{
    if lits.len() == 0 {
        0
    } else {
        let rest = longest_ending(lits.drop_last(), s);
        let lit = lits.last();
        if occurs_at(lit, s, s.len() - lit.len()) && lit.len() > rest {
            lit.len()
        } else {
            rest
        }
    }
}

/// The texts of a list of literals.
pub open spec fn lit_views(v: Seq<Vec<char>>) -> Seq<Seq<char>> {
    v.map_values(|x: Vec<char>| x@)
}

/// Whether `lit` occurs at position `k` of the segment `s[lo..hi]`.
pub fn occurs_in(lit: &Vec<char>, s: &Vec<char>, lo: usize, hi: usize, k: usize) -> (r: bool)
    requires
        lo <= hi <= s@.len(),
        k <= hi - lo,
    ensures
        r == occurs_at(lit@, s@.subrange(lo as int, hi as int), k as int),
{
    let ghost seg = s@.subrange(lo as int, hi as int);
    if lit.len() > hi - lo - k {
        return false;
    }
    let mut j: usize = 0;
    while j < lit.len()
        invariant
            lo <= hi <= s@.len(),
            k + lit@.len() <= hi - lo,
            j <= lit@.len(),
            seg == s@.subrange(lo as int, hi as int),
            forall|t: int| 0 <= t < j ==> seg[k + t] == lit@[t],
        decreases lit@.len() - j,
    {
        if s[lo + k + j] != lit[j] {
            proof {
                assert(seg.subrange(k as int, k + lit@.len())[j as int] != lit@[j as int]);
            }
            return false;
        }
        j = j + 1;
    }
    proof {
        assert(seg.subrange(k as int, k + lit@.len()) =~= lit@);
    }
    true
}

/// The length of the longest of `lits` at position `k` of the segment `s[lo..hi]`.
pub fn longest_in(lits: &Vec<Vec<char>>, s: &Vec<char>, lo: usize, hi: usize, k: usize) -> (r:
    usize)
    requires
        lo <= hi <= s@.len(),
        k <= hi - lo,
    ensures
        r == longest_at(lit_views(lits@), s@.subrange(lo as int, hi as int), k as int),
        r <= hi - lo - k,
{
    let ghost seg = s@.subrange(lo as int, hi as int);
    let ghost all = lit_views(lits@);
    let mut best: usize = 0;
    let mut j: usize = 0;
    while j < lits.len()
        invariant
            lo <= hi <= s@.len(),
            k <= hi - lo,
            j <= lits@.len(),
            seg == s@.subrange(lo as int, hi as int),
            all == lit_views(lits@),
            best == longest_at(all.take(j as int), seg, k as int),
            best <= hi - lo - k,
        decreases lits@.len() - j,
    {
        proof {
            assert(all.take(j + 1).drop_last() =~= all.take(j as int));
            assert(all.take(j + 1).last() == lits@[j as int]@);
        }
        if lits[j].len() > best && occurs_in(&lits[j], s, lo, hi, k) {
            best = lits[j].len();
        }
        j = j + 1;
    }
    proof {
        assert(all.take(j as int) =~= all);
    }
    best
}

/// The length of the longest of `lits` that ends the segment `s[lo..hi]`.
pub fn longest_ending_in(lits: &Vec<Vec<char>>, s: &Vec<char>, lo: usize, hi: usize) -> (r: usize)
    requires
        lo <= hi <= s@.len(),
    ensures
        r == longest_ending(lit_views(lits@), s@.subrange(lo as int, hi as int)),
        r <= hi - lo,
{
    let ghost seg = s@.subrange(lo as int, hi as int);
    let ghost all = lit_views(lits@);
    let mut best: usize = 0;
    let mut j: usize = 0;
    while j < lits.len()
        invariant
            lo <= hi <= s@.len(),
            j <= lits@.len(),
            seg == s@.subrange(lo as int, hi as int),
            all == lit_views(lits@),
            best == longest_ending(all.take(j as int), seg),
            best <= hi - lo,
        decreases lits@.len() - j,
    {
        proof {
            assert(all.take(j + 1).drop_last() =~= all.take(j as int));
            assert(all.take(j + 1).last() == lits@[j as int]@);
        }
        let n = lits[j].len();
        if n > best && n <= hi - lo && occurs_in(&lits[j], s, lo, hi, hi - lo - n) {
            best = n;
        }
        j = j + 1;
    }
    proof {
        assert(all.take(j as int) =~= all);
    }
    best
}

} // verus!
