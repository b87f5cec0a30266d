use vstd::prelude::*;

use crate::matched_logs::MatchedEntry;

verus! {

/// Lexicographic order on strings, by code point; a proper prefix comes first.
pub open spec fn lex_lt(a: Seq<char>, b: Seq<char>) -> bool
    decreases a.len(),
{
    if b.len() == 0 {
        false
    } else if a.len() == 0 {
        true
    } else if a[0] != b[0] {
        (a[0] as u32) < (b[0] as u32)
    } else {
        lex_lt(a.subrange(1, a.len() as int), b.subrange(1, b.len() as int))
    }
}

/// Whether `a` sorts strictly before `b`.
pub fn lex_less(a: &String, b: &String) -> (r: bool)
    ensures
        r == lex_lt(a@, b@),
{
    let la = a.as_str().unicode_len();
    let lb = b.as_str().unicode_len();
    let mut i: usize = 0;
    assert(a@.subrange(0, la as int) =~= a@);
    assert(b@.subrange(0, lb as int) =~= b@);
    while i < la && i < lb
        invariant
            la == a@.len(),
            lb == b@.len(),
            i <= la && i <= lb,
            lex_lt(a@, b@) == lex_lt(a@.subrange(i as int, la as int), b@.subrange(i as int, lb as int)),
        decreases la - i,
    {
        let ca = a.as_str().get_char(i);
        let cb = b.as_str().get_char(i);
        let ghost x = a@.subrange(i as int, la as int);
        let ghost y = b@.subrange(i as int, lb as int);
        assert(x[0] == ca && y[0] == cb);
        if ca != cb {
            return (ca as u32) < (cb as u32);
        }
        assert(x.subrange(1, x.len() as int) =~= a@.subrange(i + 1, la as int));
        assert(y.subrange(1, y.len() as int) =~= b@.subrange(i + 1, lb as int));
        i = i + 1;
    }
    i < lb
}

/// The smallest pair among the trades (meaningful for a non-empty sequence).
pub open spec fn min_pair(s: Seq<MatchedEntry>) -> Seq<char>
    decreases s.len(),
{
    if s.len() <= 1 {
        s[0].pair()
    } else {
        let m = min_pair(s.drop_last());
        if lex_lt(s.last().pair(), m) {
            s.last().pair()
        } else {
            m
        }
    }
}

proof fn lemma_min_pair_present(s: Seq<MatchedEntry>)
    requires
        s.len() > 0,
    ensures
        exists|i: int| 0 <= i < s.len() && (#[trigger] s[i]).pair() == min_pair(s),
    decreases s.len(),
{
    if s.len() == 1 {
        assert(s[0].pair() == min_pair(s));
    } else {
        lemma_min_pair_present(s.drop_last());
        let i = choose|i: int| 0 <= i < s.drop_last().len() && (#[trigger] s.drop_last()[i]).pair() == min_pair(s.drop_last());
        assert(s[i] == s.drop_last()[i]);
        assert(s[s.len() - 1] == s.last());
    }
}

pub proof fn lemma_filter_shrinks<A>(s: Seq<A>, pred: spec_fn(A) -> bool, i: int)
    requires
        0 <= i < s.len(),
        !pred(s[i]),
    ensures
        s.filter(pred).len() < s.len(),
    decreases s.len(),
{
    reveal(Seq::filter);
    let d = s.drop_last();
    if i == s.len() - 1 {
        d.lemma_filter_len(pred);
    } else {
        assert(d[i] == s[i]);
        lemma_filter_shrinks(d, pred, i);
    }
}

/// The trades in canonical order: the trades of the smallest pair, oldest first, then
/// the rest in canonical order. Pairs so come in lexicographic order, each in FIFO order.
pub open spec fn canonical(s: Seq<MatchedEntry>) -> Seq<MatchedEntry>
    decreases s.len(),
    via lemma_canonical_decreases
{
    if s.len() == 0 {
        s
    } else {
        let p = min_pair(s);
        s.filter(|e: MatchedEntry| e.pair() == p) + canonical(s.filter(|e: MatchedEntry| e.pair() != p))
    }
}

#[via_fn]
proof fn lemma_canonical_decreases(s: Seq<MatchedEntry>) {
    if s.len() > 0 {
        let p = min_pair(s);
        lemma_min_pair_present(s);
        let i = choose|i: int| 0 <= i < s.len() && (#[trigger] s[i]).pair() == p;
        lemma_filter_shrinks(s, |e: MatchedEntry| e.pair() != p, i);
    }
}

/// Every trade a filter keeps comes from the sequence filtered.
pub proof fn lemma_filter_members<A>(s: Seq<A>, pred: spec_fn(A) -> bool)
    ensures
        forall|i: int| 0 <= i < s.filter(pred).len() ==> s.contains(#[trigger] s.filter(pred)[i]),
    decreases s.len(),
{
    reveal(Seq::filter);
    if s.len() > 0 {
        let d = s.drop_last();
        lemma_filter_members(d, pred);
        assert forall|i: int| 0 <= i < s.filter(pred).len() implies s.contains(#[trigger] s.filter(pred)[i]) by {
            if i < d.filter(pred).len() {
                assert(s.filter(pred)[i] == d.filter(pred)[i]);
                let j = choose|j: int| 0 <= j < d.len() && d[j] == d.filter(pred)[i];
                assert(s[j] == d[j]);
            } else {
                assert(s.filter(pred)[i] == s.last());
                assert(s[s.len() - 1] == s.last());
            }
        }
    }
}

/// The canonical order only rearranges: each trade in it is one of the trades given.
pub proof fn lemma_canonical_members(s: Seq<MatchedEntry>)
    ensures
        forall|i: int| 0 <= i < canonical(s).len() ==> s.contains(#[trigger] canonical(s)[i]),
    decreases s.len(),
{
    if s.len() > 0 {
        let p = min_pair(s);
        let keep = |e: MatchedEntry| e.pair() == p;
        let rest = |e: MatchedEntry| e.pair() != p;
        lemma_min_pair_present(s);
        let i0 = choose|i: int| 0 <= i < s.len() && (#[trigger] s[i]).pair() == p;
        lemma_filter_shrinks(s, rest, i0);
        lemma_canonical_members(s.filter(rest));
        lemma_filter_members(s, keep);
        lemma_filter_members(s, rest);
        let a = s.filter(keep);
        let b = s.filter(rest);
        assert(canonical(s) == a + canonical(b));
        assert forall|i: int| 0 <= i < canonical(s).len() implies s.contains(#[trigger] canonical(s)[i]) by {
            if i < a.len() {
                assert(canonical(s)[i] == a[i]);
            } else {
                assert(canonical(s)[i] == canonical(b)[i - a.len()]);
                assert(b.contains(canonical(b)[i - a.len()]));
                let j = choose|j: int| 0 <= j < b.len() && b[j] == canonical(b)[i - a.len()];
                assert(s.contains(b[j]));
            }
        }
    }
}

/// Copies of the trades in canonical order.
pub fn canonical_order(logs: &Vec<MatchedEntry>) -> (r: Vec<MatchedEntry>)
    ensures
        r@ == canonical(logs@),
{
    let mut out: Vec<MatchedEntry> = Vec::new();
    let mut rest: Vec<MatchedEntry> = Vec::new();
    let mut k: usize = 0;
    while k < logs.len()
        invariant
            k <= logs@.len(),
            rest@ == logs@.take(k as int),
        decreases logs@.len() - k,
    {
        rest.push(logs[k].snapshot());
        assert(rest@ =~= logs@.take(k + 1));
        k = k + 1;
    }
    assert(logs@.take(logs@.len() as int) =~= logs@);
    assert(out@ + canonical(rest@) =~= canonical(logs@));
    while rest.len() > 0
        invariant
            out@ + canonical(rest@) == canonical(logs@),
        decreases rest@.len(),
    {
        let p = smallest_pair(&rest);
        let (same, others) = split_by_pair(&rest, &p);
        proof {
            let q = min_pair(rest@);
            lemma_min_pair_present(rest@);
            let i = choose|i: int| 0 <= i < rest@.len() && (#[trigger] rest@[i]).pair() == q;
            lemma_filter_shrinks(rest@, |e: MatchedEntry| e.pair() != q, i);
            assert(canonical(rest@) == same@ + canonical(others@));
        }
        let ghost before = out@;
        let mut same = same;
        out.append(&mut same);
        assert(out@ + canonical(others@) =~= before + canonical(rest@));
        rest = others;
    }
    assert(canonical(rest@) =~= Seq::<MatchedEntry>::empty());
    assert(out@ =~= canonical(logs@));
    out
}

fn smallest_pair(s: &Vec<MatchedEntry>) -> (r: String)
    requires
        s@.len() > 0,
    ensures
        r@ == min_pair(s@),
{
    let mut m = s[0].buy_order.pair_id.clone();
    assert(s@.take(1).len() == 1);
    let mut k: usize = 1;
    while k < s.len()
        invariant
            1 <= k <= s@.len(),
            m@ == min_pair(s@.take(k as int)),
        decreases s@.len() - k,
    {
        let ghost t = s@.take(k + 1);
        assert(t.drop_last() =~= s@.take(k as int));
        assert(t.last() == s@[k as int]);
        if lex_less(&s[k].buy_order.pair_id, &m) {
            m = s[k].buy_order.pair_id.clone();
        }
        k = k + 1;
    }
    assert(s@.take(s@.len() as int) =~= s@);
    m
}

fn split_by_pair(s: &Vec<MatchedEntry>, p: &String) -> (r: (Vec<MatchedEntry>, Vec<MatchedEntry>))
    ensures
        r.0@ == s@.filter(|e: MatchedEntry| e.pair() == p@),
        r.1@ == s@.filter(|e: MatchedEntry| e.pair() != p@),
{
    let ghost fs = |e: MatchedEntry| e.pair() == p@;
    let ghost fo = |e: MatchedEntry| e.pair() != p@;
    let mut same: Vec<MatchedEntry> = Vec::new();
    let mut others: Vec<MatchedEntry> = Vec::new();
    let mut k: usize = 0;
    proof {
        reveal(Seq::filter);
    }
    while k < s.len()
        invariant
            k <= s@.len(),
            fs == (|e: MatchedEntry| e.pair() == p@),
            fo == (|e: MatchedEntry| e.pair() != p@),
            same@ == s@.take(k as int).filter(fs),
            others@ == s@.take(k as int).filter(fo),
        decreases s@.len() - k,
    {
        proof {
            reveal(Seq::filter);
            assert(s@.take(k + 1).drop_last() =~= s@.take(k as int));
            assert(s@.take(k + 1).last() == s@[k as int]);
        }
        if s[k].buy_order.pair_id == *p {
            same.push(s[k].snapshot());
        } else {
            others.push(s[k].snapshot());
        }
        k = k + 1;
    }
    assert(s@.take(s@.len() as int) =~= s@);
    (same, others)
}

} // verus!
