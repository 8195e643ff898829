//! Stable ordering of watchlists by display symbol.

use vstd::prelude::*;
use crate::config::{WatchEntry, WatchItem};
use crate::order::{lex_lt, lex_le, lemma_lex_irreflexive, lemma_lex_transitive, lemma_lex_total, compare_chars, Precedence};
use crate::text::chars_of;

verus! {

broadcast use vstd::seq_lib::group_seq_properties;

/// The entries are in non-decreasing symbol order.
pub open spec fn sorted_by_symbol(s: Seq<WatchEntry>) -> bool {
    forall|i: int, j: int| 0 <= i < j < s.len() ==> lex_le(#[trigger] s[i].symbol, #[trigger] s[j].symbol)
}

/// Whether an entry has the display symbol `k`.
pub open spec fn has_symbol(k: Seq<char>) -> spec_fn(WatchEntry) -> bool {
    |e: WatchEntry| e.symbol == k
}

/// The entries of `s` with display symbol `k`, in their order.
pub open spec fn with_symbol(s: Seq<WatchEntry>, k: Seq<char>) -> Seq<WatchEntry> {
    s.filter(has_symbol(k))
}

/// `r` is `s` stably sorted by symbol: ordered by symbol, and for every
/// symbol the entries with that symbol appear in `r` as they do in `s`.
pub open spec fn stable_sort_of(r: Seq<WatchEntry>, s: Seq<WatchEntry>) -> bool {
    &&& sorted_by_symbol(r)
    &&& forall|k: Seq<char>| #[trigger] with_symbol(r, k) == with_symbol(s, k)
}

/// The filter of a one-element sequence.
proof fn lemma_filter_single(x: WatchEntry, k: Seq<char>)
    ensures
        with_symbol(seq![x], k) == if x.symbol == k { seq![x] } else { Seq::<WatchEntry>::empty() },
{
    let e = Seq::<WatchEntry>::empty();
    e.lemma_filter_push(x, has_symbol(k));
    assert(e.push(x) == seq![x]);
    reveal(Seq::filter);
    assert(e.filter(has_symbol(k)) == e);
    assert(e.push(x) == seq![x]);
}

/// Inserting `x` after every entry that does not sort after it keeps the
/// order and adds `x` at the end of its symbol's entries.
proof fn lemma_insert_entry(out: Seq<WatchEntry>, p: int, x: WatchEntry)
    requires
        sorted_by_symbol(out),
        0 <= p <= out.len(),
        forall|j: int| 0 <= j < p ==> lex_le(#[trigger] out[j].symbol, x.symbol),
        p < out.len() ==> lex_lt(x.symbol, out[p].symbol),
    ensures
        sorted_by_symbol(out.insert(p, x)),
        forall|k: Seq<char>| #[trigger] with_symbol(out.insert(p, x), k) == if x.symbol == k {
            with_symbol(out, k).push(x)
        } else {
            with_symbol(out, k)
        },
{
    let n = out.insert(p, x);
    assert forall|a: int, b: int| 0 <= a < b < n.len() implies lex_le(
        #[trigger] n[a].symbol,
        #[trigger] n[b].symbol,
    ) by {
        if b < p {
        } else if b == p {
        } else if a < p {
            assert(n[b] == out[b - 1]);
            assert(lex_le(out[a].symbol, out[b - 1].symbol));
        } else if a == p {
            assert(n[b] == out[b - 1]);
            if b - 1 > p {
                assert(lex_le(out[p].symbol, out[b - 1].symbol));
                if lex_lt(out[p].symbol, out[b - 1].symbol) {
                    lemma_lex_transitive(x.symbol, out[p].symbol, out[b - 1].symbol);
                }
            }
        } else {
            assert(n[a] == out[a - 1]);
            assert(n[b] == out[b - 1]);
            assert(lex_le(out[a - 1].symbol, out[b - 1].symbol));
        }
    }
    let head = out.take(p);
    let tail = out.skip(p);
    assert(out == head + tail);
    assert(n == head + seq![x] + tail);
    assert forall|k: Seq<char>| #[trigger] with_symbol(n, k) == if x.symbol == k {
        with_symbol(out, k).push(x)
    } else {
        with_symbol(out, k)
    } by {
        let pred = has_symbol(k);
        Seq::filter_distributes_over_add(head, tail, pred);
        Seq::filter_distributes_over_add(head + seq![x], tail, pred);
        Seq::filter_distributes_over_add(head, seq![x], pred);
        lemma_filter_single(x, k);
        if x.symbol == k {
            assert forall|j: int| 0 <= j < tail.len() implies !pred(#[trigger] tail[j]) by {
                assert(tail[j] == out[p + j]);
                if j == 0 {
                    lemma_lex_irreflexive(x.symbol);
                } else {
                    assert(lex_le(out[p].symbol, out[p + j].symbol));
                    lemma_lex_irreflexive(x.symbol);
                    if lex_lt(out[p].symbol, out[p + j].symbol) {
                        lemma_lex_transitive(x.symbol, out[p].symbol, out[p + j].symbol);
                    }
                }
            }
            assert(tail.all(|e: WatchEntry| !pred(e)));
            tail.lemma_all_neg_filter_empty(pred);
            assert(tail.filter(pred) == Seq::<WatchEntry>::empty());
            assert(head.filter(pred) + seq![x] == head.filter(pred).push(x));
        } else {
            assert(head.filter(pred) + Seq::<WatchEntry>::empty() == head.filter(pred));
        }
    }
}

/// `items` stably sorted by display symbol.
pub fn sort_by_symbol(items: &Vec<WatchItem>) -> (r: Vec<WatchItem>)
    ensures
        stable_sort_of(r.deep_view(), items.deep_view()),
{
    let mut out: Vec<WatchItem> = Vec::new();
    let ghost src = items.deep_view();
    assert(src.take(0) == Seq::<WatchEntry>::empty());
    assert(out.deep_view() == Seq::<WatchEntry>::empty());
    let mut idx: usize = 0;
    while idx < items.len()
        invariant
            idx <= items.len(),
            src == items.deep_view(),
            sorted_by_symbol(out.deep_view()),
            forall|k: Seq<char>| #[trigger] with_symbol(out.deep_view(), k) == with_symbol(src.take(idx as int), k),
        decreases items.len() - idx,
    {
        let item = items[idx].clone();
        let ghost x = item@;
        assert(x == src[idx as int]);
        let key = chars_of(item.symbol.as_str());
        let mut p: usize = 0;
        let ghost cur = out.deep_view();
        while p < out.len()
            invariant_except_break
                p <= out.len(),
                out.deep_view() == cur,
                key@ == x.symbol,
                forall|j: int| 0 <= j < p ==> lex_le(#[trigger] cur[j].symbol, x.symbol),
            ensures
                p <= out.len(),
                out.deep_view() == cur,
                forall|j: int| 0 <= j < p ==> lex_le(#[trigger] cur[j].symbol, x.symbol),
                p < out.len() ==> lex_lt(x.symbol, cur[p as int].symbol),
            decreases out.len() - p,
        {
            let here = chars_of(out[p].symbol.as_str());
            match compare_chars(&here, &key) {
                Precedence::After => {
                    break;
                },
                _ => {
                    p = p + 1;
                },
            }
        }
        proof {
            lemma_insert_entry(cur, p as int, x);
        }
        out.insert(p, item);
        assert(out.deep_view() == cur.insert(p as int, x));
        assert(src.take(idx + 1) == src.take(idx as int).push(x));
        assert forall|k: Seq<char>| #[trigger] with_symbol(out.deep_view(), k) == with_symbol(src.take(idx + 1), k) by {
            src.take(idx as int).lemma_filter_push(x, has_symbol(k));
        }
        idx = idx + 1;
    }
    assert(src.take(items.len() as int) == src);
    out
}

/// An entry of a sequence is among the entries with its symbol.
proof fn lemma_group_nonempty(s: Seq<WatchEntry>, i: int)
    requires
        0 <= i < s.len(),
    ensures
        with_symbol(s, s[i].symbol).len() > 0,
{
    broadcast use vstd::seq_lib::group_filter_ensures;

    assert(has_symbol(s[i].symbol)(s[i]));
    assert(with_symbol(s, s[i].symbol).contains(s[i]));
}

/// A symbol with entries in `s` is not after the symbol of its last entry.
proof fn lemma_group_before_last(s: Seq<WatchEntry>, k: Seq<char>)
    requires
        sorted_by_symbol(s),
        s.len() > 0,
        with_symbol(s, k).len() > 0,
    ensures
        lex_le(k, s.last().symbol),
{
    broadcast use vstd::seq_lib::group_filter_ensures;

    let e = with_symbol(s, k)[0];
    assert(with_symbol(s, k).contains(e));
    s.lemma_filter_contains_rev(has_symbol(k), e);
    let j = choose|j: int| 0 <= j < s.len() && s[j] == e;
    assert(has_symbol(k)(e));
    if j < s.len() - 1 {
        assert(lex_le(s[j].symbol, s[s.len() - 1].symbol));
    }
}

/// Two sequences ordered by symbol with the same entries for every symbol
/// are equal.
pub proof fn lemma_sorted_groups_determine(r1: Seq<WatchEntry>, r2: Seq<WatchEntry>)
    requires
        sorted_by_symbol(r1),
        sorted_by_symbol(r2),
        forall|k: Seq<char>| #[trigger] with_symbol(r1, k) == with_symbol(r2, k),
    ensures
        r1 == r2,
    decreases r1.len(),
{
    if r1.len() == 0 || r2.len() == 0 {
        if r1.len() > 0 {
            lemma_group_nonempty(r1, 0);
            assert(with_symbol(r2, r1[0].symbol) == with_symbol(r1, r1[0].symbol));
            reveal(Seq::filter);
        } else if r2.len() > 0 {
            lemma_group_nonempty(r2, 0);
            assert(with_symbol(r1, r2[0].symbol) == with_symbol(r2, r2[0].symbol));
            reveal(Seq::filter);
        }
        assert(r1 == r2);
    } else {
        let x1 = r1.last();
        let x2 = r2.last();
        lemma_group_nonempty(r1, r1.len() - 1);
        lemma_group_nonempty(r2, r2.len() - 1);
        assert(with_symbol(r2, x1.symbol) == with_symbol(r1, x1.symbol));
        assert(with_symbol(r1, x2.symbol) == with_symbol(r2, x2.symbol));
        lemma_group_before_last(r2, x1.symbol);
        lemma_group_before_last(r1, x2.symbol);
        lemma_lex_total(x1.symbol, x2.symbol);
        let k = x1.symbol;
        assert(k == x2.symbol);
        let d1 = r1.drop_last();
        let d2 = r2.drop_last();
        assert(r1 == d1.push(x1));
        assert(r2 == d2.push(x2));
        d1.lemma_filter_push(x1, has_symbol(k));
        d2.lemma_filter_push(x2, has_symbol(k));
        assert(with_symbol(r1, k).last() == x1);
        assert(with_symbol(r2, k).last() == x2);
        assert(with_symbol(r1, k) == with_symbol(r2, k));
        assert forall|kk: Seq<char>| #[trigger] with_symbol(d1, kk) == with_symbol(d2, kk) by {
            d1.lemma_filter_push(x1, has_symbol(kk));
            d2.lemma_filter_push(x2, has_symbol(kk));
            assert(with_symbol(r1, kk) == with_symbol(r2, kk));
            if kk == k {
                assert(with_symbol(d1, kk) == with_symbol(r1, kk).drop_last());
                assert(with_symbol(d2, kk) == with_symbol(r2, kk).drop_last());
            }
        }
        assert(sorted_by_symbol(d1));
        assert(sorted_by_symbol(d2));
        lemma_sorted_groups_determine(d1, d2);
    }
}

/// A stable sort by symbol has one result: the contract of
/// `sort_by_symbol` determines the watchlist it returns.
pub proof fn law_stable_sort_is_unique(r1: Seq<WatchEntry>, r2: Seq<WatchEntry>, s: Seq<WatchEntry>)
    requires
        stable_sort_of(r1, s),
        stable_sort_of(r2, s),
    ensures
        r1 == r2,
{
    assert forall|k: Seq<char>| #[trigger] with_symbol(r1, k) == with_symbol(r2, k) by {
        assert(with_symbol(r1, k) == with_symbol(s, k));
        assert(with_symbol(r2, k) == with_symbol(s, k));
    }
    lemma_sorted_groups_determine(r1, r2);
}

} // verus!
