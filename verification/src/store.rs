//! The quote store: the watchlist, the latest quote of each watched symbol,
//! and the provider status, as the server shares them between requests.

use vstd::prelude::*;
use crate::clock::current_time;
use crate::config::{
    QuoteProviderKind, WatchEntry, WatchItem, display_name_of, display_symbol_of, entry_of,
    invalid_symbol_text, listing_of, normalize_display_symbol, opt_view, provider_name,
};
use crate::models::{HealthResponse, Quote, Timestamp, WatchlistItem, freshened};
use crate::order::{Precedence, compare_chars, lemma_lex_irreflexive, lemma_lex_transitive, lex_lt};
use crate::sorting::{has_symbol, sort_by_symbol, stable_sort_of, with_symbol};
use crate::text::{chars_of, same_text};

verus! {

/// Whether some entry of `watch` has the display symbol `symbol`.
pub open spec fn is_watched(watch: Seq<WatchEntry>, symbol: Seq<char>) -> bool {
    exists|j: int| 0 <= j < watch.len() && (#[trigger] watch[j]).symbol == symbol
}

/// The quotes are in strictly increasing symbol order (one per symbol).
pub open spec fn strictly_sorted<P>(q: Seq<Quote<P>>) -> bool {
    forall|i: int, j: int| 0 <= i < j < q.len() ==> lex_lt(#[trigger] q[i].symbol@, #[trigger] q[j].symbol@)
}

/// Whether some quote in `q` is for `symbol`.
pub open spec fn holds_symbol<P>(q: Seq<Quote<P>>, symbol: Seq<char>) -> bool {
    exists|i: int| 0 <= i < q.len() && (#[trigger] q[i]).symbol@ == symbol
}

/// A position of a quote for `symbol` in `q`, when there is one.
pub open spec fn position_of<P>(q: Seq<Quote<P>>, symbol: Seq<char>) -> int {
    choose|i: int| 0 <= i < q.len() && (#[trigger] q[i]).symbol@ == symbol
}

/// The quotes by symbol.
pub open spec fn quote_map<P>(q: Seq<Quote<P>>) -> Map<Seq<char>, Quote<P>> {
    Map::new(|k: Seq<char>| holds_symbol(q, k), |k: Seq<char>| q[position_of(q, k)])
}

/// In a strictly sorted sequence the quote at `i` is the one its symbol maps to.
pub proof fn lemma_quote_map_at<P>(q: Seq<Quote<P>>, i: int)
    requires
        strictly_sorted(q),
        0 <= i < q.len(),
    ensures
        quote_map(q).dom().contains(q[i].symbol@),
        quote_map(q)[q[i].symbol@] == q[i],
{
    let k = q[i].symbol@;
    assert(holds_symbol(q, k));
    let j = position_of(q, k);
    assert(quote_map(q)[k] == q[j]);
    if j != i {
        lemma_lex_irreflexive(k);
        if j < i {
            assert(lex_lt(q[j].symbol@, q[i].symbol@));
        } else {
            assert(lex_lt(q[i].symbol@, q[j].symbol@));
        }
    }
}


/// Replacing the quote of a symbol keeps the order and updates the map.
proof fn lemma_replace_quote<P>(q: Seq<Quote<P>>, i: int, x: Quote<P>)
    requires
        strictly_sorted(q),
        0 <= i < q.len(),
        q[i].symbol@ == x.symbol@,
    ensures
        strictly_sorted(q.update(i, x)),
        quote_map(q.update(i, x)) == quote_map(q).insert(x.symbol@, x),
{
    let n = q.update(i, x);
    assert forall|a: int, b: int| 0 <= a < b < n.len() implies lex_lt(
        #[trigger] n[a].symbol@,
        #[trigger] n[b].symbol@,
    ) by {
        assert(n[a].symbol@ == q[a].symbol@);
        assert(n[b].symbol@ == q[b].symbol@);
    }
    let expected = quote_map(q).insert(x.symbol@, x);
    assert forall|k: Seq<char>| #[trigger] quote_map(n).dom().contains(k) <==> expected.dom().contains(k) by {
        if holds_symbol(n, k) {
            let j = choose|j: int| 0 <= j < n.len() && (#[trigger] n[j]).symbol@ == k;
            if j != i {
                assert(q[j].symbol@ == k);
            }
        }
        if holds_symbol(q, k) {
            let j = choose|j: int| 0 <= j < q.len() && (#[trigger] q[j]).symbol@ == k;
            assert(n[j].symbol@ == k);
        }
        if k == x.symbol@ {
            assert(n[i].symbol@ == k);
        }
    }
    assert forall|k: Seq<char>| #[trigger] quote_map(n).dom().contains(k) implies quote_map(n)[k]
        == expected[k] by {
        let j = choose|j: int| 0 <= j < n.len() && (#[trigger] n[j]).symbol@ == k;
        lemma_quote_map_at(n, j);
        if k == x.symbol@ {
            lemma_quote_map_at(n, i);
        } else {
            assert(j != i);
            assert(n[j] == q[j]);
            lemma_quote_map_at(q, j);
        }
    }
    assert(quote_map(n) =~= expected);
}

/// Inserting a quote for a new symbol at its place keeps the order and
/// extends the map.
proof fn lemma_insert_quote<P>(q: Seq<Quote<P>>, i: int, x: Quote<P>)
    requires
        strictly_sorted(q),
        0 <= i <= q.len(),
        forall|j: int| 0 <= j < i ==> lex_lt(#[trigger] q[j].symbol@, x.symbol@),
        i < q.len() ==> lex_lt(x.symbol@, q[i].symbol@),
    ensures
        strictly_sorted(q.insert(i, x)),
        quote_map(q.insert(i, x)) == quote_map(q).insert(x.symbol@, x),
{
    let n = q.insert(i, x);
    assert forall|a: int, b: int| 0 <= a < b < n.len() implies lex_lt(
        #[trigger] n[a].symbol@,
        #[trigger] n[b].symbol@,
    ) by {
        if b < i {
        } else if b == i {
        } else if a < i {
            assert(n[b] == q[b - 1]);
            assert(lex_lt(q[a].symbol@, q[b - 1].symbol@));
        } else if a == i {
            assert(n[b] == q[b - 1]);
            if b - 1 > i {
                assert(lex_lt(q[i].symbol@, q[b - 1].symbol@));
                lemma_lex_transitive(x.symbol@, q[i].symbol@, q[b - 1].symbol@);
            }
        } else {
            assert(n[a] == q[a - 1]);
            assert(n[b] == q[b - 1]);
            assert(lex_lt(q[a - 1].symbol@, q[b - 1].symbol@));
        }
    }
    let expected = quote_map(q).insert(x.symbol@, x);
    assert forall|k: Seq<char>| #[trigger] quote_map(n).dom().contains(k) <==> expected.dom().contains(k) by {
        if holds_symbol(n, k) {
            let j = choose|j: int| 0 <= j < n.len() && (#[trigger] n[j]).symbol@ == k;
            if j < i {
                assert(q[j].symbol@ == k);
            } else if j > i {
                assert(q[j - 1].symbol@ == k);
            }
        }
        if holds_symbol(q, k) {
            let j = choose|j: int| 0 <= j < q.len() && (#[trigger] q[j]).symbol@ == k;
            if j < i {
                assert(n[j].symbol@ == k);
            } else {
                assert(n[j + 1].symbol@ == k);
            }
        }
        if k == x.symbol@ {
            assert(n[i].symbol@ == k);
        }
    }
    assert forall|k: Seq<char>| #[trigger] quote_map(n).dom().contains(k) implies quote_map(n)[k]
        == expected[k] by {
        let j = choose|j: int| 0 <= j < n.len() && (#[trigger] n[j]).symbol@ == k;
        lemma_quote_map_at(n, j);
        if k == x.symbol@ {
            lemma_quote_map_at(n, i);
        } else if j < i {
            assert(n[j] == q[j]);
            lemma_quote_map_at(q, j);
        } else {
            assert(j != i);
            assert(n[j] == q[j - 1]);
            lemma_quote_map_at(q, j - 1);
        }
    }
    assert(quote_map(n) =~= expected);
}


/// The index of the first entry of `s` with display symbol `k`, or
/// `s.len()` when there is none.
pub open spec fn first_with_symbol(s: Seq<WatchEntry>, k: Seq<char>) -> int
    decreases s.len(),
{
    if s.len() == 0 || s[0].symbol == k {
        0
    } else {
        1 + first_with_symbol(s.drop_first(), k)
    }
}

proof fn lemma_first_with_symbol(s: Seq<WatchEntry>, k: Seq<char>, i: int)
    requires
        0 <= i <= s.len(),
        forall|j: int| 0 <= j < i ==> (#[trigger] s[j]).symbol != k,
        i < s.len() ==> s[i].symbol == k,
    ensures
        first_with_symbol(s, k) == i,
    decreases i,
{
    if i > 0 {
        assert(s[0].symbol != k);
        let t = s.drop_first();
        assert forall|j: int| 0 <= j < i - 1 implies (#[trigger] t[j]).symbol != k by {
            assert(t[j] == s[j + 1]);
        }
        if i - 1 < t.len() {
            assert(t[i - 1] == s[i]);
        }
        lemma_first_with_symbol(t, k, i - 1);
    }
}

/// The entry an administrator's upsert asks for, when the symbol is valid.
pub open spec fn requested_entry(symbol: Seq<char>, name: Option<Seq<char>>) -> Option<WatchEntry> {
    match display_symbol_of(symbol) {
        Some(t) => Some(entry_of(t, display_name_of(t, name), crate::models::market_of(t))),
        None => None,
    }
}

/// Whether upserting `item` changes `watch`: it does unless the first
/// entry with its symbol already equals it.
pub open spec fn upsert_changes(watch: Seq<WatchEntry>, item: WatchEntry) -> bool {
    let i = first_with_symbol(watch, item.symbol);
    !(i < watch.len() && watch[i] == item)
}

/// `watch` with `item` in place of the first entry with its symbol, or
/// with `item` appended when there is none.
pub open spec fn replaced_or_added(watch: Seq<WatchEntry>, item: WatchEntry) -> Seq<WatchEntry> {
    let i = first_with_symbol(watch, item.symbol);
    if i < watch.len() {
        watch.update(i, item)
    } else {
        watch.push(item)
    }
}

/// Whether an entry has a display symbol other than `k`.
pub open spec fn other_symbol(k: Seq<char>) -> spec_fn(WatchEntry) -> bool {
    |e: WatchEntry| e.symbol != k
}

/// Whether a quote's symbol is on `watch`.
pub open spec fn watched_by<P>(watch: Seq<WatchEntry>) -> spec_fn(Quote<P>) -> bool {
    |q: Quote<P>| is_watched(watch, q.symbol@)
}

/// Whether some item of `items` has the display symbol `symbol`.
pub fn watches(items: &Vec<WatchItem>, symbol: &str) -> (b: bool)
    ensures
        b == is_watched(items.deep_view(), symbol@),
{
    let mut j: usize = 0;
    while j < items.len()
        invariant
            j <= items.len(),
            forall|k: int| 0 <= k < j ==> (#[trigger] items.deep_view()[k]).symbol != symbol@,
        decreases items.len() - j,
    {
        if same_text(items[j].symbol.as_str(), symbol) {
            assert(items.deep_view()[j as int].symbol == symbol@);
            return true;
        }
        j = j + 1;
    }
    false
}


/// The effect of `upsert_quote`: a quote for a watched symbol becomes that
/// symbol's latest quote and the latest quote time; any other quote leaves
/// the store as it was.
pub open spec fn quote_upserted<P>(old: QuoteStore<P>, new: QuoteStore<P>, quote: Quote<P>) -> bool {
    &&& if is_watched(old.watch_seq(), quote.symbol@) {
        &&& quote_map(new.quote_seq()) == quote_map(old.quote_seq()).insert(quote.symbol@, quote)
        &&& new.last_quote_at() == Some(quote.quote_ts)
    } else {
        &&& new.quote_seq() == old.quote_seq()
        &&& new.last_quote_at() == old.last_quote_at()
    }
    &&& new.watch_seq() == old.watch_seq()
    &&& new.revision() == old.revision()
    &&& new.status_text() == old.status_text()
}

/// The effect of `commit_watchlist`: `items` becomes the watchlist, the
/// quotes of symbols no longer watched are dropped, and the revision goes
/// up by one.
pub open spec fn watchlist_committed<P>(old: QuoteStore<P>, new: QuoteStore<P>, items: Seq<WatchEntry>) -> bool {
    &&& new.watch_seq() == items
    &&& new.quote_seq() == old.quote_seq().filter(watched_by(items))
    &&& new.revision() == old.revision() + 1
    &&& new.status_text() == old.status_text()
    &&& new.last_quote_at() == old.last_quote_at()
}

/// The quotes of `store` as seen at `now` (what `snapshot_at` returns).
pub open spec fn snapshot_view<P>(store: QuoteStore<P>, now: Timestamp, stale_after_ns: u128) -> Seq<Quote<P>> {
    store.quote_seq().map_values(|q: Quote<P>| freshened(q, now, stale_after_ns))
}

/// The health status text for a provider status: `ok` while it is
/// `running`, `degraded` otherwise.
pub open spec fn health_status_of(provider_status: Seq<char>) -> Seq<char> {
    if provider_status == "running"@ {
        "ok"@
    } else {
        "degraded"@
    }
}

/// The latest quotes, the watchlist and the provider status.
#[derive(Debug)]
pub struct QuoteStore<P> {
    /// One quote per symbol, in increasing symbol order: the store is a map
    /// keyed by symbol whose entries are read in key order.
    quotes: Vec<Quote<P>>,
    watchlist: Vec<WatchItem>,
    watchlist_revision: u64,
    provider_status: String,
    last_quote_ts: Option<Timestamp>,
}

impl<P> QuoteStore<P> {
    /// The stored quotes, in symbol order.
    pub closed spec fn quote_seq(&self) -> Seq<Quote<P>> {
        self.quotes@
    }

    /// The watchlist, in its order.
    pub closed spec fn watch_seq(&self) -> Seq<WatchEntry> {
        self.watchlist.deep_view()
    }

    /// How many times the watchlist has changed.
    pub closed spec fn revision(&self) -> u64 {
        self.watchlist_revision
    }

    /// The provider status text.
    pub closed spec fn status_text(&self) -> Seq<char> {
        self.provider_status@
    }

    /// When the latest accepted quote was quoted.
    pub closed spec fn last_quote_at(&self) -> Option<Timestamp> {
        self.last_quote_ts
    }

    /// The store's invariant: one quote per symbol in symbol order, and
    /// quotes only for watched symbols.
    pub open spec fn wf(&self) -> bool {
        &&& strictly_sorted(self.quote_seq())
        &&& forall|i: int|
            0 <= i < self.quote_seq().len() ==> is_watched(
                self.watch_seq(),
                (#[trigger] self.quote_seq()[i]).symbol@,
            )
    }

    /// An empty store for `watchlist`, with provider status `starting`.
    pub fn new(watchlist: Vec<WatchItem>) -> (s: Self)
        ensures
            s.wf(),
            s.quote_seq() == Seq::<Quote<P>>::empty(),
            s.watch_seq() == watchlist.deep_view(),
            s.revision() == 0,
            s.status_text() == "starting"@,
            s.last_quote_at() is None,
    {
        QuoteStore {
            quotes: Vec::new(),
            watchlist,
            watchlist_revision: 0,
            provider_status: "starting".to_owned(),
            last_quote_ts: None,
        }
    }

    /// Records the provider status.
    pub fn set_provider_status(&mut self, status: String)
        requires
            old(self).wf(),
        ensures
            final(self).wf(),
            final(self).status_text() == status@,
            final(self).quote_seq() == old(self).quote_seq(),
            final(self).watch_seq() == old(self).watch_seq(),
            final(self).revision() == old(self).revision(),
            final(self).last_quote_at() == old(self).last_quote_at(),
    {
        self.provider_status = status;
    }

    /// How many times the watchlist has changed.
    pub fn watchlist_revision(&self) -> (r: u64)
        ensures
            r == self.revision(),
    {
        self.watchlist_revision
    }

    /// Whether `symbol` is on the watchlist.
    pub fn is_watching(&self, symbol: &str) -> (b: bool)
        ensures
            b == is_watched(self.watch_seq(), symbol@),
    {
        let mut j: usize = 0;
        while j < self.watchlist.len()
            invariant
                j <= self.watchlist.len(),
                self.watch_seq() == self.watchlist.deep_view(),
                forall|k: int| 0 <= k < j ==> (#[trigger] self.watch_seq()[k]).symbol != symbol@,
            decreases self.watchlist.len() - j,
        {
            if same_text(self.watchlist[j].symbol.as_str(), symbol) {
                assert(self.watch_seq()[j as int].symbol == symbol@);
                return true;
            }
            j = j + 1;
        }
        false
    }

    /// Keeps `quote` as the latest quote of its symbol when the symbol is
    /// watched, and tells whether it did; quotes for other symbols are
    /// ignored.
    pub fn upsert_quote(&mut self, quote: Quote<P>) -> (accepted: bool)
        requires
            old(self).wf(),
        ensures
            final(self).wf(),
            accepted == is_watched(old(self).watch_seq(), quote.symbol@),
            quote_upserted(*old(self), *final(self), quote),
    {
        if !self.is_watching(quote.symbol.as_str()) {
            return false;
        }
        let ghost old_q = self.quotes@;
        let ghost k = quote.symbol@;
        let key = chars_of(quote.symbol.as_str());
        let mut i: usize = 0;
        let mut same = false;
        while i < self.quotes.len()
            invariant_except_break
                !same,
                i <= self.quotes.len(),
                self.quotes@ == old_q,
                key@ == k,
                forall|j: int| 0 <= j < i ==> lex_lt(#[trigger] old_q[j].symbol@, k),
            ensures
                i <= old_q.len(),
                self.quotes@ == old_q,
                forall|j: int| 0 <= j < i ==> lex_lt(#[trigger] old_q[j].symbol@, k),
                same ==> i < old_q.len() && old_q[i as int].symbol@ == k,
                !same && i < old_q.len() ==> lex_lt(k, old_q[i as int].symbol@),
            decreases self.quotes.len() - i,
        {
            let here = chars_of(self.quotes[i].symbol.as_str());
            match compare_chars(&here, &key) {
                Precedence::Before => {
                    i = i + 1;
                },
                Precedence::Same => {
                    same = true;
                    break;
                },
                Precedence::After => {
                    break;
                },
            }
        }
        proof {
            if same {
                lemma_replace_quote(old_q, i as int, quote);
            } else {
                lemma_insert_quote(old_q, i as int, quote);
            }
        }
        self.last_quote_ts = Some(quote.quote_ts);
        if same {
            self.quotes.set(i, quote);
        } else {
            self.quotes.insert(i, quote);
        }
        assert forall|j: int| 0 <= j < self.quotes@.len() implies is_watched(
            self.watch_seq(),
            (#[trigger] self.quotes@[j]).symbol@,
        ) by {
            if self.quotes@[j].symbol@ != k {
                if same {
                    assert(self.quotes@[j] == old_q[j]);
                } else if j < i {
                    assert(self.quotes@[j] == old_q[j]);
                } else {
                    assert(self.quotes@[j] == old_q[j - 1]);
                }
            }
        }
        true
    }
}

impl<P: Copy> QuoteStore<P> {
    /// A copy of the watchlist.
    pub fn watchlist(&self) -> (r: Vec<WatchItem>)
        ensures
            r.deep_view() == self.watch_seq(),
    {
        let mut r: Vec<WatchItem> = Vec::new();
        let mut j: usize = 0;
        while j < self.watchlist.len()
            invariant
                j <= self.watchlist.len(),
                self.watch_seq() == self.watchlist.deep_view(),
                r.deep_view() == self.watch_seq().take(j as int),
            decreases self.watchlist.len() - j,
        {
            r.push(self.watchlist[j].clone());
            assert(self.watch_seq().take(j + 1) == self.watch_seq().take(j as int).push(self.watch_seq()[j as int]));
            j = j + 1;
        }
        assert(self.watch_seq().take(j as int) == self.watch_seq());
        r
    }

    /// The watchlist as devices see it.
    pub fn watchlist_items(&self) -> (r: Vec<WatchlistItem>)
        ensures
            r.deep_view() == self.watch_seq().map_values(|e: WatchEntry| listing_of(e)),
    {
        listings(&self.watchlist)
    }

    /// What an administrator's upsert of `symbol` (with an optional `name`)
    /// would make of the watchlist, without changing the store: whether it
    /// changes, and the resulting watchlist, stably sorted by symbol when it
    /// changes.  An invalid symbol is refused with its message.
    pub fn plan_upsert(&self, symbol: &str, name: Option<&str>) -> (r: Result<(bool, Vec<WatchItem>), String>)
        ensures
            match r {
                Err(m) => requested_entry(symbol@, opt_view(name)) is None && m@ == invalid_symbol_text(symbol@),
                Ok((changed, items)) => requested_entry(symbol@, opt_view(name)) matches Some(item) && {
                    &&& changed == upsert_changes(self.watch_seq(), item)
                    &&& changed ==> stable_sort_of(items.deep_view(), replaced_or_added(self.watch_seq(), item))
                    &&& !changed ==> items.deep_view() == self.watch_seq()
                },
            },
    {
        let item = match WatchItem::from_input(symbol, name) {
            Ok(item) => item,
            Err(m) => return Err(m),
        };
        let ghost x = item@;
        let mut items = self.watchlist();
        let ghost watch = items.deep_view();
        let mut i: usize = 0;
        while i < items.len() && !same_text(items[i].symbol.as_str(), item.symbol.as_str())
            invariant
                i <= items.len(),
                items.deep_view() == watch,
                x == item@,
                forall|j: int| 0 <= j < i ==> (#[trigger] watch[j]).symbol != x.symbol,
            decreases items.len() - i,
        {
            assert(watch[i as int] == items@[i as int]@);
            i = i + 1;
        }
        proof {
            lemma_first_with_symbol(watch, x.symbol, i as int);
        }
        if i < items.len() {
            if same_item(&items[i], &item) {
                return Ok((false, items));
            }
            items.set(i, item);
            assert(items.deep_view() == watch.update(i as int, x));
        } else {
            items.push(item);
            assert(items.deep_view() == watch.push(x));
        }
        let sorted = sort_by_symbol(&items);
        Ok((true, sorted))
    }

    /// What an administrator's deletion of `symbol` would make of the
    /// watchlist, without changing the store: whether the symbol (in display
    /// form) is watched, and the watchlist without its entries.  An invalid
    /// symbol is refused with its message.
    pub fn plan_delete(&self, symbol: &str) -> (r: Result<(bool, Vec<WatchItem>), String>)
        ensures
            match r {
                Err(m) => display_symbol_of(symbol@) is None && m@ == invalid_symbol_text(symbol@),
                Ok((deleted, items)) => display_symbol_of(symbol@) matches Some(t) && {
                    &&& deleted == is_watched(self.watch_seq(), t)
                    &&& items.deep_view() == self.watch_seq().filter(other_symbol(t))
                },
            },
    {
        let target = match normalize_display_symbol(symbol) {
            Ok(t) => t,
            Err(m) => return Err(m),
        };
        let ghost t = target@;
        let ghost watch = self.watch_seq();
        let mut items: Vec<WatchItem> = Vec::new();
        let mut deleted = false;
        let mut j: usize = 0;
        assert(watch.take(0) == Seq::<WatchEntry>::empty());
        proof {
            reveal(Seq::filter);
        }
        assert(items.deep_view() == watch.take(0).filter(other_symbol(t)));
        while j < self.watchlist.len()
            invariant
                j <= self.watchlist.len(),
                watch == self.watchlist.deep_view(),
                t == target@,
                items.deep_view() == watch.take(j as int).filter(other_symbol(t)),
                deleted == exists|k: int| 0 <= k < j && (#[trigger] watch[k]).symbol == t,
            decreases self.watchlist.len() - j,
        {
            let ghost e = watch[j as int];
            assert(e == self.watchlist@[j as int]@);
            let ghost before = items.deep_view();
            assert(watch.take(j + 1) == watch.take(j as int).push(e));
            proof {
                watch.take(j as int).lemma_filter_push(e, other_symbol(t));
            }
            let hit = same_text(self.watchlist[j].symbol.as_str(), target.as_str());
            assert(other_symbol(t)(e) == !hit);
            if hit {
                deleted = true;
            } else {
                items.push(self.watchlist[j].clone());
                assert(items.deep_view() == before.push(e));
            }
            j = j + 1;
        }
        assert(watch.take(j as int) == watch);
        Ok((deleted, items))
    }

    /// Makes `items` the watchlist, drops the quotes of symbols it no longer
    /// has, and counts the change; returns the new revision.
    pub fn commit_watchlist(&mut self, items: Vec<WatchItem>) -> (revision: u64)
        requires
            old(self).wf(),
            old(self).revision() < u64::MAX,
        ensures
            final(self).wf(),
            watchlist_committed(*old(self), *final(self), items.deep_view()),
            revision == final(self).revision(),
    {
        let ghost old_q = self.quotes@;
        let ghost w = items.deep_view();
        let pred = Ghost(watched_by::<P>(w));
        let mut kept: Vec<Quote<P>> = Vec::new();
        let mut i: usize = 0;
        assert(old_q.take(0) == Seq::<Quote<P>>::empty());
        proof {
            reveal(Seq::filter);
        }
        assert(kept@ == old_q.take(0).filter(pred@));
        while i < self.quotes.len()
            invariant
                i <= self.quotes.len(),
                self.quotes@ == old_q,
                strictly_sorted(old_q),
                pred@ == watched_by::<P>(w),
                w == items.deep_view(),
                kept@ == old_q.take(i as int).filter(pred@),
                strictly_sorted(kept@),
                forall|a: int, b: int|
                    0 <= a < kept@.len() && i <= b < old_q.len() ==> lex_lt(
                        #[trigger] kept@[a].symbol@,
                        #[trigger] old_q[b].symbol@,
                    ),
                forall|a: int| 0 <= a < kept@.len() ==> is_watched(w, (#[trigger] kept@[a]).symbol@),
            decreases self.quotes.len() - i,
        {
            let ghost q = old_q[i as int];
            assert(old_q.take(i + 1) == old_q.take(i as int).push(q));
            proof {
                old_q.take(i as int).lemma_filter_push(q, pred@);
            }
            if watches(&items, self.quotes[i].symbol.as_str()) {
                let ghost before = kept@;
                kept.push(self.quotes[i].clone());
                assert forall|a: int, b: int|
                    0 <= a < kept@.len() && i + 1 <= b < old_q.len() implies lex_lt(
                    #[trigger] kept@[a].symbol@,
                    #[trigger] old_q[b].symbol@,
                ) by {
                    if a < before.len() {
                        assert(lex_lt(before[a].symbol@, old_q[b].symbol@));
                    } else {
                        assert(lex_lt(old_q[i as int].symbol@, old_q[b].symbol@));
                    }
                }
                assert forall|a: int, b: int| 0 <= a < b < kept@.len() implies lex_lt(
                    #[trigger] kept@[a].symbol@,
                    #[trigger] kept@[b].symbol@,
                ) by {
                    if b == before.len() {
                        assert(lex_lt(before[a].symbol@, old_q[i as int].symbol@));
                    } else {
                        assert(lex_lt(before[a].symbol@, before[b].symbol@));
                    }
                }
            }
            i = i + 1;
        }
        assert(old_q.take(i as int) == old_q);
        self.quotes = kept;
        self.watchlist = items;
        self.watchlist_revision = self.watchlist_revision + 1;
        self.watchlist_revision
    }

    /// The quotes as seen at `now`, in symbol order, each marked stale once
    /// older than `stale_after_ns` nanoseconds.
    pub fn snapshot_at(&self, now: Timestamp, stale_after_ns: u128) -> (r: Vec<Quote<P>>)
        ensures
            r@ == snapshot_view(*self, now, stale_after_ns),
    {
        let mut r: Vec<Quote<P>> = Vec::new();
        let mut i: usize = 0;
        while i < self.quotes.len()
            invariant
                i <= self.quotes.len(),
                r@ == self.quotes@.take(i as int).map_values(
                    |q: Quote<P>| crate::models::freshened(q, now, stale_after_ns),
                ),
            decreases self.quotes.len() - i,
        {
            let q = self.quotes[i].clone();
            r.push(q.with_freshness(now, stale_after_ns));
            assert(self.quotes@.take(i + 1) == self.quotes@.take(i as int).push(self.quotes@[i as int]));
            i = i + 1;
        }
        assert(self.quotes@.take(i as int) == self.quotes@);
        r
    }
    /// The first watch item with display symbol `symbol`, if any.
    pub fn watch_item(&self, symbol: &str) -> (r: Option<WatchItem>)
        ensures
            match r {
                Some(w) => {
                    let i = first_with_symbol(self.watch_seq(), symbol@);
                    &&& i < self.watch_seq().len()
                    &&& w@ == self.watch_seq()[i]
                },
                None => !is_watched(self.watch_seq(), symbol@),
            },
    {
        let mut j: usize = 0;
        while j < self.watchlist.len()
            invariant
                j <= self.watchlist.len(),
                self.watch_seq() == self.watchlist.deep_view(),
                forall|k: int| 0 <= k < j ==> (#[trigger] self.watch_seq()[k]).symbol != symbol@,
            decreases self.watchlist.len() - j,
        {
            assert(self.watch_seq()[j as int] == self.watchlist@[j as int]@);
            if same_text(self.watchlist[j].symbol.as_str(), symbol) {
                proof {
                    lemma_first_with_symbol(self.watch_seq(), symbol@, j as int);
                }
                return Some(self.watchlist[j].clone());
            }
            j = j + 1;
        }
        None
    }

    /// The latest quote of `symbol`, when there is one.
    pub fn quote_of(&self, symbol: &str) -> (r: Option<Quote<P>>)
        requires
            self.wf(),
        ensures
            match r {
                Some(q) => quote_map(self.quote_seq()).dom().contains(symbol@) && q == quote_map(
                    self.quote_seq(),
                )[symbol@],
                None => !quote_map(self.quote_seq()).dom().contains(symbol@),
            },
    {
        let mut i: usize = 0;
        while i < self.quotes.len()
            invariant
                i <= self.quotes.len(),
                strictly_sorted(self.quotes@),
                forall|j: int| 0 <= j < i ==> (#[trigger] self.quotes@[j]).symbol@ != symbol@,
            decreases self.quotes.len() - i,
        {
            if same_text(self.quotes[i].symbol.as_str(), symbol) {
                proof {
                    lemma_quote_map_at(self.quotes@, i as int);
                }
                return Some(self.quotes[i].clone());
            }
            i = i + 1;
        }
        None
    }

    /// The quotes as seen now (see `snapshot_at`); nothing is stated of the
    /// time at which they are seen.
    pub fn snapshot(&self, stale_after_ns: u128) -> (r: Vec<Quote<P>>)
        ensures
            exists|now: Timestamp| r@ == snapshot_view(*self, now, stale_after_ns),
    {
        let now = current_time();
        self.snapshot_at(now, stale_after_ns)
    }

    /// The health report at `now` for a relay running a `provider` source.
    pub fn health_at(&self, provider: QuoteProviderKind, now: Timestamp) -> (h: HealthResponse)
        ensures
            h.status@ == health_status_of(self.status_text()),
            h.provider@ == provider_name(provider),
            h.provider_status@ == self.status_text(),
            h.quote_count == self.quote_seq().len(),
            h.last_quote_ts == self.last_quote_at(),
            h.server_ts == now,
    {
        let running = same_text(self.provider_status.as_str(), "running");
        let status = if running {
            "ok".to_owned()
        } else {
            "degraded".to_owned()
        };
        HealthResponse {
            status,
            provider: provider.as_str().to_owned(),
            provider_status: self.provider_status.clone(),
            quote_count: self.quotes.len(),
            last_quote_ts: self.last_quote_ts,
            server_ts: now,
        }
    }

    /// The health report now (see `health_at`).
    pub fn health(&self, provider: QuoteProviderKind) -> (h: HealthResponse)
        ensures
            h.status@ == health_status_of(self.status_text()),
            h.provider@ == provider_name(provider),
            h.provider_status@ == self.status_text(),
            h.quote_count == self.quote_seq().len(),
            h.last_quote_ts == self.last_quote_at(),
    {
        let now = current_time();
        self.health_at(provider, now)
    }

}

/// Whether two watch items are equal in every field.
pub fn same_item(a: &WatchItem, b: &WatchItem) -> (r: bool)
    ensures
        r == (a@ == b@),
{
    same_text(a.symbol.as_str(), b.symbol.as_str()) && same_text(
        a.provider_symbol.as_str(),
        b.provider_symbol.as_str(),
    ) && same_text(a.name.as_str(), b.name.as_str()) && a.market == b.market
}

/// The listings of `items`.
pub fn listings(items: &Vec<WatchItem>) -> (r: Vec<WatchlistItem>)
    ensures
        r.deep_view() == items.deep_view().map_values(|e: WatchEntry| listing_of(e)),
{
    let mut r: Vec<WatchlistItem> = Vec::new();
    let mut j: usize = 0;
    while j < items.len()
        invariant
            j <= items.len(),
            r.deep_view() == items.deep_view().take(j as int).map_values(|e: WatchEntry| listing_of(e)),
        decreases items.len() - j,
    {
        let ghost before = r.deep_view();
        r.push(WatchlistItem::from_item(&items[j]));
        assert(items.deep_view()[j as int] == items@[j as int]@);
        assert(r.deep_view() == before.push(listing_of(items.deep_view()[j as int])));
        assert(items.deep_view().take(j + 1) == items.deep_view().take(j as int).push(items.deep_view()[j as int]));
        j = j + 1;
    }
    assert(items.deep_view().take(j as int) == items.deep_view());
    r
}

/// The sequence keeps everything a filter that holds of all its elements.
proof fn lemma_filter_keeps_all<A>(s: Seq<A>, p: spec_fn(A) -> bool)
    requires
        forall|i: int| 0 <= i < s.len() ==> p(#[trigger] s[i]),
    ensures
        s.filter(p) == s,
    decreases s.len(),
{
    reveal(Seq::filter);
    if s.len() > 0 {
        let t = s.drop_last();
        assert forall|i: int| 0 <= i < t.len() implies p(#[trigger] t[i]) by {
            assert(t[i] == s[i]);
        }
        lemma_filter_keeps_all(t, p);
        assert(p(s.last()));
        assert(t.push(s.last()) == s);
    }
}

/// Filters that agree on the elements of a sequence keep the same elements.
proof fn lemma_filters_agree<A>(s: Seq<A>, p1: spec_fn(A) -> bool, p2: spec_fn(A) -> bool)
    requires
        forall|i: int| 0 <= i < s.len() ==> p1(#[trigger] s[i]) == p2(s[i]),
    ensures
        s.filter(p1) == s.filter(p2),
    decreases s.len(),
{
    reveal(Seq::filter);
    if s.len() > 0 {
        let t = s.drop_last();
        assert forall|i: int| 0 <= i < t.len() implies p1(#[trigger] t[i]) == p2(t[i]) by {
            assert(t[i] == s[i]);
        }
        lemma_filters_agree(t, p1, p2);
        assert(p1(s.last()) == p2(s[s.len() - 1]));
    }
}

/// The first entry with a watched symbol is the first of that symbol's
/// entries.
proof fn lemma_first_heads_group(s: Seq<WatchEntry>, k: Seq<char>)
    requires
        is_watched(s, k),
    ensures
        0 <= first_with_symbol(s, k) < s.len(),
        with_symbol(s, k).len() > 0,
        s[first_with_symbol(s, k)] == with_symbol(s, k)[0],
    decreases s.len(),
{
    let rest = s.drop_first();
    assert(s == seq![s[0]] + rest);
    rest.lemma_filter_prepend(s[0], has_symbol(k));
    if s[0].symbol != k {
        let j = choose|j: int| 0 <= j < s.len() && (#[trigger] s[j]).symbol == k;
        assert(rest[j - 1] == s[j]);
        lemma_first_heads_group(rest, k);
        assert(s[first_with_symbol(s, k)] == rest[first_with_symbol(rest, k)]);
    }
}

/// A symbol with entries in a group-preserving reordering is watched there.
proof fn lemma_group_witness(s: Seq<WatchEntry>, k: Seq<char>)
    requires
        with_symbol(s, k).len() > 0,
    ensures
        is_watched(s, k),
{
    broadcast use vstd::seq_lib::group_filter_ensures;

    let e = with_symbol(s, k)[0];
    assert(with_symbol(s, k).contains(e));
    s.lemma_filter_contains_rev(has_symbol(k), e);
    let j = choose|j: int| 0 <= j < s.len() && s[j] == e;
    assert(has_symbol(k)(with_symbol(s, k)[0]));
    assert(s[j].symbol == k);
}

/// The upserted entry is the first entry with its symbol afterwards, and
/// every symbol watched before is still watched.
proof fn lemma_replaced_or_added(watch: Seq<WatchEntry>, item: WatchEntry)
    ensures
        first_with_symbol(replaced_or_added(watch, item), item.symbol) < replaced_or_added(
            watch,
            item,
        ).len(),
        replaced_or_added(watch, item)[first_with_symbol(replaced_or_added(watch, item), item.symbol)]
            == item,
        forall|k: Seq<char>| is_watched(watch, k) ==> #[trigger] is_watched(replaced_or_added(watch, item), k),
{
    let k = item.symbol;
    let i = first_with_symbol(watch, k);
    let r = replaced_or_added(watch, item);
    lemma_first_in_range(watch, k);
    if i < watch.len() {
        assert(r == watch.update(i, item));
        assert forall|j: int| 0 <= j < i implies (#[trigger] r[j]).symbol != k by {
            lemma_first_before(watch, k, j);
        }
        lemma_first_with_symbol(r, k, i);
        assert forall|kk: Seq<char>| is_watched(watch, kk) implies #[trigger] is_watched(r, kk) by {
            let j = choose|j: int| 0 <= j < watch.len() && (#[trigger] watch[j]).symbol == kk;
            lemma_first_in_range(watch, k);
            assert(r[j].symbol == kk);
        }
    } else {
        lemma_first_in_range(watch, k);
        assert(r == watch.push(item));
        assert forall|j: int| 0 <= j < watch.len() implies (#[trigger] r[j]).symbol != k by {
            lemma_first_before(watch, k, j);
            assert(r[j] == watch[j]);
        }
        lemma_first_with_symbol(r, k, watch.len() as int);
        assert forall|kk: Seq<char>| is_watched(watch, kk) implies #[trigger] is_watched(r, kk) by {
            let j = choose|j: int| 0 <= j < watch.len() && (#[trigger] watch[j]).symbol == kk;
            assert(r[j] == watch[j]);
        }
    }
}

/// `first_with_symbol` is an index or the length, and names the first
/// entry with the symbol when it is an index.
proof fn lemma_first_in_range(s: Seq<WatchEntry>, k: Seq<char>)
    ensures
        0 <= first_with_symbol(s, k) <= s.len(),
        first_with_symbol(s, k) < s.len() ==> s[first_with_symbol(s, k)].symbol == k,
    decreases s.len(),
{
    if s.len() > 0 && s[0].symbol != k {
        lemma_first_in_range(s.drop_first(), k);
    }
}

/// No entry before `first_with_symbol` has the symbol.
proof fn lemma_first_before(s: Seq<WatchEntry>, k: Seq<char>, j: int)
    requires
        0 <= j < first_with_symbol(s, k),
    ensures
        j < s.len(),
        s[j].symbol != k,
    decreases s.len(),
{
    if s.len() > 0 && s[0].symbol != k && j > 0 {
        lemma_first_before(s.drop_first(), k, j - 1);
    }
}

/// Once a stored quote is accepted, the next snapshot shows it, freshened,
/// as the one quote of its symbol.
pub proof fn law_snapshot_shows_latest_quote<P>(
    old: QuoteStore<P>,
    new: QuoteStore<P>,
    quote: Quote<P>,
    now: Timestamp,
    stale_after_ns: u128,
)
    requires
        old.wf(),
        new.wf(),
        is_watched(old.watch_seq(), quote.symbol@),
        quote_upserted(old, new, quote),
    ensures
        exists|i: int|
            0 <= i < new.quote_seq().len() && new.quote_seq()[i] == quote && snapshot_view(
                new,
                now,
                stale_after_ns,
            )[i] == freshened(quote, now, stale_after_ns) && forall|j: int|
                0 <= j < new.quote_seq().len() && (#[trigger] new.quote_seq()[j]).symbol@
                    == quote.symbol@ ==> j == i,
{
    let q = new.quote_seq();
    let k = quote.symbol@;
    assert(quote_map(q).dom().contains(k));
    let i = position_of(q, k);
    lemma_quote_map_at(q, i);
    assert forall|j: int| 0 <= j < q.len() && (#[trigger] q[j]).symbol@ == k implies j == i by {
        if j != i {
            lemma_lex_irreflexive(k);
        }
    }
}

/// After a symbol is deleted, quotes for it are ignored and none is kept.
pub proof fn law_quotes_for_deleted_symbols_are_ignored<P>(
    s0: QuoteStore<P>,
    s1: QuoteStore<P>,
    s2: QuoteStore<P>,
    symbol: Seq<char>,
    quote: Quote<P>,
)
    requires
        s0.wf(),
        watchlist_committed(s0, s1, s0.watch_seq().filter(other_symbol(symbol))),
        quote.symbol@ == symbol,
        quote_upserted(s1, s2, quote),
    ensures
        !is_watched(s1.watch_seq(), symbol),
        s2.quote_seq() == s1.quote_seq(),
        !holds_symbol(s2.quote_seq(), symbol),
{
    broadcast use vstd::seq_lib::group_filter_ensures;

    let items = s0.watch_seq().filter(other_symbol(symbol));
    if is_watched(items, symbol) {
        let j = choose|j: int| 0 <= j < items.len() && (#[trigger] items[j]).symbol == symbol;
        assert(other_symbol(symbol)(items[j]));
    }
    let q1 = s1.quote_seq();
    if holds_symbol(q1, symbol) {
        let j = choose|j: int| 0 <= j < q1.len() && (#[trigger] q1[j]).symbol@ == symbol;
        assert(watched_by::<P>(items)(q1[j]));
    }
}

/// Deleting a symbol drops exactly its quotes.
pub proof fn law_delete_drops_only_its_quotes<P>(s0: QuoteStore<P>, s1: QuoteStore<P>, symbol: Seq<char>)
    requires
        s0.wf(),
        watchlist_committed(s0, s1, s0.watch_seq().filter(other_symbol(symbol))),
    ensures
        s1.quote_seq() == s0.quote_seq().filter(|q: Quote<P>| q.symbol@ != symbol),
{
    broadcast use vstd::seq_lib::group_filter_ensures;

    let w = s0.watch_seq();
    let items = w.filter(other_symbol(symbol));
    let q0 = s0.quote_seq();
    assert forall|i: int| 0 <= i < q0.len() implies watched_by::<P>(items)(#[trigger] q0[i]) == ((
    |q: Quote<P>| q.symbol@ != symbol))(q0[i]) by {
        let k = q0[i].symbol@;
        assert(is_watched(w, k));
        if k != symbol {
            let j = choose|j: int| 0 <= j < w.len() && (#[trigger] w[j]).symbol == k;
            assert(other_symbol(symbol)(w[j]));
            assert(items.contains(w[j]));
            let m = choose|m: int| 0 <= m < items.len() && items[m] == w[j];
            assert(items[m].symbol == k);
        } else if is_watched(items, k) {
            let m = choose|m: int| 0 <= m < items.len() && (#[trigger] items[m]).symbol == k;
            assert(other_symbol(symbol)(items[m]));
        }
    }
    lemma_filters_agree(q0, watched_by::<P>(items), |q: Quote<P>| q.symbol@ != symbol);
}

/// Deleting a symbol twice deletes nothing the second time.
pub proof fn law_delete_is_idempotent<P>(s0: QuoteStore<P>, s1: QuoteStore<P>, symbol: Seq<char>)
    requires
        s0.wf(),
        watchlist_committed(s0, s1, s0.watch_seq().filter(other_symbol(symbol))),
    ensures
        !is_watched(s1.watch_seq(), symbol),
        s1.watch_seq().filter(other_symbol(symbol)) == s1.watch_seq(),
{
    broadcast use vstd::seq_lib::group_filter_ensures;

    let items = s1.watch_seq();
    assert forall|i: int| 0 <= i < items.len() implies other_symbol(symbol)(#[trigger] items[i]) by {
    }
    lemma_filter_keeps_all(items, other_symbol(symbol));
}

/// Adding or renaming a symbol keeps every stored quote.
pub proof fn law_upsert_keeps_quotes<P>(
    s0: QuoteStore<P>,
    s1: QuoteStore<P>,
    item: WatchEntry,
    items: Seq<WatchEntry>,
)
    requires
        s0.wf(),
        stable_sort_of(items, replaced_or_added(s0.watch_seq(), item)),
        watchlist_committed(s0, s1, items),
    ensures
        s1.quote_seq() == s0.quote_seq(),
{
    let r = replaced_or_added(s0.watch_seq(), item);
    lemma_replaced_or_added(s0.watch_seq(), item);
    let q0 = s0.quote_seq();
    assert forall|i: int| 0 <= i < q0.len() implies watched_by::<P>(items)(#[trigger] q0[i]) by {
        let k = q0[i].symbol@;
        assert(is_watched(s0.watch_seq(), k));
        assert(is_watched(r, k));
        lemma_first_heads_group(r, k);
        assert(with_symbol(items, k) == with_symbol(r, k));
        lemma_group_witness(items, k);
    }
    lemma_filter_keeps_all(q0, watched_by::<P>(items));
}

/// Upserting the same entry again right after it was committed changes
/// nothing.
pub proof fn law_upsert_is_idempotent<P>(
    s0: QuoteStore<P>,
    s1: QuoteStore<P>,
    item: WatchEntry,
    items: Seq<WatchEntry>,
)
    requires
        s0.wf(),
        stable_sort_of(items, replaced_or_added(s0.watch_seq(), item)),
        watchlist_committed(s0, s1, items),
    ensures
        !upsert_changes(s1.watch_seq(), item),
{
    let k = item.symbol;
    let r = replaced_or_added(s0.watch_seq(), item);
    lemma_replaced_or_added(s0.watch_seq(), item);
    lemma_first_in_range(r, k);
    assert(is_watched(r, k));
    lemma_first_heads_group(r, k);
    assert(with_symbol(items, k) == with_symbol(r, k));
    lemma_group_witness(items, k);
    lemma_first_heads_group(items, k);
}

/// Health is `ok` exactly when the provider status is exactly `running`,
/// and `degraded` for every other status.
pub proof fn law_health_ok_only_while_running(provider_status: Seq<char>)
    ensures
        health_status_of(provider_status) == "ok"@ <==> provider_status == "running"@,
        provider_status != "running"@ ==> health_status_of(provider_status) == "degraded"@,
{
    reveal_strlit("ok");
    reveal_strlit("degraded");
    assert("ok"@ != "degraded"@) by {
        assert("ok"@.len() != "degraded"@.len());
    }
}

} // verus!
