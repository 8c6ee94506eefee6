use vstd::prelude::*;

use crate::assoc::{lemma_map_of_entries, map_of, AssocMap};
use crate::currency::{currency_position, lemma_currency_position, Currency, CURRENCY_COUNT};

verus! {

/// One conversion through a quote `(base, terms)`: one unit of `base` is worth the quote in
/// `terms`. Read forward it turns `base` into `terms` (multiply by the quote); read
/// inverted it turns `terms` into `base` (divide by the quote).
#[derive(Clone, Copy, Debug, PartialEq, Eq, Structural)]
pub struct ConversionStep {
    pub base: Currency,
    pub terms: Currency,
    pub inverted: bool,
}

impl ConversionStep {
    /// The currency the step converts from.
    pub open spec fn source(self) -> Currency {
        if self.inverted {
            self.terms
        } else {
            self.base
        }
    }

    /// The currency the step converts to.
    pub open spec fn target(self) -> Currency {
        if self.inverted {
            self.base
        } else {
            self.terms
        }
    }
}

/// `p` converts `from` into `to`, one quote of `quotes` at a time.
pub open spec fn is_conversion_path<V>(
    quotes: Map<(Currency, Currency), V>,
    from: Currency,
    to: Currency,
    p: Seq<ConversionStep>,
) -> bool
    decreases p.len(),
{
    if p.len() == 0 {
        from == to
    } else {
        let s = p.last();
        &&& quotes.contains_key((s.base, s.terms))
        &&& s.target() == to
        &&& is_conversion_path(quotes, from, s.source(), p.drop_last())
    }
}

/// Some chain of quotes converts `from` into `to`.
pub open spec fn connected<V>(quotes: Map<(Currency, Currency), V>, from: Currency, to: Currency) -> bool {
    exists|p: Seq<ConversionStep>| #[trigger] is_conversion_path(quotes, from, to, p)
}

/// Number of `false` in `s`.
pub open spec fn count_false(s: Seq<bool>) -> nat
    decreases s.len(),
{
    if s.len() == 0 {
        0
    } else {
        count_false(s.drop_last()) + if s.last() {
            0nat
        } else {
            1nat
        }
    }
}

proof fn lemma_count_false_set(s: Seq<bool>, i: int)
    requires
        0 <= i < s.len(),
        !s[i],
    ensures
        count_false(s.update(i, true)) + 1 == count_false(s),
    decreases s.len(),
{
    let t = s.update(i, true);
    if i < s.len() - 1 {
        assert(t.drop_last() =~= s.drop_last().update(i, true));
        lemma_count_false_set(s.drop_last(), i);
    } else {
        assert(t.drop_last() =~= s.drop_last());
    }
}

/// Every quote has both its currencies marked, or neither.
pub open spec fn closed_under<V>(quotes: Map<(Currency, Currency), V>, marked: Seq<bool>) -> bool {
    forall|k: (Currency, Currency)| #[trigger] quotes.contains_key(k) ==>
        (marked[currency_position(k.0)] <==> marked[currency_position(k.1)])
}

/// A marking closed under the quotes that holds `from` holds all it converts into.
proof fn lemma_closed_reach<V>(
    quotes: Map<(Currency, Currency), V>,
    marked: Seq<bool>,
    from: Currency,
    to: Currency,
    p: Seq<ConversionStep>,
)
    requires
        closed_under(quotes, marked),
        marked[currency_position(from)],
        is_conversion_path(quotes, from, to, p),
    ensures
        marked[currency_position(to)],
    decreases p.len(),
{
    if p.len() > 0 {
        let s = p.last();
        lemma_closed_reach(quotes, marked, from, s.source(), p.drop_last());
        assert(quotes.contains_key((s.base, s.terms)));
    }
}

/// A path followed by one more quote is a path.
proof fn lemma_path_push<V>(
    quotes: Map<(Currency, Currency), V>,
    from: Currency,
    p: Seq<ConversionStep>,
    s: ConversionStep,
)
    requires
        is_conversion_path(quotes, from, s.source(), p),
        quotes.contains_key((s.base, s.terms)),
    ensures
        is_conversion_path(quotes, from, s.target(), p.push(s)),
{
    assert(p.push(s).drop_last() =~= p);
}

/// The step read the other way.
pub open spec fn flipped(s: ConversionStep) -> ConversionStep {
    ConversionStep { inverted: !s.inverted, ..s }
}

/// The path walked backwards, each step read the other way.
pub open spec fn reversed_path(p: Seq<ConversionStep>) -> Seq<ConversionStep>
    decreases p.len(),
{
    if p.len() == 0 {
        p
    } else {
        seq![flipped(p.last())] + reversed_path(p.drop_last())
    }
}

/// Two paths that meet join into one.
pub proof fn lemma_path_concat<V>(
    quotes: Map<(Currency, Currency), V>,
    a: Currency,
    b: Currency,
    c: Currency,
    p1: Seq<ConversionStep>,
    p2: Seq<ConversionStep>,
)
    requires
        is_conversion_path(quotes, a, b, p1),
        is_conversion_path(quotes, b, c, p2),
    ensures
        is_conversion_path(quotes, a, c, p1 + p2),
    decreases p2.len(),
{
    if p2.len() == 0 {
        assert(p1 + p2 =~= p1);
    } else {
        let s = p2.last();
        lemma_path_concat(quotes, a, b, s.source(), p1, p2.drop_last());
        assert((p1 + p2).drop_last() =~= p1 + p2.drop_last());
        assert((p1 + p2).last() == s);
    }
}

/// A path walked backwards converts the other way: whatever converts `from` into `to`
/// also converts `to` into `from`.
pub proof fn lemma_reversed_path<V>(
    quotes: Map<(Currency, Currency), V>,
    from: Currency,
    to: Currency,
    p: Seq<ConversionStep>,
)
    requires
        is_conversion_path(quotes, from, to, p),
    ensures
        is_conversion_path(quotes, to, from, reversed_path(p)),
    decreases p.len(),
{
    if p.len() > 0 {
        let s = p.last();
        lemma_reversed_path(quotes, from, s.source(), p.drop_last());
        let first = seq![flipped(s)];
        assert(first.drop_last() =~= Seq::<ConversionStep>::empty());
        assert(is_conversion_path(quotes, to, to, first.drop_last()));
        assert(is_conversion_path(quotes, to, s.source(), first));
        lemma_path_concat(quotes, to, s.source(), from, first, reversed_path(p.drop_last()));
    }
}

/// Conversion works both ways: `from` converts into `to` exactly when `to` converts into
/// `from`.
pub proof fn lemma_connected_symmetric<V>(quotes: Map<(Currency, Currency), V>, from: Currency, to: Currency)
    ensures
        connected(quotes, from, to) <==> connected(quotes, to, from),
{
    if connected(quotes, from, to) {
        let p = choose|p: Seq<ConversionStep>| #[trigger] is_conversion_path(quotes, from, to, p);
        lemma_reversed_path(quotes, from, to, p);
    }
    if connected(quotes, to, from) {
        let p = choose|p: Seq<ConversionStep>| #[trigger] is_conversion_path(quotes, to, from, p);
        lemma_reversed_path(quotes, to, from, p);
    }
}

/// The quote `e` leaves no unmarked neighbour of `c`.
pub open spec fn neighbours_marked(e: (Currency, Currency), c: Currency, marked: Seq<bool>) -> bool {
    &&& e.0 == c ==> marked[currency_position(e.1)]
    &&& e.1 == c ==> marked[currency_position(e.0)]
}

/// `p` followed by `s`.
fn extended(p: &Vec<ConversionStep>, s: ConversionStep) -> (r: Vec<ConversionStep>)
    ensures
        r@ == p@.push(s),
{
    let mut r: Vec<ConversionStep> = Vec::new();
    let mut i: usize = 0;
    while i < p.len()
        invariant
            i <= p@.len(),
            r@ == p@.take(i as int),
        decreases p@.len() - i,
    {
        r.push(p[i]);
        i = i + 1;
        assert(r@ =~= p@.take(i as int));
    }
    assert(p@.take(p@.len() as int) =~= p@);
    r.push(s);
    r
}

/// No chain of quotes converts `from` into `c` with fewer than `n` quotes.
pub open spec fn no_shorter<V>(quotes: Map<(Currency, Currency), V>, from: Currency, c: Currency, n: nat) -> bool {
    forall|p: Seq<ConversionStep>| #[trigger] is_conversion_path(quotes, from, c, p) ==> n <= p.len()
}

/// `p` converts `from` into `to` with as few quotes as any chain that does.
pub open spec fn is_shortest_conversion<V>(
    quotes: Map<(Currency, Currency), V>,
    from: Currency,
    to: Currency,
    p: Seq<ConversionStep>,
) -> bool {
    is_conversion_path(quotes, from, to, p) && no_shorter(quotes, from, to, p.len())
}

/// Every currency that `from` converts into with fewer than `n` quotes is in `done`.
pub open spec fn reached_within<V>(quotes: Map<(Currency, Currency), V>, from: Currency, done: Seq<Currency>, n: nat) -> bool {
    forall|c: Currency, p: Seq<ConversionStep>| #[trigger] is_conversion_path(quotes, from, c, p) && p.len() < n ==> done.contains(c)
}

/// A currency that no finished currency marks cannot be reached in fewer quotes than one
/// more than the level of the finished ones.
proof fn lemma_unmarked_is_far<V>(
    q: Map<(Currency, Currency), V>,
    entries: Seq<((Currency, Currency), V)>,
    marked: Seq<bool>,
    seen: Seq<Currency>,
    head: int,
    from: Currency,
    t: Currency,
    d: nat,
)
    requires
        0 <= head <= seen.len(),
        forall|k: (Currency, Currency)| q.contains_key(k) ==>
            exists|j: int| 0 <= j < entries.len() && #[trigger] entries[j].0 == k,
        forall|i: int, j: int| 0 <= i < head && 0 <= j < entries.len() ==>
            #[trigger] neighbours_marked(entries[j].0, seen[i], marked),
        reached_within(q, from, seen.take(head), d),
        !marked[currency_position(t)],
        t != from,
    ensures
        no_shorter(q, from, t, d + 1),
{
    assert forall|p: Seq<ConversionStep>| #[trigger] is_conversion_path(q, from, t, p) implies d + 1 <= p.len() by {
        if p.len() <= d {
            assert(p.len() > 0);
            let s = p.last();
            let u = s.source();
            assert(is_conversion_path(q, from, u, p.drop_last()));
            assert(seen.take(head).contains(u));
            let k = choose|k: int| 0 <= k < seen.take(head).len() && seen.take(head)[k] == u;
            assert(seen[k] == u);
            assert(q.contains_key((s.base, s.terms)));
            let j = choose|j: int| 0 <= j < entries.len() && #[trigger] entries[j].0 == (s.base, s.terms);
            assert(neighbours_marked(entries[j].0, seen[k], marked));
        }
    }
}

proof fn lemma_reversed_len(p: Seq<ConversionStep>)
    ensures
        reversed_path(p).len() == p.len(),
    decreases p.len(),
{
    if p.len() > 0 {
        lemma_reversed_len(p.drop_last());
    }
}

/// The fewest quotes that convert `a` into `b` are as many as those that convert `b`
/// into `a`.
pub proof fn lemma_shortest_symmetric<V>(
    quotes: Map<(Currency, Currency), V>,
    a: Currency,
    b: Currency,
    p: Seq<ConversionStep>,
    p2: Seq<ConversionStep>,
)
    requires
        is_shortest_conversion(quotes, a, b, p),
        is_shortest_conversion(quotes, b, a, p2),
    ensures
        p.len() == p2.len(),
{
    lemma_reversed_path(quotes, a, b, p);
    lemma_reversed_len(p);
    lemma_reversed_path(quotes, b, a, p2);
    lemma_reversed_len(p2);
}

/// A chain of quotes converting `from` into `to` with as few quotes as possible, found
/// breadth first; `None` exactly when there is none.
pub fn conversion_path<V>(quotes: &AssocMap<(Currency, Currency), V>, from: Currency, to: Currency) -> (r: Option<Vec<ConversionStep>>)
    requires
        quotes.wf(),
    ensures
        match r {
            Some(p) => is_shortest_conversion(quotes@, from, to, p@),
            None => !connected(quotes@, from, to),
        },
{
    if from == to {
        let p: Vec<ConversionStep> = Vec::new();
        return Some(p);
    }
    let entries = quotes.entries();
    let ghost q = quotes@;
    proof {
        lemma_map_of_entries(entries@);
        lemma_currency_position(from, to);
    }
    let mut marked: Vec<bool> = Vec::new();
    let mut n: usize = 0;
    while n < CURRENCY_COUNT
        invariant
            n <= CURRENCY_COUNT,
            marked@.len() == n,
            forall|j: int| 0 <= j < n ==> !marked@[j],
            count_false(marked@) == n,
        decreases CURRENCY_COUNT - n,
    {
        let ghost before = marked@;
        marked.push(false);
        assert(marked@.drop_last() =~= before);
        n = n + 1;
    }
    let fi = from.position();
    proof {
        lemma_count_false_set(marked@, fi as int);
    }
    marked.set(fi, true);
    let mut seen: Vec<Currency> = Vec::new();
    seen.push(from);
    let mut paths: Vec<Vec<ConversionStep>> = Vec::new();
    paths.push(Vec::new());
    assert forall|c: Currency| #[trigger] marked@[currency_position(c)] implies
        exists|i: int| 0 <= i < seen@.len() && seen@[i] == c by {
        lemma_currency_position(c, from);
        assert(seen@[0] == from);
    }
    let mut head: usize = 0;
    while head < seen.len()
        invariant
            entries@ == quotes.spec_entries(),
            map_of(entries@) == q,
            q == quotes@,
            forall|j: int| 0 <= j < entries@.len() ==> q.contains_key(#[trigger] entries@[j].0),
            forall|k: (Currency, Currency)| q.contains_key(k) ==>
                exists|j: int| 0 <= j < entries@.len() && #[trigger] entries@[j].0 == k,
            from != to,
            marked@.len() == CURRENCY_COUNT,
            seen@.len() == paths@.len(),
            seen@.len() > 0 && seen@[0] == from,
            head <= seen@.len(),
            count_false(marked@) + seen@.len() == CURRENCY_COUNT,
            marked@[currency_position(from)],
            !marked@[currency_position(to)],
            forall|i: int| 0 <= i < seen@.len() ==> marked@[currency_position(#[trigger] seen@[i])],
            forall|i: int| 0 <= i < seen@.len() ==> is_conversion_path(q, from, seen@[i], #[trigger] paths@[i]@),
            forall|i: int| 0 <= i < seen@.len() ==> no_shorter(q, from, seen@[i], (#[trigger] paths@[i]@).len()),
            forall|i: int, j: int| 0 <= i <= j < seen@.len() ==> (#[trigger] paths@[i]@).len() <= (#[trigger] paths@[j]@).len(),
            head < seen@.len() ==> paths@[seen@.len() - 1]@.len() <= paths@[head as int]@.len() + 1,
            head < seen@.len() ==> reached_within(q, from, seen@.take(head as int), paths@[head as int]@.len()),
            forall|c: Currency| #[trigger] marked@[currency_position(c)] ==>
                exists|i: int| 0 <= i < seen@.len() && seen@[i] == c,
            forall|i: int, j: int| 0 <= i < head && 0 <= j < entries@.len() ==>
                #[trigger] neighbours_marked(entries@[j].0, seen@[i], marked@),
        decreases CURRENCY_COUNT - head,
    {
        let cur = seen[head];
        let ghost d = paths@[head as int]@.len();
        let mut k: usize = 0;
        while k < entries.len()
            invariant
                entries@ == quotes.spec_entries(),
                map_of(entries@) == q,
                q == quotes@,
                forall|j: int| 0 <= j < entries@.len() ==> q.contains_key(#[trigger] entries@[j].0),
                forall|k: (Currency, Currency)| q.contains_key(k) ==>
                    exists|j: int| 0 <= j < entries@.len() && #[trigger] entries@[j].0 == k,
                from != to,
                marked@.len() == CURRENCY_COUNT,
                seen@.len() == paths@.len(),
                seen@.len() > 0 && seen@[0] == from,
                head < seen@.len(),
                cur == seen@[head as int],
                d == paths@[head as int]@.len(),
                k <= entries@.len(),
                count_false(marked@) + seen@.len() == CURRENCY_COUNT,
                marked@[currency_position(from)],
                !marked@[currency_position(to)],
                forall|i: int| 0 <= i < seen@.len() ==> marked@[currency_position(#[trigger] seen@[i])],
                forall|i: int| 0 <= i < seen@.len() ==> is_conversion_path(q, from, seen@[i], #[trigger] paths@[i]@),
                forall|i: int| 0 <= i < seen@.len() ==> no_shorter(q, from, seen@[i], (#[trigger] paths@[i]@).len()),
                forall|i: int, j: int| 0 <= i <= j < seen@.len() ==> (#[trigger] paths@[i]@).len() <= (#[trigger] paths@[j]@).len(),
                paths@[seen@.len() - 1]@.len() <= d + 1,
                reached_within(q, from, seen@.take(head as int), d),
                forall|c: Currency| #[trigger] marked@[currency_position(c)] ==>
                    exists|i: int| 0 <= i < seen@.len() && seen@[i] == c,
                forall|i: int, j: int| 0 <= i < head && 0 <= j < entries@.len() ==>
                    #[trigger] neighbours_marked(entries@[j].0, seen@[i], marked@),
                forall|j: int| 0 <= j < k ==> #[trigger] neighbours_marked(entries@[j].0, cur, marked@),
            decreases entries@.len() - k,
        {
            let b = entries[k].0.0;
            let t = entries[k].0.1;
            assert(q.contains_key((b, t)));
            let bp = b.position();
            let tp = t.position();
            let step = if b == cur && !marked[tp] {
                Some(ConversionStep { base: b, terms: t, inverted: false })
            } else if t == cur && !marked[bp] {
                Some(ConversionStep { base: b, terms: t, inverted: true })
            } else {
                None
            };
            match step {
                Some(s) => {
                    let nc = if s.inverted { b } else { t };
                    let np = nc.position();
                    let p = extended(&paths[head], s);
                    proof {
                        lemma_path_push(q, from, paths@[head as int]@, s);
                        lemma_unmarked_is_far(q, entries@, marked@, seen@, head as int, from, nc, d);
                    }
                    if nc == to {
                        return Some(p);
                    }
                    let ghost m0 = marked@;
                    let ghost s0 = seen@;
                    let ghost p0 = paths@;
                    proof {
                        lemma_count_false_set(marked@, np as int);
                        lemma_currency_position(nc, to);
                        lemma_currency_position(nc, from);
                    }
                    marked.set(np, true);
                    seen.push(nc);
                    paths.push(p);
                    proof {
                        assert(seen@.take(head as int) =~= s0.take(head as int));
                        assert forall|x: int| 0 <= x < m0.len() && #[trigger] m0[x] implies marked@[x] by {}
                        assert forall|i: int| 0 <= i < seen@.len() implies marked@[currency_position(#[trigger] seen@[i])] by {
                            if i < s0.len() {
                                assert(seen@[i] == s0[i]);
                            }
                        }
                        assert forall|i: int| 0 <= i < seen@.len() implies is_conversion_path(q, from, seen@[i], #[trigger] paths@[i]@) by {
                            if i < s0.len() {
                                assert(seen@[i] == s0[i] && paths@[i] == p0[i]);
                            }
                        }
                        assert forall|i: int| 0 <= i < seen@.len() implies no_shorter(q, from, seen@[i], (#[trigger] paths@[i]@).len()) by {
                            if i < s0.len() {
                                assert(seen@[i] == s0[i] && paths@[i] == p0[i]);
                            }
                        }
                        assert forall|i: int, j: int| 0 <= i <= j < seen@.len() implies (#[trigger] paths@[i]@).len() <= (#[trigger] paths@[j]@).len() by {
                            if j < s0.len() {
                                assert(paths@[i] == p0[i] && paths@[j] == p0[j]);
                            } else if i < s0.len() {
                                assert(paths@[i] == p0[i]);
                                assert(p0[i]@.len() <= p0[s0.len() - 1]@.len());
                            }
                        }
                        assert forall|c: Currency| #[trigger] marked@[currency_position(c)] implies
                            exists|i: int| 0 <= i < seen@.len() && seen@[i] == c by {
                            lemma_currency_position(c, nc);
                            if c != nc {
                                assert(m0[currency_position(c)]);
                                let i = choose|i: int| 0 <= i < s0.len() && s0[i] == c;
                                assert(seen@[i] == c);
                            } else {
                                assert(seen@[s0.len() as int] == c);
                            }
                        }
                        assert forall|i: int, j: int| 0 <= i < head && 0 <= j < entries@.len() implies
                            #[trigger] neighbours_marked(entries@[j].0, seen@[i], marked@) by {
                            assert(seen@[i] == s0[i]);
                            assert(neighbours_marked(entries@[j].0, s0[i], m0));
                        }
                        assert forall|j: int| 0 <= j < k implies #[trigger] neighbours_marked(entries@[j].0, cur, marked@) by {
                            assert(neighbours_marked(entries@[j].0, cur, m0));
                        }
                        assert(neighbours_marked(entries@[k as int].0, cur, marked@));
                    }
                },
                None => {
                    assert(neighbours_marked(entries@[k as int].0, cur, marked@));
                },
            }
            k = k + 1;
        }
        proof {
            lemma_next_level(q, entries@, marked@, seen@, paths@, head as int, from, d);
        }
        head = head + 1;
    }
    proof {
        assert forall|key: (Currency, Currency)| #[trigger] q.contains_key(key) implies
            (marked@[currency_position(key.0)] <==> marked@[currency_position(key.1)]) by {
            let j = choose|j: int| 0 <= j < entries@.len() && #[trigger] entries@[j].0 == key;
            if marked@[currency_position(key.0)] {
                let i = choose|i: int| 0 <= i < seen@.len() && seen@[i] == key.0;
                assert(neighbours_marked(entries@[j].0, seen@[i], marked@));
            }
            if marked@[currency_position(key.1)] {
                let i = choose|i: int| 0 <= i < seen@.len() && seen@[i] == key.1;
                assert(neighbours_marked(entries@[j].0, seen@[i], marked@));
            }
        }
        if connected(q, from, to) {
            let p = choose|p: Seq<ConversionStep>| #[trigger] is_conversion_path(q, from, to, p);
            lemma_closed_reach(q, marked@, from, to, p);
        }
    }
    None
}

/// Once the currency at `head` is finished, every currency within the next level is
/// finished too.
proof fn lemma_next_level<V>(
    q: Map<(Currency, Currency), V>,
    entries: Seq<((Currency, Currency), V)>,
    marked: Seq<bool>,
    seen: Seq<Currency>,
    paths: Seq<Vec<ConversionStep>>,
    head: int,
    from: Currency,
    d: nat,
)
    requires
        0 <= head < seen.len(),
        seen.len() == paths.len(),
        seen[0] == from,
        d == paths[head]@.len(),
        forall|k: (Currency, Currency)| q.contains_key(k) ==>
            exists|j: int| 0 <= j < entries.len() && #[trigger] entries[j].0 == k,
        forall|i: int, j: int| 0 <= i < head && 0 <= j < entries.len() ==>
            #[trigger] neighbours_marked(entries[j].0, seen[i], marked),
        forall|j: int| 0 <= j < entries.len() ==> #[trigger] neighbours_marked(entries[j].0, seen[head], marked),
        reached_within(q, from, seen.take(head), d),
        forall|c: Currency| #[trigger] marked[currency_position(c)] ==>
            exists|i: int| 0 <= i < seen.len() && seen[i] == c,
        forall|i: int| 0 <= i < seen.len() ==> no_shorter(q, from, seen[i], (#[trigger] paths[i]@).len()),
        forall|i: int, j: int| 0 <= i <= j < seen.len() ==> (#[trigger] paths[i]@).len() <= (#[trigger] paths[j]@).len(),
        paths[seen.len() - 1]@.len() <= d + 1,
    ensures
        head + 1 < seen.len() ==> reached_within(q, from, seen.take(head + 1), paths[head + 1]@.len()),
{
    if head + 1 < seen.len() {
        let d2 = paths[head + 1]@.len();
        assert(d <= d2 <= d + 1);
        assert forall|c: Currency, p: Seq<ConversionStep>| #[trigger] is_conversion_path(q, from, c, p) && p.len() < d2
            implies seen.take(head + 1).contains(c) by {
            if p.len() < d {
                assert(seen.take(head).contains(c));
                let k = choose|k: int| 0 <= k < seen.take(head).len() && seen.take(head)[k] == c;
                assert(seen.take(head + 1)[k] == c);
            } else if p.len() == 0 {
                assert(c == from);
                assert(seen.take(head + 1)[0] == c);
            } else {
                // `c` is one quote away from a currency finished before `head`
                let s = p.last();
                let u = s.source();
                assert(is_conversion_path(q, from, u, p.drop_last()));
                assert(seen.take(head).contains(u) || p.drop_last().len() >= d);
                let sk = (s.base, s.terms);
                assert(q.contains_key(sk));
                let j = choose|j: int| 0 <= j < entries.len() && #[trigger] entries[j].0 == sk;
                if p.drop_last().len() < d {
                    let k = choose|k: int| 0 <= k < seen.take(head).len() && seen.take(head)[k] == u;
                    assert(neighbours_marked(entries[j].0, seen[k], marked));
                }
                assert(marked[currency_position(c)]);
                let i = choose|i: int| 0 <= i < seen.len() && seen[i] == c;
                assert(no_shorter(q, from, seen[i], paths[i]@.len()));
                assert(paths[i]@.len() <= p.len());
                if i >= head + 1 {
                    assert(paths[head + 1]@.len() <= paths[i]@.len());
                }
                assert(seen.take(head + 1)[i] == c);
            }
        }
    }
}

} // verus!
