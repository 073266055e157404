//! The verified containers behind the payment store: a string set that
//! keeps insertion order, an order map keyed by item name in insertion
//! order, and a payment map kept sorted by date.  Each states its
//! contents exactly, so the store's methods have map-precise contracts.

use vstd::prelude::*;

verus! {

use crate::time::FakeUtcTime;

/// A set of strings that remembers insertion order and holds each string
/// once.
#[derive(Debug, PartialEq, Eq, Clone)]
pub struct StringSet {
    pub items: Vec<String>,
}

impl StringSet {
    /// The member strings, in insertion order.
    pub open spec fn strs(self) -> Seq<Seq<char>> {
        self.items@.map_values(|s: String| s@)
    }

    /// No string occurs twice.
    pub open spec fn wf(self) -> bool {
        forall|i: int, j: int|
            0 <= i < j < self.strs().len() ==> self.strs()[i] != self.strs()[j]
    }

    /// Membership.
    pub open spec fn has(self, x: Seq<char>) -> bool {
        self.strs().contains(x)
    }

    /// The empty set.
    pub fn new() -> (r: StringSet)
        ensures
            r.strs() =~= Seq::<Seq<char>>::empty(),
            r.wf(),
    {
        StringSet { items: Vec::new() }
    }

    /// Whether `x` is a member.
    pub fn contains(&self, x: &String) -> (r: bool)
        ensures
            r == self.has(x@),
    {
        let mut i: usize = 0;
        while i < self.items.len()
            invariant
                i <= self.items@.len(),
                forall|j: int| 0 <= j < i ==> self.strs()[j] != x@,
            decreases self.items@.len() - i,
        {
            if self.items[i].eq(x) {
                assert(self.strs()[i as int] == x@);
                return true;
            }
            i += 1;
        }
        false
    }

    /// Adds `x` unless it is already a member; reports whether it was
    /// added.
    pub fn insert(&mut self, x: String) -> (r: bool)
        requires
            old(self).wf(),
        ensures
            final(self).wf(),
            r == !old(self).has(x@),
            r ==> final(self).strs() == old(self).strs().push(x@),
            !r ==> *final(self) == *old(self),
            forall|y: Seq<char>| #[trigger] final(self).has(y) <==> old(self).has(y) || y == x@,
    {
        if self.contains(&x) {
            false
        } else {
            let ghost pre = self.items@;
            self.items.push(x);
            proof {
                let prev = pre.map_values(|s: String| s@);
                assert(self.strs() =~= prev.push(self.strs()[pre.len() as int]));
                assert forall|y: Seq<char>| #[trigger] self.strs().contains(y) implies prev.contains(
                    y,
                ) || y == x@ by {
                    let j = choose|j: int| 0 <= j < self.strs().len() && self.strs()[j] == y;
                    if j < prev.len() {
                        assert(prev[j] == y);
                    }
                }
                assert forall|y: Seq<char>| prev.contains(y) implies #[trigger] self.strs().contains(
                    y,
                ) by {
                    let j = choose|j: int| 0 <= j < prev.len() && prev[j] == y;
                    assert(self.strs()[j] == y);
                }
                assert(self.strs().contains(x@)) by {
                    assert(self.strs()[prev.len() as int] == x@);
                }
            }
            true
        }
    }

    /// How many members the set has.
    pub fn len(&self) -> (r: usize)
        ensures
            r == self.strs().len(),
    {
        self.items.len()
    }

    /// Whether the set has no member.
    pub fn is_empty(&self) -> (r: bool)
        ensures
            r == (self.strs().len() == 0),
    {
        self.items.len() == 0
    }

    /// The member at a position, for callers that walk the set.
    pub fn get(&self, i: usize) -> (r: &String)
        requires
            i < self.strs().len(),
        ensures
            r@ == self.strs()[i as int],
    {
        &self.items[i]
    }
}

/// The strings of a plain vector, as character sequences.
pub open spec fn str_views(v: Seq<String>) -> Seq<Seq<char>> {
    v.map_values(|s: String| s@)
}

/// Folding new strings into a set: each is appended unless already
/// present, first occurrences kept.
pub open spec fn set_extend(s: Seq<Seq<char>>, xs: Seq<Seq<char>>) -> Seq<Seq<char>>
    decreases xs.len(),
{
    if xs.len() == 0 {
        s
    } else {
        let s2 = if s.contains(xs[0]) {
            s
        } else {
            s.push(xs[0])
        };
        set_extend(s2, xs.drop_first())
    }
}

/// A folded-in set holds exactly the old members and the new strings.
pub proof fn lemma_set_extend_contains(s: Seq<Seq<char>>, xs: Seq<Seq<char>>, y: Seq<char>)
    ensures
        set_extend(s, xs).contains(y) <==> s.contains(y) || xs.contains(y),
    decreases xs.len(),
{
    if xs.len() > 0 {
        let s2 = if s.contains(xs[0]) {
            s
        } else {
            s.push(xs[0])
        };
        lemma_set_extend_contains(s2, xs.drop_first(), y);
        assert(xs.contains(y) <==> (xs[0] == y || xs.drop_first().contains(y))) by {
            if xs.contains(y) {
                let j = choose|j: int| 0 <= j < xs.len() && xs[j] == y;
                if j > 0 {
                    assert(xs.drop_first()[j - 1] == y);
                }
            }
            if xs.drop_first().contains(y) {
                let j = choose|j: int| 0 <= j < xs.drop_first().len() && xs.drop_first()[j] == y;
                assert(xs[j + 1] == y);
            }
        }
        if !s.contains(xs[0]) {
            assert(s2.contains(y) <==> s.contains(y) || xs[0] == y) by {
                if s2.contains(y) {
                    let j = choose|j: int| 0 <= j < s2.len() && s2[j] == y;
                    if j < s.len() {
                        assert(s[j] == y);
                    }
                }
                if s.contains(y) {
                    let j = choose|j: int| 0 <= j < s.len() && s[j] == y;
                    assert(s2[j] == y);
                }
                if xs[0] == y {
                    assert(s2[s2.len() - 1] == y);
                }
            }
        }
    }
}

/// Folding fresh, pairwise distinct strings simply appends them.
pub proof fn lemma_set_extend_fresh(s: Seq<Seq<char>>, ys: Seq<Seq<char>>)
    requires
        forall|i: int| 0 <= i < ys.len() ==> !s.contains(#[trigger] ys[i]),
        forall|i: int, j: int| 0 <= i < j < ys.len() ==> ys[i] != ys[j],
    ensures
        set_extend(s, ys) == s + ys,
    decreases ys.len(),
{
    if ys.len() == 0 {
        assert(s + ys =~= s);
    } else {
        let s2 = s.push(ys[0]);
        assert(!s.contains(ys[0]));
        assert forall|i: int| 0 <= i < ys.drop_first().len() implies !s2.contains(
            #[trigger] ys.drop_first()[i],
        ) by {
            let y = ys.drop_first()[i];
            assert(y == ys[i + 1]);
            if s2.contains(y) {
                let j = choose|j: int| 0 <= j < s2.len() && s2[j] == y;
                if j < s.len() {
                    assert(s[j] == y);
                    assert(s.contains(y));
                } else {
                    assert(y == ys[0]);
                }
            }
        }
        lemma_set_extend_fresh(s2, ys.drop_first());
        assert(s2 + ys.drop_first() =~= s + ys);
    }
}

impl StringSet {
    /// Folds every string of `xs` into the set.
    pub fn extend_from_vec(&mut self, xs: Vec<String>)
        requires
            old(self).wf(),
        ensures
            final(self).wf(),
            final(self).strs() == set_extend(old(self).strs(), str_views(xs@)),
    {
        let ghost start = self.strs();
        let ghost views = str_views(xs@);
        proof {
            assert(views.skip(0) =~= views);
        }
        let mut i: usize = 0;
        while i < xs.len()
            invariant
                i <= xs@.len(),
                self.wf(),
                views == str_views(xs@),
                set_extend(start, views) == set_extend(self.strs(), views.skip(i as int)),
            decreases xs@.len() - i,
        {
            let ghost before = self.strs();
            let added = self.insert(xs[i].clone());
            proof {
                let rest = views.skip(i as int);
                assert(rest[0] == xs@[i as int]@);
                assert(rest.drop_first() =~= views.skip(i as int + 1));
                if added {
                    assert(self.strs() == before.push(rest[0]));
                } else {
                    assert(self.strs() == before);
                }
            }
            i += 1;
        }
        proof {
            assert(views.skip(views.len() as int) =~= Seq::<Seq<char>>::empty());
        }
    }
}

/// What identifies an order within one payment: the item bought.
#[derive(Debug, PartialEq, Eq, Clone)]
pub struct OrderId {
    pub item: String,
}

/// What one order says: the price of one unit, in cents, and how many
/// units were bought.
#[derive(Debug, PartialEq, Eq, Clone, Copy)]
pub struct OrderDetail {
    pub unit_price: u32,
    pub quantity: u32,
}

/// What identifies a payment: its date.
#[derive(Debug, Clone, Copy, PartialEq, Eq, Structural, PartialOrd, Ord)]
pub struct PaymentId {
    pub date: FakeUtcTime,
}

/// The order stored under an item name in a run of entries; with unique
/// keys, the position searched does not matter.
pub open spec fn order_lookup(es: Seq<(OrderId, OrderDetail)>, k: Seq<char>) -> Option<OrderDetail>
    decreases es.len(),
{
    if es.len() == 0 {
        None
    } else if es.last().0.item@ == k {
        Some(es.last().1)
    } else {
        order_lookup(es.drop_last(), k)
    }
}

/// An entry with the searched key pins the lookup, when keys are unique.
pub proof fn lemma_order_lookup_at(es: Seq<(OrderId, OrderDetail)>, k: Seq<char>, i: int)
    requires
        forall|a: int, b: int|
            0 <= a < b < es.len() ==> es[a].0.item@ != es[b].0.item@,
        0 <= i < es.len(),
        es[i].0.item@ == k,
    ensures
        order_lookup(es, k) == Some(es[i].1),
    decreases es.len(),
{
    if i < es.len() - 1 {
        assert(es.last().0.item@ != k);
        lemma_order_lookup_at(es.drop_last(), k, i);
    }
}

/// A key under no entry finds nothing.
pub proof fn lemma_order_lookup_absent(es: Seq<(OrderId, OrderDetail)>, k: Seq<char>)
    requires
        forall|a: int| 0 <= a < es.len() ==> es[a].0.item@ != k,
    ensures
        order_lookup(es, k) == None::<OrderDetail>,
    decreases es.len(),
{
    if es.len() > 0 {
        lemma_order_lookup_absent(es.drop_last(), k);
    }
}

/// The orders of one payment, keyed by item name, in insertion order.
#[derive(Debug, PartialEq, Eq, Clone)]
pub struct OrderMap {
    pub entries: Vec<(OrderId, OrderDetail)>,
}

impl OrderMap {
    /// The item names, in insertion order.
    pub open spec fn keys(self) -> Seq<Seq<char>> {
        self.entries@.map_values(|e: (OrderId, OrderDetail)| e.0.item@)
    }

    /// No item occurs twice.
    pub open spec fn wf(self) -> bool {
        forall|i: int, j: int|
            0 <= i < j < self.entries@.len() ==> self.entries@[i].0.item@
                != self.entries@[j].0.item@
    }

    /// The order stored for an item, if any.
    pub open spec fn spec_get(self, k: Seq<char>) -> Option<OrderDetail> {
        order_lookup(self.entries@, k)
    }

    /// Whether an item has an order.
    pub open spec fn has_key(self, k: Seq<char>) -> bool {
        self.spec_get(k) is Some
    }

    /// The empty map.
    pub fn new() -> (r: OrderMap)
        ensures
            r.entries@.len() == 0,
            r.wf(),
            forall|k: Seq<char>| !(#[trigger] r.has_key(k)),
    {
        let r = OrderMap { entries: Vec::new() };
        proof {
            assert forall|k: Seq<char>| !(#[trigger] r.has_key(k)) by {
                assert(r.spec_get(k) == None::<OrderDetail>);
            }
        }
        r
    }

    /// The position of an item's entry, if any.
    fn find(&self, k: &String) -> (r: Option<usize>)
        requires
            self.wf(),
        ensures
            match r {
                Some(i) => i < self.entries@.len() && self.entries@[i as int].0.item@ == k@
                    && self.spec_get(k@) == Some(self.entries@[i as int].1),
                None => self.spec_get(k@) is None,
            },
    {
        let mut i: usize = 0;
        while i < self.entries.len()
            invariant
                i <= self.entries@.len(),
                self.wf(),
                forall|j: int| 0 <= j < i ==> self.entries@[j].0.item@ != k@,
            decreases self.entries@.len() - i,
        {
            if self.entries[i].0.item.eq(k) {
                proof {
                    lemma_order_lookup_at(self.entries@, k@, i as int);
                }
                return Some(i);
            }
            i += 1;
        }
        proof {
            lemma_order_lookup_absent(self.entries@, k@);
        }
        None
    }

    /// Whether an item has an order.
    pub fn contains_key(&self, id: &OrderId) -> (r: bool)
        requires
            self.wf(),
        ensures
            r == self.has_key(id.item@),
    {
        self.find(&id.item).is_some()
    }

    /// The order of an item, if any.
    pub fn get(&self, id: &OrderId) -> (r: Option<&OrderDetail>)
        requires
            self.wf(),
        ensures
            match r {
                Some(d) => self.spec_get(id.item@) == Some(*d),
                None => self.spec_get(id.item@) is None,
            },
    {
        match self.find(&id.item) {
            Some(i) => Some(&self.entries[i].1),
            None => None,
        }
    }

    /// Adds an order under an item not yet present.
    pub fn insert_new(&mut self, id: OrderId, detail: OrderDetail)
        requires
            old(self).wf(),
            !old(self).has_key(id.item@),
        ensures
            final(self).wf(),
            final(self).entries@ == old(self).entries@.push((id, detail)),
            final(self).spec_get(id.item@) == Some(detail),
            forall|k: Seq<char>|
                k != id.item@ ==> #[trigger] final(self).spec_get(k) == old(self).spec_get(k),
    {
        proof {
            if exists|j: int|
                0 <= j < self.entries@.len() && self.entries@[j].0.item@ == id.item@ {
                let j = choose|j: int|
                    0 <= j < self.entries@.len() && self.entries@[j].0.item@ == id.item@;
                lemma_order_lookup_at(self.entries@, id.item@, j);
            }
        }
        let ghost pre = self.entries@;
        self.entries.push((id, detail));
        proof {
            assert(self.entries@.drop_last() =~= pre);
            assert forall|k: Seq<char>|
                k != self.entries@.last().0.item@ implies #[trigger] order_lookup(self.entries@, k)
                == order_lookup(pre, k) by {}
        }
    }

    /// Replaces the order under an item already present.
    pub fn set_value(&mut self, id: &OrderId, detail: OrderDetail)
        requires
            old(self).wf(),
            old(self).has_key(id.item@),
        ensures
            final(self).wf(),
            final(self).spec_get(id.item@) == Some(detail),
            final(self).entries@.len() == old(self).entries@.len(),
            forall|k: Seq<char>|
                k != id.item@ ==> #[trigger] final(self).spec_get(k) == old(self).spec_get(k),
    {
        let i = match self.find(&id.item) {
            Some(i) => i,
            None => {
                proof {
                    assert(false);
                }
                0
            },
        };
        let ghost pre = self.entries@;
        let pair = self.entries.remove(i);
        self.entries.insert(i, (pair.0, detail));
        proof {
            let cur = self.entries@;
            assert(cur.len() == pre.len());
            assert forall|j: int| 0 <= j < cur.len() implies #[trigger] cur[j].0.item@
                == pre[j].0.item@ by {}
            lemma_order_lookup_at(cur, id.item@, i as int);
            assert forall|k: Seq<char>| k != id.item@ implies #[trigger] order_lookup(cur, k)
                == order_lookup(pre, k) by {
                lemma_lookup_same_keys(pre, cur, k);
            }
        }
    }

    /// Removes the order under an item, reporting whether one was there.
    pub fn remove_key(&mut self, id: &OrderId) -> (r: bool)
        requires
            old(self).wf(),
        ensures
            final(self).wf(),
            r == old(self).has_key(id.item@),
            final(self).spec_get(id.item@) is None,
            forall|k: Seq<char>|
                k != id.item@ ==> #[trigger] final(self).spec_get(k) == old(self).spec_get(k),
            r ==> final(self).entries@.len() == old(self).entries@.len() - 1,
            !r ==> *final(self) == *old(self),
    {
        match self.find(&id.item) {
            Some(i) => {
                let ghost pre = self.entries@;
                self.entries.remove(i);
                proof {
                    let cur = self.entries@;
                    assert forall|k: Seq<char>| k != id.item@ implies #[trigger] order_lookup(
                        cur,
                        k,
                    ) == order_lookup(pre, k) by {
                        lemma_lookup_remove(pre, i as int, k);
                    }
                    lemma_order_lookup_absent_after_remove(pre, i as int, id.item@);
                }
                true
            },
            None => {
                proof {
                    assert(self.spec_get(id.item@) is None);
                }
                false
            },
        }
    }

    /// How many orders the payment has.
    pub fn len(&self) -> (r: usize)
        ensures
            r == self.entries@.len(),
    {
        self.entries.len()
    }

    /// The earliest-inserted entry, if any.
    pub fn first_key_value(&self) -> (r: Option<(&OrderId, &OrderDetail)>)
        ensures
            match r {
                Some(p) => self.entries@.len() > 0 && *p.0 == self.entries@[0].0 && *p.1
                    == self.entries@[0].1,
                None => self.entries@.len() == 0,
            },
    {
        if self.entries.len() == 0 {
            None
        } else {
            Some((&self.entries[0].0, &self.entries[0].1))
        }
    }

    /// The entry at a position, for callers that walk the map.
    pub fn get_pair(&self, i: usize) -> (r: (&OrderId, &OrderDetail))
        requires
            i < self.entries@.len(),
        ensures
            *r.0 == self.entries@[i as int].0,
            *r.1 == self.entries@[i as int].1,
    {
        (&self.entries[i].0, &self.entries[i].1)
    }
}

/// Lookups agree on two runs of equal length whose keys agree pointwise
/// and whose values agree wherever the searched key could match.
proof fn lemma_lookup_same_keys(
    a: Seq<(OrderId, OrderDetail)>,
    b: Seq<(OrderId, OrderDetail)>,
    k: Seq<char>,
)
    requires
        a.len() == b.len(),
        forall|j: int| 0 <= j < a.len() ==> #[trigger] a[j].0.item@ == b[j].0.item@,
        forall|j: int| 0 <= j < a.len() ==> (a[j].0.item@ == k ==> a[j].1 == b[j].1),
    ensures
        order_lookup(a, k) == order_lookup(b, k),
    decreases a.len(),
{
    if a.len() > 0 {
        assert(a.drop_last().len() == b.drop_last().len());
        lemma_lookup_same_keys(a.drop_last(), b.drop_last(), k);
    }
}

/// Removing one entry leaves lookups of other keys unchanged.
proof fn lemma_lookup_remove(pre: Seq<(OrderId, OrderDetail)>, i: int, k: Seq<char>)
    requires
        0 <= i < pre.len(),
        k != pre[i].0.item@,
    ensures
        order_lookup(pre.remove(i), k) == order_lookup(pre, k),
    decreases pre.len(),
{
    let cur = pre.remove(i);
    if i == pre.len() - 1 {
        assert(cur =~= pre.drop_last());
    } else {
        assert(cur.last() == pre.last());
        assert(cur.drop_last() =~= pre.drop_last().remove(i));
        if pre.last().0.item@ != k {
            lemma_lookup_remove(pre.drop_last(), i, k);
        }
    }
}

/// Removing the only entry of a key makes it absent, when keys are
/// unique.
proof fn lemma_order_lookup_absent_after_remove(
    pre: Seq<(OrderId, OrderDetail)>,
    i: int,
    k: Seq<char>,
)
    requires
        forall|a: int, b: int|
            0 <= a < b < pre.len() ==> pre[a].0.item@ != pre[b].0.item@,
        0 <= i < pre.len(),
        pre[i].0.item@ == k,
    ensures
        order_lookup(pre.remove(i), k) == None::<OrderDetail>,
{
    let cur = pre.remove(i);
    assert forall|a: int| 0 <= a < cur.len() implies #[trigger] cur[a].0.item@ != k by {
        if a < i {
            assert(cur[a] == pre[a]);
        } else {
            assert(cur[a] == pre[a + 1]);
        }
    }
    lemma_order_lookup_absent(cur, k);
}

/// The payment stored under a timestamp in a run of entries.
pub open spec fn payment_lookup<V>(es: Seq<(PaymentId, V)>, ts: int) -> Option<V>
    decreases es.len(),
{
    if es.len() == 0 {
        None
    } else if es.last().0.date.timestamp == ts {
        Some(es.last().1)
    } else {
        payment_lookup(es.drop_last(), ts)
    }
}

/// An entry with the searched date pins the lookup, when dates are
/// strictly increasing.
pub proof fn lemma_payment_lookup_at<V>(es: Seq<(PaymentId, V)>, ts: int, i: int)
    requires
        forall|a: int, b: int|
            0 <= a < b < es.len() ==> es[a].0.date.timestamp < es[b].0.date.timestamp,
        0 <= i < es.len(),
        es[i].0.date.timestamp == ts,
    ensures
        payment_lookup(es, ts) == Some(es[i].1),
    decreases es.len(),
{
    if i < es.len() - 1 {
        lemma_payment_lookup_at(es.drop_last(), ts, i);
    }
}

/// A date under no entry finds nothing.
pub proof fn lemma_payment_lookup_absent<V>(es: Seq<(PaymentId, V)>, ts: int)
    requires
        forall|a: int| 0 <= a < es.len() ==> es[a].0.date.timestamp != ts,
    ensures
        payment_lookup(es, ts) == None::<V>,
    decreases es.len(),
{
    if es.len() > 0 {
        lemma_payment_lookup_absent(es.drop_last(), ts);
    }
}

/// A found payment is one of the entries, so it inherits their
/// well-formedness.
pub proof fn lemma_payment_lookup_is_entry<V>(es: Seq<(PaymentId, V)>, ts: int)
    requires
        payment_lookup(es, ts) is Some,
    ensures
        exists|i: int|
            0 <= i < es.len() && #[trigger] es[i].1 == payment_lookup(es, ts).unwrap()
                && es[i].0.date.timestamp == ts,
    decreases es.len(),
{
    if es.len() > 0 && es.last().0.date.timestamp != ts {
        lemma_payment_lookup_is_entry(es.drop_last(), ts);
        let i = choose|i: int|
            0 <= i < es.drop_last().len() && #[trigger] es.drop_last()[i].1 == payment_lookup(
                es.drop_last(),
                ts,
            ).unwrap() && es.drop_last()[i].0.date.timestamp == ts;
        assert(es[i].1 == payment_lookup(es, ts).unwrap());
    }
}

/// Lookups agree on two runs of equal length whose dates agree pointwise
/// and whose values agree wherever the searched date could match.
pub proof fn lemma_payment_lookup_same<V>(a: Seq<(PaymentId, V)>, b: Seq<(PaymentId, V)>, ts: int)
    requires
        a.len() == b.len(),
        forall|j: int| 0 <= j < a.len() ==> #[trigger] a[j].0.date.timestamp
            == b[j].0.date.timestamp,
        forall|j: int| 0 <= j < a.len() ==> (a[j].0.date.timestamp == ts ==> a[j].1 == b[j].1),
    ensures
        payment_lookup(a, ts) == payment_lookup(b, ts),
    decreases a.len(),
{
    if a.len() > 0 {
        assert(a.drop_last().len() == b.drop_last().len());
        lemma_payment_lookup_same(a.drop_last(), b.drop_last(), ts);
    }
}

/// Removing one entry leaves lookups of other dates unchanged.
pub proof fn lemma_payment_lookup_remove<V>(pre: Seq<(PaymentId, V)>, i: int, ts: int)
    requires
        0 <= i < pre.len(),
        ts != pre[i].0.date.timestamp,
    ensures
        payment_lookup(pre.remove(i), ts) == payment_lookup(pre, ts),
    decreases pre.len(),
{
    let cur = pre.remove(i);
    if i == pre.len() - 1 {
        assert(cur =~= pre.drop_last());
    } else {
        assert(cur.last() == pre.last());
        assert(cur.drop_last() =~= pre.drop_last().remove(i));
        if pre.last().0.date.timestamp != ts {
            lemma_payment_lookup_remove(pre.drop_last(), i, ts);
        }
    }
}

/// Removing the only entry of a date makes it absent, when dates are
/// strictly increasing.
pub proof fn lemma_payment_lookup_absent_after_remove<V>(pre: Seq<(PaymentId, V)>, i: int, ts: int)
    requires
        forall|a: int, b: int|
            0 <= a < b < pre.len() ==> pre[a].0.date.timestamp < pre[b].0.date.timestamp,
        0 <= i < pre.len(),
        pre[i].0.date.timestamp == ts,
    ensures
        payment_lookup(pre.remove(i), ts) == None::<V>,
{
    let cur = pre.remove(i);
    assert forall|a: int| 0 <= a < cur.len() implies #[trigger] cur[a].0.date.timestamp != ts by {
        if a < i {
            assert(cur[a] == pre[a]);
        } else {
            assert(cur[a] == pre[a + 1]);
        }
    }
    lemma_payment_lookup_absent(cur, ts);
}

/// Inserting an entry at a position leaves lookups of other dates
/// unchanged.
pub proof fn lemma_payment_lookup_insert<V>(pre: Seq<(PaymentId, V)>, i: int, p: (PaymentId, V), ts: int)
    requires
        0 <= i <= pre.len(),
        ts != p.0.date.timestamp,
    ensures
        payment_lookup(pre.insert(i, p), ts) == payment_lookup(pre, ts),
    decreases pre.len(),
{
    let cur = pre.insert(i, p);
    assert(cur.remove(i) =~= pre);
    lemma_payment_lookup_remove(cur, i, ts);
}

} // verus!
