//! The payment store: a validated vocabulary of cities, shops, methods
//! and items, and the payments keyed by date, each carrying its orders
//! keyed by item.  Every edit states exactly which lookups it changes.

mod collections;
pub mod json;
pub mod json_default;
pub mod json_legacy;

use vstd::prelude::*;

pub use collections::{OrderDetail, OrderId, OrderMap, PaymentId, StringSet};
pub use collections::{
    lemma_order_lookup_absent,
    lemma_order_lookup_at,
    lemma_payment_lookup_absent,
    lemma_payment_lookup_at,
    lemma_set_extend_contains,
    lemma_set_extend_fresh,
    order_lookup,
    payment_lookup,
    set_extend,
    str_views,
};

verus! {

use crate::error::Error;
use crate::time::FakeUtcTime;
use collections::{
    lemma_payment_lookup_absent_after_remove,
    lemma_payment_lookup_insert,
    lemma_payment_lookup_remove,
    lemma_payment_lookup_same,
};

/// The vocabulary that payments are validated against.
#[derive(Debug, PartialEq, Eq, Clone)]
pub struct ValueSet {
    pub cities: StringSet,
    pub shops: StringSet,
    pub methods: StringSet,
    pub items: StringSet,
}

impl ValueSet {
    /// All four sets hold each string once.
    pub open spec fn wf(self) -> bool {
        self.cities.wf() && self.shops.wf() && self.methods.wf() && self.items.wf()
    }

    /// All four sets are empty.
    pub open spec fn spec_is_empty(self) -> bool {
        self.cities.strs().len() == 0 && self.shops.strs().len() == 0 && self.methods.strs().len()
            == 0 && self.items.strs().len() == 0
    }

    /// The empty vocabulary.
    pub fn new() -> (r: ValueSet)
        ensures
            r.wf(),
            r.spec_is_empty(),
    {
        ValueSet {
            cities: StringSet::new(),
            shops: StringSet::new(),
            methods: StringSet::new(),
            items: StringSet::new(),
        }
    }

    /// The known cities.
    pub fn cities(&self) -> (r: &StringSet)
        ensures
            r == self.cities,
    {
        &self.cities
    }

    /// The known shops.
    pub fn shops(&self) -> (r: &StringSet)
        ensures
            r == self.shops,
    {
        &self.shops
    }

    /// The known payment methods.
    pub fn methods(&self) -> (r: &StringSet)
        ensures
            r == self.methods,
    {
        &self.methods
    }

    /// The known items.
    pub fn items(&self) -> (r: &StringSet)
        ensures
            r == self.items,
    {
        &self.items
    }

    /// Folds new strings into the four sets.
    pub fn add_values(
        &mut self,
        cities: Vec<String>,
        shops: Vec<String>,
        methods: Vec<String>,
        items: Vec<String>,
    )
        requires
            old(self).wf(),
        ensures
            final(self).wf(),
            final(self).cities.strs() == set_extend(old(self).cities.strs(), str_views(cities@)),
            final(self).shops.strs() == set_extend(old(self).shops.strs(), str_views(shops@)),
            final(self).methods.strs() == set_extend(
                old(self).methods.strs(),
                str_views(methods@),
            ),
            final(self).items.strs() == set_extend(old(self).items.strs(), str_views(items@)),
    {
        self.cities.extend_from_vec(cities);
        self.shops.extend_from_vec(shops);
        self.methods.extend_from_vec(methods);
        self.items.extend_from_vec(items);
    }

    /// Folds another vocabulary into this one.
    pub fn extend(&mut self, other: ValueSet)
        requires
            old(self).wf(),
        ensures
            final(self).wf(),
            final(self).cities.strs() == set_extend(old(self).cities.strs(), other.cities.strs()),
            final(self).shops.strs() == set_extend(old(self).shops.strs(), other.shops.strs()),
            final(self).methods.strs() == set_extend(
                old(self).methods.strs(),
                other.methods.strs(),
            ),
            final(self).items.strs() == set_extend(old(self).items.strs(), other.items.strs()),
    {
        proof {
            assert(str_views(other.cities.items@) =~= other.cities.strs());
            assert(str_views(other.shops.items@) =~= other.shops.strs());
            assert(str_views(other.methods.items@) =~= other.methods.strs());
            assert(str_views(other.items.items@) =~= other.items.strs());
        }
        self.add_values(other.cities.items, other.shops.items, other.methods.items, other.items.items)
    }

    /// Whether the vocabulary is empty.
    pub fn is_empty(&self) -> (r: bool)
        ensures
            r == self.spec_is_empty(),
    {
        self.cities.is_empty() && self.shops.is_empty() && self.methods.is_empty()
            && self.items.is_empty()
    }
}

impl OrderId {
    /// Names the item an order is for.
    pub fn new(item: String) -> (r: OrderId)
        ensures
            r.item == item,
    {
        OrderId { item }
    }

    /// The item bought.
    pub fn item(&self) -> (r: &String)
        ensures
            r == self.item,
    {
        &self.item
    }

    /// Checks that the item is in the vocabulary; a missing item comes
    /// back as a vocabulary of exactly that item.
    pub fn check_missing_elements(&self, valid_values: &ValueSet) -> (r: Result<(), Error>)
        ensures
            valid_values.items.has(self.item@) ==> r == Ok::<(), Error>(()),
            !valid_values.items.has(self.item@) ==> (r matches Err(e) && e matches Error::MissingElements(v)
                && v.wf() && v.items.strs() == seq![self.item@] && v.cities.strs().len() == 0
                && v.shops.strs().len() == 0 && v.methods.strs().len() == 0),
    {
        if valid_values.items.contains(&self.item) {
            Ok(())
        } else {
            let mut values = ValueSet::new();
            let ghost before = values.items.strs();
            values.items.insert(self.item.clone());
            proof {
                assert(values.items.strs() =~= seq![self.item@]);
            }
            Err(Error::MissingElements(values))
        }
    }
}

impl From<String> for OrderId {
    fn from(value: String) -> (r: OrderId) {
        OrderId { item: value }
    }
}

impl vstd::std_specs::convert::FromSpecImpl<String> for OrderId {
    open spec fn obeys_from_spec() -> bool {
        true
    }

    open spec fn from_spec(value: String) -> OrderId {
        OrderId { item: value }
    }
}

impl OrderDetail {
    /// Bundles a unit price in cents with a quantity.
    pub fn new(unit_price: u32, quantity: u32) -> (r: OrderDetail)
        ensures
            r.unit_price == unit_price,
            r.quantity == quantity,
    {
        OrderDetail { unit_price, quantity }
    }

    /// The price of one unit, in cents.
    pub fn unit_price(&self) -> (r: &u32)
        ensures
            r == self.unit_price,
    {
        &self.unit_price
    }

    /// How many units were bought.
    pub fn quantity(&self) -> (r: &u32)
        ensures
            r == self.quantity,
    {
        &self.quantity
    }
}

impl PaymentId {
    /// Names a payment by its date.
    pub fn new(date: FakeUtcTime) -> (r: PaymentId)
        ensures
            r.date == date,
    {
        PaymentId { date }
    }

    /// The payment's date.
    pub fn date(&self) -> (r: &FakeUtcTime)
        ensures
            r == self.date,
    {
        &self.date
    }
}

impl From<FakeUtcTime> for PaymentId {
    fn from(value: FakeUtcTime) -> (r: PaymentId) {
        PaymentId { date: value }
    }
}

impl vstd::std_specs::convert::FromSpecImpl<FakeUtcTime> for PaymentId {
    open spec fn obeys_from_spec() -> bool {
        true
    }

    open spec fn from_spec(value: FakeUtcTime) -> PaymentId {
        PaymentId { date: value }
    }
}

/// Where and how one payment was made.
#[derive(Debug, PartialEq, Eq, Clone)]
pub struct PaymentDetail {
    pub city: String,
    pub shop: String,
    pub method: String,
}

impl PaymentDetail {
    /// Bundles the city, shop and method of a payment.
    pub fn new(city: String, shop: String, method: String) -> (r: PaymentDetail)
        ensures
            r.city == city,
            r.shop == shop,
            r.method == method,
    {
        PaymentDetail { city, shop, method }
    }

    /// The city paid in.
    pub fn city(&self) -> (r: &String)
        ensures
            r == self.city,
    {
        &self.city
    }

    /// The shop paid at.
    pub fn shop(&self) -> (r: &String)
        ensures
            r == self.shop,
    {
        &self.shop
    }

    /// The payment method used.
    pub fn method(&self) -> (r: &String)
        ensures
            r == self.method,
    {
        &self.method
    }

    /// Whether all three fields are in the vocabulary.
    pub open spec fn all_known(self, valid_values: ValueSet) -> bool {
        valid_values.cities.has(self.city@) && valid_values.shops.has(self.shop@)
            && valid_values.methods.has(self.method@)
    }

    /// Checks the city, shop and method against the vocabulary; whatever
    /// is missing comes back as a vocabulary of exactly those strings.
    pub fn check_missing_elements(&self, valid_values: &ValueSet) -> (r: Result<(), Error>)
        ensures
            self.all_known(*valid_values) ==> r == Ok::<(), Error>(()),
            !self.all_known(*valid_values) ==> (r matches Err(e) && e matches Error::MissingElements(v)
                && v.wf() && v.cities.strs() == (if valid_values.cities.has(self.city@) {
                Seq::<Seq<char>>::empty()
            } else {
                seq![self.city@]
            }) && v.shops.strs() == (if valid_values.shops.has(self.shop@) {
                Seq::<Seq<char>>::empty()
            } else {
                seq![self.shop@]
            }) && v.methods.strs() == (if valid_values.methods.has(self.method@) {
                Seq::<Seq<char>>::empty()
            } else {
                seq![self.method@]
            }) && v.items.strs().len() == 0),
    {
        let mut values = ValueSet::new();
        let mut any = false;
        if !valid_values.cities.contains(&self.city) {
            values.cities.insert(self.city.clone());
            any = true;
            proof {
                assert(values.cities.strs() =~= seq![self.city@]);
            }
        }
        if !valid_values.shops.contains(&self.shop) {
            values.shops.insert(self.shop.clone());
            any = true;
            proof {
                assert(values.shops.strs() =~= seq![self.shop@]);
            }
        }
        if !valid_values.methods.contains(&self.method) {
            values.methods.insert(self.method.clone());
            any = true;
            proof {
                assert(values.methods.strs() =~= seq![self.method@]);
            }
        }
        if !any {
            Ok(())
        } else {
            Err(Error::MissingElements(values))
        }
    }
}

/// One payment's whereabouts and its orders.
#[derive(Debug, PartialEq, Eq, Clone)]
pub struct PayOrdersDetail {
    pub payment_details: PaymentDetail,
    pub orders: OrderMap,
}

/// The total of a run of orders, in cents, saturating at `u32::MAX`.
pub open spec fn orders_total(es: Seq<(OrderId, OrderDetail)>) -> int
    decreases es.len(),
{
    if es.len() == 0 {
        0
    } else {
        let t = orders_total(es.drop_last()) + es.last().1.unit_price * es.last().1.quantity;
        if t > u32::MAX {
            u32::MAX as int
        } else {
            t
        }
    }
}

impl PayOrdersDetail {
    /// The orders are keyed uniquely.
    pub open spec fn wf(self) -> bool {
        self.orders.wf()
    }

    /// A payment starts with no orders.
    pub fn new(payment_details: PaymentDetail) -> (r: PayOrdersDetail)
        ensures
            r.payment_details == payment_details,
            r.orders.entries@.len() == 0,
            r.wf(),
    {
        PayOrdersDetail { payment_details, orders: OrderMap::new() }
    }

    /// The payment's whereabouts.
    pub fn payment_details(&self) -> (r: &PaymentDetail)
        ensures
            r == self.payment_details,
    {
        &self.payment_details
    }

    /// The payment's orders.
    pub fn orders(&self) -> (r: &OrderMap)
        ensures
            r == self.orders,
    {
        &self.orders
    }

    /// The payment's total: each order's unit price times its quantity,
    /// summed, saturating at `u32::MAX`.
    pub fn calcualte_total_price(&self) -> (r: u32)
        ensures
            r == orders_total(self.orders.entries@),
    {
        let mut acc: u32 = 0;
        let mut i: usize = 0;
        while i < self.orders.entries.len()
            invariant
                i <= self.orders.entries@.len(),
                acc == orders_total(self.orders.entries@.take(i as int)),
            decreases self.orders.entries@.len() - i,
        {
            let d = self.orders.entries[i].1;
            proof {
                vstd::arithmetic::mul::lemma_mul_upper_bound(
                    d.unit_price as int,
                    u32::MAX as int,
                    d.quantity as int,
                    u32::MAX as int,
                );
                vstd::arithmetic::mul::lemma_mul_nonnegative(
                    d.unit_price as int,
                    d.quantity as int,
                );
                assert(self.orders.entries@.take(i + 1).drop_last() =~= self.orders.entries@.take(
                    i as int,
                ));
            }
            let t: u64 = acc as u64 + (d.unit_price as u64) * (d.quantity as u64);
            acc = if t > u32::MAX as u64 {
                u32::MAX
            } else {
                t as u32
            };
            i += 1;
        }
        proof {
            assert(self.orders.entries@.take(self.orders.entries@.len() as int)
                =~= self.orders.entries@);
        }
        acc
    }
}

/// The payments on record, kept sorted by date.
#[derive(Debug, PartialEq, Eq, Clone)]
pub struct PaymentMap {
    pub entries: Vec<(PaymentId, PayOrdersDetail)>,
}

impl PaymentMap {
    /// Dates are strictly increasing, and every payment's orders are
    /// keyed uniquely.
    pub open spec fn wf(self) -> bool {
        &&& forall|a: int, b: int|
            0 <= a < b < self.entries@.len() ==> self.entries@[a].0.date.timestamp
                < self.entries@[b].0.date.timestamp
        &&& forall|a: int| 0 <= a < self.entries@.len() ==> (#[trigger] self.entries@[a].1).wf()
    }

    /// The payment stored under a date, if any.
    pub open spec fn spec_get(self, ts: int) -> Option<PayOrdersDetail> {
        payment_lookup(self.entries@, ts)
    }

    /// Whether a date has a payment.
    pub open spec fn has_key(self, ts: int) -> bool {
        self.spec_get(ts) is Some
    }

    /// The empty record.
    pub fn new() -> (r: PaymentMap)
        ensures
            r.entries@.len() == 0,
            r.wf(),
            forall|ts: int| !(#[trigger] r.has_key(ts)),
    {
        let r = PaymentMap { entries: Vec::new() };
        proof {
            assert forall|ts: int| !(#[trigger] r.has_key(ts)) by {
                assert(r.spec_get(ts) == None::<PayOrdersDetail>);
            }
        }
        r
    }

    /// The position of a date's payment, if any.
    fn find(&self, ts: i64) -> (r: Option<usize>)
        requires
            self.wf(),
        ensures
            match r {
                Some(i) => i < self.entries@.len() && self.entries@[i as int].0.date.timestamp
                    == ts && self.spec_get(ts as int) == Some(self.entries@[i as int].1),
                None => self.spec_get(ts as int) is None,
            },
    {
        let mut i: usize = 0;
        while i < self.entries.len()
            invariant
                i <= self.entries@.len(),
                self.wf(),
                forall|j: int| 0 <= j < i ==> self.entries@[j].0.date.timestamp != ts,
            decreases self.entries@.len() - i,
        {
            if self.entries[i].0.date.timestamp == ts {
                proof {
                    lemma_payment_lookup_at(self.entries@, ts as int, i as int);
                }
                return Some(i);
            }
            i += 1;
        }
        proof {
            lemma_payment_lookup_absent(self.entries@, ts as int);
        }
        None
    }

    /// Whether a date has a payment.
    pub fn contains_key(&self, id: &PaymentId) -> (r: bool)
        requires
            self.wf(),
        ensures
            r == self.has_key(id.date.timestamp as int),
    {
        self.find(id.date.timestamp).is_some()
    }

    /// The payment under a date, if any.
    pub fn get(&self, id: &PaymentId) -> (r: Option<&PayOrdersDetail>)
        requires
            self.wf(),
        ensures
            match r {
                Some(d) => self.spec_get(id.date.timestamp as int) == Some(*d),
                None => self.spec_get(id.date.timestamp as int) is None,
            },
    {
        match self.find(id.date.timestamp) {
            Some(i) => Some(&self.entries[i].1),
            None => None,
        }
    }

    /// Adds a payment under a date not yet used, keeping dates sorted.
    pub fn insert_new(&mut self, id: PaymentId, detail: PayOrdersDetail)
        requires
            old(self).wf(),
            detail.wf(),
            !old(self).has_key(id.date.timestamp as int),
        ensures
            final(self).wf(),
            final(self).entries@.len() == old(self).entries@.len() + 1,
            final(self).spec_get(id.date.timestamp as int) == Some(detail),
            forall|t: int|
                t != id.date.timestamp ==> #[trigger] final(self).spec_get(t) == old(self).spec_get(t),
    {
        let ts = id.date.timestamp;
        proof {
            if exists|j: int|
                0 <= j < self.entries@.len() && self.entries@[j].0.date.timestamp == ts {
                let j = choose|j: int|
                    0 <= j < self.entries@.len() && self.entries@[j].0.date.timestamp == ts;
                lemma_payment_lookup_at(self.entries@, ts as int, j);
            }
        }
        let mut pos: usize = 0;
        while pos < self.entries.len() && self.entries[pos].0.date.timestamp < ts
            invariant
                pos <= self.entries@.len(),
                self.wf(),
                forall|j: int| 0 <= j < pos ==> self.entries@[j].0.date.timestamp < ts,
            decreases self.entries@.len() - pos,
        {
            pos += 1;
        }
        proof {
            assert forall|j: int| pos <= j < self.entries@.len() implies self.entries@[j].0.date.timestamp
                > ts by {
                if j > pos {
                    assert(self.entries@[pos as int].0.date.timestamp
                        < self.entries@[j].0.date.timestamp);
                }
                assert(self.entries@[j].0.date.timestamp != ts);
            }
        }
        self.put_back(pos, (id, detail));
    }

    /// Takes a date's entry out of the record, so the caller can edit and
    /// reinsert it at the same position.
    pub fn take(&mut self, id: &PaymentId) -> (r: Option<(usize, (PaymentId, PayOrdersDetail))>)
        requires
            old(self).wf(),
        ensures
            final(self).wf(),
            match r {
                None => *final(self) == *old(self) && !old(self).has_key(
                    id.date.timestamp as int,
                ),
                Some(p) => {
                    let i = p.0 as int;
                    let pair = p.1;
                    &&& 0 <= i < old(self).entries@.len()
                    &&& pair == old(self).entries@[i]
                    &&& pair.0.date.timestamp == id.date.timestamp
                    &&& pair.1.wf()
                    &&& old(self).spec_get(id.date.timestamp as int) == Some(pair.1)
                    &&& final(self).entries@ == old(self).entries@.remove(i)
                    &&& p.0 <= final(self).entries@.len()
                    &&& forall|j: int|
                        0 <= j < i ==> final(self).entries@[j].0.date.timestamp
                            < pair.0.date.timestamp
                    &&& forall|j: int|
                        i <= j < final(self).entries@.len()
                            ==> final(self).entries@[j].0.date.timestamp > pair.0.date.timestamp
                    &&& forall|t: int|
                        t != id.date.timestamp ==> #[trigger] final(self).spec_get(t) == old(self).spec_get(t)
                },
            },
    {
        match self.find(id.date.timestamp) {
            None => None,
            Some(i) => {
                let ghost pre = self.entries@;
                let pair = self.entries.remove(i);
                proof {
                    let cur = self.entries@;
                    assert forall|a: int, b: int|
                        0 <= a < b < cur.len() implies cur[a].0.date.timestamp
                        < cur[b].0.date.timestamp by {
                        let ia = if a < i {
                            a
                        } else {
                            a + 1
                        };
                        let ib = if b < i {
                            b
                        } else {
                            b + 1
                        };
                        assert(cur[a] == pre[ia] && cur[b] == pre[ib]);
                    }
                    assert forall|a: int| 0 <= a < cur.len() implies (
                    #[trigger] cur[a].1).wf() by {
                        if a < i {
                            assert(cur[a] == pre[a]);
                        } else {
                            assert(cur[a] == pre[a + 1]);
                        }
                    }
                    assert forall|j: int| 0 <= j < i implies cur[j].0.date.timestamp
                        < pair.0.date.timestamp by {
                        assert(cur[j] == pre[j]);
                    }
                    assert forall|j: int| i <= j < cur.len() implies cur[j].0.date.timestamp
                        > pair.0.date.timestamp by {
                        assert(cur[j] == pre[j + 1]);
                    }
                    assert forall|t: int|
                        t != id.date.timestamp ==> #[trigger] payment_lookup(cur, t)
                        == payment_lookup(pre, t) by {
                        if t != id.date.timestamp {
                            lemma_payment_lookup_remove(pre, i as int, t);
                        }
                    }
                }
                Some((i, pair))
            },
        }
    }

    /// Reinserts an entry at the position [`PaymentMap::take`] gave, with
    /// the date unchanged.
    pub fn put_back(&mut self, i: usize, pair: (PaymentId, PayOrdersDetail))
        requires
            old(self).wf(),
            pair.1.wf(),
            i <= old(self).entries@.len(),
            forall|j: int|
                0 <= j < i ==> old(self).entries@[j].0.date.timestamp < pair.0.date.timestamp,
            forall|j: int|
                i <= j < old(self).entries@.len() ==> old(self).entries@[j].0.date.timestamp
                    > pair.0.date.timestamp,
        ensures
            final(self).wf(),
            final(self).entries@ == old(self).entries@.insert(i as int, pair),
            final(self).spec_get(pair.0.date.timestamp as int) == Some(pair.1),
            forall|t: int|
                t != pair.0.date.timestamp ==> #[trigger] final(self).spec_get(t) == old(self).spec_get(t),
    {
        let ghost pre = self.entries@;
        let ghost ts = pair.0.date.timestamp;
        self.entries.insert(i, pair);
        proof {
            let cur = self.entries@;
            assert forall|a: int, b: int| 0 <= a < b < cur.len() implies cur[a].0.date.timestamp
                < cur[b].0.date.timestamp by {
                if a == i as int {
                    assert(cur[b] == pre[b - 1]);
                } else if b == i as int {
                    assert(cur[a] == pre[a]);
                } else if a < i as int && b < i as int {
                    assert(cur[a] == pre[a] && cur[b] == pre[b]);
                } else if a < i as int {
                    assert(cur[a] == pre[a] && cur[b] == pre[b - 1]);
                } else {
                    assert(cur[a] == pre[a - 1] && cur[b] == pre[b - 1]);
                }
            }
            assert forall|a: int| 0 <= a < cur.len() implies (#[trigger] cur[a].1).wf() by {
                if a < i as int {
                    assert(cur[a] == pre[a]);
                } else if a > i as int {
                    assert(cur[a] == pre[a - 1]);
                }
            }
            lemma_payment_lookup_at(cur, ts as int, i as int);
            assert forall|t: int|
                t != ts ==> #[trigger] payment_lookup(cur, t) == payment_lookup(pre, t) by {
                if t != ts {
                    lemma_payment_lookup_insert(pre, i as int, pair, t);
                }
            }
        }
    }

    /// Removes the payment under a date, reporting whether one was there.
    pub fn remove_key(&mut self, id: &PaymentId) -> (r: bool)
        requires
            old(self).wf(),
        ensures
            final(self).wf(),
            r == old(self).has_key(id.date.timestamp as int),
            final(self).spec_get(id.date.timestamp as int) is None,
            forall|t: int|
                t != id.date.timestamp ==> #[trigger] final(self).spec_get(t) == old(self).spec_get(t),
            r ==> final(self).entries@.len() == old(self).entries@.len() - 1,
            !r ==> *final(self) == *old(self),
    {
        let ghost pre = self.entries@;
        match self.take(id) {
            Some((i, pair)) => {
                proof {
                    lemma_payment_lookup_absent_after_remove(pre, i as int, id.date.timestamp as int);
                }
                true
            },
            None => false,
        }
    }

    /// How many payments are on record.
    pub fn len(&self) -> (r: usize)
        ensures
            r == self.entries@.len(),
    {
        self.entries.len()
    }

    /// The earliest payment, if any: dates are kept sorted.
    pub fn first_key_value(&self) -> (r: Option<(PaymentId, &PayOrdersDetail)>)
        ensures
            match r {
                Some(p) => self.entries@.len() > 0 && p.0 == self.entries@[0].0 && *p.1
                    == self.entries@[0].1,
                None => self.entries@.len() == 0,
            },
    {
        if self.entries.len() == 0 {
            None
        } else {
            Some((self.entries[0].0, &self.entries[0].1))
        }
    }

    /// The entry at a position, for callers that walk the record in date
    /// order.
    pub fn get_pair(&self, i: usize) -> (r: (PaymentId, &PayOrdersDetail))
        requires
            i < self.entries@.len(),
        ensures
            r.0 == self.entries@[i as int].0,
            *r.1 == self.entries@[i as int].1,
    {
        (self.entries[i].0, &self.entries[i].1)
    }
}

/// The whole store: the vocabulary and the payments.
#[derive(Debug, PartialEq, Eq, Clone)]
pub struct AllPayments {
    pub value_set: ValueSet,
    pub payments: PaymentMap,
}

impl AllPayments {
    /// The vocabulary and the record are both well-formed.
    pub open spec fn wf(self) -> bool {
        self.value_set.wf() && self.payments.wf()
    }

    /// An empty store.
    pub fn new() -> (r: AllPayments)
        ensures
            r.wf(),
            r.value_set.spec_is_empty(),
            r.payments.entries@.len() == 0,
            forall|ts: int| !(#[trigger] r.payments.has_key(ts)),
    {
        AllPayments { value_set: ValueSet::new(), payments: PaymentMap::new() }
    }

    /// The vocabulary.
    pub fn value_set(&self) -> (r: &ValueSet)
        ensures
            r == self.value_set,
    {
        &self.value_set
    }

    /// The payments, sorted by date.
    pub fn payments(&self) -> (r: &PaymentMap)
        ensures
            r == self.payments,
    {
        &self.payments
    }

    /// Folds new vocabulary in.
    pub fn add_values(&mut self, new_values: ValueSet)
        requires
            old(self).wf(),
        ensures
            final(self).wf(),
            final(self).payments == old(self).payments,
            final(self).value_set.cities.strs() == set_extend(
                old(self).value_set.cities.strs(),
                new_values.cities.strs(),
            ),
            final(self).value_set.shops.strs() == set_extend(
                old(self).value_set.shops.strs(),
                new_values.shops.strs(),
            ),
            final(self).value_set.methods.strs() == set_extend(
                old(self).value_set.methods.strs(),
                new_values.methods.strs(),
            ),
            final(self).value_set.items.strs() == set_extend(
                old(self).value_set.items.strs(),
                new_values.items.strs(),
            ),
    {
        self.value_set.extend(new_values)
    }

    /// Records a payment under a fresh date whose whereabouts are all in
    /// the vocabulary; otherwise says what went wrong and changes
    /// nothing.
    pub fn add_payment(&mut self, payid: PaymentId, paydetail: PaymentDetail) -> (r: Result<
        (),
        Error,
    >)
        requires
            old(self).wf(),
        ensures
            final(self).wf(),
            final(self).value_set == old(self).value_set,
            ({
                let ts = payid.date.timestamp as int;
                if old(self).payments.has_key(ts) {
                    r == Err::<(), Error>(Error::PaymentDuplicated(payid)) && *final(self) == *old(self)
                } else if !paydetail.all_known(old(self).value_set) {
                    (r matches Err(e) && e matches Error::MissingElements(_)) && *final(self)
                        == *old(self)
                } else {
                    &&& r == Ok::<(), Error>(())
                    &&& final(self).payments.spec_get(ts) matches Some(p) && p.payment_details
                        == paydetail && p.orders.entries@.len() == 0
                    &&& final(self).payments.entries@.len() == old(self).payments.entries@.len()
                        + 1
                    &&& forall|t: int|
                        t != ts ==> #[trigger] final(self).payments.spec_get(t) == old(self).payments.spec_get(t)
                }
            }),
    {
        if self.payments.contains_key(&payid) {
            return Err(Error::PaymentDuplicated(payid));
        }
        match paydetail.check_missing_elements(&self.value_set) {
            Ok(()) => {},
            Err(e) => {
                return Err(e);
            },
        }
        let detail = PayOrdersDetail::new(paydetail);
        self.payments.insert_new(payid, detail);
        Ok(())
    }

    /// Adds an order for an item in the vocabulary to a recorded payment,
    /// under an item not yet ordered there; otherwise says what went
    /// wrong and changes nothing.
    pub fn add_order(
        &mut self,
        payid: &PaymentId,
        orderid: OrderId,
        orderdetail: OrderDetail,
    ) -> (r: Result<(), Error>)
        requires
            old(self).wf(),
        ensures
            final(self).wf(),
            final(self).value_set == old(self).value_set,
            ({
                let ts = payid.date.timestamp as int;
                match old(self).payments.spec_get(ts) {
                    None => r == Err::<(), Error>(Error::PaymentNotFound(*payid)) && *final(self)
                        == *old(self),
                    Some(p) => {
                        if p.orders.has_key(orderid.item@) {
                            (r matches Err(e) && e matches Error::OrderDuplicated(pi, oi) && pi
                                == *payid && oi.item@ == orderid.item@) && *final(self) == *old(self)
                        } else if !old(self).value_set.items.has(orderid.item@) {
                            (r matches Err(e) && e matches Error::MissingElements(_)) && *final(self) == *old(self)
                        } else {
                            &&& r == Ok::<(), Error>(())
                            &&& final(self).payments.spec_get(ts) matches Some(p2)
                                && p2.payment_details == p.payment_details && p2.orders.entries@
                                == p.orders.entries@.push((orderid, orderdetail))
                            &&& final(self).payments.entries@.len() == old(self).payments.entries@.len()
                            &&& forall|t: int|
                                t != ts ==> #[trigger] final(self).payments.spec_get(t) == old(self).payments.spec_get(t)
                        }
                    },
                }
            }),
    {
        let has_order: bool;
        match self.payments.get(payid) {
            None => {
                return Err(Error::PaymentNotFound(PaymentId { date: payid.date }));
            },
            Some(p) => {
                proof {
                    collections::lemma_payment_lookup_is_entry(
                        self.payments.entries@,
                        payid.date.timestamp as int,
                    );
                }
                has_order = p.orders.contains_key(&orderid);
            },
        }
        if has_order {
            return Err(Error::OrderDuplicated(PaymentId { date: payid.date }, orderid));
        }
        match orderid.check_missing_elements(&self.value_set) {
            Ok(()) => {},
            Err(e) => {
                return Err(e);
            },
        }
        match self.payments.take(payid) {
            Some((i, mut pair)) => {
                pair.1.orders.insert_new(orderid, orderdetail);
                self.payments.put_back(i, pair);
                Ok(())
            },
            None => {
                proof {
                    assert(false);
                }
                Ok(())
            },
        }
    }

    /// Replaces the whereabouts of a recorded payment with ones in the
    /// vocabulary, keeping its orders; otherwise says what went wrong and
    /// changes nothing.
    pub fn modify_payment(&mut self, payid: &PaymentId, paydetail: PaymentDetail) -> (r: Result<
        (),
        Error,
    >)
        requires
            old(self).wf(),
        ensures
            final(self).wf(),
            final(self).value_set == old(self).value_set,
            ({
                let ts = payid.date.timestamp as int;
                match old(self).payments.spec_get(ts) {
                    None => r == Err::<(), Error>(Error::PaymentNotFound(*payid)) && *final(self)
                        == *old(self),
                    Some(p) => {
                        if !paydetail.all_known(old(self).value_set) {
                            (r matches Err(e) && e matches Error::MissingElements(_)) && *final(self) == *old(self)
                        } else {
                            &&& r == Ok::<(), Error>(())
                            &&& final(self).payments.spec_get(ts) matches Some(p2)
                                && p2.payment_details == paydetail && p2.orders == p.orders
                            &&& forall|t: int|
                                t != ts ==> #[trigger] final(self).payments.spec_get(t) == old(self).payments.spec_get(t)
                        }
                    },
                }
            }),
    {
        if !self.payments.contains_key(payid) {
            return Err(Error::PaymentNotFound(PaymentId { date: payid.date }));
        }
        match paydetail.check_missing_elements(&self.value_set) {
            Ok(()) => {},
            Err(e) => {
                return Err(e);
            },
        }
        match self.payments.take(payid) {
            Some((i, pair)) => {
                let pair2 = (pair.0, PayOrdersDetail { payment_details: paydetail, orders: pair.1.orders });
                self.payments.put_back(i, pair2);
                Ok(())
            },
            None => {
                proof {
                    assert(false);
                }
                Ok(())
            },
        }
    }

    /// Replaces an order of a recorded payment for an item in the
    /// vocabulary; otherwise says what went wrong and changes nothing.
    pub fn modify_order(
        &mut self,
        payid: &PaymentId,
        orderid: &OrderId,
        orderdetail: OrderDetail,
    ) -> (r: Result<(), Error>)
        requires
            old(self).wf(),
        ensures
            final(self).wf(),
            final(self).value_set == old(self).value_set,
            ({
                let ts = payid.date.timestamp as int;
                match old(self).payments.spec_get(ts) {
                    None => r == Err::<(), Error>(Error::PaymentNotFound(*payid)) && *final(self)
                        == *old(self),
                    Some(p) => {
                        if !p.orders.has_key(orderid.item@) {
                            (r matches Err(e) && e matches Error::OrderNotFound(pi, oi) && pi
                                == *payid && oi.item@ == orderid.item@) && *final(self) == *old(self)
                        } else if !old(self).value_set.items.has(orderid.item@) {
                            (r matches Err(e) && e matches Error::MissingElements(_)) && *final(self) == *old(self)
                        } else {
                            &&& r == Ok::<(), Error>(())
                            &&& final(self).payments.spec_get(ts) matches Some(p2)
                                && p2.payment_details == p.payment_details
                                && p2.orders.spec_get(orderid.item@) == Some(orderdetail) && (
                            forall|k: Seq<char>|
                                k != orderid.item@ ==> #[trigger] p2.orders.spec_get(k)
                                    == p.orders.spec_get(k))
                            &&& forall|t: int|
                                t != ts ==> #[trigger] final(self).payments.spec_get(t) == old(self).payments.spec_get(t)
                        }
                    },
                }
            }),
    {
        let has_order: bool;
        match self.payments.get(payid) {
            None => {
                return Err(Error::PaymentNotFound(PaymentId { date: payid.date }));
            },
            Some(p) => {
                proof {
                    collections::lemma_payment_lookup_is_entry(
                        self.payments.entries@,
                        payid.date.timestamp as int,
                    );
                }
                has_order = p.orders.contains_key(orderid);
            },
        }
        if !has_order {
            return Err(Error::OrderNotFound(
                PaymentId { date: payid.date },
                OrderId { item: orderid.item.clone() },
            ));
        }
        match orderid.check_missing_elements(&self.value_set) {
            Ok(()) => {},
            Err(e) => {
                return Err(e);
            },
        }
        match self.payments.take(payid) {
            Some((i, mut pair)) => {
                pair.1.orders.set_value(orderid, orderdetail);
                self.payments.put_back(i, pair);
                Ok(())
            },
            None => {
                proof {
                    assert(false);
                }
                Ok(())
            },
        }
    }

    /// Strikes a recorded payment; an unknown date says so and changes
    /// nothing.
    pub fn remove_payment(&mut self, payid: &PaymentId) -> (r: Result<(), Error>)
        requires
            old(self).wf(),
        ensures
            final(self).wf(),
            final(self).value_set == old(self).value_set,
            ({
                let ts = payid.date.timestamp as int;
                if old(self).payments.has_key(ts) {
                    &&& r == Ok::<(), Error>(())
                    &&& final(self).payments.spec_get(ts) is None
                    &&& final(self).payments.entries@.len() == old(self).payments.entries@.len()
                        - 1
                    &&& forall|t: int|
                        t != ts ==> #[trigger] final(self).payments.spec_get(t) == old(self).payments.spec_get(t)
                } else {
                    r == Err::<(), Error>(Error::PaymentNotFound(*payid)) && *final(self) == *old(self)
                }
            }),
    {
        if self.payments.remove_key(payid) {
            Ok(())
        } else {
            Err(Error::PaymentNotFound(PaymentId { date: payid.date }))
        }
    }

    /// Strikes an order of a recorded payment; an unknown date or item
    /// says so and changes nothing.
    pub fn remove_order(&mut self, payid: &PaymentId, orderid: &OrderId) -> (r: Result<(), Error>)
        requires
            old(self).wf(),
        ensures
            final(self).wf(),
            final(self).value_set == old(self).value_set,
            ({
                let ts = payid.date.timestamp as int;
                match old(self).payments.spec_get(ts) {
                    None => r == Err::<(), Error>(Error::PaymentNotFound(*payid)) && *final(self)
                        == *old(self),
                    Some(p) => {
                        if !p.orders.has_key(orderid.item@) {
                            (r matches Err(e) && e matches Error::OrderNotFound(pi, oi) && pi
                                == *payid && oi.item@ == orderid.item@) && *final(self) == *old(self)
                        } else {
                            &&& r == Ok::<(), Error>(())
                            &&& final(self).payments.spec_get(ts) matches Some(p2)
                                && p2.payment_details == p.payment_details
                                && p2.orders.spec_get(orderid.item@) is None && (forall|k: Seq<char>|
                                k != orderid.item@ ==> #[trigger] p2.orders.spec_get(k)
                                    == p.orders.spec_get(k))
                            &&& forall|t: int|
                                t != ts ==> #[trigger] final(self).payments.spec_get(t) == old(self).payments.spec_get(t)
                        }
                    },
                }
            }),
    {
        let has_order: bool;
        match self.payments.get(payid) {
            None => {
                return Err(Error::PaymentNotFound(PaymentId { date: payid.date }));
            },
            Some(p) => {
                proof {
                    collections::lemma_payment_lookup_is_entry(
                        self.payments.entries@,
                        payid.date.timestamp as int,
                    );
                }
                has_order = p.orders.contains_key(orderid);
            },
        }
        if !has_order {
            return Err(Error::OrderNotFound(
                PaymentId { date: payid.date },
                OrderId { item: orderid.item.clone() },
            ));
        }
        match self.payments.take(payid) {
            Some((i, mut pair)) => {
                pair.1.orders.remove_key(orderid);
                self.payments.put_back(i, pair);
                Ok(())
            },
            None => {
                proof {
                    assert(false);
                }
                Ok(())
            },
        }
    }
}

} // verus!
