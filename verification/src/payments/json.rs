//! The current file shape of the store: camel-cased names and calendar
//! dates, with every text interned.  Reading and writing the actual JSON
//! text is the embedding program's job; the library converts between
//! this shape and the validated store.

use vstd::prelude::*;

verus! {

use crate::error::Error;
use crate::interning::CustomString;
use crate::payments::{AllPayments, OrderDetail, OrderId, PaymentDetail, PaymentId, StringSet, ValueSet};
use crate::time::{format_datetime, parse_datetime, FakeUtcTime, DEFAULT_FORMAT};
use vstd::string::StringExecFns;

/// The vocabulary, as the files store it.
#[derive(Debug, PartialEq, Eq, Clone)]
pub struct ValueSetJson {
    pub cities: Vec<CustomString>,
    pub shops: Vec<CustomString>,
    pub methods: Vec<CustomString>,
    pub items: Vec<CustomString>,
}

/// One order, as the files store it.
#[derive(Debug, PartialEq, Eq, Clone)]
pub struct OrderJson {
    pub item: CustomString,
    pub unit_price: u32,
    pub quantity: u32,
}

/// One payment, as the files store it: the date as calendar text.
#[derive(Debug, PartialEq, Eq, Clone)]
pub struct PaymentJson {
    pub date: CustomString,
    pub city: CustomString,
    pub method: CustomString,
    pub shop: CustomString,
    pub orders: Vec<OrderJson>,
}

/// The whole store, as the files store it.
#[derive(Debug, PartialEq, Eq, Clone)]
pub struct AllPaymentsJson {
    pub value_set: ValueSetJson,
    pub payments: Vec<PaymentJson>,
}

/// The texts of a run of interned strings.
pub open spec fn cs_views(v: Seq<CustomString>) -> Seq<Seq<char>> {
    v.map_values(|c: CustomString| c@)
}

fn strings_of(set: &StringSet) -> (r: Vec<CustomString>)
    ensures
        cs_views(r@) == set.strs(),
{
    let mut r: Vec<CustomString> = Vec::new();
    let mut i: usize = 0;
    while i < set.len()
        invariant
            i <= set.strs().len(),
            cs_views(r@) =~= set.strs().take(i as int),
        decreases set.strs().len() - i,
    {
        let ghost pre = r@;
        r.push(CustomString::new(set.get(i).clone()));
        proof {
            assert(cs_views(pre).len() == pre.len());
            assert(pre.len() == i);
            assert forall|a: int| 0 <= a < r@.len() implies cs_views(r@)[a] == set.strs().take(
                i as int + 1,
            )[a] by {
                if a < pre.len() {
                    assert(r@[a] == pre[a]);
                    assert(cs_views(pre)[a] == set.strs().take(i as int)[a]);
                }
            }
            assert(cs_views(r@) =~= set.strs().take(i as int + 1));
        }
        i += 1;
    }
    proof {
        assert(set.strs().take(set.strs().len() as int) =~= set.strs());
    }
    r
}

fn plain_strings_of(v: &Vec<CustomString>) -> (r: Vec<String>)
    ensures
        crate::payments::str_views(r@) == cs_views(v@),
{
    let mut r: Vec<String> = Vec::new();
    let mut i: usize = 0;
    while i < v.len()
        invariant
            i <= v@.len(),
            crate::payments::str_views(r@) =~= cs_views(v@).take(i as int),
        decreases v@.len() - i,
    {
        let ghost pre = r@;
        r.push(v[i].as_str().to_owned());
        proof {
            assert(crate::payments::str_views(pre).len() == pre.len());
            assert(pre.len() == i);
            assert forall|a: int| 0 <= a < r@.len() implies crate::payments::str_views(r@)[a]
                == cs_views(v@).take(i as int + 1)[a] by {
                if a < pre.len() {
                    assert(r@[a] == pre[a]);
                    assert(crate::payments::str_views(pre)[a] == cs_views(v@).take(i as int)[a]);
                }
            }
            assert(crate::payments::str_views(r@) =~= cs_views(v@).take(i as int + 1));
        }
        i += 1;
    }
    proof {
        assert(cs_views(v@).take(v@.len() as int) =~= cs_views(v@));
    }
    r
}

/// Whether the stored shape loads cleanly, looking only at the first `n`
/// payments: every date parses, no two payments share a parsed date,
/// every city, shop, method and item a payment names is in the stored
/// vocabulary, and no payment lists one item twice.
pub open spec fn loads_cleanly_to(j: AllPaymentsJson, n: int) -> bool {
    &&& forall|i: int|
        0 <= i < n ==> parse_datetime(
            (#[trigger] j.payments@[i]).date@,
            DEFAULT_FORMAT@,
        ) is Some
    &&& forall|i: int, i2: int|
        0 <= i < i2 < n ==> parse_datetime(
            (#[trigger] j.payments@[i]).date@,
            DEFAULT_FORMAT@,
        ) != parse_datetime((#[trigger] j.payments@[i2]).date@, DEFAULT_FORMAT@)
    &&& forall|i: int|
        0 <= i < n ==> {
            let p = #[trigger] j.payments@[i];
            &&& cs_views(j.value_set.cities@).contains(p.city@)
            &&& cs_views(j.value_set.shops@).contains(p.shop@)
            &&& cs_views(j.value_set.methods@).contains(p.method@)
        }
    &&& forall|i: int, k: int|
        0 <= i < n && 0 <= k < j.payments@[i].orders@.len() ==> cs_views(
            j.value_set.items@,
        ).contains((#[trigger] j.payments@[i].orders@[k]).item@)
    &&& forall|i: int, k1: int, k2: int|
        0 <= i < n && 0 <= k1 < k2 < j.payments@[i].orders@.len() ==> (
        #[trigger] j.payments@[i].orders@[k1]).item@ != (#[trigger] j.payments@[i].orders@[k2]).item@
}

/// Whether the built store holds a stored payment under its parsed date,
/// whereabouts and orders matching, orders in their stored run.
pub open spec fn built_payment_matches(a: AllPayments, p: PaymentJson) -> bool {
    &&& parse_datetime(p.date@, DEFAULT_FORMAT@) matches Some(ts) && a.payments.spec_get(
        ts as int,
    ) matches Some(d) && {
        &&& d.payment_details.city@ == p.city@
        &&& d.payment_details.shop@ == p.shop@
        &&& d.payment_details.method@ == p.method@
        &&& d.orders.entries@.len() == p.orders@.len()
        &&& forall|k: int|
            0 <= k < p.orders@.len() ==> {
                let oe = #[trigger] d.orders.entries@[k];
                &&& oe.0.item@ == p.orders@[k].item@
                &&& oe.1.unit_price == p.orders@[k].unit_price
                &&& oe.1.quantity == p.orders@[k].quantity
            }
    }
}

impl AllPaymentsJson {
    /// Writes the validated store in the file shape: the vocabulary in
    /// its stored order and one record per payment, dates as calendar
    /// text.  It fails exactly when some date cannot be written.
    pub fn from_api(self_api: &AllPayments) -> (r: Result<AllPaymentsJson, Error>)
        requires
            self_api.wf(),
        ensures
            ({
                let entries = self_api.payments.entries@;
                &&& (r is Ok <==> forall|i: int|
                    0 <= i < entries.len() ==> format_datetime(
                        (#[trigger] entries[i]).0.date.timestamp as int,
                        DEFAULT_FORMAT@,
                    ) is Some)
                &&& (r matches Err(e) ==> e matches Error::TimeFormatFailed(_))
                &&& (r matches Ok(j) ==> {
                    &&& cs_views(j.value_set.cities@) == self_api.value_set.cities.strs()
                    &&& cs_views(j.value_set.shops@) == self_api.value_set.shops.strs()
                    &&& cs_views(j.value_set.methods@) == self_api.value_set.methods.strs()
                    &&& cs_views(j.value_set.items@) == self_api.value_set.items.strs()
                    &&& j.payments@.len() == entries.len()
                    &&& forall|i: int|
                        0 <= i < entries.len() ==> {
                            let p = #[trigger] j.payments@[i];
                            let e = entries[i];
                            &&& Some(p.date@) == format_datetime(
                                e.0.date.timestamp as int,
                                DEFAULT_FORMAT@,
                            )
                            &&& p.city@ == e.1.payment_details.city@
                            &&& p.shop@ == e.1.payment_details.shop@
                            &&& p.method@ == e.1.payment_details.method@
                            &&& p.orders@.len() == e.1.orders.entries@.len()
                            &&& forall|k: int|
                                0 <= k < e.1.orders.entries@.len() ==> {
                                    let o = #[trigger] p.orders@[k];
                                    let oe = e.1.orders.entries@[k];
                                    o.item@ == oe.0.item@ && o.unit_price == oe.1.unit_price
                                        && o.quantity == oe.1.quantity
                                }
                        }
                })
            }),
    {
        let values = ValueSetJson {
            cities: strings_of(self_api.value_set.cities()),
            shops: strings_of(self_api.value_set.shops()),
            methods: strings_of(self_api.value_set.methods()),
            items: strings_of(self_api.value_set.items()),
        };
        let ghost entries = self_api.payments.entries@;
        let mut payments: Vec<PaymentJson> = Vec::new();
        let n = self_api.payments.len();
        let mut i: usize = 0;
        while i < n
            invariant
                i <= n,
                n == entries.len(),
                entries == self_api.payments.entries@,
                self_api.wf(),
                payments@.len() == i,
                forall|a: int|
                    0 <= a < i ==> format_datetime(
                        (#[trigger] entries[a]).0.date.timestamp as int,
                        DEFAULT_FORMAT@,
                    ) is Some,
                forall|a: int|
                    0 <= a < i ==> {
                        let p = #[trigger] payments@[a];
                        let e = entries[a];
                        &&& Some(p.date@) == format_datetime(
                            e.0.date.timestamp as int,
                            DEFAULT_FORMAT@,
                        )
                        &&& p.city@ == e.1.payment_details.city@
                        &&& p.shop@ == e.1.payment_details.shop@
                        &&& p.method@ == e.1.payment_details.method@
                        &&& p.orders@.len() == e.1.orders.entries@.len()
                        &&& forall|k: int|
                            0 <= k < e.1.orders.entries@.len() ==> {
                                let o = #[trigger] p.orders@[k];
                                let oe = e.1.orders.entries@[k];
                                o.item@ == oe.0.item@ && o.unit_price == oe.1.unit_price
                                    && o.quantity == oe.1.quantity
                            }
                    },
            decreases n - i,
        {
            let (payid, detail) = self_api.payments.get_pair(i);
            let date = match payid.date().format_str() {
                Ok(d) => d,
                Err(e) => {
                    return Err(e);
                },
            };
            let mut orders: Vec<OrderJson> = Vec::new();
            let m = detail.orders().len();
            let mut k: usize = 0;
            while k < m
                invariant
                    k <= m,
                    m == entries[i as int].1.orders.entries@.len(),
                    i < entries.len(),
                    entries == self_api.payments.entries@,
                    detail == entries[i as int].1,
                    orders@.len() == k,
                    forall|b: int|
                        0 <= b < k ==> {
                            let o = #[trigger] orders@[b];
                            let oe = entries[i as int].1.orders.entries@[b];
                            o.item@ == oe.0.item@ && o.unit_price == oe.1.unit_price
                                && o.quantity == oe.1.quantity
                        },
                decreases m - k,
            {
                let (oid, od) = detail.orders().get_pair(k);
                orders.push(
                    OrderJson {
                        item: CustomString::new(oid.item().clone()),
                        unit_price: od.unit_price,
                        quantity: od.quantity,
                    },
                );
                k += 1;
            }
            payments.push(
                PaymentJson {
                    date: CustomString::new(date),
                    city: CustomString::new(detail.payment_details().city().clone()),
                    method: CustomString::new(detail.payment_details().method().clone()),
                    shop: CustomString::new(detail.payment_details().shop().clone()),
                    orders,
                },
            );
            i += 1;
        }
        Ok(AllPaymentsJson { value_set: values, payments })
    }

    /// Reads the file shape back into a validated store: the vocabulary
    /// first, then each payment and its orders, every date parsed and
    /// every reference checked.  It succeeds exactly when the shape
    /// loads cleanly, and the store it builds holds every stored payment
    /// under its parsed date, orders in their stored run.
    pub fn to_api(&self) -> (r: Result<AllPayments, Error>)
        ensures
            r is Ok <==> loads_cleanly_to(*self, self.payments@.len() as int),
            r matches Ok(a) ==> {
                &&& a.wf()
                &&& a.value_set.cities.strs() == crate::payments::set_extend(
                    Seq::<Seq<char>>::empty(),
                    cs_views(self.value_set.cities@),
                )
                &&& a.value_set.shops.strs() == crate::payments::set_extend(
                    Seq::<Seq<char>>::empty(),
                    cs_views(self.value_set.shops@),
                )
                &&& a.value_set.methods.strs() == crate::payments::set_extend(
                    Seq::<Seq<char>>::empty(),
                    cs_views(self.value_set.methods@),
                )
                &&& a.value_set.items.strs() == crate::payments::set_extend(
                    Seq::<Seq<char>>::empty(),
                    cs_views(self.value_set.items@),
                )
                &&& a.payments.entries@.len() == self.payments@.len()
                &&& forall|i: int|
                    0 <= i < self.payments@.len() ==> built_payment_matches(
                        a,
                        #[trigger] self.payments@[i],
                    )
            },
    {
        let mut all_payments_api = AllPayments::new();
        let mut values_api = ValueSet::new();
        proof {
            assert(all_payments_api.value_set.cities.strs() =~= Seq::<Seq<char>>::empty());
            assert(all_payments_api.value_set.shops.strs() =~= Seq::<Seq<char>>::empty());
            assert(all_payments_api.value_set.methods.strs() =~= Seq::<Seq<char>>::empty());
            assert(all_payments_api.value_set.items.strs() =~= Seq::<Seq<char>>::empty());
            assert(values_api.cities.strs() =~= Seq::<Seq<char>>::empty());
            assert(values_api.shops.strs() =~= Seq::<Seq<char>>::empty());
            assert(values_api.methods.strs() =~= Seq::<Seq<char>>::empty());
            assert(values_api.items.strs() =~= Seq::<Seq<char>>::empty());
        }
        values_api.add_values(
            plain_strings_of(&self.value_set.cities),
            plain_strings_of(&self.value_set.shops),
            plain_strings_of(&self.value_set.methods),
            plain_strings_of(&self.value_set.items),
        );
        let ghost vs_snapshot = values_api;
        all_payments_api.add_values(values_api);
        let ghost fixed_values = all_payments_api.value_set;
        proof {
            let empty = Seq::<Seq<char>>::empty();
            assert forall|y: Seq<char>| !(#[trigger] empty.contains(y)) by {}
            crate::payments::lemma_set_extend_fresh(empty, vs_snapshot.cities.strs());
            crate::payments::lemma_set_extend_fresh(empty, vs_snapshot.shops.strs());
            crate::payments::lemma_set_extend_fresh(empty, vs_snapshot.methods.strs());
            crate::payments::lemma_set_extend_fresh(empty, vs_snapshot.items.strs());
            assert(empty + vs_snapshot.cities.strs() =~= vs_snapshot.cities.strs());
            assert(empty + vs_snapshot.shops.strs() =~= vs_snapshot.shops.strs());
            assert(empty + vs_snapshot.methods.strs() =~= vs_snapshot.methods.strs());
            assert(empty + vs_snapshot.items.strs() =~= vs_snapshot.items.strs());
            assert forall|t: int| !(#[trigger] all_payments_api.payments.has_key(t)) by {}
        }
        let n = self.payments.len();
        let mut i: usize = 0;
        while i < n
            invariant
                i <= n,
                n == self.payments@.len(),
                all_payments_api.wf(),
                all_payments_api.value_set == fixed_values,
                fixed_values.cities.strs() == crate::payments::set_extend(
                    Seq::<Seq<char>>::empty(),
                    cs_views(self.value_set.cities@),
                ),
                fixed_values.shops.strs() == crate::payments::set_extend(
                    Seq::<Seq<char>>::empty(),
                    cs_views(self.value_set.shops@),
                ),
                fixed_values.methods.strs() == crate::payments::set_extend(
                    Seq::<Seq<char>>::empty(),
                    cs_views(self.value_set.methods@),
                ),
                fixed_values.items.strs() == crate::payments::set_extend(
                    Seq::<Seq<char>>::empty(),
                    cs_views(self.value_set.items@),
                ),
                loads_cleanly_to(*self, i as int),
                all_payments_api.payments.entries@.len() == i,
                forall|a: int|
                    0 <= a < i ==> built_payment_matches(
                        all_payments_api,
                        #[trigger] self.payments@[a],
                    ),
                forall|t: int|
                    #[trigger] all_payments_api.payments.has_key(t) <==> exists|a: int|
                        0 <= a < i && (#[trigger] parse_datetime(
                            self.payments@[a].date@,
                            DEFAULT_FORMAT@,
                        )) is Some && t == parse_datetime(
                            self.payments@[a].date@,
                            DEFAULT_FORMAT@,
                        ).unwrap() as int,
            decreases n - i,
        {
            let payment = &self.payments[i];
            let date = match FakeUtcTime::parse_str(payment.date.as_str()) {
                Ok(d) => d,
                Err(e) => {
                    proof {
                        assert(!loads_cleanly_to(*self, self.payments@.len() as int));
                    }
                    return Err(e);
                },
            };
            let ghost ts = date.timestamp as int;
            let payid = PaymentId::new(date);
            let paydetails = PaymentDetail::new(
                payment.city.as_str().to_owned(),
                payment.shop.as_str().to_owned(),
                payment.method.as_str().to_owned(),
            );
            proof {
                crate::payments::lemma_set_extend_contains(
                    Seq::<Seq<char>>::empty(),
                    cs_views(self.value_set.cities@),
                    payment.city@,
                );
                crate::payments::lemma_set_extend_contains(
                    Seq::<Seq<char>>::empty(),
                    cs_views(self.value_set.shops@),
                    payment.shop@,
                );
                crate::payments::lemma_set_extend_contains(
                    Seq::<Seq<char>>::empty(),
                    cs_views(self.value_set.methods@),
                    payment.method@,
                );
            }
            let ghost api0 = all_payments_api;
            match all_payments_api.add_payment(payid, paydetails) {
                Ok(()) => {},
                Err(e) => {
                    proof {
                        assert(!loads_cleanly_to(*self, self.payments@.len() as int));
                    }
                    return Err(e);
                },
            }
            proof {
                assert forall|t: int| #[trigger] all_payments_api.payments.has_key(t) implies (t
                    == ts || api0.payments.has_key(t)) by {
                    if t != ts {
                        assert(all_payments_api.payments.spec_get(t) == api0.payments.spec_get(t));
                    }
                }
                assert forall|t: int|
                    t == ts || api0.payments.has_key(t) implies #[trigger] all_payments_api.payments.has_key(
                    t,
                ) by {
                    if t != ts {
                        assert(all_payments_api.payments.spec_get(t) == api0.payments.spec_get(t));
                    }
                }
                assert forall|a: int| 0 <= a < i implies built_payment_matches(
                    all_payments_api,
                    #[trigger] self.payments@[a],
                ) by {
                    let ta = parse_datetime(self.payments@[a].date@, DEFAULT_FORMAT@).unwrap()
                        as int;
                    assert(!api0.payments.has_key(ts));
                    assert(ta != ts);
                    assert(all_payments_api.payments.spec_get(ta) == api0.payments.spec_get(ta));
                }
            }
            let m = payment.orders.len();
            let mut k: usize = 0;
            while k < m
                invariant
                    k <= m,
                    m == payment.orders@.len(),
                    i < self.payments@.len(),
                    n == self.payments@.len(),
                    payment == self.payments@[i as int],
                    ts == date.timestamp as int,
                    parse_datetime(payment.date@, DEFAULT_FORMAT@) == Some(date.timestamp),
                    all_payments_api.wf(),
                    all_payments_api.value_set == fixed_values,
                    fixed_values.items.strs() == crate::payments::set_extend(
                        Seq::<Seq<char>>::empty(),
                        cs_views(self.value_set.items@),
                    ),
                    loads_cleanly_to(*self, i as int),
                    all_payments_api.payments.entries@.len() == i + 1,
                    forall|a: int|
                        0 <= a < i ==> built_payment_matches(
                            all_payments_api,
                            #[trigger] self.payments@[a],
                        ),
                    forall|t: int|
                        #[trigger] all_payments_api.payments.has_key(t) <==> t == ts || exists|
                            a: int,
                        |
                            0 <= a < i && (#[trigger] parse_datetime(
                                self.payments@[a].date@,
                                DEFAULT_FORMAT@,
                            )) is Some && t == parse_datetime(
                                self.payments@[a].date@,
                                DEFAULT_FORMAT@,
                            ).unwrap() as int,
                    forall|a: int|
                        0 <= a < i ==> parse_datetime(
                            (#[trigger] self.payments@[a]).date@,
                            DEFAULT_FORMAT@,
                        ) != Some(date.timestamp),
                    ({
                        let d = all_payments_api.payments.spec_get(ts);
                        &&& d matches Some(dd)
                        &&& dd.payment_details.city@ == payment.city@
                        &&& dd.payment_details.shop@ == payment.shop@
                        &&& dd.payment_details.method@ == payment.method@
                        &&& dd.orders.entries@.len() == k
                        &&& forall|kk: int|
                            0 <= kk < k ==> {
                                let oe = #[trigger] dd.orders.entries@[kk];
                                &&& oe.0.item@ == payment.orders@[kk].item@
                                &&& oe.1.unit_price == payment.orders@[kk].unit_price
                                &&& oe.1.quantity == payment.orders@[kk].quantity
                            }
                    }),
                    forall|kk: int|
                        0 <= kk < k ==> cs_views(self.value_set.items@).contains(
                            (#[trigger] payment.orders@[kk]).item@,
                        ),
                    forall|k1: int, k2: int|
                        0 <= k1 < k2 < k ==> (#[trigger] payment.orders@[k1]).item@ != (
                        #[trigger] payment.orders@[k2]).item@,
                decreases m - k,
            {
                let order = &payment.orders[k];
                let payid2 = PaymentId::new(date);
                let orderid = OrderId::new(order.item.as_str().to_owned());
                let orderdetails = OrderDetail::new(order.unit_price, order.quantity);
                proof {
                    crate::payments::lemma_set_extend_contains(
                        Seq::<Seq<char>>::empty(),
                        cs_views(self.value_set.items@),
                        order.item@,
                    );
                    let dd = all_payments_api.payments.spec_get(ts).unwrap();
                    assert forall|x: Seq<char>| #[trigger] dd.orders.has_key(x) implies exists|
                        kk: int,
                    | 0 <= kk < k && (#[trigger] payment.orders@[kk]).item@ == x by {
                        if forall|j: int|
                            0 <= j < dd.orders.entries@.len() ==> (
                            #[trigger] dd.orders.entries@[j]).0.item@ != x {
                            crate::payments::lemma_order_lookup_absent(dd.orders.entries@, x);
                        } else {
                            let j = choose|j: int|
                                0 <= j < dd.orders.entries@.len() && (
                                #[trigger] dd.orders.entries@[j]).0.item@ == x;
                            assert(payment.orders@[j].item@ == x);
                        }
                    }
                    assert forall|kk: int|
                        0 <= kk < k implies #[trigger] dd.orders.has_key(
                        payment.orders@[kk].item@,
                    ) by {
                        crate::payments::lemma_order_lookup_at(
                            dd.orders.entries@,
                            payment.orders@[kk].item@,
                            kk,
                        );
                    }
                }
                let ghost api1 = all_payments_api;
                match all_payments_api.add_order(&payid2, orderid, orderdetails) {
                    Ok(()) => {},
                    Err(e) => {
                        proof {
                            assert(!loads_cleanly_to(*self, self.payments@.len() as int));
                        }
                        return Err(e);
                    },
                }
                proof {
                    assert forall|t: int| #[trigger] all_payments_api.payments.has_key(t) implies (
                    t == ts || api1.payments.has_key(t)) by {
                        if t != ts {
                            assert(all_payments_api.payments.spec_get(t) == api1.payments.spec_get(
                                t,
                            ));
                        }
                    }
                    assert forall|t: int|
                        t == ts || api1.payments.has_key(t) implies #[trigger] all_payments_api.payments.has_key(
                        t,
                    ) by {
                        if t != ts {
                            assert(all_payments_api.payments.spec_get(t) == api1.payments.spec_get(
                                t,
                            ));
                        }
                    }
                    assert forall|a: int| 0 <= a < i implies built_payment_matches(
                        all_payments_api,
                        #[trigger] self.payments@[a],
                    ) by {
                        let ta = parse_datetime(self.payments@[a].date@, DEFAULT_FORMAT@).unwrap()
                            as int;
                        assert(ta != ts);
                        assert(all_payments_api.payments.spec_get(ta) == api1.payments.spec_get(
                            ta,
                        ));
                    }
                }
                k += 1;
            }
            proof {
                assert(built_payment_matches(all_payments_api, self.payments@[i as int]));
                assert(loads_cleanly_to(*self, i as int + 1));
            }
            i += 1;
        }
        proof {
            assert(loads_cleanly_to(*self, self.payments@.len() as int));
        }
        Ok(all_payments_api)
    }
}

} // verus!
