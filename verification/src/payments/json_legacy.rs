//! The legacy file shape of the store: camel-cased field names, dates as
//! calendar text, and possibly several orders of one item per payment,
//! which [`AllPayments::convert_to_valid_legacy`] merges.

use vstd::prelude::*;

verus! {

use crate::error::Error;
use crate::payments::{
    AllPayments as AllPaymentsApi,
    OrderDetail as OrderDetailApi,
    OrderId as OrderIdApi,
    PaymentDetail as PaymentDetailApi,
    PaymentId as PaymentIdApi,
    ValueSet as ValueSetApi,
};
use crate::textfmt::{lemma_lex_connex, lemma_lex_le_trans, lex_lt, str_lt};
use crate::time::{format_datetime, parse_datetime, FakeUtcTime, DEFAULT_FORMAT};
use vstd::string::StringExecFns;

/// The vocabulary, as the legacy files store it.
#[derive(Debug, PartialEq, Eq, Clone)]
pub struct ValueSet {
    pub cities: Vec<String>,
    pub shops: Vec<String>,
    pub methods: Vec<String>,
    pub items: Vec<String>,
}

/// One order, as the legacy files store it.
#[derive(Debug, PartialEq, Eq, Clone)]
pub struct Order {
    pub item: String,
    pub unit_price: u32,
    pub quantity: u32,
}

/// One payment, as the legacy files store it.
#[derive(Debug, PartialEq, Eq, Clone)]
pub struct Payment {
    pub date: String,
    pub city: String,
    pub method: String,
    pub shop: String,
    pub orders: Vec<Order>,
}

/// The whole store, as the legacy files store it.
#[derive(Debug, PartialEq, Eq, Clone)]
pub struct AllPayments {
    pub value_set: ValueSet,
    pub payments: Vec<Payment>,
}

/// The position of an item in a merge accumulator, if it occurs.
pub open spec fn merge_find(acc: Seq<(Seq<char>, (int, int))>, k: Seq<char>) -> int
    decreases acc.len(),
{
    if acc.len() == 0 {
        -1
    } else if acc[0].0 == k {
        0
    } else {
        let r = merge_find(acc.drop_first(), k);
        if r < 0 {
            -1
        } else {
            r + 1
        }
    }
}

/// One step of the merge: a fresh item is appended with its price and
/// quantity; a repeated item with the same unit price accumulates its
/// quantity; a repeated item with another unit price collapses to one
/// unit at the combined total.  All arithmetic saturates at `u32::MAX`.
pub open spec fn merge_step(acc: Seq<(Seq<char>, (int, int))>, item: Seq<char>, up: int, q: int) -> Seq<
    (Seq<char>, (int, int)),
> {
    let j = merge_find(acc, item);
    if j < 0 {
        acc.push((item, (up, q)))
    } else {
        let price = acc[j].1.0;
        let quant = acc[j].1.1;
        if up == price {
            acc.update(j, (item, (price, sat32(q + quant))))
        } else {
            acc.update(j, (item, (sat32(up * q + price * quant), 1)))
        }
    }
}

/// Clamps to `u32::MAX`.
pub open spec fn sat32(x: int) -> int {
    if x > u32::MAX {
        u32::MAX as int
    } else {
        x
    }
}

/// The merge of a payment's orders, first occurrences keeping their
/// position.
pub open spec fn merge_orders(os: Seq<Order>) -> Seq<(Seq<char>, (int, int))>
    decreases os.len(),
{
    if os.len() == 0 {
        Seq::empty()
    } else {
        merge_step(
            merge_orders(os.drop_last()),
            os.last().item@,
            os.last().unit_price as int,
            os.last().quantity as int,
        )
    }
}

/// An order as the merge contracts see it.
pub open spec fn order_view(o: Order) -> (Seq<char>, int, int) {
    (o.item@, o.unit_price as int, o.quantity as int)
}

/// A run of orders as the merge contracts see it.
pub open spec fn orders_view(os: Seq<Order>) -> Seq<(Seq<char>, int, int)> {
    os.map_values(|o: Order| order_view(o))
}

/// The orders a merged payment carries.
pub open spec fn merged_as_orders(acc: Seq<(Seq<char>, (int, int))>) -> Seq<(Seq<char>, int, int)> {
    acc.map_values(|e: (Seq<char>, (int, int))| (e.0, e.1.0, e.1.1))
}

/// Whether every accumulator price and quantity fits a `u32`.
pub open spec fn merge_fits(acc: Seq<(Seq<char>, (int, int))>) -> bool {
    forall|j: int|
        0 <= j < acc.len() ==> 0 <= (#[trigger] acc[j]).1.0 <= u32::MAX && 0 <= acc[j].1.1
            <= u32::MAX
}

proof fn lemma_merge_fits(os: Seq<Order>)
    ensures
        merge_fits(merge_orders(os)),
    decreases os.len(),
{
    if os.len() > 0 {
        lemma_merge_fits(os.drop_last());
        let acc = merge_orders(os.drop_last());
        let item = os.last().item@;
        let j = merge_find(acc, item);
        lemma_merge_find_range(acc, item);
        let cur = merge_orders(os);
        assert forall|a: int|
            0 <= a < cur.len() implies 0 <= (#[trigger] cur[a]).1.0 <= u32::MAX && 0 <= cur[a].1.1
            <= u32::MAX by {
            if j < 0 {
                if a < acc.len() {
                    assert(cur[a] == acc[a]);
                }
            } else {
                vstd::arithmetic::mul::lemma_mul_nonnegative(
                    os.last().unit_price as int,
                    os.last().quantity as int,
                );
                vstd::arithmetic::mul::lemma_mul_nonnegative(acc[j].1.0, acc[j].1.1);
                if a != j {
                    assert(cur[a] == acc[a]);
                }
            }
        }
    }
}

proof fn lemma_merge_find_range(acc: Seq<(Seq<char>, (int, int))>, k: Seq<char>)
    ensures
        merge_find(acc, k) >= 0 ==> merge_find(acc, k) < acc.len() && acc[merge_find(acc, k)].0
            == k,
        merge_find(acc, k) >= 0 ==> forall|j: int|
            0 <= j < merge_find(acc, k) ==> (#[trigger] acc[j]).0 != k,
        merge_find(acc, k) < 0 ==> forall|j: int| 0 <= j < acc.len() ==> (#[trigger] acc[j]).0 != k,
    decreases acc.len(),
{
    if acc.len() > 0 && acc[0].0 != k {
        lemma_merge_find_range(acc.drop_first(), k);
        let r = merge_find(acc.drop_first(), k);
        if r >= 0 {
            assert(acc[r + 1] == acc.drop_first()[r]);
            assert forall|j: int| 0 <= j < r + 1 implies (#[trigger] acc[j]).0 != k by {
                if j > 0 {
                    assert(acc.drop_first()[j - 1] == acc[j]);
                }
            }
        } else {
            assert forall|j: int| 0 <= j < acc.len() implies (#[trigger] acc[j]).0 != k by {
                if j > 0 {
                    assert(acc.drop_first()[j - 1] == acc[j]);
                }
            }
        }
    }
}

impl AllPayments {
    /// Merges, in every payment, the orders that name one item: equal
    /// unit prices pool their quantities, unequal ones collapse to one
    /// unit at the combined total.  The merged orders come out sorted by
    /// item, the order the legacy files keep; sums saturate at
    /// `u32::MAX`.
    pub fn convert_to_valid_legacy(&mut self)
        ensures
            final(self).value_set == old(self).value_set,
            final(self).payments@.len() == old(self).payments@.len(),
            forall|i: int|
                0 <= i < old(self).payments@.len() ==> {
                    let p0 = old(self).payments@[i];
                    let p1 = #[trigger] final(self).payments@[i];
                    &&& p1.date == p0.date
                    &&& p1.city == p0.city
                    &&& p1.method == p0.method
                    &&& p1.shop == p0.shop
                    &&& orders_view(p1.orders@).to_multiset() == merged_as_orders(
                        merge_orders(p0.orders@),
                    ).to_multiset()
                    &&& sorted_by_item(p1.orders@)
                    &&& p1.orders@.len() == merge_orders(p0.orders@).len()
                },
    {
        let n = self.payments.len();
        let mut i: usize = 0;
        while i < n
            invariant
                i <= n,
                n == self.payments@.len(),
                n == old(self).payments@.len(),
                self.value_set == old(self).value_set,
                forall|a: int| i <= a < n ==> #[trigger] self.payments@[a] == old(self).payments@[a],
                forall|a: int|
                    0 <= a < i ==> {
                        let p0 = old(self).payments@[a];
                        let p1 = #[trigger] self.payments@[a];
                        &&& p1.date == p0.date
                        &&& p1.city == p0.city
                        &&& p1.method == p0.method
                        &&& p1.shop == p0.shop
                        &&& orders_view(p1.orders@).to_multiset() == merged_as_orders(
                            merge_orders(p0.orders@),
                        ).to_multiset()
                        &&& sorted_by_item(p1.orders@)
                        &&& p1.orders@.len() == merge_orders(p0.orders@).len()
                    },
            decreases n - i,
        {
            let mut payment = self.payments.remove(i);
            let merged = merge_payment_orders(&payment.orders);
            payment.orders = merged;
            let ghost edited = payment;
            self.payments.insert(i, payment);
            proof {
                let pre = old(self).payments@;
                assert forall|a: int| 0 <= a < i + 1 implies (a < i ==> #[trigger] self.payments@[a]
                    == self.payments@[a]) by {}
                assert(self.payments@[i as int] == edited);
            }
            i += 1;
        }
    }
}

/// Items weakly ascend through a run of orders.
pub open spec fn sorted_by_item(os: Seq<Order>) -> bool {
    forall|i: int, j: int| 0 <= i < j < os.len() ==> !lex_lt(os[j].item@, os[i].item@)
}

/// Builds the merged order list of one payment, sorted by item.
fn merge_payment_orders(orders: &Vec<Order>) -> (r: Vec<Order>)
    ensures
        orders_view(r@).to_multiset() == merged_as_orders(merge_orders(orders@)).to_multiset(),
        sorted_by_item(r@),
        r@.len() == merge_orders(orders@).len(),
{
    let merged = merge_orders_first_use(orders);
    proof {
        assert(merged@.len() == orders_view(merged@).len());
        assert(merged@.len() == merged_as_orders(merge_orders(orders@)).len());
    }
    sort_orders_by_item(merged)
}

/// Builds the merged order list of one payment, first occurrences
/// keeping their place.
fn merge_orders_first_use(orders: &Vec<Order>) -> (r: Vec<Order>)
    ensures
        orders_view(r@) == merged_as_orders(merge_orders(orders@)),
{
    let mut acc: Vec<Order> = Vec::new();
    let mut i: usize = 0;
    proof {
        assert(orders_view(acc@) =~= merged_as_orders(merge_orders(orders@.take(0))));
    }
    while i < orders.len()
        invariant
            i <= orders@.len(),
            orders_view(acc@) == merged_as_orders(merge_orders(orders@.take(i as int))),
            merge_fits(merge_orders(orders@.take(i as int))),
            acc@.len() == merge_orders(orders@.take(i as int)).len(),
        decreases orders@.len() - i,
    {
        let o = &orders[i];
        let ghost prefix = orders@.take(i as int);
        let ghost accv = merge_orders(prefix);
        proof {
            assert(orders@.take(i + 1).drop_last() =~= prefix);
            assert(orders@.take(i + 1).last() == orders@[i as int]);
            lemma_merge_find_range(accv, o.item@);
            lemma_merge_fits(orders@.take(i + 1));
        }
        let pos = find_item(&acc, &o.item);
        proof {
            lemma_find_matches(acc@, accv, o.item@);
        }
        match pos {
            None => {
                proof {
                    assert(merge_find(accv, o.item@) < 0) by {
                        if merge_find(accv, o.item@) >= 0 {
                            let mf = merge_find(accv, o.item@);
                            assert(acc@[mf].item@ == accv[mf].0);
                        }
                    }
                    assert(merge_orders(orders@.take(i + 1)) == merge_step(
                        accv,
                        orders@[i as int].item@,
                        orders@[i as int].unit_price as int,
                        orders@[i as int].quantity as int,
                    ));
                }
                let ghost accpre = acc@;
                acc.push(Order { item: o.item.clone(), unit_price: o.unit_price, quantity: o.quantity });
                proof {
                    let target = merge_step(
                        accv,
                        orders@[i as int].item@,
                        orders@[i as int].unit_price as int,
                        orders@[i as int].quantity as int,
                    );
                    assert forall|a: int| 0 <= a < acc@.len() implies orders_view(acc@)[a]
                        == merged_as_orders(target)[a] by {
                        if a < accpre.len() {
                            assert(acc@[a] == accpre[a]);
                            assert(orders_view(accpre)[a] == merged_as_orders(accv)[a]);
                        } else {
                            assert(acc@[a] == acc@.last());
                            assert(target[a] == (orders@[i as int].item@, (
                            orders@[i as int].unit_price as int,
                            orders@[i as int].quantity as int,
                            )));
                        }
                    }
                    assert(orders_view(acc@) =~= merged_as_orders(target));
                }
            },
            Some(j) => {
                let ghost accpre = acc@;
                proof {
                    let mf = merge_find(accv, o.item@);
                    assert(acc@[j as int].item@ == accv[j as int].0);
                    assert(mf >= 0) by {
                        if mf < 0 {
                            assert(accv[j as int].0 != o.item@);
                        }
                    }
                    assert(acc@[mf].item@ == accv[mf].0);
                    assert(mf == j as int);
                    assert(merge_orders(orders@.take(i + 1)) == merge_step(
                        accv,
                        orders@[i as int].item@,
                        orders@[i as int].unit_price as int,
                        orders@[i as int].quantity as int,
                    ));
                }
                let prev = acc.remove(j);
                let merged: Order = if o.unit_price == prev.unit_price {
                    let q = (o.quantity as u64) + (prev.quantity as u64);
                    Order {
                        item: prev.item,
                        unit_price: prev.unit_price,
                        quantity: if q > u32::MAX as u64 {
                            u32::MAX
                        } else {
                            q as u32
                        },
                    }
                } else {
                    proof {
                        vstd::arithmetic::mul::lemma_mul_nonnegative(
                            o.unit_price as int,
                            o.quantity as int,
                        );
                        vstd::arithmetic::mul::lemma_mul_nonnegative(
                            prev.unit_price as int,
                            prev.quantity as int,
                        );
                        vstd::arithmetic::mul::lemma_mul_upper_bound(
                            o.unit_price as int,
                            u32::MAX as int,
                            o.quantity as int,
                            u32::MAX as int,
                        );
                        vstd::arithmetic::mul::lemma_mul_upper_bound(
                            prev.unit_price as int,
                            u32::MAX as int,
                            prev.quantity as int,
                            u32::MAX as int,
                        );
                    }
                    let t = (o.unit_price as u128) * (o.quantity as u128) + (prev.unit_price
                        as u128) * (prev.quantity as u128);
                    Order {
                        item: prev.item,
                        unit_price: if t > u32::MAX as u128 {
                            u32::MAX
                        } else {
                            t as u32
                        },
                        quantity: 1,
                    }
                };
                acc.insert(j, merged);
                proof {
                    let target = merge_step(
                        accv,
                        orders@[i as int].item@,
                        orders@[i as int].unit_price as int,
                        orders@[i as int].quantity as int,
                    );
                    assert(acc@ =~= accpre.update(j as int, merged));
                    assert forall|a: int| 0 <= a < acc@.len() implies orders_view(acc@)[a]
                        == merged_as_orders(target)[a] by {
                        if a != j as int {
                            assert(acc@[a] == accpre[a]);
                            assert(orders_view(accpre)[a] == merged_as_orders(accv)[a]);
                            assert(target[a] == accv[a]);
                        } else {
                            assert(acc@[a] == merged);
                            assert(prev == accpre[j as int]);
                            assert(orders_view(accpre)[j as int] == merged_as_orders(
                                accv,
                            )[j as int]);
                            assert(prev.item@ == accv[j as int].0);
                            assert(prev.unit_price as int == accv[j as int].1.0);
                            assert(prev.quantity as int == accv[j as int].1.1);
                        }
                    }
                    assert(orders_view(acc@) =~= merged_as_orders(target));
                }
            },
        }
        i += 1;
    }
    proof {
        assert(orders@.take(orders@.len() as int) =~= orders@);
    }
    acc
}

/// Inserting an element anywhere adds exactly it to a sequence's
/// multiset.
proof fn lemma_seq_insert_multiset<A>(s: Seq<A>, pos: int, x: A)
    requires
        0 <= pos <= s.len(),
    ensures
        s.insert(pos, x).to_multiset() == s.to_multiset().insert(x),
{
    broadcast use vstd::seq_lib::group_to_multiset_ensures;
    broadcast use vstd::multiset::group_multiset_axioms;
    broadcast use vstd::multiset::group_multiset_properties;

    let t = s.insert(pos, x);
    assert(t.remove(pos) =~= s);
    assert(t[pos] == x);
    assert(t.to_multiset().remove(x) =~= s.to_multiset());
    assert(t.contains(x)) by {
        assert(t[pos] == x);
    }
    assert(t.to_multiset().count(x) > 0);
    assert forall|y: A| #[trigger] t.to_multiset().count(y) == s.to_multiset().insert(x).count(
        y,
    ) by {
        if y == x {
            assert(t.to_multiset().remove(x).count(x) == t.to_multiset().count(x) - 1);
        } else {
            assert(t.to_multiset().remove(x).count(y) == t.to_multiset().count(y));
        }
    }
    assert(t.to_multiset() =~= s.to_multiset().insert(x));
}

/// Sorts a run of orders by item, keeping exactly the same orders.
fn sort_orders_by_item(v: Vec<Order>) -> (r: Vec<Order>)
    ensures
        r@.len() == v@.len(),
        orders_view(r@).to_multiset() == orders_view(v@).to_multiset(),
        sorted_by_item(r@),
{
    broadcast use vstd::seq_lib::group_to_multiset_ensures;

    let mut out: Vec<Order> = Vec::new();
    let mut i: usize = 0;
    proof {
        assert(orders_view(out@) =~= Seq::<(Seq<char>, int, int)>::empty());
        assert(orders_view(v@.take(0)) =~= Seq::<(Seq<char>, int, int)>::empty());
    }
    while i < v.len()
        invariant
            i <= v@.len(),
            out@.len() == i,
            orders_view(out@).to_multiset() == orders_view(v@.take(i as int)).to_multiset(),
            sorted_by_item(out@),
        decreases v@.len() - i,
    {
        broadcast use vstd::seq_lib::group_to_multiset_ensures;

        let x = Order {
            item: v[i].item.clone(),
            unit_price: v[i].unit_price,
            quantity: v[i].quantity,
        };
        proof {
            assert(x == v@[i as int]);
        }
        let mut pos: usize = 0;
        while pos < out.len() && str_lt(out[pos].item.as_str(), x.item.as_str())
            invariant
                pos <= out@.len(),
                forall|j: int| 0 <= j < pos ==> lex_lt((#[trigger] out@[j]).item@, x.item@),
            decreases out@.len() - pos,
        {
            pos += 1;
        }
        let ghost pre = out@;
        let ghost px = x;
        out.insert(pos, x);
        proof {
            let cur = out@;
            assert(cur == pre.insert(pos as int, px));
            assert forall|a: int, b: int| 0 <= a < b < cur.len() implies !lex_lt(
                (#[trigger] cur[b]).item@,
                (#[trigger] cur[a]).item@,
            ) by {
                if b < pos as int {
                    assert(cur[a] == pre[a] && cur[b] == pre[b]);
                } else if a > pos as int {
                    assert(cur[a] == pre[a - 1] && cur[b] == pre[b - 1]);
                } else if a == pos as int {
                    assert(cur[a] == px && cur[b] == pre[b - 1]);
                    if b - 1 > pos as int {
                        lemma_lex_le_trans(px.item@, pre[pos as int].item@, pre[b - 1].item@);
                    }
                } else if b == pos as int {
                    assert(cur[a] == pre[a] && cur[b] == px);
                    lemma_lex_connex(pre[a].item@, px.item@);
                } else {
                    assert(cur[a] == pre[a] && cur[b] == pre[b - 1]);
                    if b - 1 > pos as int {
                        lemma_lex_le_trans(px.item@, pre[pos as int].item@, pre[b - 1].item@);
                    }
                    lemma_lex_connex(pre[a].item@, px.item@);
                }
            }
            lemma_seq_insert_multiset(orders_view(pre), pos as int, order_view(px));
            assert(orders_view(cur) =~= orders_view(pre).insert(pos as int, order_view(px)));
            assert(orders_view(v@.take(i as int + 1)) =~= orders_view(v@.take(i as int)).push(
                order_view(v@[i as int]),
            ));
        }
        i += 1;
    }
    proof {
        assert(v@.take(v@.len() as int) =~= v@);
    }
    out
}

/// The first position of an item among built orders, if any.
fn find_item(acc: &Vec<Order>, item: &String) -> (r: Option<usize>)
    ensures
        match r {
            Some(j) => j < acc@.len() && acc@[j as int].item@ == item@ && forall|a: int|
                0 <= a < j ==> (#[trigger] acc@[a]).item@ != item@,
            None => forall|a: int| 0 <= a < acc@.len() ==> (#[trigger] acc@[a]).item@ != item@,
        },
{
    let mut j: usize = 0;
    while j < acc.len()
        invariant
            j <= acc@.len(),
            forall|a: int| 0 <= a < j ==> (#[trigger] acc@[a]).item@ != item@,
        decreases acc@.len() - j,
    {
        if acc[j].item.eq(item) {
            return Some(j);
        }
        j += 1;
    }
    None
}

/// An exec search over built orders finds the same position as the
/// specification's search over the accumulator.
proof fn lemma_find_matches(av: Seq<Order>, accv: Seq<(Seq<char>, (int, int))>, k: Seq<char>)
    requires
        orders_view(av) == merged_as_orders(accv),
        av.len() == accv.len(),
    ensures
        forall|j: int| 0 <= j < av.len() ==> (#[trigger] av[j]).item@ == accv[j].0,
{
    assert forall|j: int| 0 <= j < av.len() implies (#[trigger] av[j]).item@ == accv[j].0 by {
        assert(orders_view(av)[j] == merged_as_orders(accv)[j]);
    }
}


fn copied_strings(v: &Vec<String>) -> (r: Vec<String>)
    ensures
        crate::payments::str_views(r@) == crate::payments::str_views(v@),
{
    let mut r: Vec<String> = Vec::new();
    let mut i: usize = 0;
    while i < v.len()
        invariant
            i <= v@.len(),
            crate::payments::str_views(r@) =~= crate::payments::str_views(v@).take(i as int),
        decreases v@.len() - i,
    {
        let ghost pre = r@;
        r.push(v[i].clone());
        proof {
            assert(crate::payments::str_views(pre).len() == pre.len());
            assert(pre.len() == i);
            assert forall|a: int| 0 <= a < r@.len() implies crate::payments::str_views(r@)[a]
                == crate::payments::str_views(v@).take(i as int + 1)[a] by {
                if a < pre.len() {
                    assert(r@[a] == pre[a]);
                    assert(crate::payments::str_views(pre)[a] == crate::payments::str_views(
                        v@,
                    ).take(i as int)[a]);
                }
            }
            assert(crate::payments::str_views(r@) =~= crate::payments::str_views(v@).take(
                i as int + 1,
            ));
        }
        i += 1;
    }
    proof {
        assert(crate::payments::str_views(v@).take(v@.len() as int) =~= crate::payments::str_views(
            v@,
        ));
    }
    r
}

fn set_strings(set: &crate::payments::StringSet) -> (r: Vec<String>)
    ensures
        crate::payments::str_views(r@) == set.strs(),
{
    let mut r: Vec<String> = Vec::new();
    let mut i: usize = 0;
    while i < set.len()
        invariant
            i <= set.strs().len(),
            crate::payments::str_views(r@) =~= set.strs().take(i as int),
        decreases set.strs().len() - i,
    {
        let ghost pre = r@;
        r.push(set.get(i).clone());
        proof {
            assert(crate::payments::str_views(pre).len() == pre.len());
            assert(pre.len() == i);
            assert forall|a: int| 0 <= a < r@.len() implies crate::payments::str_views(r@)[a]
                == set.strs().take(i as int + 1)[a] by {
                if a < pre.len() {
                    assert(r@[a] == pre[a]);
                    assert(crate::payments::str_views(pre)[a] == set.strs().take(i as int)[a]);
                }
            }
            assert(crate::payments::str_views(r@) =~= set.strs().take(i as int + 1));
        }
        i += 1;
    }
    proof {
        assert(set.strs().take(set.strs().len() as int) =~= set.strs());
    }
    r
}

/// Whether the stored shape loads cleanly, looking only at the first `n`
/// payments: every date parses, no two payments share a parsed date,
/// every city, shop, method and item a payment names is in the stored
/// vocabulary, and no payment lists one item twice.
pub open spec fn loads_cleanly_to(j: AllPayments, n: int) -> bool {
    &&& forall|i: int|
        0 <= i < n ==> parse_datetime(
            (#[trigger] j.payments@[i]).date@,
            DEFAULT_FORMAT@,
        ) is Some
    &&& forall|i: int, i2: int|
        0 <= i < i2 < n ==> parse_datetime(
            (#[trigger] j.payments@[i]).date@,
            DEFAULT_FORMAT@,
        ) != parse_datetime((#[trigger] j.payments@[i2]).date@, DEFAULT_FORMAT@)
    &&& forall|i: int|
        0 <= i < n ==> {
            let p = #[trigger] j.payments@[i];
            &&& crate::payments::str_views(j.value_set.cities@).contains(p.city@)
            &&& crate::payments::str_views(j.value_set.shops@).contains(p.shop@)
            &&& crate::payments::str_views(j.value_set.methods@).contains(p.method@)
        }
    &&& forall|i: int, k: int|
        0 <= i < n && 0 <= k < j.payments@[i].orders@.len() ==> crate::payments::str_views(
            j.value_set.items@,
        ).contains((#[trigger] j.payments@[i].orders@[k]).item@)
    &&& forall|i: int, k1: int, k2: int|
        0 <= i < n && 0 <= k1 < k2 < j.payments@[i].orders@.len() ==> (
        #[trigger] j.payments@[i].orders@[k1]).item@ != (#[trigger] j.payments@[i].orders@[k2]).item@
}

/// Whether the built store holds a stored payment under its parsed date,
/// whereabouts and orders matching, orders in their stored run.
pub open spec fn built_payment_matches(a: AllPaymentsApi, p: Payment) -> bool {
    &&& parse_datetime(p.date@, DEFAULT_FORMAT@) matches Some(ts) && a.payments.spec_get(
        ts as int,
    ) matches Some(d) && {
        &&& d.payment_details.city@ == p.city@
        &&& d.payment_details.shop@ == p.shop@
        &&& d.payment_details.method@ == p.method@
        &&& d.orders.entries@.len() == p.orders@.len()
        &&& forall|k: int|
            0 <= k < p.orders@.len() ==> {
                let oe = #[trigger] d.orders.entries@[k];
                &&& oe.0.item@ == p.orders@[k].item@
                &&& oe.1.unit_price == p.orders@[k].unit_price
                &&& oe.1.quantity == p.orders@[k].quantity
            }
    }
}

impl AllPayments {
    /// Reads the legacy shape into a validated store: the vocabulary
    /// first, then each payment and its orders, every date parsed and
    /// every reference checked.  It succeeds exactly when the shape
    /// loads cleanly, and the store it builds holds every stored payment
    /// under its parsed date, orders in their stored run.
    pub fn to_api(&self) -> (r: Result<AllPaymentsApi, Error>)
        ensures
            r is Ok <==> loads_cleanly_to(*self, self.payments@.len() as int),
            r matches Ok(a) ==> {
                &&& a.wf()
                &&& a.value_set.cities.strs() == crate::payments::set_extend(
                    Seq::<Seq<char>>::empty(),
                    crate::payments::str_views(self.value_set.cities@),
                )
                &&& a.value_set.shops.strs() == crate::payments::set_extend(
                    Seq::<Seq<char>>::empty(),
                    crate::payments::str_views(self.value_set.shops@),
                )
                &&& a.value_set.methods.strs() == crate::payments::set_extend(
                    Seq::<Seq<char>>::empty(),
                    crate::payments::str_views(self.value_set.methods@),
                )
                &&& a.value_set.items.strs() == crate::payments::set_extend(
                    Seq::<Seq<char>>::empty(),
                    crate::payments::str_views(self.value_set.items@),
                )
                &&& a.payments.entries@.len() == self.payments@.len()
                &&& forall|i: int|
                    0 <= i < self.payments@.len() ==> built_payment_matches(
                        a,
                        #[trigger] self.payments@[i],
                    )
            },
    {
        let mut all_payments_api = AllPaymentsApi::new();
        let mut values_api = ValueSetApi::new();
        proof {
            assert(all_payments_api.value_set.cities.strs() =~= Seq::<Seq<char>>::empty());
            assert(all_payments_api.value_set.shops.strs() =~= Seq::<Seq<char>>::empty());
            assert(all_payments_api.value_set.methods.strs() =~= Seq::<Seq<char>>::empty());
            assert(all_payments_api.value_set.items.strs() =~= Seq::<Seq<char>>::empty());
            assert(values_api.cities.strs() =~= Seq::<Seq<char>>::empty());
            assert(values_api.shops.strs() =~= Seq::<Seq<char>>::empty());
            assert(values_api.methods.strs() =~= Seq::<Seq<char>>::empty());
            assert(values_api.items.strs() =~= Seq::<Seq<char>>::empty());
        }
        values_api.add_values(
            copied_strings(&self.value_set.cities),
            copied_strings(&self.value_set.shops),
            copied_strings(&self.value_set.methods),
            copied_strings(&self.value_set.items),
        );
        let ghost vs_snapshot = values_api;
        all_payments_api.add_values(values_api);
        let ghost fixed_values = all_payments_api.value_set;
        proof {
            let empty = Seq::<Seq<char>>::empty();
            assert forall|y: Seq<char>| !(#[trigger] empty.contains(y)) by {}
            crate::payments::lemma_set_extend_fresh(empty, vs_snapshot.cities.strs());
            crate::payments::lemma_set_extend_fresh(empty, vs_snapshot.shops.strs());
            crate::payments::lemma_set_extend_fresh(empty, vs_snapshot.methods.strs());
            crate::payments::lemma_set_extend_fresh(empty, vs_snapshot.items.strs());
            assert(empty + vs_snapshot.cities.strs() =~= vs_snapshot.cities.strs());
            assert(empty + vs_snapshot.shops.strs() =~= vs_snapshot.shops.strs());
            assert(empty + vs_snapshot.methods.strs() =~= vs_snapshot.methods.strs());
            assert(empty + vs_snapshot.items.strs() =~= vs_snapshot.items.strs());
            assert forall|t: int| !(#[trigger] all_payments_api.payments.has_key(t)) by {}
        }
        let n = self.payments.len();
        let mut i: usize = 0;
        while i < n
            invariant
                i <= n,
                n == self.payments@.len(),
                all_payments_api.wf(),
                all_payments_api.value_set == fixed_values,
                fixed_values.cities.strs() == crate::payments::set_extend(
                    Seq::<Seq<char>>::empty(),
                    crate::payments::str_views(self.value_set.cities@),
                ),
                fixed_values.shops.strs() == crate::payments::set_extend(
                    Seq::<Seq<char>>::empty(),
                    crate::payments::str_views(self.value_set.shops@),
                ),
                fixed_values.methods.strs() == crate::payments::set_extend(
                    Seq::<Seq<char>>::empty(),
                    crate::payments::str_views(self.value_set.methods@),
                ),
                fixed_values.items.strs() == crate::payments::set_extend(
                    Seq::<Seq<char>>::empty(),
                    crate::payments::str_views(self.value_set.items@),
                ),
                loads_cleanly_to(*self, i as int),
                all_payments_api.payments.entries@.len() == i,
                forall|a: int|
                    0 <= a < i ==> built_payment_matches(
                        all_payments_api,
                        #[trigger] self.payments@[a],
                    ),
                forall|t: int|
                    #[trigger] all_payments_api.payments.has_key(t) <==> exists|a: int|
                        0 <= a < i && (#[trigger] parse_datetime(
                            self.payments@[a].date@,
                            DEFAULT_FORMAT@,
                        )) is Some && t == parse_datetime(
                            self.payments@[a].date@,
                            DEFAULT_FORMAT@,
                        ).unwrap() as int,
            decreases n - i,
        {
            let payment = &self.payments[i];
            let date = match FakeUtcTime::parse_str(payment.date.as_str()) {
                Ok(d) => d,
                Err(e) => {
                    proof {
                        assert(!loads_cleanly_to(*self, self.payments@.len() as int));
                    }
                    return Err(e);
                },
            };
            let ghost ts = date.timestamp as int;
            let payid = PaymentIdApi::new(date);
            let paydetails = PaymentDetailApi::new(
                payment.city.clone(),
                payment.shop.clone(),
                payment.method.clone(),
            );
            proof {
                crate::payments::lemma_set_extend_contains(
                    Seq::<Seq<char>>::empty(),
                    crate::payments::str_views(self.value_set.cities@),
                    payment.city@,
                );
                crate::payments::lemma_set_extend_contains(
                    Seq::<Seq<char>>::empty(),
                    crate::payments::str_views(self.value_set.shops@),
                    payment.shop@,
                );
                crate::payments::lemma_set_extend_contains(
                    Seq::<Seq<char>>::empty(),
                    crate::payments::str_views(self.value_set.methods@),
                    payment.method@,
                );
            }
            let ghost api0 = all_payments_api;
            match all_payments_api.add_payment(payid, paydetails) {
                Ok(()) => {},
                Err(e) => {
                    proof {
                        assert(!loads_cleanly_to(*self, self.payments@.len() as int));
                    }
                    return Err(e);
                },
            }
            proof {
                assert forall|t: int| #[trigger] all_payments_api.payments.has_key(t) implies (t
                    == ts || api0.payments.has_key(t)) by {
                    if t != ts {
                        assert(all_payments_api.payments.spec_get(t) == api0.payments.spec_get(t));
                    }
                }
                assert forall|t: int|
                    t == ts || api0.payments.has_key(t) implies #[trigger] all_payments_api.payments.has_key(
                    t,
                ) by {
                    if t != ts {
                        assert(all_payments_api.payments.spec_get(t) == api0.payments.spec_get(t));
                    }
                }
                assert forall|a: int| 0 <= a < i implies built_payment_matches(
                    all_payments_api,
                    #[trigger] self.payments@[a],
                ) by {
                    let ta = parse_datetime(self.payments@[a].date@, DEFAULT_FORMAT@).unwrap()
                        as int;
                    assert(!api0.payments.has_key(ts));
                    assert(ta != ts);
                    assert(all_payments_api.payments.spec_get(ta) == api0.payments.spec_get(ta));
                }
            }
            let m = payment.orders.len();
            let mut k: usize = 0;
            while k < m
                invariant
                    k <= m,
                    m == payment.orders@.len(),
                    i < self.payments@.len(),
                    n == self.payments@.len(),
                    payment == self.payments@[i as int],
                    ts == date.timestamp as int,
                    parse_datetime(payment.date@, DEFAULT_FORMAT@) == Some(date.timestamp),
                    all_payments_api.wf(),
                    all_payments_api.value_set == fixed_values,
                    fixed_values.items.strs() == crate::payments::set_extend(
                        Seq::<Seq<char>>::empty(),
                        crate::payments::str_views(self.value_set.items@),
                    ),
                    loads_cleanly_to(*self, i as int),
                    all_payments_api.payments.entries@.len() == i + 1,
                    forall|a: int|
                        0 <= a < i ==> built_payment_matches(
                            all_payments_api,
                            #[trigger] self.payments@[a],
                        ),
                    forall|t: int|
                        #[trigger] all_payments_api.payments.has_key(t) <==> t == ts || exists|
                            a: int,
                        |
                            0 <= a < i && (#[trigger] parse_datetime(
                                self.payments@[a].date@,
                                DEFAULT_FORMAT@,
                            )) is Some && t == parse_datetime(
                                self.payments@[a].date@,
                                DEFAULT_FORMAT@,
                            ).unwrap() as int,
                    forall|a: int|
                        0 <= a < i ==> parse_datetime(
                            (#[trigger] self.payments@[a]).date@,
                            DEFAULT_FORMAT@,
                        ) != Some(date.timestamp),
                    ({
                        let d = all_payments_api.payments.spec_get(ts);
                        &&& d matches Some(dd)
                        &&& dd.payment_details.city@ == payment.city@
                        &&& dd.payment_details.shop@ == payment.shop@
                        &&& dd.payment_details.method@ == payment.method@
                        &&& dd.orders.entries@.len() == k
                        &&& forall|kk: int|
                            0 <= kk < k ==> {
                                let oe = #[trigger] dd.orders.entries@[kk];
                                &&& oe.0.item@ == payment.orders@[kk].item@
                                &&& oe.1.unit_price == payment.orders@[kk].unit_price
                                &&& oe.1.quantity == payment.orders@[kk].quantity
                            }
                    }),
                    forall|kk: int|
                        0 <= kk < k ==> crate::payments::str_views(self.value_set.items@).contains(
                            (#[trigger] payment.orders@[kk]).item@,
                        ),
                    forall|k1: int, k2: int|
                        0 <= k1 < k2 < k ==> (#[trigger] payment.orders@[k1]).item@ != (
                        #[trigger] payment.orders@[k2]).item@,
                decreases m - k,
            {
                let order = &payment.orders[k];
                let payid2 = PaymentIdApi::new(date);
                let orderid = OrderIdApi::new(order.item.clone());
                let orderdetails = OrderDetailApi::new(order.unit_price, order.quantity);
                proof {
                    crate::payments::lemma_set_extend_contains(
                        Seq::<Seq<char>>::empty(),
                        crate::payments::str_views(self.value_set.items@),
                        order.item@,
                    );
                    let dd = all_payments_api.payments.spec_get(ts).unwrap();
                    assert forall|x: Seq<char>| #[trigger] dd.orders.has_key(x) implies exists|
                        kk: int,
                    | 0 <= kk < k && (#[trigger] payment.orders@[kk]).item@ == x by {
                        if forall|j: int|
                            0 <= j < dd.orders.entries@.len() ==> (
                            #[trigger] dd.orders.entries@[j]).0.item@ != x {
                            crate::payments::lemma_order_lookup_absent(dd.orders.entries@, x);
                        } else {
                            let j = choose|j: int|
                                0 <= j < dd.orders.entries@.len() && (
                                #[trigger] dd.orders.entries@[j]).0.item@ == x;
                            assert(payment.orders@[j].item@ == x);
                        }
                    }
                    assert forall|kk: int|
                        0 <= kk < k implies #[trigger] dd.orders.has_key(
                        payment.orders@[kk].item@,
                    ) by {
                        crate::payments::lemma_order_lookup_at(
                            dd.orders.entries@,
                            payment.orders@[kk].item@,
                            kk,
                        );
                    }
                }
                let ghost api1 = all_payments_api;
                match all_payments_api.add_order(&payid2, orderid, orderdetails) {
                    Ok(()) => {},
                    Err(e) => {
                        proof {
                            assert(!loads_cleanly_to(*self, self.payments@.len() as int));
                        }
                        return Err(e);
                    },
                }
                proof {
                    assert forall|t: int| #[trigger] all_payments_api.payments.has_key(t) implies (
                    t == ts || api1.payments.has_key(t)) by {
                        if t != ts {
                            assert(all_payments_api.payments.spec_get(t) == api1.payments.spec_get(
                                t,
                            ));
                        }
                    }
                    assert forall|t: int|
                        t == ts || api1.payments.has_key(t) implies #[trigger] all_payments_api.payments.has_key(
                        t,
                    ) by {
                        if t != ts {
                            assert(all_payments_api.payments.spec_get(t) == api1.payments.spec_get(
                                t,
                            ));
                        }
                    }
                    assert forall|a: int| 0 <= a < i implies built_payment_matches(
                        all_payments_api,
                        #[trigger] self.payments@[a],
                    ) by {
                        let ta = parse_datetime(self.payments@[a].date@, DEFAULT_FORMAT@).unwrap()
                            as int;
                        assert(ta != ts);
                        assert(all_payments_api.payments.spec_get(ta) == api1.payments.spec_get(
                            ta,
                        ));
                    }
                }
                k += 1;
            }
            proof {
                assert(built_payment_matches(all_payments_api, self.payments@[i as int]));
                assert(loads_cleanly_to(*self, i as int + 1));
            }
            i += 1;
        }
        proof {
            assert(loads_cleanly_to(*self, self.payments@.len() as int));
        }
        Ok(all_payments_api)
    }

    /// Writes a validated store in the legacy shape: the vocabulary in
    /// its stored order and one record per payment, dates as calendar
    /// text.  It fails exactly when some date cannot be written.
    pub fn from_api(self_api: &AllPaymentsApi) -> (r: Result<AllPayments, Error>)
        requires
            self_api.wf(),
        ensures
            ({
                let entries = self_api.payments.entries@;
                &&& (r is Ok <==> forall|i: int|
                    0 <= i < entries.len() ==> format_datetime(
                        (#[trigger] entries[i]).0.date.timestamp as int,
                        DEFAULT_FORMAT@,
                    ) is Some)
                &&& (r matches Err(e) ==> e matches Error::TimeFormatFailed(_))
                &&& (r matches Ok(j) ==> {
                    &&& crate::payments::str_views(j.value_set.cities@)
                        == self_api.value_set.cities.strs()
                    &&& crate::payments::str_views(j.value_set.shops@)
                        == self_api.value_set.shops.strs()
                    &&& crate::payments::str_views(j.value_set.methods@)
                        == self_api.value_set.methods.strs()
                    &&& crate::payments::str_views(j.value_set.items@)
                        == self_api.value_set.items.strs()
                    &&& j.payments@.len() == entries.len()
                    &&& forall|i: int|
                        0 <= i < entries.len() ==> {
                            let p = #[trigger] j.payments@[i];
                            let e = entries[i];
                            &&& Some(p.date@) == format_datetime(
                                e.0.date.timestamp as int,
                                DEFAULT_FORMAT@,
                            )
                            &&& p.city@ == e.1.payment_details.city@
                            &&& p.shop@ == e.1.payment_details.shop@
                            &&& p.method@ == e.1.payment_details.method@
                            &&& p.orders@.len() == e.1.orders.entries@.len()
                            &&& forall|k: int|
                                0 <= k < e.1.orders.entries@.len() ==> {
                                    let o = #[trigger] p.orders@[k];
                                    let oe = e.1.orders.entries@[k];
                                    o.item@ == oe.0.item@ && o.unit_price == oe.1.unit_price
                                        && o.quantity == oe.1.quantity
                                }
                        }
                })
            }),
    {
        let values = ValueSet {
            cities: set_strings(self_api.value_set.cities()),
            shops: set_strings(self_api.value_set.shops()),
            methods: set_strings(self_api.value_set.methods()),
            items: set_strings(self_api.value_set.items()),
        };
        let ghost entries = self_api.payments.entries@;
        let mut payments: Vec<Payment> = Vec::new();
        let n = self_api.payments.len();
        let mut i: usize = 0;
        while i < n
            invariant
                i <= n,
                n == entries.len(),
                entries == self_api.payments.entries@,
                self_api.wf(),
                payments@.len() == i,
                forall|a: int|
                    0 <= a < i ==> format_datetime(
                        (#[trigger] entries[a]).0.date.timestamp as int,
                        DEFAULT_FORMAT@,
                    ) is Some,
                forall|a: int|
                    0 <= a < i ==> {
                        let p = #[trigger] payments@[a];
                        let e = entries[a];
                        &&& Some(p.date@) == format_datetime(
                            e.0.date.timestamp as int,
                            DEFAULT_FORMAT@,
                        )
                        &&& p.city@ == e.1.payment_details.city@
                        &&& p.shop@ == e.1.payment_details.shop@
                        &&& p.method@ == e.1.payment_details.method@
                        &&& p.orders@.len() == e.1.orders.entries@.len()
                        &&& forall|k: int|
                            0 <= k < e.1.orders.entries@.len() ==> {
                                let o = #[trigger] p.orders@[k];
                                let oe = e.1.orders.entries@[k];
                                o.item@ == oe.0.item@ && o.unit_price == oe.1.unit_price
                                    && o.quantity == oe.1.quantity
                            }
                    },
            decreases n - i,
        {
            let (payid, detail) = self_api.payments.get_pair(i);
            let date = match payid.date().format_str() {
                Ok(d) => d,
                Err(e) => {
                    return Err(e);
                },
            };
            let mut orders: Vec<Order> = Vec::new();
            let m = detail.orders().len();
            let mut k: usize = 0;
            while k < m
                invariant
                    k <= m,
                    m == entries[i as int].1.orders.entries@.len(),
                    i < entries.len(),
                    entries == self_api.payments.entries@,
                    detail == entries[i as int].1,
                    orders@.len() == k,
                    forall|b: int|
                        0 <= b < k ==> {
                            let o = #[trigger] orders@[b];
                            let oe = entries[i as int].1.orders.entries@[b];
                            o.item@ == oe.0.item@ && o.unit_price == oe.1.unit_price
                                && o.quantity == oe.1.quantity
                        },
                decreases m - k,
            {
                let (oid, od) = detail.orders().get_pair(k);
                orders.push(
                    Order {
                        item: oid.item().clone(),
                        unit_price: od.unit_price,
                        quantity: od.quantity,
                    },
                );
                k += 1;
            }
            payments.push(
                Payment {
                    date,
                    city: detail.payment_details().city().clone(),
                    method: detail.payment_details().method().clone(),
                    shop: detail.payment_details().shop().clone(),
                    orders,
                },
            );
            i += 1;
        }
        Ok(AllPayments { value_set: values, payments })
    }
}

} // verus!
