//! The earlier, simpler form of the payment store: whole payments with
//! their orders inline, duplicates told apart by date, and a vocabulary
//! grown one element at a time.

use vstd::prelude::*;

verus! {

use crate::payments::StringSet;

/// One vocabulary entry, tagged with the set it belongs to.
#[derive(Debug, PartialEq, Eq, Hash, Clone, PartialOrd, Ord)]
pub enum Element {
    City(String),
    Shop(String),
    Method(String),
    Item(String),
}

/// An element as the contracts see it: which set it belongs to, and its
/// text.
pub open spec fn elem_view(e: Element) -> (int, Seq<char>) {
    match e {
        Element::City(s) => (0int, s@),
        Element::Shop(s) => (1int, s@),
        Element::Method(s) => (2int, s@),
        Element::Item(s) => (3int, s@),
    }
}

fn elem_eq(a: &Element, b: &Element) -> (r: bool)
    ensures
        r == (elem_view(*a) == elem_view(*b)),
{
    match (a, b) {
        (Element::City(x), Element::City(y)) => x.eq(y),
        (Element::Shop(x), Element::Shop(y)) => x.eq(y),
        (Element::Method(x), Element::Method(y)) => x.eq(y),
        (Element::Item(x), Element::Item(y)) => x.eq(y),
        _ => false,
    }
}

/// A set of vocabulary entries, each held once, in insertion order.
#[derive(Debug, PartialEq, Eq, Clone)]
pub struct Elements {
    pub items: Vec<Element>,
}

impl Elements {
    /// The member elements, as the contracts see them.
    pub open spec fn views(self) -> Seq<(int, Seq<char>)> {
        self.items@.map_values(|e: Element| elem_view(e))
    }

    /// No element occurs twice.
    pub open spec fn wf(self) -> bool {
        forall|i: int, j: int|
            0 <= i < j < self.views().len() ==> self.views()[i] != self.views()[j]
    }

    /// Membership.
    pub open spec fn has(self, v: (int, Seq<char>)) -> bool {
        self.views().contains(v)
    }

    /// The empty set.
    pub fn new() -> (r: Elements)
        ensures
            r.views() =~= Seq::<(int, Seq<char>)>::empty(),
            r.wf(),
    {
        Elements { items: Vec::new() }
    }

    /// Whether an element is a member.
    pub fn contains(&self, e: &Element) -> (r: bool)
        ensures
            r == self.has(elem_view(*e)),
    {
        let mut i: usize = 0;
        while i < self.items.len()
            invariant
                i <= self.items@.len(),
                forall|j: int| 0 <= j < i ==> self.views()[j] != elem_view(*e),
            decreases self.items@.len() - i,
        {
            if elem_eq(&self.items[i], e) {
                assert(self.views()[i as int] == elem_view(*e));
                return true;
            }
            i += 1;
        }
        false
    }

    /// Adds an element unless it is already a member; reports whether it
    /// was added.
    pub fn insert(&mut self, e: Element) -> (r: bool)
        requires
            old(self).wf(),
        ensures
            final(self).wf(),
            r == !old(self).has(elem_view(e)),
            r ==> final(self).views() == old(self).views().push(elem_view(e)),
            !r ==> *final(self) == *old(self),
            forall|y: (int, Seq<char>)|
                #[trigger] final(self).has(y) <==> old(self).has(y) || y == elem_view(e),
    {
        if self.contains(&e) {
            false
        } else {
            let ghost pre = self.items@;
            self.items.push(e);
            proof {
                let prev = pre.map_values(|x: Element| elem_view(x));
                assert(self.views() =~= prev.push(self.views()[pre.len() as int]));
                assert forall|y: (int, Seq<char>)| #[trigger] self.views().contains(
                    y,
                ) implies prev.contains(y) || y == elem_view(e) by {
                    let j = choose|j: int| 0 <= j < self.views().len() && self.views()[j] == y;
                    if j < prev.len() {
                        assert(prev[j] == y);
                    }
                }
                assert forall|y: (int, Seq<char>)| prev.contains(y) implies #[trigger] self.views().contains(
                    y,
                ) by {
                    let j = choose|j: int| 0 <= j < prev.len() && prev[j] == y;
                    assert(self.views()[j] == y);
                }
                assert(self.views().contains(elem_view(e))) by {
                    assert(self.views()[prev.len() as int] == elem_view(e));
                }
            }
            true
        }
    }

    /// Whether the set has no member.
    pub fn is_empty(&self) -> (r: bool)
        ensures
            r == (self.views().len() == 0),
    {
        self.items.len() == 0
    }

    /// How many members the set has.
    pub fn len(&self) -> (r: usize)
        ensures
            r == self.views().len(),
    {
        self.items.len()
    }
}

/// What can go wrong when this store is edited or loaded.
#[derive(Debug)]
pub enum PaymentError {
    Generic(String),
    MissingElements(Elements),
    DuplicatedElements(Elements),
    DuplicatedPayment(Payment),
    DuplicatedOrder(Order),
}

/// The vocabulary the store validates against.
#[derive(Debug, PartialEq, Eq, Clone)]
pub struct ValueSet {
    pub cities: StringSet,
    pub shops: StringSet,
    pub methods: StringSet,
    pub items: StringSet,
}

impl ValueSet {
    /// All four sets hold each string once.
    pub open spec fn wf(self) -> bool {
        self.cities.wf() && self.shops.wf() && self.methods.wf() && self.items.wf()
    }
}

/// One order of a payment: an item, its unit price in cents, and a
/// quantity.
#[derive(Debug, PartialEq, Eq, Clone)]
pub struct Order {
    pub unit_price: u32,
    pub quantity: u32,
    pub item: String,
}

/// An order's price: unit price times quantity, saturating at
/// `u32::MAX`.
pub open spec fn order_price(o: Order) -> int {
    if o.unit_price * o.quantity > u32::MAX {
        u32::MAX as int
    } else {
        o.unit_price * o.quantity
    }
}

/// The total of a run of orders, saturating at `u32::MAX`.
pub open spec fn orders_sum(os: Seq<Order>) -> int
    decreases os.len(),
{
    if os.len() == 0 {
        0
    } else {
        let t = orders_sum(os.drop_last()) + order_price(os.last());
        if t > u32::MAX {
            u32::MAX as int
        } else {
            t
        }
    }
}

impl Order {
    /// Bundles an order.
    pub fn new(unit_price: u32, quantity: u32, item: &str) -> (r: Order)
        ensures
            r.unit_price == unit_price,
            r.quantity == quantity,
            r.item@ == item@,
    {
        Order { unit_price, quantity, item: item.to_owned() }
    }

    /// The elements of the vocabulary this order needs and does not find:
    /// its item, or nothing.
    pub fn validate(&self, value_set: &ValueSet) -> (r: Elements)
        ensures
            r.wf(),
            value_set.items.has(self.item@) ==> r.views().len() == 0,
            !value_set.items.has(self.item@) ==> r.views() == seq![(3int, self.item@)],
    {
        let mut missing_elements = Elements::new();
        if !value_set.items.contains(&self.item) {
            missing_elements.insert(Element::Item(self.item.clone()));
            proof {
                assert(missing_elements.views() =~= seq![(3int, self.item@)]);
            }
        }
        missing_elements
    }

    /// The unit price, in cents.
    pub fn get_unitprice(&self) -> (r: u32)
        ensures
            r == self.unit_price,
    {
        self.unit_price
    }

    /// The quantity bought.
    pub fn get_quantity(&self) -> (r: u32)
        ensures
            r == self.quantity,
    {
        self.quantity
    }

    /// The item bought.
    pub fn get_item(&self) -> (r: &str)
        ensures
            r@ == self.item@,
    {
        self.item.as_str()
    }

    /// The order's price: unit price times quantity, saturating at
    /// `u32::MAX`.
    pub fn calculate_price(&self) -> (r: u32)
        ensures
            r == order_price(*self),
    {
        proof {
            vstd::arithmetic::mul::lemma_mul_nonnegative(
                self.unit_price as int,
                self.quantity as int,
            );
            vstd::arithmetic::mul::lemma_mul_upper_bound(
                self.unit_price as int,
                u32::MAX as int,
                self.quantity as int,
                u32::MAX as int,
            );
        }
        let t = (self.unit_price as u64) * (self.quantity as u64);
        if t > u32::MAX as u64 {
            u32::MAX
        } else {
            t as u32
        }
    }
}

/// One payment: where and how it was made, its date as a plain seconds
/// count, and its orders.
#[derive(Debug, PartialEq, Eq, Clone)]
pub struct Payment {
    pub city: String,
    pub method: String,
    pub shop: String,
    pub date: i64,
    pub orders: Vec<Order>,
}

impl Payment {
    /// A payment without orders.
    pub fn new(city: &str, shop: &str, method: &str, date: i64) -> (r: Payment)
        ensures
            r.city@ == city@,
            r.shop@ == shop@,
            r.method@ == method@,
            r.date == date,
            r.orders@.len() == 0,
    {
        Payment {
            city: city.to_owned(),
            method: method.to_owned(),
            shop: shop.to_owned(),
            date,
            orders: Vec::new(),
        }
    }

    /// A payment with its orders, as a loader builds it.
    pub fn from_parts(city: &str, shop: &str, method: &str, date: i64, orders: Vec<Order>) -> (r:
        Payment)
        ensures
            r.city@ == city@,
            r.shop@ == shop@,
            r.method@ == method@,
            r.date == date,
            r.orders == orders,
    {
        Payment {
            city: city.to_owned(),
            method: method.to_owned(),
            shop: shop.to_owned(),
            date,
            orders,
        }
    }

    /// Whether the payment's whereabouts are all in the vocabulary.
    pub open spec fn whereabouts_known(self, vs: ValueSet) -> bool {
        vs.cities.has(self.city@) && vs.shops.has(self.shop@) && vs.methods.has(self.method@)
    }

    /// The elements of the vocabulary this payment needs and does not
    /// find: its city, shop and method, whichever are missing.
    pub fn validate(&self, value_set: &ValueSet) -> (r: Elements)
        ensures
            r.wf(),
            (r.views().len() == 0) == self.whereabouts_known(*value_set),
            r.has((0int, self.city@)) == !value_set.cities.has(self.city@),
            r.has((1int, self.shop@)) == !value_set.shops.has(self.shop@),
            r.has((2int, self.method@)) == !value_set.methods.has(self.method@),
    {
        let mut missing_elements = Elements::new();
        if !value_set.cities.contains(&self.city) {
            missing_elements.insert(Element::City(self.city.clone()));
        }
        if !value_set.shops.contains(&self.shop) {
            missing_elements.insert(Element::Shop(self.shop.clone()));
        }
        if !value_set.methods.contains(&self.method) {
            missing_elements.insert(Element::Method(self.method.clone()));
        }
        missing_elements
    }

    /// The city paid in.
    pub fn get_city(&self) -> (r: &str)
        ensures
            r@ == self.city@,
    {
        self.city.as_str()
    }

    /// The payment method used.
    pub fn get_method(&self) -> (r: &str)
        ensures
            r@ == self.method@,
    {
        self.method.as_str()
    }

    /// The shop paid at.
    pub fn get_shop(&self) -> (r: &str)
        ensures
            r@ == self.shop@,
    {
        self.shop.as_str()
    }

    /// The payment's date, as plain seconds.
    pub fn get_date(&self) -> (r: i64)
        ensures
            r == self.date,
    {
        self.date
    }

    /// The payment's orders.
    pub fn get_orders(&self) -> (r: &Vec<Order>)
        ensures
            r == self.orders,
    {
        &self.orders
    }

    /// The payment's total: its orders' prices summed, saturating at
    /// `u32::MAX`.
    pub fn calculate_total_price(&self) -> (r: u32)
        ensures
            r == orders_sum(self.orders@),
    {
        let mut acc: u32 = 0;
        let mut i: usize = 0;
        while i < self.orders.len()
            invariant
                i <= self.orders@.len(),
                acc == orders_sum(self.orders@.take(i as int)),
            decreases self.orders@.len() - i,
        {
            let p = self.orders[i].calculate_price();
            proof {
                assert(self.orders@.take(i + 1).drop_last() =~= self.orders@.take(i as int));
            }
            let t = acc as u64 + p as u64;
            acc = if t > u32::MAX as u64 {
                u32::MAX
            } else {
                t as u32
            };
            i += 1;
        }
        proof {
            assert(self.orders@.take(self.orders@.len() as int) =~= self.orders@);
        }
        acc
    }
}

/// The payment stored under a date in a run of payments.
pub open spec fn basic_lookup(ps: Seq<Payment>, date: int) -> Option<Payment>
    decreases ps.len(),
{
    if ps.len() == 0 {
        None
    } else if ps.last().date == date {
        Some(ps.last())
    } else {
        basic_lookup(ps.drop_last(), date)
    }
}

proof fn lemma_basic_lookup_at(ps: Seq<Payment>, date: int, i: int)
    requires
        forall|a: int, b: int| 0 <= a < b < ps.len() ==> ps[a].date < ps[b].date,
        0 <= i < ps.len(),
        ps[i].date == date,
    ensures
        basic_lookup(ps, date) == Some(ps[i]),
    decreases ps.len(),
{
    if i < ps.len() - 1 {
        lemma_basic_lookup_at(ps.drop_last(), date, i);
    }
}

proof fn lemma_basic_lookup_absent(ps: Seq<Payment>, date: int)
    requires
        forall|a: int| 0 <= a < ps.len() ==> ps[a].date != date,
    ensures
        basic_lookup(ps, date) == None::<Payment>,
    decreases ps.len(),
{
    if ps.len() > 0 {
        lemma_basic_lookup_absent(ps.drop_last(), date);
    }
}

/// Whether position `a` of the listed elements meets a duplicate when it
/// is folded in: its element is already in its set, or listed earlier.
pub open spec fn duplicated_at(vs: ValueSet, xs: Seq<Element>, a: int) -> bool {
    element_present(vs, xs[a]) || exists|j: int| 0 <= j < a && elem_view(xs[j]) == elem_view(xs[a])
}

/// Whether folding `elements` into the store would meet a duplicate: one
/// already in its set, or listed twice.
pub open spec fn some_element_duplicated(vs: ValueSet, xs: Seq<Element>) -> bool {
    exists|i: int| 0 <= i < xs.len() && #[trigger] duplicated_at(vs, xs, i)
}

/// Whether an element's text is already in its set.
pub open spec fn element_present(vs: ValueSet, e: Element) -> bool {
    match e {
        Element::City(s) => vs.cities.has(s@),
        Element::Shop(s) => vs.shops.has(s@),
        Element::Method(s) => vs.methods.has(s@),
        Element::Item(s) => vs.items.has(s@),
    }
}

/// The whole store: the vocabulary and the payments, kept sorted by
/// date, one payment per date.
#[derive(Debug, PartialEq, Eq, Clone)]
pub struct AllPayments {
    pub value_set: ValueSet,
    pub payments: Vec<Payment>,
}

impl AllPayments {
    /// The vocabulary is well-formed and the dates strictly increase.
    pub open spec fn wf(self) -> bool {
        &&& self.value_set.wf()
        &&& forall|a: int, b: int|
            0 <= a < b < self.payments@.len() ==> self.payments@[a].date < self.payments@[b].date
    }

    /// The payment under a date, if any.
    pub open spec fn spec_get(self, date: int) -> Option<Payment> {
        basic_lookup(self.payments@, date)
    }

    /// An empty store.
    pub fn new() -> (r: AllPayments)
        ensures
            r.wf(),
            r.payments@.len() == 0,
            r.value_set.cities.strs().len() == 0,
            r.value_set.shops.strs().len() == 0,
            r.value_set.methods.strs().len() == 0,
            r.value_set.items.strs().len() == 0,
    {
        AllPayments {
            value_set: ValueSet {
                cities: StringSet::new(),
                shops: StringSet::new(),
                methods: StringSet::new(),
                items: StringSet::new(),
            },
            payments: Vec::new(),
        }
    }

    /// Grows the vocabulary; every listed element ends up present, and a
    /// duplicate is reported: the reported set holds exactly the elements
    /// that were already in their set, or listed earlier, when their turn
    /// came.
    pub fn add_elements(&mut self, elements: &[Element]) -> (r: Option<PaymentError>)
        requires
            old(self).wf(),
        ensures
            final(self).wf(),
            final(self).payments == old(self).payments,
            forall|i: int|
                0 <= i < elements@.len() ==> element_present(
                    final(self).value_set,
                    #[trigger] elements@[i],
                ),
            (r is Some) == some_element_duplicated(old(self).value_set, elements@),
            r matches Some(e) ==> e matches PaymentError::DuplicatedElements(d) && d.wf() && (
            forall|v: (int, Seq<char>)|
                #[trigger] d.has(v) <==> exists|a: int|
                    0 <= a < elements@.len() && elem_view(#[trigger] elements@[a]) == v
                        && duplicated_at(old(self).value_set, elements@, a)),
    {
        let ghost xs = elements@;
        let mut duplicates = Elements::new();
        let mut any_dup = false;
        let mut i: usize = 0;
        while i < elements.len()
            invariant
                i <= xs.len(),
                xs == elements@,
                self.wf(),
                self.payments == old(self).payments,
                duplicates.wf(),
                any_dup == exists|a: int| 0 <= a < i && #[trigger] duplicated_at(
                    old(self).value_set,
                    xs,
                    a,
                ),
                forall|v: (int, Seq<char>)|
                    #[trigger] duplicates.has(v) <==> exists|a: int|
                        0 <= a < i && elem_view(#[trigger] xs[a]) == v && duplicated_at(
                            old(self).value_set,
                            xs,
                            a,
                        ),
                forall|a: int|
                    0 <= a < i ==> element_present(self.value_set, #[trigger] xs[a]),
                forall|y: Seq<char>|
                    #[trigger] self.value_set.cities.has(y) <==> old(self).value_set.cities.has(y)
                        || exists|a: int|
                        0 <= a < i && elem_view(#[trigger] xs[a]) == (0int, y),
                forall|y: Seq<char>|
                    #[trigger] self.value_set.shops.has(y) <==> old(self).value_set.shops.has(y)
                        || exists|a: int|
                        0 <= a < i && elem_view(#[trigger] xs[a]) == (1int, y),
                forall|y: Seq<char>|
                    #[trigger] self.value_set.methods.has(y) <==> old(self).value_set.methods.has(
                        y,
                    ) || exists|a: int|
                        0 <= a < i && elem_view(#[trigger] xs[a]) == (2int, y),
                forall|y: Seq<char>|
                    #[trigger] self.value_set.items.has(y) <==> old(self).value_set.items.has(y)
                        || exists|a: int|
                        0 <= a < i && elem_view(#[trigger] xs[a]) == (3int, y),
            decreases xs.len() - i,
        {
            let e = &elements[i];
            let fresh: bool = match e {
                Element::City(s) => self.value_set.cities.insert(s.clone()),
                Element::Shop(s) => self.value_set.shops.insert(s.clone()),
                Element::Method(s) => self.value_set.methods.insert(s.clone()),
                Element::Item(s) => self.value_set.items.insert(s.clone()),
            };
            if !fresh {
                duplicates.insert(match e {
                    Element::City(s) => Element::City(s.clone()),
                    Element::Shop(s) => Element::Shop(s.clone()),
                    Element::Method(s) => Element::Method(s.clone()),
                    Element::Item(s) => Element::Item(s.clone()),
                });
                any_dup = true;
            }
            proof {
                let vi = elem_view(xs[i as int]);
                if !fresh {
                    assert(duplicated_at(old(self).value_set, xs, i as int));
                } else {
                    assert(!duplicated_at(old(self).value_set, xs, i as int));
                }
                assert(element_present(self.value_set, xs[i as int]));
                assert forall|v: (int, Seq<char>)|
                    #[trigger] duplicates.has(v) implies exists|a: int|
                        0 <= a < i + 1 && elem_view(#[trigger] xs[a]) == v && duplicated_at(
                            old(self).value_set,
                            xs,
                            a,
                        ) by {}
                assert forall|v: (int, Seq<char>)|
                    (exists|a: int|
                        0 <= a < i + 1 && elem_view(#[trigger] xs[a]) == v && duplicated_at(
                            old(self).value_set,
                            xs,
                            a,
                        )) implies #[trigger] duplicates.has(v) by {
                    let a = choose|a: int|
                        0 <= a < i + 1 && elem_view(#[trigger] xs[a]) == v && duplicated_at(
                            old(self).value_set,
                            xs,
                            a,
                        );
                    if a == i as int {
                        assert(!fresh);
                    }
                }
            }
            i += 1;
        }
        if any_dup {
            Some(PaymentError::DuplicatedElements(duplicates))
        } else {
            None
        }
    }

    /// Records a payment: a date already used is a duplicate, unknown
    /// whereabouts are missing elements; otherwise it is stored under its
    /// date.
    pub fn add_payment(&mut self, payment: Payment) -> (r: Result<(), PaymentError>)
        requires
            old(self).wf(),
        ensures
            final(self).wf(),
            final(self).value_set == old(self).value_set,
            ({
                if old(self).spec_get(payment.date as int) is Some {
                    (r matches Err(e) && e matches PaymentError::DuplicatedPayment(_)) && *final(self) == *old(self)
                } else if !payment.whereabouts_known(old(self).value_set) {
                    (r matches Err(e) && e matches PaymentError::MissingElements(_)) && *final(self) == *old(self)
                } else {
                    &&& r matches Ok(u)
                    &&& final(self).spec_get(payment.date as int) == Some(payment)
                    &&& forall|d: int|
                        d != payment.date ==> #[trigger] final(self).spec_get(d) == old(self).spec_get(d)
                }
            }),
    {
        let mut pos: usize = 0;
        let mut dup = false;
        while pos < self.payments.len() && !dup && self.payments[pos].date < payment.date
            invariant
                pos <= self.payments@.len(),
                self.wf(),
                forall|j: int| 0 <= j < pos ==> self.payments@[j].date < payment.date,
                dup == false,
            decreases self.payments@.len() - pos,
        {
            pos += 1;
        }
        if pos < self.payments.len() && self.payments[pos].date == payment.date {
            proof {
                lemma_basic_lookup_at(self.payments@, payment.date as int, pos as int);
            }
            return Err(PaymentError::DuplicatedPayment(payment));
        }
        proof {
            assert forall|j: int| pos <= j < self.payments@.len() implies self.payments@[j].date
                > payment.date by {
                if j > pos {
                    assert(self.payments@[pos as int].date < self.payments@[j].date);
                }
            }
            lemma_basic_lookup_absent(self.payments@, payment.date as int);
        }
        let missing_elements = payment.validate(&self.value_set);
        if !missing_elements.is_empty() {
            return Err(PaymentError::MissingElements(missing_elements));
        }
        let ghost pre = self.payments@;
        self.payments.insert(pos, payment);
        proof {
            let cur = self.payments@;
            assert forall|a: int, b: int| 0 <= a < b < cur.len() implies cur[a].date
                < cur[b].date by {
                if a == pos as int {
                    assert(cur[b] == pre[b - 1]);
                } else if b == pos as int {
                    assert(cur[a] == pre[a]);
                } else if b < pos as int {
                    assert(cur[a] == pre[a] && cur[b] == pre[b]);
                } else if a < pos as int {
                    assert(cur[a] == pre[a] && cur[b] == pre[b - 1]);
                } else {
                    assert(cur[a] == pre[a - 1] && cur[b] == pre[b - 1]);
                }
            }
            lemma_basic_lookup_at(cur, payment.date as int, pos as int);
            assert forall|d: int|
                d != payment.date implies #[trigger] basic_lookup(cur, d) == basic_lookup(
                pre,
                d,
            ) by {
                assert(cur.remove(pos as int) =~= pre);
                lemma_basic_lookup_remove(cur, pos as int, d);
            }
        }
        Ok(())
    }

    /// The payments on record, sorted by date.
    pub fn get_payments(&self) -> (r: &Vec<Payment>)
        ensures
            r == self.payments,
    {
        &self.payments
    }

    /// Whether a payment and its orders are fully covered by the
    /// vocabulary.
    pub open spec fn payment_clean(p: Payment, vs: ValueSet) -> bool {
        p.whereabouts_known(vs) && forall|j: int|
            0 <= j < p.orders@.len() ==> vs.items.has(#[trigger] p.orders@[j].item@)
    }

    /// The elements the recorded payments need and do not find; empty
    /// exactly when everything validates.
    pub fn validate(&self) -> (r: Elements)
        ensures
            r.wf(),
            (r.views().len() == 0) == (forall|i: int|
                0 <= i < self.payments@.len() ==> AllPayments::payment_clean(
                    #[trigger] self.payments@[i],
                    self.value_set,
                )),
    {
        let mut missing = Elements::new();
        let mut i: usize = 0;
        while i < self.payments.len()
            invariant
                i <= self.payments@.len(),
                missing.wf(),
                (missing.views().len() == 0) == (forall|a: int|
                    0 <= a < i ==> AllPayments::payment_clean(
                        #[trigger] self.payments@[a],
                        self.value_set,
                    )),
            decreases self.payments@.len() - i,
        {
            let p = &self.payments[i];
            if !self.value_set.cities.contains(&p.city) {
                missing.insert(Element::City(p.city.clone()));
            }
            if !self.value_set.shops.contains(&p.shop) {
                missing.insert(Element::Shop(p.shop.clone()));
            }
            if !self.value_set.methods.contains(&p.method) {
                missing.insert(Element::Method(p.method.clone()));
            }
            let mut j: usize = 0;
            while j < p.orders.len()
                invariant
                    j <= p.orders@.len(),
                    missing.wf(),
                    (missing.views().len() == 0) == ((forall|a: int|
                        0 <= a < i ==> AllPayments::payment_clean(
                            #[trigger] self.payments@[a],
                            self.value_set,
                        )) && self.payments@[i as int].whereabouts_known(self.value_set) && (
                    forall|b: int|
                        0 <= b < j ==> self.value_set.items.has(
                            #[trigger] self.payments@[i as int].orders@[b].item@,
                        ))),
                    i < self.payments@.len(),
                    p == self.payments@[i as int],
                decreases p.orders@.len() - j,
            {
                if !self.value_set.items.contains(&p.orders[j].item) {
                    missing.insert(Element::Item(p.orders[j].item.clone()));
                }
                j += 1;
            }
            i += 1;
        }
        missing
    }
}

proof fn lemma_basic_lookup_remove(pre: Seq<Payment>, i: int, d: int)
    requires
        0 <= i < pre.len(),
        d != pre[i].date,
    ensures
        basic_lookup(pre.remove(i), d) == basic_lookup(pre, d),
    decreases pre.len(),
{
    let cur = pre.remove(i);
    if i == pre.len() - 1 {
        assert(cur =~= pre.drop_last());
    } else {
        assert(cur.last() == pre.last());
        assert(cur.drop_last() =~= pre.drop_last().remove(i));
        if pre.last().date != d {
            lemma_basic_lookup_remove(pre.drop_last(), i, d);
        }
    }
}

} // verus!
