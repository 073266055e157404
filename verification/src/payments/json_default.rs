//! The plain file shape of the store: field names as the structs spell
//! them, dates as plain seconds.  Reading and writing the actual JSON
//! text is the embedding program's job; the library holds the shape.

use vstd::prelude::*;

verus! {

/// The vocabulary, as stored.
#[derive(Debug, PartialEq, Eq, Clone)]
pub struct ValueSet {
    pub cities: Vec<String>,
    pub shops: Vec<String>,
    pub methods: Vec<String>,
    pub items: Vec<String>,
}

/// One order, as stored.
#[derive(Debug, PartialEq, Eq, Clone)]
pub struct Order {
    pub item: String,
    pub unit_price: u32,
    pub quantity: u32,
}

/// One payment, as stored.
#[derive(Debug, PartialEq, Eq, Clone)]
pub struct Payment {
    pub date: i64,
    pub city: String,
    pub method: String,
    pub shop: String,
    pub orders: Vec<Order>,
}

/// The whole store, as stored.
#[derive(Debug, PartialEq, Eq, Clone)]
pub struct AllPayments {
    pub value_set: ValueSet,
    pub payments: Vec<Payment>,
}

} // verus!
