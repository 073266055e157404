//! The payment stores: the simple store with inline orders, and the
//! validated store keyed by date.

use track_payments::interning::CustomString;
use track_payments::payments::json::{AllPaymentsJson, PaymentJson, ValueSetJson};
use track_payments::payments::json_legacy;
use track_payments::payments::{
    AllPayments, OrderDetail, OrderId, PaymentDetail, PaymentId, ValueSet,
};
use track_payments::payments_basic;
use track_payments::payments_basic::{Element, Payment, PaymentError};

#[test]
fn insert_values() {
    let mut payments = payments_basic::AllPayments::new();
    let duplicates = payments.add_elements(&[
        Element::City(String::from("City1")),
        Element::Shop(String::from("Shop1")),
        Element::Method(String::from("Method1")),
        Element::Item(String::from("Item1")),
    ]);
    println!("{duplicates:?}");
    assert!(duplicates.is_none());
}

#[test]
fn insert_duplicated_values() {
    let mut payments = payments_basic::AllPayments::new();
    let duplicates = payments.add_elements(&[
        Element::City(String::from("City1")),
        Element::City(String::from("City1")),
        Element::Shop(String::from("Shop1")),
    ]);
    println!("{duplicates:?}");
    assert!(matches!(
        duplicates,
        Some(PaymentError::DuplicatedElements(_))
    ));
}

#[test]
fn insert_payment() {
    let mut payments = payments_basic::AllPayments::new();
    payments.add_elements(&[
        Element::City(String::from("London")),
        Element::Shop(String::from("Bar")),
        Element::Method(String::from("Cash")),
    ]);
    let payment = Payment::new("London", "Bar", "Cash", 0);
    let opt_err = payments.add_payment(payment);
    println!("{opt_err:?}");
    assert!(opt_err.is_ok());
}

#[test]
fn insert_wrong_payment() {
    let mut payments = payments_basic::AllPayments::new();
    payments.add_elements(&[
        Element::City(String::from("London")),
        Element::City(String::from("Paris")),
        Element::Shop(String::from("Bar")),
        Element::Shop(String::from("Pub")),
        Element::Method(String::from("Cash")),
        Element::Method(String::from("Card")),
    ]);
    let payment = Payment::new("London", "Bar", "Cash", 0);
    let opt_err = payments.add_payment(payment);
    assert!(opt_err.is_ok());

    let payment = Payment::new("INVALID", "VALUES", "AND DATE", 0);
    let opt_err = payments.add_payment(payment);
    assert!(matches!(opt_err, Err(PaymentError::DuplicatedPayment(_))));

    let payment = Payment::new("INVALID", "ONLY", "THE VALUES", 1000);
    let opt_err = payments.add_payment(payment);
    assert!(matches!(opt_err, Err(PaymentError::MissingElements(_))));
}

#[test]
fn basic_total_price() {
    let mut payments = payments_basic::AllPayments::new();
    payments.add_elements(&[
        Element::City(String::from("London")),
        Element::Shop(String::from("Bar")),
        Element::Method(String::from("Cash")),
    ]);
    let orders = vec![
        payments_basic::Order::new(120, 2, "Apples"),
        payments_basic::Order::new(50, 3, "Bananas"),
    ];
    let payment = Payment::from_parts("London", "Bar", "Cash", 7, orders);
    assert_eq!(payment.calculate_total_price(), 120 * 2 + 50 * 3);
    assert_eq!(payment.get_orders().len(), 2);
    assert!(payments.add_payment(payment).is_ok());
    assert_eq!(payments.get_payments().len(), 1);
}

fn sample_values() -> ValueSet {
    let mut values = ValueSet::new();
    values.add_values(
        vec![String::from("London"), String::from("Paris")],
        vec![String::from("Market"), String::from("Pub")],
        vec![String::from("Card"), String::from("Cash")],
        vec![String::from("Apple"), String::from("Banana")],
    );
    values
}

#[test]
fn all_payments_creation() {
    let payid = PaymentId::new(0.into());
    let paydetail = PaymentDetail::new(
        String::from("London"),
        String::from("Pub"),
        String::from("Card"),
    );
    let paydetail2 = PaymentDetail::new(
        String::from("Paris"),
        String::from("Market"),
        String::from("Cash"),
    );
    let orderid = OrderId::new(String::from("Apple"));
    let orderdetail = OrderDetail::new(120, 2);
    let orderdetail2 = OrderDetail::new(120, 3);
    let values = sample_values();

    // insert values
    let mut all_payments = AllPayments::new();
    all_payments.add_values(values.clone());
    assert_eq!(all_payments.value_set(), &values);
    println!("INSERT VALUES: {all_payments:?}");

    // insert payment
    let res = all_payments.add_payment(payid, paydetail.clone());
    assert_eq!(res, Ok(()));
    let newval = all_payments.payments().first_key_value().unwrap().1;
    assert_eq!(newval.payment_details(), &paydetail);
    println!("INSERT PAYMENT: {all_payments:?}");

    // insert order
    let res = all_payments.add_order(&payid, orderid.clone(), orderdetail);
    assert_eq!(res, Ok(()));
    let newval = all_payments.payments().first_key_value().unwrap().1;
    let newval = newval.orders().first_key_value().unwrap().1;
    assert_eq!(newval, &orderdetail);
    println!("INSERT ORDER: {all_payments:?}");

    // modify payment
    let res = all_payments.modify_payment(&payid, paydetail2.clone());
    assert_eq!(res, Ok(()));
    let newval = all_payments.payments().first_key_value().unwrap().1;
    assert_eq!(newval.payment_details(), &paydetail2);
    println!("MODIFIED PAYMENT: {all_payments:?}");

    // modify order
    let res = all_payments.modify_order(&payid, &orderid, orderdetail2);
    assert_eq!(res, Ok(()));
    let newval = all_payments.payments().first_key_value().unwrap().1;
    let newval = newval.orders().first_key_value().unwrap().1;
    assert_eq!(newval, &orderdetail2);
    println!("MODIFIED ORDER: {all_payments:?}");

    // remove order
    let res = all_payments.remove_order(&payid, &orderid);
    assert_eq!(res, Ok(()));
    let pay1 = all_payments.payments().first_key_value().unwrap();
    assert_eq!(pay1.1.orders().len(), 0);
    println!("REMOVED ORDER: {all_payments:?}");

    // remove payment
    let res = all_payments.remove_payment(&payid);
    assert_eq!(res, Ok(()));
    assert_eq!(all_payments.payments().len(), 0);
    println!("REMOVED PAYMENT: {all_payments:?}");
}

#[test]
fn payment_errors() {
    let mut all_payments = AllPayments::new();
    all_payments.add_values(sample_values());
    let payid = PaymentId::new(12.into());
    let missing = PaymentId::new(99.into());
    let orderid = OrderId::new(String::from("Apple"));
    let detail = PaymentDetail::new(
        String::from("London"),
        String::from("Pub"),
        String::from("Card"),
    );

    assert!(matches!(
        all_payments.add_payment(payid, PaymentDetail::new(
            String::from("Nowhere"),
            String::from("Pub"),
            String::from("Card"),
        )),
        Err(track_payments::error::Error::MissingElements(_))
    ));
    assert_eq!(all_payments.add_payment(payid, detail.clone()), Ok(()));
    assert!(matches!(
        all_payments.add_payment(payid, detail),
        Err(track_payments::error::Error::PaymentDuplicated(_))
    ));
    assert!(matches!(
        all_payments.add_order(&missing, orderid.clone(), OrderDetail::new(1, 1)),
        Err(track_payments::error::Error::PaymentNotFound(_))
    ));
    assert_eq!(
        all_payments.add_order(&payid, orderid.clone(), OrderDetail::new(1, 1)),
        Ok(())
    );
    assert!(matches!(
        all_payments.add_order(&payid, orderid.clone(), OrderDetail::new(2, 2)),
        Err(track_payments::error::Error::OrderDuplicated(_, _))
    ));
    assert!(matches!(
        all_payments.remove_order(&payid, &OrderId::new(String::from("Banana"))),
        Err(track_payments::error::Error::OrderNotFound(_, _))
    ));
    assert_eq!(
        all_payments
            .payments()
            .first_key_value()
            .unwrap()
            .1
            .calcualte_total_price(),
        1
    );
}

#[test]
fn json_shape_round_trip() {
    let mut all_payments = AllPayments::new();
    all_payments.add_values(sample_values());
    let payid = PaymentId::new(1_743_044_280.into());
    let detail = PaymentDetail::new(
        String::from("London"),
        String::from("Pub"),
        String::from("Card"),
    );
    assert_eq!(all_payments.add_payment(payid, detail), Ok(()));
    assert_eq!(
        all_payments.add_order(
            &payid,
            OrderId::new(String::from("Apple")),
            OrderDetail::new(120, 2)
        ),
        Ok(())
    );

    let shaped = AllPaymentsJson::from_api(&all_payments).unwrap();
    assert_eq!(shaped.payments.len(), 1);
    assert_eq!(shaped.payments[0].date.as_str(), "2025/03/27 02:58");
    assert_eq!(shaped.payments[0].orders.len(), 1);

    let back = shaped.to_api().unwrap();
    assert_eq!(back, all_payments);
}

fn legacy_order(item: &str, unit_price: u32, quantity: u32) -> json_legacy::Order {
    json_legacy::Order {
        item: String::from(item),
        unit_price,
        quantity,
    }
}

fn legacy_store(orders_a: Vec<json_legacy::Order>, orders_b: Vec<json_legacy::Order>)
    -> json_legacy::AllPayments {
    json_legacy::AllPayments {
        value_set: json_legacy::ValueSet {
            cities: vec![String::from("New York"), String::from("London")],
            shops: vec![String::from("Shop A"), String::from("Shop B")],
            methods: vec![String::from("Credit Card"), String::from("Cash")],
            items: vec![String::from("Apple"), String::from("Banana")],
        },
        payments: vec![
            json_legacy::Payment {
                date: String::from("2024/03/27 12:34"),
                city: String::from("New York"),
                method: String::from("Credit Card"),
                shop: String::from("Shop A"),
                orders: orders_a,
            },
            json_legacy::Payment {
                date: String::from("2024/03/28 09:15"),
                city: String::from("London"),
                method: String::from("Cash"),
                shop: String::from("Shop B"),
                orders: orders_b,
            },
        ],
    }
}

#[test]
fn allpayments_legacy_json_fixed() {
    let mut all_payments = legacy_store(
        vec![legacy_order("Apple", 100, 2)],
        vec![
            legacy_order("Apples", 150, 1),
            legacy_order("Apples", 50, 3),
            legacy_order("Banana", 100, 2),
            legacy_order("Banana", 100, 1),
        ],
    );
    let all_payments_fixed = legacy_store(
        vec![legacy_order("Apple", 100, 2)],
        vec![legacy_order("Apples", 300, 1), legacy_order("Banana", 100, 3)],
    );
    all_payments.convert_to_valid_legacy();
    assert_eq!(all_payments, all_payments_fixed);
}

#[test]
fn json_legacy_allpayments_legacy_json() {
    let all_payments = legacy_store(
        vec![legacy_order("Apple", 100, 2)],
        vec![legacy_order("Apple", 100, 1), legacy_order("Banana", 50, 3)],
    );
    let all_payments2 = legacy_store(
        vec![legacy_order("Apple", 100, 2)],
        vec![legacy_order("Apple", 100, 1), legacy_order("Banana", 50, 3)],
    );
    assert_eq!(all_payments, all_payments2);

    let all_payment_api = all_payments.to_api().unwrap();
    let all_payments3 = json_legacy::AllPayments::from_api(&all_payment_api).unwrap();
    assert_eq!(all_payments2, all_payments3);
}

fn shaped_order(item: &str, unit_price: u32, quantity: u32) -> track_payments::payments::json::OrderJson {
    track_payments::payments::json::OrderJson {
        item: track_payments::interning::CustomString::new(String::from(item)),
        unit_price,
        quantity,
    }
}

#[test]
fn json_allpayments_legacy_json() {
    let interned =
        |texts: &[&str]| texts.iter().map(|t| CustomString::new(String::from(*t))).collect::<Vec<_>>();
    let build = || AllPaymentsJson {
        value_set: ValueSetJson {
            cities: interned(&["New York", "London"]),
            shops: interned(&["Shop A", "Shop B"]),
            methods: interned(&["Credit Card", "Cash"]),
            items: interned(&["Apple", "Banana"]),
        },
        payments: vec![
            PaymentJson {
                date: CustomString::new(String::from("2024/03/27 12:34")),
                city: CustomString::new(String::from("New York")),
                method: CustomString::new(String::from("Credit Card")),
                shop: CustomString::new(String::from("Shop A")),
                orders: vec![shaped_order("Apple", 100, 2)],
            },
            PaymentJson {
                date: CustomString::new(String::from("2024/03/28 09:15")),
                city: CustomString::new(String::from("London")),
                method: CustomString::new(String::from("Cash")),
                shop: CustomString::new(String::from("Shop B")),
                orders: vec![shaped_order("Apple", 100, 1), shaped_order("Banana", 50, 3)],
            },
        ],
    };
    let all_payments = build();
    let all_payments2 = build();
    assert_eq!(all_payments, all_payments2);

    let all_payment_api = all_payments.to_api().unwrap();
    let all_payments3 = AllPaymentsJson::from_api(&all_payment_api).unwrap();
    assert_eq!(all_payments2, all_payments3);
}

#[test]
fn legacy_merge_sorts_items() {
    let mut all_payments = legacy_store(
        vec![legacy_order("Banana", 50, 3), legacy_order("Apple", 100, 2)],
        vec![],
    );
    all_payments.convert_to_valid_legacy();
    let fixed = legacy_store(
        vec![legacy_order("Apple", 100, 2), legacy_order("Banana", 50, 3)],
        vec![],
    );
    assert_eq!(all_payments, fixed);
}
