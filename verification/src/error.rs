//! The error type of the payment-tracking API.

use vstd::prelude::*;

verus! {

use crate::payments::{OrderId, PaymentId, ValueSet};
use crate::time::FakeUtcTime;

/// Everything that can go wrong when payments are edited, parsed, timed,
/// or carried through encryption.
#[derive(Debug, PartialEq)]
pub enum Error {
    PaymentDuplicated(PaymentId),
    PaymentNotFound(PaymentId),
    OrderDuplicated(PaymentId, OrderId),
    OrderNotFound(PaymentId, OrderId),
    MissingElements(ValueSet),
    TimeParseFailed(String),
    TimeFormatFailed(FakeUtcTime),
    EncryptionFailed,
    DecryptionFailed,
    Generic(String),
}

} // verus!
