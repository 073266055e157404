//! Interned strings: equal texts share one allocation for the life of
//! the process, through the internment crate.

use vstd::prelude::*;

verus! {

/// Specification for internment's interning handle, which the library
/// holds opaquely.
#[verifier::external_type_specification]
#[verifier::external_body]
#[verifier::reject_recursive_types(T)]
pub struct ExIntern<T: 'static + ?Sized>(internment::Intern<T>);

/// The text an interning handle stands for.
pub uninterp spec fn interned_str(i: internment::Intern<String>) -> Seq<char>;

/// Relies on internment's `Intern::new`: the returned handle stands for
/// a value equal to the one given.
#[verifier::external_body]
fn intern_string(value: String) -> (r: internment::Intern<String>)
    ensures
        interned_str(r) == value@,
{
    internment::Intern::new(value)
}

/// Relies on internment's `Intern::as_ref`: the handle yields the
/// interned value.
#[verifier::external_body]
fn intern_get(i: &internment::Intern<String>) -> (r: &str)
    ensures
        r@ == interned_str(*i),
{
    i.as_ref().as_str()
}

/// Relies on internment's interning guarantee: equal values are interned
/// to the one handle, so two handles are equal exactly when the values
/// they stand for are (`Intern::new`, and `Intern`'s pointer equality).
#[verifier::external_body]
fn intern_eq(a: &internment::Intern<String>, b: &internment::Intern<String>) -> (r: bool)
    ensures
        r == (interned_str(*a) == interned_str(*b)),
{
    a == b
}

/// A string stored once per distinct text.
#[derive(Debug, Eq, PartialOrd, Ord, Clone, Copy, Hash)]
pub struct CustomString {
    pub value: internment::Intern<String>,
}

impl PartialEq for CustomString {
    /// Interned strings are equal exactly when their texts are.
    fn eq(&self, other: &CustomString) -> (r: bool) {
        intern_eq(&self.value, &other.value)
    }
}

impl vstd::std_specs::cmp::PartialEqSpecImpl for CustomString {
    open spec fn obeys_eq_spec() -> bool {
        true
    }

    open spec fn eq_spec(&self, other: &CustomString) -> bool {
        self@ == other@
    }
}

impl View for CustomString {
    type V = Seq<char>;

    open spec fn view(&self) -> Seq<char> {
        interned_str(self.value)
    }
}

impl CustomString {
    /// Interns a string.
    pub fn new(value: String) -> (r: CustomString)
        ensures
            r@ == value@,
    {
        CustomString { value: intern_string(value) }
    }

    /// The interned text.
    pub fn as_str(&self) -> (r: &str)
        ensures
            r@ == self@,
    {
        intern_get(&self.value)
    }
}

} // verus!
