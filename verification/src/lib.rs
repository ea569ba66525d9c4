//! A three-state response envelope for request handlers: `Success`, `Error`
//! (unexpected, server-side) and `Fail` (client-caused), each carrying a
//! presentation-only HTTP status. The envelope's construction and inspection
//! live here; its canonical JSON wire form in [`codec`], the values that can
//! travel on the wire in [`wire`], short-circuiting composition in
//! [`compose`], and the pass-through extractor wrappers in [`extractors`].

use vstd::prelude::*;
use vstd::string::StringExecFns;

pub mod codec;
pub mod compose;
pub mod extractors;
pub mod wire;

verus! {

/// A three-state response envelope: an operation either succeeded with a
/// payload (`Success`), hit an unexpected server-side fault (`Error`), or was
/// rejected because of bad client input (`Fail`).
///
/// `D` is the payload type, `C` an optional application-defined code attached
/// to the two failure variants. The `status` field is the HTTP status used
/// when the envelope is turned into a response; it is presentation-only: two
/// envelopes with the same variant, message, code and payload are the same
/// logical outcome even when their statuses differ, and the status never
/// appears on the wire.
#[derive(Debug, PartialEq)]
pub enum Brest<D = (), C = u32> {
    Success { data: D, status: u16 },
    Error { message: String, code: Option<C>, status: u16 },
    Fail { message: String, code: Option<C>, status: u16 },
}

/// A read-only projection of the fields shared by the `Error` and `Fail`
/// variants, handed to the `is_error_and` / `is_fail_and` predicates so that
/// generic code can inspect a failure without caring which variant it was.
#[derive(Debug, Clone, PartialEq)]
pub struct ErrorFields<C> {
    pub message: String,
    pub code: Option<C>,
    pub status: u16,
}

impl<D, C> Brest<D, C> {
    /// The HTTP status this envelope presents with.
    pub open spec fn spec_status(&self) -> u16 {
        match self {
            Brest::Success { status, .. } => *status,
            Brest::Error { status, .. } => *status,
            Brest::Fail { status, .. } => *status,
        }
    }

    /// The status an envelope of the given variant carries when no explicit
    /// status was supplied: 200 for success, 500 for an unexpected error,
    /// 400 for a client-caused failure.
    pub open spec fn spec_default_status(&self) -> u16 {
        match self {
            Brest::Success { .. } => 200u16,
            Brest::Error { .. } => 500u16,
            Brest::Fail { .. } => 400u16,
        }
    }

    /// A successful envelope with the default status 200.
    pub fn success(data: D) -> (r: Self)
        ensures
            r == (Brest::<D, C>::Success { data, status: 200u16 }),
    {
        Brest::Success { data, status: 200 }
    }

    /// A successful envelope with an explicit status.
    pub fn success_status(data: D, status: u16) -> (r: Self)
        ensures
            r == (Brest::<D, C>::Success { data, status }),
    {
        Brest::Success { data, status }
    }

    /// An `Error` envelope without a code, with the default status 500.
    pub fn error(message: &str) -> (r: Self)
        ensures
            r matches Brest::Error { message: m, code, status } && m@ == message@
                && code is None && status == 500u16,
    {
        Brest::Error { message: String::from_str(message), code: None, status: 500 }
    }

    /// An `Error` envelope carrying a code, with the default status 500.
    pub fn error_code(message: &str, code: C) -> (r: Self)
        ensures
            r matches Brest::Error { message: m, code: c, status } && m@ == message@
                && c == Some(code) && status == 500u16,
    {
        Brest::Error { message: String::from_str(message), code: Some(code), status: 500 }
    }

    /// An `Error` envelope without a code, with an explicit status.
    pub fn error_status(message: &str, status: u16) -> (r: Self)
        ensures
            r matches Brest::Error { message: m, code, status: s } && m@ == message@
                && code is None && s == status,
    {
        Brest::Error { message: String::from_str(message), code: None, status }
    }

    /// An `Error` envelope with both a code and an explicit status.
    pub fn error_code_status(message: &str, code: C, status: u16) -> (r: Self)
        ensures
            r matches Brest::Error { message: m, code: c, status: s } && m@ == message@
                && c == Some(code) && s == status,
    {
        Brest::Error { message: String::from_str(message), code: Some(code), status }
    }

    /// A `Fail` envelope without a code, with the default status 400.
    pub fn fail(message: &str) -> (r: Self)
        ensures
            r matches Brest::Fail { message: m, code, status } && m@ == message@
                && code is None && status == 400u16,
    {
        Brest::Fail { message: String::from_str(message), code: None, status: 400 }
    }

    /// A `Fail` envelope carrying a code, with the default status 400.
    pub fn fail_code(message: &str, code: C) -> (r: Self)
        ensures
            r matches Brest::Fail { message: m, code: c, status } && m@ == message@
                && c == Some(code) && status == 400u16,
    {
        Brest::Fail { message: String::from_str(message), code: Some(code), status: 400 }
    }

    /// A `Fail` envelope without a code, with an explicit status. Rejection
    /// adapters use this to surface an upstream extraction failure with the
    /// host framework's own message and suggested status.
    pub fn fail_status(message: &str, status: u16) -> (r: Self)
        ensures
            r matches Brest::Fail { message: m, code, status: s } && m@ == message@
                && code is None && s == status,
    {
        Brest::Fail { message: String::from_str(message), code: None, status }
    }

    /// A `Fail` envelope with both a code and an explicit status.
    pub fn fail_code_status(message: &str, code: C, status: u16) -> (r: Self)
        ensures
            r matches Brest::Fail { message: m, code: c, status: s } && m@ == message@
                && c == Some(code) && s == status,
    {
        Brest::Fail { message: String::from_str(message), code: Some(code), status }
    }

    /// True exactly when the envelope is the `Success` variant.
    pub fn is_success(&self) -> (r: bool)
        ensures
            r == (self is Success),
    {
        matches!(self, Brest::Success { .. })
    }

    /// True exactly when the envelope is the `Error` variant.
    pub fn is_error(&self) -> (r: bool)
        ensures
            r == (self is Error),
    {
        matches!(self, Brest::Error { .. })
    }

    /// True exactly when the envelope is the `Fail` variant.
    pub fn is_fail(&self) -> (r: bool)
        ensures
            r == (self is Fail),
    {
        matches!(self, Brest::Fail { .. })
    }

    /// Applies `f` to the payload when the envelope is `Success` and returns
    /// its verdict; any other variant is `false`, and `f` is never invoked
    /// (without a payload there is nothing to hand it, and no `call_requires`
    /// is available for it).
    pub fn is_success_and<F: FnOnce(D) -> bool>(self, f: F) -> (r: bool)
        requires
            self matches Brest::Success { data, .. } ==> call_requires(f, (data,)),
        ensures
            !(self is Success) ==> r == false,
            self matches Brest::Success { data, .. } ==> call_ensures(f, (data,), r),
    {
        match self {
            Brest::Success { data, .. } => f(data),
            _ => false,
        }
    }

    /// Applies `f` to the projected failure fields when the envelope is
    /// `Error` and returns its verdict; any other variant is `false`, and
    /// `f` is never invoked.
    pub fn is_error_and<F: FnOnce(ErrorFields<C>) -> bool>(self, f: F) -> (r: bool)
        requires
            self matches Brest::Error { message, code, status } ==> call_requires(
                f,
                ((ErrorFields { message, code, status }),),
            ),
        ensures
            !(self is Error) ==> r == false,
            self matches Brest::Error { message, code, status } ==> call_ensures(
                f,
                ((ErrorFields { message, code, status }),),
                r,
            ),
    {
        match self {
            Brest::Error { message, code, status } => f(ErrorFields { message, code, status }),
            _ => false,
        }
    }

    /// Applies `f` to the projected failure fields when the envelope is
    /// `Fail` and returns its verdict; any other variant is `false`, and
    /// `f` is never invoked.
    pub fn is_fail_and<F: FnOnce(ErrorFields<C>) -> bool>(self, f: F) -> (r: bool)
        requires
            self matches Brest::Fail { message, code, status } ==> call_requires(
                f,
                ((ErrorFields { message, code, status }),),
            ),
        ensures
            !(self is Fail) ==> r == false,
            self matches Brest::Fail { message, code, status } ==> call_ensures(
                f,
                ((ErrorFields { message, code, status }),),
                r,
            ),
    {
        match self {
            Brest::Fail { message, code, status } => f(ErrorFields { message, code, status }),
            _ => false,
        }
    }

    /// The HTTP status to emit the envelope with.
    pub fn status(&self) -> (r: u16)
        ensures
            r == self.spec_status(),
    {
        match self {
            Brest::Success { status, .. } => *status,
            Brest::Error { status, .. } => *status,
            Brest::Fail { status, .. } => *status,
        }
    }
}

/// Exactly one of the three variant predicates holds of any envelope: the
/// three states are mutually exclusive and exhaustive.
pub proof fn lemma_variants_exclusive<D, C>(e: &Brest<D, C>)
    ensures
        (e is Success) ==> !(e is Error) && !(e is Fail),
        (e is Error) ==> !(e is Success) && !(e is Fail),
        (e is Fail) ==> !(e is Success) && !(e is Error),
        (e is Success) || (e is Error) || (e is Fail),
{
}

/// The failure half of an envelope, used as the error side of a `Result`
/// where the success side is a plain value rather than an envelope.
#[derive(Debug)]
pub enum BrestErr<C = u32> {
    Error { message: String, code: Option<C>, status: u16 },
    Fail { message: String, code: Option<C>, status: u16 },
}

impl<C> BrestErr<C> {
    /// A short human-readable rendering: the variant's name, a colon, and
    /// the message.
    pub fn describe(&self) -> (r: String)
        ensures
            match self {
                BrestErr::Error { message, .. } => r@ == "Error: "@ + message@,
                BrestErr::Fail { message, .. } => r@ == "Fail: "@ + message@,
            },
    {
        match self {
            BrestErr::Error { message, .. } => String::from_str("Error: ").concat(
                message.as_str(),
            ),
            BrestErr::Fail { message, .. } => String::from_str("Fail: ").concat(message.as_str()),
        }
    }
}

impl<T, C> From<BrestErr<C>> for Brest<T, C> {
    /// Re-wraps a failure value as the envelope variant of the same name,
    /// keeping message, code and status.
    fn from(err: BrestErr<C>) -> (r: Self) {
        match err {
            BrestErr::Error { message, code, status } => Brest::Error { message, code, status },
            BrestErr::Fail { message, code, status } => Brest::Fail { message, code, status },
        }
    }
}

impl<T, C> vstd::std_specs::convert::FromSpecImpl<BrestErr<C>> for Brest<T, C> {
    open spec fn obeys_from_spec() -> bool {
        true
    }

    open spec fn from_spec(err: BrestErr<C>) -> Self {
        match err {
            BrestErr::Error { message, code, status } => Brest::Error { message, code, status },
            BrestErr::Fail { message, code, status } => Brest::Fail { message, code, status },
        }
    }
}

} // verus!
