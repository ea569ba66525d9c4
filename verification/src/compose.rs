//! Short-circuiting composition of envelope-producing steps: `bind` runs the
//! next step only on a success and passes any failure through unchanged, and
//! the residual helpers absorb failed results and inner failures into a
//! chain.

use vstd::prelude::*;
use core::ops::ControlFlow;
use crate::Brest;
use crate::wire::WireData;

verus! {

impl<D, C> Brest<D, C> {
    /// Short-circuiting sequencing: when the envelope is `Success`, the next
    /// step runs on the payload and its envelope is the result; an `Error` or
    /// `Fail` envelope is returned unchanged (message, code and status all
    /// kept, the variant never coerced to the other), and `next` is not
    /// invoked.
    pub fn bind<D2, F: FnOnce(D) -> Brest<D2, C>>(self, next: F) -> (r: Brest<D2, C>)
        requires
            self matches Brest::Success { data, .. } ==> call_requires(next, (data,)),
        ensures
            self matches Brest::Success { data, .. } ==> call_ensures(next, (data,), r),
            self matches Brest::Error { message, code, status } ==> r == (Brest::<D2, C>::Error {
                message,
                code,
                status,
            }),
            self matches Brest::Fail { message, code, status } ==> r == (Brest::<D2, C>::Fail {
                message,
                code,
                status,
            }),
    {
        match self {
            Brest::Success { data, .. } => next(data),
            Brest::Error { message, code, status } => Brest::Error { message, code, status },
            Brest::Fail { message, code, status } => Brest::Fail { message, code, status },
        }
    }

    /// Splits the envelope for short-circuiting: `Success` continues with the
    /// payload, while `Error` and `Fail` break with a unit-payload envelope
    /// that keeps the variant, message, code and status.
    pub fn branch(self) -> (r: ControlFlow<Brest<(), C>, D>)
        ensures
            self matches Brest::Success { data, .. } ==> r == ControlFlow::<
                Brest<(), C>,
                D,
            >::Continue(data),
            self matches Brest::Error { message, code, status } ==> r == ControlFlow::<
                Brest<(), C>,
                D,
            >::Break((Brest::Error { message, code, status })),
            self matches Brest::Fail { message, code, status } ==> r == ControlFlow::<
                Brest<(), C>,
                D,
            >::Break((Brest::Fail { message, code, status })),
    {
        match self {
            Brest::Success { data, .. } => ControlFlow::Continue(data),
            Brest::Error { message, code, status } => ControlFlow::Break(
                Brest::Error { message, code, status },
            ),
            Brest::Fail { message, code, status } => ControlFlow::Break(
                Brest::Fail { message, code, status },
            ),
        }
    }

    /// Wraps a plain output as a successful envelope, the unit of `bind`.
    pub fn from_output(output: D) -> (r: Self)
        ensures
            r == (Brest::<D, C>::Success { data: output, status: 200u16 }),
    {
        Brest::Success { data: output, status: 200 }
    }

    /// Absorbs a unit-payload failure produced by an inner chain into an
    /// outer chain: the variant, message, code and status all carry over.
    pub fn from_residual(residual: Brest<(), C>) -> (r: Self)
        requires
            !(residual is Success),
        ensures
            residual matches Brest::Error { message, code, status } ==> r == (Brest::<D, C>::Error {
                message,
                code,
                status,
            }),
            residual matches Brest::Fail { message, code, status } ==> r == (Brest::<D, C>::Fail {
                message,
                code,
                status,
            }),
    {
        match residual {
            Brest::Success { .. } => vstd::pervasive::unreached(),
            Brest::Error { message, code, status } => Brest::Error { message, code, status },
            Brest::Fail { message, code, status } => Brest::Fail { message, code, status },
        }
    }

    /// Absorbs the failed half of a two-outcome result into a chain as an
    /// `Error` envelope with the default status 500 and no code.
    pub fn from_residual_result(residual: Result<D, String>) -> (r: Self)
        requires
            residual is Err,
        ensures
            residual matches Err(e) ==> r == (Brest::<D, C>::Error {
                message: e,
                code: None,
                status: 500u16,
            }),
    {
        match residual {
            Ok(_) => vstd::pervasive::unreached(),
            Err(e) => Brest::Error { message: e, code: None, status: 500 },
        }
    }

    /// Absorbs a failed two-outcome result paired with a code: an `Error`
    /// envelope carrying that code, with the default status 500.
    pub fn from_residual_code(residual: (Result<D, String>, C)) -> (r: Self)
        requires
            residual.0 is Err,
        ensures
            residual.0 matches Err(e) ==> r == (Brest::<D, C>::Error {
                message: e,
                code: Some(residual.1),
                status: 500u16,
            }),
    {
        match residual.0 {
            Ok(_) => vstd::pervasive::unreached(),
            Err(e) => Brest::Error { message: e, code: Some(residual.1), status: 500 },
        }
    }

    /// Absorbs a failed two-outcome result paired with a code and an explicit
    /// status: an `Error` envelope carrying both.
    pub fn from_residual_code_status(residual: (Result<D, String>, C, u16)) -> (r: Self)
        requires
            residual.0 is Err,
        ensures
            residual.0 matches Err(e) ==> r == (Brest::<D, C>::Error {
                message: e,
                code: Some(residual.1),
                status: residual.2,
            }),
    {
        match residual.0 {
            Ok(_) => vstd::pervasive::unreached(),
            Err(e) => Brest::Error { message: e, code: Some(residual.1), status: residual.2 },
        }
    }

    /// Absorbs an envelope that travelled as the error half of a plain
    /// `Result` back into an envelope chain, unchanged.
    pub fn from_residual_nested<U>(residual: Result<U, Self>) -> (r: Self)
        requires
            residual is Err,
        ensures
            residual matches Err(e) ==> r == e,
    {
        match residual {
            Ok(_) => vstd::pervasive::unreached(),
            Err(e) => e,
        }
    }
}

impl<D, C> From<Result<D, String>> for Brest<D, C> {
    /// Promotes a two-outcome result: `Ok` becomes `Success`, `Err` becomes
    /// an `Error` envelope (never `Fail` — a bare failed outcome is treated
    /// as unexpected) with the default status 500 and no code.
    fn from(value: Result<D, String>) -> (r: Self) {
        match value {
            Ok(data) => Brest::Success { data, status: 200 },
            Err(e) => Brest::Error { message: e, code: None, status: 500 },
        }
    }
}

impl<D, C> vstd::std_specs::convert::FromSpecImpl<Result<D, String>> for Brest<D, C> {
    open spec fn obeys_from_spec() -> bool {
        true
    }

    open spec fn from_spec(value: Result<D, String>) -> Self {
        match value {
            Ok(data) => Brest::Success { data, status: 200u16 },
            Err(e) => Brest::Error { message: e, code: None, status: 500u16 },
        }
    }
}

impl<D, C> From<(Result<D, String>, C)> for Brest<D, C> {
    /// Promotes a two-outcome result paired with a code: the `Err` branch
    /// becomes an `Error` envelope carrying the code.
    fn from(value: (Result<D, String>, C)) -> (r: Self) {
        match value.0 {
            Ok(data) => Brest::Success { data, status: 200 },
            Err(e) => Brest::Error { message: e, code: Some(value.1), status: 500 },
        }
    }
}

impl<D, C> vstd::std_specs::convert::FromSpecImpl<(Result<D, String>, C)> for Brest<D, C> {
    open spec fn obeys_from_spec() -> bool {
        true
    }

    open spec fn from_spec(value: (Result<D, String>, C)) -> Self {
        match value.0 {
            Ok(data) => Brest::Success { data, status: 200u16 },
            Err(e) => Brest::Error { message: e, code: Some(value.1), status: 500u16 },
        }
    }
}

impl<D, C> From<(Result<D, String>, C, u16)> for Brest<D, C> {
    /// Promotes a two-outcome result paired with a code and an explicit
    /// status: the `Err` branch becomes an `Error` envelope carrying both.
    fn from(value: (Result<D, String>, C, u16)) -> (r: Self) {
        match value.0 {
            Ok(data) => Brest::Success { data, status: 200 },
            Err(e) => Brest::Error { message: e, code: Some(value.1), status: value.2 },
        }
    }
}

impl<D, C> vstd::std_specs::convert::FromSpecImpl<(Result<D, String>, C, u16)> for Brest<D, C> {
    open spec fn obeys_from_spec() -> bool {
        true
    }

    open spec fn from_spec(value: (Result<D, String>, C, u16)) -> Self {
        match value.0 {
            Ok(data) => Brest::Success { data, status: 200u16 },
            Err(e) => Brest::Error { message: e, code: Some(value.1), status: value.2 },
        }
    }
}

impl<D: WireData, C> From<D> for Brest<D, C> {
    /// Promotes a bare payload: a value with no failure channel is always a
    /// success, with the default status 200.
    fn from(value: D) -> (r: Self) {
        Brest::Success { data: value, status: 200 }
    }
}

impl<D: WireData, C> vstd::std_specs::convert::FromSpecImpl<D> for Brest<D, C> {
    open spec fn obeys_from_spec() -> bool {
        true
    }

    open spec fn from_spec(value: D) -> Self {
        Brest::Success { data: value, status: 200u16 }
    }
}

} // verus!
