use vstd::prelude::*;

verus! {

/// Failure taxonomy for area resolution, transport and decoding.
///
/// Every variant carries the originating detail: the offending input
/// string or the name of the missing document part.
#[derive(Debug)]
pub enum GetPriceError {
    /// The area code is not in the fixed allow-list.
    InvalidArea(String),
    /// The network or HTTP layer failed; the payload is a description
    /// supplied by the caller that performed the request.
    TransportFailure(String),
    /// The response does not match the expected document shape; the
    /// payload names the missing or ill-formed part.
    MalformedDocument(String),
    /// The declared currency code is not in the currency registry.
    UnknownCurrency(String),
    /// The declared resolution is not the hourly resolution code.
    UnsupportedResolution(String),
    /// A price value could not be parsed as a monetary amount.
    InvalidMonetaryFormat(String),
}

} // verus!
