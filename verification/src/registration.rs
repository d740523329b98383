//! Registering clients: only those with the parameters of the server are taken.
use vstd::prelude::*;
use vstd::string::*;

use crate::api_error::{ApiError, ApiFault, PirError};
use crate::text::{decimal, decimal_text, same_text};
use crate::wire::{bincode_received, decode_bincode_base64};

verus! {

/// The parameters of the PIR scheme, in the abstract.
pub struct ParamsView {
    pub ring_dim: usize,
    pub q: u64,
    pub crt_moduli: Seq<u64>,
    pub p: u64,
    pub sigma_bits: u64,
    pub sigma: Seq<char>,
    pub gadget_base: u64,
    pub gadget_len: usize,
    pub security_level: Seq<char>,
}

/// The parameters of the PIR scheme.
#[derive(Debug, Clone)]
pub struct PirParams {
    pub ring_dim: usize,
    pub q: u64,
    pub crt_moduli: Vec<u64>,
    pub p: u64,
    /// The bits of the standard deviation of the noise.
    pub sigma_bits: u64,
    /// The standard deviation of the noise as text.
    pub sigma: String,
    pub gadget_base: u64,
    pub gadget_len: usize,
    pub security_level: String,
}

impl View for PirParams {
    type V = ParamsView;

    open spec fn view(&self) -> ParamsView {
        ParamsView {
            ring_dim: self.ring_dim,
            q: self.q,
            crt_moduli: self.crt_moduli@,
            p: self.p,
            sigma_bits: self.sigma_bits,
            sigma: self.sigma@,
            gadget_base: self.gadget_base,
            gadget_len: self.gadget_len,
            security_level: self.security_level@,
        }
    }
}

/// A request to register a client.
#[derive(Debug, Clone)]
pub struct RegisterClientRequest {
    /// The client's CRS.
    pub crs_bincode_base64: String,
}

/// The answer to a client that was registered.
#[derive(Debug, Clone)]
pub struct RegisterClientResponse {
    pub crs_hash: String,
    pub registered: bool,
}

/// What is said of a parameter that is not the server's.
pub open spec fn mismatch(name: Seq<char>, expected: Seq<char>, got: Seq<char>) -> ApiFault {
    ApiFault::InvalidClientCrs(name + " mismatch: expected "@ + expected + ", got "@ + got)
}

/// The first parameter that is not the server's.
pub open spec fn params_fault(got: ParamsView, expected: ParamsView) -> Option<ApiFault> {
    if got.ring_dim != expected.ring_dim {
        Some(
            mismatch(
                "ring_dim"@,
                decimal(expected.ring_dim as nat),
                decimal(got.ring_dim as nat),
            ),
        )
    } else if got.q != expected.q {
        Some(ApiFault::InvalidClientCrs("q mismatch"@))
    } else if got.crt_moduli != expected.crt_moduli {
        Some(ApiFault::InvalidClientCrs("crt_moduli mismatch"@))
    } else if got.p != expected.p {
        Some(ApiFault::InvalidClientCrs("p mismatch"@))
    } else if got.sigma_bits != expected.sigma_bits {
        Some(mismatch("sigma"@, expected.sigma, got.sigma))
    } else if got.gadget_base != expected.gadget_base {
        Some(ApiFault::InvalidClientCrs("gadget_base mismatch"@))
    } else if got.gadget_len != expected.gadget_len {
        Some(ApiFault::InvalidClientCrs("gadget_len mismatch"@))
    } else if got.security_level != expected.security_level {
        Some(ApiFault::InvalidClientCrs("security_level mismatch"@))
    } else {
        None
    }
}

/// The error of a parameter that is not the server's.
fn mismatch_error(name: &str, expected: &str, got: &str) -> (error: ApiError)
    ensures
        error@ == mismatch(name@, expected@, got@),
{
    let mut why = name.to_owned();
    why.append(" mismatch: expected ");
    why.append(expected);
    why.append(", got ");
    why.append(got);
    ApiError::InvalidClientCrs(why)
}

/// Whether two lists of numbers are the same.
fn same_numbers(a: &Vec<u64>, b: &Vec<u64>) -> (same: bool)
    ensures
        same == (a@ == b@),
{
    if a.len() != b.len() {
        return false;
    }
    let mut i: usize = 0;
    while i < a.len()
        invariant
            i <= a@.len(),
            a@.len() == b@.len(),
            forall|k: int| 0 <= k < i ==> a@[k] == b@[k],
        decreases a@.len() - i,
    {
        if a[i] != b[i] {
            return false;
        }
        i = i + 1;
    }
    assert(a@ =~= b@);
    true
}

/// Refuses parameters that are not the server's.
pub fn validate_registered_crs_params(got: &PirParams, expected: &PirParams) -> (out: Result<
    (),
    ApiError,
>)
    ensures
        match out {
            Ok(()) => params_fault(got@, expected@) is None,
            Err(error) => params_fault(got@, expected@) == Some(error@),
        },
{
    if got.ring_dim != expected.ring_dim {
        return Err(
            mismatch_error(
                "ring_dim",
                decimal_text(expected.ring_dim as u64).as_str(),
                decimal_text(got.ring_dim as u64).as_str(),
            ),
        );
    }
    if got.q != expected.q {
        return Err(ApiError::InvalidClientCrs("q mismatch".to_owned()));
    }
    if !same_numbers(&got.crt_moduli, &expected.crt_moduli) {
        return Err(ApiError::InvalidClientCrs("crt_moduli mismatch".to_owned()));
    }
    if got.p != expected.p {
        return Err(ApiError::InvalidClientCrs("p mismatch".to_owned()));
    }
    if got.sigma_bits != expected.sigma_bits {
        return Err(mismatch_error("sigma", expected.sigma.as_str(), got.sigma.as_str()));
    }
    if got.gadget_base != expected.gadget_base {
        return Err(ApiError::InvalidClientCrs("gadget_base mismatch".to_owned()));
    }
    if got.gadget_len != expected.gadget_len {
        return Err(ApiError::InvalidClientCrs("gadget_len mismatch".to_owned()));
    }
    if !same_text(got.security_level.as_str(), expected.security_level.as_str()) {
        return Err(ApiError::InvalidClientCrs("security_level mismatch".to_owned()));
    }
    Ok(())
}

/// `out` is the answer to a client whose registering came to `registered`: the hash
/// of its CRS, or an error.
pub open spec fn answers(
    registered: Result<String, PirError>,
    out: Result<RegisterClientResponse, ApiError>,
) -> bool {
    match (registered, out) {
        (Ok(hash), Ok(response)) => response.crs_hash@ == hash@ && response.registered,
        (Err(why), Err(error)) => error@ == ApiFault::TreePir(why@),
        _ => false,
    }
}

/// `out` is what comes of a CRS: the CRS, where its parameters are the server's.
pub open spec fn crs_checked<C, V: Fn(&C) -> PirParams>(
    crs: C,
    params_of: V,
    expected: ParamsView,
    out: Result<C, ApiError>,
) -> bool {
    exists|params: PirParams|
        #[trigger] call_ensures(params_of, (&crs,), params) && match params_fault(
            params@,
            expected,
        ) {
            Some(fault) => out matches Err(error) && error@ == fault,
            None => out == Ok::<C, ApiError>(crs),
        }
}

/// `out` is what comes of a CRS that was sent. One that is not decoded is not
/// looked at.
pub open spec fn request_checked<C, P: Fn(&[u8]) -> Result<C, String>, V: Fn(&C) -> PirParams>(
    text: Seq<char>,
    parse: P,
    params_of: V,
    expected: ParamsView,
    out: Result<C, ApiError>,
) -> bool {
    exists|decoded: Result<C, ApiError>|
        #[trigger] bincode_received(text, parse, decoded) && match decoded {
            Ok(crs) => crs_checked(crs, params_of, expected, out),
            Err(fault) => out matches Err(error) && error@ == fault@,
        }
}

/// The CRS of a client that asks to be registered, where `parse` reads it from
/// bincode and `params_of` gives its parameters.
pub fn registered_crs<C, P: Fn(&[u8]) -> Result<C, String>, V: Fn(&C) -> PirParams>(
    request: &RegisterClientRequest,
    parse: P,
    params_of: V,
    expected: &PirParams,
) -> (out: Result<C, ApiError>)
    requires
        forall|bytes: &[u8]| call_requires(parse, (bytes,)),
        forall|crs: &C| call_requires(params_of, (crs,)),
    ensures
        request_checked(request.crs_bincode_base64@, parse, params_of, expected@, out),
{
    let ghost text = request.crs_bincode_base64@;
    let crs = match decode_bincode_base64(request.crs_bincode_base64.as_str(), &parse) {
        Ok(crs) => crs,
        Err(error) => {
            assert(bincode_received(text, parse, Err::<C, ApiError>(error)));
            return Err(error);
        },
    };
    assert(bincode_received(text, parse, Ok::<C, ApiError>(crs)));
    let params = params_of(&crs);
    validate_registered_crs_params(&params, expected)?;
    Ok(crs)
}

/// Answers a request to register a client, given what registering it came to.
pub fn register_client(registered: Result<String, PirError>) -> (out: Result<
    RegisterClientResponse,
    ApiError,
>)
    ensures
        answers(registered, out),
{
    match registered {
        Ok(crs_hash) => Ok(RegisterClientResponse { crs_hash, registered: true }),
        Err(error) => Err(ApiError::TreePir(error)),
    }
}

/// Only a client with exactly the parameters of the server is taken; any other is
/// answered that its request is bad.
pub proof fn only_the_server_params_are_taken(got: ParamsView, expected: ParamsView)
    ensures
        params_fault(got, expected) is None <==> got == (ParamsView {
            sigma: got.sigma,
            ..expected
        }),
        params_fault(got, expected) matches Some(fault) ==> fault.status() == 400,
{
}

} // verus!
