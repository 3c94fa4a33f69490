//! Account addresses of the underlying chain.
//!
//! The agent never looks inside an address: it parses what the caller sent,
//! resolves defaults and hands the value on.  The address format itself
//! belongs to the chain, so parsing and comparison are delegated to
//! `fvm_shared` through the trusted items below.

use vstd::prelude::*;

use crate::error::Error;

verus! {

#[verifier::external_type_specification]
#[verifier::external_body]
pub struct ExAddress(fvm_shared::address::Address);

/// Relies on `fvm_shared::address::Address::from_str` to decide whether a
/// string is an address.  Parsing consults the process-wide current network,
/// so nothing is promised about which strings are accepted.
#[verifier::external_body]
pub fn parse_address(s: &str) -> (r: Result<fvm_shared::address::Address, Error>)
    ensures
        r matches Err(e) ==> e == Error::InvalidAddress,
{
    match s.parse::<fvm_shared::address::Address>() {
        Ok(a) => Ok(a),
        Err(_) => Err(Error::InvalidAddress),
    }
}

/// Relies on the derived `PartialEq` of `fvm_shared::address::Address`,
/// which compares the address values field by field.
#[verifier::external_body]
pub fn address_eq(a: &fvm_shared::address::Address, b: &fvm_shared::address::Address) -> (r: bool)
    ensures
        r == (*a == *b),
{
    a == b
}

} // verus!
