//! What the check plan needs of the contract ABI: call selectors, argument
//! words, and reading an address back from a call's return bytes.
use vstd::prelude::*;
use vstd::string::StringSliceAdditionalSpecFns;
use crate::address::Address;

verus! {

/// The Keccak-256 digest of `data`.
pub uninterp spec fn keccak_of(data: Seq<u8>) -> Seq<u8>;

/// Relies on `alloy::primitives::keccak256`: the 32-byte Keccak-256 digest.
#[verifier::external_body]
fn keccak256(data: &[u8]) -> (r: [u8; 32])
    ensures
        r@ == keccak_of(data@),
{
    alloy::primitives::keccak256(data).0
}

/// The four-byte selector of a function signature such as `owner()`.
pub open spec fn selector_of(signature: Seq<u8>) -> Seq<u8> {
    keccak_of(signature).subrange(0, 4)
}

pub fn selector(signature: &str) -> (r: Vec<u8>)
    ensures
        r@ == selector_of(signature.spec_bytes()),
{
    let digest = keccak256(signature.as_bytes());
    let mut out: Vec<u8> = Vec::new();
    let mut i: usize = 0;
    while i < 4
        invariant
            i <= 4,
            digest@.len() == 32,
            out@ == digest@.subrange(0, i as int),
        decreases 4 - i,
    {
        out.push(digest[i]);
        assert(out@ =~= digest@.subrange(0, i + 1));
        i = i + 1;
    }
    out
}

/// Whether `data` is one ABI word that holds an address: thirty-two bytes, the
/// first twelve zero.
pub open spec fn is_address_word(data: Seq<u8>) -> bool {
    data.len() == 32 && forall|i: int| 0 <= i < 12 ==> data[i] == 0
}

/// Relies on `abi_decode_sequence` of alloy's `SolType` for `(address,)`, with
/// validation: exactly one word, whose first twelve bytes are zero; the
/// address is the last twenty bytes. On failure it hands back the decoder's
/// error message.
#[verifier::external_body]
fn decode_address_return(data: &[u8]) -> (r: Result<Address, String>)
    ensures
        match r {
            Ok(a) => is_address_word(data@) && a.bytes@ == data@.subrange(12, 32),
            Err(_) => !is_address_word(data@),
        },
{
    match <(alloy::sol_types::sol_data::Address,) as alloy::sol_types::SolType>::abi_decode_sequence(
        data,
        true,
    ) {
        Ok((a,)) => Ok(Address { bytes: a.into_array() }),
        Err(e) => Err(e.to_string()),
    }
}

/// Where a view function's return bytes hold the address it reports.
#[derive(Clone, Copy, Debug, PartialEq, Eq, Structural)]
pub enum ReturnShape {
    /// The function returns a single `address`.
    Address,
}

/// The address that return bytes of the given shape hold, if they are well formed.
pub open spec fn decoded_address(shape: ReturnShape, data: Seq<u8>) -> Option<Seq<u8>> {
    match shape {
        ReturnShape::Address => if is_address_word(data) {
            Some(data.subrange(12, 32))
        } else {
            None
        },
    }
}

/// Reads the reported address out of a call's return bytes.
pub fn decode_return(shape: ReturnShape, data: &[u8]) -> (r: Result<Address, String>)
    ensures
        match r {
            Ok(a) => decoded_address(shape, data@) == Some(a.bytes@),
            Err(_) => decoded_address(shape, data@) is None,
        },
{
    match shape {
        ReturnShape::Address => decode_address_return(data),
    }
}

} // verus!
