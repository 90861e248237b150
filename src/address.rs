//! Twenty-byte account addresses and their hex text form.
use vstd::prelude::*;
use crate::registry::is_hex_digit;

verus! {

#[derive(Clone, Copy, Debug, Eq)]
pub struct Address {
    pub bytes: [u8; 20],
}

impl PartialEq for Address {
    fn eq(&self, other: &Address) -> (r: bool)
        ensures
            r == (self.bytes@ == other.bytes@),
    {
        let mut i: usize = 0;
        while i < 20
            invariant
                i <= 20,
                forall|j: int| 0 <= j < i ==> self.bytes@[j] == other.bytes@[j],
            decreases 20 - i,
        {
            if self.bytes[i] != other.bytes[i] {
                return false;
            }
            i = i + 1;
        }
        assert(self.bytes@ =~= other.bytes@);
        true
    }
}

impl vstd::std_specs::cmp::PartialEqSpecImpl for Address {
    open spec fn obeys_eq_spec() -> bool {
        true
    }

    open spec fn eq_spec(&self, other: &Address) -> bool {
        self.bytes@ == other.bytes@
    }
}

/// The value of a hex digit.
pub open spec fn hex_value(c: char) -> int {
    if '0' <= c && c <= '9' {
        (c as int) - ('0' as int)
    } else if 'a' <= c && c <= 'f' {
        (c as int) - ('a' as int) + 10
    } else {
        (c as int) - ('A' as int) + 10
    }
}

pub open spec fn all_hex(s: Seq<char>) -> bool {
    forall|i: int| 0 <= i < s.len() ==> is_hex_digit(#[trigger] s[i])
}

/// The forty hex digits of an address text: with a lowercase `0x` prefix, or without.
pub open spec fn address_digits(s: Seq<char>) -> Option<Seq<char>> {
    if s.len() == 42 && s[0] == '0' && s[1] == 'x' && all_hex(
        s.subrange(2, 42),
    ) {
        Some(s.subrange(2, 42))
    } else if s.len() == 40 && all_hex(s) {
        Some(s)
    } else {
        None
    }
}

/// The bytes that forty hex digits spell, two digits to a byte, high digit first.
pub open spec fn hex_bytes(d: Seq<char>) -> Seq<u8> {
    Seq::new(20, |i: int| (16 * hex_value(d[2 * i]) + hex_value(d[2 * i + 1])) as u8)
}

/// The address that a text spells, if it is one.
pub open spec fn address_of_text(s: Seq<char>) -> Option<Seq<u8>> {
    match address_digits(s) {
        Some(d) => Some(hex_bytes(d)),
        None => None,
    }
}

/// Relies on `alloy::primitives::Address::from_str`: it accepts forty hex
/// digits in either case, with or without a lowercase `0x` prefix, and
/// nothing else. On failure it hands back the decoder's error message.
#[verifier::external_body]
pub(crate) fn parse_address(s: &str) -> (r: Result<Address, String>)
    ensures
        match r {
            Ok(a) => address_of_text(s@) == Some(a.bytes@),
            Err(_) => address_of_text(s@) is None,
        },
{
    match <alloy::primitives::Address as core::str::FromStr>::from_str(s) {
        Ok(a) => Ok(Address { bytes: a.into_array() }),
        Err(e) => Err(e.to_string()),
    }
}

} // verus!
