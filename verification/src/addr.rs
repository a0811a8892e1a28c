//! On-chain account addresses and their textual `0x`-prefixed hex form.

use vstd::prelude::*;
use vstd::string::StringSliceAdditionalSpecFns;

verus! {

/// A 20-byte account address, stored as raw bytes.
#[derive(Debug)]
pub struct Address_ {
    bytes: Vec<u8>,
}

impl View for Address_ {
    type V = Seq<u8>;

    closed spec fn view(&self) -> Seq<u8> {
        self.bytes@
    }
}

impl Clone for Address_ {
    fn clone(&self) -> (r: Self)
        ensures
            r@ == self@,
    {
        let mut bytes: Vec<u8> = Vec::new();
        let mut i: usize = 0;
        while i < self.bytes.len()
            invariant
                i <= self.bytes@.len(),
                bytes@ == self.bytes@.take(i as int),
            decreases self.bytes@.len() - i,
        {
            bytes.push(self.bytes[i]);
            proof {
                assert(bytes@ =~= self.bytes@.take(i + 1));
            }
            i = i + 1;
        }
        proof {
            assert(bytes@ =~= self.bytes@);
        }
        Address_ { bytes }
    }
}

impl Address_ {
    /// An address is exactly 20 bytes long.
    pub open spec fn well_formed(&self) -> bool {
        self@.len() == 20
    }

    pub fn from_bytes(bytes: Vec<u8>) -> (r: Address_)
        ensures
            r@ == bytes@,
    {
        Address_ { bytes }
    }

    pub fn as_bytes(&self) -> (r: &Vec<u8>)
        ensures
            r@ == self@,
    {
        &self.bytes
    }
}

/// An address string that could not be parsed; each variant carries the
/// offending input.
#[derive(Debug)]
pub enum AddressParseError {
    /// The string does not begin with the conventional `0x` prefix.
    MissingPrefix { input: String },
    /// The string has the prefix, but is not followed by exactly 40 hex digits.
    InvalidHex { input: String },
}

pub open spec fn is_hex_digit(b: u8) -> bool {
    (0x30 <= b && b <= 0x39)  // '0'..='9'
    || (0x61 <= b && b <= 0x66)  // 'a'..='f'
    || (0x41 <= b && b <= 0x46)  // 'A'..='F'
}

/// Numeric value of one hex digit byte.
pub open spec fn hex_nibble(b: u8) -> u8 {
    if 0x30 <= b && b <= 0x39 {
        (b - 0x30) as u8
    } else if 0x61 <= b && b <= 0x66 {
        (b - 0x61 + 10) as u8
    } else if 0x41 <= b && b <= 0x46 {
        (b - 0x41 + 10) as u8
    } else {
        0
    }
}

/// The bytes start with `0x`.
pub open spec fn has_hex_prefix(bs: Seq<u8>) -> bool {
    bs.len() >= 2 && bs[0] == 0x30u8 && bs[1] == 0x78u8
}

/// A well-formed address string: `0x` followed by exactly 40 hex digits
/// (two per decoded byte).
pub open spec fn is_hex_address_bytes(bs: Seq<u8>) -> bool {
    &&& bs.len() == 42
    &&& has_hex_prefix(bs)
    &&& forall|t: int|
        0 <= t < 20 ==> is_hex_digit(#[trigger] bs[2 + 2 * t]) && is_hex_digit(bs[3 + 2 * t])
}

/// The 20 bytes denoted by a well-formed address string.
pub open spec fn hex_decoded(bs: Seq<u8>) -> Seq<u8> {
    Seq::new(20, |j: int| (hex_nibble(bs[2 + 2 * j]) * 16 + hex_nibble(bs[3 + 2 * j])) as u8)
}

fn hex_digit_value(b: u8) -> (r: Option<u8>)
    ensures
        r == if is_hex_digit(b) {
            Some(hex_nibble(b))
        } else {
            None::<u8>
        },
{
    if 0x30 <= b && b <= 0x39 {
        Some(b - 0x30)
    } else if 0x61 <= b && b <= 0x66 {
        Some(b - 0x61 + 10)
    } else if 0x41 <= b && b <= 0x46 {
        Some(b - 0x41 + 10)
    } else {
        None
    }
}

/// Parse a `0x`-prefixed, 40-hex-digit account address.
///
/// Exactly the well-formed strings are accepted; a rejected string is carried
/// in the error.
pub fn hex_string_to_address(s: &str) -> (r: Result<Address_, AddressParseError>)
    ensures
        match r {
            Ok(a) => is_hex_address_bytes(s.spec_bytes()) && a@ == hex_decoded(s.spec_bytes())
                && a.well_formed(),
            Err(AddressParseError::MissingPrefix { input }) => !has_hex_prefix(s.spec_bytes())
                && input@ == s@,
            Err(AddressParseError::InvalidHex { input }) => has_hex_prefix(s.spec_bytes())
                && !is_hex_address_bytes(s.spec_bytes()) && input@ == s@,
        },
        r is Ok <==> is_hex_address_bytes(s.spec_bytes()),
{
    let bs = s.as_bytes();
    if bs.len() < 2 || bs[0] != 0x30 || bs[1] != 0x78 {
        return Err(AddressParseError::MissingPrefix { input: s.to_owned() });
    }
    if bs.len() != 42 {
        return Err(AddressParseError::InvalidHex { input: s.to_owned() });
    }
    let mut out: Vec<u8> = Vec::new();
    let mut j: usize = 0;
    while j < 20
        invariant
            bs@ == s.spec_bytes(),
            bs@.len() == 42,
            has_hex_prefix(bs@),
            out@.len() == j,
            j <= 20,
            forall|t: int| 0 <= t < j ==> is_hex_digit(#[trigger] bs@[2 + 2 * t]) && is_hex_digit(
                bs@[3 + 2 * t],
            ) && out@[t] == (hex_nibble(bs@[2 + 2 * t]) * 16 + hex_nibble(bs@[3 + 2 * t])) as u8,
        decreases 20 - j,
    {
        let hi = bs[2 + 2 * j];
        let lo = bs[3 + 2 * j];
        let hv = match hex_digit_value(hi) {
            Some(v) => v,
            None => {
                proof {
                    assert(!is_hex_digit(bs@[2 + 2 * (j as int)]));
                }
                return Err(AddressParseError::InvalidHex { input: s.to_owned() });
            },
        };
        let lv = match hex_digit_value(lo) {
            Some(v) => v,
            None => {
                proof {
                    assert(!is_hex_digit(bs@[3 + 2 * (j as int)]));
                }
                return Err(AddressParseError::InvalidHex { input: s.to_owned() });
            },
        };
        out.push(hv * 16 + lv);
        j = j + 1;
    }
    proof {
        assert(out@ =~= hex_decoded(s.spec_bytes()));
    }
    Ok(Address_ { bytes: out })
}

} // verus!
