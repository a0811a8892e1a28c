//! The typed watch-list configuration: which addresses and tokens to watch on
//! which networks.

use vstd::prelude::*;
use vstd::string::StringSliceAdditionalSpecFns;
use crate::addr::Address_;

verus! {

/// One watched address: where it lives, whether its native balance is watched,
/// which token symbols are watched for it, and a free-form tag.
#[derive(Debug)]
pub struct ConfigAddress {
    pub address: Address_,
    pub ether: bool,
    pub tokens: Vec<String>,
    pub tag: Option<String>,
}

/// One network: a node URL, a token symbol to contract-address map, and a
/// label to watched-address map. Both maps are kept in configuration order.
#[derive(Debug)]
pub struct ConfigNetwork {
    pub name: String,
    pub url: String,
    pub tokens: Vec<(String, Address_)>,
    pub addresses: Vec<(String, ConfigAddress)>,
}

/// The user-facing configuration: networks in configuration order.
#[derive(Debug)]
pub struct Config {
    pub networks: Vec<ConfigNetwork>,
}

/// A seconds string that could not be read as an unsigned 64-bit count.
#[derive(Debug)]
pub enum SecondsParseError {
    /// Empty, or holding a character that is not a decimal digit.
    NotANumber,
    /// All digits, but the value does not fit in 64 bits.
    Overflow,
}

pub open spec fn is_dec_digit(b: u8) -> bool {
    0x30 <= b && b <= 0x39
}

/// The number written by a sequence of decimal digit bytes.
pub open spec fn digits_value(ds: Seq<u8>) -> int
    decreases ds.len(),
{
    if ds.len() == 0 {
        0
    } else {
        digits_value(ds.drop_last()) * 10 + (ds.last() - 0x30)
    }
}

/// The digits of a numeral, with one optional leading `+` sign removed.
pub open spec fn numeral_body(bs: Seq<u8>) -> Seq<u8> {
    if bs.len() >= 1 && bs[0] == 0x2Bu8 {
        bs.skip(1)
    } else {
        bs
    }
}

pub open spec fn all_dec_digits(ds: Seq<u8>) -> bool {
    forall|i: int| 0 <= i < ds.len() ==> is_dec_digit(#[trigger] ds[i])
}

/// A well-formed unsigned 64-bit numeral: an optional `+`, then at least one
/// digit, with a value of at most `u64::MAX`.
pub open spec fn is_u64_numeral(bs: Seq<u8>) -> bool {
    &&& numeral_body(bs).len() >= 1
    &&& all_dec_digits(numeral_body(bs))
    &&& digits_value(numeral_body(bs)) <= u64::MAX
}

proof fn lemma_digits_value_nonneg(ds: Seq<u8>)
    requires
        all_dec_digits(ds),
    ensures
        digits_value(ds) >= 0,
    decreases ds.len(),
{
    if ds.len() > 0 {
        assert(all_dec_digits(ds.drop_last())) by {
            assert(forall|i: int| 0 <= i < ds.len() - 1 ==> ds.drop_last()[i] == ds[i]);
        }
        lemma_digits_value_nonneg(ds.drop_last());
    }
}

/// Reading more digits never makes the number smaller.
proof fn lemma_digits_value_prefix(ds: Seq<u8>, i: int)
    requires
        all_dec_digits(ds),
        0 <= i <= ds.len(),
    ensures
        digits_value(ds.take(i)) <= digits_value(ds),
    decreases ds.len() - i,
{
    if i < ds.len() {
        assert(all_dec_digits(ds.take(i + 1))) by {
            assert(forall|j: int| 0 <= j < i + 1 ==> ds.take(i + 1)[j] == ds[j]);
        }
        assert(ds.take(i + 1).drop_last() =~= ds.take(i));
        assert(digits_value(ds.take(i + 1)) == digits_value(ds.take(i)) * 10 + (ds[i] - 0x30));
        lemma_digits_value_nonneg(ds.take(i));
        lemma_digits_value_prefix(ds, i + 1);
    } else {
        assert(ds.take(i) =~= ds);
    }
}

/// Read an update interval in whole seconds.
///
/// Exactly the well-formed unsigned 64-bit numerals are accepted, and the
/// value returned is the number they write.
pub fn duration_from_seconds(s: &str) -> (r: Result<u64, SecondsParseError>)
    ensures
        match r {
            Ok(v) => is_u64_numeral(s.spec_bytes()) && v == digits_value(
                numeral_body(s.spec_bytes()),
            ),
            Err(SecondsParseError::NotANumber) => numeral_body(s.spec_bytes()).len() == 0
                || !all_dec_digits(numeral_body(s.spec_bytes())),
            Err(SecondsParseError::Overflow) => numeral_body(s.spec_bytes()).len() >= 1
                && all_dec_digits(numeral_body(s.spec_bytes())) && digits_value(
                numeral_body(s.spec_bytes()),
            ) > u64::MAX,
        },
        r is Ok <==> is_u64_numeral(s.spec_bytes()),
{
    let bs = s.as_bytes();
    let start: usize = if bs.len() >= 1 && bs[0] == 0x2B {
        1
    } else {
        0
    };
    let ghost ds = numeral_body(s.spec_bytes());
    proof {
        assert(ds =~= bs@.skip(start as int));
    }
    if bs.len() == start {
        return Err(SecondsParseError::NotANumber);
    }
    let mut i: usize = start;
    while i < bs.len()
        invariant
            bs@ == s.spec_bytes(),
            ds == bs@.skip(start as int),
            ds == numeral_body(s.spec_bytes()),
            start <= i <= bs@.len(),
            forall|j: int| 0 <= j < i - start ==> is_dec_digit(#[trigger] ds[j]),
        decreases bs@.len() - i,
    {
        let b = bs[i];
        if !(0x30 <= b && b <= 0x39) {
            proof {
                assert(0 <= i - start < ds.len());
                assert(ds[i - start] == b);
                assert(!all_dec_digits(ds)) by {
                    assert(!is_dec_digit(ds[i - start]));
                }
            }
            return Err(SecondsParseError::NotANumber);
        }
        i = i + 1;
    }
    let mut v: u64 = 0;
    i = start;
    while i < bs.len()
        invariant
            bs@ == s.spec_bytes(),
            ds == bs@.skip(start as int),
            ds == numeral_body(s.spec_bytes()),
            start <= i <= bs@.len(),
            all_dec_digits(ds),
            v == digits_value(ds.take(i - start)),
        decreases bs@.len() - i,
    {
        let b = bs[i];
        proof {
            assert(0 <= i - start < ds.len());
            assert(ds[i - start] == b);
            assert(is_dec_digit(b));
        }
        let d: u64 = (b - 0x30) as u64;
        proof {
            assert(ds.take(i - start + 1).drop_last() =~= ds.take(i - start));
            assert(ds.take(i - start + 1).last() == b);
            assert(all_dec_digits(ds.take(i - start + 1))) by {
                assert(forall|j: int|
                    0 <= j < i - start ==> ds.take(i - start + 1)[j] == #[trigger] ds.take(
                        i - start,
                    )[j]);
            }
        }
        let va = match v.checked_mul(10) {
            Some(x) => x,
            None => {
                proof {
                    lemma_digits_value_prefix(ds, i - start + 1);
                    lemma_digits_value_nonneg(ds.take(i - start + 1));
                }
                return Err(SecondsParseError::Overflow);
            },
        };
        let vb = match va.checked_add(d) {
            Some(x) => x,
            None => {
                proof {
                    lemma_digits_value_prefix(ds, i - start + 1);
                }
                return Err(SecondsParseError::Overflow);
            },
        };
        v = vb;
        i = i + 1;
    }
    proof {
        assert(ds.take(i - start) =~= ds);
    }
    Ok(v)
}

} // verus!
