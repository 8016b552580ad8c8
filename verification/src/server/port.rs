//! Checks of command-line values: the port and the item size limit.
use vstd::prelude::*;
use vstd::string::StringExecFns;

use crate::protocol::number::{parse_decimal, parse_unsigned};
use crate::protocol::text::chars_of;

verus! {

/// The lowest port that may be given.
pub const PORT_MIN: usize = 1;

/// The highest port that may be given.
pub const PORT_MAX: usize = 65535;

/// The message for a port argument that is no number.
pub open spec fn not_a_port_message(s: Seq<char>) -> Seq<char> {
    seq!['`'] + s + "` isn't a port number"@
}

/// What `port_in_range` gives for the argument `s`: the port where `s` is a
/// number in 1 - 65535, else the message for the client.
pub open spec fn spec_port_in_range(s: Seq<char>) -> Result<u16, Seq<char>> {
    match parse_unsigned(s, usize::MAX as nat) {
        Err(_) => Err(not_a_port_message(s)),
        Ok(p) => if PORT_MIN <= p <= PORT_MAX {
            Ok(p as u16)
        } else {
            Err("port not in range 1 - 65535"@)
        },
    }
}

/// Reads a port number: a decimal number from 1 to 65535.
pub fn port_in_range(s: &str) -> (res: Result<u16, String>)
    ensures
        match (res, spec_port_in_range(s@)) {
            (Ok(p), Ok(q)) => p == q,
            (Err(m), Err(n)) => m@ == n,
            _ => false,
        },
{
    let chars = chars_of(s);
    match parse_decimal(chars.as_slice(), usize::MAX as u64) {
        Err(_) => {
            let mut msg = String::from_str("`");
            msg.append(s);
            msg.append("` isn't a port number");
            proof {
                reveal_strlit("`");
            }
            assert(msg@ =~= not_a_port_message(s@));
            Err(msg)
        },
        Ok(p) => {
            if PORT_MIN as u64 <= p && p <= PORT_MAX as u64 {
                Ok(p as u16)
            } else {
                Err(String::from_str("port not in range 1 - 65535"))
            }
        },
    }
}

/// The factor of a size unit: `k`, `m` and `g` (either case) stand for
/// thousand, million and billion.
pub open spec fn size_unit(c: char) -> Option<nat> {
    if c == 'k' || c == 'K' {
        Some(1_000)
    } else if c == 'm' || c == 'M' {
        Some(1_000_000)
    } else if c == 'g' || c == 'G' {
        Some(1_000_000_000)
    } else {
        None
    }
}

/// The message for an item size argument that is refused.
pub open spec fn bad_item_size_message(s: Seq<char>) -> Seq<char> {
    seq!['`'] + s + "` isn't a valid item size"@
}

/// What `item_size_valid` gives for `s`: a decimal number of bytes,
/// optionally followed by one unit letter, where the size fits a `u64`.
pub open spec fn spec_item_size(s: Seq<char>) -> Result<u64, Seq<char>> {
    if s.len() > 0 && size_unit(s.last()) is Some {
        match parse_unsigned(s.drop_last(), u64::MAX as nat) {
            Ok(n) => if n * size_unit(s.last())->Some_0 <= u64::MAX {
                Ok((n * size_unit(s.last())->Some_0) as u64)
            } else {
                Err(bad_item_size_message(s))
            },
            Err(_) => Err(bad_item_size_message(s)),
        }
    } else {
        match parse_unsigned(s, u64::MAX as nat) {
            Ok(n) => Ok(n as u64),
            Err(_) => Err(bad_item_size_message(s)),
        }
    }
}

fn unit_factor(c: char) -> (res: Option<u64>)
    ensures
        match (res, size_unit(c)) {
            (Some(f), Some(g)) => f == g,
            (None, None) => true,
            _ => false,
        },
{
    if c == 'k' || c == 'K' {
        Some(1_000)
    } else if c == 'm' || c == 'M' {
        Some(1_000_000)
    } else if c == 'g' || c == 'G' {
        Some(1_000_000_000)
    } else {
        None
    }
}

fn bad_item_size(s: &str) -> (res: String)
    ensures
        res@ == bad_item_size_message(s@),
{
    let mut msg = String::from_str("`");
    msg.append(s);
    msg.append("` isn't a valid item size");
    proof {
        reveal_strlit("`");
    }
    assert(msg@ =~= bad_item_size_message(s@));
    msg
}

/// Reads an item size: a number of bytes, optionally with a unit letter
/// (`2m` is 2,000,000 bytes).
pub fn item_size_valid(s: &str) -> (res: Result<u64, String>)
    ensures
        match (res, spec_item_size(s@)) {
            (Ok(p), Ok(q)) => p == q,
            (Err(m), Err(n)) => m@ == n,
            _ => false,
        },
{
    let chars = chars_of(s);
    let n = chars.len();
    if n > 0 {
        if let Some(f) = unit_factor(chars[n - 1]) {
            let digits = &chars.as_slice()[0..n - 1];
            assert(digits@ =~= s@.drop_last());
            return match parse_decimal(digits, u64::MAX) {
                Ok(v) => {
                    assert(v as u128 * f as u128 <= u64::MAX as u128 * 1_000_000_000u128) by (nonlinear_arith)
                        requires
                            v <= u64::MAX,
                            f <= 1_000_000_000,
                    ;
                    let total: u128 = v as u128 * f as u128;
                    if total <= u64::MAX as u128 {
                        Ok(total as u64)
                    } else {
                        Err(bad_item_size(s))
                    }
                },
                Err(_) => Err(bad_item_size(s)),
            };
        }
    }
    match parse_decimal(chars.as_slice(), u64::MAX) {
        Ok(v) => Ok(v),
        Err(_) => Err(bad_item_size(s)),
    }
}

} // verus!
