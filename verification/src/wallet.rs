//! The single default-wallet record: keypair bytes are framed as the
//! tiny JSON object `{"keypair":"<base64>"}` before they go to the
//! secure backend, and checked and unframed when they come back.

use crate::codec::{b64_bytes_of, b64_decode, b64_encode, b64_of};
use vstd::prelude::*;
use vstd::string::*;

verus! {

/// Service name the single default wallet is stored under.
pub const WALLET_SERVICE: &'static str = "solana-wallet-app";

/// Account name of the single default wallet.
pub const WALLET_ACCOUNT: &'static str = "default-wallet";

/// The opening frame of a wallet record.
pub open spec fn record_prefix() -> Seq<char> {
    "{\"keypair\":\""@
}

/// The closing frame of a wallet record.
pub open spec fn record_suffix() -> Seq<char> {
    "\"}"@
}

/// The record that stores `b`: the frame around the base64 encoding.
pub open spec fn wallet_record_spec(b: Seq<u8>) -> Seq<char> {
    record_prefix() + b64_of(b) + record_suffix()
}

/// The keypair bytes a stored record holds: the frame must be intact
/// and the middle must decode as base64.
pub open spec fn parse_record_spec(s: Seq<char>) -> Option<Seq<u8>> {
    if s.len() >= 14 && s.subrange(0, 12) == record_prefix() && s.subrange(
        s.len() - 2,
        s.len() as int,
    ) == record_suffix() {
        b64_bytes_of(s.subrange(12, s.len() - 2))
    } else {
        None
    }
}

/// Frames keypair bytes as the record to store; parsing the result
/// gives the bytes back.
pub fn wallet_record(keypair_bytes: &Vec<u8>) -> (r: String)
    requires
        keypair_bytes@.len() <= usize::MAX as int / 4,
    ensures
        r@ == wallet_record_spec(keypair_bytes@),
        parse_record_spec(r@) == Some(keypair_bytes@),
{
    let encoded = b64_encode(keypair_bytes.as_slice());
    let mut s = String::from_str("{\"keypair\":\"");
    s.append(encoded.as_str());
    s.append("\"}");
    proof {
        reveal_strlit("{\"keypair\":\"");
        reveal_strlit("\"}");
        let b = keypair_bytes@;
        let whole = record_prefix() + b64_of(b) + record_suffix();
        assert(s@ =~= whole);
        assert(whole.subrange(0, 12) =~= record_prefix());
        assert(whole.subrange(whole.len() - 2, whole.len() as int) =~= record_suffix());
        assert(whole.subrange(12, whole.len() - 2) =~= b64_of(b));
    }
    s
}

/// Checks the frame of a stored record and decodes the keypair bytes
/// it holds; a broken frame or invalid base64 yields nothing.
pub fn parse_wallet_record(s: &str) -> (r: Option<Vec<u8>>)
    ensures
        match r {
            Some(v) => parse_record_spec(s@) == Some(v@),
            None => parse_record_spec(s@) is None,
        },
{
    proof {
        reveal_strlit("{\"keypair\":\"");
        reveal_strlit("\"}");
    }
    let n = s.unicode_len();
    if n < 14 {
        return None;
    }
    let prefix = "{\"keypair\":\"";
    let mut i: usize = 0;
    while i < 12
        invariant
            i <= 12,
            14 <= n == s@.len(),
            prefix@ == record_prefix(),
            prefix@.len() == 12,
            forall|k: int| 0 <= k < i ==> s@[k] == record_prefix()[k],
        decreases 12 - i,
    {
        if s.get_char(i) != prefix.get_char(i) {
            assert(s@.subrange(0, 12) != record_prefix()) by {
                assert(s@.subrange(0, 12)[i as int] != record_prefix()[i as int]);
            }
            return None;
        }
        i = i + 1;
    }
    assert(s@.subrange(0, 12) =~= record_prefix());
    if s.get_char(n - 2) != '"' || s.get_char(n - 1) != '}' {
        assert(s@.subrange(n - 2, n as int) != record_suffix()) by {
            if s@[n - 2] != '"' {
                assert(s@.subrange(n - 2, n as int)[0] != record_suffix()[0]);
            } else {
                assert(s@.subrange(n - 2, n as int)[1] != record_suffix()[1]);
            }
        }
        return None;
    }
    assert(s@.subrange(n - 2, n as int) =~= record_suffix());
    let middle = s.substring_char(12, n - 2);
    b64_decode(middle)
}

} // verus!
