use vstd::prelude::*;
use vstd::string::*;

use rand::Rng;
use sha3::digest::Update;
use sha3::{Digest, Sha3_256};

use crate::text::{dec_of, u64_to_string};

verus! {

/// The SHA3-256 digest of a text, 32 bytes. The digest is a function of the
/// input alone; nothing further is assumed of it.
pub uninterp spec fn sha3_256_of(input: Seq<char>) -> Seq<u8>;

/// Relies on sha3::Sha3_256 (new, chain, finalize): the 32-byte SHA3-256
/// digest of the input bytes, a function of the input alone.
#[verifier::external_body]
fn sha3_256(input: &str) -> (r: Vec<u8>)
    ensures
        r@ == sha3_256_of(input@),
        r@.len() == 32,
{
    let hash = Sha3_256::new().chain(input).finalize();
    hash.to_vec()
}

/// The lowercase hex character for `d` (0 through 15).
pub open spec fn hex_digit(d: nat) -> char {
    if d == 0 {
        '0'
    } else if d == 1 {
        '1'
    } else if d == 2 {
        '2'
    } else if d == 3 {
        '3'
    } else if d == 4 {
        '4'
    } else if d == 5 {
        '5'
    } else if d == 6 {
        '6'
    } else if d == 7 {
        '7'
    } else if d == 8 {
        '8'
    } else if d == 9 {
        '9'
    } else if d == 10 {
        'a'
    } else if d == 11 {
        'b'
    } else if d == 12 {
        'c'
    } else if d == 13 {
        'd'
    } else if d == 14 {
        'e'
    } else {
        'f'
    }
}

/// The lowercase hex rendering of a byte string: two digits per byte, high
/// nibble first.
pub open spec fn hex_of(bytes: Seq<u8>) -> Seq<char> {
    Seq::new(
        bytes.len() * 2,
        |i: int|
            if i % 2 == 0 {
                hex_digit((bytes[i / 2] / 16) as nat)
            } else {
                hex_digit((bytes[i / 2] % 16) as nat)
            },
    )
}

/// Relies on hex::encode: the lowercase hex rendering of the bytes, two
/// digits per byte, high nibble first.
#[verifier::external_body]
fn hex_encode(bytes: &Vec<u8>) -> (r: String)
    ensures
        r@ == hex_of(bytes@),
{
    hex::encode(bytes)
}

/// Relies on rand::Rng::gen_range on rand::thread_rng: a value drawn from the
/// half-open range, which panics only on an empty range.
#[verifier::external_body]
fn rand_range(lo: u32, hi: u32) -> (r: u32)
    requires
        lo < hi,
    ensures
        lo <= r < hi,
{
    rand::thread_rng().gen_range(lo..hi)
}

/// Relies on chrono::Utc::now and its Display rendering: the current UTC
/// instant as text. Nothing is assumed of the value.
#[verifier::external_body]
pub(crate) fn now_utc_string() -> (r: String) {
    format!("{}", chrono::Utc::now().to_utc())
}


/// Mints a six-digit login code: uniformly random in [100000, 999999], so the
/// leading digit is never zero.
pub fn gen_login_code() -> (r: u32)
    ensures
        100000 <= r <= 999999,
{
    let first_digit = rand_range(1, 10);
    let remaining_digits = rand_range(0, 100000);
    first_digit * 100000 + remaining_digits
}

/// The server-scoped capability token derived from a bearer and a target
/// (server identity, domain, port): the hex SHA3-256 digest of their
/// concatenation.
pub open spec fn stoken_of(
    token: Seq<char>,
    server_id: Seq<char>,
    domain: Seq<char>,
    port: u16,
) -> Seq<char> {
    hex_of(sha3_256_of(token + server_id + domain + dec_of(port as nat)))
}

/// Derives the server-scoped capability token presented to a chat server in
/// lieu of the bearer itself.
pub fn stoken(token: &str, serverid: &str, domain: &str, port: u16) -> (r: String)
    ensures
        r@ == stoken_of(token@, serverid@, domain@, port),
        r@.len() == 64,
{
    let mut input = token.to_owned();
    input.append(serverid);
    input.append(domain);
    let port_text = u64_to_string(port as u64);
    input.append(port_text.as_str());
    let digest = sha3_256(input.as_str());
    hex_encode(&digest)
}

/// The bearer token minted at login completion: the hex SHA3-256 digest of
/// the username, the consumed code and the minting instant.
pub open spec fn bearer_of(username: Seq<char>, code: u32, now: Seq<char>) -> Seq<char> {
    hex_of(sha3_256_of(username + dec_of(code as nat) + now))
}

/// Mints a bearer token for a completed login: 64 hex characters.
pub fn mint_bearer(username: &str, code: u32, now: &str) -> (r: String)
    ensures
        r@ == bearer_of(username@, code, now@),
        r@.len() == 64,
{
    let mut input = username.to_owned();
    let code_text = u64_to_string(code as u64);
    input.append(code_text.as_str());
    input.append(now);
    let digest = sha3_256(input.as_str());
    hex_encode(&digest)
}

} // verus!
