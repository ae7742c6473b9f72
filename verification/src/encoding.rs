//! Encodings, digests and identifiers that other crates compute.
use crate::connector::hyperliquid::trading;
use ethers::types::transaction::eip712::Eip712;
use ethers::signers::Signer;
use hmac::Mac;
use std::str::FromStr;
use vstd::prelude::*;
use vstd::utf8::encode_utf8;

verus! {

pub open spec fn hex_digit(n: int) -> char {
    if n < 10 {
        (48 + n) as u8 as char
    } else {
        (87 + n) as u8 as char
    }
}

/// Bytes can be read back from their hexadecimal digits: different bytes are written
/// differently.
pub proof fn law_hex_tells_bytes_apart(a: Seq<u8>, b: Seq<u8>)
    ensures
        hex_of(a).len() == 2 * a.len(),
        forall|i: int| 0 <= i < hex_of(a).len() ==> is_hex_digit(#[trigger] hex_of(a)[i]),
        hex_of(a) == hex_of(b) ==> a == b,
{
    assert forall|i: int| 0 <= i < hex_of(a).len() implies is_hex_digit(
        #[trigger] hex_of(a)[i],
    ) by {
        let v = a[i / 2];
        assert(0 <= v / 16 < 16 && 0 <= v % 16 < 16);
    }
    if hex_of(a) == hex_of(b) {
        assert forall|i: int| 0 <= i < a.len() implies a[i] == b[i] by {
            assert(hex_of(a)[2 * i] == hex_of(b)[2 * i]);
            assert(hex_of(a)[2 * i + 1] == hex_of(b)[2 * i + 1]);
            assert((2 * i) / 2 == i && (2 * i + 1) / 2 == i);
            assert((2 * i) % 2 == 0 && (2 * i + 1) % 2 == 1);
            lemma_hex_digit(a[i] as int / 16, b[i] as int / 16);
            lemma_hex_digit(a[i] as int % 16, b[i] as int % 16);
        }
        assert(hex_of(a).len() == hex_of(b).len());
        assert(a =~= b);
    }
}

/// Different digits are written differently.
proof fn lemma_hex_digit(m: int, n: int)
    requires
        0 <= m < 16,
        0 <= n < 16,
    ensures
        hex_digit(m) == hex_digit(n) ==> m == n,
        capital_hex_digit(m) == capital_hex_digit(n) ==> m == n,
{
}

/// In form encoding different bytes are written differently, and what separates pairs or
/// names from values, or marks a byte by its value, stands for itself in none.
pub proof fn law_encoded_bytes_differ(b: u8, c: u8)
    ensures
        encoded_byte(b) == encoded_byte(c) ==> b == c,
        encoded_byte(b).len() == 1 ==> encoded_byte(b)[0] != '&' && encoded_byte(b)[0] != '='
            && encoded_byte(b)[0] != '%',
        encoded_byte(b).len() == 1 || encoded_byte(b).len() == 3 && encoded_byte(b)[0] == '%',
        b == 0x20 <==> encoded_byte(b) == seq!['+'],
{
    lemma_hex_digit(b as int / 16, c as int / 16);
    lemma_hex_digit(b as int % 16, c as int % 16);
    let (x, y) = (encoded_byte(b), encoded_byte(c));
    if x == y {
        assert(x[0] == y[0]);
        if x.len() == 3 {
            assert(x[1] == y[1] && x[2] == y[2]);
        }
    }
    if x == seq!['+'] {
        assert(x[0] == '+');
    }
}

/// Two hexadecimal digits for each byte, the high one first, letters in lower case.
pub open spec fn hex_of(bytes: Seq<u8>) -> Seq<char> {
    Seq::new(
        2 * bytes.len(),
        |i: int|
            hex_digit(
                if i % 2 == 0 {
                    bytes[i / 2] as int / 16
                } else {
                    bytes[i / 2] as int % 16
                },
            ),
    )
}

/// `hex::encode`: two hexadecimal digits for each byte, letters in lower case.
#[verifier::external_body]
pub(crate) fn hex_encode(bytes: &[u8]) -> (s: String)
    ensures
        s@ == hex_of(bytes@),
{
    hex::encode(bytes)
}

/// A byte that form encoding leaves as it is.
pub open spec fn is_plain(b: u8) -> bool {
    ||| b == 0x2A
    ||| b == 0x2D
    ||| b == 0x2E
    ||| b == 0x5F
    ||| 0x30 <= b <= 0x39
    ||| 0x41 <= b <= 0x5A
    ||| 0x61 <= b <= 0x7A
}

pub open spec fn capital_hex_digit(n: int) -> char {
    if n < 10 {
        (48 + n) as u8 as char
    } else {
        (55 + n) as u8 as char
    }
}

/// A byte in form encoding: itself, `+` for a space, or `%` and its value.
pub open spec fn encoded_byte(b: u8) -> Seq<char> {
    if is_plain(b) {
        seq![b as char]
    } else if b == 0x20 {
        seq!['+']
    } else {
        seq!['%', capital_hex_digit(b as int / 16), capital_hex_digit(b as int % 16)]
    }
}

pub open spec fn encoded_bytes(bytes: Seq<u8>) -> Seq<char>
    decreases bytes.len(),
{
    if bytes.len() == 0 {
        Seq::empty()
    } else {
        encoded_bytes(bytes.drop_last()) + encoded_byte(bytes.last())
    }
}

/// A text in form encoding, by its UTF-8 bytes.
pub open spec fn encoded(s: Seq<char>) -> Seq<char> {
    encoded_bytes(encode_utf8(s))
}

/// A name and its value.
pub type Param = (Seq<char>, Seq<char>);

/// The pairs in form encoding: `name=value`, joined by `&`.
pub open spec fn query_of(pairs: Seq<Param>) -> Seq<char>
    decreases pairs.len(),
{
    if pairs.len() == 0 {
        Seq::empty()
    } else {
        let last = encoded(pairs.last().0) + seq!['='] + encoded(pairs.last().1);
        if pairs.len() == 1 {
            last
        } else {
            query_of(pairs.drop_last()) + seq!['&'] + last
        }
    }
}

pub open spec fn params(pairs: Seq<(String, String)>) -> Seq<Param> {
    Seq::new(pairs.len(), |i: int| (pairs[i].0@, pairs[i].1@))
}

/// `serde_urlencoded::to_string` on pairs of strings: it does not fail, and writes
/// `name=value` for each, joined by `&`, both in form encoding.
#[verifier::external_body]
pub(crate) fn urlencode(pairs: &Vec<(String, String)>) -> (r: Option<String>)
    ensures
        r is Some,
        r->0@ == query_of(params(pairs@)),
{
    serde_urlencoded::to_string(pairs).ok()
}

/// The HMAC-SHA256 of a message under a key.
pub uninterp spec fn hmac_sha256_of(key: Seq<u8>, message: Seq<u8>) -> Seq<u8>;

/// `Hmac::<Sha256>` on one message: `new_from_slice` takes keys of any length, and
/// the tag that `finalize` gives has 32 bytes.
#[verifier::external_body]
pub(crate) fn hmac_sha256(key: &[u8], message: &[u8]) -> (r: Option<Vec<u8>>)
    ensures
        r is Some,
        r->0@ == hmac_sha256_of(key@, message@),
        r->0@.len() == 32,
{
    let mut mac = hmac::Hmac::<sha2::Sha256>::new_from_slice(key).ok()?;
    mac.update(message);
    Some(mac.finalize().into_bytes().to_vec())
}

/// A digit of a number in lower-case hexadecimal.
pub open spec fn is_hex_digit(c: char) -> bool {
    ('0' <= c && c <= '9') || ('a' <= c && c <= 'f')
}

/// `Uuid::new_v4` in its simple form: 32 lower-case hexadecimal digits, drawn at random.
#[verifier::external_body]
pub(crate) fn random_id() -> (s: String)
    ensures
        s@.len() == 32,
        forall|i: int| 0 <= i < s@.len() ==> is_hex_digit(#[trigger] s@[i]),
{
    uuid::Uuid::new_v4().simple().to_string()
}

/// `Utc::now` in milliseconds since the Unix epoch. Nothing is claimed of it.
#[verifier::external_body]
pub(crate) fn utc_millis() -> i64 {
    chrono::Utc::now().timestamp_millis()
}

/// The Keccak-256 digest.
pub uninterp spec fn keccak256_of(bytes: Seq<u8>) -> Seq<u8>;

/// `ethers::utils::keccak256`: the digest has 32 bytes.
#[verifier::external_body]
pub(crate) fn keccak256(bytes: &[u8]) -> (digest: [u8; 32])
    ensures
        digest@ == keccak256_of(bytes@),
{
    ethers::utils::keccak256(bytes)
}

/// The EIP-712 digest of the typed data that a JSON text describes.
pub uninterp spec fn eip712_of(typed_data: Seq<char>) -> Option<Seq<u8>>;

/// `TypedData::encode_eip712`: the digest of the typed data that the JSON text describes;
/// nothing if it describes none, or none that is complete. It takes only the data of an
/// agent, whose one value of fixed size has that size: a longer one is not returned from.
#[verifier::external_body]
pub(crate) fn eip712_digest(typed_data: &str) -> (r: Option<[u8; 32]>)
    requires
        trading::is_agent_data(typed_data@),
    ensures
        eip712_of(typed_data@) == match r {
            Some(d) => Some(d@),
            None => None,
        },
{
    let data: ethers::types::transaction::eip712::TypedData = serde_json::from_str(typed_data).ok()?;
    data.encode_eip712().ok()
}

/// The signature of a digest under a private key: its numbers r and s, each as 32 bytes
/// with the highest first, and v.
pub uninterp spec fn ecdsa_of(private_key: Seq<char>, digest: Seq<u8>) -> Option<
    (Seq<u8>, Seq<u8>, u64),
>;

/// `LocalWallet::sign_hash`: the signature of the digest, which is the same each time
/// (its nonce comes from the key and the digest, RFC 6979); nothing if the key is no
/// private key, or does not sign.
#[verifier::external_body]
pub(crate) fn sign_digest(private_key: &str, digest: [u8; 32]) -> (r: Option<
    ([u8; 32], [u8; 32], u64),
>)
    ensures
        ecdsa_of(private_key@, digest@) == match r {
            Some(t) => Some((t.0@, t.1@, t.2)),
            None => None,
        },
{
    let wallet = ethers::signers::LocalWallet::from_str(private_key).ok()?;
    let sig = wallet.sign_hash(ethers::types::H256::from(digest)).ok()?;
    let (mut r, mut s) = ([0u8; 32], [0u8; 32]);
    sig.r.to_big_endian(&mut r);
    sig.s.to_big_endian(&mut s);
    Some((r, s, sig.v))
}

/// The address that belongs to a private key.
pub uninterp spec fn address_of(private_key: Seq<char>) -> Option<Seq<char>>;

/// `LocalWallet::address`, in hexadecimal; nothing if the key is no private key.
#[verifier::external_body]
pub(crate) fn wallet_address(private_key: &str) -> (r: Option<String>)
    ensures
        address_of(private_key@) == match r {
            Some(a) => Some(a@),
            None => None,
        },
{
    let wallet = ethers::signers::LocalWallet::from_str(private_key).ok()?;
    Some(format!("{:?}", wallet.address()))
}

} // verus!
