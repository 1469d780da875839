//! The digests, encodings and ciphers of the broker, and the boot blob that is made of them.
use crate::bytes;
use base64::engine::general_purpose::STANDARD;
use base64::Engine;
use chacha20poly1305::aead::{Aead, KeyInit};
use chacha20poly1305::{ChaCha20Poly1305, Key, Nonce};
use sha1::{Digest, Sha1};
use vstd::prelude::*;
use vstd::utf8::encode_utf8;

verus! {

/// The SHA-1 digest of some bytes.
pub uninterp spec fn sha1_of(data: Seq<u8>) -> Seq<u8>;

/// `Sha1::digest`: the digest depends on the bytes alone and has twenty bytes.
#[verifier::external_body]
fn sha1_digest(data: &[u8]) -> (r: Vec<u8>)
    ensures
        r@ == sha1_of(data@),
        r@.len() == 20,
{
    Sha1::digest(data).to_vec()
}

/// The base64 text of some bytes, in the standard alphabet with padding.
pub uninterp spec fn base64_of(data: Seq<u8>) -> Seq<char>;

/// What base64 text stands for, or what is said of text that is none.
pub uninterp spec fn base64_decoded(encoded: Seq<u8>) -> Result<Seq<u8>, Seq<char>>;

/// The model of bytes or an error text.
pub open spec fn outcome(r: Result<Vec<u8>, String>) -> Result<Seq<u8>, Seq<char>> {
    match r {
        Ok(v) => Ok(v@),
        Err(e) => Err(e@),
    }
}

/// The outcome is these bytes.
pub open spec fn holds(r: Result<Seq<u8>, Seq<char>>, data: Seq<u8>) -> bool {
    r is Ok && r->Ok_0 == data
}

/// `Engine::encode` of the standard engine: the text depends on the bytes alone, and decoding it
/// gives the bytes back. The text must fit into memory: it has four characters for each three
/// bytes begun.
#[verifier::external_body]
fn base64_encode(data: &[u8]) -> (r: String)
    requires
        data@.len() / 3 * 4 + 4 <= isize::MAX,
    ensures
        r@ == base64_of(data@),
        holds(base64_decoded(encode_utf8(r@)), data@),
{
    STANDARD.encode(data)
}

/// `Engine::decode` of the standard engine: bytes or the text of its error, which depend on the
/// input alone.
#[verifier::external_body]
fn base64_decode(encoded: &[u8]) -> (r: Result<Vec<u8>, String>)
    ensures
        outcome(r) == base64_decoded(encoded@),
{
    match STANDARD.decode(encoded) {
        Ok(v) => Ok(v),
        Err(e) => Err(e.to_string()),
    }
}

/// The longest message that the cipher seals, in bytes: 2^32 - 2 blocks of 64.
pub const SEAL_MOST: u64 = 0x3f_ffff_ff80;

/// A message sealed with a key and a nonce.
pub uninterp spec fn sealed(key: Seq<u8>, nonce: Seq<u8>, plain: Seq<u8>) -> Seq<u8>;

/// What a sealed message holds, or what is said of one that was not sealed with this key and nonce.
pub uninterp spec fn opened(key: Seq<u8>, nonce: Seq<u8>, boxed: Seq<u8>) -> Result<
    Seq<u8>,
    Seq<char>,
>;

/// `ChaCha20Poly1305::encrypt`: succeeds on messages that its key stream is long enough for. The
/// result depends on key, nonce and message alone, is sixteen bytes longer than the message, and
/// decrypts to it. A message of one to 63 bytes more makes the call panic, a longer one makes it
/// fail; both are left out.
#[verifier::external_body]
fn seal(key: &[u8], nonce: &[u8], plain: &[u8]) -> (r: Option<Vec<u8>>)
    requires
        key@.len() == 32,
        nonce@.len() == 12,
        plain@.len() <= SEAL_MOST,
        plain@.len() + 16 <= isize::MAX,
    ensures
        r is Some,
        r->0@ == sealed(key@, nonce@, plain@),
        r->0@.len() == plain@.len() + 16,
        holds(opened(key@, nonce@, r->0@), plain@),
{
    ChaCha20Poly1305::new(Key::from_slice(key)).encrypt(Nonce::from_slice(nonce), plain).ok()
}

/// `ChaCha20Poly1305::decrypt`: the message or the text of its error, which depend on key, nonce and
/// sealed message alone. What is longer than any sealed message is left out: with a valid tag the
/// call may panic on it.
#[verifier::external_body]
fn open_sealed(key: &[u8], nonce: &[u8], boxed: &[u8]) -> (r: Result<Vec<u8>, String>)
    requires
        key@.len() == 32,
        nonce@.len() == 12,
        boxed@.len() <= SEAL_MOST + 16,
    ensures
        outcome(r) == opened(key@, nonce@, boxed@),
{
    match ChaCha20Poly1305::new(Key::from_slice(key)).decrypt(Nonce::from_slice(nonce), boxed) {
        Ok(v) => Ok(v),
        Err(e) => Err(e.to_string()),
    }
}

/// The forty hexadecimal digits of the SHA-1 digest of a text.
pub open spec fn sha1_hex_of(s: Seq<char>) -> Seq<char> {
    bytes::hex_of(sha1_of(encode_utf8(s)))
}

/// The hexadecimal SHA-1 digest of a text.
pub fn sha1_hex(s: &str) -> (r: String)
    ensures
        r@ == sha1_hex_of(s@),
        r@.len() == 40,
        vstd::utf8::is_ascii_chars(r@),
{
    let d = sha1_digest(s.as_bytes());
    proof {
        bytes::lemma_hex_of_len(d@);
        bytes::lemma_hex_of_ascii(d@);
    }
    bytes::hex_text(d.as_slice())
}

/// The base64 text of the bytes of a text.
pub fn base64_text(s: &str) -> (r: String)
    requires
        encode_utf8(s@).len() / 3 * 4 + 4 <= isize::MAX,
    ensures
        r@ == base64_of(encode_utf8(s@)),
{
    base64_encode(s.as_bytes())
}

/// The base64 text of the SHA-1 digest of two texts one after the other.
pub fn sha1_base64(a: &str, b: &str) -> (r: String)
    ensures
        r@ == base64_of(sha1_of(encode_utf8(a@) + encode_utf8(b@))),
{
    let mut data = bytes::copied(a.as_bytes());
    data.extend_from_slice(b.as_bytes());
    assert(data@ =~= encode_utf8(a@) + encode_utf8(b@));
    let d = sha1_digest(data.as_slice());
    base64_encode(d.as_slice())
}

/// The nonce of a boot blob made at a given time: its seconds, and the low half of them again.
pub open spec fn blob_nonce(now_secs: u64) -> Seq<u8> {
    bytes::le(now_secs as nat, 8) + bytes::le(now_secs as nat, 8).take(4)
}

/// The key that boot blobs are sealed with.
pub open spec fn blob_key() -> Seq<u8> {
    encode_utf8("kdfg8kojildksuie23jsdfg8fg7klsdx"@)
}

/// A boot blob: base64 of the nonce and the sealed text. Of a text that is too long for the cipher
/// nothing is sealed.
pub open spec fn boot_blob(plain: Seq<u8>, now_secs: u64) -> Seq<u8> {
    let nonce = blob_nonce(now_secs);
    let boxed = if plain.len() <= SEAL_MOST {
        sealed(blob_key(), nonce, plain)
    } else {
        Seq::empty()
    };
    encode_utf8(base64_of(nonce + boxed))
}

/// There is a boot blob of a text of this length: the base64 text fits into memory, and the text
/// does not end within the block behind the cipher's last one.
pub open spec fn has_blob(len: nat) -> bool {
    if len <= SEAL_MOST {
        (len + 28) / 3 * 4 + 4 <= isize::MAX
    } else {
        len >= SEAL_MOST + 64
    }
}

/// Whether there is a boot blob of a text of this length.
pub fn can_be_blob(len: usize) -> (r: bool)
    ensures
        r == has_blob(len as nat),
{
    if len as u64 <= SEAL_MOST {
        (len as u128 + 28) / 3 * 4 + 4 <= isize::MAX as u128
    } else {
        len as u64 >= SEAL_MOST + 64
    }
}

/// What a boot blob holds, or why it is none.
pub open spec fn boot_blob_content(body: Seq<u8>) -> Result<Seq<u8>, Seq<char>> {
    match base64_decoded(body) {
        Err(e) => Err(e),
        Ok(packed) => if packed.len() < 28 {
            Err("boot blob shorter than nonce+tag"@)
        } else if packed.len() - 12 > SEAL_MOST + 16 {
            Err("aead::Error"@)
        } else {
            opened(blob_key(), packed.take(12), packed.skip(12))
        },
    }
}

/// The boot blob key has the length that the cipher asks for.
proof fn lemma_blob_key()
    ensures
        blob_key().len() == 32,
{
    reveal_strlit("kdfg8kojildksuie23jsdfg8fg7klsdx");
    let s = "kdfg8kojildksuie23jsdfg8fg7klsdx"@;
    assert(vstd::utf8::is_ascii_chars(s));
    vstd::utf8::is_ascii_chars_encode_utf8(s);
}

/// Seals a text into a boot blob.
pub fn encode_boot_blob(plaintext: &[u8], now_secs: u64) -> (r: Vec<u8>)
    requires
        has_blob(plaintext@.len()),
    ensures
        r@ == boot_blob(plaintext@, now_secs),
        plaintext@.len() <= SEAL_MOST ==> holds(boot_blob_content(r@), plaintext@),
{
    let mut packed: Vec<u8> = Vec::new();
    bytes::push_le(&mut packed, now_secs, 8);
    bytes::push_le(&mut packed, now_secs, 4);
    proof {
        lemma_blob_key();
        bytes::lemma_le_len(now_secs as nat, 8);
        bytes::lemma_le_len(now_secs as nat, 4);
        lemma_le_prefix(now_secs as nat, 4, 8);
        assert(packed@ =~= blob_nonce(now_secs));
    }
    let key = "kdfg8kojildksuie23jsdfg8fg7klsdx";
    let ghost nonce = packed@;
    if plaintext.len() as u64 <= SEAL_MOST {
        if let Some(boxed) = seal(key.as_bytes(), packed.as_slice(), plaintext) {
            packed.extend_from_slice(boxed.as_slice());
            assert(packed@ =~= nonce + boxed@);
            assert(packed@.take(12) =~= nonce);
            assert(packed@.skip(12) =~= boxed@);
        }
    } else {
        assert(packed@ =~= nonce + Seq::<u8>::empty());
    }
    let text = base64_encode(packed.as_slice());
    bytes::copied(text.as_str().as_bytes())
}

/// Fewer bytes of a number are the first of more.
proof fn lemma_le_prefix(n: nat, short: nat, long: nat)
    requires
        short <= long,
    ensures
        bytes::le(n, long).len() == long,
        bytes::le(n, long).take(short as int) == bytes::le(n, short),
    decreases short,
{
    bytes::lemma_le_len(n, long);
    bytes::lemma_le_len(n, short);
    if short > 0 {
        lemma_le_prefix(n / 256, (short - 1) as nat, (long - 1) as nat);
        let rest = bytes::le(n / 256, (long - 1) as nat);
        assert(bytes::le(n, long).take(short as int) =~= seq![(n % 256) as u8] + rest.take(
            short - 1,
        ));
    } else {
        assert(bytes::le(n, long).take(0) =~= Seq::empty());
    }
}

/// Opens a boot blob.
pub fn decode_boot_blob(body: &[u8]) -> (r: Result<Vec<u8>, String>)
    ensures
        outcome(r) == boot_blob_content(body@),
{
    let packed = match base64_decode(body) {
        Ok(v) => v,
        Err(e) => {
            return Err(e);
        },
    };
    if packed.len() < 28 {
        return Err("boot blob shorter than nonce+tag".to_owned());
    }
    if (packed.len() - 12) as u64 > SEAL_MOST + 16 {
        return Err("aead::Error".to_owned());
    }
    proof {
        lemma_blob_key();
        assert(packed@.subrange(0, 12) =~= packed@.take(12));
        assert(packed@.subrange(12, packed@.len() as int) =~= packed@.skip(12));
    }
    let key = "kdfg8kojildksuie23jsdfg8fg7klsdx";
    open_sealed(
        key.as_bytes(),
        bytes::part(packed.as_slice(), 0, 12),
        bytes::part(packed.as_slice(), 12, packed.len()),
    )
}

}
