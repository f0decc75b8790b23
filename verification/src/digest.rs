//! Everything built on SHA-2: `std::hash` digests and HMAC-SHA256, the
//! deterministic `std::random` streams, and the `std::id` helpers (slugs and
//! name-based UUIDs).

use sha2::{Digest, Sha256, Sha512};

use vstd::prelude::*;
use vstd::utf8::*;

use crate::hex::hex_encoding;
use crate::host::be_bytes_value;
use crate::strbuf::{push_char, str_eq};
use crate::text::join_spec;

verus! {

/// The SHA-256 digest of a message.
pub uninterp spec fn sha256(data: Seq<u8>) -> Seq<u8>;

/// The SHA-512 digest of a message.
pub uninterp spec fn sha512(data: Seq<u8>) -> Seq<u8>;

/// `sha2::Sha256::digest`: the SHA-256 digest of `data`, 32 bytes.
#[verifier::external_body]
fn sha256_digest(data: &[u8]) -> (r: Vec<u8>)
    ensures
        r@ == sha256(data@),
        r@.len() == 32,
{
    Sha256::digest(data).to_vec()
}

/// `sha2::Sha512::digest`: the SHA-512 digest of `data`, 64 bytes.
#[verifier::external_body]
fn sha512_digest(data: &[u8]) -> (r: Vec<u8>)
    ensures
        r@ == sha512(data@),
        r@.len() == 64,
{
    Sha512::digest(data).to_vec()
}

/// HMAC and SHA-256 share the same 64-byte block.
pub const HMAC_BLOCK: usize = 64;

/// The HMAC key block: a key longer than the block is replaced by its
/// digest; the key is then padded with zeros to the block.
pub open spec fn hmac_key_block(key: Seq<u8>) -> Seq<u8> {
    let k = if key.len() > HMAC_BLOCK {
        sha256(key)
    } else {
        key
    };
    k + Seq::new((HMAC_BLOCK - k.len()) as nat, |i: int| 0u8)
}

/// Every byte of `block` XORed with `pad`.
pub open spec fn xor_pad(block: Seq<u8>, pad: u8) -> Seq<u8> {
    block.map_values(|b: u8| b ^ pad)
}

/// HMAC-SHA256 per RFC 2104.
pub open spec fn hmac_sha256_spec(key: Seq<u8>, message: Seq<u8>) -> Seq<u8> {
    let block = hmac_key_block(key);
    sha256(xor_pad(block, 0x5cu8) + sha256(xor_pad(block, 0x36u8) + message))
}

fn append_bytes(out: &mut Vec<u8>, bytes: &[u8])
    ensures
        final(out)@ == old(out)@ + bytes@,
{
    let mut i: usize = 0;
    while i < bytes.len()
        invariant
            i <= bytes@.len(),
            out@ == old(out)@ + bytes@.take(i as int),
        decreases bytes@.len() - i,
    {
        out.push(bytes[i]);
        assert(bytes@.take(i + 1) =~= bytes@.take(i as int).push(bytes@[i as int]));
        i = i + 1;
    }
    assert(bytes@.take(i as int) =~= bytes@);
}

fn padded_xor(block: &Vec<u8>, pad: u8) -> (r: Vec<u8>)
    ensures
        r@ == xor_pad(block@, pad),
{
    let mut out: Vec<u8> = Vec::new();
    let mut i: usize = 0;
    while i < block.len()
        invariant
            i <= block@.len(),
            out@ == xor_pad(block@.take(i as int), pad),
        decreases block@.len() - i,
    {
        out.push(block[i] ^ pad);
        assert(xor_pad(block@.take(i + 1), pad) =~= xor_pad(block@.take(i as int), pad).push(
            block@[i as int] ^ pad,
        ));
        i = i + 1;
    }
    assert(block@.take(i as int) =~= block@);
    out
}

/// HMAC-SHA256 of `message` under `key`, per RFC 2104.
pub fn hmac_sha256(key: &[u8], message: &[u8]) -> (r: Vec<u8>)
    ensures
        r@ == hmac_sha256_spec(key@, message@),
{
    let mut block: Vec<u8> = if key.len() > HMAC_BLOCK {
        sha256_digest(key)
    } else {
        let mut k: Vec<u8> = Vec::new();
        append_bytes(&mut k, key);
        k
    };
    let ghost k = block@;
    while block.len() < HMAC_BLOCK
        invariant
            k.len() <= block@.len() <= HMAC_BLOCK,
            block@ == k + Seq::new((block@.len() - k.len()) as nat, |i: int| 0u8),
        decreases HMAC_BLOCK - block@.len(),
    {
        let ghost before = block@;
        block.push(0u8);
        assert(block@ =~= k + Seq::new((block@.len() - k.len()) as nat, |i: int| 0u8));
    }
    assert(block@ == hmac_key_block(key@));
    let mut inner = padded_xor(&block, 0x36u8);
    append_bytes(&mut inner, message);
    let inner_digest = sha256_digest(inner.as_slice());
    let mut outer = padded_xor(&block, 0x5cu8);
    append_bytes(&mut outer, inner_digest.as_slice());
    sha256_digest(outer.as_slice())
}

// ---------------------------------------------------------------------------
// `std::hash` operations.
/// The `std::hash` operations.
#[derive(Debug, Clone, Copy, PartialEq, Eq, Structural)]
pub enum HashOp {
    Sha256,
    Sha512,
    HmacSha256,
}

/// The hash operation an operation name selects.
pub open spec fn hash_op_named(name: Seq<char>) -> Option<HashOp> {
    if name == "sha256"@ {
        Some(HashOp::Sha256)
    } else if name == "sha512"@ {
        Some(HashOp::Sha512)
    } else if name == "hmacSha256"@ {
        Some(HashOp::HmacSha256)
    } else {
        None
    }
}

impl HashOp {
    /// The hash operation named `name`, or `None` for an operation
    /// `std::hash` does not have.
    pub fn from_name(name: &str) -> (r: Option<Self>)
        ensures
            r == hash_op_named(name@),
    {
        if str_eq(name, "sha256") {
            Some(HashOp::Sha256)
        } else if str_eq(name, "sha512") {
            Some(HashOp::Sha512)
        } else if str_eq(name, "hmacSha256") {
            Some(HashOp::HmacSha256)
        } else {
            None
        }
    }
}

/// A hash operation given the wrong number of arguments.
#[derive(Debug, Clone, Copy, PartialEq, Eq, Structural)]
pub struct HashArity;

/// The byte views of a list of byte strings.
pub open spec fn byte_views(args: Seq<Vec<u8>>) -> Seq<Seq<u8>> {
    args.map_values(|v: Vec<u8>| v@)
}

/// What a hash operation computes over its byte arguments: a digest of the
/// one message, or the HMAC of the message under the key; `None` for the
/// wrong number of arguments.
pub open spec fn hash_spec(op: HashOp, args: Seq<Seq<u8>>) -> Option<Seq<u8>> {
    match op {
        HashOp::Sha256 => if args.len() == 1 {
            Some(sha256(args[0]))
        } else {
            None
        },
        HashOp::Sha512 => if args.len() == 1 {
            Some(sha512(args[0]))
        } else {
            None
        },
        HashOp::HmacSha256 => if args.len() == 2 {
            Some(hmac_sha256_spec(args[0], args[1]))
        } else {
            None
        },
    }
}

/// Runs a hash operation over its byte arguments: `sha256` and `sha512` take
/// the message, `hmacSha256` the key and then the message.
pub fn hash_bytes(op: HashOp, args: &[Vec<u8>]) -> (r: Result<Vec<u8>, HashArity>)
    ensures
        match hash_spec(op, byte_views(args@)) {
            Some(d) => r matches Ok(v) && v@ == d,
            None => r == Err::<Vec<u8>, HashArity>(HashArity),
        },
{
    match op {
        HashOp::Sha256 => {
            if args.len() != 1 {
                return Err(HashArity);
            }
            Ok(sha256_digest(args[0].as_slice()))
        },
        HashOp::Sha512 => {
            if args.len() != 1 {
                return Err(HashArity);
            }
            Ok(sha512_digest(args[0].as_slice()))
        },
        HashOp::HmacSha256 => {
            if args.len() != 2 {
                return Err(HashArity);
            }
            Ok(hmac_sha256(args[0].as_slice(), args[1].as_slice()))
        },
    }
}

// ---------------------------------------------------------------------------
// Deterministic random streams.
/// The low `n` bytes of `v`, most significant first.
pub open spec fn be_bytes(v: nat, n: nat) -> Seq<u8>
    decreases n,
{
    if n == 0 {
        Seq::empty()
    } else {
        be_bytes(v / 256, (n - 1) as nat).push((v % 256) as u8)
    }
}

/// Appends the low `n` bytes of `v`, most significant first.
fn push_be(out: &mut Vec<u8>, v: u64, n: usize)
    requires
        n <= 8,
    ensures
        final(out)@ == old(out)@ + be_bytes(v as nat, n as nat),
    decreases n,
{
    if n > 0 {
        push_be(out, v / 256, n - 1);
        out.push((v % 256) as u8);
        assert(out@ =~= old(out)@ + be_bytes(v as nat, n as nat));
    } else {
        assert(out@ =~= old(out)@ + be_bytes(v as nat, 0));
    }
}

/// The message of one draw of a random stream: the domain, a zero byte, the
/// seed's byte length and bytes, the step and the attempt, all big-endian.
pub open spec fn prf_message(domain: Seq<char>, seed: Seq<char>, step: i64, attempt: u64) -> Seq<u8> {
    encode_utf8(domain) + seq![0u8] + be_bytes(encode_utf8(seed).len(), 8) + encode_utf8(seed)
        + be_bytes((step as u64) as nat, 8) + be_bytes(attempt as nat, 8)
}

/// One draw of a random stream: the first 16 digest bytes of its message,
/// read big-endian.
pub open spec fn prf_value(domain: Seq<char>, seed: Seq<char>, step: i64, attempt: u64) -> int {
    be_bytes_value(sha256(prf_message(domain, seed, step, attempt)).take(16))
}

fn be_u128_of(bytes: &[u8]) -> (r: u128)
    requires
        bytes@.len() >= 16,
    ensures
        r as int == be_bytes_value(bytes@.take(16)),
{
    let mut arr = [0u8; 16];
    let mut i: usize = 0;
    while i < 16
        invariant
            i <= 16,
            bytes@.len() >= 16,
            arr@.len() == 16,
            forall|j: int| 0 <= j < i ==> arr@[j] == bytes@[j],
        decreases 16 - i,
    {
        arr.set(i, bytes[i]);
        i = i + 1;
    }
    assert(arr@ =~= bytes@.take(16));
    crate::host::entropy_from_be_bytes(arr)
}

/// One draw of the random stream `domain` for `seed` at `step`.
pub fn prf_u128(domain: &str, seed: &str, step: i64, attempt: u64) -> (r: u128)
    ensures
        r as int == prf_value(domain@, seed@, step, attempt),
{
    let mut message: Vec<u8> = Vec::new();
    append_bytes(&mut message, domain.as_bytes());
    message.push(0u8);
    let seed_bytes = seed.as_bytes();
    push_be(&mut message, seed_bytes.len() as u64, 8);
    append_bytes(&mut message, seed_bytes);
    push_be(&mut message, step as u64, 8);
    push_be(&mut message, attempt, 8);
    assert(message@ =~= prf_message(domain@, seed@, step, attempt));
    let digest = sha256_digest(message.as_slice());
    be_u128_of(digest.as_slice())
}

/// The width of the range `min..=max`.
pub open spec fn range_width(min: i64, max: i64) -> int {
    max - min + 1
}

/// The draws at or above this bound are rejected, so the accepted ones fall
/// evenly on the range.
pub open spec fn rejection_threshold(width: int) -> int {
    u128::MAX - ((u128::MAX as int) % width)
}

/// The int that rejection sampling draws from attempt `attempt` on: the first
/// accepted draw, folded into the range.
pub open spec fn sample_from(seed: Seq<char>, step: i64, min: i64, max: i64, attempt: u64) -> Option<int>
    decreases u64::MAX - attempt,
{
    let width = range_width(min, max);
    let candidate = prf_value("random.int"@, seed, step, attempt);
    if candidate < rejection_threshold(width) {
        Some(min + candidate % width)
    } else if attempt == u64::MAX {
        None
    } else {
        sample_from(seed, step, min, max, (attempt + 1) as u64)
    }
}

proof fn lemma_sample_in_range(seed: Seq<char>, step: i64, min: i64, max: i64, attempt: u64)
    requires
        min <= max,
    ensures
        sample_from(seed, step, min, max, attempt) matches Some(v) ==> min <= v <= max,
    decreases u64::MAX - attempt,
{
    let width = range_width(min, max);
    let candidate = prf_value("random.int"@, seed, step, attempt);
    if candidate < rejection_threshold(width) {
        vstd::arithmetic::div_mod::lemma_mod_bound(candidate, width);
    } else if attempt < u64::MAX {
        lemma_sample_in_range(seed, step, min, max, (attempt + 1) as u64);
    }
}

/// An int between `min` and `max`, drawn from the stream of `seed` at `step`
/// by rejection sampling: `None` only if every one of the 2^64 attempts were
/// rejected.
pub fn random_int(seed: &str, step: i64, min: i64, max: i64) -> (r: Option<i64>)
    requires
        min <= max,
    ensures
        match sample_from(seed@, step, min, max, 0) {
            Some(v) => r == Some(v as i64) && min <= v <= max,
            None => r is None,
        },
{
    proof {
        lemma_sample_in_range(seed@, step, min, max, 0);
    }
    let width: u128 = (max as i128 - min as i128 + 1) as u128;
    let threshold = u128::MAX - (u128::MAX % width);
    let mut attempt: u64 = 0;
    loop
        invariant
            min <= max,
            width as int == range_width(min, max),
            threshold as int == rejection_threshold(width as int),
            sample_from(seed@, step, min, max, attempt) == sample_from(seed@, step, min, max, 0),
            sample_from(seed@, step, min, max, 0) matches Some(v) ==> min <= v <= max,
        decreases u64::MAX - attempt,
    {
        let candidate = prf_u128("random.int", seed, step, attempt);
        proof {
            reveal_strlit("random.int");
        }
        if candidate < threshold {
            let offset = candidate % width;
            let value = min as i128 + offset as i128;
            return Some(value as i64);
        }
        if attempt == u64::MAX {
            return None;
        }
        attempt = attempt + 1;
    }
}

/// A bool drawn from the stream of `seed` at `step`: the low bit of the first
/// draw.
pub fn random_bool(seed: &str, step: i64) -> (r: bool)
    ensures
        r == (prf_value("random.bool"@, seed@, step, 0) % 2 == 1),
{
    let v = prf_u128("random.bool", seed, step, 0);
    assert((v & 1) == (v % 2)) by (bit_vector);
    (v & 1) == 1
}

/// A decimal in `0..1` drawn from the stream of `seed` at `step`, as its
/// coefficient at scale 18: the first draw modulo `10^18`.
pub fn random_decimal_units(seed: &str, step: i64) -> (r: i128)
    ensures
        r as int == prf_value("random.decimal"@, seed@, step, 0) % 1_000_000_000_000_000_000,
        0 <= r < 1_000_000_000_000_000_000,
{
    let v = prf_u128("random.decimal", seed, step, 0);
    (v % 1_000_000_000_000_000_000u128) as i128
}

// ---------------------------------------------------------------------------
// Identifiers.
/// Appends the lowercase hex of every byte.
pub fn push_lower_hex(out: &mut String, bytes: &[u8])
    ensures
        final(out)@ == old(out)@ + hex_encoding(bytes@),
{
    let mut i: usize = 0;
    let ghost start = out@;
    while i < bytes.len()
        invariant
            i <= bytes@.len(),
            out@ == start + hex_encoding(bytes@.take(i as int)),
        decreases bytes@.len() - i,
    {
        let b = bytes[i];
        let hi = b >> 4;
        let lo = b & 0x0f;
        assert(hi < 16 && hi == b / 16) by (bit_vector)
            requires
                hi == b >> 4,
        ;
        assert(lo < 16 && lo == b % 16) by (bit_vector)
            requires
                lo == b & 0x0f,
        ;
        let h = if hi < 10 {
            (hi + 48) as char
        } else {
            (hi + 87) as char
        };
        let l = if lo < 10 {
            (lo + 48) as char
        } else {
            (lo + 87) as char
        };
        proof {
            assert(bytes@.take(i + 1).drop_last() =~= bytes@.take(i as int));
            assert(bytes@.take(i + 1).last() == b);
        }
        push_char(out, h);
        push_char(out, l);
        assert(out@ =~= start + hex_encoding(bytes@.take(i + 1)));
        i = i + 1;
    }
    assert(bytes@.take(i as int) =~= bytes@);
}

/// The 16 bytes of a name-based UUID for `seed`: the first 16 bytes of its
/// SHA-256 digest with the version (4) and variant (RFC 4122) bits set.
pub open spec fn uuid_bytes(seed: Seq<char>) -> Seq<u8> {
    let d = sha256(encode_utf8(seed)).take(16);
    d.update(6, (d[6] & 0x0f) | 0x40).update(8, (d[8] & 0x3f) | 0x80)
}

/// A UUID's bytes spelled in the 8-4-4-4-12 hex form.
pub open spec fn uuid_text(b: Seq<u8>) -> Seq<char> {
    hex_encoding(b.subrange(0, 4)) + seq!['-'] + hex_encoding(b.subrange(4, 6)) + seq!['-']
        + hex_encoding(b.subrange(6, 8)) + seq!['-'] + hex_encoding(b.subrange(8, 10)) + seq!['-']
        + hex_encoding(b.subrange(10, 16))
}

/// The name-based UUID of `seed`.
pub fn stable_uuid(seed: &str) -> (r: String)
    ensures
        r@ == uuid_text(uuid_bytes(seed@)),
{
    let digest = sha256_digest(seed.as_bytes());
    let mut bytes: Vec<u8> = Vec::new();
    let mut i: usize = 0;
    while i < 16
        invariant
            i <= 16,
            digest@.len() == 32,
            bytes@ == digest@.take(i as int),
        decreases 16 - i,
    {
        bytes.push(digest[i]);
        assert(digest@.take(i + 1) =~= digest@.take(i as int).push(digest@[i as int]));
        i = i + 1;
    }
    let b6 = (bytes[6] & 0x0f) | 0x40;
    bytes.set(6, b6);
    let b8 = (bytes[8] & 0x3f) | 0x80;
    bytes.set(8, b8);
    assert(bytes@ =~= uuid_bytes(seed@));
    let mut out = String::new();
    push_lower_hex(&mut out, vstd::slice::slice_subrange(bytes.as_slice(), 0, 4));
    push_char(&mut out, '-');
    push_lower_hex(&mut out, vstd::slice::slice_subrange(bytes.as_slice(), 4, 6));
    push_char(&mut out, '-');
    push_lower_hex(&mut out, vstd::slice::slice_subrange(bytes.as_slice(), 6, 8));
    push_char(&mut out, '-');
    push_lower_hex(&mut out, vstd::slice::slice_subrange(bytes.as_slice(), 8, 10));
    push_char(&mut out, '-');
    push_lower_hex(&mut out, vstd::slice::slice_subrange(bytes.as_slice(), 10, 16));
    assert(out@ =~= uuid_text(uuid_bytes(seed@)));
    out
}

/// Whether a byte is an ASCII letter or digit.
pub open spec fn is_slug_byte(b: u8) -> bool {
    65 <= b <= 90 || 97 <= b <= 122 || 48 <= b <= 57
}

/// An ASCII letter or digit, lowercased.
pub open spec fn slug_char(b: u8) -> char {
    if 65 <= b <= 90 {
        (b + 32) as char
    } else {
        b as char
    }
}

/// The maximal runs of ASCII letters and digits in `bytes`, lowercased, in
/// order.
pub open spec fn alnum_runs(bytes: Seq<u8>) -> Seq<Seq<char>>
    decreases bytes.len(),
{
    if bytes.len() == 0 {
        Seq::empty()
    } else {
        let runs = alnum_runs(bytes.drop_last());
        let b = bytes.last();
        if !is_slug_byte(b) {
            runs
        } else if bytes.len() >= 2 && is_slug_byte(bytes[bytes.len() - 2]) {
            runs.drop_last().push(runs.last().push(slug_char(b)))
        } else {
            runs.push(seq![slug_char(b)])
        }
    }
}

/// The URL slug of some bytes: their lowercase ASCII alphanumeric runs,
/// joined by `-`.
pub open spec fn slug_text(bytes: Seq<u8>) -> Seq<char> {
    join_spec(alnum_runs(bytes), "-"@)
}

/// The slug of some bytes, with whether a separator is pending, as the
/// bytes are read one by one.
spec fn slug_state(bytes: Seq<u8>) -> (Seq<char>, bool)
    decreases bytes.len(),
{
    if bytes.len() == 0 {
        (Seq::empty(), false)
    } else {
        let (out, separated) = slug_state(bytes.drop_last());
        let b = bytes.last();
        if 65 <= b <= 90 || 97 <= b <= 122 || 48 <= b <= 57 {
            let c = if 65 <= b <= 90 {
                (b + 32) as char
            } else {
                b as char
            };
            (if separated {
                out.push('-').push(c)
            } else {
                out.push(c)
            }, false)
        } else {
            (out, separated || out.len() > 0)
        }
    }
}

/// The URL slug of `text`: lowercase ASCII letters and digits, with a single
/// `-` between runs of them.
pub fn slug(text: &str) -> (r: String)
    ensures
        r@ == slug_text(encode_utf8(text@)),
{
    let bytes = text.as_bytes();
    let mut output = String::new();
    let mut separated = false;
    let mut i: usize = 0;
    while i < bytes.len()
        invariant
            i <= bytes@.len(),
            bytes@ == encode_utf8(text@),
            (output@, separated) == slug_state(bytes@.take(i as int)),
        decreases bytes@.len() - i,
    {
        let b = bytes[i];
        assert(bytes@.take(i + 1).drop_last() =~= bytes@.take(i as int));
        if (65 <= b && b <= 90) || (97 <= b && b <= 122) || (48 <= b && b <= 57) {
            let c = if 65 <= b && b <= 90 {
                (b + 32) as char
            } else {
                b as char
            };
            if separated {
                push_char(&mut output, '-');
                separated = false;
            }
            push_char(&mut output, c);
        } else {
            if output.as_str().unicode_len() > 0 {
                separated = true;
            }
        }
        i = i + 1;
    }
    assert(bytes@.take(i as int) =~= bytes@);
    proof {
        lemma_slug_state(bytes@);
    }
    output
}

proof fn lemma_slug_state(bytes: Seq<u8>)
    ensures
        forall|i: int| 0 <= i < alnum_runs(bytes).len() ==> (#[trigger] alnum_runs(bytes)[i]).len() > 0,
        bytes.len() > 0 && is_slug_byte(bytes.last()) ==> alnum_runs(bytes).len() > 0,
        slug_state(bytes).0 == slug_text(bytes),
        slug_state(bytes).1 == (alnum_runs(bytes).len() > 0 && bytes.len() > 0 && !is_slug_byte(
            bytes.last(),
        )),
    decreases bytes.len(),
{
    let dash: Seq<char> = "-"@;
    assert(dash =~= seq!['-']) by {
        reveal_strlit("-");
    }
    if bytes.len() > 0 {
        let prev = bytes.drop_last();
        lemma_slug_state(prev);
        let r = alnum_runs(prev);
        let o = slug_state(prev).0;
        let b = bytes.last();
        let c = slug_char(b);
        let runs = alnum_runs(bytes);
        assert(r.len() > 0 ==> join_spec(r, dash).len() > 0) by {
            if r.len() > 1 {
                assert(r.last().len() > 0);
            } else if r.len() == 1 {
                assert(r[0].len() > 0);
            }
        }
        if !is_slug_byte(b) {
        } else if bytes.len() >= 2 && is_slug_byte(bytes[bytes.len() - 2]) {
            assert(prev.last() == bytes[bytes.len() - 2]);
            assert(runs.drop_last() =~= r.drop_last());
            assert(runs.last() == r.last().push(c));
            if r.len() > 1 {
                assert(join_spec(runs, dash) =~= join_spec(r, dash).push(c));
            } else {
                assert(join_spec(runs, dash) =~= join_spec(r, dash).push(c));
            }
            assert forall|i: int| 0 <= i < runs.len() implies (#[trigger] runs[i]).len() > 0 by {
                if i < runs.len() - 1 {
                    assert(runs[i] == r[i]);
                }
            }
        } else {
            assert(runs.drop_last() =~= r);
            assert(runs.last() == seq![c]);
            if r.len() > 0 {
                assert(prev.len() > 0);
                assert(join_spec(runs, dash) =~= join_spec(r, dash).push('-').push(c));
            } else {
                assert(join_spec(r, dash) =~= Seq::<char>::empty());
                assert(join_spec(runs, dash) =~= seq![c]);
            }
            assert forall|i: int| 0 <= i < runs.len() implies (#[trigger] runs[i]).len() > 0 by {
                if i < runs.len() - 1 {
                    assert(runs[i] == r[i]);
                }
            }
        }
    }
}

} // verus!
