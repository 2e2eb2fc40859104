//! The input hash that ties a stored XPS fit to the exact data and
//! invocation it was computed from.
use crate::xrd_container::{le64, values_bytes, write_u64_le};
use vstd::prelude::*;

verus! {

/// The SHA-256 digest of `data`, as computed by the `sha2` crate.
pub uninterp spec fn sha256_digest(data: Seq<u8>) -> Seq<u8>;

/// Calls `sha2::Sha256::digest` on `data`. The contract claims only that the
/// result is the SHA-256 digest of `data` (named, not stated) and that it has
/// the 32 bytes of a SHA-256 output.
#[verifier::external_body]
fn sha256(data: &Vec<u8>) -> (r: Vec<u8>)
    ensures
        r@ == sha256_digest(data@),
        r@.len() == 32,
{
    <sha2::Sha256 as sha2::Digest>::digest(data.as_slice()).to_vec()
}

/// The characters of ASCII bytes.
pub open spec fn ascii_chars(b: Seq<u8>) -> Seq<char> {
    Seq::new(b.len(), |i: int| b[i] as char)
}

/// Calls `String::from_utf8` on bytes that are all ASCII. The contract claims
/// that the string holds one character per byte, the byte's character (ASCII
/// is valid UTF-8, so the conversion does not fail on these inputs).
#[verifier::external_body]
fn string_from_ascii(bytes: Vec<u8>) -> (s: String)
    requires
        forall|i: int| 0 <= i < bytes@.len() ==> #[trigger] bytes@[i] < 128,
    ensures
        s@ == ascii_chars(bytes@),
{
    String::from_utf8(bytes).unwrap_or_default()
}

/// The lowercase hexadecimal digit of `n < 16`.
pub open spec fn hex_char(n: u8) -> u8 {
    if n < 10 {
        (0x30 + n) as u8
    } else {
        (0x61 + n - 10) as u8
    }
}

/// Two lowercase hexadecimal digits per byte, most significant first.
pub open spec fn lower_hex(d: Seq<u8>) -> Seq<u8>
    decreases d.len(),
{
    if d.len() == 0 {
        Seq::empty()
    } else {
        lower_hex(d.drop_last()) + seq![hex_char(d.last() >> 4u8), hex_char(d.last() & 15u8)]
    }
}

/// The bytes hashed for a fit input: the region identity, the number of
/// energy points, every energy word then every intensity word (each value by
/// its 64-bit pattern, little-endian), then the serialized invocation.
pub open spec fn input_message(
    region: u64,
    energy: Seq<u64>,
    intensity: Seq<u64>,
    invocation: Seq<u8>,
) -> Seq<u8> {
    le64(region) + le64(energy.len() as u64) + values_bytes(energy) + values_bytes(intensity)
        + invocation
}

fn hex_digit_char(n: u8) -> (c: u8)
    requires
        n < 16,
    ensures
        c == hex_char(n),
        c < 128,
{
    if n < 10 {
        0x30 + n
    } else {
        0x61 + n - 10
    }
}

/// Append the words of `values`.
fn append_words(out: &mut Vec<u8>, values: &Vec<u64>)
    ensures
        final(out)@ == old(out)@ + values_bytes(values@),
{
    let ghost start = out@;
    let mut i: usize = 0;
    while i < values.len()
        invariant
            i <= values@.len(),
            out@ == start + values_bytes(values@.subrange(0, i as int)),
        decreases values.len() - i,
    {
        write_u64_le(out, values[i]);
        proof {
            let prefix = values@.subrange(0, i as int + 1);
            assert(prefix.drop_last() =~= values@.subrange(0, i as int));
            assert(out@ =~= start + values_bytes(prefix));
        }
        i = i + 1;
    }
    assert(values@.subrange(0, values@.len() as int) =~= values@);
}

/// The bytes hashed for the fit input of one region (see `input_message`).
pub fn fit_input_message(
    region: u64,
    energy: &Vec<u64>,
    intensity: &Vec<u64>,
    invocation: &Vec<u8>,
) -> (message: Vec<u8>)
    ensures
        message@ == input_message(region, energy@, intensity@, invocation@),
{
    let mut message: Vec<u8> = Vec::new();
    write_u64_le(&mut message, region);
    write_u64_le(&mut message, energy.len() as u64);
    append_words(&mut message, energy);
    append_words(&mut message, intensity);
    let ghost before = message@;
    let mut i: usize = 0;
    while i < invocation.len()
        invariant
            i <= invocation@.len(),
            message@ == before + invocation@.subrange(0, i as int),
        decreases invocation.len() - i,
    {
        message.push(invocation[i]);
        assert(message@ =~= before + invocation@.subrange(0, i as int + 1));
        i = i + 1;
    }
    assert(invocation@.subrange(0, invocation@.len() as int) =~= invocation@);
    message
}

/// The lowercase hexadecimal text of a digest, two digits per byte.
pub fn digest_hex(digest: &Vec<u8>) -> (hash: String)
    ensures
        hash@ == ascii_chars(lower_hex(digest@)),
{
    let mut text: Vec<u8> = Vec::new();
    let mut k: usize = 0;
    while k < digest.len()
        invariant
            k <= digest@.len(),
            text@ == lower_hex(digest@.subrange(0, k as int)),
            forall|j: int| 0 <= j < text@.len() ==> #[trigger] text@[j] < 128,
        decreases digest.len() - k,
    {
        let byte = digest[k];
        assert(byte >> 4u8 < 16 && byte & 15u8 < 16) by (bit_vector);
        let high = hex_digit_char(byte >> 4);
        let low = hex_digit_char(byte & 15);
        let ghost old_text = text@;
        text.push(high);
        text.push(low);
        proof {
            let prefix = digest@.subrange(0, k as int + 1);
            assert(prefix.drop_last() =~= digest@.subrange(0, k as int));
            assert(prefix.last() == byte);
            assert(text@ =~= lower_hex(prefix));
            assert forall|j: int| 0 <= j < text@.len() implies #[trigger] text@[j] < 128 by {
                if j < old_text.len() {
                    assert(text@[j] == old_text[j]);
                }
            }
        }
        k = k + 1;
    }
    assert(digest@.subrange(0, digest@.len() as int) =~= digest@);
    string_from_ascii(text)
}

/// The lowercase hexadecimal text of SHA-256 over the fit input of one
/// region. `energy` and `intensity` hold the values by their 64-bit patterns;
/// `invocation` is the serialized fit invocation.
pub fn xps_input_sha256(
    region: u64,
    energy: &Vec<u64>,
    intensity: &Vec<u64>,
    invocation: &Vec<u8>,
) -> (hash: String)
    ensures
        hash@ == ascii_chars(lower_hex(sha256_digest(input_message(region, energy@, intensity@, invocation@)))),
{
    let message = fit_input_message(region, energy, intensity, invocation);
    let digest = sha256(&message);
    digest_hex(&digest)
}

} // verus!
