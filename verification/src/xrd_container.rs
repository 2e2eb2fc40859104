//! The binary project entry that stores one XRD pattern.
//!
//! Layout: the eight-byte signature `PXXRD1\0\0`, the metadata length as a
//! little-endian `u64`, the metadata bytes (JSON written and read by the
//! caller, with the scientific arrays left empty), then the 2θ, intensity and
//! (when the metadata declares it) attenuation arrays. Each array is its
//! length as a little-endian `u64` followed by one little-endian 64-bit word
//! per value; the words are the bit patterns of the values.
use crate::text::{decimal, decimal_text, string_from_chars};
use vstd::prelude::*;
use vstd::string::StringExecFns;

verus! {

/// Limits that bound what a project entry may make the loader allocate.
#[derive(Clone, Copy, Debug, PartialEq, Eq)]
pub struct ProjectLoadLimits {
    pub max_collection_items: usize,
    pub max_metadata_bytes: u64,
    pub max_materialized_bytes: u64,
    pub max_entry_bytes: u64,
}

impl ProjectLoadLimits {
    /// The limits the project loader applies.
    pub fn standard() -> (l: Self)
        ensures
            l.max_collection_items == 268_435_456,
            l.max_metadata_bytes == 16_777_216,
            l.max_materialized_bytes == 2_147_483_648,
            l.max_entry_bytes == 4_294_967_296,
    {
        ProjectLoadLimits {
            max_collection_items: 268_435_456,
            max_metadata_bytes: 16_777_216,
            max_materialized_bytes: 2_147_483_648,
            max_entry_bytes: 4_294_967_296,
        }
    }
}

/// The scientific arrays of one pattern, each value by its 64-bit pattern.
#[derive(Clone, Debug, PartialEq, Eq)]
pub struct XrdArrays {
    pub two_theta: Vec<u64>,
    pub intensity: Vec<u64>,
    pub attenuation: Option<Vec<u64>>,
}

pub open spec fn opt_view(v: Option<Vec<u64>>) -> Option<Seq<u64>> {
    match v {
        Some(a) => Some(a@),
        None => None,
    }
}

#[derive(Clone, Copy, Debug, PartialEq, Eq)]
pub enum XrdContainerError {
    /// The arrays do not all have the same length.
    InvalidData,
    /// An array is longer than the collection limit.
    ArrayTooLong { len: usize, limit: usize },
    /// The materialized size of the arrays overflows `usize`.
    MaterializedOverflow,
    /// The arrays would need more memory than the materialized-data limit.
    MaterializedTooLarge { bytes: u64, limit: u64 },
    /// The metadata exceeds its limit.
    MetadataTooLarge,
    /// The encoded size overflows `usize`.
    PayloadOverflow,
    /// The encoded entry exceeds the project-entry limit.
    EntryTooLarge,
    /// The entry does not start with the signature.
    BadSignature,
    /// The entry ends before a field it declares.
    Truncated,
    /// A stored length does not fit `usize`.
    LengthExceedsUsize,
    /// An array's length differs from the 2θ length.
    LengthMismatch { len: usize, expected: usize },
    /// Bytes remain after the last array.
    TrailingBytes,
}


impl XrdContainerError {
    /// What the error says.
    pub open spec fn spec_message(self) -> Seq<char> {
        match self {
            XrdContainerError::InvalidData => "XRD arrays must all have the same length"@,
            XrdContainerError::ArrayTooLong { len, limit } => "XRD array contains "@
                + decimal_text(len as nat) + " values, exceeding the "@ + decimal_text(limit as nat)
                + "-item limit"@,
            XrdContainerError::MaterializedOverflow => "XRD materialized size overflows usize"@,
            XrdContainerError::MaterializedTooLarge { bytes, limit } => "XRD arrays require "@
                + decimal_text(bytes as nat) + " bytes, exceeding the "@ + decimal_text(limit as nat)
                + "-byte materialized-data limit"@,
            XrdContainerError::MetadataTooLarge => "XRD metadata exceeds the configured limit"@,
            XrdContainerError::PayloadOverflow => "XRD payload size overflows usize"@,
            XrdContainerError::EntryTooLarge => "XRD payload exceeds the configured project-entry limit"@,
            XrdContainerError::BadSignature => "XRD payload has an invalid signature"@,
            XrdContainerError::Truncated => "XRD payload is truncated"@,
            XrdContainerError::LengthExceedsUsize => "XRD length exceeds usize"@,
            XrdContainerError::LengthMismatch { len, expected } => "XRD array length "@
                + decimal_text(len as nat) + " does not match expected length "@ + decimal_text(
                expected as nat,
            ),
            XrdContainerError::TrailingBytes => "XRD payload has trailing bytes"@,
        }
    }

    /// What the error says.
    pub fn message(&self) -> (m: String)
        ensures
            m@ == self.spec_message(),
    {
        match *self {
            XrdContainerError::InvalidData => String::from_str("XRD arrays must all have the same length"),
            XrdContainerError::ArrayTooLong { len, limit } => {
                let a = string_from_chars(&decimal(len as u64));
                let b = string_from_chars(&decimal(limit as u64));
                String::from_str("XRD array contains ").concat(a.as_str()).concat(
                    " values, exceeding the ",
                ).concat(b.as_str()).concat("-item limit")
            },
            XrdContainerError::MaterializedOverflow => String::from_str(
                "XRD materialized size overflows usize",
            ),
            XrdContainerError::MaterializedTooLarge { bytes, limit } => {
                let a = string_from_chars(&decimal(bytes));
                let b = string_from_chars(&decimal(limit));
                String::from_str("XRD arrays require ").concat(a.as_str()).concat(
                    " bytes, exceeding the ",
                ).concat(b.as_str()).concat("-byte materialized-data limit")
            },
            XrdContainerError::MetadataTooLarge => String::from_str(
                "XRD metadata exceeds the configured limit",
            ),
            XrdContainerError::PayloadOverflow => String::from_str("XRD payload size overflows usize"),
            XrdContainerError::EntryTooLarge => String::from_str(
                "XRD payload exceeds the configured project-entry limit",
            ),
            XrdContainerError::BadSignature => String::from_str("XRD payload has an invalid signature"),
            XrdContainerError::Truncated => String::from_str("XRD payload is truncated"),
            XrdContainerError::LengthExceedsUsize => String::from_str("XRD length exceeds usize"),
            XrdContainerError::LengthMismatch { len, expected } => {
                let a = string_from_chars(&decimal(len as u64));
                let b = string_from_chars(&decimal(expected as u64));
                String::from_str("XRD array length ").concat(a.as_str()).concat(
                    " does not match expected length ",
                ).concat(b.as_str())
            },
            XrdContainerError::TrailingBytes => String::from_str("XRD payload has trailing bytes"),
        }
    }
}

pub open spec fn xrd_magic() -> Seq<u8> {
    seq![0x50u8, 0x58u8, 0x58u8, 0x52u8, 0x44u8, 0x31u8, 0u8, 0u8]
}

/// The little-endian bytes of `x`.
pub open spec fn le64(x: u64) -> Seq<u8> {
    seq![
        (x & 0xff) as u8,
        ((x >> 8u64) & 0xff) as u8,
        ((x >> 16u64) & 0xff) as u8,
        ((x >> 24u64) & 0xff) as u8,
        ((x >> 32u64) & 0xff) as u8,
        ((x >> 40u64) & 0xff) as u8,
        ((x >> 48u64) & 0xff) as u8,
        ((x >> 56u64) & 0xff) as u8,
    ]
}

/// The word whose little-endian bytes start `b`.
pub open spec fn from_le64(b: Seq<u8>) -> u64 {
    (b[0] as u64) | ((b[1] as u64) << 8u64) | ((b[2] as u64) << 16u64) | ((b[3] as u64) << 24u64)
        | ((b[4] as u64) << 32u64) | ((b[5] as u64) << 40u64) | ((b[6] as u64) << 48u64) | ((
    b[7] as u64) << 56u64)
}

/// The value words of an array, without its length.
pub open spec fn values_bytes(v: Seq<u64>) -> Seq<u8>
    decreases v.len(),
{
    if v.len() == 0 {
        Seq::empty()
    } else {
        values_bytes(v.drop_last()) + le64(v.last())
    }
}

/// An array: its length, then its value words.
pub open spec fn array_bytes(v: Seq<u64>) -> Seq<u8> {
    le64(v.len() as u64) + values_bytes(v)
}

/// The complete entry for `metadata` and the arrays.
pub open spec fn xrd_bytes(
    metadata: Seq<u8>,
    two_theta: Seq<u64>,
    intensity: Seq<u64>,
    attenuation: Option<Seq<u64>>,
) -> Seq<u8> {
    xrd_magic() + le64(metadata.len() as u64) + metadata + array_bytes(two_theta) + array_bytes(
        intensity,
    ) + match attenuation {
        Some(a) => array_bytes(a),
        None => Seq::empty(),
    }
}

/// The number of arrays stored for a pattern.
pub open spec fn array_count(has_attenuation: bool) -> int {
    if has_attenuation {
        3
    } else {
        2
    }
}

/// The array-length check: `Some(error)` when `len` exceeds the limit.
pub open spec fn array_len_problem(len: usize, limits: ProjectLoadLimits) -> Option<
    XrdContainerError,
> {
    if len > limits.max_collection_items {
        Some(XrdContainerError::ArrayTooLong { len, limit: limits.max_collection_items })
    } else {
        None
    }
}

/// The materialized-size check for `len` points.
pub open spec fn materialized_problem(
    len: usize,
    has_attenuation: bool,
    limits: ProjectLoadLimits,
) -> Option<XrdContainerError> {
    if len * 8 > usize::MAX || len * 8 * array_count(has_attenuation) > usize::MAX {
        Some(XrdContainerError::MaterializedOverflow)
    } else if len * 8 * array_count(has_attenuation) > limits.max_materialized_bytes {
        Some(
            XrdContainerError::MaterializedTooLarge {
                bytes: (len * 8 * array_count(has_attenuation)) as u64,
                limit: limits.max_materialized_bytes,
            },
        )
    } else {
        None
    }
}

/// Reject an array longer than the collection limit.
pub fn validate_array_len(len: usize, limits: ProjectLoadLimits) -> (r: Result<
    (),
    XrdContainerError,
>)
    ensures
        match array_len_problem(len, limits) {
            Some(e) => r == Err::<(), _>(e),
            None => r is Ok,
        },
{
    if len > limits.max_collection_items {
        return Err(
            XrdContainerError::ArrayTooLong { len, limit: limits.max_collection_items },
        );
    }
    Ok(())
}

/// Reject arrays whose in-memory size overflows or exceeds the limit.
pub fn validate_materialized_size(
    len: usize,
    has_attenuation: bool,
    limits: ProjectLoadLimits,
) -> (r: Result<(), XrdContainerError>)
    ensures
        match materialized_problem(len, has_attenuation, limits) {
            Some(e) => r == Err::<(), _>(e),
            None => r is Ok,
        },
{
    let count: usize = if has_attenuation {
        3
    } else {
        2
    };
    let bytes = match len.checked_mul(8) {
        Some(b) => match b.checked_mul(count) {
            Some(total) => total,
            None => return Err(XrdContainerError::MaterializedOverflow),
        },
        None => return Err(XrdContainerError::MaterializedOverflow),
    };
    if bytes as u64 > limits.max_materialized_bytes {
        return Err(
            XrdContainerError::MaterializedTooLarge {
                bytes: bytes as u64,
                limit: limits.max_materialized_bytes,
            },
        );
    }
    Ok(())
}

/// Append the little-endian bytes of `x`.
pub fn write_u64_le(out: &mut Vec<u8>, x: u64)
    ensures
        final(out)@ == old(out)@ + le64(x),
{
    out.push((x & 0xff) as u8);
    out.push(((x >> 8) & 0xff) as u8);
    out.push(((x >> 16) & 0xff) as u8);
    out.push(((x >> 24) & 0xff) as u8);
    out.push(((x >> 32) & 0xff) as u8);
    out.push(((x >> 40) & 0xff) as u8);
    out.push(((x >> 48) & 0xff) as u8);
    out.push(((x >> 56) & 0xff) as u8);
    assert(out@ =~= old(out)@ + le64(x));
}

/// Append a length, stored as a little-endian `u64`.
pub fn write_len(out: &mut Vec<u8>, len: usize)
    ensures
        final(out)@ == old(out)@ + le64(len as u64),
{
    write_u64_le(out, len as u64);
}

/// Append an array: its length, then its value words.
pub fn write_values(out: &mut Vec<u8>, values: &Vec<u64>)
    ensures
        final(out)@ == old(out)@ + array_bytes(values@),
{
    write_len(out, values.len());
    let ghost start = out@;
    let mut i: usize = 0;
    while i < values.len()
        invariant
            i <= values@.len(),
            out@ == start + values_bytes(values@.subrange(0, i as int)),
        decreases values.len() - i,
    {
        let ghost before = out@;
        write_u64_le(out, values[i]);
        proof {
            let prefix = values@.subrange(0, i as int + 1);
            assert(prefix.drop_last() =~= values@.subrange(0, i as int));
            assert(prefix.last() == values@[i as int]);
            assert(out@ =~= start + values_bytes(prefix));
        }
        i = i + 1;
    }
    assert(values@.subrange(0, values@.len() as int) =~= values@);
    assert(out@ =~= old(out)@ + array_bytes(values@));
}

/// The encoded size of an entry with `metadata_len` metadata bytes and
/// `count` arrays of `len` values.
pub open spec fn encoded_len(metadata_len: int, len: int, count: int) -> int {
    8 + 8 + metadata_len + count * 8 + len * 8 * count
}

/// Why `encode_xrd` refuses its input, if it does: inconsistent arrays, the
/// array-length limit, the materialized-size limit, the metadata limit, an
/// encoded size that overflows `usize`, then the project-entry limit.
pub open spec fn encode_problem(
    metadata: Seq<u8>,
    two_theta: Seq<u64>,
    intensity: Seq<u64>,
    attenuation: Option<Seq<u64>>,
    limits: ProjectLoadLimits,
) -> Option<XrdContainerError> {
    let len = two_theta.len() as usize;
    let has = attenuation is Some;
    if intensity.len() != two_theta.len() || (attenuation matches Some(a) && a.len()
        != two_theta.len()) {
        Some(XrdContainerError::InvalidData)
    } else if two_theta.len() > usize::MAX {
        Some(XrdContainerError::PayloadOverflow)
    } else if array_len_problem(len, limits) is Some {
        array_len_problem(len, limits)
    } else if materialized_problem(len, has, limits) is Some {
        materialized_problem(len, has, limits)
    } else if metadata.len() > limits.max_metadata_bytes {
        Some(XrdContainerError::MetadataTooLarge)
    } else if encoded_len(metadata.len() as int, len as int, array_count(has)) > usize::MAX {
        Some(XrdContainerError::PayloadOverflow)
    } else if encoded_len(metadata.len() as int, len as int, array_count(has))
        > limits.max_entry_bytes {
        Some(XrdContainerError::EntryTooLarge)
    } else {
        None
    }
}

/// Encode one pattern. `metadata` is the caller's metadata document with the
/// arrays left empty; the arrays are stored after it in binary.
pub fn encode_xrd(metadata: &Vec<u8>, arrays: &XrdArrays, limits: ProjectLoadLimits) -> (r: Result<
    Vec<u8>,
    XrdContainerError,
>)
    ensures
        match encode_problem(
            metadata@,
            arrays.two_theta@,
            arrays.intensity@,
            opt_view(arrays.attenuation),
            limits,
        ) {
            Some(e) => r == Err::<Vec<u8>, _>(e),
            None => r matches Ok(bytes) && bytes@ == xrd_bytes(
                metadata@,
                arrays.two_theta@,
                arrays.intensity@,
                opt_view(arrays.attenuation),
            ),
        },
{
    let len = arrays.two_theta.len();
    let consistent = arrays.intensity.len() == len && match &arrays.attenuation {
        Some(a) => a.len() == len,
        None => true,
    };
    if !consistent {
        return Err(XrdContainerError::InvalidData);
    }
    validate_array_len(len, limits)?;
    let has_attenuation = arrays.attenuation.is_some();
    validate_materialized_size(len, has_attenuation, limits)?;
    if metadata.len() as u64 > limits.max_metadata_bytes {
        return Err(XrdContainerError::MetadataTooLarge);
    }
    let count: usize = if has_attenuation {
        3
    } else {
        2
    };
    let arrays_bytes = len * 8 * count;
    let encoded = match 16usize.checked_add(metadata.len()) {
        Some(a) => match a.checked_add(count * 8) {
            Some(b) => match b.checked_add(arrays_bytes) {
                Some(c) => c,
                None => return Err(XrdContainerError::PayloadOverflow),
            },
            None => return Err(XrdContainerError::PayloadOverflow),
        },
        None => return Err(XrdContainerError::PayloadOverflow),
    };
    if encoded as u64 > limits.max_entry_bytes {
        return Err(XrdContainerError::EntryTooLarge);
    }
    let mut out: Vec<u8> = Vec::new();
    out.push(0x50u8);
    out.push(0x58u8);
    out.push(0x58u8);
    out.push(0x52u8);
    out.push(0x44u8);
    out.push(0x31u8);
    out.push(0u8);
    out.push(0u8);
    assert(out@ =~= xrd_magic());
    write_len(&mut out, metadata.len());
    let mut i: usize = 0;
    let ghost head = out@;
    while i < metadata.len()
        invariant
            i <= metadata@.len(),
            out@ == head + metadata@.subrange(0, i as int),
        decreases metadata.len() - i,
    {
        out.push(metadata[i]);
        assert(out@ =~= head + metadata@.subrange(0, i as int + 1));
        i = i + 1;
    }
    assert(metadata@.subrange(0, metadata@.len() as int) =~= metadata@);
    write_values(&mut out, &arrays.two_theta);
    write_values(&mut out, &arrays.intensity);
    match &arrays.attenuation {
        Some(a) => {
            write_values(&mut out, a);
        },
        None => {},
    }
    assert(out@ =~= xrd_bytes(
        metadata@,
        arrays.two_theta@,
        arrays.intensity@,
        opt_view(arrays.attenuation),
    ));
    Ok(out)
}

/// The word stored little-endian at `pos`.
pub open spec fn word_at(bytes: Seq<u8>, pos: int) -> u64 {
    from_le64(bytes.subrange(pos, pos + 8))
}

/// Read the little-endian word at `pos`.
pub fn read_u64_le(bytes: &Vec<u8>, pos: usize) -> (r: u64)
    requires
        pos + 8 <= bytes@.len(),
    ensures
        r == word_at(bytes@, pos as int),
{
    let _len = bytes.len();
    let b0 = bytes[pos] as u64;
    let b1 = bytes[pos + 1] as u64;
    let b2 = bytes[pos + 2] as u64;
    let b3 = bytes[pos + 3] as u64;
    let b4 = bytes[pos + 4] as u64;
    let b5 = bytes[pos + 5] as u64;
    let b6 = bytes[pos + 6] as u64;
    let b7 = bytes[pos + 7] as u64;
    b0 | (b1 << 8) | (b2 << 16) | (b3 << 24) | (b4 << 32) | (b5 << 40) | (b6 << 48) | (b7 << 56)
}

/// The metadata part of an entry, as the decoder reads it: the signature, the
/// metadata length, its limit, then the metadata bytes. On success, the
/// metadata and the position after it.
pub open spec fn spec_decode_metadata(bytes: Seq<u8>, limits: ProjectLoadLimits) -> Result<
    (Seq<u8>, int),
    XrdContainerError,
> {
    if bytes.len() < 8 {
        Err(XrdContainerError::Truncated)
    } else if bytes.subrange(0, 8) != xrd_magic() {
        Err(XrdContainerError::BadSignature)
    } else if bytes.len() < 16 {
        Err(XrdContainerError::Truncated)
    } else if word_at(bytes, 8) > usize::MAX {
        Err(XrdContainerError::LengthExceedsUsize)
    } else if word_at(bytes, 8) > limits.max_metadata_bytes {
        Err(XrdContainerError::MetadataTooLarge)
    } else if bytes.len() < 16 + word_at(bytes, 8) {
        Err(XrdContainerError::Truncated)
    } else {
        Ok((bytes.subrange(16, 16 + word_at(bytes, 8)), 16 + word_at(bytes, 8)))
    }
}

/// `n` words stored from `pos` on.
pub open spec fn words_at(bytes: Seq<u8>, pos: int, n: int) -> Seq<u64> {
    Seq::new(n as nat, |i: int| word_at(bytes, pos + 8 * i))
}

/// Read one follow-up array at `pos` whose length must equal `expected`: its
/// length, the length limit, the match with `expected`, then its words. On
/// success, the words and the position after them.
pub open spec fn spec_read_array(
    bytes: Seq<u8>,
    pos: int,
    expected: usize,
    limits: ProjectLoadLimits,
) -> Result<(Seq<u64>, int), XrdContainerError> {
    if bytes.len() < pos + 8 {
        Err(XrdContainerError::Truncated)
    } else if word_at(bytes, pos) > usize::MAX {
        Err(XrdContainerError::LengthExceedsUsize)
    } else if array_len_problem(word_at(bytes, pos) as usize, limits) is Some {
        Err(array_len_problem(word_at(bytes, pos) as usize, limits)->0)
    } else if word_at(bytes, pos) != expected {
        Err(XrdContainerError::LengthMismatch { len: word_at(bytes, pos) as usize, expected })
    } else if bytes.len() < pos + 8 + 8 * expected {
        Err(XrdContainerError::Truncated)
    } else {
        Ok((words_at(bytes, pos + 8, expected as int), pos + 8 + 8 * expected))
    }
}

/// The array part of an entry from `pos` on: the 2θ length with its length
/// and materialized-size checks, the 2θ words, the intensity array, the
/// attenuation array when the metadata declares one, and no trailing bytes.
pub open spec fn spec_decode_arrays(
    bytes: Seq<u8>,
    pos: int,
    has_attenuation: bool,
    limits: ProjectLoadLimits,
) -> Result<(Seq<u64>, Seq<u64>, Option<Seq<u64>>), XrdContainerError> {
    if bytes.len() < pos + 8 {
        Err(XrdContainerError::Truncated)
    } else if word_at(bytes, pos) > usize::MAX {
        Err(XrdContainerError::LengthExceedsUsize)
    } else {
        let n = word_at(bytes, pos) as usize;
        if array_len_problem(n, limits) is Some {
            Err(array_len_problem(n, limits)->0)
        } else if materialized_problem(n, has_attenuation, limits) is Some {
            Err(materialized_problem(n, has_attenuation, limits)->0)
        } else if bytes.len() < pos + 8 + 8 * n {
            Err(XrdContainerError::Truncated)
        } else {
            let two_theta = words_at(bytes, pos + 8, n as int);
            let after_two_theta = pos + 8 + 8 * n;
            match spec_read_array(bytes, after_two_theta, n, limits) {
                Err(e) => Err(e),
                Ok((intensity, after_intensity)) => if has_attenuation {
                    match spec_read_array(bytes, after_intensity, n, limits) {
                        Err(e) => Err(e),
                        Ok((attenuation, end)) => if end != bytes.len() {
                            Err(XrdContainerError::TrailingBytes)
                        } else {
                            Ok((two_theta, intensity, Some(attenuation)))
                        },
                    }
                } else if after_intensity != bytes.len() {
                    Err(XrdContainerError::TrailingBytes)
                } else {
                    Ok((two_theta, intensity, None))
                },
            }
        }
    }
}

/// Decode the metadata part of an entry; the caller reads the metadata
/// document and continues with `decode_xrd_arrays` at the returned position.
pub fn decode_xrd_metadata(bytes: &Vec<u8>, limits: ProjectLoadLimits) -> (r: Result<
    (Vec<u8>, usize),
    XrdContainerError,
>)
    ensures
        match spec_decode_metadata(bytes@, limits) {
            Ok((m, p)) => r matches Ok((rm, rp)) && rm@ == m && rp as int == p,
            Err(e) => r matches Err(re) && re == e,
        },
{
    if bytes.len() < 8 {
        return Err(XrdContainerError::Truncated);
    }
    let signature_ok = bytes[0] == 0x50u8 && bytes[1] == 0x58u8 && bytes[2] == 0x58u8 && bytes[3]
        == 0x52u8 && bytes[4] == 0x44u8 && bytes[5] == 0x31u8 && bytes[6] == 0u8 && bytes[7] == 0u8;
    if !signature_ok {
        proof {
            if bytes@.subrange(0, 8) == xrd_magic() {
                assert(bytes@.subrange(0, 8)[0] == bytes@[0]);
                assert(bytes@.subrange(0, 8)[1] == bytes@[1]);
                assert(bytes@.subrange(0, 8)[2] == bytes@[2]);
                assert(bytes@.subrange(0, 8)[3] == bytes@[3]);
                assert(bytes@.subrange(0, 8)[4] == bytes@[4]);
                assert(bytes@.subrange(0, 8)[5] == bytes@[5]);
                assert(bytes@.subrange(0, 8)[6] == bytes@[6]);
                assert(bytes@.subrange(0, 8)[7] == bytes@[7]);
            }
        }
        return Err(XrdContainerError::BadSignature);
    }
    assert(bytes@.subrange(0, 8) =~= xrd_magic());
    if bytes.len() < 16 {
        return Err(XrdContainerError::Truncated);
    }
    let word = read_u64_le(bytes, 8);
    if word > usize::MAX as u64 {
        return Err(XrdContainerError::LengthExceedsUsize);
    }
    let metadata_len = word as usize;
    if word > limits.max_metadata_bytes {
        return Err(XrdContainerError::MetadataTooLarge);
    }
    if bytes.len() - 16 < metadata_len {
        return Err(XrdContainerError::Truncated);
    }
    let mut metadata: Vec<u8> = Vec::new();
    let mut i: usize = 0;
    while i < metadata_len
        invariant
            bytes@.len() <= usize::MAX,
            16 + metadata_len <= bytes@.len(),
            i <= metadata_len,
            metadata@ == bytes@.subrange(16, 16 + i),
        decreases metadata_len - i,
    {
        metadata.push(bytes[16 + i]);
        assert(metadata@ =~= bytes@.subrange(16, 16 + i + 1));
        i = i + 1;
    }
    Ok((metadata, 16 + metadata_len))
}

/// Read `n` words from `pos` on.
fn read_words(bytes: &Vec<u8>, pos: usize, n: usize) -> (r: Vec<u64>)
    requires
        pos + 8 * n <= bytes@.len(),
    ensures
        r@ == words_at(bytes@, pos as int, n as int),
{
    let _len = bytes.len();
    let mut out: Vec<u64> = Vec::new();
    let mut i: usize = 0;
    while i < n
        invariant
            bytes@.len() <= usize::MAX,
            pos + 8 * n <= bytes@.len(),
            i <= n,
            out@ == words_at(bytes@, pos as int, i as int),
        decreases n - i,
    {
        let w = read_u64_le(bytes, pos + 8 * i);
        out.push(w);
        assert(out@ =~= words_at(bytes@, pos as int, i as int + 1));
        i = i + 1;
    }
    out
}

/// Read one follow-up array whose length must equal `expected`.
fn read_array(bytes: &Vec<u8>, pos: usize, expected: usize, limits: ProjectLoadLimits) -> (r: Result<
    (Vec<u64>, usize),
    XrdContainerError,
>)
    requires
        pos <= bytes@.len(),
    ensures
        match spec_read_array(bytes@, pos as int, expected, limits) {
            Ok((v, p)) => r matches Ok((rv, rp)) && rv@ == v && rp as int == p,
            Err(e) => r matches Err(re) && re == e,
        },
{
    if bytes.len() - pos < 8 {
        return Err(XrdContainerError::Truncated);
    }
    let word = read_u64_le(bytes, pos);
    if word > usize::MAX as u64 {
        return Err(XrdContainerError::LengthExceedsUsize);
    }
    let len = word as usize;
    validate_array_len(len, limits)?;
    if len != expected {
        return Err(XrdContainerError::LengthMismatch { len, expected });
    }
    let remaining = bytes.len() - pos - 8;
    if remaining / 8 < len {
        return Err(XrdContainerError::Truncated);
    }
    let values = read_words(bytes, pos + 8, len);
    Ok((values, pos + 8 + 8 * len))
}

/// Decode the array part of an entry from `pos` on. `has_attenuation` is
/// what the metadata document declares.
pub fn decode_xrd_arrays(
    bytes: &Vec<u8>,
    pos: usize,
    has_attenuation: bool,
    limits: ProjectLoadLimits,
) -> (r: Result<XrdArrays, XrdContainerError>)
    requires
        pos <= bytes@.len(),
    ensures
        match spec_decode_arrays(bytes@, pos as int, has_attenuation, limits) {
            Ok((t, i, a)) => r matches Ok(arrays) && arrays.two_theta@ == t && arrays.intensity@
                == i && opt_view(arrays.attenuation) == a,
            Err(e) => r matches Err(re) && re == e,
        },
{
    if bytes.len() - pos < 8 {
        return Err(XrdContainerError::Truncated);
    }
    let word = read_u64_le(bytes, pos);
    if word > usize::MAX as u64 {
        return Err(XrdContainerError::LengthExceedsUsize);
    }
    let points = word as usize;
    validate_array_len(points, limits)?;
    validate_materialized_size(points, has_attenuation, limits)?;
    let remaining = bytes.len() - pos - 8;
    if remaining / 8 < points {
        return Err(XrdContainerError::Truncated);
    }
    let two_theta = read_words(bytes, pos + 8, points);
    let after_two_theta = pos + 8 + 8 * points;
    let (intensity, after_intensity) = read_array(bytes, after_two_theta, points, limits)?;
    if has_attenuation {
        let (attenuation, end) = read_array(bytes, after_intensity, points, limits)?;
        if end != bytes.len() {
            return Err(XrdContainerError::TrailingBytes);
        }
        Ok(XrdArrays { two_theta, intensity, attenuation: Some(attenuation) })
    } else {
        if after_intensity != bytes.len() {
            return Err(XrdContainerError::TrailingBytes);
        }
        Ok(XrdArrays { two_theta, intensity, attenuation: None })
    }
}

proof fn lemma_le64_round_trip(x: u64)
    ensures
        from_le64(le64(x)) == x,
{
    let b = le64(x);
    assert(b[0] == (x & 0xff) as u8);
    assert(b[7] == ((x >> 56u64) & 0xff) as u8);
    assert(((((x & 0xff) as u8) as u64) | ((((x >> 8u64) & 0xff) as u8) as u64) << 8u64 | ((((x
        >> 16u64) & 0xff) as u8) as u64) << 16u64 | ((((x >> 24u64) & 0xff) as u8) as u64) << 24u64
        | ((((x >> 32u64) & 0xff) as u8) as u64) << 32u64 | ((((x >> 40u64) & 0xff) as u8) as u64)
        << 40u64 | ((((x >> 48u64) & 0xff) as u8) as u64) << 48u64 | ((((x >> 56u64) & 0xff) as u8)
        as u64) << 56u64) == x) by (bit_vector);
}

/// A word written at `pos` reads back at `pos`.
proof fn lemma_word_at(bytes: Seq<u8>, pos: int, x: u64)
    requires
        0 <= pos,
        pos + 8 <= bytes.len(),
        bytes.subrange(pos, pos + 8) == le64(x),
    ensures
        word_at(bytes, pos) == x,
{
    lemma_le64_round_trip(x);
}

proof fn lemma_values_bytes(v: Seq<u64>)
    ensures
        values_bytes(v).len() == 8 * v.len(),
        forall|i: int|
            0 <= i < v.len() ==> #[trigger] values_bytes(v).subrange(8 * i, 8 * i + 8) == le64(
                v[i],
            ),
    decreases v.len(),
{
    if v.len() > 0 {
        let w = v.drop_last();
        lemma_values_bytes(w);
        let head = values_bytes(w);
        assert forall|i: int| 0 <= i < v.len() implies #[trigger] values_bytes(v).subrange(
            8 * i,
            8 * i + 8,
        ) == le64(v[i]) by {
            if i < w.len() {
                assert(values_bytes(v).subrange(8 * i, 8 * i + 8) =~= head.subrange(
                    8 * i,
                    8 * i + 8,
                ));
                assert(w[i] == v[i]);
            } else {
                assert(values_bytes(v).subrange(8 * i, 8 * i + 8) =~= le64(v.last()));
            }
        }
    }
}

/// Words written from `pos` on read back from `pos` on.
proof fn lemma_words_at(bytes: Seq<u8>, pos: int, v: Seq<u64>)
    requires
        0 <= pos,
        pos + 8 * v.len() <= bytes.len(),
        bytes.subrange(pos, pos + 8 * v.len()) == values_bytes(v),
    ensures
        words_at(bytes, pos, v.len() as int) == v,
{
    lemma_values_bytes(v);
    assert forall|i: int| 0 <= i < v.len() implies #[trigger] words_at(
        bytes,
        pos,
        v.len() as int,
    )[i] == v[i] by {
        assert(bytes.subrange(pos + 8 * i, pos + 8 * i + 8) =~= values_bytes(v).subrange(
            8 * i,
            8 * i + 8,
        ));
        lemma_word_at(bytes, pos + 8 * i, v[i]);
    }
    assert(words_at(bytes, pos, v.len() as int) =~= v);
}

/// An array written at `pos`, followed by `rest`, reads back with its
/// length, as an array of the expected length.
proof fn lemma_read_array_back(
    bytes: Seq<u8>,
    pos: int,
    v: Seq<u64>,
    limits: ProjectLoadLimits,
)
    requires
        0 <= pos,
        pos + 8 + 8 * v.len() <= bytes.len(),
        bytes.subrange(pos, pos + 8 + 8 * v.len()) == array_bytes(v),
        v.len() <= limits.max_collection_items,
        v.len() <= usize::MAX,
    ensures
        word_at(bytes, pos) == v.len(),
        words_at(bytes, pos + 8, v.len() as int) == v,
        spec_read_array(bytes, pos, v.len() as usize, limits) == Ok::<_, XrdContainerError>(
            (v, pos + 8 + 8 * v.len()),
        ),
{
    lemma_values_bytes(v);
    assert(bytes.subrange(pos, pos + 8) =~= array_bytes(v).subrange(0, 8));
    assert(array_bytes(v).subrange(0, 8) =~= le64(v.len() as u64));
    lemma_word_at(bytes, pos, v.len() as u64);
    assert(bytes.subrange(pos + 8, pos + 8 + 8 * v.len()) =~= array_bytes(v).subrange(
        8,
        8 + 8 * v.len() as int,
    ));
    assert(array_bytes(v).subrange(8, 8 + 8 * v.len() as int) =~= values_bytes(v));
    lemma_words_at(bytes, pos + 8, v);
}

/// Round trip of the XRD entry: whatever `encode_xrd` accepts, the decoder
/// reads back as the same metadata followed by the same arrays (the
/// attenuation array read exactly when it was written).
#[verifier::spinoff_prover]
#[verifier::rlimit(30)]
pub proof fn lemma_xrd_round_trip(
    metadata: Seq<u8>,
    two_theta: Seq<u64>,
    intensity: Seq<u64>,
    attenuation: Option<Seq<u64>>,
    limits: ProjectLoadLimits,
)
    requires
        encode_problem(metadata, two_theta, intensity, attenuation, limits) is None,
    ensures
        ({
            let bytes = xrd_bytes(metadata, two_theta, intensity, attenuation);
            &&& spec_decode_metadata(bytes, limits) == Ok::<_, XrdContainerError>(
                (metadata, 16 + metadata.len() as int),
            )
            &&& spec_decode_arrays(bytes, 16 + metadata.len() as int, attenuation is Some, limits)
                == Ok::<_, XrdContainerError>((two_theta, intensity, attenuation))
        }),
{
    let bytes = xrd_bytes(metadata, two_theta, intensity, attenuation);
    let n = two_theta.len() as int;
    let m = metadata.len() as int;
    lemma_values_bytes(two_theta);
    lemma_values_bytes(intensity);
    let tail = match attenuation {
        Some(a) => array_bytes(a),
        None => Seq::<u8>::empty(),
    };
    if let Some(a) = attenuation {
        lemma_values_bytes(a);
    }
    let p3 = 16 + m;
    let p5 = p3 + 8 + 8 * n;
    let p7 = p5 + 8 + 8 * n;
    assert(bytes.len() == p7 + tail.len());
    // Signature and metadata.
    assert(bytes.subrange(0, 8) =~= xrd_magic());
    assert(bytes.subrange(8, 16) =~= le64(m as u64));
    lemma_word_at(bytes, 8, m as u64);
    assert(bytes.subrange(16, 16 + m) =~= metadata);
    assert(spec_decode_metadata(bytes, limits) == Ok::<_, XrdContainerError>((metadata, p3)));
    // The 2θ array.
    assert(bytes.subrange(p3, p3 + 8 + 8 * n) =~= array_bytes(two_theta));
    lemma_read_array_back(bytes, p3, two_theta, limits);
    // The intensity array.
    assert(bytes.subrange(p5, p5 + 8 + 8 * n) =~= array_bytes(intensity));
    lemma_read_array_back(bytes, p5, intensity, limits);
    match attenuation {
        Some(a) => {
            assert(bytes.subrange(p7, p7 + 8 + 8 * n) =~= array_bytes(a));
            lemma_read_array_back(bytes, p7, a, limits);
        },
        None => {},
    }
}

} // verus!
