//! Wild residual Bootstrap: options, the accepted sample range, the
//! xorshift sign generator, and the seed derived from a fit's input hash.
use crate::xps::XpsFitError;
use vstd::prelude::*;
use vstd::string::StringSliceAdditionalSpecFns;

verus! {

pub const MIN_BOOTSTRAP_SAMPLES: usize = 100;

pub const MAX_BOOTSTRAP_SAMPLES: usize = 5000;

pub const DEFAULT_SEED_STATE: u64 = 0x9e37_79b9_7f4a_7c15;

/// How many replicates to run, and the seed of the sign sequence (`0`
/// derives the seed from the fit input).
#[derive(Debug, Clone, Copy, PartialEq, Eq)]
pub struct XpsBootstrapOptions {
    pub samples: usize,
    pub seed: u64,
}

impl Default for XpsBootstrapOptions {
    fn default() -> (o: Self)
        ensures
            o.samples == 500,
            o.seed == 1,
    {
        XpsBootstrapOptions { samples: 500, seed: 1 }
    }
}

/// The checks a Bootstrap run makes before any replicate: the sample count
/// lies in `100..=5000`, and the energy, envelope and residual arrays of the
/// base fit have one length.
pub fn check_bootstrap_inputs(
    options: &XpsBootstrapOptions,
    energy_len: usize,
    envelope_len: usize,
    residual_len: usize,
) -> (r: Result<(), XpsFitError>)
    ensures
        r is Ok <==> (MIN_BOOTSTRAP_SAMPLES <= options.samples <= MAX_BOOTSTRAP_SAMPLES
            && energy_len == envelope_len && energy_len == residual_len),
        r is Err ==> r == Err::<(), _>(XpsFitError::InvalidInput),
{
    if options.samples < MIN_BOOTSTRAP_SAMPLES || options.samples > MAX_BOOTSTRAP_SAMPLES
        || energy_len != envelope_len || energy_len != residual_len {
        return Err(XpsFitError::InvalidInput);
    }
    Ok(())
}

/// One xorshift step (shifts 13, 7, 17).
pub open spec fn xorshift_step(x: u64) -> u64 {
    let a = x ^ (x << 13u64);
    let b = a ^ (a >> 7u64);
    b ^ (b << 17u64)
}

/// The state after `k` steps from `state`.
pub open spec fn xorshift_after(state: u64, k: nat) -> u64
    decreases k,
{
    if k == 0 {
        state
    } else {
        xorshift_step(xorshift_after(state, (k - 1) as nat))
    }
}

/// The initial state for `seed`: a zero seed is replaced by a fixed odd
/// constant, since zero is a fixed point of the step.
pub open spec fn seed_state(seed: u64) -> u64 {
    if seed == 0 {
        DEFAULT_SEED_STATE
    } else {
        seed
    }
}

/// The xorshift generator that decides the sign of each resampled residual.
pub struct XorShift64 {
    state: u64,
}

impl XorShift64 {
    pub closed spec fn state(&self) -> u64 {
        self.state
    }

    pub fn new(seed: u64) -> (g: Self)
        ensures
            g.state() == seed_state(seed),
    {
        XorShift64 {
            state: if seed == 0 {
                DEFAULT_SEED_STATE
            } else {
                seed
            },
        }
    }

    /// Advance the generator and return its new state.
    pub fn next_u64(&mut self) -> (r: u64)
        ensures
            r == xorshift_step(old(self).state()),
            final(self).state() == r,
    {
        let mut value = self.state;
        value = value ^ (value << 13);
        value = value ^ (value >> 7);
        value = value ^ (value << 17);
        self.state = value;
        value
    }
}

/// The signs one replicate gives its residuals: for each of `count` points in
/// turn the generator advances, and the residual is added when the new
/// state is odd and subtracted when it is even.
pub fn residual_signs(generator: &mut XorShift64, count: usize) -> (positive: Vec<bool>)
    ensures
        positive@.len() == count,
        forall|i: int|
            0 <= i < count ==> #[trigger] positive@[i] == (xorshift_after(
                old(generator).state(),
                (i + 1) as nat,
            ) & 1u64 == 1u64),
        final(generator).state() == xorshift_after(old(generator).state(), count as nat),
{
    let ghost start = generator.state();
    let mut positive: Vec<bool> = Vec::new();
    let mut i: usize = 0;
    while i < count
        invariant
            i <= count,
            positive@.len() == i,
            generator.state() == xorshift_after(start, i as nat),
            forall|j: int|
                0 <= j < i ==> #[trigger] positive@[j] == (xorshift_after(start, (j + 1) as nat)
                    & 1u64 == 1u64),
        decreases count - i,
    {
        let value = generator.next_u64();
        positive.push(value & 1 == 1);
        i = i + 1;
    }
    positive
}

/// The step never maps a nonzero state to zero: a generator seeded as above
/// never reaches the zero fixed point.
pub proof fn lemma_xorshift_nonzero(x: u64)
    requires
        x != 0,
    ensures
        xorshift_step(x) != 0,
{
    let a = x ^ (x << 13u64);
    let b = a ^ (a >> 7u64);
    assert(x != 0 ==> x ^ (x << 13u64) != 0) by (bit_vector);
    assert(a != 0 ==> a ^ (a >> 7u64) != 0) by (bit_vector);
    assert(b != 0 ==> b ^ (b << 17u64) != 0) by (bit_vector);
}

/// Every state a seeded generator reaches is nonzero.
pub proof fn lemma_seeded_states_nonzero(seed: u64, k: nat)
    ensures
        xorshift_after(seed_state(seed), k) != 0,
    decreases k,
{
    if k > 0 {
        lemma_seeded_states_nonzero(seed, (k - 1) as nat);
        lemma_xorshift_nonzero(xorshift_after(seed_state(seed), (k - 1) as nat));
    }
}

/// The value of an ASCII hexadecimal digit.
pub open spec fn hex_digit(b: u8) -> Option<int> {
    if 0x30 <= b <= 0x39 {
        Some(b - 0x30)
    } else if 0x61 <= b <= 0x66 {
        Some(b - 0x61 + 10)
    } else if 0x41 <= b <= 0x46 {
        Some(b - 0x41 + 10)
    } else {
        None
    }
}

pub open spec fn all_hex(d: Seq<u8>) -> bool {
    forall|i: int| 0 <= i < d.len() ==> #[trigger] hex_digit(d[i]) is Some
}

/// The number written by the hexadecimal digits `d`.
pub open spec fn hex_value(d: Seq<u8>) -> int
    decreases d.len(),
{
    if d.len() == 0 {
        0
    } else {
        hex_value(d.drop_last()) * 16 + hex_digit(d.last())->0
    }
}

/// Base-16 parsing of an unsigned 64-bit integer: an optional `+`, then at
/// least one hexadecimal digit, and a value that fits.
pub open spec fn parse_hex_u64(s: Seq<u8>) -> Option<u64> {
    let d = if s.len() > 0 && s[0] == 0x2b {
        s.drop_first()
    } else {
        s
    };
    if d.len() == 0 || !all_hex(d) || hex_value(d) > u64::MAX {
        None
    } else {
        Some(hex_value(d) as u64)
    }
}

/// The part of a hash used as a seed: its first 16 bytes when that cut falls
/// on a character boundary, else the whole hash.
pub open spec fn seed_text(b: Seq<u8>) -> Seq<u8> {
    if b.len() >= 16 && (b.len() == 16 || !(0x80 <= b[16] <= 0xbf)) {
        b.subrange(0, 16)
    } else {
        b
    }
}

proof fn lemma_hex_value_nonneg(d: Seq<u8>)
    requires
        all_hex(d),
    ensures
        hex_value(d) >= 0,
    decreases d.len(),
{
    if d.len() > 0 {
        lemma_hex_value_nonneg(d.drop_last());
    }
}

/// Parse a hexadecimal `u64`.
pub fn parse_hex_u64_exec(s: &[u8]) -> (r: Option<u64>)
    ensures
        r == parse_hex_u64(s@),
{
    let start: usize = if s.len() > 0 && s[0] == 0x2b {
        1
    } else {
        0
    };
    let ghost d = if s@.len() > 0 && s@[0] == 0x2b {
        s@.drop_first()
    } else {
        s@
    };
    assert(d =~= s@.subrange(start as int, s@.len() as int));
    if start == s.len() {
        return None;
    }
    let mut value: u64 = 0;
    let mut i: usize = start;
    while i < s.len()
        invariant
            start <= i <= s@.len(),
            d == s@.subrange(start as int, s@.len() as int),
            d == (if s@.len() > 0 && s@[0] == 0x2b {
                s@.drop_first()
            } else {
                s@
            }),
            all_hex(s@.subrange(start as int, i as int)),
            value as int == hex_value(s@.subrange(start as int, i as int)),
        decreases s.len() - i,
    {
        let b = s[i];
        let digit: u64 = if 0x30 <= b && b <= 0x39 {
            (b - 0x30) as u64
        } else if 0x61 <= b && b <= 0x66 {
            (b - 0x61 + 10) as u64
        } else if 0x41 <= b && b <= 0x46 {
            (b - 0x41 + 10) as u64
        } else {
            proof {
                assert(d[i - start] == b);
                assert(hex_digit(d[i - start]) is None);
                assert(!all_hex(d));
                assert(parse_hex_u64(s@) is None);
            }
            return None;
        };
        let ghost prefix = s@.subrange(start as int, i as int + 1);
        assert(prefix.drop_last() =~= s@.subrange(start as int, i as int));
        assert(prefix.last() == b);
        assert(hex_digit(b) == Some(digit as int));
        proof {
            assert forall|k: int| 0 <= k < prefix.len() implies #[trigger] hex_digit(prefix[k])
                is Some by {
                if k < prefix.len() - 1 {
                    assert(prefix[k] == s@.subrange(start as int, i as int)[k]);
                }
            }
        }
        assert(hex_value(prefix) == value as int * 16 + digit as int);
        if value > (u64::MAX - digit) / 16 {
            proof {
                assert(value as int * 16 + digit as int > u64::MAX) by (nonlinear_arith)
                    requires
                        value > (u64::MAX - digit) / 16,
                        digit <= 15,
                ;
                // The value already exceeds what fits, and grows with every digit.
                let rest = s@.subrange(start as int, s@.len() as int);
                assert(rest.subrange(0, (i - start + 1) as int) =~= prefix);
                lemma_hex_prefix_bound(rest, (i - start + 1) as int);
                assert(parse_hex_u64(s@) is None);
            }
            return None;
        }
        value = value * 16 + digit;
        i = i + 1;
    }
    Some(value)
}

/// Once a prefix of hexadecimal digits exceeds `u64::MAX`, the whole digit
/// string does too (or is not all digits).
proof fn lemma_hex_prefix_bound(d: Seq<u8>, k: int)
    requires
        0 < k <= d.len(),
        all_hex(d.subrange(0, k)),
        hex_value(d.subrange(0, k)) > u64::MAX,
    ensures
        !all_hex(d) || hex_value(d) > u64::MAX,
    decreases d.len() - k,
{
    if k < d.len() && all_hex(d) {
        let next = d.subrange(0, k + 1);
        assert(next.drop_last() =~= d.subrange(0, k));
        assert(all_hex(next));
        lemma_hex_value_nonneg(next.drop_last());
        assert(hex_value(next) > u64::MAX);
        lemma_hex_prefix_bound(d, k + 1);
    } else if k == d.len() {
        assert(d.subrange(0, k) =~= d);
    }
}

/// Derive a Bootstrap seed from a hexadecimal input hash: the value of its
/// leading 16 hexadecimal digits, or 1 when they do not parse.
pub fn seed_from_hash(hash: &str) -> (seed: u64)
    ensures
        seed == match parse_hex_u64(seed_text(hash.spec_bytes())) {
            Some(v) => v,
            None => 1,
        },
{
    let bytes = hash.as_bytes();
    let cut = bytes.len() >= 16 && (bytes.len() == 16 || !(0x80 <= bytes[16] && bytes[16]
        <= 0xbf));
    let parsed = if cut {
        parse_hex_u64_exec(slice_prefix(bytes, 16))
    } else {
        parse_hex_u64_exec(bytes)
    };
    match parsed {
        Some(v) => v,
        None => 1,
    }
}

/// The first `n` bytes of `s`.
fn slice_prefix(s: &[u8], n: usize) -> (r: &[u8])
    requires
        n <= s@.len(),
    ensures
        r@ == s@.subrange(0, n as int),
{
    vstd::slice::slice_subrange(s, 0, n)
}

} // verus!
