//! XRD processing parameters: SNIP background, Savitzky-Golay smoothing and
//! normalization, their accepted ranges, and the index rules of the filters.
use vstd::prelude::*;

verus! {

pub const MAX_SNIP_ITERATIONS: u16 = 200;

pub const MAX_SAVGOL_WINDOW: u16 = 101;

pub const MAX_SAVGOL_ORDER: u8 = 6;

/// The processing applied to an XRD pattern.
#[derive(Debug, Clone, Copy, PartialEq, Eq)]
pub struct XrdProcessing {
    pub background: Option<SnipBackground>,
    pub smoothing: Option<SavitzkyGolay>,
    pub normalization: XrdNormalization,
}

impl XrdProcessing {
    /// No background, no smoothing, no normalization.
    pub fn none() -> (p: Self)
        ensures
            p.background is None,
            p.smoothing is None,
            p.normalization == XrdNormalization::Unscaled,
    {
        XrdProcessing {
            background: None,
            smoothing: None,
            normalization: XrdNormalization::Unscaled,
        }
    }
}

impl Default for XrdProcessing {
    fn default() -> (p: Self)
        ensures
            p.background is None,
            p.smoothing is None,
            p.normalization == XrdNormalization::Unscaled,
    {
        Self::none()
    }
}

/// SNIP background estimation with a number of clipping iterations.
#[derive(Debug, Clone, Copy, PartialEq, Eq)]
pub struct SnipBackground {
    pub iterations: u16,
}

/// Savitzky-Golay smoothing with an odd window and a polynomial order.
#[derive(Debug, Clone, Copy, PartialEq, Eq)]
pub struct SavitzkyGolay {
    pub window: u16,
    pub polynomial_order: u8,
}

#[derive(Debug, Clone, Copy, PartialEq, Eq)]
pub enum XrdNormalization {
    Unscaled,
    Maximum,
    Area,
}

#[derive(Debug, Clone, Copy, PartialEq, Eq, Structural)]
pub enum XrdProcessingError {
    LengthMismatch,
    InvalidBackground,
    InvalidSmoothing,
    NonFiniteResult,
}

impl XrdProcessingError {
    /// What the error says.
    pub fn message(&self) -> (m: &'static str)
        ensures
            *self == XrdProcessingError::LengthMismatch ==> m@ == "2theta and intensity lengths differ"@,
            *self == XrdProcessingError::InvalidBackground ==> m@
                == "SNIP background iterations must be between 1 and 200"@,
            *self == XrdProcessingError::InvalidSmoothing ==> m@
                == "Savitzky-Golay window must be odd, between 3 and 101, and longer than a polynomial order no greater than 6"@,
            *self == XrdProcessingError::NonFiniteResult ==> m@
                == "XRD processing produced a non-finite numeric result"@,
    {
        match self {
            XrdProcessingError::LengthMismatch => "2theta and intensity lengths differ",
            XrdProcessingError::InvalidBackground => "SNIP background iterations must be between 1 and 200",
            XrdProcessingError::InvalidSmoothing => "Savitzky-Golay window must be odd, between 3 and 101, and longer than a polynomial order no greater than 6",
            XrdProcessingError::NonFiniteResult => "XRD processing produced a non-finite numeric result",
        }
    }
}

/// The SNIP settings are outside the supported range.
pub open spec fn background_invalid(params: XrdProcessing) -> bool {
    match params.background {
        Some(b) => b.iterations == 0 || b.iterations > MAX_SNIP_ITERATIONS,
        None => false,
    }
}

/// The smoothing settings are outside the supported range: the window must be
/// odd, between 3 and the maximum, and longer than a polynomial order that
/// does not exceed the maximum order.
pub open spec fn smoothing_invalid(params: XrdProcessing) -> bool {
    match params.smoothing {
        Some(s) => s.window < 3 || s.window > MAX_SAVGOL_WINDOW || s.window % 2 == 0
            || s.polynomial_order > MAX_SAVGOL_ORDER || s.polynomial_order >= s.window,
        None => false,
    }
}

/// Check processing parameters: the background is checked before smoothing.
pub fn validate(params: XrdProcessing) -> (r: Result<(), XrdProcessingError>)
    ensures
        background_invalid(params) ==> r == Err::<(), _>(XrdProcessingError::InvalidBackground),
        !background_invalid(params) && smoothing_invalid(params) ==> r == Err::<(), _>(
            XrdProcessingError::InvalidSmoothing,
        ),
        !background_invalid(params) && !smoothing_invalid(params) ==> r is Ok,
{
    let bad_background = match params.background {
        Some(settings) => settings.iterations == 0 || settings.iterations > MAX_SNIP_ITERATIONS,
        None => false,
    };
    if bad_background {
        return Err(XrdProcessingError::InvalidBackground);
    }
    let bad_smoothing = match params.smoothing {
        Some(settings) => settings.window < 3 || settings.window > MAX_SAVGOL_WINDOW
            || settings.window % 2 == 0 || settings.polynomial_order > MAX_SAVGOL_ORDER
            || settings.polynomial_order >= settings.window as u8,
        None => false,
    };
    if bad_smoothing {
        return Err(XrdProcessingError::InvalidSmoothing);
    }
    Ok(())
}

/// The checks `process` makes before it computes anything: the two arrays
/// must have the same length, then the parameters must be valid.
pub fn check_process_inputs(
    two_theta_len: usize,
    intensity_len: usize,
    params: XrdProcessing,
) -> (r: Result<(), XrdProcessingError>)
    ensures
        two_theta_len != intensity_len ==> r == Err::<(), _>(XrdProcessingError::LengthMismatch),
        two_theta_len == intensity_len && background_invalid(params) ==> r == Err::<(), _>(
            XrdProcessingError::InvalidBackground,
        ),
        two_theta_len == intensity_len && !background_invalid(params) && smoothing_invalid(params)
            ==> r == Err::<(), _>(XrdProcessingError::InvalidSmoothing),
        two_theta_len == intensity_len && !background_invalid(params) && !smoothing_invalid(params)
            ==> r is Ok,
{
    if two_theta_len != intensity_len {
        return Err(XrdProcessingError::LengthMismatch);
    }
    validate(params)
}

/// The number of SNIP clipping passes actually run on `len` points: the
/// requested count, capped so that the widest window still fits.
pub fn snip_pass_count(iterations: u16, len: usize) -> (r: usize)
    ensures
        r as int == if iterations as int <= (if len == 0 { 0 } else { (len - 1) / 2 }) {
            iterations as int
        } else {
            if len == 0 { 0 } else { (len - 1) / 2 }
        },
{
    let cap = len.saturating_sub(1) / 2;
    let requested = iterations as usize;
    if requested <= cap {
        requested
    } else {
        cap
    }
}

/// The sample read for coefficient `offset` of the smoothing window centred at
/// `index`: `index + offset - half` (the sum saturating at the largest
/// index), clamped into `[0, len - 1]`.
pub fn smoothing_source_index(index: usize, offset: usize, half: usize, len: usize) -> (r: usize)
    requires
        len > 0,
    ensures
        ({
            let sum = if index + offset > usize::MAX { usize::MAX as int } else { index + offset };
            r as int == if sum <= half {
                0
            } else if sum - half > len - 1 {
                len - 1
            } else {
                sum - half
            }
        }),
{
    let shifted = index.saturating_add(offset).saturating_sub(half);
    if shifted < len - 1 {
        shifted
    } else {
        len - 1
    }
}

} // verus!
