//! Structure of ISO 14976 VAMAS transfer files (NORM / REGULAR experiments).
//!
//! A file is read as a sequence of lines. The parser decides where every
//! field of the header and of each block stands, checks the counts and
//! labels that decide how the file is read, and reports the first problem
//! it meets. Real-valued fields are read by the caller; the parser receives,
//! for each line, how that line reads as a number ([`NumberText`]).
use vstd::prelude::*;
use crate::text::{
    eq_ignore_ascii_case, join_space, suffix_from, split_lines, spec_lines, contains_chars, contains_seq, eq_str, has_prefix, literal,
    lowercase, parse_u16, parse_unsigned, parse_usize, starts_with, to_ascii_lowercase, trim,
    trimmed,
};

verus! {

/// The text every VAMAS file begins with.
pub const VAMAS_MAGIC: &'static str = "VAMAS Surface Chemical Analysis Standard Data Transfer Format 1988 May 4";

/// How one line reads as a real number.
#[derive(Clone, Copy, Debug, PartialEq, Eq)]
pub enum NumberText {
    /// The line is not a number.
    Invalid,
    /// The line is an infinite or NaN number.
    NonFinite,
    /// The line is a finite number.
    Finite(FiniteNumber),
}

/// What the parser needs to know of a finite number.
#[derive(Clone, Copy, Debug, PartialEq, Eq)]
pub struct FiniteNumber {
    /// The value is zero.
    pub is_zero: bool,
    /// The value is positive and below the VAMAS missing-value sentinel 1e36.
    pub is_physical: bool,
    /// The value as a scan count: a whole number from 1 to `u32::MAX`.
    pub scan_count: Option<u32>,
}

/// A field of the header or of a block, named in errors.
#[derive(Clone, Copy, Debug, PartialEq, Eq)]
pub enum VamasField {
    HeaderIdentity,
    HeaderCommentCount,
    HeaderComment,
    ExperimentMode,
    ScanMode,
    RegionCount,
    VariableCount,
    VariableLabel,
    VariableUnit,
    InclusionCount,
    IncludedBlock,
    ExclusionCount,
    ExcludedBlock,
    FutureExperimentCount,
    FutureExperimentEntry,
    FutureBlockCount,
    BlockCount,
    SampleIdentifier,
    DateAndTime,
    GmtOffset,
    BlockCommentCount,
    BlockComment,
    Technique,
    /// The value of the experimental variable with this index.
    Variable(usize),
    SourceLabel,
    SourceEnergy,
    SourceStrength,
    SourceGeometry,
    AnalyserMode,
    PassEnergy,
    Magnification,
    WorkFunction,
    AnalyserGeometry,
    SpeciesLabel,
    TransitionLabel,
    SpeciesCharge,
    AbscissaLabel,
    AbscissaUnit,
    AbscissaStart,
    AbscissaIncrement,
    OrdinateCount,
    OrdinateLabel,
    OrdinateUnit,
    SignalMode,
    DwellTime,
    ScanCount,
    SampleTiming,
    AdditionalCount,
    AdditionalParameter,
    OrdinateValueCount,
    OrdinateExtrema,
    OrdinateValue,
}

/// Why a file was refused. `block` is the line of the block's name, or
/// `None` for the file header; `line` is a line index of the file.
#[derive(Clone, Copy, Debug, PartialEq, Eq)]
pub enum VamasError {
    /// The first line does not begin with [`VAMAS_MAGIC`].
    NotVamas,
    /// The experiment is not `NORM` / `REGULAR`.
    UnsupportedMode,
    /// The header declares future block entries.
    FutureBlockEntries,
    /// The header declares no blocks.
    NoBlocks,
    /// The number of block boundaries found differs from the declared count,
    /// or the first boundary is not where the header ends.
    BlockCountMismatch { declared: usize, found: usize },
    /// The file or block ends before the field.
    Truncated { block: Option<usize>, field: VamasField },
    /// The field is not a number of the kind it must be.
    InvalidNumber { block: Option<usize>, field: VamasField },
    /// The field is an infinite or NaN number.
    NonFiniteNumber { block: Option<usize>, field: VamasField },
    /// The abscissa unit is not electronvolts.
    UnsupportedUnit { block: usize, line: usize },
    /// The abscissa increment is zero.
    ZeroIncrement { block: usize },
    /// The block declares no ordinate variables.
    NoOrdinates { block: usize },
    /// The additional-parameter count overflows.
    AdditionalOverflow { block: usize },
    /// The ordinate value count is not a multiple of the ordinate variables.
    NotDivisible { block: usize },
    /// A non-blank line follows the last ordinate value.
    UnparsedField { block: usize, line: usize },
    /// The block has fewer than two points.
    TooFewPoints { block: usize },
    /// The point count disagrees with the `Number Steps :` comment.
    StepsMismatch { block: usize },
    /// The abscissa is neither binding nor kinetic energy.
    UnsupportedAbscissa { block: usize, line: usize },
    /// The intensity is neither counts nor a count rate.
    UnknownIntensity { block: usize },
    /// Counts lack the dwell time or scan count that convert them to a rate.
    MissingCpsScale { block: usize },
    /// No block of the file is a readable XPS block.
    NoXpsRegion,
}

/// Line offsets of the fields of a block, from the line of its source label.
pub const SOURCE_LABEL: usize = 0;
pub const SOURCE_ENERGY: usize = 1;
pub const SOURCE_STRENGTH: usize = 2;
pub const SOURCE_GEOMETRY: usize = 3;
pub const ANALYSER_MODE: usize = 7;
pub const PASS_ENERGY: usize = 8;
pub const MAGNIFICATION: usize = 9;
pub const WORK_FUNCTION: usize = 10;
pub const ANALYSER_GEOMETRY: usize = 11;
pub const SPECIES_LABEL: usize = 16;
pub const TRANSITION_LABEL: usize = 17;
pub const SPECIES_CHARGE: usize = 18;
pub const ABSCISSA_LABEL: usize = 19;
pub const ABSCISSA_UNIT: usize = 20;
pub const ABSCISSA_START: usize = 21;
pub const ABSCISSA_INCREMENT: usize = 22;
pub const ORDINATE_COUNT: usize = 23;
/// The first ordinate label; each ordinate has a label line and a unit line.
pub const ORDINATES: usize = 24;

/// Line offsets of the fields that follow the ordinate descriptors, from the
/// line of the signal mode.
pub const DWELL_TIME: usize = 1;
pub const SCAN_COUNT: usize = 2;
pub const SAMPLE_TIMING: usize = 3;
pub const ADDITIONAL_COUNT: usize = 7;
pub const ADDITIONAL_PARAMETERS: usize = 8;

/// The energy scale of a block's abscissa.
#[derive(Clone, Copy, Debug, PartialEq, Eq)]
pub enum EnergyKind {
    Binding,
    Kinetic,
}

/// Where the header's fields stand.
#[derive(Clone, Copy, Debug, PartialEq, Eq)]
pub struct VamasHeader {
    /// The number of experimental variables.
    pub variable_count: usize,
    /// The line of the first variable label; labels and units alternate.
    pub variables_start: usize,
    /// The declared number of blocks.
    pub block_count: usize,
    /// The line where the first block begins.
    pub block_start: usize,
}

/// Where the fields of one XPS block stand, and what its descriptors say.
#[derive(Clone, Copy, Debug, PartialEq, Eq)]
pub struct VamasBlock {
    /// The line of the block name.
    pub start: usize,
    /// The first comment line, and the number of comments.
    pub comment_start: usize,
    pub comment_count: usize,
    /// The line of the first experimental variable value.
    pub values_start: usize,
    /// The line of the source label (offsets such as [`SOURCE_ENERGY`] count from it).
    pub fields_start: usize,
    pub ordinate_count: usize,
    /// The line of the signal mode (offsets such as [`DWELL_TIME`] count from it).
    pub signal_line: usize,
    /// The line of the first ordinate value, and the number of values.
    pub payload_start: usize,
    pub payload_count: usize,
    /// The number of abscissa points: values per ordinate variable.
    pub point_count: usize,
    pub kind: EnergyKind,
    /// The intensity is in counts (true) rather than a count rate.
    pub counted: bool,
}

/// The text of each line.
pub open spec fn views(lines: Seq<Vec<char>>) -> Seq<Seq<char>> {
    lines.map_values(|l: Vec<char>| l@)
}

/// The trimmed text of line `p`.
pub open spec fn field_text(lines: Seq<Seq<char>>, p: int) -> Seq<char> {
    trimmed(lines[p])
}

/// Reading `n` lines from `p` in a part that ends at `end`.
pub open spec fn spec_skip(p: int, n: int, end: int, block: Option<usize>, field: VamasField) -> Result<
    (),
    VamasError,
> {
    if p + n > end {
        Err(VamasError::Truncated { block, field })
    } else {
        Ok(())
    }
}

/// Reading line `p` as a count.
pub open spec fn spec_count(
    lines: Seq<Seq<char>>,
    p: int,
    end: int,
    block: Option<usize>,
    field: VamasField,
) -> Result<usize, VamasError> {
    if p >= end {
        Err(VamasError::Truncated { block, field })
    } else {
        match parse_unsigned(field_text(lines, p), usize::MAX as int) {
            Some(v) => Ok(v as usize),
            None => Err(VamasError::InvalidNumber { block, field }),
        }
    }
}

/// Reading line `p` as a real number.
pub open spec fn spec_number(
    nums: Seq<NumberText>,
    p: int,
    end: int,
    block: Option<usize>,
    field: VamasField,
) -> Result<FiniteNumber, VamasError> {
    if p >= end {
        Err(VamasError::Truncated { block, field })
    } else {
        match nums[p] {
            NumberText::Invalid => Err(VamasError::InvalidNumber { block, field }),
            NumberText::NonFinite => Err(VamasError::NonFiniteNumber { block, field }),
            NumberText::Finite(f) => Ok(f),
        }
    }
}

/// Reading `n` real numbers from line `p`: the variable values (their fields
/// numbered from `index`) or the ordinate values.
pub open spec fn spec_numbers(
    nums: Seq<NumberText>,
    p: int,
    n: int,
    end: int,
    block: Option<usize>,
    variables: bool,
    index: int,
) -> Result<(), VamasError>
    decreases n,
{
    if n <= 0 {
        Ok(())
    } else {
        let field = if variables {
            VamasField::Variable(index as usize)
        } else {
            VamasField::OrdinateValue
        };
        match spec_number(nums, p, end, block, field) {
            Err(e) => Err(e),
            Ok(_) => spec_numbers(nums, p + 1, n - 1, end, block, variables, index + 1),
        }
    }
}

/// Reading `n` label/unit pairs from line `p`.
pub open spec fn spec_pairs(
    p: int,
    n: int,
    end: int,
    block: Option<usize>,
    label: VamasField,
    unit: VamasField,
) -> Result<(), VamasError> {
    if p + 2 * n > end {
        if (end - p) % 2 == 0 {
            Err(VamasError::Truncated { block, field: label })
        } else {
            Err(VamasError::Truncated { block, field: unit })
        }
    } else {
        Ok(())
    }
}

fn line_text(lines: &Vec<Vec<char>>, p: usize) -> (r: Vec<char>)
    requires
        p < lines@.len(),
    ensures
        r@ == field_text(views(lines@), p as int),
{
    trim(&lines[p])
}

fn read_skip(p: usize, n: usize, end: usize, block: Option<usize>, field: VamasField) -> (r: Result<
    (),
    VamasError,
>)
    requires
        p <= end,
    ensures
        r == spec_skip(p as int, n as int, end as int, block, field),
{
    if n > end - p {
        Err(VamasError::Truncated { block, field })
    } else {
        Ok(())
    }
}

fn read_count(
    lines: &Vec<Vec<char>>,
    p: usize,
    end: usize,
    block: Option<usize>,
    field: VamasField,
) -> (r: Result<usize, VamasError>)
    requires
        end <= lines@.len(),
    ensures
        r == spec_count(views(lines@), p as int, end as int, block, field),
{
    if p >= end {
        return Err(VamasError::Truncated { block, field });
    }
    let t = line_text(lines, p);
    match parse_usize(&t) {
        Some(v) => Ok(v),
        None => Err(VamasError::InvalidNumber { block, field }),
    }
}

fn read_number(
    nums: &Vec<NumberText>,
    p: usize,
    end: usize,
    block: Option<usize>,
    field: VamasField,
) -> (r: Result<FiniteNumber, VamasError>)
    requires
        end <= nums@.len(),
    ensures
        r == spec_number(nums@, p as int, end as int, block, field),
{
    if p >= end {
        return Err(VamasError::Truncated { block, field });
    }
    match nums[p] {
        NumberText::Invalid => Err(VamasError::InvalidNumber { block, field }),
        NumberText::NonFinite => Err(VamasError::NonFiniteNumber { block, field }),
        NumberText::Finite(f) => Ok(f),
    }
}

proof fn lemma_numbers_step(
    nums: Seq<NumberText>,
    p: int,
    n: int,
    end: int,
    block: Option<usize>,
    variables: bool,
    index: int,
    k: int,
)
    requires
        0 <= k < n,
        spec_numbers(nums, p, n, end, block, variables, index) == spec_numbers(
            nums,
            p + k,
            n - k,
            end,
            block,
            variables,
            index + k,
        ),
        spec_number(
            nums,
            p + k,
            end,
            block,
            if variables {
                VamasField::Variable((index + k) as usize)
            } else {
                VamasField::OrdinateValue
            },
        ) is Ok,
    ensures
        spec_numbers(nums, p, n, end, block, variables, index) == spec_numbers(
            nums,
            p + k + 1,
            n - k - 1,
            end,
            block,
            variables,
            index + k + 1,
        ),
{
}

fn read_numbers(
    nums: &Vec<NumberText>,
    p: usize,
    n: usize,
    end: usize,
    block: Option<usize>,
    variables: bool,
) -> (r: Result<(), VamasError>)
    requires
        p <= end <= nums@.len(),
    ensures
        r == spec_numbers(nums@, p as int, n as int, end as int, block, variables, 0),
        r is Ok ==> p + n <= end,
{
    let mut k: usize = 0;
    while k < n
        invariant
            p <= end <= nums@.len(),
            k <= n,
            p + k <= end,
            spec_numbers(nums@, p as int, n as int, end as int, block, variables, 0)
                == spec_numbers(
                nums@,
                p + k,
                n - k,
                end as int,
                block,
                variables,
                k as int,
            ),
        decreases n - k,
    {
        let field = if variables {
            VamasField::Variable(k)
        } else {
            VamasField::OrdinateValue
        };
        let q = p + k;
        match read_number(nums, q, end, block, field) {
            Err(e) => {
                return Err(e);
            },
            Ok(_) => {},
        }
        proof {
            lemma_numbers_step(
                nums@,
                p as int,
                n as int,
                end as int,
                block,
                variables,
                0,
                k as int,
            );
        }
        k = k + 1;
    }
    Ok(())
}

fn read_pairs(
    p: usize,
    n: usize,
    end: usize,
    block: Option<usize>,
    label: VamasField,
    unit: VamasField,
) -> (r: Result<(), VamasError>)
    requires
        p <= end,
    ensures
        r == spec_pairs(p as int, n as int, end as int, block, label, unit),
{
    let room = end - p;
    if n > room / 2 {
        if room % 2 == 0 {
            Err(VamasError::Truncated { block, field: label })
        } else {
            Err(VamasError::Truncated { block, field: unit })
        }
    } else {
        Ok(())
    }
}

/// The header: the magic line, identity, comments, the experiment and scan
/// modes, the experimental variables, the block inclusion and exclusion
/// lists, future-upgrade entries, and the block count.
pub open spec fn spec_header(lines: Seq<Seq<char>>) -> Result<VamasHeader, VamasError> {
    let end = lines.len() as int;
    let h: Option<usize> = None;
    if lines.len() == 0 || !starts_with(lines[0], VAMAS_MAGIC@) {
        Err(VamasError::NotVamas)
    } else {
        match spec_skip(1, 4, end, h, VamasField::HeaderIdentity) {
            Err(e) => Err(e),
            Ok(_) => match spec_count(lines, 5, end, h, VamasField::HeaderCommentCount) {
                Err(e) => Err(e),
                Ok(hc) => match spec_skip(6, hc as int, end, h, VamasField::HeaderComment) {
                    Err(e) => Err(e),
                    Ok(_) => spec_header_modes(lines, 6 + hc),
                },
            },
        }
    }
}

/// The header from the experiment mode on, which stands at line `p`.
pub open spec fn spec_header_modes(lines: Seq<Seq<char>>, p: int) -> Result<VamasHeader, VamasError> {
    let end = lines.len() as int;
    let h: Option<usize> = None;
    if p >= end {
        Err(VamasError::Truncated { block: h, field: VamasField::ExperimentMode })
    } else if field_text(lines, p) != "NORM"@ {
        Err(VamasError::UnsupportedMode)
    } else if p + 1 >= end {
        Err(VamasError::Truncated { block: h, field: VamasField::ScanMode })
    } else if field_text(lines, p + 1) != "REGULAR"@ {
        Err(VamasError::UnsupportedMode)
    } else {
        match spec_skip(p + 2, 1, end, h, VamasField::RegionCount) {
            Err(e) => Err(e),
            Ok(_) => match spec_count(lines, p + 3, end, h, VamasField::VariableCount) {
                Err(e) => Err(e),
                Ok(nv) => match spec_pairs(
                    p + 4,
                    nv as int,
                    end,
                    h,
                    VamasField::VariableLabel,
                    VamasField::VariableUnit,
                ) {
                    Err(e) => Err(e),
                    Ok(_) => spec_header_lists(lines, p + 4 + 2 * nv, nv, (p + 4) as usize),
                },
            },
        }
    }
}

/// The header from the block inclusion count on, which stands at line `x`.
pub open spec fn spec_header_lists(
    lines: Seq<Seq<char>>,
    x: int,
    variable_count: usize,
    variables_start: usize,
) -> Result<VamasHeader, VamasError> {
    let end = lines.len() as int;
    let h: Option<usize> = None;
    match spec_count(lines, x, end, h, VamasField::InclusionCount) {
        Err(e) => Err(e),
        Ok(inc) => match spec_skip(x + 1, inc as int, end, h, VamasField::IncludedBlock) {
            Err(e) => Err(e),
            Ok(_) => {
                let y = x + 1 + inc;
                match spec_count(lines, y, end, h, VamasField::ExclusionCount) {
                    Err(e) => Err(e),
                    Ok(exc) => match spec_skip(y + 1, exc as int, end, h, VamasField::ExcludedBlock) {
                        Err(e) => Err(e),
                        Ok(_) => spec_header_tail(lines, y + 1 + exc, variable_count, variables_start),
                    },
                }
            },
        },
    }
}

/// The header from the future experiment entry count on, at line `z`.
pub open spec fn spec_header_tail(
    lines: Seq<Seq<char>>,
    z: int,
    variable_count: usize,
    variables_start: usize,
) -> Result<VamasHeader, VamasError> {
    let end = lines.len() as int;
    let h: Option<usize> = None;
    match spec_count(lines, z, end, h, VamasField::FutureExperimentCount) {
        Err(e) => Err(e),
        Ok(fe) => match spec_skip(z + 1, fe as int, end, h, VamasField::FutureExperimentEntry) {
            Err(e) => Err(e),
            Ok(_) => {
                let w = z + 1 + fe;
                match spec_count(lines, w, end, h, VamasField::FutureBlockCount) {
                    Err(e) => Err(e),
                    Ok(fb) => if fb != 0 {
                        Err(VamasError::FutureBlockEntries)
                    } else {
                        match spec_count(lines, w + 1, end, h, VamasField::BlockCount) {
                            Err(e) => Err(e),
                            Ok(bc) => if bc == 0 {
                                Err(VamasError::NoBlocks)
                            } else {
                                Ok(
                                    VamasHeader {
                                        variable_count,
                                        variables_start,
                                        block_count: bc,
                                        block_start: (w + 2) as usize,
                                    },
                                )
                            },
                        }
                    },
                }
            },
        },
    }
}

/// Read the file header.
pub fn parse_header(lines: &Vec<Vec<char>>) -> (r: Result<VamasHeader, VamasError>)
    ensures
        r == spec_header(views(lines@)),
        r matches Ok(h) ==> h.block_start <= lines@.len() && h.variables_start + 2
            * h.variable_count <= lines@.len(),
{
    let end = lines.len();
    let h: Option<usize> = None;
    if lines.len() == 0 {
        return Err(VamasError::NotVamas);
    }
    let magic = literal(VAMAS_MAGIC);
    if !has_prefix(&lines[0], &magic) {
        return Err(VamasError::NotVamas);
    }
    match read_skip(1, 4, end, h, VamasField::HeaderIdentity) {
        Err(e) => {
            return Err(e);
        },
        Ok(_) => {},
    }
    let hc = match read_count(lines, 5, end, h, VamasField::HeaderCommentCount) {
        Err(e) => {
            return Err(e);
        },
        Ok(v) => v,
    };
    match read_skip(6, hc, end, h, VamasField::HeaderComment) {
        Err(e) => {
            return Err(e);
        },
        Ok(_) => {},
    }
    let p = 6 + hc;
    if p >= end {
        return Err(VamasError::Truncated { block: h, field: VamasField::ExperimentMode });
    }
    let mode = line_text(lines, p);
    if !eq_str(&mode, "NORM") {
        return Err(VamasError::UnsupportedMode);
    }
    if p + 1 >= end {
        return Err(VamasError::Truncated { block: h, field: VamasField::ScanMode });
    }
    let scan = line_text(lines, p + 1);
    if !eq_str(&scan, "REGULAR") {
        return Err(VamasError::UnsupportedMode);
    }
    match read_skip(p + 2, 1, end, h, VamasField::RegionCount) {
        Err(e) => {
            return Err(e);
        },
        Ok(_) => {},
    }
    let nv = match read_count(lines, p + 3, end, h, VamasField::VariableCount) {
        Err(e) => {
            return Err(e);
        },
        Ok(v) => v,
    };
    match read_pairs(p + 4, nv, end, h, VamasField::VariableLabel, VamasField::VariableUnit) {
        Err(e) => {
            return Err(e);
        },
        Ok(_) => {},
    }
    let x = p + 4 + 2 * nv;
    let inc = match read_count(lines, x, end, h, VamasField::InclusionCount) {
        Err(e) => {
            return Err(e);
        },
        Ok(v) => v,
    };
    match read_skip(x + 1, inc, end, h, VamasField::IncludedBlock) {
        Err(e) => {
            return Err(e);
        },
        Ok(_) => {},
    }
    let y = x + 1 + inc;
    let exc = match read_count(lines, y, end, h, VamasField::ExclusionCount) {
        Err(e) => {
            return Err(e);
        },
        Ok(v) => v,
    };
    match read_skip(y + 1, exc, end, h, VamasField::ExcludedBlock) {
        Err(e) => {
            return Err(e);
        },
        Ok(_) => {},
    }
    let z = y + 1 + exc;
    let fe = match read_count(lines, z, end, h, VamasField::FutureExperimentCount) {
        Err(e) => {
            return Err(e);
        },
        Ok(v) => v,
    };
    match read_skip(z + 1, fe, end, h, VamasField::FutureExperimentEntry) {
        Err(e) => {
            return Err(e);
        },
        Ok(_) => {},
    }
    let w = z + 1 + fe;
    let fb = match read_count(lines, w, end, h, VamasField::FutureBlockCount) {
        Err(e) => {
            return Err(e);
        },
        Ok(v) => v,
    };
    if fb != 0 {
        return Err(VamasError::FutureBlockEntries);
    }
    let bc = match read_count(lines, w + 1, end, h, VamasField::BlockCount) {
        Err(e) => {
            return Err(e);
        },
        Ok(v) => v,
    };
    if bc == 0 {
        return Err(VamasError::NoBlocks);
    }
    Ok(VamasHeader { variable_count: nv, variables_start: p + 4, block_count: bc, block_start: w + 2 })
}

/// Line `p` reads as a whole number from `lo` to `hi` that fits `u16`.
pub open spec fn number_between(lines: Seq<Seq<char>>, p: int, lo: int, hi: int) -> bool {
    match parse_unsigned(field_text(lines, p), 65535) {
        Some(v) => lo <= v <= hi,
        None => false,
    }
}

/// A block begins at line `i`: its date and time lines hold a plausible
/// calendar date.
pub open spec fn is_block_start(lines: Seq<Seq<char>>, i: int) -> bool {
    &&& number_between(lines, i + 2, 1900, 2200)
    &&& number_between(lines, i + 3, 1, 12)
    &&& number_between(lines, i + 4, 1, 31)
    &&& number_between(lines, i + 5, 0, 23)
    &&& number_between(lines, i + 6, 0, 59)
    &&& number_between(lines, i + 7, 0, 60)
}

/// The block starts among the lines `from .. to`, in order.
pub open spec fn spec_starts_in(lines: Seq<Seq<char>>, from: int, to: int) -> Seq<usize>
    decreases to - from,
{
    if to <= from {
        Seq::empty()
    } else if is_block_start(lines, to - 1) {
        spec_starts_in(lines, from, to - 1).push((to - 1) as usize)
    } else {
        spec_starts_in(lines, from, to - 1)
    }
}

/// The lines searched for block starts: from the end of the header to nine
/// lines before the end of the file.
pub open spec fn search_end(lines: Seq<Seq<char>>) -> int {
    if lines.len() >= 9 {
        lines.len() - 9
    } else {
        0
    }
}

/// The block starts, checked against the header.
pub open spec fn spec_block_starts(lines: Seq<Seq<char>>, header: VamasHeader) -> Result<
    Seq<usize>,
    VamasError,
> {
    let starts = spec_starts_in(lines, header.block_start as int, search_end(lines));
    if starts.len() != header.block_count || starts.len() == 0 || starts[0] != header.block_start {
        Err(
            VamasError::BlockCountMismatch {
                declared: header.block_count,
                found: starts.len() as usize,
            },
        )
    } else {
        Ok(starts)
    }
}

fn number_between_exec(lines: &Vec<Vec<char>>, p: usize, lo: u16, hi: u16) -> (r: bool)
    requires
        p < lines@.len(),
    ensures
        r == number_between(views(lines@), p as int, lo as int, hi as int),
{
    let t = line_text(lines, p);
    match parse_u16(&t) {
        Some(v) => lo <= v && v <= hi,
        None => false,
    }
}

proof fn lemma_starts_bounded(lines: Seq<Seq<char>>, from: int, to: int)
    requires
        0 <= from,
        to <= usize::MAX,
    ensures
        forall|k: int|
            0 <= k < spec_starts_in(lines, from, to).len() ==> from <= #[trigger] spec_starts_in(
                lines,
                from,
                to,
            )[k] < to,
        spec_starts_in(lines, from, to).len() <= if to > from {
            to - from
        } else {
            0
        },
    decreases to - from,
{
    if to > from {
        lemma_starts_bounded(lines, from, to - 1);
        let prev = spec_starts_in(lines, from, to - 1);
        let cur = spec_starts_in(lines, from, to);
        if is_block_start(lines, to - 1) {
            assert(cur == prev.push((to - 1) as usize));
        } else {
            assert(cur == prev);
        }
        assert forall|k: int| 0 <= k < cur.len() implies from <= #[trigger] cur[k] < to by {
            if k < prev.len() {
                assert(cur[k] == prev[k]);
                assert(from <= prev[k] < to - 1);
            }
        }
    }
}

/// Find the block boundaries and check them against the header.
pub fn block_starts(lines: &Vec<Vec<char>>, header: &VamasHeader) -> (r: Result<
    Vec<usize>,
    VamasError,
>)
    ensures
        match spec_block_starts(views(lines@), *header) {
            Ok(s) => r matches Ok(v) && v@ == s,
            Err(e) => r == Err::<Vec<usize>, VamasError>(e),
        },
{
    let to: usize = if lines.len() >= 9 {
        lines.len() - 9
    } else {
        0
    };
    let mut starts: Vec<usize> = Vec::new();
    let mut i: usize = header.block_start;
    let n = lines.len();
    if i < to {
        while i < to
            invariant
                n == lines@.len(),
                header.block_start <= i <= to,
                to as int == search_end(views(lines@)),
                to + 9 <= lines@.len() || to == 0,
                starts@ == spec_starts_in(views(lines@), header.block_start as int, i as int),
            decreases to - i,
        {
            let calendar = number_between_exec(lines, i + 2, 1900, 2200) && number_between_exec(
                lines,
                i + 3,
                1,
                12,
            ) && number_between_exec(lines, i + 4, 1, 31) && number_between_exec(
                lines,
                i + 5,
                0,
                23,
            ) && number_between_exec(lines, i + 6, 0, 59) && number_between_exec(
                lines,
                i + 7,
                0,
                60,
            );
            if calendar {
                starts.push(i);
            }
            i = i + 1;
        }
    }
    proof {
        lemma_starts_bounded(views(lines@), header.block_start as int, search_end(views(lines@)));
    }
    if starts.len() != header.block_count || starts.len() == 0 || starts[0] != header.block_start {
        return Err(
            VamasError::BlockCountMismatch { declared: header.block_count, found: starts.len() },
        );
    }
    Ok(starts)
}

/// `next`, unless `first` failed.
pub open spec fn after<T>(first: Result<(), VamasError>, next: Result<T, VamasError>) -> Result<
    T,
    VamasError,
> {
    match first {
        Err(e) => Err(e),
        Ok(_) => next,
    }
}

/// Whether `r` failed, without its value.
pub open spec fn done<T>(r: Result<T, VamasError>) -> Result<(), VamasError> {
    match r {
        Err(e) => Err(e),
        Ok(_) => Ok(()),
    }
}

/// The first of `count` comment lines from `start` that begins with `prefix`.
pub open spec fn spec_comment_line(lines: Seq<Seq<char>>, start: int, count: int, prefix: Seq<char>) -> Option<int>
    decreases count,
{
    if count <= 0 {
        None
    } else if starts_with(field_text(lines, start), prefix) {
        Some(start)
    } else {
        spec_comment_line(lines, start + 1, count - 1, prefix)
    }
}

/// The text after `prefix` in the first comment that begins with it, trimmed.
pub open spec fn spec_comment(lines: Seq<Seq<char>>, start: int, count: int, prefix: Seq<char>) -> Option<
    Seq<char>,
> {
    match spec_comment_line(lines, start, count, prefix) {
        Some(k) => Some(
            trimmed(field_text(lines, k).subrange(prefix.len() as int, field_text(lines, k).len() as int)),
        ),
        None => None,
    }
}

proof fn lemma_comment_line(lines: Seq<Seq<char>>, start: int, count: int, prefix: Seq<char>)
    ensures
        spec_comment_line(lines, start, count, prefix) matches Some(k) ==> start <= k < start
            + count && starts_with(field_text(lines, k), prefix),
    decreases count,
{
    if count > 0 && !starts_with(field_text(lines, start), prefix) {
        lemma_comment_line(lines, start + 1, count - 1, prefix);
    }
}

/// Find the first of `count` comment lines from `start` that begins with `prefix`.
pub fn comment_line(lines: &Vec<Vec<char>>, start: usize, count: usize, prefix: &Vec<char>) -> (r: Option<usize>)
    requires
        start + count <= lines@.len(),
    ensures
        match spec_comment_line(views(lines@), start as int, count as int, prefix@) {
            Some(k) => r == Some(k as usize),
            None => r is None,
        },
        r matches Some(k) ==> start <= k < start + count && starts_with(
            field_text(views(lines@), k as int),
            prefix@,
        ),
{
    proof {
        lemma_comment_line(views(lines@), start as int, count as int, prefix@);
    }
    let n = lines.len();
    let mut i: usize = 0;
    while i < count
        invariant
            n == lines@.len(),
            start + count <= lines@.len(),
            i <= count,
            spec_comment_line(views(lines@), start as int, count as int, prefix@)
                == spec_comment_line(views(lines@), start + i, count - i, prefix@),
        decreases count - i,
    {
        let t = line_text(lines, start + i);
        if has_prefix(&t, prefix) {
            return Some(start + i);
        }
        i = i + 1;
    }
    None
}

/// The text after `prefix` in the first of `count` comment lines from `start`
/// that begins with it, trimmed.
pub fn comment(lines: &Vec<Vec<char>>, start: usize, count: usize, prefix: &Vec<char>) -> (r: Option<Vec<char>>)
    requires
        start + count <= lines@.len(),
    ensures
        match spec_comment(views(lines@), start as int, count as int, prefix@) {
            Some(t) => r matches Some(v) && v@ == t,
            None => r is None,
        },
{
    let n = lines.len();
    match comment_line(lines, start, count, prefix) {
        Some(k) => {
            let t = line_text(lines, k);
            let rest = suffix_from(&t, prefix.len());
            proof {
                lemma_comment_line(views(lines@), start as int, count as int, prefix@);
                assert(spec_comment_line(views(lines@), start as int, count as int, prefix@)
                    == Some(k as int));
            }
            Some(trim(&rest))
        },
        None => None,
    }
}

/// The first line from `from` before `end` that is neither blank nor the
/// `end of experiment` terminator.
pub open spec fn spec_unparsed(lines: Seq<Seq<char>>, from: int, end: int) -> Option<int>
    decreases end - from,
{
    if from >= end {
        None
    } else if field_text(lines, from).len() != 0 && lowercase(field_text(lines, from))
        != lowercase("end of experiment"@) {
        Some(from)
    } else {
        spec_unparsed(lines, from + 1, end)
    }
}

fn first_unparsed(lines: &Vec<Vec<char>>, from: usize, end: usize) -> (r: Option<usize>)
    requires
        end <= lines@.len(),
    ensures
        match spec_unparsed(views(lines@), from as int, end as int) {
            Some(k) => r == Some(k as usize),
            None => r is None,
        },
{
    let mut i: usize = from;
    while i < end
        invariant
            end <= lines@.len(),
            from <= i,
            i < end ==> spec_unparsed(views(lines@), from as int, end as int) == spec_unparsed(
                views(lines@),
                i as int,
                end as int,
            ),
            i >= end ==> spec_unparsed(views(lines@), from as int, end as int) is None,
        decreases end - i,
    {
        let t = line_text(lines, i);
        if t.len() != 0 && !eq_ignore_ascii_case(&t, "end of experiment") {
            return Some(i);
        }
        i = i + 1;
    }
    None
}

/// Ordinate descriptors that mark a count rate.
pub open spec fn has_rate_marker(t: Seq<char>) -> bool {
    ||| contains_seq(t, "cps"@)
    ||| contains_seq(t, "c/s"@)
    ||| contains_seq(t, "count/s"@)
    ||| contains_seq(t, "counts/s"@)
    ||| contains_seq(t, "s-1"@)
}

fn rate_marker(t: &Vec<char>) -> (r: bool)
    ensures
        r == has_rate_marker(t@),
{
    contains_chars(t, &literal("cps")) || contains_chars(t, &literal("c/s")) || contains_chars(
        t,
        &literal("count/s"),
    ) || contains_chars(t, &literal("counts/s")) || contains_chars(t, &literal("s-1"))
}

/// The start of block `s` (which ends before line `end`): sample identifier,
/// date and time, GMT offset, comments and technique. `None` for a block
/// whose technique is not XPS; otherwise the comment count.
pub open spec fn spec_block_head(lines: Seq<Seq<char>>, s: int, end: int) -> Result<Option<usize>, VamasError> {
    let b = Some(s as usize);
    after(
        spec_skip(s + 1, 1, end, b, VamasField::SampleIdentifier),
        after(
            spec_skip(s + 2, 6, end, b, VamasField::DateAndTime),
            after(
                spec_skip(s + 8, 1, end, b, VamasField::GmtOffset),
                match spec_count(lines, s + 9, end, b, VamasField::BlockCommentCount) {
                    Err(e) => Err(e),
                    Ok(c) => after(
                        spec_skip(s + 10, c as int, end, b, VamasField::BlockComment),
                        after(
                            spec_skip(s + 10 + c, 1, end, b, VamasField::Technique),
                            if field_text(lines, s + 10 + c) == "XPS"@ {
                                Ok(Some(c))
                            } else {
                                Ok(None)
                            },
                        ),
                    ),
                },
            ),
        ),
    )
}

fn read_block_head(lines: &Vec<Vec<char>>, s: usize, end: usize) -> (r: Result<Option<usize>, VamasError>)
    requires
        s < end <= lines@.len(),
    ensures
        r == spec_block_head(views(lines@), s as int, end as int),
        r matches Ok(Some(c)) ==> s + 11 + c <= end,
{
    let b = Some(s);
    match read_skip(s + 1, 1, end, b, VamasField::SampleIdentifier) {
        Err(e) => {
            return Err(e);
        },
        Ok(_) => {},
    }
    match read_skip(s + 2, 6, end, b, VamasField::DateAndTime) {
        Err(e) => {
            return Err(e);
        },
        Ok(_) => {},
    }
    match read_skip(s + 8, 1, end, b, VamasField::GmtOffset) {
        Err(e) => {
            return Err(e);
        },
        Ok(_) => {},
    }
    let c = match read_count(lines, s + 9, end, b, VamasField::BlockCommentCount) {
        Err(e) => {
            return Err(e);
        },
        Ok(v) => v,
    };
    match read_skip(s + 10, c, end, b, VamasField::BlockComment) {
        Err(e) => {
            return Err(e);
        },
        Ok(_) => {},
    }
    match read_skip(s + 10 + c, 1, end, b, VamasField::Technique) {
        Err(e) => {
            return Err(e);
        },
        Ok(_) => {},
    }
    let technique = line_text(lines, s + 10 + c);
    if eq_str(&technique, "XPS") {
        Ok(Some(c))
    } else {
        Ok(None)
    }
}

/// The experimental variable values (from line `q0`, one per header
/// variable) and the analysis source, analyser, species and abscissa fields
/// and the ordinate descriptors of block `s`. The ordinate count.
pub open spec fn spec_block_source(
    lines: Seq<Seq<char>>,
    nums: Seq<NumberText>,
    s: int,
    end: int,
    q0: int,
    nv: int,
) -> Result<usize, VamasError> {
    let b = Some(s as usize);
    let q = q0 + nv;
    after(
        spec_numbers(nums, q0, nv, end, b, true, 0),
        after(
            spec_skip(q + SOURCE_LABEL, 1, end, b, VamasField::SourceLabel),
            after(
                done(spec_number(nums, q + SOURCE_ENERGY, end, b, VamasField::SourceEnergy)),
                after(
                    done(spec_number(nums, q + SOURCE_STRENGTH, end, b, VamasField::SourceStrength)),
                    after(
                        spec_skip(q + SOURCE_GEOMETRY, 4, end, b, VamasField::SourceGeometry),
                        after(
                            spec_skip(q + ANALYSER_MODE, 1, end, b, VamasField::AnalyserMode),
                            spec_block_analyser(lines, nums, s, end, q),
                        ),
                    ),
                ),
            ),
        ),
    )
}

/// Block `s` from its pass energy on; `q` is the line of its source label.
pub open spec fn spec_block_analyser(
    lines: Seq<Seq<char>>,
    nums: Seq<NumberText>,
    s: int,
    end: int,
    q: int,
) -> Result<usize, VamasError> {
    let b = Some(s as usize);
    after(
        done(spec_number(nums, q + PASS_ENERGY, end, b, VamasField::PassEnergy)),
        after(
            spec_skip(q + MAGNIFICATION, 1, end, b, VamasField::Magnification),
            after(
                done(spec_number(nums, q + WORK_FUNCTION, end, b, VamasField::WorkFunction)),
                after(
                    spec_skip(q + ANALYSER_GEOMETRY, 5, end, b, VamasField::AnalyserGeometry),
                    after(
                        spec_skip(q + SPECIES_LABEL, 1, end, b, VamasField::SpeciesLabel),
                        after(
                            spec_skip(q + TRANSITION_LABEL, 1, end, b, VamasField::TransitionLabel),
                            after(
                                spec_skip(q + SPECIES_CHARGE, 1, end, b, VamasField::SpeciesCharge),
                                spec_block_abscissa(lines, nums, s, end, q),
                            ),
                        ),
                    ),
                ),
            ),
        ),
    )
}

/// Block `s` from its abscissa label to its ordinate descriptors.
pub open spec fn spec_block_abscissa(
    lines: Seq<Seq<char>>,
    nums: Seq<NumberText>,
    s: int,
    end: int,
    q: int,
) -> Result<usize, VamasError> {
    let b = Some(s as usize);
    after(
        spec_skip(q + ABSCISSA_LABEL, 1, end, b, VamasField::AbscissaLabel),
        after(
            spec_skip(q + ABSCISSA_UNIT, 1, end, b, VamasField::AbscissaUnit),
            after(
                if lowercase(field_text(lines, q + ABSCISSA_UNIT)) == lowercase("eV"@) {
                    Ok(())
                } else {
                    Err(
                        VamasError::UnsupportedUnit {
                            block: s as usize,
                            line: (q + ABSCISSA_UNIT) as usize,
                        },
                    )
                },
                after(
                    done(spec_number(nums, q + ABSCISSA_START, end, b, VamasField::AbscissaStart)),
                    match spec_number(nums, q + ABSCISSA_INCREMENT, end, b, VamasField::AbscissaIncrement) {
                        Err(e) => Err(e),
                        Ok(f) => if f.is_zero {
                            Err(VamasError::ZeroIncrement { block: s as usize })
                        } else {
                            match spec_count(lines, q + ORDINATE_COUNT, end, b, VamasField::OrdinateCount) {
                                Err(e) => Err(e),
                                Ok(m) => if m == 0 {
                                    Err(VamasError::NoOrdinates { block: s as usize })
                                } else {
                                    after(
                                        spec_pairs(
                                            q + ORDINATES,
                                            m as int,
                                            end,
                                            b,
                                            VamasField::OrdinateLabel,
                                            VamasField::OrdinateUnit,
                                        ),
                                        Ok(m),
                                    )
                                },
                            }
                        },
                    },
                ),
            ),
        ),
    )
}

fn read_block_abscissa(
    lines: &Vec<Vec<char>>,
    nums: &Vec<NumberText>,
    s: usize,
    end: usize,
    q: usize,
) -> (r: Result<usize, VamasError>)
    requires
        q + ABSCISSA_LABEL <= end <= lines@.len(),
        nums@.len() == lines@.len(),
    ensures
        r == spec_block_abscissa(views(lines@), nums@, s as int, end as int, q as int),
        r matches Ok(m) ==> m > 0 && q + ORDINATES + 2 * m <= end,
{
    let b = Some(s);
    match read_skip(q + ABSCISSA_LABEL, 1, end, b, VamasField::AbscissaLabel) {
        Err(e) => {
            return Err(e);
        },
        Ok(_) => {},
    }
    match read_skip(q + ABSCISSA_UNIT, 1, end, b, VamasField::AbscissaUnit) {
        Err(e) => {
            return Err(e);
        },
        Ok(_) => {},
    }
    let unit = line_text(lines, q + ABSCISSA_UNIT);
    if !eq_ignore_ascii_case(&unit, "eV") {
        return Err(VamasError::UnsupportedUnit { block: s, line: q + ABSCISSA_UNIT });
    }
    match read_number(nums, q + ABSCISSA_START, end, b, VamasField::AbscissaStart) {
        Err(e) => {
            return Err(e);
        },
        Ok(_) => {},
    }
    let step = match read_number(nums, q + ABSCISSA_INCREMENT, end, b, VamasField::AbscissaIncrement) {
        Err(e) => {
            return Err(e);
        },
        Ok(f) => f,
    };
    if step.is_zero {
        return Err(VamasError::ZeroIncrement { block: s });
    }
    let m = match read_count(lines, q + ORDINATE_COUNT, end, b, VamasField::OrdinateCount) {
        Err(e) => {
            return Err(e);
        },
        Ok(v) => v,
    };
    if m == 0 {
        return Err(VamasError::NoOrdinates { block: s });
    }
    match read_pairs(q + ORDINATES, m, end, b, VamasField::OrdinateLabel, VamasField::OrdinateUnit) {
        Err(e) => {
            return Err(e);
        },
        Ok(_) => {},
    }
    Ok(m)
}

fn read_block_analyser(
    lines: &Vec<Vec<char>>,
    nums: &Vec<NumberText>,
    s: usize,
    end: usize,
    q: usize,
) -> (r: Result<usize, VamasError>)
    requires
        q + PASS_ENERGY <= end <= lines@.len(),
        nums@.len() == lines@.len(),
    ensures
        r == spec_block_analyser(views(lines@), nums@, s as int, end as int, q as int),
        r matches Ok(m) ==> m > 0 && q + ORDINATES + 2 * m <= end,
{
    let b = Some(s);
    match read_number(nums, q + PASS_ENERGY, end, b, VamasField::PassEnergy) {
        Err(e) => {
            return Err(e);
        },
        Ok(_) => {},
    }
    match read_skip(q + MAGNIFICATION, 1, end, b, VamasField::Magnification) {
        Err(e) => {
            return Err(e);
        },
        Ok(_) => {},
    }
    match read_number(nums, q + WORK_FUNCTION, end, b, VamasField::WorkFunction) {
        Err(e) => {
            return Err(e);
        },
        Ok(_) => {},
    }
    match read_skip(q + ANALYSER_GEOMETRY, 5, end, b, VamasField::AnalyserGeometry) {
        Err(e) => {
            return Err(e);
        },
        Ok(_) => {},
    }
    match read_skip(q + SPECIES_LABEL, 1, end, b, VamasField::SpeciesLabel) {
        Err(e) => {
            return Err(e);
        },
        Ok(_) => {},
    }
    match read_skip(q + TRANSITION_LABEL, 1, end, b, VamasField::TransitionLabel) {
        Err(e) => {
            return Err(e);
        },
        Ok(_) => {},
    }
    match read_skip(q + SPECIES_CHARGE, 1, end, b, VamasField::SpeciesCharge) {
        Err(e) => {
            return Err(e);
        },
        Ok(_) => {},
    }
    read_block_abscissa(lines, nums, s, end, q)
}

fn read_block_source(
    lines: &Vec<Vec<char>>,
    nums: &Vec<NumberText>,
    s: usize,
    end: usize,
    q0: usize,
    nv: usize,
) -> (r: Result<usize, VamasError>)
    requires
        q0 <= end <= lines@.len(),
        nums@.len() == lines@.len(),
    ensures
        r == spec_block_source(views(lines@), nums@, s as int, end as int, q0 as int, nv as int),
        r matches Ok(m) ==> m > 0 && q0 + nv + ORDINATES + 2 * m <= end,
{
    let b = Some(s);
    match read_numbers(nums, q0, nv, end, b, true) {
        Err(e) => {
            return Err(e);
        },
        Ok(_) => {},
    }
    let q = q0 + nv;
    match read_skip(q + SOURCE_LABEL, 1, end, b, VamasField::SourceLabel) {
        Err(e) => {
            return Err(e);
        },
        Ok(_) => {},
    }
    match read_number(nums, q + SOURCE_ENERGY, end, b, VamasField::SourceEnergy) {
        Err(e) => {
            return Err(e);
        },
        Ok(_) => {},
    }
    match read_number(nums, q + SOURCE_STRENGTH, end, b, VamasField::SourceStrength) {
        Err(e) => {
            return Err(e);
        },
        Ok(_) => {},
    }
    match read_skip(q + SOURCE_GEOMETRY, 4, end, b, VamasField::SourceGeometry) {
        Err(e) => {
            return Err(e);
        },
        Ok(_) => {},
    }
    match read_skip(q + ANALYSER_MODE, 1, end, b, VamasField::AnalyserMode) {
        Err(e) => {
            return Err(e);
        },
        Ok(_) => {},
    }
    read_block_analyser(lines, nums, s, end, q)
}

/// Block `s` from its signal mode (line `r`) to the end: dwell time, scan
/// count, sample timing, additional parameters, then the ordinate values of
/// its `m` ordinate variables. The line of the value count, and the count.
pub open spec fn spec_block_tail(
    lines: Seq<Seq<char>>,
    nums: Seq<NumberText>,
    s: int,
    end: int,
    r: int,
    m: int,
) -> Result<(usize, usize), VamasError> {
    let b = Some(s as usize);
    after(
        spec_skip(r, 1, end, b, VamasField::SignalMode),
        after(
            done(spec_number(nums, r + DWELL_TIME, end, b, VamasField::DwellTime)),
            after(
                done(spec_number(nums, r + SCAN_COUNT, end, b, VamasField::ScanCount)),
                after(
                    spec_skip(r + SAMPLE_TIMING, 4, end, b, VamasField::SampleTiming),
                    match spec_count(lines, r + ADDITIONAL_COUNT, end, b, VamasField::AdditionalCount) {
                        Err(e) => Err(e),
                        Ok(a) => if a * 3 > usize::MAX {
                            Err(VamasError::AdditionalOverflow { block: s as usize })
                        } else {
                            after(
                                spec_skip(
                                    r + ADDITIONAL_PARAMETERS,
                                    3 * a,
                                    end,
                                    b,
                                    VamasField::AdditionalParameter,
                                ),
                                spec_payload(lines, nums, s, end, r + ADDITIONAL_PARAMETERS + 3 * a, m),
                            )
                        },
                    },
                ),
            ),
        ),
    )
}

/// The ordinate value count (line `u`), the ordinate extrema, the values, and
/// nothing but blank lines or the terminator after them.
pub open spec fn spec_payload(
    lines: Seq<Seq<char>>,
    nums: Seq<NumberText>,
    s: int,
    end: int,
    u: int,
    m: int,
) -> Result<(usize, usize), VamasError> {
    let b = Some(s as usize);
    match spec_count(lines, u, end, b, VamasField::OrdinateValueCount) {
        Err(e) => Err(e),
        Ok(pc) => if (pc as int) % m != 0 {
            Err(VamasError::NotDivisible { block: s as usize })
        } else {
            after(
                spec_skip(u + 1, 2 * m, end, b, VamasField::OrdinateExtrema),
                after(
                    spec_numbers(nums, u + 1 + 2 * m, pc as int, end, b, false, 0),
                    match spec_unparsed(lines, u + 1 + 2 * m + pc, end) {
                        Some(k) => Err(VamasError::UnparsedField { block: s as usize, line: k as usize }),
                        None => Ok((u as usize, pc)),
                    },
                ),
            )
        },
    }
}

fn read_payload(
    lines: &Vec<Vec<char>>,
    nums: &Vec<NumberText>,
    s: usize,
    end: usize,
    u: usize,
    m: usize,
) -> (r: Result<(usize, usize), VamasError>)
    requires
        u <= end <= lines@.len(),
        nums@.len() == lines@.len(),
        m > 0,
    ensures
        r == spec_payload(views(lines@), nums@, s as int, end as int, u as int, m as int),
        r matches Ok((uu, pc)) ==> uu == u && u + 1 + 2 * m + pc <= end,
{
    let b = Some(s);
    let pc = match read_count(lines, u, end, b, VamasField::OrdinateValueCount) {
        Err(e) => {
            return Err(e);
        },
        Ok(v) => v,
    };
    if pc % m != 0 {
        return Err(VamasError::NotDivisible { block: s });
    }
    if m > (end - (u + 1)) / 2 {
        return Err(VamasError::Truncated { block: b, field: VamasField::OrdinateExtrema });
    }
    let v = u + 1 + 2 * m;
    match read_numbers(nums, v, pc, end, b, false) {
        Err(e) => {
            return Err(e);
        },
        Ok(_) => {},
    }
    match first_unparsed(lines, v + pc, end) {
        Some(k) => Err(VamasError::UnparsedField { block: s, line: k }),
        None => Ok((u, pc)),
    }
}

fn read_block_tail(
    lines: &Vec<Vec<char>>,
    nums: &Vec<NumberText>,
    s: usize,
    end: usize,
    r: usize,
    m: usize,
) -> (res: Result<(usize, usize), VamasError>)
    requires
        r <= end <= lines@.len(),
        nums@.len() == lines@.len(),
        m > 0,
    ensures
        res == spec_block_tail(views(lines@), nums@, s as int, end as int, r as int, m as int),
        res matches Ok((u, pc)) ==> r + ADDITIONAL_PARAMETERS <= u && u + 1 + 2 * m + pc <= end,
{
    let b = Some(s);
    match read_skip(r, 1, end, b, VamasField::SignalMode) {
        Err(e) => {
            return Err(e);
        },
        Ok(_) => {},
    }
    match read_number(nums, r + DWELL_TIME, end, b, VamasField::DwellTime) {
        Err(e) => {
            return Err(e);
        },
        Ok(_) => {},
    }
    match read_number(nums, r + SCAN_COUNT, end, b, VamasField::ScanCount) {
        Err(e) => {
            return Err(e);
        },
        Ok(_) => {},
    }
    match read_skip(r + SAMPLE_TIMING, 4, end, b, VamasField::SampleTiming) {
        Err(e) => {
            return Err(e);
        },
        Ok(_) => {},
    }
    let a = match read_count(lines, r + ADDITIONAL_COUNT, end, b, VamasField::AdditionalCount) {
        Err(e) => {
            return Err(e);
        },
        Ok(v) => v,
    };
    if a > usize::MAX / 3 {
        return Err(VamasError::AdditionalOverflow { block: s });
    }
    match read_skip(r + ADDITIONAL_PARAMETERS, 3 * a, end, b, VamasField::AdditionalParameter) {
        Err(e) => {
            return Err(e);
        },
        Ok(_) => {},
    }
    read_payload(lines, nums, s, end, r + ADDITIONAL_PARAMETERS + 3 * a, m)
}

/// The `Number Steps :` comment names a step count that disagrees with the
/// number of points.
pub open spec fn steps_disagree(lines: Seq<Seq<char>>, start: int, count: int, points: int) -> bool {
    match spec_comment(lines, start, count, "Number Steps :"@) {
        Some(t) => match parse_unsigned(t, usize::MAX as int) {
            Some(steps) => steps + 1 != points,
            None => false,
        },
        None => false,
    }
}

/// The ordinate descriptor of the first ordinate variable: its label, a
/// space and its unit, in lower case.
pub open spec fn ordinate_text(lines: Seq<Seq<char>>, q: int) -> Seq<char> {
    lowercase(field_text(lines, q + ORDINATES) + seq![' '] + field_text(lines, q + ORDINATES + 1))
}

/// The dwell time and scan count that turn counts into a rate are known.
pub open spec fn cps_scale_known(nums: Seq<NumberText>, r: int) -> bool {
    match (nums[r + DWELL_TIME], nums[r + SCAN_COUNT]) {
        (NumberText::Finite(dwell), NumberText::Finite(scans)) => dwell.is_physical
            && scans.scan_count is Some,
        _ => false,
    }
}

/// What the descriptors of block `s` mean: the number of points, the energy
/// scale, and whether the intensity is counts or a count rate.
pub open spec fn spec_block_meaning(
    lines: Seq<Seq<char>>,
    nums: Seq<NumberText>,
    s: int,
    c: int,
    q: int,
    m: int,
    r: int,
    pc: int,
) -> Result<(EnergyKind, bool), VamasError> {
    let block = s as usize;
    let points = pc / m;
    let abscissa = lowercase(field_text(lines, q + ABSCISSA_LABEL));
    let rate = has_rate_marker(ordinate_text(lines, q));
    let counted = !rate && contains_seq(lowercase(field_text(lines, r)), "pulse"@);
    if points < 2 {
        Err(VamasError::TooFewPoints { block })
    } else if steps_disagree(lines, s + 10, c, points) {
        Err(VamasError::StepsMismatch { block })
    } else if abscissa != "binding energy"@ && abscissa != "kinetic energy"@ {
        Err(VamasError::UnsupportedAbscissa { block, line: (q + ABSCISSA_LABEL) as usize })
    } else if !rate && !counted {
        Err(VamasError::UnknownIntensity { block })
    } else if counted && !cps_scale_known(nums, r) {
        Err(VamasError::MissingCpsScale { block })
    } else if abscissa == "binding energy"@ {
        Ok((EnergyKind::Binding, counted))
    } else {
        Ok((EnergyKind::Kinetic, counted))
    }
}

fn read_block_meaning(
    lines: &Vec<Vec<char>>,
    nums: &Vec<NumberText>,
    s: usize,
    c: usize,
    q: usize,
    m: usize,
    r: usize,
    pc: usize,
) -> (res: Result<(EnergyKind, bool), VamasError>)
    requires
        s + 10 + c <= q,
        q + ORDINATES + 2 * m == r,
        r + SAMPLE_TIMING <= lines@.len(),
        nums@.len() == lines@.len(),
        m > 0,
    ensures
        res == spec_block_meaning(
            views(lines@),
            nums@,
            s as int,
            c as int,
            q as int,
            m as int,
            r as int,
            pc as int,
        ),
{
    let n = nums.len();
    let block = s;
    let points = pc / m;
    if points < 2 {
        return Err(VamasError::TooFewPoints { block });
    }
    let prefix = literal("Number Steps :");
    match comment(lines, s + 10, c, &prefix) {
        Some(t) => match parse_usize(&t) {
            Some(steps) => {
                if steps == usize::MAX || steps + 1 != points {
                    return Err(VamasError::StepsMismatch { block });
                }
            },
            None => {},
        },
        None => {},
    }
    let label = line_text(lines, q + ABSCISSA_LABEL);
    let abscissa = to_ascii_lowercase(&label);
    let binding = eq_str(&abscissa, "binding energy");
    let kinetic = eq_str(&abscissa, "kinetic energy");
    if !binding && !kinetic {
        return Err(VamasError::UnsupportedAbscissa { block, line: q + ABSCISSA_LABEL });
    }
    let ordinate_label = line_text(lines, q + ORDINATES);
    let ordinate_unit = line_text(lines, q + ORDINATES + 1);
    let joined = join_space(&ordinate_label, &ordinate_unit);
    let descriptor = to_ascii_lowercase(&joined);
    let rate = rate_marker(&descriptor);
    let signal = line_text(lines, r);
    let signal_lower = to_ascii_lowercase(&signal);
    let counted = !rate && contains_chars(&signal_lower, &literal("pulse"));
    if !rate && !counted {
        return Err(VamasError::UnknownIntensity { block });
    }
    if counted {
        let known = match (nums[r + DWELL_TIME], nums[r + SCAN_COUNT]) {
            (NumberText::Finite(dwell), NumberText::Finite(scans)) => dwell.is_physical
                && scans.scan_count.is_some(),
            _ => false,
        };
        if !known {
            return Err(VamasError::MissingCpsScale { block });
        }
    }
    if binding {
        Ok((EnergyKind::Binding, counted))
    } else {
        Ok((EnergyKind::Kinetic, counted))
    }
}

/// One block from line `s` to just before line `end`, with `nv`
/// experimental variables: `None` for a block that is not XPS.
#[verifier::opaque]
pub open spec fn spec_block(
    lines: Seq<Seq<char>>,
    nums: Seq<NumberText>,
    s: int,
    end: int,
    nv: int,
) -> Result<Option<VamasBlock>, VamasError> {
    match spec_block_head(lines, s, end) {
        Err(e) => Err(e),
        Ok(None) => Ok(None),
        Ok(Some(c)) => {
            let q0 = s + 11 + c;
            let q = q0 + nv;
            match spec_block_source(lines, nums, s, end, q0, nv) {
                Err(e) => Err(e),
                Ok(m) => {
                    let r = q + ORDINATES + 2 * m;
                    match spec_block_tail(lines, nums, s, end, r, m as int) {
                        Err(e) => Err(e),
                        Ok((u, pc)) => match spec_block_meaning(
                            lines,
                            nums,
                            s,
                            c as int,
                            q,
                            m as int,
                            r,
                            pc as int,
                        ) {
                            Err(e) => Err(e),
                            Ok((kind, counted)) => Ok(
                                Some(
                                    VamasBlock {
                                        start: s as usize,
                                        comment_start: (s + 10) as usize,
                                        comment_count: c,
                                        values_start: q0 as usize,
                                        fields_start: q as usize,
                                        ordinate_count: m,
                                        signal_line: r as usize,
                                        payload_start: (u + 1 + 2 * m) as usize,
                                        payload_count: pc,
                                        point_count: (pc / m) as usize,
                                        kind,
                                        counted,
                                    },
                                ),
                            ),
                        },
                    }
                },
            }
        },
    }
}

/// Read the block from line `s` to just before line `end`.
pub fn parse_block(
    lines: &Vec<Vec<char>>,
    nums: &Vec<NumberText>,
    s: usize,
    end: usize,
    nv: usize,
) -> (res: Result<Option<VamasBlock>, VamasError>)
    requires
        s < end <= lines@.len(),
        nums@.len() == lines@.len(),
    ensures
        res == spec_block(views(lines@), nums@, s as int, end as int, nv as int),
{
    proof {
        reveal(spec_block);
    }
    let c = match read_block_head(lines, s, end) {
        Err(e) => {
            return Err(e);
        },
        Ok(None) => {
            return Ok(None);
        },
        Ok(Some(c)) => c,
    };
    let q0 = s + 11 + c;
    let m = match read_block_source(lines, nums, s, end, q0, nv) {
        Err(e) => {
            return Err(e);
        },
        Ok(m) => m,
    };
    let q = q0 + nv;
    let r = q + ORDINATES + 2 * m;
    let (u, pc) = match read_block_tail(lines, nums, s, end, r, m) {
        Err(e) => {
            return Err(e);
        },
        Ok(t) => t,
    };
    let (kind, counted) = match read_block_meaning(lines, nums, s, c, q, m, r, pc) {
        Err(e) => {
            return Err(e);
        },
        Ok(t) => t,
    };
    Ok(
        Some(
            VamasBlock {
                start: s,
                comment_start: s + 10,
                comment_count: c,
                values_start: q0,
                fields_start: q,
                ordinate_count: m,
                signal_line: r,
                payload_start: u + 1 + 2 * m,
                payload_count: pc,
                point_count: pc / m,
                kind,
                counted,
            },
        ),
    )
}

/// Where the header's fields and every block's fields stand.
#[derive(Clone, Debug, PartialEq, Eq)]
pub struct VamasLayout {
    pub header: VamasHeader,
    /// One entry per block, in file order: `None` for a block that is not XPS.
    pub blocks: Vec<Option<VamasBlock>>,
}

/// The line just past block `k`: the next block's start, or the end of the file.
pub open spec fn block_end(line_count: int, starts: Seq<usize>, k: int) -> int {
    if k + 1 < starts.len() {
        starts[k + 1] as int
    } else {
        line_count
    }
}

/// The blocks from the `k`-th on.
pub open spec fn spec_blocks(
    lines: Seq<Seq<char>>,
    nums: Seq<NumberText>,
    starts: Seq<usize>,
    nv: int,
    k: int,
) -> Result<Seq<Option<VamasBlock>>, VamasError>
    decreases starts.len() - k,
{
    if k < 0 || k >= starts.len() {
        Ok(Seq::empty())
    } else {
        match spec_block(lines, nums, starts[k] as int, block_end(lines.len() as int, starts, k), nv) {
            Err(e) => Err(e),
            Ok(b) => match spec_blocks(lines, nums, starts, nv, k + 1) {
                Err(e) => Err(e),
                Ok(rest) => Ok(seq![b] + rest),
            },
        }
    }
}

/// Some block is an XPS block.
pub open spec fn has_xps_block(blocks: Seq<Option<VamasBlock>>) -> bool {
    exists|i: int| 0 <= i < blocks.len() && blocks[i] is Some
}

fn any_xps_block(blocks: &Vec<Option<VamasBlock>>) -> (r: bool)
    ensures
        r == has_xps_block(blocks@),
{
    let mut j: usize = 0;
    while j < blocks.len()
        invariant
            j <= blocks@.len(),
            forall|i: int| 0 <= i < j ==> blocks@[i] is None,
        decreases blocks.len() - j,
    {
        if blocks[j].is_some() {
            return true;
        }
        j = j + 1;
    }
    false
}

/// A whole file: its header, the block boundaries, and every block, the
/// first problem in file order refusing the file; a file without an XPS
/// block is refused too.
pub open spec fn spec_vamas(lines: Seq<Seq<char>>, nums: Seq<NumberText>) -> Result<
    (VamasHeader, Seq<Option<VamasBlock>>),
    VamasError,
> {
    match spec_header(lines) {
        Err(e) => Err(e),
        Ok(h) => match spec_block_starts(lines, h) {
            Err(e) => Err(e),
            Ok(starts) => match spec_blocks(lines, nums, starts, h.variable_count as int, 0) {
                Err(e) => Err(e),
                Ok(blocks) => if has_xps_block(blocks) {
                    Ok((h, blocks))
                } else {
                    Err(VamasError::NoXpsRegion)
                },
            },
        },
    }
}

proof fn lemma_starts_increasing(lines: Seq<Seq<char>>, from: int, to: int)
    requires
        0 <= from,
        to <= usize::MAX,
    ensures
        forall|i: int, j: int|
            0 <= i < j < spec_starts_in(lines, from, to).len() ==> #[trigger] spec_starts_in(
                lines,
                from,
                to,
            )[i] < #[trigger] spec_starts_in(lines, from, to)[j],
    decreases to - from,
{
    if to > from {
        lemma_starts_increasing(lines, from, to - 1);
        lemma_starts_bounded(lines, from, to - 1);
        let prev = spec_starts_in(lines, from, to - 1);
        let cur = spec_starts_in(lines, from, to);
        if is_block_start(lines, to - 1) {
            assert(cur == prev.push((to - 1) as usize));
            assert forall|i: int, j: int| 0 <= i < j < cur.len() implies #[trigger] cur[i]
                < #[trigger] cur[j] by {
                assert(cur[i] == prev[i]);
                assert(prev[i] < to - 1);
                if j < prev.len() {
                    assert(cur[j] == prev[j]);
                    assert(prev[i] < prev[j]);
                }
            }
        } else {
            assert(cur == prev);
        }
    }
}

/// Read a VAMAS file. `nums` tells, for each line of `text`, how that line
/// reads as a real number.
pub fn parse_vamas(text: &str, nums: &Vec<NumberText>) -> (r: Result<VamasLayout, VamasError>)
    requires
        nums@.len() == spec_lines(text@).len(),
    ensures
        match spec_vamas(spec_lines(text@), nums@) {
            Ok((h, blocks)) => r matches Ok(l) && l.header == h && l.blocks@ == blocks,
            Err(e) => r == Err::<VamasLayout, VamasError>(e),
        },
{
    let lines = split_lines(text);
    proof {
        assert(views(lines@) =~= spec_lines(text@));
    }
    let header = match parse_header(&lines) {
        Err(e) => {
            return Err(e);
        },
        Ok(h) => h,
    };
    let starts = match block_starts(&lines, &header) {
        Err(e) => {
            return Err(e);
        },
        Ok(s) => s,
    };
    let ghost ls = views(lines@);
    proof {
        lemma_starts_increasing(ls, header.block_start as int, search_end(ls));
        lemma_starts_bounded(ls, header.block_start as int, search_end(ls));
    }
    let nv = header.variable_count;
    let mut blocks: Vec<Option<VamasBlock>> = Vec::new();
    let mut k: usize = 0;
    while k < starts.len()
        invariant
            ls == views(lines@),
            ls == spec_lines(text@),
            spec_header(ls) == Ok::<VamasHeader, VamasError>(header),
            spec_block_starts(ls, header) == Ok::<Seq<usize>, VamasError>(starts@),
            nv == header.variable_count,
            nums@.len() == lines@.len(),
            k <= starts@.len(),
            starts@ == spec_starts_in(ls, header.block_start as int, search_end(ls)),
            forall|i: int, j: int|
                0 <= i < j < starts@.len() ==> #[trigger] starts@[i] < #[trigger] starts@[j],
            forall|i: int| 0 <= i < starts@.len() ==> #[trigger] starts@[i] < search_end(ls),
            search_end(ls) <= ls.len(),
            spec_blocks(ls, nums@, starts@, nv as int, 0) == match spec_blocks(
                ls,
                nums@,
                starts@,
                nv as int,
                k as int,
            ) {
                Ok(rest) => Ok(blocks@ + rest),
                Err(e) => Err(e),
            },
        decreases starts.len() - k,
    {
        let end = if k + 1 < starts.len() {
            starts[k + 1]
        } else {
            lines.len()
        };
        proof {
            if k + 1 < starts@.len() {
                assert(starts@[k as int] < starts@[k + 1]);
            }
        }
        let b = match parse_block(&lines, nums, starts[k], end, nv) {
            Err(e) => {
                assert(spec_blocks(ls, nums@, starts@, nv as int, k as int) == Err::<
                    Seq<Option<VamasBlock>>,
                    VamasError,
                >(e));
                return Err(e);
            },
            Ok(b) => b,
        };
        let ghost before = blocks@;
        blocks.push(b);
        proof {
            match spec_blocks(ls, nums@, starts@, nv as int, k + 1) {
                Ok(rest) => {
                    assert(before + (seq![b] + rest) =~= blocks@ + rest);
                },
                Err(e) => {},
            }
        }
        k = k + 1;
    }
    proof {
        assert(blocks@ + Seq::<Option<VamasBlock>>::empty() =~= blocks@);
    }
    if any_xps_block(&blocks) {
        Ok(VamasLayout { header, blocks })
    } else {
        Err(VamasError::NoXpsRegion)
    }
}

/// ASCII letters and digits.
pub open spec fn is_alnum(c: char) -> bool {
    ('a' <= c && c <= 'z') || ('A' <= c && c <= 'Z') || ('0' <= c && c <= '9')
}

/// A variable label in lower case with everything but ASCII letters and
/// digits removed.
pub open spec fn normalized_label(s: Seq<char>) -> Seq<char>
    decreases s.len(),
{
    if s.len() == 0 {
        s
    } else if is_alnum(lowercase(s).last()) {
        normalized_label(s.drop_last()).push(lowercase(s).last())
    } else {
        normalized_label(s.drop_last())
    }
}

/// The label names the position along `axis`: `position<axis>...` or
/// `<axis>position...`.
pub open spec fn names_axis(label: Seq<char>, axis: char) -> bool {
    let n = normalized_label(label);
    starts_with(n, "position"@.push(axis)) || starts_with(n, seq![axis] + "position"@)
}

/// The first experimental variable whose label names the position along `axis`.
pub open spec fn axis_variable(lines: Seq<Seq<char>>, header: VamasHeader, axis: char, from: int) -> Option<int>
    decreases header.variable_count - from,
{
    if from < 0 || from >= header.variable_count {
        None
    } else if names_axis(field_text(lines, header.variables_start + 2 * from), axis) {
        Some(from)
    } else {
        axis_variable(lines, header, axis, from + 1)
    }
}

fn normalize_label(s: &Vec<char>) -> (r: Vec<char>)
    ensures
        r@ == normalized_label(s@),
{
    let lower = to_ascii_lowercase(s);
    let mut out: Vec<char> = Vec::new();
    let mut i: usize = 0;
    while i < lower.len()
        invariant
            lower@ == lowercase(s@),
            i <= lower@.len(),
            out@ == normalized_label(s@.subrange(0, i as int)),
        decreases lower.len() - i,
    {
        let ghost prefix = s@.subrange(0, i as int + 1);
        assert(prefix.drop_last() =~= s@.subrange(0, i as int));
        assert(lowercase(prefix).last() == lower@[i as int]);
        let c = lower[i];
        if ('a' <= c && c <= 'z') || ('A' <= c && c <= 'Z') || ('0' <= c && c <= '9') {
            out.push(c);
        }
        i = i + 1;
    }
    assert(s@.subrange(0, s@.len() as int) =~= s@);
    out
}

fn find_axis(lines: &Vec<Vec<char>>, header: &VamasHeader, axis: char) -> (r: Option<usize>)
    requires
        header.variables_start + 2 * header.variable_count <= lines@.len(),
    ensures
        match axis_variable(views(lines@), *header, axis, 0) {
            Some(k) => r == Some(k as usize),
            None => r is None,
        },
{
    let mut lead = literal("position");
    lead.push(axis);
    let mut trail: Vec<char> = Vec::new();
    trail.push(axis);
    let word = literal("position");
    let mut j: usize = 0;
    while j < word.len()
        invariant
            j <= word@.len(),
            trail@ == seq![axis] + word@.subrange(0, j as int),
        decreases word.len() - j,
    {
        trail.push(word[j]);
        assert(trail@ =~= seq![axis] + word@.subrange(0, j as int + 1));
        j = j + 1;
    }
    assert(word@.subrange(0, word@.len() as int) =~= word@);
    let n = lines.len();
    let mut i: usize = 0;
    while i < header.variable_count
        invariant
            n == lines@.len(),
            header.variables_start + 2 * header.variable_count <= n,
            i <= header.variable_count,
            lead@ == "position"@.push(axis),
            trail@ == seq![axis] + "position"@,
            axis_variable(views(lines@), *header, axis, 0) == axis_variable(
                views(lines@),
                *header,
                axis,
                i as int,
            ),
        decreases header.variable_count - i,
    {
        let label = line_text(lines, header.variables_start + 2 * i);
        let normalized = normalize_label(&label);
        if has_prefix(&normalized, &lead) || has_prefix(&normalized, &trail) {
            return Some(i);
        }
        i = i + 1;
    }
    None
}

/// The experimental variables that hold the sample position: the first
/// whose label names x, y and z in turn; `None` unless all three are named.
pub fn position_variables(lines: &Vec<Vec<char>>, header: &VamasHeader) -> (r: Option<(usize, usize, usize)>)
    requires
        header.variables_start + 2 * header.variable_count <= lines@.len(),
    ensures
        match (
            axis_variable(views(lines@), *header, 'x', 0),
            axis_variable(views(lines@), *header, 'y', 0),
            axis_variable(views(lines@), *header, 'z', 0),
        ) {
            (Some(x), Some(y), Some(z)) => r == Some((x as usize, y as usize, z as usize)),
            _ => r is None,
        },
{
    let x = find_axis(lines, header, 'x');
    let y = find_axis(lines, header, 'y');
    let z = find_axis(lines, header, 'z');
    match (x, y, z) {
        (Some(x), Some(y), Some(z)) => Some((x, y, z)),
        _ => None,
    }
}

/// The number after `prefix` in the first comment that begins with it.
pub fn comment_usize(lines: &Vec<Vec<char>>, start: usize, count: usize, prefix: &Vec<char>) -> (r: Option<usize>)
    requires
        start + count <= lines@.len(),
    ensures
        match spec_comment(views(lines@), start as int, count as int, prefix@) {
            Some(t) => match parse_unsigned(t, usize::MAX as int) {
                Some(v) => r == Some(v as usize),
                None => r is None,
            },
            None => r is None,
        },
{
    match comment(lines, start, count, prefix) {
        Some(t) => parse_usize(&t),
        None => None,
    }
}

/// The metadata the comments give: for each `(key, prefix)` field in order,
/// the key with the text after the first comment beginning with `prefix`.
pub open spec fn spec_comment_metadata(
    lines: Seq<Seq<char>>,
    start: int,
    count: int,
    fields: Seq<(Seq<char>, Seq<char>)>,
) -> Seq<(Seq<char>, Seq<char>)>
    decreases fields.len(),
{
    if fields.len() == 0 {
        Seq::empty()
    } else {
        let rest = spec_comment_metadata(lines, start, count, fields.drop_last());
        match spec_comment(lines, start, count, fields.last().1) {
            Some(value) => rest.push((fields.last().0, value)),
            None => rest,
        }
    }
}

/// The metadata the comments give for each `(key, prefix)` field.
pub fn metadata_from_comments(
    lines: &Vec<Vec<char>>,
    start: usize,
    count: usize,
    fields: &Vec<(Vec<char>, Vec<char>)>,
) -> (r: Vec<(Vec<char>, Vec<char>)>)
    requires
        start + count <= lines@.len(),
    ensures
        r@.map_values(|e: (Vec<char>, Vec<char>)| (e.0@, e.1@)) == spec_comment_metadata(
            views(lines@),
            start as int,
            count as int,
            fields@.map_values(|f: (Vec<char>, Vec<char>)| (f.0@, f.1@)),
        ),
{
    let ghost wanted = fields@.map_values(|f: (Vec<char>, Vec<char>)| (f.0@, f.1@));
    let mut out: Vec<(Vec<char>, Vec<char>)> = Vec::new();
    let mut i: usize = 0;
    while i < fields.len()
        invariant
            start + count <= lines@.len(),
            wanted == fields@.map_values(|f: (Vec<char>, Vec<char>)| (f.0@, f.1@)),
            i <= fields@.len(),
            out@.map_values(|e: (Vec<char>, Vec<char>)| (e.0@, e.1@)) == spec_comment_metadata(
                views(lines@),
                start as int,
                count as int,
                wanted.subrange(0, i as int),
            ),
        decreases fields.len() - i,
    {
        let ghost prefix_fields = wanted.subrange(0, i as int + 1);
        assert(prefix_fields.drop_last() =~= wanted.subrange(0, i as int));
        assert(prefix_fields.last() == (fields@[i as int].0@, fields@[i as int].1@));
        let key = &fields[i].0;
        match comment(lines, start, count, &fields[i].1) {
            Some(value) => {
                let ghost before = out@;
                let k = copy_chars(key);
                out.push((k, value));
                assert(out@.map_values(|e: (Vec<char>, Vec<char>)| (e.0@, e.1@)) =~= before.map_values(
                    |e: (Vec<char>, Vec<char>)| (e.0@, e.1@),
                ).push((prefix_fields.last().0, value@)));
            },
            None => {},
        }
        i = i + 1;
    }
    assert(wanted.subrange(0, fields@.len() as int) =~= wanted);
    out
}

fn copy_chars(s: &Vec<char>) -> (r: Vec<char>)
    ensures
        r@ == s@,
{
    let mut out: Vec<char> = Vec::new();
    let mut i: usize = 0;
    while i < s.len()
        invariant
            i <= s@.len(),
            out@ == s@.subrange(0, i as int),
        decreases s.len() - i,
    {
        out.push(s[i]);
        assert(out@ =~= s@.subrange(0, i as int + 1));
        i = i + 1;
    }
    assert(s@.subrange(0, s@.len() as int) =~= s@);
    out
}


/// Whether line `p` reads as a whole number from `lo` to `hi`.
pub open spec fn reads_between(lines: Seq<Seq<char>>, p: int, lo: int, hi: int) -> bool {
    exists|v: int| lo <= v <= hi && parse_unsigned(trimmed(lines[p]), 65535) == Some(v)
}

/// Whether the six date and time lines after line `i + 1` hold a calendar
/// date: year 1900 to 2200, month 1 to 12, day 1 to 31, hour 0 to 23, minute
/// 0 to 59, second 0 to 60.
pub open spec fn dated(lines: Seq<Seq<char>>, i: int) -> bool {
    &&& reads_between(lines, i + 2, 1900, 2200)
    &&& reads_between(lines, i + 3, 1, 12)
    &&& reads_between(lines, i + 4, 1, 31)
    &&& reads_between(lines, i + 5, 0, 23)
    &&& reads_between(lines, i + 6, 0, 59)
    &&& reads_between(lines, i + 7, 0, 60)
}

proof fn lemma_block_start_is_dated(lines: Seq<Seq<char>>, i: int)
    ensures
        is_block_start(lines, i) == dated(lines, i),
{
    assert forall|p: int, lo: int, hi: int| #[trigger] number_between(lines, p, lo, hi) == reads_between(lines, p, lo, hi) by {
        match parse_unsigned(trimmed(lines[p]), 65535) {
            Some(v) => {
                if lo <= v <= hi {
                    assert(reads_between(lines, p, lo, hi));
                }
            },
            None => {},
        }
    }
}

/// The block starts found among lines `from .. to` are exactly the dated
/// lines there, in increasing order.
pub proof fn lemma_block_starts_are_the_dated_lines(lines: Seq<Seq<char>>, from: int, to: int)
    requires
        0 <= from,
        to <= usize::MAX,
    ensures
        forall|k: usize| #[trigger] spec_starts_in(lines, from, to).contains(k) <==> (from <= k < to
            && dated(lines, k as int)),
        forall|a: int, b: int|
            0 <= a < b < spec_starts_in(lines, from, to).len() ==> spec_starts_in(lines, from, to)[a]
                < spec_starts_in(lines, from, to)[b],
    decreases to - from,
{
    if to > from {
        lemma_block_starts_are_the_dated_lines(lines, from, to - 1);
        lemma_block_start_is_dated(lines, to - 1);
        let prev = spec_starts_in(lines, from, to - 1);
        let cur = spec_starts_in(lines, from, to);
        assert forall|k: usize| #[trigger] cur.contains(k) <==> (from <= k < to && dated(lines, k as int)) by {
            if is_block_start(lines, to - 1) {
                assert(cur == prev.push((to - 1) as usize));
                if cur.contains(k) {
                    let a = choose|a: int| 0 <= a < cur.len() && cur[a] == k;
                    if a < prev.len() {
                        assert(prev[a] == cur[a]);
                        assert(prev.contains(k));
                    }
                }
                if from <= k < to && dated(lines, k as int) && k < to - 1 {
                    assert(prev.contains(k));
                    let a = choose|a: int| 0 <= a < prev.len() && prev[a] == k;
                    assert(cur[a] == k);
                }
                if k == to - 1 {
                    assert(cur[prev.len() as int] == k);
                }
            } else {
                assert(cur == prev);
                if k == to - 1 && prev.contains(k) {
                    assert(!(from <= k < to - 1 && dated(lines, k as int)));
                }
            }
        }
        if is_block_start(lines, to - 1) {
            assert forall|a: int, b: int| 0 <= a < b < cur.len() implies cur[a] < cur[b] by {
                if b == prev.len() {
                    assert(prev.contains(prev[a]));
                    assert(cur[a] == prev[a]);
                } else {
                    assert(cur[a] == prev[a] && cur[b] == prev[b]);
                }
            }
        }
    } else {
        assert forall|k: usize| !(#[trigger] spec_starts_in(lines, from, to).contains(k)) by {}
    }
}

/// A block's intensity is read as raw counts exactly when its first ordinate
/// descriptor (label line, a space and unit line, trimmed and lowercased)
/// carries no count-rate marker (cps, c/s, count/s, counts/s, s-1) and its
/// signal mode speaks of pulse counting: an ordinate labelled as a count
/// rate is never counted, whatever the signal mode says. `q` is the block's
/// source-label line and `r` its signal-mode line.
pub proof fn lemma_rate_ordinates_are_never_counted(
    lines: Seq<Seq<char>>,
    nums: Seq<NumberText>,
    s: int,
    c: int,
    q: int,
    m: int,
    r: int,
    pc: int,
)
    ensures
        spec_block_meaning(lines, nums, s, c, q, m, r, pc) matches Ok((_, counted)) ==> {
            let descriptor = lowercase(trimmed(lines[q + ORDINATES]) + seq![' '] + trimmed(
                lines[q + ORDINATES + 1],
            ));
            &&& (has_rate_marker(descriptor) ==> !counted)
            &&& counted == (!has_rate_marker(descriptor) && contains_seq(
                lowercase(trimmed(lines[r])),
                "pulse"@,
            ))
        },
{
}


/// The blocks a header is checked against are exactly the dated lines from
/// the header's end to nine lines before the end of the file.
pub proof fn lemma_checked_block_starts_are_dated(lines: Seq<Seq<char>>, header: VamasHeader)
    requires
        lines.len() <= usize::MAX,
    ensures
        spec_block_starts(lines, header) matches Ok(starts) ==> forall|k: usize| #[trigger] starts.contains(k)
            <==> (header.block_start <= k < search_end(lines) && dated(lines, k as int)),
{
    if search_end(lines) <= usize::MAX {
        lemma_block_starts_are_the_dated_lines(lines, header.block_start as int, search_end(lines));
    }
}

} // verus!
