//! What a VAMAS import reports: the message of a refused file, the warnings
//! for skipped blocks, and how the XPS blocks become regions grouped by
//! measurement position.
use crate::text::{crlf, decimal, decimal_text, lemma_crlf_keeps_lines, literal, spec_lines, string_from_chars, trim, trimmed};
use crate::vamas::{spec_vamas, views, NumberText, VamasError, VamasField, VamasHeader};
use vstd::prelude::*;

verus! {

/// The text `str`'s `Debug` formatting gives for `s`: the text in double
/// quotes, with escapes.
pub uninterp spec fn debug_string(s: Seq<char>) -> Seq<char>;

/// Calls `<str as Debug>::fmt` through `format!("{:?}")` on the text of `s`.
/// The contract claims only that the result is that formatting of `s`
/// (named by `debug_string`, not stated).
#[verifier::external_body]
fn debug_quoted(s: &Vec<char>) -> (r: Vec<char>)
    ensures
        r@ == debug_string(s@),
{
    let text: String = s.iter().collect();
    format!("{:?}", text.as_str()).chars().collect()
}

/// The trimmed text of line `i`, or nothing past the last line.
pub open spec fn line_at(lines: Seq<Seq<char>>, i: int) -> Seq<char> {
    if 0 <= i < lines.len() {
        trimmed(lines[i])
    } else {
        Seq::empty()
    }
}

fn line_at_exec(lines: &Vec<Vec<char>>, i: usize) -> (r: Vec<char>)
    ensures
        r@ == line_at(views(lines@), i as int),
{
    if i < lines.len() {
        trim(&lines[i])
    } else {
        Vec::new()
    }
}

impl VamasField {
    /// How an error names the field. An experimental variable is named by
    /// its label in the header (nothing without a header).
    pub open spec fn spec_label(self, lines: Seq<Seq<char>>, header: Option<VamasHeader>) -> Seq<char> {
        match self {
            VamasField::HeaderIdentity => "header identity"@,
            VamasField::HeaderCommentCount => "header comment count"@,
            VamasField::HeaderComment => "header comment"@,
            VamasField::ExperimentMode => "experiment mode"@,
            VamasField::ScanMode => "scan mode"@,
            VamasField::RegionCount => "spectral region count"@,
            VamasField::VariableCount => "experimental variable count"@,
            VamasField::VariableLabel => "experimental variable label"@,
            VamasField::VariableUnit => "experimental variable unit"@,
            VamasField::InclusionCount => "block inclusion count"@,
            VamasField::IncludedBlock => "included block"@,
            VamasField::ExclusionCount => "block exclusion count"@,
            VamasField::ExcludedBlock => "excluded block"@,
            VamasField::FutureExperimentCount => "future experiment entry count"@,
            VamasField::FutureExperimentEntry => "future experiment entry"@,
            VamasField::FutureBlockCount => "future block entry count"@,
            VamasField::BlockCount => "block count"@,
            VamasField::SampleIdentifier => "sample identifier"@,
            VamasField::DateAndTime => "date and time"@,
            VamasField::GmtOffset => "GMT offset"@,
            VamasField::BlockCommentCount => "block comment count"@,
            VamasField::BlockComment => "block comment"@,
            VamasField::Technique => "technique"@,
            VamasField::Variable(index) => match header {
                Some(h) => line_at(lines, h.variables_start + 2 * index),
                None => Seq::empty(),
            },
            VamasField::SourceLabel => "analysis source label"@,
            VamasField::SourceEnergy => "analysis source energy"@,
            VamasField::SourceStrength => "analysis source strength"@,
            VamasField::SourceGeometry => "analysis source geometry"@,
            VamasField::AnalyserMode => "analyser mode"@,
            VamasField::PassEnergy => "pass energy"@,
            VamasField::Magnification => "analyser magnification"@,
            VamasField::WorkFunction => "work function"@,
            VamasField::AnalyserGeometry => "analyser geometry"@,
            VamasField::SpeciesLabel => "species label"@,
            VamasField::TransitionLabel => "transition label"@,
            VamasField::SpeciesCharge => "species charge"@,
            VamasField::AbscissaLabel => "abscissa label"@,
            VamasField::AbscissaUnit => "abscissa unit"@,
            VamasField::AbscissaStart => "abscissa start"@,
            VamasField::AbscissaIncrement => "abscissa increment"@,
            VamasField::OrdinateCount => "ordinate variable count"@,
            VamasField::OrdinateLabel => "ordinate label"@,
            VamasField::OrdinateUnit => "ordinate unit"@,
            VamasField::SignalMode => "signal mode"@,
            VamasField::DwellTime => "dwell time"@,
            VamasField::ScanCount => "scan count"@,
            VamasField::SampleTiming => "sample timing and orientation"@,
            VamasField::AdditionalCount => "additional parameter count"@,
            VamasField::AdditionalParameter => "additional parameter"@,
            VamasField::OrdinateValueCount => "ordinate value count"@,
            VamasField::OrdinateExtrema => "ordinate extrema"@,
            VamasField::OrdinateValue => "ordinate value"@,
        }
    }

    /// How an error names the field (see `spec_label`).
    pub fn label(self, lines: &Vec<Vec<char>>, header: Option<VamasHeader>) -> (r: Vec<char>)
        ensures
            r@ == self.spec_label(views(lines@), header),
    {
        match self {
            VamasField::HeaderIdentity => literal("header identity"),
            VamasField::HeaderCommentCount => literal("header comment count"),
            VamasField::HeaderComment => literal("header comment"),
            VamasField::ExperimentMode => literal("experiment mode"),
            VamasField::ScanMode => literal("scan mode"),
            VamasField::RegionCount => literal("spectral region count"),
            VamasField::VariableCount => literal("experimental variable count"),
            VamasField::VariableLabel => literal("experimental variable label"),
            VamasField::VariableUnit => literal("experimental variable unit"),
            VamasField::InclusionCount => literal("block inclusion count"),
            VamasField::IncludedBlock => literal("included block"),
            VamasField::ExclusionCount => literal("block exclusion count"),
            VamasField::ExcludedBlock => literal("excluded block"),
            VamasField::FutureExperimentCount => literal("future experiment entry count"),
            VamasField::FutureExperimentEntry => literal("future experiment entry"),
            VamasField::FutureBlockCount => literal("future block entry count"),
            VamasField::BlockCount => literal("block count"),
            VamasField::SampleIdentifier => literal("sample identifier"),
            VamasField::DateAndTime => literal("date and time"),
            VamasField::GmtOffset => literal("GMT offset"),
            VamasField::BlockCommentCount => literal("block comment count"),
            VamasField::BlockComment => literal("block comment"),
            VamasField::Technique => literal("technique"),
            VamasField::Variable(index) => match header {
                Some(h) => {
                    let at: u128 = h.variables_start as u128 + 2 * (index as u128);
                    if at < lines.len() as u128 {
                        line_at_exec(lines, at as usize)
                    } else {
                        Vec::new()
                    }
                },
                None => Vec::new(),
            },
            VamasField::SourceLabel => literal("analysis source label"),
            VamasField::SourceEnergy => literal("analysis source energy"),
            VamasField::SourceStrength => literal("analysis source strength"),
            VamasField::SourceGeometry => literal("analysis source geometry"),
            VamasField::AnalyserMode => literal("analyser mode"),
            VamasField::PassEnergy => literal("pass energy"),
            VamasField::Magnification => literal("analyser magnification"),
            VamasField::WorkFunction => literal("work function"),
            VamasField::AnalyserGeometry => literal("analyser geometry"),
            VamasField::SpeciesLabel => literal("species label"),
            VamasField::TransitionLabel => literal("transition label"),
            VamasField::SpeciesCharge => literal("species charge"),
            VamasField::AbscissaLabel => literal("abscissa label"),
            VamasField::AbscissaUnit => literal("abscissa unit"),
            VamasField::AbscissaStart => literal("abscissa start"),
            VamasField::AbscissaIncrement => literal("abscissa increment"),
            VamasField::OrdinateCount => literal("ordinate variable count"),
            VamasField::OrdinateLabel => literal("ordinate label"),
            VamasField::OrdinateUnit => literal("ordinate unit"),
            VamasField::SignalMode => literal("signal mode"),
            VamasField::DwellTime => literal("dwell time"),
            VamasField::ScanCount => literal("scan count"),
            VamasField::SampleTiming => literal("sample timing and orientation"),
            VamasField::AdditionalCount => literal("additional parameter count"),
            VamasField::AdditionalParameter => literal("additional parameter"),
            VamasField::OrdinateValueCount => literal("ordinate value count"),
            VamasField::OrdinateExtrema => literal("ordinate extrema"),
            VamasField::OrdinateValue => literal("ordinate value"),
        }
    }
}

/// "VAMAS block ", the quoted block, then `rest`.
pub open spec fn about_block(block: Seq<char>, rest: Seq<char>) -> Seq<char> {
    "VAMAS block "@ + block + rest
}

/// The block row of an unparsed field: its line counted from the block's
/// name line, which is row 1.
pub open spec fn block_row(block: usize, line: usize) -> nat {
    (line - block + 1) as nat
}

impl VamasError {
    /// The message of the error, given the label of the field it names,
    /// the quoted name of the block it names (`"header"` for the header) and
    /// the quoted line it names.
    pub open spec fn spec_text(self, field: Seq<char>, block: Seq<char>, line: Seq<char>) -> Seq<char> {
        match self {
            VamasError::NotVamas => "not an ISO 14976 VAMAS file"@,
            VamasError::UnsupportedMode => "only NORM/REGULAR VAMAS experiments are supported"@,
            VamasError::FutureBlockEntries => "VAMAS future block entries are not supported"@,
            VamasError::NoBlocks => "VAMAS file contains no blocks"@,
            VamasError::BlockCountMismatch { declared, found } => "VAMAS declares "@ + decimal_text(
                declared as nat,
            ) + " blocks but "@ + decimal_text(found as nat)
                + " trusted block boundaries were found"@,
            VamasError::Truncated { .. } => about_block(block, " is truncated before "@ + field),
            VamasError::InvalidNumber { .. } => about_block(block, " has an invalid "@ + field),
            VamasError::NonFiniteNumber { .. } => about_block(block, " has a non-finite "@ + field),
            VamasError::UnsupportedUnit { .. } => about_block(
                block,
                " uses unsupported energy unit "@ + line,
            ),
            VamasError::ZeroIncrement { .. } => about_block(block, " has a zero energy increment"@),
            VamasError::NoOrdinates { .. } => about_block(block, " has no ordinate variables"@),
            VamasError::AdditionalOverflow { .. } => "VAMAS additional parameter overflow"@,
            VamasError::NotDivisible { .. } => about_block(
                block,
                " ordinate count is not divisible by its variables"@,
            ),
            VamasError::UnparsedField { block: b, line: l } => about_block(
                block,
                " contains an unparsed field "@ + line + " at block row "@ + decimal_text(
                    block_row(b, l),
                ),
            ),
            VamasError::TooFewPoints { .. } => about_block(block, " contains fewer than two points"@),
            VamasError::StepsMismatch { .. } => about_block(
                block,
                " point count disagrees with Number Steps"@,
            ),
            VamasError::UnsupportedAbscissa { .. } => about_block(
                block,
                " has unsupported abscissa "@ + line,
            ),
            VamasError::UnknownIntensity { .. } => about_block(
                block,
                " does not identify its intensity as counts or a count rate"@,
            ),
            VamasError::MissingCpsScale { .. } => about_block(
                block,
                " lacks dwell time or scan count for CPS conversion"@,
            ),
            VamasError::NoXpsRegion => "VAMAS file contains no readable XPS region"@,
        }
    }

    /// The label of the field the error names (nothing when it names none).
    pub open spec fn spec_field(self, lines: Seq<Seq<char>>, header: Option<VamasHeader>) -> Seq<char> {
        match self {
            VamasError::Truncated { field, .. } => field.spec_label(lines, header),
            VamasError::InvalidNumber { field, .. } => field.spec_label(lines, header),
            VamasError::NonFiniteNumber { field, .. } => field.spec_label(lines, header),
            _ => Seq::empty(),
        }
    }

    /// The text of the block the error names: the trimmed name line of a
    /// block, `header` for the header (nothing when it names none).
    pub open spec fn spec_block(self, lines: Seq<Seq<char>>) -> Seq<char> {
        match self {
            VamasError::Truncated { block, .. } => match block {
                Some(b) => line_at(lines, b as int),
                None => "header"@,
            },
            VamasError::InvalidNumber { block, .. } => match block {
                Some(b) => line_at(lines, b as int),
                None => "header"@,
            },
            VamasError::NonFiniteNumber { block, .. } => match block {
                Some(b) => line_at(lines, b as int),
                None => "header"@,
            },
            VamasError::UnsupportedUnit { block, .. } => line_at(lines, block as int),
            VamasError::ZeroIncrement { block } => line_at(lines, block as int),
            VamasError::NoOrdinates { block } => line_at(lines, block as int),
            VamasError::NotDivisible { block } => line_at(lines, block as int),
            VamasError::UnparsedField { block, .. } => line_at(lines, block as int),
            VamasError::TooFewPoints { block } => line_at(lines, block as int),
            VamasError::StepsMismatch { block } => line_at(lines, block as int),
            VamasError::UnsupportedAbscissa { block, .. } => line_at(lines, block as int),
            VamasError::UnknownIntensity { block } => line_at(lines, block as int),
            VamasError::MissingCpsScale { block } => line_at(lines, block as int),
            _ => Seq::empty(),
        }
    }

    /// The trimmed text of the line the error names (nothing when it names
    /// none).
    pub open spec fn spec_line(self, lines: Seq<Seq<char>>) -> Seq<char> {
        match self {
            VamasError::UnsupportedUnit { line, .. } => line_at(lines, line as int),
            VamasError::UnparsedField { line, .. } => line_at(lines, line as int),
            VamasError::UnsupportedAbscissa { line, .. } => line_at(lines, line as int),
            _ => Seq::empty(),
        }
    }

    /// Whether the error's block row can be counted: an unparsed field lies
    /// at or after its block's name line.
    pub open spec fn row_countable(self) -> bool {
        match self {
            VamasError::UnparsedField { block, line } => block <= line && line - block < u64::MAX,
            _ => true,
        }
    }

    /// The message of the error from the field label and the quoted block
    /// and line (see `spec_text`).
    pub fn describe(&self, field: &Vec<char>, block: &Vec<char>, line: &Vec<char>) -> (m: String)
        requires
            self.row_countable(),
        ensures
            m@ == self.spec_text(field@, block@, line@),
    {
        let mut out: Vec<char> = Vec::new();
        match *self {
            VamasError::NotVamas => append(&mut out, &literal("not an ISO 14976 VAMAS file")),
            VamasError::UnsupportedMode => append(
                &mut out,
                &literal("only NORM/REGULAR VAMAS experiments are supported"),
            ),
            VamasError::FutureBlockEntries => append(
                &mut out,
                &literal("VAMAS future block entries are not supported"),
            ),
            VamasError::NoBlocks => append(&mut out, &literal("VAMAS file contains no blocks")),
            VamasError::BlockCountMismatch { declared, found } => {
                append(&mut out, &literal("VAMAS declares "));
                append(&mut out, &decimal(declared as u64));
                append(&mut out, &literal(" blocks but "));
                append(&mut out, &decimal(found as u64));
                append(&mut out, &literal(" trusted block boundaries were found"));
            },
            VamasError::Truncated { .. } => {
                append_block(&mut out, block);
                append(&mut out, &literal(" is truncated before "));
                append(&mut out, field);
            },
            VamasError::InvalidNumber { .. } => {
                append_block(&mut out, block);
                append(&mut out, &literal(" has an invalid "));
                append(&mut out, field);
            },
            VamasError::NonFiniteNumber { .. } => {
                append_block(&mut out, block);
                append(&mut out, &literal(" has a non-finite "));
                append(&mut out, field);
            },
            VamasError::UnsupportedUnit { .. } => {
                append_block(&mut out, block);
                append(&mut out, &literal(" uses unsupported energy unit "));
                append(&mut out, line);
            },
            VamasError::ZeroIncrement { .. } => {
                append_block(&mut out, block);
                append(&mut out, &literal(" has a zero energy increment"));
            },
            VamasError::NoOrdinates { .. } => {
                append_block(&mut out, block);
                append(&mut out, &literal(" has no ordinate variables"));
            },
            VamasError::AdditionalOverflow { .. } => append(
                &mut out,
                &literal("VAMAS additional parameter overflow"),
            ),
            VamasError::NotDivisible { .. } => {
                append_block(&mut out, block);
                append(&mut out, &literal(" ordinate count is not divisible by its variables"));
            },
            VamasError::UnparsedField { block: b, line: l } => {
                append_block(&mut out, block);
                append(&mut out, &literal(" contains an unparsed field "));
                append(&mut out, line);
                append(&mut out, &literal(" at block row "));
                let row: u64 = (l - b) as u64 + 1;
                append(&mut out, &decimal(row));
            },
            VamasError::TooFewPoints { .. } => {
                append_block(&mut out, block);
                append(&mut out, &literal(" contains fewer than two points"));
            },
            VamasError::StepsMismatch { .. } => {
                append_block(&mut out, block);
                append(&mut out, &literal(" point count disagrees with Number Steps"));
            },
            VamasError::UnsupportedAbscissa { .. } => {
                append_block(&mut out, block);
                append(&mut out, &literal(" has unsupported abscissa "));
                append(&mut out, line);
            },
            VamasError::UnknownIntensity { .. } => {
                append_block(&mut out, block);
                append(
                    &mut out,
                    &literal(" does not identify its intensity as counts or a count rate"),
                );
            },
            VamasError::MissingCpsScale { .. } => {
                append_block(&mut out, block);
                append(&mut out, &literal(" lacks dwell time or scan count for CPS conversion"));
            },
            VamasError::NoXpsRegion => append(
                &mut out,
                &literal("VAMAS file contains no readable XPS region"),
            ),
        }
        assert(out@ =~= self.spec_text(field@, block@, line@));
        string_from_chars(&out)
    }

    /// The message a refused file is reported with: the field named by its
    /// label, the block by its quoted name (`"header"` for the header) and
    /// the line by its quoted text, each quoted as `Debug` quotes a string.
    pub fn message(&self, lines: &Vec<Vec<char>>, header: Option<VamasHeader>) -> (m: String)
        requires
            self.row_countable(),
        ensures
            m@ == self.spec_text(
                self.spec_field(views(lines@), header),
                debug_string(self.spec_block(views(lines@))),
                debug_string(self.spec_line(views(lines@))),
            ),
    {
        let field = match *self {
            VamasError::Truncated { field, .. } => field.label(lines, header),
            VamasError::InvalidNumber { field, .. } => field.label(lines, header),
            VamasError::NonFiniteNumber { field, .. } => field.label(lines, header),
            _ => Vec::new(),
        };
        let block_text = match *self {
            VamasError::Truncated { block, .. } | VamasError::InvalidNumber { block, .. }
            | VamasError::NonFiniteNumber { block, .. } => match block {
                Some(b) => line_at_exec(lines, b),
                None => literal("header"),
            },
            VamasError::UnsupportedUnit { block, .. } | VamasError::ZeroIncrement { block }
            | VamasError::NoOrdinates { block } | VamasError::NotDivisible { block }
            | VamasError::UnparsedField { block, .. } | VamasError::TooFewPoints { block }
            | VamasError::StepsMismatch { block } | VamasError::UnsupportedAbscissa { block, .. }
            | VamasError::UnknownIntensity { block } | VamasError::MissingCpsScale { block } =>
                line_at_exec(lines, block),
            _ => Vec::new(),
        };
        let line_text = match *self {
            VamasError::UnsupportedUnit { line, .. } | VamasError::UnparsedField { line, .. }
            | VamasError::UnsupportedAbscissa { line, .. } => line_at_exec(lines, line),
            _ => Vec::new(),
        };
        let quoted_block = debug_quoted(&block_text);
        let quoted_line = debug_quoted(&line_text);
        self.describe(&field, &quoted_block, &quoted_line)
    }
}

fn append(out: &mut Vec<char>, s: &Vec<char>)
    ensures
        final(out)@ == old(out)@ + s@,
{
    let ghost start = out@;
    let mut i: usize = 0;
    while i < s.len()
        invariant
            i <= s@.len(),
            out@ == start + s@.subrange(0, i as int),
        decreases s.len() - i,
    {
        out.push(s[i]);
        assert(out@ =~= start + s@.subrange(0, i as int + 1));
        i = i + 1;
    }
    assert(s@.subrange(0, s@.len() as int) =~= s@);
}

fn append_block(out: &mut Vec<char>, block: &Vec<char>)
    ensures
        final(out)@ == old(out)@ + "VAMAS block "@ + block@,
{
    append(out, &literal("VAMAS block "));
    append(out, block);
}

/// Line endings do not change an import: a text and its CRLF form have the
/// same lines, so the parser reads them alike, both with the same number
/// readings and with the readings any rule `classify` gives each line.
pub proof fn lemma_crlf_reads_alike(
    text: Seq<char>,
    nums: Seq<NumberText>,
    classify: spec_fn(Seq<char>) -> NumberText,
)
    ensures
        spec_lines(crlf(text)) == spec_lines(text),
        spec_vamas(spec_lines(crlf(text)), nums) == spec_vamas(spec_lines(text), nums),
        spec_vamas(spec_lines(crlf(text)), spec_lines(crlf(text)).map_values(classify)) == spec_vamas(
            spec_lines(text),
            spec_lines(text).map_values(classify),
        ),
{
    lemma_crlf_keeps_lines(text);
}

/// The warning for block `index` (counted from zero) when it is not XPS
/// data.
pub open spec fn skipped_warning(index: int) -> Seq<char> {
    "Skipped non-XPS VAMAS block "@ + decimal_text((index + 1) as nat)
}

/// One XPS region of an import: the block it is read from, its identity,
/// and the identity of its measurement position.
#[derive(Clone, Copy, Debug, PartialEq, Eq, Structural)]
pub struct RegionPlan {
    pub block: usize,
    pub region: u64,
    pub measurement: u64,
}

/// How the blocks of a file become an experiment: its regions in block
/// order, the label of each measurement position (that of identity `k + 1`
/// at `k`), and the warnings for skipped blocks.
pub struct ImportPlan {
    pub regions: Vec<RegionPlan>,
    pub measurements: Vec<Vec<char>>,
    pub warnings: Vec<String>,
}

/// The plan as values.
pub struct PlanView {
    pub regions: Seq<RegionPlan>,
    pub measurements: Seq<Seq<char>>,
    pub warnings: Seq<Seq<char>>,
}

/// `k` is the first position of `label`.
pub open spec fn label_at(labels: Seq<Seq<char>>, label: Seq<char>, k: int) -> bool {
    &&& 0 <= k < labels.len()
    &&& labels[k] == label
    &&& forall|j: int| 0 <= j < k ==> labels[j] != label
}

/// The identity of the measurement position labelled `label`: one more than
/// the position of the label among those seen, or the next identity for a
/// label not seen yet.
pub open spec fn measurement_for(labels: Seq<Seq<char>>, label: Seq<char>) -> int {
    if exists|k: int| label_at(labels, label, k) {
        (choose|k: int| label_at(labels, label, k)) + 1
    } else {
        labels.len() + 1int
    }
}

/// The plan for `blocks`: each block is `None` when it is not XPS data
/// (it is skipped with a warning), or the label of its measurement position.
/// Regions are numbered from one in block order; a position takes the
/// identity of the first region that names it, and positions are numbered
/// from one in the order they first appear.
pub open spec fn spec_import_plan(blocks: Seq<Option<Seq<char>>>) -> PlanView
    decreases blocks.len(),
{
    if blocks.len() == 0 {
        PlanView { regions: Seq::empty(), measurements: Seq::empty(), warnings: Seq::empty() }
    } else {
        let p = spec_import_plan(blocks.drop_last());
        let j = blocks.len() - 1;
        match blocks.last() {
            None => PlanView {
                regions: p.regions,
                measurements: p.measurements,
                warnings: p.warnings.push(skipped_warning(j)),
            },
            Some(label) => PlanView {
                regions: p.regions.push(
                    RegionPlan {
                        block: j as usize,
                        region: (p.regions.len() + 1) as u64,
                        measurement: measurement_for(p.measurements, label) as u64,
                    },
                ),
                measurements: if exists|k: int| label_at(p.measurements, label, k) {
                    p.measurements
                } else {
                    p.measurements.push(label)
                },
                warnings: p.warnings,
            },
        }
    }
}

/// The labels of `blocks` as values.
pub open spec fn block_labels(blocks: Seq<Option<Vec<char>>>) -> Seq<Option<Seq<char>>> {
    blocks.map_values(
        |b: Option<Vec<char>>|
            match b {
                Some(l) => Some(l@),
                None => None,
            },
    )
}

pub open spec fn texts(v: Seq<String>) -> Seq<Seq<char>> {
    v.map_values(|s: String| s@)
}

pub open spec fn label_texts(v: Seq<Vec<char>>) -> Seq<Seq<char>> {
    v.map_values(|s: Vec<char>| s@)
}

fn find_label(labels: &Vec<Vec<char>>, label: &Vec<char>) -> (r: Option<usize>)
    ensures
        match r {
            Some(k) => label_at(label_texts(labels@), label@, k as int),
            None => !exists|k: int| label_at(label_texts(labels@), label@, k),
        },
{
    let mut k: usize = 0;
    while k < labels.len()
        invariant
            k <= labels@.len(),
            forall|j: int| 0 <= j < k ==> label_texts(labels@)[j] != label@,
        decreases labels.len() - k,
    {
        if crate::text::eq_chars(&labels[k], label) {
            return Some(k);
        }
        k = k + 1;
    }
    proof {
        assert forall|x: int| !label_at(label_texts(labels@), label@, x) by {
            if 0 <= x < labels@.len() {
                assert(label_texts(labels@)[x] != label@);
            }
        }
    }
    None
}

proof fn lemma_label_at_unique(labels: Seq<Seq<char>>, label: Seq<char>, a: int, b: int)
    requires
        label_at(labels, label, a),
        label_at(labels, label, b),
    ensures
        a == b,
{
    if a < b {
        assert(labels[a] == label);
    } else if b < a {
        assert(labels[b] == label);
    }
}

proof fn lemma_plan_sizes(blocks: Seq<Option<Seq<char>>>)
    ensures
        spec_import_plan(blocks).regions.len() <= blocks.len(),
        spec_import_plan(blocks).measurements.len() <= spec_import_plan(blocks).regions.len(),
    decreases blocks.len(),
{
    if blocks.len() > 0 {
        lemma_plan_sizes(blocks.drop_last());
    }
}

/// Plan the import of a file's blocks (see `spec_import_plan`).
pub fn import_plan(blocks: &Vec<Option<Vec<char>>>) -> (r: ImportPlan)
    requires
        blocks@.len() < usize::MAX,
    ensures
        r.regions@ == spec_import_plan(block_labels(blocks@)).regions,
        label_texts(r.measurements@) == spec_import_plan(block_labels(blocks@)).measurements,
        texts(r.warnings@) == spec_import_plan(block_labels(blocks@)).warnings,
{
    let ghost all = block_labels(blocks@);
    let mut regions: Vec<RegionPlan> = Vec::new();
    let mut measurements: Vec<Vec<char>> = Vec::new();
    let mut warnings: Vec<String> = Vec::new();
    let mut i: usize = 0;
    while i < blocks.len()
        invariant
            i <= blocks@.len(),
            blocks@.len() < usize::MAX,
            all == block_labels(blocks@),
            regions@ == spec_import_plan(all.subrange(0, i as int)).regions,
            label_texts(measurements@) == spec_import_plan(all.subrange(0, i as int)).measurements,
            texts(warnings@) == spec_import_plan(all.subrange(0, i as int)).warnings,
        decreases blocks.len() - i,
    {
        let ghost prefix = all.subrange(0, i as int + 1);
        proof {
            assert(prefix.drop_last() =~= all.subrange(0, i as int));
            lemma_plan_sizes(all.subrange(0, i as int));
        }
        match &blocks[i] {
            None => {
                let mut text = literal("Skipped non-XPS VAMAS block ");
                append(&mut text, &decimal(i as u64 + 1));
                let ghost before = texts(warnings@);
                warnings.push(string_from_chars(&text));
                assert(texts(warnings@) =~= before.push(skipped_warning(i as int)));
            },
            Some(label) => {
                let measurement: u64 = match find_label(&measurements, label) {
                    Some(k) => {
                        proof {
                            let c = choose|x: int| label_at(label_texts(measurements@), label@, x);
                            lemma_label_at_unique(label_texts(measurements@), label@, k as int, c);
                        }
                        k as u64 + 1
                    },
                    None => {
                        let copy = crate::text::suffix_from(label, 0);
                        assert(copy@ =~= label@);
                        let ghost before = label_texts(measurements@);
                        measurements.push(copy);
                        assert(label_texts(measurements@) =~= before.push(label@));
                        measurements.len() as u64
                    },
                };
                regions.push(
                    RegionPlan { block: i, region: regions.len() as u64 + 1, measurement },
                );
            },
        }
        i = i + 1;
    }
    assert(all.subrange(0, blocks@.len() as int) =~= all);
    ImportPlan { regions, measurements, warnings }
}

/// Regions of one measurement position share its identity, and only they
/// do: region `a` has identity `a + 1`, the measurement identity `m` of a
/// region is the `m`-th distinct label in the order labels first appear, and
/// that label is the label of the region's block.
pub proof fn lemma_measurements_follow_labels(blocks: Seq<Option<Seq<char>>>)
    requires
        blocks.len() <= usize::MAX,
    ensures
        ({
            let p = spec_import_plan(blocks);
            &&& forall|a: int|
                0 <= a < p.regions.len() ==> {
                    &&& (#[trigger] p.regions[a]).region == a + 1
                    &&& p.regions[a].block < blocks.len()
                    &&& blocks[p.regions[a].block as int] is Some
                    &&& 1 <= p.regions[a].measurement <= p.measurements.len()
                    &&& p.measurements[p.regions[a].measurement - 1] == blocks[p.regions[a].block as int]->0
                }
            &&& forall|a: int, b: int|
                0 <= a < p.measurements.len() && 0 <= b < p.measurements.len() && a != b
                    ==> p.measurements[a] != p.measurements[b]
        }),
    decreases blocks.len(),
{
    if blocks.len() > 0 {
        let rest = blocks.drop_last();
        lemma_measurements_follow_labels(rest);
        lemma_plan_sizes(rest);
        let q = spec_import_plan(rest);
        let p = spec_import_plan(blocks);
        let n = q.measurements.len() as int;
        match blocks.last() {
            None => {
                assert forall|a: int| 0 <= a < p.regions.len() implies {
                    &&& (#[trigger] p.regions[a]).region == a + 1
                    &&& p.regions[a].block < blocks.len()
                    &&& blocks[p.regions[a].block as int] is Some
                    &&& 1 <= p.regions[a].measurement <= p.measurements.len()
                    &&& p.measurements[p.regions[a].measurement - 1] == blocks[p.regions[a].block as int]->0
                } by {
                    assert(p.regions[a] == q.regions[a]);
                    assert(blocks[q.regions[a].block as int] == rest[q.regions[a].block as int]);
                }
            },
            Some(label) => {
                let found = exists|k: int| label_at(q.measurements, label, k);
                if found {
                    let k = choose|k: int| label_at(q.measurements, label, k);
                    assert(p.measurements == q.measurements);
                    assert(measurement_for(q.measurements, label) == k + 1);
                } else {
                    assert(p.measurements == q.measurements.push(label));
                    assert(measurement_for(q.measurements, label) == n + 1);
                    assert forall|a: int, b: int|
                        0 <= a < p.measurements.len() && 0 <= b < p.measurements.len() && a != b
                            implies p.measurements[a] != p.measurements[b] by {
                        if a == n && b < n && p.measurements[b] == label {
                            lemma_some_label_at(q.measurements, label, b);
                        }
                        if b == n && a < n && p.measurements[a] == label {
                            lemma_some_label_at(q.measurements, label, a);
                        }
                        if a < n && b < n {
                            assert(p.measurements[a] == q.measurements[a]);
                            assert(p.measurements[b] == q.measurements[b]);
                        }
                    }
                }
                assert forall|a: int| 0 <= a < p.regions.len() implies {
                    &&& (#[trigger] p.regions[a]).region == a + 1
                    &&& p.regions[a].block < blocks.len()
                    &&& blocks[p.regions[a].block as int] is Some
                    &&& 1 <= p.regions[a].measurement <= p.measurements.len()
                    &&& p.measurements[p.regions[a].measurement - 1] == blocks[p.regions[a].block as int]->0
                } by {
                    if a < q.regions.len() {
                        assert(p.regions[a] == q.regions[a]);
                        assert(blocks[q.regions[a].block as int] == rest[q.regions[a].block as int]);
                        let m = q.regions[a].measurement - 1;
                        assert(p.measurements[m] == q.measurements[m]);
                    } else {
                        assert(p.regions[a].block == blocks.len() - 1);
                    }
                }
            },
        }
    }
}

proof fn lemma_some_label_at(labels: Seq<Seq<char>>, label: Seq<char>, j: int)
    requires
        0 <= j < labels.len(),
        labels[j] == label,
    ensures
        exists|k: int| label_at(labels, label, k),
    decreases j,
{
    if forall|k: int| 0 <= k < j ==> labels[k] != label {
        assert(label_at(labels, label, j));
    } else {
        let k = choose|k: int| 0 <= k < j && labels[k] == label;
        lemma_some_label_at(labels, label, k);
    }
}


/// Text order: `a` comes before `b` character by character, and a text
/// comes before every longer text it begins.
pub open spec fn text_less(a: Seq<char>, b: Seq<char>) -> bool
    decreases a.len(),
{
    if a.len() == 0 {
        b.len() > 0
    } else if b.len() == 0 {
        false
    } else if a[0] != b[0] {
        a[0] < b[0]
    } else {
        text_less(a.drop_first(), b.drop_first())
    }
}

/// `a` comes before `b` or is `b`.
pub open spec fn text_le(a: Seq<char>, b: Seq<char>) -> bool {
    text_less(a, b) || a == b
}

proof fn lemma_text_less_irreflexive(a: Seq<char>)
    ensures
        !text_less(a, a),
    decreases a.len(),
{
    if a.len() > 0 {
        lemma_text_less_irreflexive(a.drop_first());
    }
}

proof fn lemma_text_less_transitive(a: Seq<char>, b: Seq<char>, c: Seq<char>)
    requires
        text_less(a, b),
        text_less(b, c),
    ensures
        text_less(a, c),
    decreases a.len(),
{
    if a.len() > 0 && b.len() > 0 && c.len() > 0 && a[0] == b[0] && b[0] == c[0] {
        lemma_text_less_transitive(a.drop_first(), b.drop_first(), c.drop_first());
    }
}

proof fn lemma_text_less_total(a: Seq<char>, b: Seq<char>)
    ensures
        text_less(a, b) || text_less(b, a) || a == b,
    decreases a.len(),
{
    if a.len() == 0 && b.len() == 0 {
        assert(a =~= b);
    } else if a.len() > 0 && b.len() > 0 && a[0] == b[0] {
        lemma_text_less_total(a.drop_first(), b.drop_first());
        if a.drop_first() == b.drop_first() {
            assert(a =~= seq![a[0]] + a.drop_first());
            assert(b =~= seq![b[0]] + b.drop_first());
        }
    }
}

proof fn lemma_text_le_transitive(a: Seq<char>, b: Seq<char>, c: Seq<char>)
    requires
        text_le(a, b),
        text_le(b, c),
    ensures
        text_le(a, c),
{
    if text_less(a, b) && text_less(b, c) {
        lemma_text_less_transitive(a, b, c);
    }
}

/// `order` lists each of the indices `0..n` exactly once.
pub open spec fn is_permutation(order: Seq<usize>, n: int) -> bool {
    &&& order.len() == n
    &&& forall|i: int| 0 <= i < order.len() ==> #[trigger] order[i] < n
    &&& order.no_duplicates()
}

/// The measurement positions in label order: the indices of `labels` (the
/// identity minus one) each once, their labels in text order, equal labels
/// in index order.
pub fn measurement_order(labels: &Vec<Vec<char>>) -> (order: Vec<usize>)
    ensures
        is_permutation(order@, labels@.len() as int),
        forall|i: int, j: int|
            0 <= i < j < order@.len() ==> text_le(
                label_texts(labels@)[order@[i] as int],
                label_texts(labels@)[order@[j] as int],
            ),
        forall|i: int, j: int|
            #![trigger order@[i], order@[j]]
            0 <= i < j < order@.len() && label_texts(labels@)[order@[i] as int] == label_texts(
                labels@,
            )[order@[j] as int] ==> order@[i] < order@[j],
{
    let ghost l = label_texts(labels@);
    let mut order: Vec<usize> = Vec::new();
    let mut k: usize = 0;
    while k < labels.len()
        invariant
            k <= labels@.len(),
            l == label_texts(labels@),
            is_permutation(order@, k as int),
            forall|i: int, j: int|
                0 <= i < j < order@.len() ==> text_le(l[order@[i] as int], l[order@[j] as int]),
            forall|i: int, j: int|
                #![trigger order@[i], order@[j]]
                0 <= i < j < order@.len() && l[order@[i] as int] == l[order@[j] as int] ==> order@[i]
                    < order@[j],
        decreases labels.len() - k,
    {
        let mut pos: usize = 0;
        while pos < order.len() && !less_chars(&labels[k], &labels[order[pos]])
            invariant
                pos <= order@.len(),
                k < labels@.len(),
                l == label_texts(labels@),
                is_permutation(order@, k as int),
                forall|i: int| 0 <= i < pos ==> !text_less(l[k as int], l[#[trigger] order@[i] as int]),
            decreases order@.len() - pos,
        {
            proof {
                assert(order@[pos as int] < k);
            }
            pos = pos + 1;
        }
        let ghost before = order@;
        order.insert(pos, k);
        proof {
            let after = order@;
            assert(after == before.insert(pos as int, k));
            assert forall|i: int| 0 <= i < after.len() implies #[trigger] after[i] < k + 1 by {
                if i < pos {
                    assert(after[i] == before[i]);
                } else if i > pos {
                    assert(after[i] == before[i - 1]);
                }
            }
            assert forall|i: int, j: int| 0 <= i < j < after.len() implies after[i] != after[j] by {
                if i != pos && j != pos {
                    let bi = if i < pos { i } else { i - 1 };
                    let bj = if j < pos { j } else { j - 1 };
                    assert(after[i] == before[bi]);
                    assert(after[j] == before[bj]);
                } else if i == pos {
                    let bj = j - 1;
                    assert(after[j] == before[bj]);
                } else {
                    assert(after[i] == before[i]);
                }
            }
            assert forall|i: int, j: int| 0 <= i < j < after.len() implies text_le(
                l[after[i] as int],
                l[after[j] as int],
            ) && (l[after[i] as int] == l[after[j] as int] ==> after[i] < after[j]) by {
                let bi = if i < pos { i } else { i - 1 };
                let bj = if j <= pos { j } else { j - 1 };
                if i != pos && j != pos {
                    assert(after[i] == before[bi]);
                    assert(after[j] == before[bj]);
                } else if i == pos {
                    assert(after[j] == before[j - 1]);
                    // k before the element now at j
                    assert(pos < before.len());
                    assert(text_less(l[k as int], l[before[pos as int] as int]));
                    if j - 1 > pos {
                        assert(text_le(l[before[pos as int] as int], l[before[j - 1] as int]));
                        lemma_text_le_transitive(l[k as int], l[before[pos as int] as int], l[before[j - 1] as int]);
                    }
                    assert(text_le(l[k as int], l[after[j] as int]));
                    if l[after[i] as int] == l[after[j] as int] {
                        lemma_text_less_irreflexive(l[k as int]);
                        if j - 1 > pos {
                            lemma_text_less_transitive(l[k as int], l[before[pos as int] as int], l[before[j - 1] as int]);
                        }
                        assert(false);
                    }
                } else {
                    assert(after[i] == before[i]);
                    assert(!text_less(l[k as int], l[before[i] as int]));
                    lemma_text_less_total(l[k as int], l[before[i] as int]);
                    assert(before[i] < k);
                }
            }
            assert forall|i: int, j: int|
                #![trigger after[i], after[j]]
                0 <= i < j < after.len() && l[after[i] as int] == l[after[j] as int] implies after[i]
                    < after[j] by {
                assert(text_le(l[after[i] as int], l[after[j] as int]) && (l[after[i] as int] == l[after[j] as int] ==> after[i] < after[j]));
            }
        }
        k = k + 1;
    }
    order
}

fn less_chars(a: &Vec<char>, b: &Vec<char>) -> (r: bool)
    ensures
        r == text_less(a@, b@),
{
    let mut i: usize = 0;
    assert(a@.subrange(0, a@.len() as int) =~= a@);
    assert(b@.subrange(0, b@.len() as int) =~= b@);
    while i < a.len() && i < b.len() && a[i] == b[i]
        invariant
            i <= a@.len(),
            i <= b@.len(),
            forall|k: int| 0 <= k < i ==> a@[k] == b@[k],
            text_less(a@, b@) == text_less(a@.subrange(i as int, a@.len() as int), b@.subrange(i as int, b@.len() as int)),
        decreases a.len() - i,
    {
        proof {
            let sa = a@.subrange(i as int, a@.len() as int);
            let sb = b@.subrange(i as int, b@.len() as int);
            assert(sa.drop_first() =~= a@.subrange(i as int + 1, a@.len() as int));
            assert(sb.drop_first() =~= b@.subrange(i as int + 1, b@.len() as int));
        }
        i = i + 1;
    }
    let ghost sa = a@.subrange(i as int, a@.len() as int);
    let ghost sb = b@.subrange(i as int, b@.len() as int);
    if i == a.len() {
        assert(sa.len() == 0);
        i < b.len()
    } else if i == b.len() {
        false
    } else {
        assert(sa[0] == a@[i as int] && sb[0] == b@[i as int]);
        a[i] < b[i]
    }
}


/// Labels of distinct positions come out strictly increasing: ordering the
/// plan's measurement labels (which never repeat) lists them in strictly
/// increasing text order.
pub proof fn lemma_distinct_labels_strictly_increase(labels: Seq<Seq<char>>, order: Seq<usize>)
    requires
        is_permutation(order, labels.len() as int),
        forall|i: int, j: int|
            0 <= i < j < order.len() ==> text_le(labels[order[i] as int], labels[order[j] as int]),
        forall|a: int, b: int| 0 <= a < labels.len() && 0 <= b < labels.len() && a != b ==> labels[a] != labels[b],
    ensures
        forall|i: int, j: int|
            0 <= i < j < order.len() ==> text_less(labels[order[i] as int], labels[order[j] as int]),
{
    assert forall|i: int, j: int| 0 <= i < j < order.len() implies text_less(
        labels[order[i] as int],
        labels[order[j] as int],
    ) by {
        assert(order[i] != order[j]);
        assert(order[i] < labels.len() && order[j] < labels.len());
        let a = order[i] as int;
        let b = order[j] as int;
        assert(labels[a] != labels[b]);
        assert(text_le(labels[a], labels[b]));
    }
}

} // verus!
