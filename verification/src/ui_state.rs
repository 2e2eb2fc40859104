//! Interface state and the small decisions of the application shell:
//! dialog state, the spectrum-arithmetic operations, chrome geometry per
//! platform, the type ramp, the workspace margins, recovery and update
//! timing, the default contour base, and how an opened file is routed.
use crate::text::{literal, lowercase, to_ascii_lowercase};
use crate::xps_session::StepId;
use vstd::prelude::*;
use vstd::string::StringExecFns;

verus! {

/// The four spectrum-arithmetic operations.
#[derive(Clone, Copy, Debug, PartialEq, Eq, Structural)]
pub enum SpectrumArithmeticOp {
    AddDataset,
    SubtractDataset,
    MultiplyConstant,
    AddConstant,
}

impl SpectrumArithmeticOp {
    /// Every operation, in menu order.
    pub fn all() -> (r: [SpectrumArithmeticOp; 4])
        ensures
            r@ == seq![
                SpectrumArithmeticOp::AddDataset,
                SpectrumArithmeticOp::SubtractDataset,
                SpectrumArithmeticOp::MultiplyConstant,
                SpectrumArithmeticOp::AddConstant,
            ],
    {
        [
            SpectrumArithmeticOp::AddDataset,
            SpectrumArithmeticOp::SubtractDataset,
            SpectrumArithmeticOp::MultiplyConstant,
            SpectrumArithmeticOp::AddConstant,
        ]
    }

    /// The formula shown for the operation.
    pub open spec fn spec_label(self) -> Seq<char> {
        match self {
            SpectrumArithmeticOp::AddDataset => "A + k·B"@,
            SpectrumArithmeticOp::SubtractDataset => "A − k·B"@,
            SpectrumArithmeticOp::MultiplyConstant => "A × k"@,
            SpectrumArithmeticOp::AddConstant => "A + c"@,
        }
    }

    /// The formula shown for the operation.
    pub fn label(self) -> (r: &'static str)
        ensures
            r@ == self.spec_label(),
    {
        match self {
            SpectrumArithmeticOp::AddDataset => "A + k·B",
            SpectrumArithmeticOp::SubtractDataset => "A − k·B",
            SpectrumArithmeticOp::MultiplyConstant => "A × k",
            SpectrumArithmeticOp::AddConstant => "A + c",
        }
    }

    /// The operation combines two datasets.
    pub fn is_binary(self) -> (r: bool)
        ensures
            r <==> (self == SpectrumArithmeticOp::AddDataset || self
                == SpectrumArithmeticOp::SubtractDataset),
    {
        match self {
            SpectrumArithmeticOp::AddDataset | SpectrumArithmeticOp::SubtractDataset => true,
            _ => false,
        }
    }
}

/// The tabs of the XPS workbench.
#[derive(Clone, Copy, Debug, PartialEq, Eq, Structural)]
pub enum XpsWorkbenchTab {
    Acquisition,
    Background,
    Components,
    Diagnostics,
}

impl Default for XpsWorkbenchTab {
    fn default() -> (t: Self)
        ensures
            t == XpsWorkbenchTab::Acquisition,
    {
        XpsWorkbenchTab::Acquisition
    }
}

/// The command palette's query and highlighted row.
#[derive(Clone, Debug, PartialEq, Eq)]
pub struct CommandPaletteState {
    pub query: String,
    pub selected: usize,
}

impl Default for CommandPaletteState {
    fn default() -> (s: Self)
        ensures
            s.query@ == Seq::<char>::empty(),
            s.selected == 0,
    {
        CommandPaletteState { query: String::new(), selected: 0 }
    }
}

/// Stable identity of a dataset.
#[derive(Clone, Copy, Debug, PartialEq, Eq, Hash, Structural)]
pub struct DatasetId(pub u64);

/// The axis of a two-dimensional spectrum whose pipeline owns a step.
#[derive(Clone, Copy, Debug, PartialEq, Eq, Structural)]
pub enum PhaseAxis {
    Direct,
    Indirect,
}

/// A one-shot request to pick a Reference step's source position on the plot.
#[derive(Clone, Copy, Debug, PartialEq, Eq, Structural)]
pub struct ReferencePick {
    pub dataset: DatasetId,
    pub step: StepId,
}

/// An armed [`ReferencePick`] resolved against the current document.
#[derive(Clone, Copy, Debug, PartialEq, Eq, Structural)]
pub struct ResolvedReferencePick {
    pub pick: ReferencePick,
    pub dataset_index: usize,
    pub axis: PhaseAxis,
}

/// What one frame of input does to an armed Reference pick.
#[derive(Clone, Copy, Debug, PartialEq, Eq, Structural)]
pub enum ReferencePickStep {
    /// Nothing: no pick is armed, or the pointer is elsewhere or busy.
    Idle,
    /// Escape disarms the pick.
    Cancel,
    /// The pointer hovers the armed plot; other plot gestures must not start.
    Hover,
    /// A click on the armed plot writes the picked position.
    Commit,
}

impl ReferencePickStep {
    /// Whether the pick keeps the pointer from starting other gestures.
    pub fn captures_pointer(self) -> (r: bool)
        ensures
            r <==> (self == ReferencePickStep::Hover || self == ReferencePickStep::Commit),
    {
        match self {
            ReferencePickStep::Hover | ReferencePickStep::Commit => true,
            _ => false,
        }
    }
}

/// The status line shown when Escape disarms a Reference pick.
pub fn reference_pick_cancelled_status() -> (m: &'static str)
    ensures
        m@ == "Reference pick cancelled."@,
{
    "Reference pick cancelled."
}

/// One frame of the on-plot Reference pick. Escape disarms an armed pick
/// whatever else happens; otherwise the pick acts only when the canvas may
/// take the pointer, no other interaction is running, and the pointer is over
/// the plot showing the picked dataset; there a press that resolves to a
/// position commits it, and anything else previews.
pub fn reference_pick_step(
    armed: bool,
    escape: bool,
    pointer_allowed: bool,
    interacting: bool,
    over_plot: bool,
    pressed: bool,
    position_found: bool,
) -> (r: ReferencePickStep)
    ensures
        r == if !armed {
            ReferencePickStep::Idle
        } else if escape {
            ReferencePickStep::Cancel
        } else if !pointer_allowed || interacting || !over_plot {
            ReferencePickStep::Idle
        } else if pressed && position_found {
            ReferencePickStep::Commit
        } else {
            ReferencePickStep::Hover
        },
{
    if !armed {
        return ReferencePickStep::Idle;
    }
    if escape {
        return ReferencePickStep::Cancel;
    }
    if !pointer_allowed || interacting || !over_plot {
        return ReferencePickStep::Idle;
    }
    if pressed && position_found {
        ReferencePickStep::Commit
    } else {
        ReferencePickStep::Hover
    }
}

/// Corner radii of the application chrome.
#[derive(Clone, Copy, Debug, PartialEq, Eq, Structural)]
pub struct ChromeGeometry {
    pub control: u8,
    pub surface: u8,
}

/// The desktop platforms the application runs on.
#[derive(Clone, Copy, Debug, PartialEq, Eq, Structural)]
pub enum DesktopPlatform {
    MacOs,
    Windows,
    Linux,
}

impl ChromeGeometry {
    /// The radius hierarchy of each platform: controls inside surfaces.
    pub fn for_platform(platform: DesktopPlatform) -> (g: Self)
        ensures
            platform == DesktopPlatform::Windows ==> g.control == 4 && g.surface == 8,
            platform != DesktopPlatform::Windows ==> g.control == 6 && g.surface == 10,
            g.control < g.surface,
    {
        match platform {
            DesktopPlatform::MacOs => ChromeGeometry { control: 6, surface: 10 },
            DesktopPlatform::Windows => ChromeGeometry { control: 4, surface: 8 },
            DesktopPlatform::Linux => ChromeGeometry { control: 6, surface: 10 },
        }
    }
}

/// How many frames the renderer may queue: no limit on macOS, where the
/// compositor paces presentation, and a single frame elsewhere.
pub fn desired_maximum_frame_latency(platform: DesktopPlatform) -> (r: Option<u32>)
    ensures
        platform == DesktopPlatform::MacOs ==> r is None,
        platform != DesktopPlatform::MacOs ==> r == Some(1u32),
{
    match platform {
        DesktopPlatform::MacOs => None,
        _ => Some(1),
    }
}

/// The type ramp, in points.
pub const LARGE_TITLE_PT: u8 = 26;
pub const TITLE_1_PT: u8 = 22;
pub const TITLE_2_PT: u8 = 17;
pub const TITLE_3_PT: u8 = 15;
pub const HEADLINE_PT: u8 = 13;
pub const BODY_PT: u8 = 13;
pub const CALLOUT_PT: u8 = 12;
pub const SUBHEADLINE_PT: u8 = 11;
pub const CAPTION_PT: u8 = 10;
pub const MONOSPACE_PT: u8 = 13;

/// The gaps around the central workspace.
#[derive(Clone, Copy, Debug, PartialEq, Eq, Structural)]
pub struct WorkspaceMargin {
    pub left: i8,
    pub right: i8,
}

/// The central workspace keeps a wider gap on a side where a sidebar is shown.
pub fn central_workspace_margin(primary_sidebar: bool, secondary_sidebar: bool) -> (m: WorkspaceMargin)
    ensures
        m.left == if primary_sidebar { 8i8 } else { 4i8 },
        m.right == if secondary_sidebar { 8i8 } else { 4i8 },
{
    WorkspaceMargin {
        left: if primary_sidebar { 8 } else { 4 },
        right: if secondary_sidebar { 8 } else { 4 },
    }
}

/// A recovery snapshot is written when the document has unsaved changes
/// whose generation has not been written yet.
pub fn recovery_needed(dirty: bool, generation: u64, last_written: Option<u64>) -> (r: bool)
    ensures
        r <==> dirty && last_written != Some(generation),
{
    dirty && match last_written {
        Some(written) => written != generation,
        None => true,
    }
}

/// A pending transition (quit, restart) may proceed after a save only if
/// the save succeeded and no edit landed after the saved snapshot.
pub fn transition_ready_after_save(saved: bool, snapshot_generation: u64, current_generation: u64) -> (r: bool)
    ensures
        r <==> saved && snapshot_generation == current_generation,
{
    saved && snapshot_generation == current_generation
}

/// The capabilities a data field can declare.
#[derive(Clone, Copy, Debug, PartialEq, Eq, Structural)]
pub enum FieldCapability {
    Bounded,
    ColoredRaster2d,
    Curve1d,
    LocationScale,
    NoiseScale,
    ScalarGrid2dRegular,
    Signed,
}

/// The capabilities of one data field.
#[derive(Clone, Debug, PartialEq, Eq)]
pub struct FieldCapabilities {
    pub capabilities: Vec<FieldCapability>,
}

impl FieldCapabilities {
    /// The field declares `capability`.
    pub fn contains(&self, capability: FieldCapability) -> (r: bool)
        ensures
            r <==> self.capabilities@.contains(capability),
    {
        let mut i: usize = 0;
        while i < self.capabilities.len()
            invariant
                i <= self.capabilities@.len(),
                forall|k: int| 0 <= k < i ==> self.capabilities@[k] != capability,
            decreases self.capabilities.len() - i,
        {
            if self.capabilities[i] == capability {
                return true;
            }
            i = i + 1;
        }
        false
    }
}

/// How the lowest contour level is placed.
#[derive(Clone, Copy, Debug, PartialEq, Eq, Structural)]
pub enum ContourBaseKind {
    /// A multiple of the field's noise floor.
    NoiseFloor,
    /// A multiple of the field's background scale.
    BackgroundScale,
    /// A fraction of the field's range.
    FractionOfRange,
    /// An absolute level.
    Absolute,
}

/// The contour base a field's capabilities call for: its noise floor, else
/// its background scale, else a fraction of its range, else an absolute level.
pub fn default_contour_base_kind(capabilities: &FieldCapabilities) -> (k: ContourBaseKind)
    ensures
        k == if capabilities.capabilities@.contains(FieldCapability::NoiseScale) {
            ContourBaseKind::NoiseFloor
        } else if capabilities.capabilities@.contains(FieldCapability::LocationScale) {
            ContourBaseKind::BackgroundScale
        } else if capabilities.capabilities@.contains(FieldCapability::Bounded) {
            ContourBaseKind::FractionOfRange
        } else {
            ContourBaseKind::Absolute
        },
{
    if capabilities.contains(FieldCapability::NoiseScale) {
        ContourBaseKind::NoiseFloor
    } else if capabilities.contains(FieldCapability::LocationScale) {
        ContourBaseKind::BackgroundScale
    } else if capabilities.contains(FieldCapability::Bounded) {
        ContourBaseKind::FractionOfRange
    } else {
        ContourBaseKind::Absolute
    }
}

/// What a path handed to Open names.
#[derive(Clone, Copy, Debug, PartialEq, Eq, Structural)]
pub enum OpenPathEntryType {
    RegularFile,
    Directory,
    Other,
}

/// How an opened file is read.
#[derive(Clone, Copy, Debug, PartialEq, Eq, Structural)]
pub enum RecentOpenKind {
    /// A PlotX project.
    Project,
    /// An instrument data file with its own reader.
    DataFile,
    /// A delimited text table.
    DelimitedTable,
}

/// Why a path cannot be opened.
#[derive(Clone, Copy, Debug, PartialEq, Eq, Structural)]
pub enum OpenPathError {
    NotARegularFile,
}

/// The position just past the last `.` of `name`, if it has one.
pub open spec fn extension_start(name: Seq<char>) -> Option<int>
    decreases name.len(),
{
    if name.len() == 0 {
        None
    } else if name.last() == '.' {
        Some(name.len() as int)
    } else {
        extension_start(name.drop_last())
    }
}

/// The file name's extension in lower case; empty when it has none.
pub open spec fn extension(name: Seq<char>) -> Seq<char> {
    match extension_start(name) {
        Some(k) => lowercase(name.subrange(k, name.len() as int)),
        None => Seq::empty(),
    }
}

/// The bytes of `b` begin with `prefix`.
pub open spec fn bytes_start_with(b: Seq<u8>, prefix: Seq<u8>) -> bool {
    prefix.len() <= b.len() && b.subrange(0, prefix.len() as int) == prefix
}

/// The bytes of `b` contain `needle`.
pub open spec fn bytes_contain(b: Seq<u8>, needle: Seq<u8>) -> bool {
    exists|i: int| 0 <= i && i + needle.len() <= b.len() && #[trigger] b.subrange(i, i + needle.len()) == needle
}

/// A CasaXPS text export: it begins with a `Cycle ` line and declares the
/// characteristic (photon) energy.
pub open spec fn casa_signature(header: Seq<u8>) -> bool {
    bytes_start_with(header, "Cycle "@.map_values(|c: char| c as u8)) && bytes_contain(
        header,
        "Characteristic Energy"@.map_values(|c: char| c as u8),
    )
}

/// How a file is read, from its name and the first bytes of its content:
/// projects by extension, delimited tables by extension, except that a
/// `.txt` file with the CasaXPS signature is an XPS data file; every other
/// file goes to the instrument readers.
pub open spec fn spec_classify(name: Seq<char>, entry: OpenPathEntryType, header: Seq<u8>) -> Result<
    RecentOpenKind,
    OpenPathError,
> {
    let ext = extension(name);
    if entry != OpenPathEntryType::RegularFile {
        Err(OpenPathError::NotARegularFile)
    } else if ext == "plotx"@ {
        Ok(RecentOpenKind::Project)
    } else if ext == "txt"@ {
        if casa_signature(header) {
            Ok(RecentOpenKind::DataFile)
        } else {
            Ok(RecentOpenKind::DelimitedTable)
        }
    } else if ext == "csv"@ || ext == "tsv"@ {
        Ok(RecentOpenKind::DelimitedTable)
    } else {
        Ok(RecentOpenKind::DataFile)
    }
}

fn ascii_bytes(s: &str) -> (r: Vec<u8>)
    requires
        forall|i: int| 0 <= i < s@.len() ==> (s@[i] as u32) < 128,
    ensures
        r@ == s@.map_values(|c: char| c as u8),
{
    let chars = literal(s);
    let mut out: Vec<u8> = Vec::new();
    let mut i: usize = 0;
    while i < chars.len()
        invariant
            chars@ == s@,
            i <= chars@.len(),
            forall|k: int| 0 <= k < chars@.len() ==> (chars@[k] as u32) < 128,
            out@ == s@.subrange(0, i as int).map_values(|c: char| c as u8),
        decreases chars.len() - i,
    {
        let c = chars[i];
        out.push(c as u8);
        assert(out@ =~= s@.subrange(0, i as int + 1).map_values(|c: char| c as u8));
        i = i + 1;
    }
    assert(s@.subrange(0, s@.len() as int) =~= s@);
    out
}

fn bytes_prefix(b: &[u8], prefix: &Vec<u8>) -> (r: bool)
    ensures
        r == bytes_start_with(b@, prefix@),
{
    if prefix.len() > b.len() {
        return false;
    }
    let mut i: usize = 0;
    while i < prefix.len()
        invariant
            prefix@.len() <= b@.len(),
            i <= prefix@.len(),
            forall|k: int| 0 <= k < i ==> b@[k] == prefix@[k],
        decreases prefix.len() - i,
    {
        if b[i] != prefix[i] {
            assert(b@.subrange(0, prefix@.len() as int)[i as int] == b@[i as int]);
            return false;
        }
        i = i + 1;
    }
    assert(b@.subrange(0, prefix@.len() as int) =~= prefix@);
    true
}

fn bytes_find(b: &[u8], needle: &Vec<u8>) -> (r: bool)
    ensures
        r == bytes_contain(b@, needle@),
{
    if needle.len() > b.len() {
        return false;
    }
    let last = b.len() - needle.len();
    let mut i: usize = 0;
    while i <= last
        invariant
            last + needle@.len() == b@.len(),
            i <= last + 1,
            forall|k: int| 0 <= k < i ==> #[trigger] b@.subrange(k, k + needle@.len()) != needle@,
        decreases last + 1 - i,
    {
        let mut j: usize = 0;
        let mut same = true;
        while j < needle.len()
            invariant
                last + needle@.len() == b@.len(),
                i <= last,
                j <= needle@.len(),
                same == forall|k: int| 0 <= k < j ==> b@[i + k] == needle@[k],
            decreases needle.len() - j,
        {
            assert(i + j < b.len());
            if b[i + j] != needle[j] {
                same = false;
            }
            j = j + 1;
        }
        if same {
            assert(b@.subrange(i as int, i + needle@.len()) =~= needle@);
            return true;
        }
        proof {
            let sub = b@.subrange(i as int, i + needle@.len());
            if sub == needle@ {
                assert forall|k: int| 0 <= k < needle@.len() implies b@[i + k] == needle@[k] by {
                    assert(sub[k] == b@[i + k]);
                }
            }
        }
        if i == last {
            return false;
        }
        i = i + 1;
    }
    false
}

fn file_extension(name: &Vec<char>) -> (r: Vec<char>)
    ensures
        r@ == extension(name@),
{
    let mut k: usize = name.len();
    assert(name@.subrange(0, k as int) =~= name@);
    while k > 0 && name[k - 1] != '.'
        invariant
            k <= name@.len(),
            extension_start(name@) == extension_start(name@.subrange(0, k as int)),
        decreases k,
    {
        assert(name@.subrange(0, k as int).drop_last() =~= name@.subrange(0, k as int - 1));
        k = k - 1;
    }
    assert(name@.subrange(0, name@.len() as int) =~= name@);
    if k == 0 {
        assert(extension_start(name@.subrange(0, 0)) is None);
        return Vec::new();
    }
    let mut rest: Vec<char> = Vec::new();
    let mut i: usize = k;
    while i < name.len()
        invariant
            k <= i <= name@.len(),
            rest@ == name@.subrange(k as int, i as int),
        decreases name.len() - i,
    {
        rest.push(name[i]);
        assert(rest@ =~= name@.subrange(k as int, i as int + 1));
        i = i + 1;
    }
    to_ascii_lowercase(&rest)
}

/// How a file is read, from its name and the first bytes of its content.
pub fn classify_open_path_with_header(file_name: &str, entry: OpenPathEntryType, header: &[u8]) -> (r:
    Result<RecentOpenKind, OpenPathError>)
    ensures
        r == spec_classify(file_name@, entry, header@),
{
    if entry != OpenPathEntryType::RegularFile {
        return Err(OpenPathError::NotARegularFile);
    }
    let name = literal(file_name);
    let ext = file_extension(&name);
    if crate::text::eq_str(&ext, "plotx") {
        return Ok(RecentOpenKind::Project);
    }
    if crate::text::eq_str(&ext, "txt") {
        proof {
            reveal_strlit("Cycle ");
            reveal_strlit("Characteristic Energy");
        }
        let cycle = ascii_bytes("Cycle ");
        let energy = ascii_bytes("Characteristic Energy");
        if bytes_prefix(header, &cycle) && bytes_find(header, &energy) {
            return Ok(RecentOpenKind::DataFile);
        }
        return Ok(RecentOpenKind::DelimitedTable);
    }
    if crate::text::eq_str(&ext, "csv") || crate::text::eq_str(&ext, "tsv") {
        return Ok(RecentOpenKind::DelimitedTable);
    }
    Ok(RecentOpenKind::DataFile)
}

/// The chart a user or profile asks for when a series is created.
#[derive(Clone, Copy, Debug, PartialEq, Eq, Structural)]
pub enum RequestedChart {
    Auto,
    Line,
    Contour,
    Heatmap,
    Image,
}

/// The encoding a new series is drawn with.
#[derive(Clone, Copy, Debug, PartialEq, Eq, Structural)]
pub enum EncodingKind {
    Line,
    Contour,
    Heatmap,
    Image,
}

/// The chart an `Auto` request stands for: the presentation profile's
/// preference, else the field's recommended encoding, else what the field's
/// shape suggests (an image for a colored raster, a heatmap for a regular
/// grid, a line otherwise).
pub open spec fn resolved_chart(
    requested: RequestedChart,
    preferred: Option<RequestedChart>,
    recommended: Option<Seq<char>>,
    caps: Seq<FieldCapability>,
) -> RequestedChart {
    if requested != RequestedChart::Auto {
        requested
    } else {
        match preferred {
            Some(chart) => chart,
            None => {
                let named = match recommended {
                    Some(r) => if r == "line"@ {
                        Some(RequestedChart::Line)
                    } else if r == "contour"@ {
                        Some(RequestedChart::Contour)
                    } else if r == "heatmap"@ {
                        Some(RequestedChart::Heatmap)
                    } else if r == "image"@ {
                        Some(RequestedChart::Image)
                    } else {
                        None
                    },
                    None => None,
                };
                match named {
                    Some(chart) => chart,
                    None => if caps.contains(FieldCapability::ColoredRaster2d) {
                        RequestedChart::Image
                    } else if caps.contains(FieldCapability::ScalarGrid2dRegular) {
                        RequestedChart::Heatmap
                    } else {
                        RequestedChart::Line
                    },
                }
            },
        }
    }
}

/// The encoding a chart gets on a field: the chart itself when the field
/// can carry it, else an image for a colored raster, a heatmap for a
/// regular grid, and a line otherwise.
pub open spec fn encoding_for(chart: RequestedChart, caps: Seq<FieldCapability>) -> EncodingKind {
    let grid = caps.contains(FieldCapability::ScalarGrid2dRegular);
    let colored = caps.contains(FieldCapability::ColoredRaster2d);
    if chart == RequestedChart::Contour && grid {
        EncodingKind::Contour
    } else if chart == RequestedChart::Heatmap && grid {
        EncodingKind::Heatmap
    } else if chart == RequestedChart::Image && colored {
        EncodingKind::Image
    } else if chart == RequestedChart::Line && caps.contains(FieldCapability::Curve1d) {
        EncodingKind::Line
    } else if colored {
        EncodingKind::Image
    } else if grid {
        EncodingKind::Heatmap
    } else {
        EncodingKind::Line
    }
}

/// The encoding a newly created series gets, from the field's capabilities
/// and recommended encoding, the requested chart and the presentation
/// profile's preference.
pub fn default_encoding(
    capabilities: &FieldCapabilities,
    recommended_encoding: Option<&str>,
    requested_chart: RequestedChart,
    preferred_encoding: Option<RequestedChart>,
) -> (k: EncodingKind)
    ensures
        k == encoding_for(
            resolved_chart(
                requested_chart,
                preferred_encoding,
                match recommended_encoding {
                    Some(r) => Some(r@),
                    None => None,
                },
                capabilities.capabilities@,
            ),
            capabilities.capabilities@,
        ),
{
    let chart = if requested_chart != RequestedChart::Auto {
        requested_chart
    } else {
        match preferred_encoding {
            Some(chart) => chart,
            None => {
                let named = match recommended_encoding {
                    Some(r) => {
                        let text = literal(r);
                        if crate::text::eq_str(&text, "line") {
                            Some(RequestedChart::Line)
                        } else if crate::text::eq_str(&text, "contour") {
                            Some(RequestedChart::Contour)
                        } else if crate::text::eq_str(&text, "heatmap") {
                            Some(RequestedChart::Heatmap)
                        } else if crate::text::eq_str(&text, "image") {
                            Some(RequestedChart::Image)
                        } else {
                            None
                        }
                    },
                    None => None,
                };
                match named {
                    Some(chart) => chart,
                    None => if capabilities.contains(FieldCapability::ColoredRaster2d) {
                        RequestedChart::Image
                    } else if capabilities.contains(FieldCapability::ScalarGrid2dRegular) {
                        RequestedChart::Heatmap
                    } else {
                        RequestedChart::Line
                    },
                }
            },
        }
    };
    let grid = capabilities.contains(FieldCapability::ScalarGrid2dRegular);
    let colored = capabilities.contains(FieldCapability::ColoredRaster2d);
    if chart == RequestedChart::Contour && grid {
        EncodingKind::Contour
    } else if chart == RequestedChart::Heatmap && grid {
        EncodingKind::Heatmap
    } else if chart == RequestedChart::Image && colored {
        EncodingKind::Image
    } else if chart == RequestedChart::Line && capabilities.contains(FieldCapability::Curve1d) {
        EncodingKind::Line
    } else if colored {
        EncodingKind::Image
    } else if grid {
        EncodingKind::Heatmap
    } else {
        EncodingKind::Line
    }
}

/// A series always gets an encoding its field can carry: a contour or
/// heatmap only on a regular grid, an image only on a colored raster.
pub proof fn lemma_default_encoding_fits_the_field(chart: RequestedChart, caps: Seq<FieldCapability>)
    ensures
        encoding_for(chart, caps) == EncodingKind::Contour ==> caps.contains(FieldCapability::ScalarGrid2dRegular),
        encoding_for(chart, caps) == EncodingKind::Heatmap ==> caps.contains(FieldCapability::ScalarGrid2dRegular),
        encoding_for(chart, caps) == EncodingKind::Image ==> caps.contains(FieldCapability::ColoredRaster2d),
{
}


/// The name a panel shows in the layers tree: its label, two spaces and its
/// name while the label is visible and not empty, its name alone otherwise.
pub fn panel_tree_name(label: &str, label_visible: bool, name: &str) -> (r: String)
    ensures
        r@ == if label_visible && label@.len() > 0 {
            label@ + "  "@ + name@
        } else {
            name@
        },
{
    if label_visible && label.unicode_len() > 0 {
        String::from_str(label).concat("  ").concat(name)
    } else {
        String::from_str(name)
    }
}

/// The rows of the layers tree's free objects: the canvas's objects from the
/// top of the stack (the last drawn) down, leaving out those inside a panel.
/// `in_panel[i]` says whether object `i` belongs to a panel.
pub fn free_object_rows(in_panel: &Vec<bool>) -> (rows: Vec<usize>)
    ensures
        rows@ == Seq::new(in_panel@.len(), |k: int| (in_panel@.len() - 1 - k) as usize).filter(
            |i: usize| !in_panel@[i as int],
        ),
{
    let n = in_panel.len();
    let ghost order = Seq::new(in_panel@.len(), |k: int| (in_panel@.len() - 1 - k) as usize);
    let ghost keep = |i: usize| !in_panel@[i as int];
    let mut rows: Vec<usize> = Vec::new();
    let mut row: usize = 0;
    while row < n
        invariant
            n == in_panel@.len(),
            row <= n,
            order == Seq::new(in_panel@.len(), |k: int| (in_panel@.len() - 1 - k) as usize),
            keep == (|i: usize| !in_panel@[i as int]),
            rows@ == order.subrange(0, row as int).filter(keep),
        decreases n - row,
    {
        let index = n - 1 - row;
        proof {
            let upto = order.subrange(0, row as int + 1);
            assert(upto.drop_last() =~= order.subrange(0, row as int));
            assert(upto.last() == index);
            reveal(Seq::filter);
        }
        if !in_panel[index] {
            rows.push(index);
        }
        row = row + 1;
    }
    assert(order.subrange(0, n as int) =~= order);
    rows
}


/// Arm a Reference pick for `step` of `dataset`, or disarm it when that very
/// pick is already armed.
pub fn toggle_reference_pick(pick: &mut Option<ReferencePick>, dataset: DatasetId, step: StepId)
    ensures
        *final(pick) == if *old(pick) == Some(ReferencePick { dataset, step }) {
            None
        } else {
            Some(ReferencePick { dataset, step })
        },
{
    let same = match *pick {
        Some(armed) => armed.dataset.0 == dataset.0 && armed.step.0 == step.0,
        None => false,
    };
    if same {
        *pick = None;
    } else {
        *pick = Some(ReferencePick { dataset, step });
    }
}

/// A Reference step of the document: the dataset that holds it, its
/// identity, and the axis whose pipeline owns it.
#[derive(Clone, Copy, Debug, PartialEq, Eq, Structural)]
pub struct ReferenceStep {
    pub dataset: DatasetId,
    pub step: StepId,
    pub axis: PhaseAxis,
}

/// The position of the first dataset with identity `id`.
pub open spec fn dataset_position(datasets: Seq<DatasetId>, id: DatasetId, i: int) -> bool {
    &&& 0 <= i < datasets.len()
    &&& datasets[i] == id
    &&& forall|j: int| 0 <= j < i ==> datasets[j] != id
}

/// The first Reference step entry for `step` of `dataset`.
pub open spec fn reference_entry(steps: Seq<ReferenceStep>, dataset: DatasetId, step: StepId, k: int) -> bool {
    &&& 0 <= k < steps.len()
    &&& steps[k].dataset == dataset && steps[k].step == step
    &&& forall|j: int| 0 <= j < k ==> !(steps[j].dataset == dataset && steps[j].step == step)
}

/// The armed pick resolved against the document: it resolves exactly while
/// the step editor that armed it is expanded, its dataset is present and its
/// step is a Reference step; then it carries the dataset's position and the
/// step's axis.
pub open spec fn spec_resolve_reference_pick(
    pick: Option<ReferencePick>,
    expanded: Option<(DatasetId, StepId)>,
    datasets: Seq<DatasetId>,
    steps: Seq<ReferenceStep>,
) -> Option<ResolvedReferencePick> {
    match pick {
        None => None,
        Some(p) => if expanded == Some((p.dataset, p.step)) && (exists|i: int|
            dataset_position(datasets, p.dataset, i)) && (exists|k: int|
            reference_entry(steps, p.dataset, p.step, k)) {
            let i = choose|i: int| dataset_position(datasets, p.dataset, i);
            let k = choose|k: int| reference_entry(steps, p.dataset, p.step, k);
            Some(ResolvedReferencePick { pick: p, dataset_index: i as usize, axis: steps[k].axis })
        } else {
            None
        },
    }
}

/// Resolve the armed pick (see `spec_resolve_reference_pick`). `datasets`
/// lists the document's datasets in order and `steps` its Reference steps.
pub fn resolve_reference_pick(
    pick: Option<ReferencePick>,
    expanded: Option<(DatasetId, StepId)>,
    datasets: &Vec<DatasetId>,
    steps: &Vec<ReferenceStep>,
) -> (r: Option<ResolvedReferencePick>)
    ensures
        r == spec_resolve_reference_pick(pick, expanded, datasets@, steps@),
{
    let p = match pick {
        Some(p) => p,
        None => return None,
    };
    let open = match expanded {
        Some((dataset, step)) => dataset.0 == p.dataset.0 && step.0 == p.step.0,
        None => false,
    };
    if !open {
        return None;
    }
    let mut i: usize = 0;
    while i < datasets.len() && datasets[i].0 != p.dataset.0
        invariant
            i <= datasets@.len(),
            forall|j: int| 0 <= j < i ==> datasets@[j] != p.dataset,
        decreases datasets.len() - i,
    {
        i = i + 1;
    }
    if i == datasets.len() {
        proof {
            assert forall|x: int| !dataset_position(datasets@, p.dataset, x) by {
                if 0 <= x < datasets@.len() {
                    assert(datasets@[x] != p.dataset);
                }
            }
        }
        return None;
    }
    assert(dataset_position(datasets@, p.dataset, i as int));
    let mut k: usize = 0;
    while k < steps.len() && !(steps[k].dataset.0 == p.dataset.0 && steps[k].step.0 == p.step.0)
        invariant
            k <= steps@.len(),
            forall|j: int| 0 <= j < k ==> !(steps@[j].dataset == p.dataset && steps@[j].step == p.step),
        decreases steps.len() - k,
    {
        k = k + 1;
    }
    if k == steps.len() {
        proof {
            assert forall|x: int| !reference_entry(steps@, p.dataset, p.step, x) by {
                if 0 <= x < steps@.len() {
                    assert(!(steps@[x].dataset == p.dataset && steps@[x].step == p.step));
                }
            }
        }
        return None;
    }
    assert(reference_entry(steps@, p.dataset, p.step, k as int));
    proof {
        let ci = choose|x: int| dataset_position(datasets@, p.dataset, x);
        if ci < i {
            assert(datasets@[ci] != p.dataset);
        } else if ci > i {
            assert(datasets@[i as int] != p.dataset);
        }
        let ck = choose|x: int| reference_entry(steps@, p.dataset, p.step, x);
        if ck < k {
            assert(!(steps@[ck].dataset == p.dataset && steps@[ck].step == p.step));
        } else if ck > k {
            assert(!(steps@[k as int].dataset == p.dataset && steps@[k as int].step == p.step));
        }
    }
    Some(ResolvedReferencePick { pick: p, dataset_index: i, axis: steps[k].axis })
}

/// Drop an armed pick that no longer resolves.
pub fn sync_reference_pick(
    pick: &mut Option<ReferencePick>,
    expanded: Option<(DatasetId, StepId)>,
    datasets: &Vec<DatasetId>,
    steps: &Vec<ReferenceStep>,
)
    ensures
        *final(pick) == if spec_resolve_reference_pick(*old(pick), expanded, datasets@, steps@) is Some {
            *old(pick)
        } else {
            None
        },
{
    if resolve_reference_pick(*pick, expanded, datasets, steps).is_none() {
        *pick = None;
    }
}

/// A pick is valid exactly while the editor that armed it stays expanded: it
/// resolves only then, and once synchronized an armed pick always resolves.
pub proof fn lemma_pick_lives_with_its_editor(
    pick: Option<ReferencePick>,
    expanded: Option<(DatasetId, StepId)>,
    datasets: Seq<DatasetId>,
    steps: Seq<ReferenceStep>,
)
    ensures
        spec_resolve_reference_pick(pick, expanded, datasets, steps) matches Some(r) ==> pick
            == Some(r.pick) && expanded == Some((r.pick.dataset, r.pick.step)),
        ({
            let synced = if spec_resolve_reference_pick(pick, expanded, datasets, steps) is Some {
                pick
            } else {
                None
            };
            synced is Some ==> spec_resolve_reference_pick(synced, expanded, datasets, steps) is Some
        }),
{
}


/// What the requested chart, the profile preference and the recommendation
/// each decide: an explicit request is drawn as requested whatever else is
/// given; an `Auto` request with a profile preference is drawn exactly as an
/// explicit request for that preference, whatever the field recommends; the
/// recommendation counts only when there is no preference.
pub proof fn lemma_preference_outranks_recommendation(
    requested: RequestedChart,
    preferred: Option<RequestedChart>,
    recommended: Option<Seq<char>>,
    other_recommended: Option<Seq<char>>,
    other_preferred: Option<RequestedChart>,
    caps: Seq<FieldCapability>,
)
    ensures
        requested != RequestedChart::Auto ==> resolved_chart(requested, preferred, recommended, caps)
            == requested,
        preferred matches Some(p) ==> resolved_chart(RequestedChart::Auto, preferred, recommended, caps)
            == p,
        preferred matches Some(p) ==> (p != RequestedChart::Auto ==> encoding_for(
            resolved_chart(RequestedChart::Auto, preferred, recommended, caps),
            caps,
        ) == encoding_for(resolved_chart(p, other_preferred, other_recommended, caps), caps)),
        preferred is Some ==> resolved_chart(RequestedChart::Auto, preferred, recommended, caps)
            == resolved_chart(RequestedChart::Auto, preferred, other_recommended, caps),
{
}

} // verus!
