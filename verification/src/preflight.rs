//! The rules a cut is checked against before anything is encoded, over what they read of each
//! pass: which shapes it holds, how many points each polyline has, and whether a shape has a
//! coordinate that is not finite or that falls off the machine's bed.
use vstd::prelude::*;
use crate::document::NodeId;
use crate::text::{chars_equal, chars_of, push_dec};
use crate::presets::PresetSettings;
use crate::transport::{MachineCaps, Settings};

verus! {

/// One bound pair, in the units the operator types.
#[derive(Clone, Copy, Debug, PartialEq, Eq, Structural)]
pub struct SettingRange {
    pub min: u32,
    pub max: u32,
}

impl SettingRange {
    /// Whether `value` lies within the bounds, both included.
    pub fn admits(&self, value: u32) -> (r: bool)
        ensures
            r == (self.min <= value && value <= self.max),
    {
        value >= self.min && value <= self.max
    }
}

/// Every bound a `Settings` value is refused against.
#[derive(Clone, Copy, Debug, PartialEq, Eq, Structural)]
pub struct SettingsRanges {
    pub speed: SettingRange,
    pub force: SettingRange,
    pub repeat_count: SettingRange,
}

/// The bounds: speed 1 to 30, force 1 to 33, one to ten repetitions.
pub open spec fn settings_ranges_spec() -> SettingsRanges {
    SettingsRanges {
        speed: SettingRange { min: 1, max: 30 },
        force: SettingRange { min: 1, max: 33 },
        repeat_count: SettingRange { min: 1, max: 10 },
    }
}

/// The bounds every setting is refused against, for a caller that offers them to an operator.
pub fn settings_ranges() -> (r: SettingsRanges)
    ensures
        r == settings_ranges_spec(),
{
    SettingsRanges {
        speed: SettingRange { min: 1, max: 30 },
        force: SettingRange { min: 1, max: 33 },
        repeat_count: SettingRange { min: 1, max: 10 },
    }
}

/// The size estimate's weight: sixteen bytes a point.
pub const BYTES_PER_POINT: usize = 16;

/// The ceiling the size estimate is refused against: 64 MiB.
pub const MAX_ENCODED_BYTES: usize = 67108864;

/// Whether a value is outside a range.
pub open spec fn outside(r: SettingRange, v: u32) -> bool {
    !(r.min <= v && v <= r.max)
}

/// The refusal for the first setting out of range, in the order repeat count, speed, force; a
/// value given as `None` is not judged.
pub open spec fn range_refusal(speed: Option<u32>, force: Option<u32>, repeat_count: u32) -> Option<
    Seq<char>,
> {
    if outside(settings_ranges_spec().repeat_count, repeat_count) {
        Some("repeat_count must be 1..=10"@)
    } else if speed matches Some(v) && outside(settings_ranges_spec().speed, v) {
        Some("speed must be 1..=30"@)
    } else if force matches Some(v) && outside(settings_ranges_spec().force, v) {
        Some("force must be 1..=33"@)
    } else {
        None
    }
}

/// An optional text by its characters.
pub open spec fn opt_text(m: Option<&'static str>) -> Option<Seq<char>> {
    match m {
        Some(s) => Some(s@),
        None => None,
    }
}

fn out_of_range(speed: Option<u32>, force: Option<u32>, repeat_count: u32) -> (r: Option<
    &'static str,
>)
    ensures
        opt_text(r) == range_refusal(speed, force, repeat_count),
{
    let ranges = settings_ranges();
    if !ranges.repeat_count.admits(repeat_count) {
        return Some("repeat_count must be 1..=10");
    }
    match speed {
        Some(v) => if !ranges.speed.admits(v) {
            return Some("speed must be 1..=30");
        },
        None => {},
    }
    match force {
        Some(v) => if !ranges.force.admits(v) {
            return Some("force must be 1..=33");
        },
        None => {},
    }
    None
}

/// A value the machine honours, or nothing when it ignores that setting.
pub open spec fn honoured(v: Option<u32>, supported: bool) -> Option<u32> {
    if supported {
        v
    } else {
        None
    }
}

/// What a cut's settings are refused for: only the settings the machine honours are judged.
pub open spec fn settings_refusal(s: Settings, caps: MachineCaps) -> Option<Seq<char>> {
    range_refusal(
        honoured(s.speed, caps.supports_speed),
        honoured(s.force, caps.supports_force),
        s.repeat_count,
    )
}

/// The setting that is out of range and the sentence saying so, or `None`. A setting the
/// machine does not support is ignored rather than refused.
pub fn settings_out_of_range(s: &Settings, caps: &MachineCaps) -> (r: Option<&'static str>)
    ensures
        opt_text(r) == settings_refusal(*s, *caps),
        r is None <==> settings_in_range(*s, *caps),
{
    proof {
        lemma_settings_are_refused_exactly_when_out_of_range(*s, *caps);
    }
    let speed = if caps.supports_speed {
        s.speed
    } else {
        None
    };
    let force = if caps.supports_force {
        s.force
    } else {
        None
    };
    out_of_range(speed, force, s.repeat_count)
}

/// The same bounds with no machine to ask: a stored preset is checked whole.
pub fn preset_settings_out_of_range(s: &PresetSettings) -> (r: Option<&'static str>)
    ensures
        opt_text(r) == range_refusal(s.speed, s.force, s.repeat_count),
{
    out_of_range(s.speed, s.force, s.repeat_count)
}

// ---------------------------------------------------------------------------
// The cut as the rules read it
// ---------------------------------------------------------------------------

/// One shape of a pass as the rules read it: its node, the number of points in each of its
/// polylines, and whether any of its coordinates is not finite or falls off the machine's bed.
#[derive(Clone, Debug)]
pub struct ShapeFacts {
    pub node_id: NodeId,
    pub polyline_lens: Vec<usize>,
    pub non_finite: bool,
    pub out_of_bounds: bool,
}

/// `ShapeFacts` with its polyline lengths as a sequence.
pub struct ShapeFactsView {
    pub node_id: NodeId,
    pub polyline_lens: Seq<usize>,
    pub non_finite: bool,
    pub out_of_bounds: bool,
}

impl View for ShapeFacts {
    type V = ShapeFactsView;

    open spec fn view(&self) -> ShapeFactsView {
        ShapeFactsView {
            node_id: self.node_id,
            polyline_lens: self.polyline_lens@,
            non_finite: self.non_finite,
            out_of_bounds: self.out_of_bounds,
        }
    }
}

/// One pass of a cut as the rules read it: whether it is cut, its settings, and its shapes.
#[derive(Clone, Debug)]
pub struct PassFacts {
    pub enabled: bool,
    pub settings: Settings,
    pub shapes: Vec<ShapeFacts>,
}

/// `PassFacts` with its shapes as a sequence of views.
pub struct PassFactsView {
    pub enabled: bool,
    pub settings: Settings,
    pub shapes: Seq<ShapeFactsView>,
}

/// The shapes, each as its view.
pub open spec fn shapes_view(s: Seq<ShapeFacts>) -> Seq<ShapeFactsView> {
    s.map_values(|x: ShapeFacts| x@)
}

impl View for PassFacts {
    type V = PassFactsView;

    open spec fn view(&self) -> PassFactsView {
        PassFactsView {
            enabled: self.enabled,
            settings: self.settings,
            shapes: shapes_view(self.shapes@),
        }
    }
}

/// The passes, each as its view.
pub open spec fn passes_view(s: Seq<PassFacts>) -> Seq<PassFactsView> {
    s.map_values(|x: PassFacts| x@)
}

/// Every reason the rules refuse a cut. The node named is the first shape, in cut order, that
/// breaks the rule.
#[derive(Debug)]
pub enum PreflightRefusal {
    NothingToCut,
    NonFiniteGeometry(NodeId),
    DegeneratePolyline(NodeId),
    OutOfBounds(NodeId),
    SettingsOutOfRange(&'static str),
    MachineMismatch { document: String, device: String },
    OutputTooLarge(usize),
}

/// A `PreflightRefusal` with its text as characters.
pub enum PreflightRefusalView {
    NothingToCut,
    NonFiniteGeometry(NodeId),
    DegeneratePolyline(NodeId),
    OutOfBounds(NodeId),
    SettingsOutOfRange(Seq<char>),
    MachineMismatch { document: Seq<char>, device: Seq<char> },
    OutputTooLarge(usize),
}

impl View for PreflightRefusal {
    type V = PreflightRefusalView;

    open spec fn view(&self) -> PreflightRefusalView {
        match self {
            PreflightRefusal::NothingToCut => PreflightRefusalView::NothingToCut,
            PreflightRefusal::NonFiniteGeometry(n) => PreflightRefusalView::NonFiniteGeometry(*n),
            PreflightRefusal::DegeneratePolyline(n) => PreflightRefusalView::DegeneratePolyline(*n),
            PreflightRefusal::OutOfBounds(n) => PreflightRefusalView::OutOfBounds(*n),
            PreflightRefusal::SettingsOutOfRange(m) => PreflightRefusalView::SettingsOutOfRange(m@),
            PreflightRefusal::MachineMismatch { document, device } =>
                PreflightRefusalView::MachineMismatch { document: document@, device: device@ },
            PreflightRefusal::OutputTooLarge(b) => PreflightRefusalView::OutputTooLarge(*b),
        }
    }
}

/// The shapes that are cut, in cut order: those of every enabled pass, pass after pass.
pub open spec fn cut_shapes(passes: Seq<PassFactsView>) -> Seq<ShapeFactsView>
    decreases passes.len(),
{
    if passes.len() == 0 {
        seq![]
    } else {
        let rest = cut_shapes(passes.drop_last());
        if passes.last().enabled {
            rest + passes.last().shapes
        } else {
            rest
        }
    }
}

/// Whether a shape has a polyline of fewer than two points.
pub open spec fn has_short_polyline(s: ShapeFactsView) -> bool {
    exists|k: int| 0 <= k < s.polyline_lens.len() && #[trigger] s.polyline_lens[k] < 2
}

/// The rules that are broken by one shape, in the order they are checked.
pub enum ShapeRule {
    NonFinite,
    Degenerate,
    OffTheBed,
}

/// Whether a shape breaks a rule.
pub open spec fn breaks(rule: ShapeRule) -> spec_fn(ShapeFactsView) -> bool {
    |s: ShapeFactsView|
        match rule {
            ShapeRule::NonFinite => s.non_finite,
            ShapeRule::Degenerate => has_short_polyline(s),
            ShapeRule::OffTheBed => s.out_of_bounds,
        }
}

/// The first shape in `shapes` that `p` holds of, by its node.
pub open spec fn first_shape(shapes: Seq<ShapeFactsView>, p: spec_fn(ShapeFactsView) -> bool) -> Option<
    NodeId,
>
    decreases shapes.len(),
{
    if shapes.len() == 0 {
        None
    } else {
        match first_shape(shapes.drop_last(), p) {
            Some(id) => Some(id),
            None => if p(shapes.last()) {
                Some(shapes.last().node_id)
            } else {
                None
            },
        }
    }
}

/// The refusal for the first enabled pass whose settings are out of range.
pub open spec fn first_settings_refusal(passes: Seq<PassFactsView>, caps: MachineCaps) -> Option<
    Seq<char>,
>
    decreases passes.len(),
{
    if passes.len() == 0 {
        None
    } else {
        match first_settings_refusal(passes.drop_last(), caps) {
            Some(m) => Some(m),
            None => if passes.last().enabled {
                settings_refusal(passes.last().settings, caps)
            } else {
                None
            },
        }
    }
}

/// The number of points in a list of polylines.
pub open spec fn total_points(lens: Seq<usize>) -> nat
    decreases lens.len(),
{
    if lens.len() == 0 {
        0
    } else {
        total_points(lens.drop_last()) + lens.last() as nat
    }
}

/// The number of points in a list of shapes.
pub open spec fn shapes_points(shapes: Seq<ShapeFactsView>) -> nat
    decreases shapes.len(),
{
    if shapes.len() == 0 {
        0
    } else {
        shapes_points(shapes.drop_last()) + total_points(shapes.last().polyline_lens)
    }
}

/// The estimated encoded size of the enabled passes: sixteen bytes a point, times each pass's
/// own repeat count.
pub open spec fn encoded_bytes(passes: Seq<PassFactsView>) -> nat
    decreases passes.len(),
{
    if passes.len() == 0 {
        0
    } else {
        encoded_bytes(passes.drop_last()) + if passes.last().enabled {
            shapes_points(passes.last().shapes) * (BYTES_PER_POINT as nat) * (
            passes.last().settings.repeat_count as nat)
        } else {
            0nat
        }
    }
}

/// A count as a `usize` holds it: saturated at the largest one.
pub open spec fn capped(x: int) -> int {
    if x > usize::MAX {
        usize::MAX as int
    } else {
        x
    }
}

/// What the rules decide, each checked in turn and the first broken one refusing: nothing to
/// cut; a coordinate that is not finite; a polyline of fewer than two points; a shape off the
/// bed (unless that is allowed); settings out of range; a document set up for another machine;
/// an estimated size over the ceiling.
pub open spec fn preflight_verdict(
    passes: Seq<PassFactsView>,
    caps: MachineCaps,
    document: Option<Seq<char>>,
    device: Seq<char>,
    allow_out_of_bounds: bool,
) -> Result<(), PreflightRefusalView> {
    let shapes = cut_shapes(passes);
    let estimate = capped(encoded_bytes(passes) as int);
    if shapes.len() == 0 {
        Err(PreflightRefusalView::NothingToCut)
    } else if first_shape(shapes, breaks(ShapeRule::NonFinite)) is Some {
        Err(PreflightRefusalView::NonFiniteGeometry(first_shape(shapes, breaks(ShapeRule::NonFinite))->0))
    } else if first_shape(shapes, breaks(ShapeRule::Degenerate)) is Some {
        Err(PreflightRefusalView::DegeneratePolyline(first_shape(shapes, breaks(ShapeRule::Degenerate))->0))
    } else if !allow_out_of_bounds && first_shape(shapes, breaks(ShapeRule::OffTheBed)) is Some {
        Err(PreflightRefusalView::OutOfBounds(first_shape(shapes, breaks(ShapeRule::OffTheBed))->0))
    } else if first_settings_refusal(passes, caps) is Some {
        Err(PreflightRefusalView::SettingsOutOfRange(first_settings_refusal(passes, caps)->0))
    } else if document matches Some(d) && d != device {
        Err(PreflightRefusalView::MachineMismatch { document: document->0, device })
    } else if estimate > MAX_ENCODED_BYTES {
        Err(PreflightRefusalView::OutputTooLarge(estimate as usize))
    } else {
        Ok(())
    }
}

fn shape_breaks(s: &ShapeFacts, rule: &ShapeRule) -> (r: bool)
    ensures
        r == (breaks(*rule))(s@),
{
    match rule {
        ShapeRule::NonFinite => s.non_finite,
        ShapeRule::OffTheBed => s.out_of_bounds,
        ShapeRule::Degenerate => {
            let mut k: usize = 0;
            while k < s.polyline_lens.len()
                invariant
                    k <= s.polyline_lens.len(),
                    *rule is Degenerate,
                    forall|j: int| 0 <= j < k ==> #[trigger] s.polyline_lens@[j] >= 2,
                decreases s.polyline_lens.len() - k,
            {
                if s.polyline_lens[k] < 2 {
                    assert(s@.polyline_lens[k as int] < 2);
                    return true;
                }
                k = k + 1;
            }
            false
        },
    }
}

fn first_breaking(passes: &Vec<PassFacts>, rule: &ShapeRule) -> (r: Option<NodeId>)
    ensures
        r == first_shape(cut_shapes(passes_view(passes@)), breaks(*rule)),
{
    let ghost pv = passes_view(passes@);
    let ghost p = breaks(*rule);
    let mut found: Option<NodeId> = None;
    let mut i: usize = 0;
    while i < passes.len()
        invariant
            i <= passes.len(),
            pv == passes_view(passes@),
            p == breaks(*rule),
            found == first_shape(cut_shapes(pv.take(i as int)), p),
        decreases passes.len() - i,
    {
        let pass = &passes[i];
        assert(pv.take(i + 1).drop_last() =~= pv.take(i as int));
        if pass.enabled {
            let ghost before = cut_shapes(pv.take(i as int));
            let ghost sv = pv[i as int].shapes;
            let mut j: usize = 0;
            while j < pass.shapes.len()
                invariant
                    j <= pass.shapes.len(),
                    sv == shapes_view(pass.shapes@),
                    p == breaks(*rule),
                    found == first_shape(before + sv.take(j as int), p),
                decreases pass.shapes.len() - j,
            {
                let s = &pass.shapes[j];
                assert((before + sv.take(j + 1)).drop_last() =~= before + sv.take(j as int));
                assert((before + sv.take(j + 1)).last() == s@);
                if found.is_none() && shape_breaks(s, rule) {
                    found = Some(s.node_id);
                }
                j = j + 1;
            }
            assert(sv.take(pass.shapes.len() as int) =~= sv);
        }
        i = i + 1;
    }
    assert(pv.take(passes.len() as int) =~= pv);
    found
}

fn first_out_of_range(passes: &Vec<PassFacts>, caps: &MachineCaps) -> (r: Option<&'static str>)
    ensures
        opt_text(r) == first_settings_refusal(passes_view(passes@), *caps),
{
    let ghost pv = passes_view(passes@);
    let mut found: Option<&'static str> = None;
    let mut i: usize = 0;
    while i < passes.len()
        invariant
            i <= passes.len(),
            pv == passes_view(passes@),
            opt_text(found) == first_settings_refusal(pv.take(i as int), *caps),
        decreases passes.len() - i,
    {
        let pass = &passes[i];
        assert(pv.take(i + 1).drop_last() =~= pv.take(i as int));
        if found.is_none() && pass.enabled {
            found = settings_out_of_range(&pass.settings, caps);
        }
        i = i + 1;
    }
    assert(pv.take(passes.len() as int) =~= pv);
    found
}

fn mul_capped(a: usize, b: usize) -> (r: usize)
    ensures
        r == capped(a * b),
{
    match a.checked_mul(b) {
        Some(v) => v,
        None => usize::MAX,
    }
}

proof fn lemma_capped_mul(x: int, k: int)
    requires
        x >= 0,
        k >= 0,
    ensures
        capped(capped(x) * k) == capped(x * k),
{
    if x > usize::MAX {
        if k > 0 {
            assert(x * k >= x) by (nonlinear_arith)
                requires
                    x >= 0,
                    k >= 1,
            ;
            assert(usize::MAX * k >= usize::MAX) by (nonlinear_arith)
                requires
                    k >= 1,
            ;
        }
    }
}

fn pass_points(pass: &PassFacts) -> (n: usize)
    ensures
        n == capped(shapes_points(pass@.shapes) as int),
{
    let ghost sv = pass@.shapes;
    let mut n: usize = 0;
    let mut j: usize = 0;
    while j < pass.shapes.len()
        invariant
            j <= pass.shapes.len(),
            sv == shapes_view(pass.shapes@),
            n == capped(shapes_points(sv.take(j as int)) as int),
        decreases pass.shapes.len() - j,
    {
        let s = &pass.shapes[j];
        assert(sv.take(j + 1).drop_last() =~= sv.take(j as int));
        let ghost lens = s.polyline_lens@;
        let mut k: usize = 0;
        while k < s.polyline_lens.len()
            invariant
                k <= s.polyline_lens.len(),
                lens == s.polyline_lens@,
                sv == shapes_view(pass.shapes@),
                j < pass.shapes.len(),
                s@ == sv[j as int],
                n == capped(shapes_points(sv.take(j as int)) + total_points(lens.take(k as int)) as int),
            decreases s.polyline_lens.len() - k,
        {
            assert(lens.take(k + 1).drop_last() =~= lens.take(k as int));
            n = n.saturating_add(s.polyline_lens[k]);
            k = k + 1;
        }
        assert(lens.take(s.polyline_lens.len() as int) =~= lens);
        j = j + 1;
    }
    assert(sv.take(pass.shapes.len() as int) =~= sv);
    n
}

fn estimated_size(passes: &Vec<PassFacts>) -> (n: usize)
    ensures
        n == capped(encoded_bytes(passes_view(passes@)) as int),
{
    let ghost pv = passes_view(passes@);
    let mut n: usize = 0;
    let mut i: usize = 0;
    while i < passes.len()
        invariant
            i <= passes.len(),
            pv == passes_view(passes@),
            n == capped(encoded_bytes(pv.take(i as int)) as int),
        decreases passes.len() - i,
    {
        let pass = &passes[i];
        assert(pv.take(i + 1).drop_last() =~= pv.take(i as int));
        if pass.enabled {
            let points = pass_points(pass);
            let per_copy = mul_capped(points, BYTES_PER_POINT);
            let bytes = mul_capped(per_copy, pass.settings.repeat_count as usize);
            proof {
                let x = shapes_points(pass@.shapes) as int;
                lemma_capped_mul(x, BYTES_PER_POINT as int);
                lemma_capped_mul(x * BYTES_PER_POINT, pass.settings.repeat_count as int);
                assert(x * BYTES_PER_POINT >= 0) by (nonlinear_arith)
                    requires
                        x >= 0,
                ;
                assert(bytes == capped(x * BYTES_PER_POINT * pass.settings.repeat_count));
                assert(x * BYTES_PER_POINT * pass.settings.repeat_count >= 0) by (nonlinear_arith)
                    requires
                        x >= 0,
                ;
            }
            n = n.saturating_add(bytes);
        }
        i = i + 1;
    }
    assert(pv.take(passes.len() as int) =~= pv);
    n
}

/// Checks a cut against the rules, in order; the first broken rule refuses it. `device_id` is
/// the id of the machine the cut is for, and `document_machine_id` the machine the document
/// names, if it names one.
pub fn preflight(
    passes: &Vec<PassFacts>,
    caps: &MachineCaps,
    document_machine_id: Option<&str>,
    device_id: &str,
    allow_out_of_bounds: bool,
) -> (r: Result<(), PreflightRefusal>)
    ensures
        ({
            let verdict = preflight_verdict(
                passes_view(passes@),
                *caps,
                match document_machine_id {
                    Some(d) => Some(d@),
                    None => None,
                },
                device_id@,
                allow_out_of_bounds,
            );
            match r {
                Ok(()) => verdict == Ok::<(), PreflightRefusalView>(()),
                Err(e) => verdict == Err::<(), PreflightRefusalView>(e@),
            }
        }),
{
    let ghost pv = passes_view(passes@);
    let mut any = false;
    let mut i: usize = 0;
    while i < passes.len()
        invariant
            i <= passes.len(),
            pv == passes_view(passes@),
            any == (cut_shapes(pv.take(i as int)).len() > 0),
        decreases passes.len() - i,
    {
        assert(pv.take(i + 1).drop_last() =~= pv.take(i as int));
        if passes[i].enabled && passes[i].shapes.len() > 0 {
            any = true;
        }
        i = i + 1;
    }
    assert(pv.take(passes.len() as int) =~= pv);
    if !any {
        return Err(PreflightRefusal::NothingToCut);
    }
    match first_breaking(passes, &ShapeRule::NonFinite) {
        Some(id) => {
            return Err(PreflightRefusal::NonFiniteGeometry(id));
        },
        None => {},
    }
    match first_breaking(passes, &ShapeRule::Degenerate) {
        Some(id) => {
            return Err(PreflightRefusal::DegeneratePolyline(id));
        },
        None => {},
    }
    if !allow_out_of_bounds {
        match first_breaking(passes, &ShapeRule::OffTheBed) {
            Some(id) => {
                return Err(PreflightRefusal::OutOfBounds(id));
            },
            None => {},
        }
    }
    match first_out_of_range(passes, caps) {
        Some(m) => {
            return Err(PreflightRefusal::SettingsOutOfRange(m));
        },
        None => {},
    }
    match document_machine_id {
        Some(d) => {
            if !chars_equal(&chars_of(d), &chars_of(device_id)) {
                return Err(
                    PreflightRefusal::MachineMismatch {
                        document: String::from_str(d),
                        device: String::from_str(device_id),
                    },
                );
            }
        },
        None => {},
    }
    let estimate = estimated_size(passes);
    if estimate > MAX_ENCODED_BYTES {
        return Err(PreflightRefusal::OutputTooLarge(estimate));
    }
    Ok(())
}

// ---------------------------------------------------------------------------
// Refusals in words
// ---------------------------------------------------------------------------

/// Whole mebibytes in `bytes`, rounded up, so a size just over a limit never reads as at it.
pub open spec fn megabytes_up(bytes: nat) -> nat {
    (bytes + 1048575) / 1048576
}

/// The size in whole mebibytes, rounded up.
pub fn encoded_megabytes(bytes: usize) -> (mb: usize)
    ensures
        mb == megabytes_up(bytes as nat),
{
    let whole = bytes / 1048576;
    if bytes % 1048576 == 0 {
        whole
    } else {
        whole + 1
    }
}

/// The stable identifier of each refusal.
pub open spec fn refusal_code(e: PreflightRefusalView) -> Seq<char> {
    match e {
        PreflightRefusalView::NothingToCut => "nothing_to_cut"@,
        PreflightRefusalView::NonFiniteGeometry(_) => "non_finite_geometry"@,
        PreflightRefusalView::DegeneratePolyline(_) => "degenerate_polyline"@,
        PreflightRefusalView::OutOfBounds(_) => "out_of_bounds"@,
        PreflightRefusalView::SettingsOutOfRange(_) => "settings_out_of_range"@,
        PreflightRefusalView::MachineMismatch { .. } => "machine_mismatch"@,
        PreflightRefusalView::OutputTooLarge(_) => "output_too_large"@,
    }
}

/// What an operator reads for each refusal; `bed` is the machine's cutting area as the operator
/// reads it, width by height in millimetres.
pub open spec fn refusal_message(e: PreflightRefusalView, bed: Seq<char>) -> Seq<char> {
    match e {
        PreflightRefusalView::NothingToCut => "no pass selected for this cut has any geometry"@,
        PreflightRefusalView::NonFiniteGeometry(n) => "shape #"@ + crate::text::dec(n.0 as nat)
            + " has a coordinate that is not a finite number"@,
        PreflightRefusalView::DegeneratePolyline(n) => "shape #"@ + crate::text::dec(n.0 as nat)
            + " has a path with fewer than two points"@,
        PreflightRefusalView::OutOfBounds(n) => "shape #"@ + crate::text::dec(n.0 as nat)
            + " lies outside the "@ + bed + " mm cutting area"@,
        PreflightRefusalView::SettingsOutOfRange(m) => m,
        PreflightRefusalView::MachineMismatch { document, device } => "this document is set up for `"@
            + document + "`, but the connected machine is `"@ + device + "`"@,
        PreflightRefusalView::OutputTooLarge(b) => "the encoded cut is about "@ + crate::text::dec(
            megabytes_up(b as nat),
        ) + " MB, over the "@ + crate::text::dec(MAX_ENCODED_BYTES as nat / 1048576) + " MB limit"@,
    }
}

impl PreflightRefusal {
    /// The stable identifier a caller branches on instead of matching the sentence.
    pub fn code(&self) -> (r: &'static str)
        ensures
            r@ == refusal_code(self@),
    {
        match self {
            PreflightRefusal::NothingToCut => "nothing_to_cut",
            PreflightRefusal::NonFiniteGeometry(_) => "non_finite_geometry",
            PreflightRefusal::DegeneratePolyline(_) => "degenerate_polyline",
            PreflightRefusal::OutOfBounds(_) => "out_of_bounds",
            PreflightRefusal::SettingsOutOfRange(_) => "settings_out_of_range",
            PreflightRefusal::MachineMismatch { .. } => "machine_mismatch",
            PreflightRefusal::OutputTooLarge(_) => "output_too_large",
        }
    }

    /// The refusal in the words an operator reads; `bed` is the cutting area, as in
    /// `304.8 x 304.8`.
    pub fn message(&self, bed: &str) -> (r: String)
        ensures
            r@ == refusal_message(self@, bed@),
    {
        match self {
            PreflightRefusal::NothingToCut => String::from_str(
                "no pass selected for this cut has any geometry",
            ),
            PreflightRefusal::NonFiniteGeometry(n) => {
                let mut r = String::from_str("shape #");
                push_dec(&mut r, n.0);
                r.append(" has a coordinate that is not a finite number");
                r
            },
            PreflightRefusal::DegeneratePolyline(n) => {
                let mut r = String::from_str("shape #");
                push_dec(&mut r, n.0);
                r.append(" has a path with fewer than two points");
                r
            },
            PreflightRefusal::OutOfBounds(n) => {
                let mut r = String::from_str("shape #");
                push_dec(&mut r, n.0);
                r.append(" lies outside the ");
                r.append(bed);
                r.append(" mm cutting area");
                r
            },
            PreflightRefusal::SettingsOutOfRange(m) => String::from_str(m),
            PreflightRefusal::MachineMismatch { document, device } => {
                let mut r = String::from_str("this document is set up for `");
                r.append(document.as_str());
                r.append("`, but the connected machine is `");
                r.append(device.as_str());
                r.append("`");
                r
            },
            PreflightRefusal::OutputTooLarge(b) => {
                let mut r = String::from_str("the encoded cut is about ");
                push_dec(&mut r, encoded_megabytes(*b) as u64);
                r.append(" MB, over the ");
                push_dec(&mut r, (MAX_ENCODED_BYTES / 1048576) as u64);
                r.append(" MB limit");
                r
            },
        }
    }
}

// ---------------------------------------------------------------------------
// What the rules promise
// ---------------------------------------------------------------------------

/// A range as the operator reads it: `min..=max`.
pub open spec fn bound_text(r: SettingRange) -> Seq<char> {
    crate::text::dec(r.min as nat) + "..="@ + crate::text::dec(r.max as nat)
}

/// Each range refusal names the setting it judged and states the very bounds it enforced, so
/// an operator who types a number inside the stated range is not refused again.
pub proof fn lemma_each_range_refusal_names_its_bounds(
    speed: Option<u32>,
    force: Option<u32>,
    repeat_count: u32,
)
    ensures
        range_refusal(speed, force, repeat_count) matches Some(m) ==> {
            let r = settings_ranges_spec();
            ||| m == "repeat_count must be "@ + bound_text(r.repeat_count) && outside(
                r.repeat_count,
                repeat_count,
            )
            ||| m == "speed must be "@ + bound_text(r.speed) && (speed matches Some(v) && outside(
                r.speed,
                v,
            ))
            ||| m == "force must be "@ + bound_text(r.force) && (force matches Some(v) && outside(
                r.force,
                v,
            ))
        },
{
    reveal_strlit("repeat_count must be 1..=10");
    reveal_strlit("speed must be 1..=30");
    reveal_strlit("force must be 1..=33");
    reveal_strlit("repeat_count must be ");
    reveal_strlit("speed must be ");
    reveal_strlit("force must be ");
    reveal_strlit("..=");
    reveal_with_fuel(crate::text::dec, 2);
    let r = settings_ranges_spec();
    assert("repeat_count must be 1..=10"@ =~= "repeat_count must be "@ + bound_text(r.repeat_count));
    assert("speed must be 1..=30"@ =~= "speed must be "@ + bound_text(r.speed));
    assert("force must be 1..=33"@ =~= "force must be "@ + bound_text(r.force));
}

/// Every builtin preset is inside the ranges a stored preset is checked against.
pub proof fn lemma_builtin_presets_are_in_range(i: int)
    requires
        0 <= i < crate::presets::builtin_table().len(),
    ensures
        ({
            let s = crate::presets::builtin_table()[i].settings;
            range_refusal(s.speed, s.force, s.repeat_count) is None
        }),
{
}

/// The enabled passes of a cut.
pub open spec fn enabled_only(passes: Seq<PassFactsView>) -> Seq<PassFactsView> {
    passes.filter(|p: PassFactsView| p.enabled)
}

proof fn lemma_disabled_passes_add_nothing(passes: Seq<PassFactsView>, caps: MachineCaps)
    ensures
        cut_shapes(enabled_only(passes)) == cut_shapes(passes),
        first_settings_refusal(enabled_only(passes), caps) == first_settings_refusal(passes, caps),
        encoded_bytes(enabled_only(passes)) == encoded_bytes(passes),
    decreases passes.len(),
{
    reveal(Seq::filter);
    if passes.len() > 0 {
        lemma_disabled_passes_add_nothing(passes.drop_last(), caps);
        let f = enabled_only(passes);
        if passes.last().enabled {
            assert(f.drop_last() =~= enabled_only(passes.drop_last()));
        } else {
            assert(f =~= enabled_only(passes.drop_last()));
        }
    }
}

/// A pass that is not enabled is not judged by any rule: the verdict on a cut is the verdict on
/// its enabled passes alone, whatever the others hold.
pub proof fn lemma_disabled_passes_are_not_judged(
    passes: Seq<PassFactsView>,
    caps: MachineCaps,
    document: Option<Seq<char>>,
    device: Seq<char>,
    allow_out_of_bounds: bool,
)
    ensures
        preflight_verdict(enabled_only(passes), caps, document, device, allow_out_of_bounds)
            == preflight_verdict(passes, caps, document, device, allow_out_of_bounds),
{
    lemma_disabled_passes_add_nothing(passes, caps);
}

/// A cut allowed off the bed is never refused for being off it.
pub proof fn lemma_allowing_off_bed_never_refuses_it(
    passes: Seq<PassFactsView>,
    caps: MachineCaps,
    document: Option<Seq<char>>,
    device: Seq<char>,
)
    ensures
        !(preflight_verdict(passes, caps, document, device, true) matches Err(
            PreflightRefusalView::OutOfBounds(_),
        )),
{
}

/// Settings within every bound the machine judges: one to ten repetitions; a speed of 1 to 30
/// where the machine takes a speed and one is set; a force of 1 to 33 where the machine takes a
/// force and one is set.
pub open spec fn settings_in_range(s: Settings, caps: MachineCaps) -> bool {
    &&& 1 <= s.repeat_count <= 10
    &&& (caps.supports_speed && s.speed is Some ==> 1 <= s.speed->0 <= 30)
    &&& (caps.supports_force && s.force is Some ==> 1 <= s.force->0 <= 33)
}

/// Settings are refused exactly when a value the machine judges is out of its bounds, each
/// judged on its own whatever the others are, and the refusal names the first such value in the
/// order repeat count, speed, force.
pub proof fn lemma_settings_are_refused_exactly_when_out_of_range(s: Settings, caps: MachineCaps)
    ensures
        settings_refusal(s, caps) is None <==> settings_in_range(s, caps),
        !(1 <= s.repeat_count <= 10) ==> settings_refusal(s, caps) == Some("repeat_count must be 1..=10"@),
        1 <= s.repeat_count <= 10 && caps.supports_speed && s.speed is Some && !(1 <= s.speed->0 <= 30)
            ==> settings_refusal(s, caps) == Some("speed must be 1..=30"@),
        1 <= s.repeat_count <= 10 && !(caps.supports_speed && s.speed is Some && !(1 <= s.speed->0 <= 30))
            && caps.supports_force && s.force is Some && !(1 <= s.force->0 <= 33) ==> settings_refusal(s, caps)
            == Some("force must be 1..=33"@),
{
}

/// A stored preset's settings are refused exactly when one of its set values is out of its
/// bounds: one to ten repetitions, a speed of 1 to 30, a force of 1 to 33.
pub proof fn lemma_a_preset_is_refused_exactly_when_out_of_range(s: PresetSettings)
    ensures
        range_refusal(s.speed, s.force, s.repeat_count) is None <==> (1 <= s.repeat_count <= 10 && (s.speed is Some
            ==> 1 <= s.speed->0 <= 30) && (s.force is Some ==> 1 <= s.force->0 <= 33)),
{
}

/// The cut's passes are refused for their settings exactly when an enabled pass has settings out
/// of range, and the refusal is that of the first such pass.
pub proof fn lemma_the_first_pass_out_of_range_is_refused(passes: Seq<PassFactsView>, caps: MachineCaps)
    ensures
        first_settings_refusal(passes, caps) is None <==> forall|i: int|
            0 <= i < passes.len() && #[trigger] passes[i].enabled ==> settings_in_range(passes[i].settings, caps),
        first_settings_refusal(passes, caps) is Some ==> exists|i: int|
            0 <= i < passes.len() && #[trigger] passes[i].enabled && !settings_in_range(passes[i].settings, caps)
                && first_settings_refusal(passes, caps) == settings_refusal(passes[i].settings, caps) && forall|
                j: int,
            | 0 <= j < i && #[trigger] passes[j].enabled ==> settings_in_range(passes[j].settings, caps),
    decreases passes.len(),
{
    if passes.len() > 0 {
        let prev = passes.drop_last();
        lemma_the_first_pass_out_of_range_is_refused(prev, caps);
        let last = passes.len() - 1;
        lemma_settings_are_refused_exactly_when_out_of_range(passes[last].settings, caps);
        assert forall|i: int| 0 <= i < prev.len() implies prev[i] == passes[i] by {}
        if first_settings_refusal(prev, caps) is Some {
            let i = choose|i: int|
                0 <= i < prev.len() && #[trigger] prev[i].enabled && !settings_in_range(prev[i].settings, caps)
                    && first_settings_refusal(prev, caps) == settings_refusal(prev[i].settings, caps) && forall|
                    j: int,
                | 0 <= j < i && #[trigger] prev[j].enabled ==> settings_in_range(prev[j].settings, caps);
            assert(passes[i] == prev[i]);
            assert forall|j: int| 0 <= j < i && #[trigger] passes[j].enabled implies settings_in_range(
                passes[j].settings,
                caps,
            ) by {
                assert(passes[j] == prev[j]);
            }
        } else {
            assert forall|j: int| 0 <= j < last && #[trigger] passes[j].enabled implies settings_in_range(
                passes[j].settings,
                caps,
            ) by {
                assert(passes[j] == prev[j]);
            }
        }
    }
}

/// A cut that passes preflight has every enabled pass's settings within range.
pub proof fn lemma_an_accepted_cut_has_its_settings_in_range(
    passes: Seq<PassFactsView>,
    caps: MachineCaps,
    document: Option<Seq<char>>,
    device: Seq<char>,
    allow_out_of_bounds: bool,
)
    ensures
        preflight_verdict(passes, caps, document, device, allow_out_of_bounds) is Ok ==> forall|i: int|
            0 <= i < passes.len() && #[trigger] passes[i].enabled ==> settings_in_range(passes[i].settings, caps),
{
    lemma_the_first_pass_out_of_range_is_refused(passes, caps);
}

proof fn lemma_no_first_shape_means_none_breaks(shapes: Seq<ShapeFactsView>, p: spec_fn(ShapeFactsView) -> bool)
    ensures
        first_shape(shapes, p) is None <==> forall|k: int| 0 <= k < shapes.len() ==> !p(#[trigger] shapes[k]),
    decreases shapes.len(),
{
    if shapes.len() > 0 {
        lemma_no_first_shape_means_none_breaks(shapes.drop_last(), p);
        assert forall|k: int| 0 <= k < shapes.len() - 1 implies shapes.drop_last()[k] == shapes[k] by {}
        if first_shape(shapes.drop_last(), p) is Some {
            let k = choose|k: int| 0 <= k < shapes.len() - 1 && p(#[trigger] shapes.drop_last()[k]);
            assert(p(shapes[k]));
        }
    }
}

/// A cut that passes preflight has something to cut; every shape it cuts has finite
/// coordinates and polylines of at least two points, and lies on the bed unless that is
/// allowed; every enabled pass's settings are in range; a document set up for a machine is set
/// up for this one; and its estimated size is within the ceiling.
pub proof fn lemma_an_accepted_cut_breaks_no_rule(
    passes: Seq<PassFactsView>,
    caps: MachineCaps,
    document: Option<Seq<char>>,
    device: Seq<char>,
    allow_out_of_bounds: bool,
)
    ensures
        preflight_verdict(passes, caps, document, device, allow_out_of_bounds) is Ok ==> {
            let shapes = cut_shapes(passes);
            &&& shapes.len() > 0
            &&& forall|k: int| 0 <= k < shapes.len() ==> !(#[trigger] shapes[k]).non_finite
            &&& forall|k: int, j: int|
                0 <= k < shapes.len() && 0 <= j < shapes[k].polyline_lens.len() ==> #[trigger] shapes[k].polyline_lens[j]
                    >= 2
            &&& !allow_out_of_bounds ==> forall|k: int| 0 <= k < shapes.len() ==> !(#[trigger] shapes[k]).out_of_bounds
            &&& forall|i: int|
                0 <= i < passes.len() && #[trigger] passes[i].enabled ==> settings_in_range(passes[i].settings, caps)
            &&& (document matches Some(d) ==> d == device)
            &&& encoded_bytes(passes) <= MAX_ENCODED_BYTES
        },
{
    let shapes = cut_shapes(passes);
    lemma_the_first_pass_out_of_range_is_refused(passes, caps);
    lemma_no_first_shape_means_none_breaks(shapes, breaks(ShapeRule::NonFinite));
    lemma_no_first_shape_means_none_breaks(shapes, breaks(ShapeRule::Degenerate));
    lemma_no_first_shape_means_none_breaks(shapes, breaks(ShapeRule::OffTheBed));
    if preflight_verdict(passes, caps, document, device, allow_out_of_bounds) is Ok {
        assert forall|k: int| 0 <= k < shapes.len() implies !(#[trigger] shapes[k]).non_finite by {
            assert(!(breaks(ShapeRule::NonFinite))(shapes[k]));
        }
        assert forall|k: int, j: int|
            0 <= k < shapes.len() && 0 <= j < shapes[k].polyline_lens.len() implies #[trigger] shapes[k].polyline_lens[j]
            >= 2 by {
            assert(!(breaks(ShapeRule::Degenerate))(shapes[k]));
        }
        if !allow_out_of_bounds {
            assert forall|k: int| 0 <= k < shapes.len() implies !(#[trigger] shapes[k]).out_of_bounds by {
                assert(!(breaks(ShapeRule::OffTheBed))(shapes[k]));
            }
        }
    }
}

} // verus!
