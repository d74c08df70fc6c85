//! Tracing a bitmap into cuttable paths: the options the tracer accepts, the ceilings an image
//! is held to, what is done to its pixels before tracing, and how the tracer's SVG is cleaned so
//! that every path it keeps draws something and can be cut.
use vstd::prelude::*;
use image::ImageReader;
use std::io::Cursor;
use crate::text::{
    chars_of, contains_sub, find_char, find_chars, find_sub, first_index_of, has_prefix,
    push_char, push_chars, push_dec, replace_first, replace_first_chars, slice_chars, starts_with,
    string_of, trim_start_chars, trimmed_start,
};

verus! {

/// The largest side an image is traced at; a larger one is scaled down to fit.
pub const MAX_DIM: u32 = 2048;

/// What decoding one image may allocate: 512 MiB.
pub const MAX_DECODE_ALLOC: u64 = 536870912;

/// The largest image file that is read at all: 256 MiB.
pub const MAX_INPUT_FILE_BYTES: u64 = 268435456;

/// Whether the tracer sees the image in black and white or in colour.
#[derive(Clone, Copy, PartialEq, Eq, Debug, Structural)]
pub enum TraceMode {
    Binary,
    Color,
}

/// Every way a trace refuses.
#[derive(Debug)]
pub enum TraceError {
    /// The file could not be had; the payload is a whole sentence naming it.
    Input(String),
    InvalidOption(String),
    Decode(String),
    Trace(String),
    /// Nothing in the image was traced into a path that draws.
    EmptyResult,
}

/// A `TraceError` with its text as characters.
pub enum TraceErrorView {
    Input(Seq<char>),
    InvalidOption(Seq<char>),
    Decode(Seq<char>),
    Trace(Seq<char>),
    EmptyResult,
}

impl View for TraceError {
    type V = TraceErrorView;

    open spec fn view(&self) -> TraceErrorView {
        match self {
            TraceError::Input(m) => TraceErrorView::Input(m@),
            TraceError::InvalidOption(m) => TraceErrorView::InvalidOption(m@),
            TraceError::Decode(m) => TraceErrorView::Decode(m@),
            TraceError::Trace(m) => TraceErrorView::Trace(m@),
            TraceError::EmptyResult => TraceErrorView::EmptyResult,
        }
    }
}

impl PartialEq for TraceError {
    fn eq(&self, other: &Self) -> (r: bool) {
        let same = match (self, other) {
            (TraceError::Input(a), TraceError::Input(b)) => *a == *b,
            (TraceError::InvalidOption(a), TraceError::InvalidOption(b)) => *a == *b,
            (TraceError::Decode(a), TraceError::Decode(b)) => *a == *b,
            (TraceError::Trace(a), TraceError::Trace(b)) => *a == *b,
            (TraceError::EmptyResult, TraceError::EmptyResult) => true,
            _ => false,
        };
        proof {
            if same {
                assert(self@ == other@);
            }
        }
        same
    }
}

impl vstd::std_specs::cmp::PartialEqSpecImpl for TraceError {
    open spec fn obeys_eq_spec() -> bool {
        true
    }

    open spec fn eq_spec(&self, other: &Self) -> bool {
        self@ == other@
    }
}

/// What an operator reads for each refusal.
pub open spec fn trace_error_message(e: TraceErrorView) -> Seq<char> {
    match e {
        TraceErrorView::Input(m) => m,
        TraceErrorView::InvalidOption(m) => "invalid option: "@ + m,
        TraceErrorView::Decode(m) => "could not read image: "@ + m,
        TraceErrorView::Trace(m) => "trace failed: "@ + m,
        TraceErrorView::EmptyResult => "empty"@,
    }
}

impl TraceError {
    /// The refusal in the words an operator reads.
    pub fn message(&self) -> (r: String)
        ensures
            r@ == trace_error_message(self@),
    {
        match self {
            TraceError::Input(m) => m.clone(),
            TraceError::InvalidOption(m) => {
                let mut r = String::from_str("invalid option: ");
                r.append(m.as_str());
                r
            },
            TraceError::Decode(m) => {
                let mut r = String::from_str("could not read image: ");
                r.append(m.as_str());
                r
            },
            TraceError::Trace(m) => {
                let mut r = String::from_str("trace failed: ");
                r.append(m.as_str());
                r
            },
            TraceError::EmptyResult => String::from_str("empty"),
        }
    }
}

/// What a trace yields: the SVG, the number of paths in it, the traced image's size, and
/// whether the image was scaled down to be traced.
#[derive(Clone, Debug)]
pub struct TraceResult {
    pub svg: String,
    pub path_count: usize,
    pub width_px: u32,
    pub height_px: u32,
    pub downscaled: bool,
}

/// A `TraceResult` with its SVG as characters.
pub struct TraceResultView {
    pub svg: Seq<char>,
    pub path_count: usize,
    pub width_px: u32,
    pub height_px: u32,
    pub downscaled: bool,
}

impl View for TraceResult {
    type V = TraceResultView;

    open spec fn view(&self) -> TraceResultView {
        TraceResultView {
            svg: self.svg@,
            path_count: self.path_count,
            width_px: self.width_px,
            height_px: self.height_px,
            downscaled: self.downscaled,
        }
    }
}

// ---------------------------------------------------------------------------
// Options and ceilings
// ---------------------------------------------------------------------------

/// The refusal for a file too large to open.
pub open spec fn too_large_text() -> Seq<char> {
    "file is too large to open: over "@ + crate::text::dec(MAX_INPUT_FILE_BYTES as nat / 1048576)
        + " MiB"@
}

/// The refusal for an image file over the ceiling.
pub fn too_large() -> (e: TraceError)
    ensures
        e@ == TraceErrorView::Input(too_large_text()),
{
    let mut m = String::from_str("file is too large to open: over ");
    push_dec(&mut m, MAX_INPUT_FILE_BYTES / 1048576);
    m.append(" MiB");
    TraceError::Input(m)
}

/// What the option check decides, each option in turn: speckle filter 0 to 16 pixels, corner
/// threshold 0 to 180 degrees, a length threshold inside its range, colour precision 1 to 8 bits.
pub open spec fn options_verdict(
    filter_speckle: u8,
    corner_threshold: u8,
    length_threshold_in_range: bool,
    color_precision: u8,
) -> Result<(), TraceErrorView> {
    if filter_speckle > 16 {
        Err(TraceErrorView::InvalidOption("filter_speckle must be 0–16"@))
    } else if corner_threshold > 180 {
        Err(TraceErrorView::InvalidOption("corner_threshold must be 0–180"@))
    } else if !length_threshold_in_range {
        Err(TraceErrorView::InvalidOption("length_threshold must be 3.5–10.0"@))
    } else if !(1 <= color_precision && color_precision <= 8) {
        Err(TraceErrorView::InvalidOption("color_precision must be 1–8"@))
    } else {
        Ok(())
    }
}

/// Checks the tracer's options; `length_threshold_in_range` says whether the length threshold
/// lies within 3.5 to 10.0.
pub fn validate(
    filter_speckle: u8,
    corner_threshold: u8,
    length_threshold_in_range: bool,
    color_precision: u8,
) -> (r: Result<(), TraceError>)
    ensures
        match r {
            Ok(()) => options_verdict(
                filter_speckle,
                corner_threshold,
                length_threshold_in_range,
                color_precision,
            ) == Ok::<(), TraceErrorView>(()),
            Err(e) => options_verdict(
                filter_speckle,
                corner_threshold,
                length_threshold_in_range,
                color_precision,
            ) == Err::<(), TraceErrorView>(e@),
        },
{
    if filter_speckle > 16 {
        return Err(TraceError::InvalidOption(String::from_str("filter_speckle must be 0–16")));
    }
    if corner_threshold > 180 {
        return Err(TraceError::InvalidOption(String::from_str("corner_threshold must be 0–180")));
    }
    if !length_threshold_in_range {
        return Err(TraceError::InvalidOption(String::from_str("length_threshold must be 3.5–10.0")));
    }
    if !(1 <= color_precision && color_precision <= 8) {
        return Err(TraceError::InvalidOption(String::from_str("color_precision must be 1–8")));
    }
    Ok(())
}

/// What decoding an image of this size may need: eight bytes a pixel, saturated.
pub open spec fn decode_need(width: u32, height: u32) -> nat {
    if width * height * 8 > u64::MAX {
        u64::MAX as nat
    } else {
        (width * height * 8) as nat
    }
}

/// The refusal for an image whose decode would need more than the ceiling.
pub open spec fn too_large_to_decode_text(width: u32, height: u32) -> Seq<char> {
    "image is too large to decode: "@ + crate::text::dec(width as nat) + "×"@ + crate::text::dec(
        height as nat,
    ) + " needs up to "@ + crate::text::dec(decode_need(width, height) / 1048576) + " MiB"@
}

/// Whether an image of this size may be decoded at all, judged from its header before a byte of
/// it is decoded.
pub fn decode_budget(width: u32, height: u32) -> (r: Result<(), TraceError>)
    ensures
        decode_need(width, height) <= MAX_DECODE_ALLOC ==> r is Ok,
        decode_need(width, height) > MAX_DECODE_ALLOC ==> (r matches Err(e) && e@
            == TraceErrorView::Decode(too_large_to_decode_text(width, height))),
{
    assert((width as u64) * (height as u64) <= u64::MAX) by (nonlinear_arith)
        requires
            width <= u32::MAX,
            height <= u32::MAX,
    ;
    let pixels: u64 = (width as u64) * (height as u64);
    let needed: u64 = match pixels.checked_mul(8) {
        Some(n) => n,
        None => u64::MAX,
    };
    proof {
        assert(pixels as nat * 8 == width * height * 8) by (nonlinear_arith)
            requires
                pixels == width as u64 * height as u64,
        ;
    }
    if needed > MAX_DECODE_ALLOC {
        let mut m = String::from_str("image is too large to decode: ");
        push_dec(&mut m, width as u64);
        m.append("×");
        push_dec(&mut m, height as u64);
        m.append(" needs up to ");
        push_dec(&mut m, needed / 1048576);
        m.append(" MiB");
        return Err(TraceError::Decode(m));
    }
    Ok(())
}

/// Whether an image is larger than the tracer is given, and so is scaled down first.
pub fn needs_downscale(width: u32, height: u32) -> (r: bool)
    ensures
        r == (width > MAX_DIM || height > MAX_DIM),
{
    width > MAX_DIM || height > MAX_DIM
}

// ---------------------------------------------------------------------------
// Pixels
// ---------------------------------------------------------------------------

/// An image as eight-bit red, green, blue and alpha, row by row.
#[derive(Clone, Debug)]
pub struct RgbaPixels {
    pub width: u32,
    pub height: u32,
    pub data: Vec<u8>,
}

impl RgbaPixels {
    /// Four bytes for every pixel.
    pub open spec fn wf(&self) -> bool {
        self.data@.len() == 4 * (self.width as nat) * (self.height as nat)
    }
}

/// The alpha of pixel `p`.
pub open spec fn alpha_of(data: Seq<u8>, p: int) -> u8 {
    data[4 * p + 3]
}

/// Whether no pixel can be seen.
pub open spec fn fully_transparent(data: Seq<u8>) -> bool {
    forall|p: int| 0 <= p < data.len() / 4 ==> #[trigger] alpha_of(data, p) == 0
}

/// Whether some pixel cannot be seen.
pub open spec fn partly_transparent(data: Seq<u8>) -> bool {
    exists|p: int| 0 <= p < data.len() / 4 && #[trigger] alpha_of(data, p) == 0
}

/// Whether no pixel of the image can be seen.
pub fn all_transparent(img: &RgbaPixels) -> (r: bool)
    requires
        img.wf(),
    ensures
        r == fully_transparent(img.data@),
{
    let n = img.data.len() / 4;
    let mut p: usize = 0;
    while p < n
        invariant
            n == img.data@.len() / 4,
            img.data@.len() % 4 == 0 || img.data@.len() >= 0,
            p <= n,
            forall|q: int| 0 <= q < p ==> #[trigger] alpha_of(img.data@, q) == 0,
        decreases n - p,
    {
        assert(4 * p + 3 < img.data.len()) by (nonlinear_arith)
            requires
                p < n,
                n == img.data@.len() / 4,
        ;
        if img.data[4 * p + 3] != 0 {
            assert(alpha_of(img.data@, p as int) != 0);
            return false;
        }
        p = p + 1;
    }
    true
}

/// Whether some pixel of the image cannot be seen.
pub fn any_transparent(img: &RgbaPixels) -> (r: bool)
    requires
        img.wf(),
    ensures
        r == partly_transparent(img.data@),
{
    let n = img.data.len() / 4;
    let mut p: usize = 0;
    while p < n
        invariant
            n == img.data@.len() / 4,
            p <= n,
            forall|q: int| 0 <= q < p ==> #[trigger] alpha_of(img.data@, q) != 0,
        decreases n - p,
    {
        assert(4 * p + 3 < img.data.len()) by (nonlinear_arith)
            requires
                p < n,
                n == img.data@.len() / 4,
        ;
        if img.data[4 * p + 3] == 0 {
            assert(alpha_of(img.data@, p as int) == 0);
            return true;
        }
        p = p + 1;
    }
    false
}

/// One channel composited over opaque white at alpha `a`, rounded to nearest.
pub open spec fn over_white(c: u8, a: u8) -> u8 {
    ((c * a + 255 * (255 - a) + 127) / 255) as u8
}

/// The image composited onto white: a pixel that is not opaque becomes opaque, each colour
/// channel mixed with white by its alpha; an opaque pixel is unchanged.
pub open spec fn flattened(data: Seq<u8>) -> Seq<u8> {
    Seq::new(
        data.len(),
        |i: int|
            {
                let a = data[4 * (i / 4) + 3];
                if a == 255 {
                    data[i]
                } else if i % 4 == 3 {
                    255u8
                } else {
                    over_white(data[i], a)
                }
            },
    )
}

fn composite(c: u8, a: u8) -> (r: u8)
    ensures
        r == over_white(c, a),
{
    assert(c as u32 * a as u32 <= 255 * a as u32) by (nonlinear_arith)
        requires
            c <= 255,
    ;
    let v: u32 = c as u32 * a as u32 + 255 * (255 - a as u32) + 127;
    assert(v / 255 <= 255);
    (v / 255) as u8
}

/// Composites the image onto white, so that transparency reads as background.
pub fn flatten_onto_white(img: &mut RgbaPixels)
    requires
        old(img).wf(),
    ensures
        final(img).wf(),
        final(img).width == old(img).width,
        final(img).height == old(img).height,
        final(img).data@ == flattened(old(img).data@),
{
    let ghost before = img.data@;
    let ghost k = (img.width as nat) * (img.height as nat);
    assert(before.len() == 4 * k) by (nonlinear_arith)
        requires
            before.len() == 4 * (img.width as nat) * (img.height as nat),
            k == (img.width as nat) * (img.height as nat),
    ;
    assert(before.len() % 4 == 0);
    let n = img.data.len() / 4;
    let mut p: usize = 0;
    while p < n
        invariant
            n == before.len() / 4,
            before.len() % 4 == 0,
            img.data@.len() == before.len(),
            img.width == old(img).width,
            img.height == old(img).height,
            p <= n,
            forall|i: int| 0 <= i < 4 * p ==> #[trigger] img.data@[i] == flattened(before)[i],
            forall|i: int| 4 * p <= i < before.len() ==> #[trigger] img.data@[i] == before[i],
        decreases n - p,
    {
        assert(4 * p + 3 < img.data.len()) by (nonlinear_arith)
            requires
                p < n,
                n == before.len() / 4,
                img.data@.len() == before.len(),
        ;
        let base = 4 * p;
        let a = img.data[base + 3];
        if a != 255 {
            let r = composite(img.data[base], a);
            img.data.set(base, r);
            let g = composite(img.data[base + 1], a);
            img.data.set(base + 1, g);
            let b = composite(img.data[base + 2], a);
            img.data.set(base + 2, b);
            img.data.set(base + 3, 255);
        }
        proof {
            assert forall|i: int| 4 * p <= i < 4 * p + 4 implies #[trigger] img.data@[i] == flattened(
                before,
            )[i] by {
                assert(i / 4 == p);
            }
        }
        p = p + 1;
    }
    assert(img.data@ =~= flattened(before));
}

/// The image with one fully transparent row added at the bottom.
pub fn pad_with_transparent_row(img: &RgbaPixels) -> (r: RgbaPixels)
    requires
        img.wf(),
        img.height < u32::MAX,
        img.data@.len() + 4 * (img.width as nat) <= usize::MAX,
    ensures
        r.wf(),
        r.width == img.width,
        r.height == img.height + 1,
        r.data@ == img.data@ + Seq::new(4 * (img.width as nat), |i: int| 0u8),
{
    let mut data: Vec<u8> = Vec::new();
    let mut i: usize = 0;
    while i < img.data.len()
        invariant
            i <= img.data.len(),
            data@ == img.data@.take(i as int),
        decreases img.data.len() - i,
    {
        data.push(img.data[i]);
        i = i + 1;
        assert(data@ =~= img.data@.take(i as int));
    }
    assert(img.data@.take(img.data.len() as int) =~= img.data@);
    let row: usize = 4 * (img.width as usize);
    let mut k: usize = 0;
    while k < row
        invariant
            k <= row,
            row == 4 * (img.width as nat),
            img.data@.len() + row <= usize::MAX,
            data@ == img.data@ + Seq::new(k as nat, |i: int| 0u8),
        decreases row - k,
    {
        data.push(0u8);
        k = k + 1;
        assert(data@ =~= img.data@ + Seq::new(k as nat, |i: int| 0u8));
    }
    proof {
        assert(4 * (img.width as nat) * (img.height as nat) + 4 * (img.width as nat) == 4 * (
        img.width as nat) * ((img.height + 1) as nat)) by (nonlinear_arith);
    }
    RgbaPixels { width: img.width, height: img.height + 1, data }
}

/// What the tracer is handed: the pixels, and whether a transparent row was added to them.
pub open spec fn fed_pixels(data: Seq<u8>, width: u32, mode: TraceMode) -> (Seq<u8>, bool) {
    match mode {
        TraceMode::Binary => (flattened(data), false),
        TraceMode::Color => if partly_transparent(data) {
            (data + Seq::new(4 * (width as nat), |i: int| 0u8), true)
        } else {
            (data, false)
        },
    }
}

/// Readies an image for the tracer. An image nothing of which can be seen traces to nothing. In
/// black and white it is composited onto white, since that tracer reads no alpha; in colour,
/// any transparency at all gets one transparent row added, so the tracer keys all of it out.
/// Returns the pixels to trace and whether that row was added.
pub fn prepare_pixels(img: RgbaPixels, mode: TraceMode) -> (r: Result<(RgbaPixels, bool), TraceError>)
    requires
        img.wf(),
        img.height < u32::MAX,
        img.data@.len() + 4 * (img.width as nat) <= usize::MAX,
    ensures
        fully_transparent(img.data@) ==> (r matches Err(e) && e@ == TraceErrorView::EmptyResult),
        !fully_transparent(img.data@) ==> (r matches Ok((fed, padded)) && {
            &&& fed.wf()
            &&& fed.width == img.width
            &&& fed.height == if padded {
                img.height + 1
            } else {
                img.height as int
            }
            &&& (fed.data@, padded) == fed_pixels(img.data@, img.width, mode)
        }),
{
    if all_transparent(&img) {
        return Err(TraceError::EmptyResult);
    }
    match mode {
        TraceMode::Binary => {
            let mut img = img;
            flatten_onto_white(&mut img);
            Ok((img, false))
        },
        TraceMode::Color => {
            if any_transparent(&img) {
                let padded = pad_with_transparent_row(&img);
                Ok((padded, true))
            } else {
                Ok((img, false))
            }
        },
    }
}

// ---------------------------------------------------------------------------
// Cleaning the tracer's SVG
// ---------------------------------------------------------------------------

/// The lines of `s`, as `str::lines` gives them: split after each `\n`, with a `\r` just before
/// that `\n` dropped too, and no empty line after a final `\n`.
#[verifier::opaque]
pub open spec fn lines_of(s: Seq<char>) -> Seq<Seq<char>>
    decreases s.len(),
{
    if s.len() == 0 {
        seq![]
    } else {
        match first_index_of(s, '\n') {
            None => seq![s],
            Some(i) => {
                let raw = s.subrange(0, i);
                let line = if raw.len() > 0 && raw.last() == '\r' {
                    raw.drop_last()
                } else {
                    raw
                };
                if 0 <= i < s.len() {
                    seq![line] + lines_of(s.subrange(i + 1, s.len() as int))
                } else {
                    seq![line]
                }
            },
        }
    }
}

/// The value of `name="..."` in one element's source line: what follows the first `name="`, up
/// to the next `"`.
pub open spec fn attr_value_of(line: Seq<char>, name: Seq<char>) -> Option<Seq<char>> {
    let key = name + "=\""@;
    match find_sub(line, key) {
        None => None,
        Some(i) => {
            let rest = line.subrange(i + key.len(), line.len() as int);
            match first_index_of(rest, '"') {
                None => None,
                Some(j) => Some(rest.subrange(0, j)),
            }
        },
    }
}

/// A path line with its fill copied onto a stroke of the same colour, unless it already carries
/// a stroke or has no fill: the first `fill="X"` becomes `fill="X" stroke="X"`.
pub open spec fn mirrored(line: Seq<char>) -> Seq<char> {
    if contains_sub(line, "stroke=\""@) {
        line
    } else {
        match attr_value_of(line, "fill"@) {
            None => line,
            Some(f) => replace_first(
                line,
                "fill=\""@ + f + "\""@,
                "fill=\""@ + f + "\" stroke=\""@ + f + "\""@,
            ),
        }
    }
}

/// Mirroring a line twice gives what mirroring it once gives: a mirrored line was either left
/// as it was or now carries a stroke, and mirroring leaves a line with a stroke alone.
pub proof fn lemma_mirroring_is_idempotent(line: Seq<char>)
    ensures
        mirrored(mirrored(line)) == mirrored(line),
{
    if !contains_sub(line, "stroke=\""@) {
        match attr_value_of(line, "fill"@) {
            None => {},
            Some(f) => {
                let pat = "fill=\""@ + f + "\""@;
                let with = "fill=\""@ + f + "\" stroke=\""@ + f + "\""@;
                match find_sub(line, pat) {
                    None => {},
                    Some(j) => {
                        crate::text::lemma_find_from(line, pat, 0);
                        let out = line.subrange(0, j) + with + line.subrange(j + pat.len(), line.len() as int);
                        let key = "stroke=\""@;
                        reveal_strlit("fill=\"");
                        reveal_strlit("\" stroke=\"");
                        reveal_strlit("stroke=\"");
                        reveal_strlit("\"");
                        let k = j + 6 + f.len() + 2;
                        assert(out.subrange(k, k + 8) =~= key);
                        assert(crate::text::occurs_at(out, key, k));
                        crate::text::lemma_find_from(out, key, 0);
                        assert(mirrored(line) == out);
                    },
                }
            },
        }
    }
}

/// Whether a line is a path element.
pub open spec fn is_path_line(line: Seq<char>) -> bool {
    starts_with(trimmed_start(line), "<path"@)
}

/// Whether a path line draws nothing: its `d` attribute is empty.
pub open spec fn draws_nothing(line: Seq<char>) -> bool {
    contains_sub(trimmed_start(line), "d=\"\""@)
}

/// The cleaned text of some lines: each line that is not a path kept as it is, each path that
/// draws something kept with its fill mirrored onto a stroke, each path that draws nothing
/// dropped; every kept line ends in `\n`.
pub open spec fn cleaned(ls: Seq<Seq<char>>) -> Seq<char>
    decreases ls.len(),
{
    if ls.len() == 0 {
        seq![]
    } else {
        let prev = cleaned(ls.drop_last());
        let l = ls.last();
        if is_path_line(l) {
            if draws_nothing(l) {
                prev
            } else {
                prev + mirrored(l).push('\n')
            }
        } else {
            prev + l.push('\n')
        }
    }
}

/// The number of paths among some lines that draw something.
pub open spec fn drawn_paths(ls: Seq<Seq<char>>) -> nat
    decreases ls.len(),
{
    if ls.len() == 0 {
        0
    } else {
        drawn_paths(ls.drop_last()) + if is_path_line(ls.last()) && !draws_nothing(ls.last()) {
            1nat
        } else {
            0nat
        }
    }
}

fn attr_value_chars(line: &Vec<char>, name: &str) -> (r: Option<Vec<char>>)
    ensures
        match r {
            Some(v) => attr_value_of(line@, name@) == Some(v@),
            None => attr_value_of(line@, name@) is None,
        },
{
    let mut key = chars_of(name);
    key.push('=');
    key.push('"');
    assert(key@ =~= name@ + "=\""@) by {
        reveal_strlit("=\"");
    }
    match find_chars(line, &key) {
        None => None,
        Some(i) => {
            proof {
                crate::text::lemma_find_from(line@, key@, 0);
            }
            assert(i + key.len() <= line.len());
            let rest = slice_chars(line, i + key.len(), line.len());
            match find_char(&rest, '"') {
                None => None,
                Some(j) => Some(slice_chars(&rest, 0, j)),
            }
        },
    }
}

/// The value of `name="..."` in one element's source line, if it has one.
pub fn attr_value(line: &str, name: &str) -> (r: Option<String>)
    ensures
        match r {
            Some(v) => attr_value_of(line@, name@) == Some(v@),
            None => attr_value_of(line@, name@) is None,
        },
{
    match attr_value_chars(&chars_of(line), name) {
        Some(v) => Some(string_of(&v)),
        None => None,
    }
}

fn concat3(a: &str, b: &Vec<char>, c: &str) -> (r: Vec<char>)
    ensures
        r@ == a@ + b@ + c@,
{
    let mut s = String::from_str(a);
    push_chars(&mut s, b);
    s.append(c);
    chars_of(s.as_str())
}

fn mirror_chars(line: &Vec<char>) -> (r: Vec<char>)
    ensures
        r@ == mirrored(line@),
{
    if find_chars(line, &chars_of("stroke=\"")).is_some() {
        return slice_chars(line, 0, line.len());
    }
    match attr_value_chars(line, "fill") {
        None => slice_chars(line, 0, line.len()),
        Some(f) => {
            let pat = concat3("fill=\"", &f, "\"");
            let mut with = String::from_str("fill=\"");
            push_chars(&mut with, &f);
            with.append("\" stroke=\"");
            push_chars(&mut with, &f);
            with.append("\"");
            let with = chars_of(with.as_str());
            replace_first_chars(line, &pat, &with)
        },
    }
}

/// Copies a path's fill onto a stroke of the same colour, so that traced geometry, which the
/// tracer describes only by the colour that fills it, is cut; a path that already has a stroke
/// is left alone.
pub fn mirror_fill_onto_stroke(line: &str) -> (r: String)
    ensures
        r@ == mirrored(line@),
{
    string_of(&mirror_chars(&chars_of(line)))
}

fn next_newline(v: &Vec<char>, from: usize) -> (r: Option<usize>)
    requires
        from <= v@.len(),
    ensures
        match r {
            Some(i) => from <= i < v@.len() && first_index_of(v@.subrange(from as int, v@.len() as int), '\n')
                == Some(i - from),
            None => first_index_of(v@.subrange(from as int, v@.len() as int), '\n') is None,
        },
{
    let rest = slice_chars(v, from, v.len());
    match find_char(&rest, '\n') {
        Some(i) => Some(from + i),
        None => None,
    }
}

/// A line's text without the `\r` of a `\r\n` ending.
pub open spec fn without_cr(raw: Seq<char>) -> Seq<char> {
    if raw.len() > 0 && raw.last() == '\r' {
        raw.drop_last()
    } else {
        raw
    }
}

proof fn lemma_lines_step(s: Seq<char>, i: int)
    requires
        0 <= i < s.len(),
        first_index_of(s, '\n') == Some(i),
    ensures
        lines_of(s) == seq![without_cr(s.subrange(0, i))] + lines_of(s.subrange(i + 1, s.len() as int)),
{
    reveal(lines_of);
}

proof fn lemma_lines_last(s: Seq<char>)
    requires
        s.len() > 0,
        first_index_of(s, '\n') is None,
    ensures
        lines_of(s) == seq![s],
{
    reveal(lines_of);
}

proof fn lemma_lines_empty()
    ensures
        lines_of(Seq::<char>::empty()) == Seq::<Seq<char>>::empty(),
{
    reveal(lines_of);
}

/// The line that begins at `pos`, and where the next one begins.
fn next_line(v: &Vec<char>, pos: usize) -> (r: (Vec<char>, usize))
    requires
        pos < v@.len(),
    ensures
        pos < r.1 <= v@.len(),
        lines_of(v@.subrange(pos as int, v@.len() as int)) == seq![r.0@] + lines_of(
            v@.subrange(r.1 as int, v@.len() as int),
        ),
{
    let ghost s = v@;
    let ghost rest = s.subrange(pos as int, s.len() as int);
    let nl = next_newline(v, pos);
    match nl {
        Some(i) => {
            let raw = slice_chars(v, pos, i);
            let line = if raw.len() > 0 && raw[raw.len() - 1] == '\r' {
                slice_chars(&raw, 0, raw.len() - 1)
            } else {
                raw
            };
            proof {
                lemma_lines_step(rest, i - pos);
                assert(rest.subrange(0, i - pos) =~= raw@);
                assert(line@ == without_cr(raw@));
                assert(rest.subrange(i - pos + 1, rest.len() as int) =~= s.subrange(
                    i + 1,
                    s.len() as int,
                ));
            }
            assert(i < v.len());
            (line, i + 1)
        },
        None => {
            let line = slice_chars(v, pos, v.len());
            proof {
                lemma_lines_last(rest);
                lemma_lines_empty();
                assert(line@ =~= rest);
                assert(s.subrange(s.len() as int, s.len() as int) =~= Seq::<char>::empty());
                assert(seq![line@] + Seq::<Seq<char>>::empty() =~= seq![line@]);
            }
            (line, v.len())
        },
    }
}

/// Appends one line's cleaned form, and says whether it was a path that draws something.
fn clean_line(out: &mut String, line: &Vec<char>) -> (kept: bool)
    ensures
        final(out)@ == old(out)@ + (if is_path_line(line@) {
            if draws_nothing(line@) {
                Seq::<char>::empty()
            } else {
                mirrored(line@).push('\n')
            }
        } else {
            line@.push('\n')
        }),
        kept == (is_path_line(line@) && !draws_nothing(line@)),
{
    let t = trim_start_chars(line);
    if has_prefix(&t, &chars_of("<path")) {
        if find_chars(&t, &chars_of("d=\"\"")).is_none() {
            let m = mirror_chars(line);
            push_chars(out, &m);
            push_char(out, '\n');
            return true;
        }
        assert(old(out)@ + Seq::<char>::empty() =~= old(out)@);
        false
    } else {
        push_chars(out, line);
        push_char(out, '\n');
        false
    }
}

/// Drops the path elements that draw nothing, mirrors each remaining path's fill onto its
/// stroke, and counts the paths that remain. The tracer writes one element per line, and a path
/// draws nothing when its `d` attribute is empty.
pub fn strip_empty_paths(svg: &str) -> (r: (String, usize))
    ensures
        r.0@ == cleaned(lines_of(svg@)),
        r.1 == drawn_paths(lines_of(svg@)),
{
    let v = chars_of(svg);
    let ghost s = v@;
    let mut out = String::new();
    let mut kept: usize = 0;
    let mut pos: usize = 0;
    let ghost mut done: Seq<Seq<char>> = seq![];
    assert(s.subrange(0, s.len() as int) =~= s);
    assert(seq![] + lines_of(s) =~= lines_of(s));
    while pos < v.len()
        invariant
            v@ == s,
            s == svg@,
            pos <= v.len(),
            lines_of(s) == done + lines_of(s.subrange(pos as int, s.len() as int)),
            out@ == cleaned(done),
            kept == drawn_paths(done),
            kept <= pos,
        decreases v.len() - pos,
    {
        let (line, next) = next_line(&v, pos);
        let drew = clean_line(&mut out, &line);
        if drew {
            kept = kept + 1;
        }
        proof {
            assert(done.push(line@) + lines_of(s.subrange(next as int, s.len() as int)) =~= done
                + (seq![line@] + lines_of(s.subrange(next as int, s.len() as int))));
            assert(done.push(line@).drop_last() =~= done);
            done = done.push(line@);
        }
        pos = next;
    }
    assert(s.subrange(v.len() as int, s.len() as int) =~= Seq::<char>::empty());
    proof {
        lemma_lines_empty();
    }
    assert(done + lines_of(Seq::<char>::empty()) =~= done);
    (out, kept)
}

/// The attribute giving the emitted SVG's height.
pub open spec fn height_attr(h: u32) -> Seq<char> {
    "height=\""@ + crate::text::dec(h as nat) + "\""@
}

/// What a trace yields from the tracer's SVG: the cleaned SVG and its path count, or nothing to
/// cut. When a transparent row was added to the pixels, the SVG's height is put back to the
/// source's.
pub open spec fn finished_trace(
    svg: Seq<char>,
    width: u32,
    height: u32,
    fed_height: u32,
    padded: bool,
    downscaled: bool,
) -> Result<TraceResultView, TraceErrorView> {
    let ls = lines_of(svg);
    if drawn_paths(ls) == 0 {
        Err(TraceErrorView::EmptyResult)
    } else {
        Ok(
            TraceResultView {
                svg: if padded {
                    replace_first(cleaned(ls), height_attr(fed_height), height_attr(height))
                } else {
                    cleaned(ls)
                },
                path_count: drawn_paths(ls) as usize,
                width_px: width,
                height_px: height,
                downscaled,
            },
        )
    }
}

fn height_attr_chars(h: u32) -> (r: Vec<char>)
    ensures
        r@ == height_attr(h),
{
    let mut s = String::from_str("height=\"");
    push_dec(&mut s, h as u64);
    s.append("\"");
    chars_of(s.as_str())
}

/// Finishes a trace from the tracer's SVG; `width` and `height` are the traced image's,
/// `fed_height` the height the tracer was handed.
pub fn finish_trace(
    svg: &str,
    width: u32,
    height: u32,
    fed_height: u32,
    padded: bool,
    downscaled: bool,
) -> (r: Result<TraceResult, TraceError>)
    ensures
        match r {
            Ok(t) => finished_trace(svg@, width, height, fed_height, padded, downscaled) == Ok::<
                TraceResultView,
                TraceErrorView,
            >(t@),
            Err(e) => finished_trace(svg@, width, height, fed_height, padded, downscaled) == Err::<
                TraceResultView,
                TraceErrorView,
            >(e@),
        },
{
    let (cleaned_svg, path_count) = strip_empty_paths(svg);
    if path_count == 0 {
        return Err(TraceError::EmptyResult);
    }
    let text = if padded {
        let v = chars_of(cleaned_svg.as_str());
        let replaced = replace_first_chars(&v, &height_attr_chars(fed_height), &height_attr_chars(height));
        string_of(&replaced)
    } else {
        cleaned_svg
    };
    Ok(TraceResult { svg: text, path_count, width_px: width, height_px: height, downscaled })
}


/// In black and white every pixel is fed to the tracer opaque: a pixel that already was keeps
/// its colour, and each colour channel `c` of a pixel of alpha `a` becomes
/// `(c * a + 255 * (255 - a)) / 255` rounded to nearest, its mix with white. The image keeps
/// its size and nothing is added to it.
pub proof fn lemma_black_and_white_composites_onto_white(data: Seq<u8>, width: u32, p: int, k: int)
    requires
        0 <= p,
        4 * p + 3 < data.len(),
        0 <= k < 3,
    ensures
        fed_pixels(data, width, TraceMode::Binary).0.len() == data.len(),
        fed_pixels(data, width, TraceMode::Binary).1 == false,
        fed_pixels(data, width, TraceMode::Binary).0[4 * p + 3] == 255,
        data[4 * p + 3] == 255 ==> fed_pixels(data, width, TraceMode::Binary).0[4 * p + k] == data[4 * p + k],
        fed_pixels(data, width, TraceMode::Binary).0[4 * p + k] == (data[4 * p + k] * data[4 * p + 3] + 255 * (
        255 - data[4 * p + 3]) + 127) / 255,
{
    let f = flattened(data);
    let c = data[4 * p + k];
    let a = data[4 * p + 3];
    assert((4 * p + k) / 4 == p && (4 * p + k) % 4 == k) by (nonlinear_arith)
        requires
            0 <= k < 3,
            0 <= p,
    ;
    assert((4 * p + 3) / 4 == p && (4 * p + 3) % 4 == 3) by (nonlinear_arith)
        requires
            0 <= p,
    ;
    assert(f[4 * p + 3] == 255);
    assert(0 <= (c * a + 255 * (255 - a) + 127) / 255 <= 255) by (nonlinear_arith)
        requires
            0 <= c <= 255,
            0 <= a <= 255,
    ;
    assert(a == 255 ==> (c * a + 255 * (255 - a) + 127) / 255 == c) by (nonlinear_arith)
        requires
            0 <= c <= 255,
            0 <= a <= 255,
    ;
    assert(f[4 * p + k] == (c * a + 255 * (255 - a) + 127) / 255);
}

/// In colour the image is fed as it is, its pixels untouched, with one row of `width` fully
/// transparent pixels added below exactly when some pixel is fully transparent.
pub proof fn lemma_colour_keeps_the_pixels_and_pads_transparency(data: Seq<u8>, width: u32)
    ensures
        fed_pixels(data, width, TraceMode::Color).0.take(data.len() as int) == data,
        fed_pixels(data, width, TraceMode::Color).1 <==> exists|p: int|
            0 <= p < data.len() / 4 && #[trigger] alpha_of(data, p) == 0,
        fed_pixels(data, width, TraceMode::Color).1 ==> fed_pixels(data, width, TraceMode::Color).0.len()
            == data.len() + 4 * width && forall|i: int|
            data.len() <= i < data.len() + 4 * width ==> #[trigger] fed_pixels(data, width, TraceMode::Color).0[i]
                == 0,
        !fed_pixels(data, width, TraceMode::Color).1 ==> fed_pixels(data, width, TraceMode::Color).0 == data,
{
    assert(fed_pixels(data, width, TraceMode::Color).0.take(data.len() as int) =~= data);
}

/// Cleaning goes line by line, and a line's fate depends on that line alone: one more line
/// that is not a path adds itself and a line break; one more path that draws nothing adds
/// nothing and is not counted; one more path that draws adds itself with its fill mirrored onto
/// its stroke, then a line break, and counts once. Cleaning two runs of lines is cleaning the
/// first, then the second.
pub proof fn lemma_cleaning_keeps_every_line_but_empty_paths(a: Seq<Seq<char>>, b: Seq<Seq<char>>, l: Seq<char>)
    ensures
        !is_path_line(l) ==> cleaned(a.push(l)) == cleaned(a) + l.push('\n') && drawn_paths(a.push(l))
            == drawn_paths(a),
        is_path_line(l) && draws_nothing(l) ==> cleaned(a.push(l)) == cleaned(a) && drawn_paths(a.push(l))
            == drawn_paths(a),
        is_path_line(l) && !draws_nothing(l) ==> cleaned(a.push(l)) == cleaned(a) + mirrored(l).push('\n')
            && drawn_paths(a.push(l)) == drawn_paths(a) + 1,
        cleaned(a + b) == cleaned(a) + cleaned(b),
        drawn_paths(a + b) == drawn_paths(a) + drawn_paths(b),
    decreases b.len(),
{
    assert(a.push(l).drop_last() =~= a);
    if b.len() == 0 {
        assert(a + b =~= a);
        assert(cleaned(a) + cleaned(b) =~= cleaned(a));
    } else {
        lemma_cleaning_keeps_every_line_but_empty_paths(a, b.drop_last(), l);
        assert((a + b).drop_last() =~= a + b.drop_last());
        assert((a + b).last() == b.last());
        let x = b.last();
        if is_path_line(x) {
            if !draws_nothing(x) {
                assert(cleaned(a) + cleaned(b.drop_last()) + mirrored(x).push('\n') =~= cleaned(a) + (cleaned(
                    b.drop_last(),
                ) + mirrored(x).push('\n')));
            }
        } else {
            assert(cleaned(a) + cleaned(b.drop_last()) + x.push('\n') =~= cleaned(a) + (cleaned(b.drop_last())
                + x.push('\n')));
        }
    }
}

/// In black and white a fully transparent pixel is fed to the tracer as opaque white, whatever
/// colour it hides: a transparent background traces like a white one, and its hidden colour
/// never reaches the trace.
#[verifier::spinoff_prover]
pub proof fn lemma_transparency_traces_as_white(data: Seq<u8>, width: u32, p: int)
    requires
        data.len() % 4 == 0,
        0 <= p,
        4 * p + 3 < data.len(),
        data[4 * p + 3] == 0,
    ensures
        fed_pixels(data, width, TraceMode::Binary).0.subrange(4 * p, 4 * p + 4) == seq![255u8, 255u8, 255u8, 255u8],
{
    let f = flattened(data);
    assert(fed_pixels(data, width, TraceMode::Binary).0 == f);
    assert forall|k: int| 0 <= k < 4 implies #[trigger] f[4 * p + k] == 255u8 by {
        assert((4 * p + k) / 4 == p) by (nonlinear_arith)
            requires
                0 <= k < 4,
        ;
        assert((4 * p + k) % 4 == k) by (nonlinear_arith)
            requires
                0 <= k < 4,
        ;
        assert(data[4 * ((4 * p + k) / 4) + 3] == 0);
        if k != 3 {
            let c = data[4 * p + k];
            assert(((c * 0 + 255 * (255 - 0) + 127) / 255) == 255) by (nonlinear_arith)
                requires
                    0 <= c <= 255,
            ;
        }
    }
    assert(f[4 * p + 0] == 255u8);
    assert(f[4 * p + 1] == 255u8);
    assert(f[4 * p + 2] == 255u8);
    assert(f[4 * p + 3] == 255u8);
    assert(f.subrange(4 * p, 4 * p + 4) =~= seq![255u8, 255u8, 255u8, 255u8]);
}

// ---------------------------------------------------------------------------
// Decoding
// ---------------------------------------------------------------------------

/// The name for the width and height the `image` crate reads from an encoded image's header,
/// or its refusal.
pub uninterp spec fn header_size(bytes: Seq<u8>) -> Result<(u32, u32), Seq<char>>;

/// The name for the image the `image` crate decodes from `bytes`, allowed `max_alloc` bytes
/// while decoding, as eight-bit RGBA rows with its width and height, or its refusal.
pub uninterp spec fn decoded(bytes: Seq<u8>, max_alloc: u64) -> Result<(u32, u32, Seq<u8>), Seq<char>>;

/// The name for the image the `image` crate decodes from `bytes`, allowed `max_alloc` bytes
/// while decoding, then scales with its triangle filter to fit a square of side `side`, as
/// eight-bit RGBA rows with its width and height, or its refusal.
pub uninterp spec fn decoded_to_fit(bytes: Seq<u8>, max_alloc: u64, side: u32) -> Result<
    (u32, u32, Seq<u8>),
    Seq<char>,
>;

/// The name for the PNG file the `image` crate writes for eight-bit RGBA rows, or its refusal.
pub uninterp spec fn png_encoding(width: u32, height: u32, data: Seq<u8>) -> Result<Seq<u8>, Seq<char>>;

/// `ImageReader::with_guessed_format`, then `into_dimensions`: the size an image's header
/// states, read without decoding it, or the reader's refusal in its own words.
#[verifier::external_body]
fn read_header_size(bytes: &[u8]) -> (r: Result<(u32, u32), String>)
    ensures
        match r {
            Ok(d) => header_size(bytes@) == Ok::<(u32, u32), Seq<char>>(d),
            Err(m) => header_size(bytes@) == Err::<(u32, u32), Seq<char>>(m@),
        },
{
    match ImageReader::new(Cursor::new(bytes)).with_guessed_format() {
        Ok(reader) => match reader.into_dimensions() {
            Ok(d) => Ok(d),
            Err(e) => Err(e.to_string()),
        },
        Err(e) => Err(e.to_string()),
    }
}

/// `ImageReader::decode` under a `Limits` whose `max_alloc` is `max_alloc`, then
/// `DynamicImage::to_rgba8`: the pixels, four bytes each, row after row, or the decoder's
/// refusal. An RGBA buffer holds exactly four bytes for each pixel of its width and height.
#[verifier::external_body]
fn decode_rgba(bytes: &[u8], max_alloc: u64) -> (r: Result<RgbaPixels, String>)
    ensures
        match r {
            Ok(p) => p.wf() && decoded(bytes@, max_alloc) == Ok::<(u32, u32, Seq<u8>), Seq<char>>(
                (p.width, p.height, p.data@),
            ),
            Err(m) => decoded(bytes@, max_alloc) == Err::<(u32, u32, Seq<u8>), Seq<char>>(m@),
        },
{
    let mut limits = image::Limits::default();
    limits.max_alloc = Some(max_alloc);
    let mut reader = match ImageReader::new(Cursor::new(bytes)).with_guessed_format() {
        Ok(reader) => reader,
        Err(e) => return Err(e.to_string()),
    };
    reader.limits(limits);
    match reader.decode() {
        Ok(img) => Ok(RgbaPixels { width: img.width(), height: img.height(), data: img.to_rgba8().into_raw() }),
        Err(e) => Err(e.to_string()),
    }
}

/// As `decode_rgba`, with `DynamicImage::resize` to `side` by `side` under
/// `FilterType::Triangle` before `to_rgba8`. That resize keeps the aspect ratio and scales to
/// the largest size that fits the bounds, so neither side exceeds `side`; it never makes a
/// side smaller than one pixel, so `side` is at least one here.
#[verifier::external_body]
fn decode_rgba_to_fit(bytes: &[u8], max_alloc: u64, side: u32) -> (r: Result<RgbaPixels, String>)
    requires
        side >= 1,
    ensures
        match r {
            Ok(p) => p.wf() && p.width <= side && p.height <= side && decoded_to_fit(bytes@, max_alloc, side)
                == Ok::<(u32, u32, Seq<u8>), Seq<char>>((p.width, p.height, p.data@)),
            Err(m) => decoded_to_fit(bytes@, max_alloc, side) == Err::<(u32, u32, Seq<u8>), Seq<char>>(m@),
        },
{
    let mut limits = image::Limits::default();
    limits.max_alloc = Some(max_alloc);
    let mut reader = match ImageReader::new(Cursor::new(bytes)).with_guessed_format() {
        Ok(reader) => reader,
        Err(e) => return Err(e.to_string()),
    };
    reader.limits(limits);
    match reader.decode() {
        Ok(img) => {
            let img = img.resize(side, side, image::imageops::FilterType::Triangle);
            Ok(RgbaPixels { width: img.width(), height: img.height(), data: img.to_rgba8().into_raw() })
        },
        Err(e) => Err(e.to_string()),
    }
}

/// `DynamicImage::write_to` in `ImageFormat::Png`: the PNG file for the pixels, or the
/// encoder's refusal. The buffer is handed over through `RgbaImage::from_raw`, which takes a
/// buffer of four bytes a pixel as it is.
#[verifier::external_body]
fn encode_png(p: &RgbaPixels) -> (r: Result<Vec<u8>, String>)
    requires
        p.wf(),
    ensures
        match r {
            Ok(b) => png_encoding(p.width, p.height, p.data@) == Ok::<Seq<u8>, Seq<char>>(b@),
            Err(m) => png_encoding(p.width, p.height, p.data@) == Err::<Seq<u8>, Seq<char>>(m@),
        },
{
    let img = match image::RgbaImage::from_raw(p.width, p.height, p.data.clone()) {
        Some(img) => img,
        None => return Err(String::from("the pixel buffer does not match its size")),
    };
    let mut out = Cursor::new(Vec::new());
    match image::DynamicImage::ImageRgba8(img).write_to(&mut out, image::ImageFormat::Png) {
        Ok(()) => Ok(out.into_inner()),
        Err(e) => Err(e.to_string()),
    }
}

/// What decoding an image for the tracer comes to: the header's refusal; an image too large to
/// decode at all; else the image as decoded, when neither its header nor its pixels exceed
/// `MAX_DIM` on a side; else the image scaled to fit `MAX_DIM`, marked as scaled. Every decode
/// is allowed `MAX_DECODE_ALLOC` bytes.
pub open spec fn decode_outcome(bytes: Seq<u8>) -> Result<(u32, u32, Seq<u8>, bool), TraceErrorView> {
    match header_size(bytes) {
        Err(m) => Err(TraceErrorView::Decode(m)),
        Ok((w0, h0)) => if decode_need(w0, h0) > MAX_DECODE_ALLOC {
            Err(TraceErrorView::Decode(too_large_to_decode_text(w0, h0)))
        } else {
            let fit = match decoded_to_fit(bytes, MAX_DECODE_ALLOC, MAX_DIM) {
                Err(m) => Err(TraceErrorView::Decode(m)),
                Ok((w, h, d)) => Ok((w, h, d, true)),
            };
            if w0 > MAX_DIM || h0 > MAX_DIM {
                fit
            } else {
                match decoded(bytes, MAX_DECODE_ALLOC) {
                    Err(m) => Err(TraceErrorView::Decode(m)),
                    Ok((w, h, d)) => if w > MAX_DIM || h > MAX_DIM {
                        fit
                    } else {
                        Ok((w, h, d, false))
                    },
                }
            }
        },
    }
}

/// Decodes an image for the tracer, as `decode_outcome` says: refused from its header alone
/// when decoding it would need more than `MAX_DECODE_ALLOC`, scaled down when it is larger than
/// `MAX_DIM` on a side. Says whether it was scaled.
pub fn decode_and_downscale(bytes: &[u8]) -> (r: Result<(RgbaPixels, bool), TraceError>)
    ensures
        match r {
            Ok((p, scaled)) => p.wf() && p.width <= MAX_DIM && p.height <= MAX_DIM && decode_outcome(
                bytes@,
            ) == Ok::<(u32, u32, Seq<u8>, bool), TraceErrorView>((p.width, p.height, p.data@, scaled)),
            Err(e) => decode_outcome(bytes@) == Err::<(u32, u32, Seq<u8>, bool), TraceErrorView>(e@),
        },
{
    let (w0, h0) = match read_header_size(bytes) {
        Ok(d) => d,
        Err(m) => {
            return Err(TraceError::Decode(m));
        },
    };
    match decode_budget(w0, h0) {
        Err(e) => {
            return Err(e);
        },
        Ok(()) => {},
    }
    if !needs_downscale(w0, h0) {
        match decode_rgba(bytes, MAX_DECODE_ALLOC) {
            Err(m) => {
                return Err(TraceError::Decode(m));
            },
            Ok(p) => {
                if !needs_downscale(p.width, p.height) {
                    return Ok((p, false));
                }
            },
        }
    }
    match decode_rgba_to_fit(bytes, MAX_DECODE_ALLOC, MAX_DIM) {
        Err(m) => Err(TraceError::Decode(m)),
        Ok(p) => Ok((p, true)),
    }
}

/// An image readied for the tracer: the pixels it is fed and whether a transparent row was
/// added to them, and the size of the image as decoded, and whether that was scaled down.
pub struct PreparedTrace {
    pub fed: RgbaPixels,
    pub padded: bool,
    pub width: u32,
    pub height: u32,
    pub downscaled: bool,
}

/// Readies an image for the tracer, in order: the options are checked before anything is
/// decoded, the image is decoded and scaled as `decode_and_downscale` does, and its pixels are
/// prepared as `prepare_pixels` does. `length_threshold_in_range` says whether the length
/// threshold lies within 3.5 to 10.0.
pub fn prepare_trace(
    bytes: &[u8],
    filter_speckle: u8,
    corner_threshold: u8,
    length_threshold_in_range: bool,
    color_precision: u8,
    mode: TraceMode,
) -> (r: Result<PreparedTrace, TraceError>)
    ensures
        match options_verdict(filter_speckle, corner_threshold, length_threshold_in_range, color_precision) {
            Err(e) => r matches Err(x) && x@ == e,
            Ok(()) => match decode_outcome(bytes@) {
                Err(e) => r matches Err(x) && x@ == e,
                Ok((w, h, d, scaled)) => if fully_transparent(d) {
                    r matches Err(x) && x@ == TraceErrorView::EmptyResult
                } else {
                    r matches Ok(t) && {
                        &&& t.width == w && t.height == h && t.downscaled == scaled
                        &&& t.fed.wf() && t.fed.width == w
                        &&& t.fed.height == if t.padded {
                            h + 1
                        } else {
                            h as int
                        }
                        &&& (t.fed.data@, t.padded) == fed_pixels(d, w, mode)
                    }
                },
            },
        },
{
    validate(filter_speckle, corner_threshold, length_threshold_in_range, color_precision)?;
    let (img, downscaled) = decode_and_downscale(bytes)?;
    let width = img.width;
    let height = img.height;
    proof {
        let n = img.data@.len();
        assert(n + 4 * (width as nat) <= 4 * 2048 * 2048 + 4 * 2048) by (nonlinear_arith)
            requires
                n == 4 * (width as nat) * (height as nat),
                width <= 2048,
                height <= 2048,
        ;
    }
    let (fed, padded) = prepare_pixels(img, mode)?;
    Ok(PreparedTrace { fed, padded, width, height, downscaled })
}

/// A preview of an image as the tracer would see it: decoded and scaled as for a trace, then
/// written as PNG; the encoder's refusal is a trace failure.
pub fn preview_png(bytes: &[u8]) -> (r: Result<Vec<u8>, TraceError>)
    ensures
        match decode_outcome(bytes@) {
            Err(e) => r matches Err(x) && x@ == e,
            Ok((w, h, d, _)) => match png_encoding(w, h, d) {
                Ok(b) => r matches Ok(v) && v@ == b,
                Err(m) => r matches Err(x) && x@ == TraceErrorView::Trace(m),
            },
        },
{
    let (p, _) = decode_and_downscale(bytes)?;
    match encode_png(&p) {
        Ok(b) => Ok(b),
        Err(m) => Err(TraceError::Trace(m)),
    }
}

} // verus!
