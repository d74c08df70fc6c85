//! The two machine dialects: HP-GL, spoken by the GCC Puma, and GP-GL, spoken by the Silhouette
//! Cameo. A pass arrives as polylines whose points are already in the machine's own units, and
//! leaves as the bytes the machine is sent. HP-GL writes a point `x,y` and ends a command with
//! `;`; GP-GL writes a point `y,x` and ends a command with the byte 0x03.
use vstd::prelude::*;
use crate::text::dec;
use crate::transport::{MachineCaps, Settings};

verus! {

/// A point in machine units, `(x, y)`.
pub type UnitPoint = (i64, i64);

/// The bytes of ASCII text.
pub open spec fn ascii(s: Seq<char>) -> Seq<u8> {
    s.map_values(|c: char| c as u8)
}

/// An integer as text: a `-` before the decimal numeral of a negative one.
pub open spec fn int_text(v: int) -> Seq<char> {
    if v < 0 {
        seq!['-'] + dec((-v) as nat)
    } else {
        dec(v as nat)
    }
}

/// `block` written `k` times over.
pub open spec fn repeated(block: Seq<u8>, k: nat) -> Seq<u8>
    decreases k,
{
    if k == 0 {
        seq![]
    } else {
        repeated(block, (k - 1) as nat) + block
    }
}

/// How many times a pass is cut: its repeat count, and at least once.
pub open spec fn times(repeat_count: u32) -> nat {
    if repeat_count == 0 {
        1
    } else {
        repeat_count as nat
    }
}

// ---------------------------------------------------------------------------
// Writing numbers and text as bytes
// ---------------------------------------------------------------------------

fn push_digits(out: &mut Vec<u8>, n: u64)
    ensures
        final(out)@ == old(out)@ + ascii(dec(n as nat)),
    decreases n,
{
    if n >= 10 {
        push_digits(out, n / 10);
    }
    let d: u8 = (n % 10) as u8;
    out.push(48u8 + d);
    proof {
        let c = crate::text::dec_digit_char((n % 10) as nat);
        assert(c as u8 == 48u8 + d);
        if n >= 10 {
            assert(dec(n as nat) == dec((n / 10) as nat).push(c));
            assert(ascii(dec(n as nat)) =~= ascii(dec((n / 10) as nat)).push(c as u8));
        } else {
            assert(dec(n as nat) == seq![c]);
            assert(ascii(dec(n as nat)) =~= seq![c as u8]);
        }
        assert(final(out)@ =~= old(out)@ + ascii(dec(n as nat)));
    }
}

fn push_int(out: &mut Vec<u8>, v: i64)
    ensures
        final(out)@ == old(out)@ + ascii(int_text(v as int)),
{
    if v < 0 {
        out.push(45u8);
        let magnitude: u64 = if v == i64::MIN {
            9223372036854775808u64
        } else {
            (0 - v) as u64
        };
        let ghost mid = out@;
        push_digits(out, magnitude);
        assert(ascii(seq!['-'] + dec((-v) as nat)) =~= seq![45u8] + ascii(dec((-v) as nat)));
        assert(out@ =~= old(out)@ + ascii(int_text(v as int)));
    } else {
        push_digits(out, v as u64);
    }
}

fn push_text(out: &mut Vec<u8>, s: &str)
    ensures
        final(out)@ == old(out)@ + ascii(s@),
{
    let ghost start = out@;
    for c in it: s.chars()
        invariant
            it.seq() == s@,
            out@ == start + ascii(it.seq().take(it.index() as int)),
    {
        let ghost before = out@;
        out.push(c as u8);
        assert(ascii(it.seq().take(it.index() + 1)) =~= ascii(it.seq().take(it.index() as int)).push(
            c as u8,
        ));
    }
    assert(s@.take(s@.len() as int) =~= s@);
}

fn push_all(out: &mut Vec<u8>, b: &Vec<u8>)
    ensures
        final(out)@ == old(out)@ + b@,
{
    let mut i: usize = 0;
    while i < b.len()
        invariant
            i <= b.len(),
            out@ == old(out)@ + b@.take(i as int),
        decreases b.len() - i,
    {
        out.push(b[i]);
        i = i + 1;
        assert(out@ =~= old(out)@ + b@.take(i as int));
    }
    assert(b@.take(b@.len() as int) =~= b@);
}

fn push_repeated(out: &mut Vec<u8>, block: &Vec<u8>, k: u32)
    ensures
        final(out)@ == old(out)@ + repeated(block@, k as nat),
{
    let mut i: u32 = 0;
    while i < k
        invariant
            i <= k,
            out@ == old(out)@ + repeated(block@, i as nat),
        decreases k - i,
    {
        push_all(out, block);
        i = i + 1;
        assert(out@ =~= old(out)@ + repeated(block@, i as nat));
    }
}

// ---------------------------------------------------------------------------
// HP-GL
// ---------------------------------------------------------------------------

/// One HP-GL point command: `PU` or `PD`, then `x,y;`.
pub open spec fn hpgl_point(cmd: Seq<char>, p: UnitPoint) -> Seq<u8> {
    ascii(cmd + int_text(p.0 as int) + ","@ + int_text(p.1 as int) + ";"@)
}

/// One polyline in HP-GL: pen up to its first point, pen down to each of the rest; nothing for
/// an empty one.
pub open spec fn hpgl_line(poly: Seq<UnitPoint>) -> Seq<u8>
    decreases poly.len(),
{
    if poly.len() == 0 {
        seq![]
    } else if poly.len() == 1 {
        hpgl_point("PU"@, poly[0])
    } else {
        hpgl_line(poly.drop_last()) + hpgl_point("PD"@, poly.last())
    }
}

/// Polylines in HP-GL, in order.
pub open spec fn hpgl_lines(polys: Seq<Seq<UnitPoint>>) -> Seq<u8>
    decreases polys.len(),
{
    if polys.len() == 0 {
        seq![]
    } else {
        hpgl_lines(polys.drop_last()) + hpgl_line(polys.last())
    }
}

/// A pass in HP-GL: its polylines, once per repetition. HP-GL has no speed or force.
pub open spec fn hpgl_pass(polys: Seq<Seq<UnitPoint>>, settings: Settings) -> Seq<u8> {
    repeated(hpgl_lines(polys), times(settings.repeat_count))
}

fn hpgl_write_point(out: &mut Vec<u8>, cmd: &str, p: UnitPoint)
    ensures
        final(out)@ == old(out)@ + hpgl_point(cmd@, p),
{
    push_text(out, cmd);
    push_int(out, p.0);
    push_text(out, ",");
    push_int(out, p.1);
    push_text(out, ";");
    assert(final(out)@ =~= old(out)@ + hpgl_point(cmd@, p));
}

fn hpgl_write_line(out: &mut Vec<u8>, poly: &Vec<UnitPoint>)
    ensures
        final(out)@ == old(out)@ + hpgl_line(poly@),
{
    if poly.len() == 0 {
        return ;
    }
    hpgl_write_point(out, "PU", poly[0]);
    assert(poly@.take(1).drop_last() =~= Seq::<UnitPoint>::empty());
    assert(out@ =~= old(out)@ + hpgl_line(poly@.take(1)));
    let mut i: usize = 1;
    while i < poly.len()
        invariant
            1 <= i <= poly.len(),
            out@ == old(out)@ + hpgl_line(poly@.take(i as int)),
        decreases poly.len() - i,
    {
        hpgl_write_point(out, "PD", poly[i]);
        assert(poly@.take(i + 1).drop_last() =~= poly@.take(i as int));
        i = i + 1;
        assert(out@ =~= old(out)@ + hpgl_line(poly@.take(i as int)));
    }
    assert(poly@.take(poly.len() as int) =~= poly@);
}

/// Encodes one pass in HP-GL: pen up to the start of each polyline and pen down along it, the
/// whole repeated `repeat_count` times and at least once. Empty polylines write nothing.
pub fn hpgl_encode_pass(polys: &Vec<Vec<UnitPoint>>, settings: &Settings) -> (r: Vec<u8>)
    ensures
        r@ == hpgl_pass(polys@.map_values(|p: Vec<UnitPoint>| p@), *settings),
{
    let ghost pv = polys@.map_values(|p: Vec<UnitPoint>| p@);
    let mut block: Vec<u8> = Vec::new();
    let mut i: usize = 0;
    while i < polys.len()
        invariant
            i <= polys.len(),
            pv == polys@.map_values(|p: Vec<UnitPoint>| p@),
            block@ == hpgl_lines(pv.take(i as int)),
        decreases polys.len() - i,
    {
        hpgl_write_line(&mut block, &polys[i]);
        assert(pv.take(i + 1).drop_last() =~= pv.take(i as int));
        i = i + 1;
    }
    assert(pv.take(polys.len() as int) =~= pv);
    let k: u32 = if settings.repeat_count == 0 {
        1
    } else {
        settings.repeat_count
    };
    let mut out: Vec<u8> = Vec::new();
    push_repeated(&mut out, &block, k);
    assert(out@ =~= hpgl_pass(pv, *settings));
    out
}

// ---------------------------------------------------------------------------
// GP-GL
// ---------------------------------------------------------------------------

/// The byte that ends a GP-GL command.
pub const ETX: u8 = 0x03;

/// One GP-GL command: its text, then ETX.
pub open spec fn gpgl_command(s: Seq<char>) -> Seq<u8> {
    ascii(s).push(ETX)
}

/// One GP-GL point command: `M` or `D`, then `y,x`.
pub open spec fn gpgl_point(cmd: Seq<char>, p: UnitPoint) -> Seq<u8> {
    gpgl_command(cmd + int_text(p.1 as int) + ","@ + int_text(p.0 as int))
}

/// One polyline in GP-GL: a move to its first point, a draw to each of the rest; nothing for an
/// empty one.
pub open spec fn gpgl_line(poly: Seq<UnitPoint>) -> Seq<u8>
    decreases poly.len(),
{
    if poly.len() == 0 {
        seq![]
    } else if poly.len() == 1 {
        gpgl_point("M"@, poly[0])
    } else {
        gpgl_line(poly.drop_last()) + gpgl_point("D"@, poly.last())
    }
}

/// Polylines in GP-GL, in order.
pub open spec fn gpgl_lines(polys: Seq<Seq<UnitPoint>>) -> Seq<u8>
    decreases polys.len(),
{
    if polys.len() == 0 {
        seq![]
    } else {
        gpgl_lines(polys.drop_last()) + gpgl_line(polys.last())
    }
}

/// A pass in GP-GL: select tool 1; its speed and its force when set; then its polylines, once
/// per repetition.
pub open spec fn gpgl_pass(polys: Seq<Seq<UnitPoint>>, settings: Settings) -> Seq<u8> {
    gpgl_command("J1"@) + match settings.speed {
        Some(sp) => gpgl_command("!"@ + dec(sp as nat) + ",1"@),
        None => seq![],
    } + match settings.force {
        Some(fo) => gpgl_command("FX"@ + dec(fo as nat) + ",1"@),
        None => seq![],
    } + repeated(gpgl_lines(polys), times(settings.repeat_count))
}

fn gpgl_write_point(out: &mut Vec<u8>, cmd: &str, p: UnitPoint)
    ensures
        final(out)@ == old(out)@ + gpgl_point(cmd@, p),
{
    push_text(out, cmd);
    push_int(out, p.1);
    push_text(out, ",");
    push_int(out, p.0);
    out.push(ETX);
    assert(final(out)@ =~= old(out)@ + gpgl_point(cmd@, p));
}

fn gpgl_write_line(out: &mut Vec<u8>, poly: &Vec<UnitPoint>)
    ensures
        final(out)@ == old(out)@ + gpgl_line(poly@),
{
    if poly.len() == 0 {
        return ;
    }
    gpgl_write_point(out, "M", poly[0]);
    assert(poly@.take(1).drop_last() =~= Seq::<UnitPoint>::empty());
    assert(out@ =~= old(out)@ + gpgl_line(poly@.take(1)));
    let mut i: usize = 1;
    while i < poly.len()
        invariant
            1 <= i <= poly.len(),
            out@ == old(out)@ + gpgl_line(poly@.take(i as int)),
        decreases poly.len() - i,
    {
        gpgl_write_point(out, "D", poly[i]);
        assert(poly@.take(i + 1).drop_last() =~= poly@.take(i as int));
        i = i + 1;
        assert(out@ =~= old(out)@ + gpgl_line(poly@.take(i as int)));
    }
    assert(poly@.take(poly.len() as int) =~= poly@);
}

fn gpgl_write_setting(out: &mut Vec<u8>, prefix: &str, v: u32)
    ensures
        final(out)@ == old(out)@ + gpgl_command(prefix@ + dec(v as nat) + ",1"@),
{
    push_text(out, prefix);
    push_digits(out, v as u64);
    push_text(out, ",1");
    out.push(ETX);
    assert(final(out)@ =~= old(out)@ + gpgl_command(prefix@ + dec(v as nat) + ",1"@));
}

/// Encodes one pass in GP-GL: tool 1, its speed and force where set, then a move to the start
/// of each polyline and draws along it, the polylines repeated `repeat_count` times and at
/// least once. Empty polylines write nothing.
pub fn gpgl_encode_pass(polys: &Vec<Vec<UnitPoint>>, settings: &Settings) -> (r: Vec<u8>)
    ensures
        r@ == gpgl_pass(polys@.map_values(|p: Vec<UnitPoint>| p@), *settings),
{
    let ghost pv = polys@.map_values(|p: Vec<UnitPoint>| p@);
    let mut out: Vec<u8> = Vec::new();
    push_text(&mut out, "J1");
    out.push(ETX);
    assert(out@ =~= gpgl_command("J1"@));
    let ghost head = out@;
    match settings.speed {
        Some(sp) => gpgl_write_setting(&mut out, "!", sp),
        None => {},
    }
    let ghost with_speed = out@;
    match settings.force {
        Some(fo) => gpgl_write_setting(&mut out, "FX", fo),
        None => {},
    }
    let mut block: Vec<u8> = Vec::new();
    let mut i: usize = 0;
    while i < polys.len()
        invariant
            i <= polys.len(),
            pv == polys@.map_values(|p: Vec<UnitPoint>| p@),
            block@ == gpgl_lines(pv.take(i as int)),
        decreases polys.len() - i,
    {
        gpgl_write_line(&mut block, &polys[i]);
        assert(pv.take(i + 1).drop_last() =~= pv.take(i as int));
        i = i + 1;
    }
    assert(pv.take(polys.len() as int) =~= pv);
    let k: u32 = if settings.repeat_count == 0 {
        1
    } else {
        settings.repeat_count
    };
    let ghost before_lines = out@;
    push_repeated(&mut out, &block, k);
    assert(out@ =~= gpgl_pass(pv, *settings));
    out
}

/// What one GP-GL pass header is: tool 1, then the speed and the force where each is set.
pub open spec fn gpgl_header(settings: Settings) -> Seq<u8> {
    gpgl_command("J1"@) + match settings.speed {
        Some(sp) => gpgl_command("!"@ + dec(sp as nat) + ",1"@),
        None => seq![],
    } + match settings.force {
        Some(fo) => gpgl_command("FX"@ + dec(fo as nat) + ",1"@),
        None => seq![],
    }
}

/// A polyline is cut as a move to its first point and a draw to each later point, in order;
/// GP-GL names a point `y,x`, HP-GL `x,y`. A lone point is a move alone.
pub proof fn lemma_a_polyline_is_a_move_then_draws(poly: Seq<UnitPoint>, q: UnitPoint)
    ensures
        gpgl_line(seq![q]) == ascii("M"@ + int_text(q.1 as int) + ","@ + int_text(q.0 as int)).push(ETX),
        hpgl_line(seq![q]) == ascii("PU"@ + int_text(q.0 as int) + ","@ + int_text(q.1 as int) + ";"@),
        poly.len() > 0 ==> gpgl_line(poly.push(q)) == gpgl_line(poly) + ascii(
            "D"@ + int_text(q.1 as int) + ","@ + int_text(q.0 as int),
        ).push(ETX),
        poly.len() > 0 ==> hpgl_line(poly.push(q)) == hpgl_line(poly) + ascii(
            "PD"@ + int_text(q.0 as int) + ","@ + int_text(q.1 as int) + ";"@,
        ),
        gpgl_line(seq![]) == Seq::<u8>::empty(),
        hpgl_line(seq![]) == Seq::<u8>::empty(),
{
    assert(poly.push(q).drop_last() =~= poly);
}

proof fn lemma_repeated_once(block: Seq<u8>)
    ensures
        repeated(block, 1) == block,
{
    assert(repeated(block, 0) + block =~= block);
}

/// A pass cut once is its header, then every polyline in order: adding a polyline to such a
/// pass adds its commands at the end, and a pass of no polylines is its header alone.
pub proof fn lemma_every_polyline_of_a_pass_is_cut_in_order(
    polys: Seq<Seq<UnitPoint>>,
    p: Seq<UnitPoint>,
    settings: Settings,
)
    ensures
        gpgl_pass(seq![], settings) == gpgl_header(settings),
        hpgl_pass(seq![], settings) == Seq::<u8>::empty(),
        times(settings.repeat_count) == 1 ==> gpgl_pass(polys.push(p), settings) == gpgl_pass(polys, settings)
            + gpgl_line(p),
        times(settings.repeat_count) == 1 ==> hpgl_pass(polys.push(p), settings) == hpgl_pass(polys, settings)
            + hpgl_line(p),
{
    assert(polys.push(p).drop_last() =~= polys);
    lemma_repeated_once(gpgl_lines(polys));
    lemma_repeated_once(gpgl_lines(polys.push(p)));
    lemma_repeated_once(hpgl_lines(polys));
    lemma_repeated_once(hpgl_lines(polys.push(p)));
    lemma_repeated_empty(times(settings.repeat_count));
}

proof fn lemma_repeated_empty(k: nat)
    ensures
        repeated(Seq::<u8>::empty(), k) == Seq::<u8>::empty(),
    decreases k,
{
    if k > 0 {
        lemma_repeated_empty((k - 1) as nat);
        assert(repeated(Seq::<u8>::empty(), (k - 1) as nat) + Seq::<u8>::empty() =~= Seq::<u8>::empty());
    }
}

/// Each repetition cuts every polyline of the pass once more: a pass cut `n + 1` times is the
/// pass cut `n` times followed by all its polylines again; a repeat count of zero cuts once.
pub proof fn lemma_each_repetition_cuts_every_polyline_again(polys: Seq<Seq<UnitPoint>>, settings: Settings)
    ensures
        1 <= settings.repeat_count < u32::MAX ==> gpgl_pass(
            polys,
            Settings { repeat_count: (settings.repeat_count + 1) as u32, ..settings },
        ) == gpgl_pass(polys, settings) + gpgl_lines(polys),
        1 <= settings.repeat_count < u32::MAX ==> hpgl_pass(
            polys,
            Settings { repeat_count: (settings.repeat_count + 1) as u32, ..settings },
        ) == hpgl_pass(polys, settings) + hpgl_lines(polys),
        gpgl_pass(polys, Settings { repeat_count: 0, ..settings }) == gpgl_pass(
            polys,
            Settings { repeat_count: 1, ..settings },
        ),
        hpgl_pass(polys, Settings { repeat_count: 0, ..settings }) == hpgl_pass(
            polys,
            Settings { repeat_count: 1, ..settings },
        ),
        gpgl_pass(polys, Settings { repeat_count: 1, ..settings }) == gpgl_header(settings) + gpgl_lines(polys),
        hpgl_pass(polys, Settings { repeat_count: 1, ..settings }) == hpgl_lines(polys),
{
    lemma_repeated_once(gpgl_lines(polys));
    lemma_repeated_once(hpgl_lines(polys));
    if 1 <= settings.repeat_count < u32::MAX {
        let n = settings.repeat_count as nat;
        assert(repeated(gpgl_lines(polys), n + 1) == repeated(gpgl_lines(polys), n) + gpgl_lines(polys));
        assert(repeated(hpgl_lines(polys), n + 1) == repeated(hpgl_lines(polys), n) + hpgl_lines(polys));
    }
}

/// Polylines are written one after the other: the commands for two runs of polylines are the
/// commands for the first, then for the second.
pub proof fn lemma_polylines_are_written_one_after_another(a: Seq<Seq<UnitPoint>>, b: Seq<Seq<UnitPoint>>)
    ensures
        gpgl_lines(a + b) == gpgl_lines(a) + gpgl_lines(b),
        hpgl_lines(a + b) == hpgl_lines(a) + hpgl_lines(b),
    decreases b.len(),
{
    if b.len() == 0 {
        assert(a + b =~= a);
        assert(gpgl_lines(a) + gpgl_lines(b) =~= gpgl_lines(a));
        assert(hpgl_lines(a) + hpgl_lines(b) =~= hpgl_lines(a));
    } else {
        assert((a + b).drop_last() =~= a + b.drop_last());
        assert((a + b).last() == b.last());
        lemma_polylines_are_written_one_after_another(a, b.drop_last());
        assert(gpgl_lines(a) + gpgl_lines(b.drop_last()) + gpgl_line(b.last()) =~= gpgl_lines(a) + (gpgl_lines(
            b.drop_last(),
        ) + gpgl_line(b.last())));
        assert(hpgl_lines(a) + hpgl_lines(b.drop_last()) + hpgl_line(b.last()) =~= hpgl_lines(a) + (hpgl_lines(
            b.drop_last(),
        ) + hpgl_line(b.last())));
    }
}

// ---------------------------------------------------------------------------
// The two machines
// ---------------------------------------------------------------------------

/// Which dialect a machine speaks.
#[derive(Clone, Copy, Debug, PartialEq, Eq, Structural)]
pub enum Dialect {
    Hpgl,
    Gpgl,
}

/// The bytes that begin a session: `IN;` for HP-GL, ESC EOT for GP-GL.
pub open spec fn session_begin_of(d: Dialect) -> Seq<u8> {
    match d {
        Dialect::Hpgl => ascii("IN;"@),
        Dialect::Gpgl => seq![0x1bu8, 0x04u8],
    }
}

/// The bytes between passes: pen up for HP-GL; nothing for GP-GL, which has no safe park.
pub open spec fn pass_park_of(d: Dialect) -> Seq<u8> {
    match d {
        Dialect::Hpgl => ascii("PU;"@),
        Dialect::Gpgl => seq![],
    }
}

/// The bytes that end a session: pen up for HP-GL; feed out and finish for GP-GL.
pub open spec fn session_end_of(d: Dialect) -> Seq<u8> {
    match d {
        Dialect::Hpgl => ascii("PU;"@),
        Dialect::Gpgl => gpgl_command("SO0"@) + gpgl_command("FN0"@),
    }
}

/// A pass encoded in a dialect.
pub open spec fn pass_of(d: Dialect, polys: Seq<Seq<UnitPoint>>, settings: Settings) -> Seq<u8> {
    match d {
        Dialect::Hpgl => hpgl_pass(polys, settings),
        Dialect::Gpgl => gpgl_pass(polys, settings),
    }
}

impl Dialect {
    /// What the machine can be told: GP-GL takes speed and force and answers status queries;
    /// HP-GL takes neither and needs the operator to confirm each pass.
    pub fn caps(&self) -> (c: MachineCaps)
        ensures
            c == (match *self {
                Dialect::Hpgl => MachineCaps {
                    supports_speed: false,
                    supports_force: false,
                    needs_operator_pass_confirm: true,
                },
                Dialect::Gpgl => MachineCaps {
                    supports_speed: true,
                    supports_force: true,
                    needs_operator_pass_confirm: false,
                },
            }),
    {
        match self {
            Dialect::Hpgl => MachineCaps {
                supports_speed: false,
                supports_force: false,
                needs_operator_pass_confirm: true,
            },
            Dialect::Gpgl => MachineCaps {
                supports_speed: true,
                supports_force: true,
                needs_operator_pass_confirm: false,
            },
        }
    }

    /// The bytes that begin a session.
    pub fn session_begin(&self) -> (r: Vec<u8>)
        ensures
            r@ == session_begin_of(*self),
    {
        let mut out: Vec<u8> = Vec::new();
        match self {
            Dialect::Hpgl => push_text(&mut out, "IN;"),
            Dialect::Gpgl => {
                out.push(0x1bu8);
                out.push(0x04u8);
                assert(out@ =~= seq![0x1bu8, 0x04u8]);
            },
        }
        out
    }

    /// The bytes between passes.
    pub fn pass_park(&self) -> (r: Vec<u8>)
        ensures
            r@ == pass_park_of(*self),
    {
        let mut out: Vec<u8> = Vec::new();
        match self {
            Dialect::Hpgl => push_text(&mut out, "PU;"),
            Dialect::Gpgl => {},
        }
        out
    }

    /// The bytes that end a session.
    pub fn session_end(&self) -> (r: Vec<u8>)
        ensures
            r@ == session_end_of(*self),
    {
        let mut out: Vec<u8> = Vec::new();
        match self {
            Dialect::Hpgl => push_text(&mut out, "PU;"),
            Dialect::Gpgl => {
                push_text(&mut out, "SO0");
                out.push(ETX);
                push_text(&mut out, "FN0");
                out.push(ETX);
                assert(out@ =~= gpgl_command("SO0"@) + gpgl_command("FN0"@));
            },
        }
        out
    }

    /// The bytes that stop a machine mid-pass, where the dialect has them: a pen up for HP-GL;
    /// none for GP-GL, which documents no abort.
    pub fn abort_bytes(&self) -> (r: Option<Vec<u8>>)
        ensures
            match *self {
                Dialect::Hpgl => r matches Some(b) && b@ == ascii("PU;"@),
                Dialect::Gpgl => r is None,
            },
    {
        match self {
            Dialect::Hpgl => {
                let mut out: Vec<u8> = Vec::new();
                push_text(&mut out, "PU;");
                Some(out)
            },
            Dialect::Gpgl => None,
        }
    }

    /// The status query both dialects answer: a bare ENQ.
    pub fn status_query(&self) -> (r: Vec<u8>)
        ensures
            r@ == seq![0x05u8],
    {
        let mut out: Vec<u8> = Vec::new();
        out.push(0x05u8);
        assert(out@ =~= seq![0x05u8]);
        out
    }

    /// Encodes one pass in this dialect.
    pub fn encode_pass(&self, polys: &Vec<Vec<UnitPoint>>, settings: &Settings) -> (r: Vec<u8>)
        ensures
            r@ == pass_of(*self, polys@.map_values(|p: Vec<UnitPoint>| p@), *settings),
    {
        match self {
            Dialect::Hpgl => hpgl_encode_pass(polys, settings),
            Dialect::Gpgl => gpgl_encode_pass(polys, settings),
        }
    }
}

/// The bytes that open pass `i` when the pass itself is `p`: the session's prologue before
/// the first pass.
pub open spec fn opened(begin: Seq<u8>, i: int, p: Seq<u8>) -> Seq<u8> {
    (if i == 0 {
        begin
    } else {
        Seq::<u8>::empty()
    }) + p
}

/// The bytes that close pass `i` of `n`: a park between passes, the session's end after the
/// last one.
pub open spec fn closed(park: Seq<u8>, end: Seq<u8>, i: int, n: int) -> Seq<u8> {
    if i + 1 < n {
        park
    } else {
        end
    }
}

/// The bytes that open pass `index`: the session's prologue before the first pass, then the
/// pass itself.
pub fn frame_pass(index: usize, begin: &Vec<u8>, encoded: &Vec<u8>) -> (r: Vec<u8>)
    ensures
        r@ == opened(begin@, index as int, encoded@),
{
    let mut out: Vec<u8> = Vec::new();
    if index == 0 {
        push_all(&mut out, begin);
    }
    push_all(&mut out, encoded);
    assert(out@ =~= opened(begin@, index as int, encoded@));
    out
}

/// The bytes that open pass `index` for a machine of dialect `d`.
pub fn open_pass(d: Dialect, polys: &Vec<Vec<UnitPoint>>, settings: &Settings, index: usize) -> (r: Vec<u8>)
    ensures
        r@ == opened(session_begin_of(d), index as int, pass_of(d, polys@.map_values(|p: Vec<UnitPoint>| p@), *settings)),
{
    let begin = d.session_begin();
    let encoded = d.encode_pass(polys, settings);
    frame_pass(index, &begin, &encoded)
}

/// The bytes that close pass `index` of `total`: a park between passes, the session's end after
/// the last one.
pub fn close_pass(d: Dialect, index: usize, total: usize) -> (r: Vec<u8>)
    ensures
        r@ == closed(pass_park_of(d), session_end_of(d), index as int, total as int),
{
    if total > 0 && index < total - 1 {
        d.pass_park()
    } else {
        d.session_end()
    }
}


/// What goes over the wire for the first `k` of the passes `ps`: each pass opened, then closed.
pub open spec fn session_wire(begin: Seq<u8>, park: Seq<u8>, end: Seq<u8>, ps: Seq<Seq<u8>>, k: nat) -> Seq<u8>
    decreases k,
{
    if k == 0 {
        seq![]
    } else {
        session_wire(begin, park, end, ps, (k - 1) as nat) + opened(begin, k - 1, ps[k - 1]) + closed(
            park,
            end,
            k - 1,
            ps.len() as int,
        )
    }
}

/// The first `k` passes, with a park between each two.
pub open spec fn parked_between(ps: Seq<Seq<u8>>, park: Seq<u8>, k: nat) -> Seq<u8>
    decreases k,
{
    if k == 0 {
        seq![]
    } else if k == 1 {
        ps[0]
    } else {
        parked_between(ps, park, (k - 1) as nat) + park + ps[k - 1]
    }
}

proof fn lemma_session_prefix(begin: Seq<u8>, park: Seq<u8>, end: Seq<u8>, ps: Seq<Seq<u8>>, k: nat)
    requires
        1 <= k <= ps.len(),
    ensures
        k < ps.len() ==> session_wire(begin, park, end, ps, k) == begin + parked_between(ps, park, k)
            + park,
        k == ps.len() ==> session_wire(begin, park, end, ps, k) == begin + parked_between(ps, park, k)
            + end,
    decreases k,
{
    if k == 1 {
        assert(session_wire(begin, park, end, ps, 0) =~= Seq::<u8>::empty());
        assert(opened(begin, 0, ps[0]) =~= begin + ps[0]);
        assert(session_wire(begin, park, end, ps, 1) =~= begin + ps[0] + closed(park, end, 0, ps.len() as int));
    } else {
        lemma_session_prefix(begin, park, end, ps, (k - 1) as nat);
        assert(opened(begin, k - 1, ps[k - 1]) =~= ps[k - 1]);
        let before = begin + parked_between(ps, park, (k - 1) as nat) + park;
        assert(session_wire(begin, park, end, ps, k) =~= before + ps[k - 1] + closed(park, end, k - 1, ps.len() as int));
        assert(begin + parked_between(ps, park, k) =~= before + ps[k - 1]);
    }
}

/// A job is framed once however many passes it has: opening and closing each pass in turn
/// sends the session's prologue once, before the first pass, the passes with a park between
/// each two, and the session's end once, after the last.
pub proof fn lemma_a_session_is_framed_once(begin: Seq<u8>, park: Seq<u8>, end: Seq<u8>, ps: Seq<Seq<u8>>)
    requires
        ps.len() >= 1,
    ensures
        session_wire(begin, park, end, ps, ps.len()) == begin + parked_between(ps, park, ps.len()) + end,
{
    lemma_session_prefix(begin, park, end, ps, ps.len());
}
} // verus!
