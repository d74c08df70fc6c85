//! Reading SVG path data, and why geometry can be refused. The path data a shape carries is
//! read in the minimal dialect the editor writes: the absolute commands `M`, `L`, `C` and `Z`,
//! their numbers separated by commas or white space. What is read here is the command letters
//! and the text of their numbers, each checked against the grammar of a decimal number; what
//! the numbers are worth is the geometry's business.
use vstd::prelude::*;
use crate::text::{chars_of, is_dec_digit, string_of};

verus! {

/// The boolean operations on outlines.
#[derive(Clone, Copy, Debug, PartialEq, Eq, Structural)]
pub enum BoolOp {
    Union,
    Subtract,
    Intersect,
    Exclude,
}

/// Why geometry could not be had.
#[derive(Debug)]
pub enum GeomError {
    /// Path data that could not be read; the payload says where it went wrong.
    Parse(String),
    /// An operation that left nothing behind.
    Degenerate,
    /// No font is installed at all.
    NoFont,
    /// A font was found but its file could not be read.
    BadFont,
    /// The font cannot draw any of the text.
    NoGlyphs,
}

/// A `GeomError` with its text as characters.
pub enum GeomErrorView {
    Parse(Seq<char>),
    Degenerate,
    NoFont,
    BadFont,
    NoGlyphs,
}

impl View for GeomError {
    type V = GeomErrorView;

    open spec fn view(&self) -> GeomErrorView {
        match self {
            GeomError::Parse(m) => GeomErrorView::Parse(m@),
            GeomError::Degenerate => GeomErrorView::Degenerate,
            GeomError::NoFont => GeomErrorView::NoFont,
            GeomError::BadFont => GeomErrorView::BadFont,
            GeomError::NoGlyphs => GeomErrorView::NoGlyphs,
        }
    }
}

impl PartialEq for GeomError {
    fn eq(&self, other: &Self) -> (r: bool) {
        let same = match (self, other) {
            (GeomError::Parse(a), GeomError::Parse(b)) => *a == *b,
            (GeomError::Degenerate, GeomError::Degenerate) => true,
            (GeomError::NoFont, GeomError::NoFont) => true,
            (GeomError::BadFont, GeomError::BadFont) => true,
            (GeomError::NoGlyphs, GeomError::NoGlyphs) => true,
            _ => false,
        };
        proof {
            if same {
                assert(self@ == other@);
            }
        }
        same
    }
}

impl vstd::std_specs::cmp::PartialEqSpecImpl for GeomError {
    open spec fn obeys_eq_spec() -> bool {
        true
    }

    open spec fn eq_spec(&self, other: &Self) -> bool {
        self@ == other@
    }
}

/// What an operator reads for each refusal.
pub open spec fn geom_error_message(e: GeomErrorView) -> Seq<char> {
    match e {
        GeomErrorView::Parse(m) => "the path data could not be read ("@ + m + ")"@,
        GeomErrorView::Degenerate => "the operation left no geometry behind"@,
        GeomErrorView::NoFont => "no fonts are installed on this system"@,
        GeomErrorView::BadFont => "a font was found, but its file could not be read"@,
        GeomErrorView::NoGlyphs => "the chosen font cannot draw any of this text"@,
    }
}

impl GeomError {
    /// The refusal in the words an operator reads.
    pub fn message(&self) -> (r: String)
        ensures
            r@ == geom_error_message(self@),
    {
        match self {
            GeomError::Parse(m) => {
                let mut r = String::from_str("the path data could not be read (");
                r.append(m.as_str());
                r.append(")");
                r
            },
            GeomError::Degenerate => String::from_str("the operation left no geometry behind"),
            GeomError::NoFont => String::from_str("no fonts are installed on this system"),
            GeomError::BadFont => String::from_str("a font was found, but its file could not be read"),
            GeomError::NoGlyphs => String::from_str("the chosen font cannot draw any of this text"),
        }
    }
}

/// A boolean operation needs at least two outlines; fewer leave nothing to combine.
pub fn enough_to_combine(count: usize) -> (r: Result<(), GeomError>)
    ensures
        count >= 2 ==> r is Ok,
        count < 2 ==> (r matches Err(e) && e@ == GeomErrorView::Degenerate),
{
    if count < 2 {
        Err(GeomError::Degenerate)
    } else {
        Ok(())
    }
}

// ---------------------------------------------------------------------------
// Path data
// ---------------------------------------------------------------------------

/// An ASCII letter: what starts a command.
pub open spec fn is_letter(c: char) -> bool {
    ('a' <= c <= 'z') || ('A' <= c <= 'Z')
}

/// A white-space character: those Unicode gives the White_Space property.
pub open spec fn is_white(c: char) -> bool {
    ||| ('\u{9}' <= c <= '\u{d}')
    ||| c == ' '
    ||| c == '\u{85}'
    ||| c == '\u{a0}'
    ||| c == '\u{1680}'
    ||| ('\u{2000}' <= c <= '\u{200a}')
    ||| c == '\u{2028}'
    ||| c == '\u{2029}'
    ||| c == '\u{202f}'
    ||| c == '\u{205f}'
    ||| c == '\u{3000}'
}

/// How many dots `s` holds.
pub open spec fn dots(s: Seq<char>) -> nat
    decreases s.len(),
{
    if s.len() == 0 {
        0
    } else {
        dots(s.drop_last()) + if s.last() == '.' {
            1nat
        } else {
            0nat
        }
    }
}

/// `s` without a leading sign.
pub open spec fn unsigned_part(s: Seq<char>) -> Seq<char> {
    if s.len() > 0 && (s[0] == '+' || s[0] == '-') {
        s.drop_first()
    } else {
        s
    }
}

/// Digits with at most one dot among them, and at least one digit.
pub open spec fn is_unsigned_number_text(t: Seq<char>) -> bool {
    &&& forall|i: int| 0 <= i < t.len() ==> is_dec_digit(#[trigger] t[i]) || t[i] == '.'
    &&& dots(t) <= 1
    &&& exists|i: int| 0 <= i < t.len() && is_dec_digit(#[trigger] t[i])
}

/// The text of a decimal number with no exponent: an optional sign, then digits with at most
/// one dot among them and at least one digit.
pub open spec fn is_number_text(s: Seq<char>) -> bool {
    is_unsigned_number_text(unsigned_part(s))
}

/// How many numbers a command needs: two for `M` and `L`, six for `C`, none for `Z`.
pub open spec fn arity(letter: char) -> nat {
    if letter == 'C' {
        6
    } else if letter == 'Z' {
        0
    } else {
        2
    }
}

/// A command the dialect knows.
pub open spec fn is_known_command(letter: char) -> bool {
    letter == 'M' || letter == 'L' || letter == 'C' || letter == 'Z'
}

/// One command read from path data: its letter and the text of every number gathered for it.
/// Only the first `arity` numbers are its own; the rest are read and not used.
pub struct PathCommand {
    pub letter: char,
    pub numbers: Vec<String>,
}

/// A command as values.
pub type PathCommandView = (char, Seq<Seq<char>>);

impl View for PathCommand {
    type V = PathCommandView;

    open spec fn view(&self) -> PathCommandView {
        (self.letter, texts_view(self.numbers@))
    }
}

/// Strings, each as its characters.
pub open spec fn texts_view(s: Seq<String>) -> Seq<Seq<char>> {
    s.map_values(|t: String| t@)
}

/// Commands, each as values.
pub open spec fn commands_view(s: Seq<PathCommand>) -> Seq<PathCommandView> {
    s.map_values(|c: PathCommand| c@)
}

/// Where reading has got to: the command being gathered, the number text being gathered, the
/// numbers gathered since the last command was closed, and the commands closed so far.
pub struct ScanState {
    pub command: Option<char>,
    pub buffer: Seq<char>,
    pub numbers: Seq<Seq<char>>,
    pub done: Seq<PathCommandView>,
}

/// The refusal's words for a command that came with fewer numbers than it needs.
pub open spec fn too_few_numbers_message(letter: char) -> Seq<char> {
    "too few numbers for cmd "@ + seq![letter]
}

/// The refusal for number text that is not a number.
pub open spec fn bad_number() -> GeomErrorView {
    GeomErrorView::Parse("nan"@)
}

/// The numbers with the buffered text added, when there is any and it reads as a number.
pub open spec fn take_buffer(buffer: Seq<char>, numbers: Seq<Seq<char>>) -> Result<Seq<Seq<char>>, GeomErrorView> {
    if buffer.len() == 0 {
        Ok(numbers)
    } else if is_number_text(buffer) {
        Ok(numbers.push(buffer))
    } else {
        Err(bad_number())
    }
}

/// Closes the command `letter` with `numbers`: a command the dialect does not know is refused,
/// and so is one with fewer numbers than it needs.
pub open spec fn close_command(letter: char, numbers: Seq<Seq<char>>, done: Seq<PathCommandView>) -> Result<
    Seq<PathCommandView>,
    GeomErrorView,
> {
    if !is_known_command(letter) {
        Err(GeomErrorView::Parse("cmd "@ + seq![letter]))
    } else if numbers.len() < arity(letter) {
        Err(GeomErrorView::Parse(too_few_numbers_message(letter)))
    } else {
        Ok(done.push((letter, numbers)))
    }
}

/// Reading one character. A letter closes the command being gathered, if there is one, with
/// its numbers, and starts its own; with no command being gathered the buffered text stays
/// buffered. A comma or white space ends the number text being gathered. Anything else is
/// number text.
pub open spec fn scan_step(st: ScanState, c: char) -> Result<ScanState, GeomErrorView> {
    if is_letter(c) {
        match st.command {
            Some(letter) => match take_buffer(st.buffer, st.numbers) {
                Ok(nums) => match close_command(letter, nums, st.done) {
                    Ok(done) => Ok(ScanState { command: Some(c), buffer: seq![], numbers: seq![], done }),
                    Err(f) => Err(f),
                },
                Err(f) => Err(f),
            },
            None => Ok(ScanState { command: Some(c), ..st }),
        }
    } else if c == ',' || is_white(c) {
        match take_buffer(st.buffer, st.numbers) {
            Ok(nums) => Ok(ScanState { buffer: seq![], numbers: nums, ..st }),
            Err(f) => Err(f),
        }
    } else {
        Ok(ScanState { buffer: st.buffer.push(c), ..st })
    }
}

/// Reading `s` from the start.
pub open spec fn scan(s: Seq<char>) -> Result<ScanState, GeomErrorView>
    decreases s.len(),
{
    if s.len() == 0 {
        Ok(ScanState { command: None, buffer: seq![], numbers: seq![], done: seq![] })
    } else {
        match scan(s.drop_last()) {
            Ok(st) => scan_step(st, s.last()),
            Err(f) => Err(f),
        }
    }
}

/// Reading path data: the characters and then one space, which ends the last number; then the
/// last command is closed with its numbers.
pub open spec fn read_path(d: Seq<char>) -> Result<Seq<PathCommandView>, GeomErrorView> {
    match scan(d.push(' ')) {
        Ok(st) => match st.command {
            Some(letter) => close_command(letter, st.numbers, st.done),
            None => Ok(st.done),
        },
        Err(f) => Err(f),
    }
}

proof fn lemma_fault_sticks(s: Seq<char>, i: int)
    requires
        0 <= i <= s.len(),
        scan(s.take(i)) is Err,
    ensures
        scan(s) == scan(s.take(i)),
    decreases s.len() - i,
{
    if i < s.len() {
        assert(s.take(i + 1).drop_last() =~= s.take(i));
        lemma_fault_sticks(s, i + 1);
    } else {
        assert(s.take(i) =~= s);
    }
}

/// A path read, or its fault, as values.
pub open spec fn reading_view(r: Result<Vec<PathCommand>, GeomError>) -> Result<
    Seq<PathCommandView>,
    GeomErrorView,
> {
    match r {
        Ok(v) => Ok(commands_view(v@)),
        Err(f) => Err(f@),
    }
}

fn char_is_letter(c: char) -> (r: bool)
    ensures
        r == is_letter(c),
{
    ('a' <= c && c <= 'z') || ('A' <= c && c <= 'Z')
}

fn char_is_white(c: char) -> (r: bool)
    ensures
        r == is_white(c),
{
    ('\u{9}' <= c && c <= '\u{d}') || c == ' ' || c == '\u{85}' || c == '\u{a0}' || c == '\u{1680}'
        || ('\u{2000}' <= c && c <= '\u{200a}') || c == '\u{2028}' || c == '\u{2029}' || c
        == '\u{202f}' || c == '\u{205f}' || c == '\u{3000}'
}

fn number_text_ok(s: &Vec<char>) -> (r: bool)
    ensures
        r == is_number_text(s@),
{
    let start: usize = if s.len() > 0 && (s[0] == '+' || s[0] == '-') {
        1
    } else {
        0
    };
    let ghost t = unsigned_part(s@);
    assert(t =~= s@.subrange(start as int, s@.len() as int));
    let mut i: usize = start;
    let mut dot_count: usize = 0;
    let mut digits: bool = false;
    let mut allowed: bool = true;
    while i < s.len()
        invariant
            start <= i <= s.len(),
            t == s@.subrange(start as int, s@.len() as int),
            dot_count == dots(t.take(i - start)),
            dot_count <= i - start,
            allowed == (forall|j: int| 0 <= j < i - start ==> is_dec_digit(#[trigger] t[j]) || t[j] == '.'),
            digits == (exists|j: int| 0 <= j < i - start && is_dec_digit(#[trigger] t[j])),
        decreases s.len() - i,
    {
        let c = s[i];
        assert(t[i - start] == c);
        assert(t.take(i - start + 1).drop_last() =~= t.take(i - start));
        if c == '.' {
            dot_count = dot_count + 1;
        } else if '0' <= c && c <= '9' {
            digits = true;
        } else {
            allowed = false;
        }
        i = i + 1;
        proof {
            if !allowed {
                assert(!(forall|j: int| 0 <= j < i - start ==> is_dec_digit(#[trigger] t[j]) || t[j] == '.')) by {
                    if !('0' <= c && c <= '9') && c != '.' {
                        assert(!(is_dec_digit(t[i - 1 - start]) || t[i - 1 - start] == '.'));
                    }
                }
            }
            if digits {
                if '0' <= c && c <= '9' {
                    assert(is_dec_digit(t[i - 1 - start]));
                }
            }
        }
    }
    assert(t.take(t.len() as int) =~= t);
    assert(t.len() == i - start);
    proof {
        assert(dots(t) == dot_count);
        assert(allowed == (forall|j: int| 0 <= j < t.len() ==> is_dec_digit(#[trigger] t[j]) || t[j] == '.'));
        assert(digits == (exists|j: int| 0 <= j < t.len() && is_dec_digit(#[trigger] t[j])));
    }
    allowed && dot_count <= 1 && digits
}

/// The numbers as strings, each as its characters, gathered so far.
fn close_exec(letter: char, numbers: &mut Vec<String>, done: &mut Vec<PathCommand>) -> (r: Result<
    (),
    GeomError,
>)
    ensures
        match close_command(letter, texts_view(old(numbers)@), commands_view(old(done)@)) {
            Ok(d) => r is Ok && commands_view(final(done)@) == d && final(numbers)@.len() == 0,
            Err(f) => r matches Err(x) && x@ == f,
        },
{
    if !(letter == 'M' || letter == 'L' || letter == 'C' || letter == 'Z') {
        let mut m = String::from_str("cmd ");
        crate::text::push_char(&mut m, letter);
        assert(m@ =~= "cmd "@ + seq![letter]);
        return Err(GeomError::Parse(m));
    }
    let need: usize = if letter == 'C' {
        6
    } else if letter == 'Z' {
        0
    } else {
        2
    };
    if numbers.len() < need {
        let mut m = String::from_str("too few numbers for cmd ");
        crate::text::push_char(&mut m, letter);
        assert(m@ =~= too_few_numbers_message(letter));
        return Err(GeomError::Parse(m));
    }
    let mut taken: Vec<String> = Vec::new();
    std::mem::swap(&mut taken, numbers);
    let ghost before = commands_view(done@);
    done.push(PathCommand { letter, numbers: taken });
    assert(commands_view(done@) =~= before.push((letter, texts_view(taken@))));
    Ok(())
}

/// Reads path data into its commands, each with the text of its numbers, as `read_path` says:
/// an unknown command letter, number text that is not a number, and a command that comes with
/// fewer numbers than it needs each refuse it as malformed.
pub fn read_path_data(d: &str) -> (r: Result<Vec<PathCommand>, GeomError>)
    ensures
        reading_view(r) == read_path(d@),
{
    let mut chars = chars_of(d);
    chars.push(' ');
    let ghost all = chars@;
    assert(all =~= d@.push(' '));
    let mut command: Option<char> = None;
    let mut buffer: Vec<char> = Vec::new();
    let mut numbers: Vec<String> = Vec::new();
    let mut done: Vec<PathCommand> = Vec::new();
    let mut i: usize = 0;
    assert(all.take(0) =~= Seq::<char>::empty());
    assert(texts_view(numbers@) =~= Seq::<Seq<char>>::empty());
    assert(commands_view(done@) =~= Seq::<PathCommandView>::empty());
    while i < chars.len()
        invariant
            i <= chars.len(),
            all == chars@,
            all == d@.push(' '),
            scan(all.take(i as int)) == Ok::<ScanState, GeomErrorView>(
                ScanState {
                    command,
                    buffer: buffer@,
                    numbers: texts_view(numbers@),
                    done: commands_view(done@),
                },
            ),
        decreases chars.len() - i,
    {
        let c = chars[i];
        assert(all.take(i + 1).drop_last() =~= all.take(i as int));
        assert(all.take(i + 1).last() == c);
        let ghost st = ScanState {
            command,
            buffer: buffer@,
            numbers: texts_view(numbers@),
            done: commands_view(done@),
        };
        let ends_number = c == ',' || char_is_white(c);
        if char_is_letter(c) {
            match command {
                Some(letter) => {
                    if buffer.len() > 0 {
                        if number_text_ok(&buffer) {
                            let ghost nv = texts_view(numbers@);
                            numbers.push(string_of(&buffer));
                            assert(texts_view(numbers@) =~= nv.push(buffer@));
                        } else {
                            proof {
                                assert(scan(all.take(i + 1)) == Err::<ScanState, GeomErrorView>(bad_number()));
                                lemma_fault_sticks(all, i + 1);
                            }
                            return Err(GeomError::Parse(String::from_str("nan")));
                        }
                    }
                    match close_exec(letter, &mut numbers, &mut done) {
                        Ok(()) => {},
                        Err(f) => {
                            proof {
                                assert(scan(all.take(i + 1)) == Err::<ScanState, GeomErrorView>(f@));
                                lemma_fault_sticks(all, i + 1);
                            }
                            return Err(f);
                        },
                    }
                    buffer = Vec::new();
                    assert(texts_view(numbers@) =~= Seq::<Seq<char>>::empty());
                },
                None => {},
            }
            command = Some(c);
        } else if ends_number {
            if buffer.len() > 0 {
                if number_text_ok(&buffer) {
                    let ghost nv = texts_view(numbers@);
                    numbers.push(string_of(&buffer));
                    assert(texts_view(numbers@) =~= nv.push(buffer@));
                } else {
                    proof {
                        assert(scan(all.take(i + 1)) == Err::<ScanState, GeomErrorView>(bad_number()));
                        lemma_fault_sticks(all, i + 1);
                    }
                    return Err(GeomError::Parse(String::from_str("nan")));
                }
                buffer = Vec::new();
            }
        } else {
            buffer.push(c);
        }
        i = i + 1;
        assert(buffer@ =~= match scan_step(st, c) {
            Ok(s2) => s2.buffer,
            Err(_) => buffer@,
        });
    }
    assert(all.take(chars.len() as int) =~= all);
    match command {
        Some(letter) => match close_exec(letter, &mut numbers, &mut done) {
            Ok(()) => Ok(done),
            Err(f) => Err(f),
        },
        None => Ok(done),
    }
}

} // verus!
