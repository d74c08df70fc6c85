//! How a USB cutter is named, and what that name survives: a serial number names the machine
//! itself, a bus address only the place it was last found.
use vstd::prelude::*;
use crate::text::{
    all_dec_digits, chars_of, dec, dec_value, find_char, first_index_of, has_char, has_prefix,
    lemma_dec, parse_u8, parse_u8_spec, push_chars, push_dec, slice_chars, starts_with, string_of,
    trim_chars, trimmed,
};
use crate::transport::{TransportError, TransportErrorView};

verus! {

/// How a Cameo is named.
#[derive(Debug, Clone)]
pub enum Locator {
    /// The device's own serial number.
    Serial(String),
    /// Where it was found, for a device that reports no serial number.
    BusAddress(u8, u8),
}

/// A `Locator` with its serial number as characters.
pub enum LocatorView {
    Serial(Seq<char>),
    BusAddress(u8, u8),
}

impl View for Locator {
    type V = LocatorView;

    open spec fn view(&self) -> LocatorView {
        match self {
            Locator::Serial(sn) => LocatorView::Serial(sn@),
            Locator::BusAddress(b, a) => LocatorView::BusAddress(*b, *a),
        }
    }
}

impl PartialEq for Locator {
    fn eq(&self, other: &Self) -> (r: bool) {
        match self {
            Locator::Serial(a) => match other {
                Locator::Serial(b) => *a == *b,
                _ => false,
            },
            Locator::BusAddress(b1, a1) => match other {
                Locator::BusAddress(b2, a2) => *b1 == *b2 && *a1 == *a2,
                _ => false,
            },
        }
    }
}

impl vstd::std_specs::cmp::PartialEqSpecImpl for Locator {
    open spec fn obeys_eq_spec() -> bool {
        true
    }

    open spec fn eq_spec(&self, other: &Self) -> bool {
        self@ == other@
    }
}

impl Eq for Locator {
}

/// The text form of a locator: `sn:<serial>`, or `<bus>:<address>` in decimal.
pub open spec fn locator_text(l: LocatorView) -> Seq<char> {
    match l {
        LocatorView::Serial(sn) => "sn:"@ + sn,
        LocatorView::BusAddress(b, a) => dec(b as nat) + seq![':'] + dec(a as nat),
    }
}

/// What reading `s` as a locator gives: a serial number after `sn:` (which must not be empty),
/// else two bytes in decimal around the first `:`; anything else is no locator.
pub open spec fn parse_locator_spec(s: Seq<char>) -> Option<LocatorView> {
    if starts_with(s, "sn:"@) {
        let sn = s.skip(3);
        if sn.len() == 0 {
            None
        } else {
            Some(LocatorView::Serial(sn))
        }
    } else {
        match first_index_of(s, ':') {
            None => None,
            Some(i) => match (parse_u8_spec(s.take(i)), parse_u8_spec(s.skip(i + 1))) {
                (Some(b), Some(a)) => Some(LocatorView::BusAddress(b, a)),
                _ => None,
            },
        }
    }
}

impl Locator {
    /// Whether this name still means the same machine after the OS re-enumerates.
    pub fn is_stable(&self) -> (r: bool)
        ensures
            r == (self@ is Serial),
    {
        match self {
            Locator::Serial(_) => true,
            _ => false,
        }
    }

    /// The locator's text form.
    pub fn to_text(&self) -> (s: String)
        ensures
            s@ == locator_text(self@),
    {
        let mut s = String::new();
        match self {
            Locator::Serial(sn) => {
                s.append("sn:");
                s.append(sn.as_str());
            },
            Locator::BusAddress(b, a) => {
                push_dec(&mut s, *b as u64);
                let mut colon = Vec::new();
                colon.push(':');
                push_chars(&mut s, &colon);
                push_dec(&mut s, *a as u64);
                assert(s@ =~= locator_text(self@));
            },
        }
        s
    }

    /// Reads a locator from its text form.
    pub fn parse_text(s: &str) -> (r: Option<Locator>)
        ensures
            match r {
                Some(l) => parse_locator_spec(s@) == Some(l@),
                None => parse_locator_spec(s@) is None,
            },
    {
        let v = chars_of(s);
        if has_prefix(&v, &chars_of("sn:")) {
            proof {
                reveal_strlit("sn:");
            }
            let sn = slice_chars(&v, 3, v.len());
            assert(sn@ =~= v@.skip(3));
            if sn.len() == 0 {
                return None;
            }
            return Some(Locator::Serial(string_of(&sn)));
        }
        match find_char(&v, ':') {
            None => None,
            Some(i) => {
                assert(i < v.len());
                let bus = slice_chars(&v, 0, i);
                let addr = slice_chars(&v, i + 1, v.len());
                assert(bus@ =~= v@.take(i as int));
                assert(addr@ =~= v@.skip(i + 1));
                match (parse_u8(&bus), parse_u8(&addr)) {
                    (Some(b), Some(a)) => Some(Locator::BusAddress(b, a)),
                    _ => None,
                }
            },
        }
    }
}

impl std::str::FromStr for Locator {
    type Err = ();

    /// Reads a locator from its text, as `parse_text` does; text that names no locator is
    /// refused.
    fn from_str(s: &str) -> (r: Result<Locator, ()>)
        ensures
            match r {
                Ok(l) => parse_locator_spec(s@) == Some(l@),
                Err(_) => parse_locator_spec(s@) is None,
            },
    {
        match Locator::parse_text(s) {
            Some(l) => Ok(l),
            None => Err(()),
        }
    }
}

/// Reads a locator, or gives none.
pub fn parse_locator(locator: &str) -> (r: Option<Locator>)
    ensures
        match r {
            Some(l) => parse_locator_spec(locator@) == Some(l@),
            None => parse_locator_spec(locator@) is None,
        },
{
    Locator::parse_text(locator)
}

/// The locator for one enumerated device: its serial number, trimmed, when it reports one that
/// is not blank; else where it was found.
pub open spec fn locator_for_spec(serial: Option<Seq<char>>, bus: u8, addr: u8) -> LocatorView {
    match serial {
        Some(sn) if trimmed(sn).len() > 0 => LocatorView::Serial(trimmed(sn)),
        _ => LocatorView::BusAddress(bus, addr),
    }
}

/// The locator for one enumerated device.
pub fn locator_for(serial: Option<&str>, bus: u8, addr: u8) -> (l: Locator)
    ensures
        l@ == locator_for_spec(
            match serial {
                Some(s) => Some(s@),
                None => None,
            },
            bus,
            addr,
        ),
{
    match serial {
        Some(sn) => {
            let t = trim_chars(&chars_of(sn));
            if t.len() > 0 {
                Locator::Serial(string_of(&t))
            } else {
                Locator::BusAddress(bus, addr)
            }
        },
        None => Locator::BusAddress(bus, addr),
    }
}

proof fn lemma_parse_dec_u8(b: u8)
    ensures
        parse_u8_spec(dec(b as nat)) == Some(b),
{
    lemma_dec(b as nat);
}

/// Every locator that names something reads back from its own text: a bus address always, a
/// serial number whenever it is not empty.
pub proof fn lemma_locator_round_trip(l: LocatorView)
    requires
        l matches LocatorView::Serial(sn) ==> sn.len() > 0,
    ensures
        parse_locator_spec(locator_text(l)) == Some(l),
{
    reveal_strlit("sn:");
    let s = locator_text(l);
    match l {
        LocatorView::Serial(sn) => {
            assert(s.subrange(0, 3) =~= "sn:"@);
            assert(s.skip(3) =~= sn);
        },
        LocatorView::BusAddress(b, a) => {
            lemma_dec(b as nat);
            lemma_dec(a as nat);
            let db = dec(b as nat);
            let i = db.len() as int;
            assert(s[0] == db[0]);
            assert(!starts_with(s, "sn:"@)) by {
                if starts_with(s, "sn:"@) {
                    assert(s.subrange(0, 3)[0] == 's');
                }
            }
            assert(s[i] == ':');
            assert forall|j: int| 0 <= j < i implies s[j] != ':' by {
                assert(s[j] == db[j]);
                assert(all_dec_digits(db));
            }
            assert(has_char(s, ':'));
            let w = choose|k: int| 0 <= k < s.len() && s[k] == ':' && forall|j: int| 0 <= j < k ==> s[j] != ':';
            assert(w == i) by {
                if w < i {
                    assert(s[w] != ':');
                } else if w > i {
                    assert(s[i] != ':');
                }
            }
            assert(s.take(i) =~= db);
            assert(s.skip(i + 1) =~= dec(a as nat));
            lemma_parse_dec_u8(b);
            lemma_parse_dec_u8(a);
        },
    }
}


/// How a USB transfer failure is reported: the transfer layer's own disconnect is a
/// disconnect; so is any failure once the OS no longer lists the device, since some platforms
/// report an unplug as an unknown error; anything else keeps its message.
pub open spec fn transfer_failure(disconnected: bool, message: Seq<char>, still_enumerated: bool) -> TransportErrorView {
    if disconnected || !still_enumerated {
        TransportErrorView::Disconnected
    } else {
        TransportErrorView::Io(message)
    }
}

/// Classifies a USB transfer failure: whether the transfer layer called it a disconnect, its
/// message, and whether the OS still lists the device.
pub fn classify_transfer_failure(disconnected: bool, message: String, still_enumerated: bool) -> (r:
    TransportError)
    ensures
        r@ == transfer_failure(disconnected, message@, still_enumerated),
{
    if disconnected || !still_enumerated {
        TransportError::Disconnected
    } else {
        TransportError::Io(message)
    }
}
} // verus!
