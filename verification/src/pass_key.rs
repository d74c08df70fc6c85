//! What a pass is called, and the one string form that name takes everywhere.
//!
//! The grammar: `all`, `color:RRGGBBAA` (eight hex digits, read in either case and written
//! lowercase), `no-color`, `preset:<id>` (the id is everything after the first `:`, and may be
//! empty or hold further colons), `no-preset`.
use vstd::prelude::*;
use crate::text::{
    chars_equal, chars_of, find_char, first_index_of, has_char, hex_digits, hex_value,
    lemma_hex_digits, parse_hex_u32, parse_hex_u32_spec, pow16, push_chars, push_hex, slice_chars,
    string_of,
};

verus! {

/// What a pass is keyed on — the answer to "which pass is this?" for whichever grouping
/// produced it. `All` is the single pass of a one-pass plan; `Color(None)` is the pass of shapes
/// with no visible paint; `Preset(None)` the pass of shapes resolving to no material.
#[derive(Clone, Debug)]
pub enum PassKey {
    All,
    Color(Option<u32>),
    Preset(Option<String>),
}

/// A `PassKey` with its preset id as characters.
pub enum PassKeyView {
    All,
    Color(Option<u32>),
    Preset(Option<Seq<char>>),
}

impl View for PassKey {
    type V = PassKeyView;

    open spec fn view(&self) -> PassKeyView {
        match self {
            PassKey::All => PassKeyView::All,
            PassKey::Color(c) => PassKeyView::Color(*c),
            PassKey::Preset(None) => PassKeyView::Preset(None),
            PassKey::Preset(Some(id)) => PassKeyView::Preset(Some(id@)),
        }
    }
}

impl PartialEq for PassKey {
    fn eq(&self, other: &Self) -> (r: bool) {
        match self {
            PassKey::All => match other {
                PassKey::All => true,
                _ => false,
            },
            PassKey::Color(a) => match other {
                PassKey::Color(b) => *a == *b,
                _ => false,
            },
            PassKey::Preset(a) => match other {
                PassKey::Preset(b) => match a {
                    Some(x) => match b {
                        Some(y) => {
                            let e = *x == *y;
                            proof {
                                if e {
                                    assert(self@ == other@);
                                }
                            }
                            e
                        },
                        None => false,
                    },
                    None => b.is_none(),
                },
                _ => false,
            },
        }
    }
}

impl vstd::std_specs::cmp::PartialEqSpecImpl for PassKey {
    open spec fn obeys_eq_spec() -> bool {
        true
    }

    open spec fn eq_spec(&self, other: &Self) -> bool {
        self@ == other@
    }
}

impl Eq for PassKey {
}

/// The canonical text of a key.
pub open spec fn key_text(k: PassKeyView) -> Seq<char> {
    match k {
        PassKeyView::All => "all"@,
        PassKeyView::Color(Some(c)) => "color:"@ + hex_digits(c as nat, 8),
        PassKeyView::Color(None) => "no-color"@,
        PassKeyView::Preset(Some(id)) => "preset:"@ + id,
        PassKeyView::Preset(None) => "no-preset"@,
    }
}

/// The refusal for text that is no key at all; it quotes the input.
pub open spec fn not_a_key_message(s: Seq<char>) -> Seq<char> {
    "'"@ + s + "' is not a pass key (all, color:RRGGBBAA, no-color, preset:<id>, no-preset)"@
}

/// The refusal for a colour key whose colour is not eight hex digits; it quotes the input.
pub open spec fn bad_colour_message(s: Seq<char>) -> Seq<char> {
    "'"@ + s + "' has a colour that is not 8 hex digits (RRGGBBAA)"@
}

/// What reading `s` as a key gives: the key, or the sentence refusing it.
pub open spec fn parse_key(s: Seq<char>) -> Result<PassKeyView, Seq<char>> {
    match first_index_of(s, ':') {
        None => if s == "all"@ {
            Ok(PassKeyView::All)
        } else if s == "no-color"@ {
            Ok(PassKeyView::Color(None))
        } else if s == "no-preset"@ {
            Ok(PassKeyView::Preset(None))
        } else {
            Err(not_a_key_message(s))
        },
        Some(i) => {
            let mode = s.subrange(0, i);
            let value = s.subrange(i + 1, s.len() as int);
            if mode == "color"@ {
                if value.len() == 8 && parse_hex_u32_spec(value) is Some {
                    Ok(PassKeyView::Color(Some(parse_hex_u32_spec(value)->0)))
                } else {
                    Err(bad_colour_message(s))
                }
            } else if mode == "preset"@ {
                Ok(PassKeyView::Preset(Some(value)))
            } else {
                Err(not_a_key_message(s))
            }
        },
    }
}

fn quoted(v: &Vec<char>, tail: &str) -> (r: String)
    ensures
        r@ == "'"@ + v@ + tail@,
{
    let mut r = String::new();
    r.append("'");
    push_chars(&mut r, v);
    r.append(tail);
    r
}

impl PassKey {
    /// A copy of this key.
    pub fn duplicate(&self) -> (r: PassKey)
        ensures
            r@ == self@,
    {
        match self {
            PassKey::All => PassKey::All,
            PassKey::Color(c) => PassKey::Color(*c),
            PassKey::Preset(None) => PassKey::Preset(None),
            PassKey::Preset(Some(id)) => PassKey::Preset(Some(id.clone())),
        }
    }

    /// The key's one string form: `all`, `color:rrggbbaa`, `no-color`, `preset:<id>`,
    /// `no-preset`.
    pub fn to_text(&self) -> (s: String)
        ensures
            s@ == key_text(self@),
    {
        let mut s = String::new();
        match self {
            PassKey::All => s.append("all"),
            PassKey::Color(Some(c)) => {
                s.append("color:");
                push_hex(&mut s, *c, 8);
            },
            PassKey::Color(None) => s.append("no-color"),
            PassKey::Preset(Some(id)) => {
                s.append("preset:");
                s.append(id.as_str());
            },
            PassKey::Preset(None) => s.append("no-preset"),
        }
        s
    }

    /// Reads a key from its string form, refusing by name anything that is not one.
    pub fn parse_text(s: &str) -> (r: Result<PassKey, String>)
        ensures
            match r {
                Ok(k) => parse_key(s@) == Ok::<PassKeyView, Seq<char>>(k@),
                Err(e) => parse_key(s@) == Err::<PassKeyView, Seq<char>>(e@),
            },
    {
        let v = chars_of(s);
        match find_char(&v, ':') {
            None => {
                if chars_equal(&v, &chars_of("all")) {
                    Ok(PassKey::All)
                } else if chars_equal(&v, &chars_of("no-color")) {
                    Ok(PassKey::Color(None))
                } else if chars_equal(&v, &chars_of("no-preset")) {
                    Ok(PassKey::Preset(None))
                } else {
                    Err(quoted(
                        &v,
                        "' is not a pass key (all, color:RRGGBBAA, no-color, preset:<id>, no-preset)",
                    ))
                }
            },
            Some(i) => {
                assert(i < v.len());
                let mode = slice_chars(&v, 0, i);
                let value = slice_chars(&v, i + 1, v.len());
                if chars_equal(&mode, &chars_of("color")) {
                    if value.len() == 8 {
                        match parse_hex_u32(&value) {
                            Some(c) => Ok(PassKey::Color(Some(c))),
                            None => Err(quoted(&v, "' has a colour that is not 8 hex digits (RRGGBBAA)")),
                        }
                    } else {
                        Err(quoted(&v, "' has a colour that is not 8 hex digits (RRGGBBAA)"))
                    }
                } else if chars_equal(&mode, &chars_of("preset")) {
                    let id = string_of(&value);
                    Ok(PassKey::Preset(Some(id)))
                } else {
                    Err(quoted(
                        &v,
                        "' is not a pass key (all, color:RRGGBBAA, no-color, preset:<id>, no-preset)",
                    ))
                }
            },
        }
    }
}

impl std::str::FromStr for PassKey {
    type Err = String;

    /// Reads a key from its text, as `parse_text` does, with the same refusal.
    fn from_str(s: &str) -> (r: Result<PassKey, String>)
        ensures
            match r {
                Ok(k) => parse_key(s@) == Ok::<PassKeyView, Seq<char>>(k@),
                Err(e) => parse_key(s@) == Err::<PassKeyView, Seq<char>>(e@),
            },
    {
        PassKey::parse_text(s)
    }
}

/// Every key reads back from its own text: writing then reading is the identity, so the text is
/// the key's one representation everywhere a key crosses a boundary.
pub proof fn lemma_key_text_round_trip(k: PassKeyView)
    ensures
        parse_key(key_text(k)) == Ok::<PassKeyView, Seq<char>>(k),
{
    reveal_strlit("all");
    reveal_strlit("no-color");
    reveal_strlit("no-preset");
    reveal_strlit("color:");
    reveal_strlit("preset:");
    reveal_strlit("color");
    reveal_strlit("preset");
    let s = key_text(k);
    match k {
        PassKeyView::All => {
            assert(!has_char(s, ':'));
        },
        PassKeyView::Color(None) => {
            assert(!has_char(s, ':'));
        },
        PassKeyView::Preset(None) => {
            assert(!has_char(s, ':'));
        },
        PassKeyView::Color(Some(c)) => {
            lemma_hex_digits(c as nat, 8);
            let h = hex_digits(c as nat, 8);
            assert(s[5] == ':');
            assert(forall|j: int| 0 <= j < 5 ==> s[j] != ':');
            assert(has_char(s, ':'));
            let w = choose|i: int| 0 <= i < s.len() && s[i] == ':' && forall|j: int| 0 <= j < i ==> s[j] != ':';
            assert(w == 5) by {
                if w < 5 {
                } else if w > 5 {
                    assert(s[5] != ':');
                }
            }
            assert(s.subrange(0, 5) =~= "color"@);
            assert(s.subrange(6, s.len() as int) =~= h);
            assert(h[0] != '+');
            assert(hex_value(h) == c as nat % pow16(8));
            assert(pow16(8) == 0x1_0000_0000) by {
                reveal_with_fuel(pow16, 9);
            }
        },
        PassKeyView::Preset(Some(id)) => {
            assert(s[6] == ':');
            assert(forall|j: int| 0 <= j < 6 ==> s[j] != ':');
            assert(has_char(s, ':'));
            let w = choose|i: int| 0 <= i < s.len() && s[i] == ':' && forall|j: int| 0 <= j < i ==> s[j] != ':';
            assert(w == 6) by {
                if w < 6 {
                } else if w > 6 {
                    assert(s[6] != ':');
                }
            }
            assert(s.subrange(0, 6) =~= "preset"@);
            assert(s.subrange(7, s.len() as int) =~= id);
            assert(s.subrange(0, 6) != "color"@);
        },
    }
}

/// No two keys write the same text.
pub proof fn lemma_key_text_injective(a: PassKeyView, b: PassKeyView)
    requires
        key_text(a) == key_text(b),
    ensures
        a == b,
{
    lemma_key_text_round_trip(a);
    lemma_key_text_round_trip(b);
}

} // verus!
