//! Serial ports: which enumerated ports could be a cutter, and what an adapter says about
//! itself.
use vstd::prelude::*;
use crate::text::{chars_equal, chars_of, has_prefix, push_chars, slice_chars, starts_with, string_of, trim_chars, trimmed};
use crate::transport::{TransportError, TransportErrorView};

verus! {

/// One enumerated serial port: the node to open, and the adapter's serial number where it
/// reports one.
#[derive(Debug, Clone)]
pub struct PortId {
    /// The device node to open. Assigned in probe order, so it is not an identity.
    pub path: String,
    /// The adapter's serial number, where it reports one.
    pub serial_number: Option<String>,
}

/// A `PortId` as characters.
pub struct PortIdView {
    pub path: Seq<char>,
    pub serial_number: Option<Seq<char>>,
}

impl View for PortId {
    type V = PortIdView;

    open spec fn view(&self) -> PortIdView {
        PortIdView {
            path: self.path@,
            serial_number: match &self.serial_number {
                Some(s) => Some(s@),
                None => None,
            },
        }
    }
}

impl PartialEq for PortId {
    fn eq(&self, other: &Self) -> (r: bool) {
        let same_sn = match (&self.serial_number, &other.serial_number) {
            (Some(a), Some(b)) => *a == *b,
            (None, None) => true,
            _ => false,
        };
        self.path == other.path && same_sn
    }
}

impl vstd::std_specs::cmp::PartialEqSpecImpl for PortId {
    open spec fn obeys_eq_spec() -> bool {
        true
    }

    open spec fn eq_spec(&self, other: &Self) -> bool {
        self@ == other@
    }
}

impl Eq for PortId {
}

impl PortId {
    /// Whether this port still means the same adapter after the OS re-enumerates: true when it
    /// is named by a serial number rather than by probe order.
    pub fn is_stable(&self) -> (r: bool)
        ensures
            r == (self.serial_number is Some),
    {
        self.serial_number.is_some()
    }
}

/// An adapter's serial number: the descriptor, trimmed, unless it is absent or blank.
pub open spec fn serial_number_spec(descriptor: Option<Seq<char>>) -> Option<Seq<char>> {
    match descriptor {
        Some(sn) if trimmed(sn).len() > 0 => Some(trimmed(sn)),
        _ => None,
    }
}

/// An adapter's serial number from its USB descriptor.
pub fn serial_number_of(descriptor: Option<&str>) -> (r: Option<String>)
    ensures
        match r {
            Some(s) => serial_number_spec(
                match descriptor {
                    Some(d) => Some(d@),
                    None => None,
                },
            ) == Some(s@),
            None => serial_number_spec(
                match descriptor {
                    Some(d) => Some(d@),
                    None => None,
                },
            ) is None,
        },
{
    match descriptor {
        Some(d) => {
            let t = trim_chars(&chars_of(d));
            if t.len() > 0 {
                Some(string_of(&t))
            } else {
                None
            }
        },
        None => None,
    }
}

/// The port names a list of names is made of.
pub open spec fn names_view(names: Seq<String>) -> Seq<Seq<char>> {
    names.map_values(|n: String| n@)
}

/// The callout prefix macOS gives the node to talk to.
pub open spec fn callout_prefix() -> Seq<char> {
    "/dev/cu."@
}

/// The dial-in prefix macOS gives the twin that blocks on carrier detect.
pub open spec fn dialin_prefix() -> Seq<char> {
    "/dev/tty."@
}

/// Ports macOS exposes permanently, none of them ever a cutter.
pub open spec fn never_a_cutter(b: Seq<char>) -> bool {
    b == "Bluetooth-Incoming-Port"@ || b == "debug-console"@ || b == "wlan-debug"@
}

/// Whether port `n` is kept out of `all`: a known system port is dropped, and a dial-in node
/// is dropped when its callout twin is also listed. Everything else stays — a serial port
/// identifies nothing, so survivors are still only candidates.
pub open spec fn keep_port(n: Seq<char>, all: Seq<Seq<char>>) -> bool {
    if starts_with(n, callout_prefix()) && never_a_cutter(n.skip(callout_prefix().len() as int)) {
        false
    } else if starts_with(n, dialin_prefix()) {
        let dialin = n.skip(dialin_prefix().len() as int);
        !never_a_cutter(dialin) && !all.contains(callout_prefix() + dialin)
    } else {
        true
    }
}

/// The kept ports of `prefix`, in order.
pub open spec fn kept_ports(prefix: Seq<Seq<char>>, all: Seq<Seq<char>>) -> Seq<Seq<char>>
    decreases prefix.len(),
{
    if prefix.len() == 0 {
        Seq::empty()
    } else {
        let r = kept_ports(prefix.drop_last(), all);
        if keep_port(prefix.last(), all) {
            r.push(prefix.last())
        } else {
            r
        }
    }
}

fn is_never_a_cutter(b: &Vec<char>) -> (r: bool)
    ensures
        r == never_a_cutter(b@),
{
    chars_equal(b, &chars_of("Bluetooth-Incoming-Port")) || chars_equal(b, &chars_of("debug-console"))
        || chars_equal(b, &chars_of("wlan-debug"))
}

fn lists_name(names: &Vec<String>, want: &Vec<char>) -> (r: bool)
    ensures
        r == names_view(names@).contains(want@),
{
    let mut i: usize = 0;
    while i < names.len()
        invariant
            i <= names@.len(),
            forall|j: int| 0 <= j < i ==> names@[j]@ != want@,
        decreases names@.len() - i,
    {
        if chars_equal(&chars_of(names[i].as_str()), want) {
            assert(names_view(names@)[i as int] == want@);
            return true;
        }
        i = i + 1;
    }
    assert(!names_view(names@).contains(want@)) by {
        if names_view(names@).contains(want@) {
            let k = choose|k: int| 0 <= k < names_view(names@).len() && names_view(names@)[k] == want@;
            assert(names@[k]@ == want@);
        }
    }
    false
}

fn keeps(n: &Vec<char>, names: &Vec<String>) -> (r: bool)
    ensures
        r == keep_port(n@, names_view(names@)),
{
    let cu = chars_of("/dev/cu.");
    let tty = chars_of("/dev/tty.");
    if has_prefix(n, &cu) {
        let bare = slice_chars(n, cu.len(), n.len());
        assert(bare@ =~= n@.skip(callout_prefix().len() as int));
        if is_never_a_cutter(&bare) {
            return false;
        }
    }
    if has_prefix(n, &tty) {
        let dialin = slice_chars(n, tty.len(), n.len());
        assert(dialin@ =~= n@.skip(dialin_prefix().len() as int));
        if is_never_a_cutter(&dialin) {
            return false;
        }
        let mut twin = String::new();
        twin.append("/dev/cu.");
        push_chars(&mut twin, &dialin);
        let twin_chars = chars_of(twin.as_str());
        return !lists_name(names, &twin_chars);
    }
    proof {
        reveal_strlit("/dev/cu.");
        reveal_strlit("/dev/tty.");
        if starts_with(n@, callout_prefix()) && starts_with(n@, dialin_prefix()) {
            assert(n@.subrange(0, 8)[5] == n@[5]);
            assert(n@.subrange(0, 9)[5] == n@[5]);
            assert(callout_prefix()[5] == 'c');
            assert(dialin_prefix()[5] == 't');
        }
    }
    true
}

/// Drops the ports that cannot be a cutter and keeps the rest, in order.
pub fn usable_ports(names: Vec<String>) -> (r: Vec<String>)
    ensures
        names_view(r@) == kept_ports(names_view(names@), names_view(names@)),
{
    let ghost all = names_view(names@);
    let mut out: Vec<String> = Vec::new();
    let mut i: usize = 0;
    while i < names.len()
        invariant
            i <= names@.len(),
            all == names_view(names@),
            names_view(out@) == kept_ports(all.take(i as int), all),
        decreases names@.len() - i,
    {
        let n = chars_of(names[i].as_str());
        let keep = keeps(&n, &names);
        let ghost before = out@;
        assert(all.take(i + 1).drop_last() =~= all.take(i as int));
        assert(all.take(i + 1).last() == names@[i as int]@);
        if keep {
            out.push(names[i].clone());
            assert(names_view(out@) =~= names_view(before).push(names@[i as int]@));
        }
        i = i + 1;
    }
    assert(all.take(names@.len() as int) =~= all);
    out
}


/// How a serial failure is reported: a port the OS no longer lists is a disconnect, whatever
/// the failure was, so an unplugged cable does not read as a timeout to keep polling through;
/// on a listed port a timeout stays a timeout and anything else keeps the OS's message.
pub open spec fn serial_failure(timed_out: bool, message: Seq<char>, still_present: bool) -> TransportErrorView {
    if !still_present {
        TransportErrorView::Disconnected
    } else if timed_out {
        TransportErrorView::Timeout
    } else {
        TransportErrorView::Io(message)
    }
}

/// Classifies a serial failure: whether it was a timeout, the OS's message, and whether the OS
/// still lists the port.
pub fn classify_serial_failure(timed_out: bool, message: String, still_present: bool) -> (r: TransportError)
    ensures
        r@ == serial_failure(timed_out, message@, still_present),
{
    if !still_present {
        TransportError::Disconnected
    } else if timed_out {
        TransportError::Timeout
    } else {
        TransportError::Io(message)
    }
}

/// Whether a port opened as `path` is among the ports the OS lists: by name, or, since a port
/// can be opened through an alias, by the path both resolve to. `ours` is what `path` resolves
/// to and `theirs` what each listed port resolves to, `None` where a path resolves to nothing.
pub open spec fn port_present(path: Seq<char>, listed: Seq<Seq<char>>, ours: Option<Seq<char>>, theirs: Seq<Option<Seq<char>>>) -> bool {
    ||| listed.contains(path)
    ||| (ours matches Some(o) && exists|i: int| 0 <= i < theirs.len() && theirs[i] == Some(o))
}

/// Optional strings, each as its characters.
pub open spec fn opt_names_view(s: Seq<Option<String>>) -> Seq<Option<Seq<char>>> {
    s.map_values(|o: Option<String>| match o {
        Some(t) => Some(t@),
        None => None,
    })
}

fn same_text(a: &String, b: &String) -> (r: bool)
    ensures
        r == (a@ == b@),
{
    let x = chars_of(a.as_str());
    let y = chars_of(b.as_str());
    chars_equal(&x, &y)
}

/// Whether the port opened as `path` is still listed by the OS, as `port_present` says.
pub fn port_is_present(path: &String, listed: &Vec<String>, ours: &Option<String>, theirs: &Vec<Option<String>>) -> (r:
    bool)
    ensures
        r == port_present(path@, names_view(listed@), match ours {
            Some(o) => Some(o@),
            None => None,
        }, opt_names_view(theirs@)),
{
    let ghost lv = names_view(listed@);
    let mut i: usize = 0;
    while i < listed.len()
        invariant
            i <= listed.len(),
            lv == names_view(listed@),
            forall|j: int| 0 <= j < i ==> lv[j] != path@,
        decreases listed.len() - i,
    {
        if same_text(&listed[i], path) {
            assert(lv[i as int] == path@);
            return true;
        }
        i = i + 1;
    }
    assert(!lv.contains(path@));
    let ghost tv = opt_names_view(theirs@);
    match ours {
        None => false,
        Some(o) => {
            let mut k: usize = 0;
            while k < theirs.len()
                invariant
                    k <= theirs.len(),
                    tv == opt_names_view(theirs@),
                    *ours == Some(*o),
                    forall|j: int| 0 <= j < k ==> tv[j] != Some(o@),
                decreases theirs.len() - k,
            {
                match &theirs[k] {
                    Some(t) => {
                        if same_text(t, o) {
                            assert(tv[k as int] == Some(o@));
                            assert(exists|i: int| 0 <= i < tv.len() && tv[i] == Some(o@));
                            return true;
                        }
                    },
                    None => {},
                }
                k = k + 1;
            }
            false
        },
    }
}
} // verus!
