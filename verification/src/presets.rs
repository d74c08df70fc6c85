//! Material presets: the ones every build ships, the operator's own entries laid over them,
//! and how a pass's settings are resolved from a preset and a per-pass override.
use vstd::prelude::*;
use crate::text::push_dec;
use crate::transport::Settings;

verus! {

/// The only presets-file format this build reads or writes.
pub const PRESETS_VERSION: u32 = 1;

/// The settings a preset stores. `None` leaves the machine's own panel setting in force.
#[derive(Clone, Copy, Debug, PartialEq, Eq, Structural)]
pub struct PresetSettings {
    pub speed: Option<u32>,
    pub force: Option<u32>,
    pub repeat_count: u32,
}

/// One material a cut can be set up for, on one machine.
#[derive(Debug)]
pub struct MaterialPreset {
    pub id: String,
    pub name: String,
    pub machine_id: String,
    pub settings: PresetSettings,
    pub builtin: bool,
}

/// A `MaterialPreset` with its text as characters.
pub struct MaterialPresetView {
    pub id: Seq<char>,
    pub name: Seq<char>,
    pub machine_id: Seq<char>,
    pub settings: PresetSettings,
    pub builtin: bool,
}

impl View for MaterialPreset {
    type V = MaterialPresetView;

    open spec fn view(&self) -> MaterialPresetView {
        MaterialPresetView {
            id: self.id@,
            name: self.name@,
            machine_id: self.machine_id@,
            settings: self.settings,
            builtin: self.builtin,
        }
    }
}

impl MaterialPreset {
    /// A copy of this preset, field for field.
    pub fn duplicate(&self) -> (r: MaterialPreset)
        ensures
            r@ == self@,
    {
        MaterialPreset {
            id: self.id.clone(),
            name: self.name.clone(),
            machine_id: self.machine_id.clone(),
            settings: self.settings,
            builtin: self.builtin,
        }
    }
}

impl Clone for MaterialPreset {
    fn clone(&self) -> (r: MaterialPreset)
        ensures
            r@ == self@,
    {
        self.duplicate()
    }
}

impl PartialEq for MaterialPreset {
    fn eq(&self, other: &Self) -> (r: bool) {
        let same = self.id == other.id && self.name == other.name && self.machine_id
            == other.machine_id && self.settings == other.settings && self.builtin
            == other.builtin;
        proof {
            if same {
                assert(self@ == other@);
            }
        }
        same
    }
}

impl vstd::std_specs::cmp::PartialEqSpecImpl for MaterialPreset {
    open spec fn obeys_eq_spec() -> bool {
        true
    }

    open spec fn eq_spec(&self, other: &Self) -> bool {
        self@ == other@
    }
}

/// The presets, each as its view.
pub open spec fn presets_view(s: Seq<MaterialPreset>) -> Seq<MaterialPresetView> {
    s.map_values(|p: MaterialPreset| p@)
}

// ---------------------------------------------------------------------------
// The builtin presets
// ---------------------------------------------------------------------------

/// A builtin preset: repeated once, with the speed and force given.
pub open spec fn builtin_view(
    id: Seq<char>,
    name: Seq<char>,
    machine_id: Seq<char>,
    speed: Option<u32>,
    force: Option<u32>,
) -> MaterialPresetView {
    MaterialPresetView {
        id,
        name,
        machine_id,
        settings: PresetSettings { speed, force, repeat_count: 1 },
        builtin: true,
    }
}

/// The presets every build ships, in their fixed order: five Cameo 5 materials with speed and
/// force, then the same five for the Puma, whose speed and force are set on its panel.
pub open spec fn builtin_table() -> Seq<MaterialPresetView> {
    seq![
        builtin_view("cameo5-cardstock-medium"@, "Cardstock (Medium)"@, "cameo5"@, Some(5), Some(20)),
        builtin_view("cameo5-vinyl-adhesive"@, "Vinyl (Adhesive)"@, "cameo5"@, Some(8), Some(10)),
        builtin_view("cameo5-htv"@, "HTV"@, "cameo5"@, Some(8), Some(12)),
        builtin_view("cameo5-copy-paper"@, "Copy Paper"@, "cameo5"@, Some(10), Some(8)),
        builtin_view("cameo5-cardboard-thin"@, "Cardboard (Thin)"@, "cameo5"@, Some(3), Some(30)),
        builtin_view("puma-cardstock-medium"@, "Cardstock (Medium)"@, "puma"@, None, None),
        builtin_view("puma-vinyl-adhesive"@, "Vinyl (Adhesive)"@, "puma"@, None, None),
        builtin_view("puma-htv"@, "HTV"@, "puma"@, None, None),
        builtin_view("puma-copy-paper"@, "Copy Paper"@, "puma"@, None, None),
        builtin_view("puma-cardboard-thin"@, "Cardboard (Thin)"@, "puma"@, None, None),
    ]
}

fn builtin(id: &str, name: &str, machine_id: &str, speed: Option<u32>, force: Option<u32>) -> (p:
    MaterialPreset)
    ensures
        p@ == builtin_view(id@, name@, machine_id@, speed, force),
{
    MaterialPreset {
        id: String::from_str(id),
        name: String::from_str(name),
        machine_id: String::from_str(machine_id),
        settings: PresetSettings { speed, force, repeat_count: 1 },
        builtin: true,
    }
}

/// The presets every build ships.
pub fn builtin_presets() -> (r: Vec<MaterialPreset>)
    ensures
        presets_view(r@) == builtin_table(),
{
    let mut r: Vec<MaterialPreset> = Vec::new();
    r.push(builtin("cameo5-cardstock-medium", "Cardstock (Medium)", "cameo5", Some(5), Some(20)));
    r.push(builtin("cameo5-vinyl-adhesive", "Vinyl (Adhesive)", "cameo5", Some(8), Some(10)));
    r.push(builtin("cameo5-htv", "HTV", "cameo5", Some(8), Some(12)));
    r.push(builtin("cameo5-copy-paper", "Copy Paper", "cameo5", Some(10), Some(8)));
    r.push(builtin("cameo5-cardboard-thin", "Cardboard (Thin)", "cameo5", Some(3), Some(30)));
    r.push(builtin("puma-cardstock-medium", "Cardstock (Medium)", "puma", None, None));
    r.push(builtin("puma-vinyl-adhesive", "Vinyl (Adhesive)", "puma", None, None));
    r.push(builtin("puma-htv", "HTV", "puma", None, None));
    r.push(builtin("puma-copy-paper", "Copy Paper", "puma", None, None));
    r.push(builtin("puma-cardboard-thin", "Cardboard (Thin)", "puma", None, None));
    assert(presets_view(r@) =~= builtin_table());
    r
}

// ---------------------------------------------------------------------------
// Resolving a pass's settings
// ---------------------------------------------------------------------------

/// Per-pass settings a caller wants applied on top of whatever preset is selected; `None`
/// defers to the preset.
#[derive(Clone, Copy, Debug, PartialEq, Eq, Structural)]
pub struct SettingsOverride {
    pub speed: Option<u32>,
    pub force: Option<u32>,
    pub repeat_count: Option<u32>,
}

impl Default for SettingsOverride {
    /// Defers every field to the preset.
    fn default() -> (o: SettingsOverride)
        ensures
            o == (SettingsOverride { speed: None, force: None, repeat_count: None }),
    {
        SettingsOverride { speed: None, force: None, repeat_count: None }
    }
}

/// The first of two optional values that is present.
pub open spec fn first_of(a: Option<u32>, b: Option<u32>) -> Option<u32> {
    match a {
        Some(v) => Some(v),
        None => b,
    }
}

/// Override fields win over the preset's; with neither, one repetition and no speed or force.
pub open spec fn resolved_settings(preset: Option<PresetSettings>, o: SettingsOverride) -> Settings {
    Settings {
        speed: first_of(
            o.speed,
            match preset {
                Some(p) => p.speed,
                None => None,
            },
        ),
        force: first_of(
            o.force,
            match preset {
                Some(p) => p.force,
                None => None,
            },
        ),
        repeat_count: match first_of(
            o.repeat_count,
            match preset {
                Some(p) => Some(p.repeat_count),
                None => None,
            },
        ) {
            Some(n) => n,
            None => 1,
        },
    }
}

/// What the operator sets wins: each field the override sets is the resolved one, whatever the
/// preset says; a field the override leaves unset is the preset's, and with no preset there is
/// no speed or force and one repetition.
pub proof fn lemma_the_operator_overrides_the_preset(preset: Option<PresetSettings>, o: SettingsOverride)
    ensures
        o.speed matches Some(v) ==> resolved_settings(preset, o).speed == Some(v),
        o.force matches Some(v) ==> resolved_settings(preset, o).force == Some(v),
        o.repeat_count matches Some(n) ==> resolved_settings(preset, o).repeat_count == n,
        o.speed is None ==> resolved_settings(preset, o).speed == match preset {
            Some(p) => p.speed,
            None => None,
        },
        o.force is None ==> resolved_settings(preset, o).force == match preset {
            Some(p) => p.force,
            None => None,
        },
        o.repeat_count is None ==> resolved_settings(preset, o).repeat_count == match preset {
            Some(p) => p.repeat_count,
            None => 1,
        },
{
}

/// The settings a pass is cut with: each override field that is set, else the preset's.
pub fn resolve_settings(preset: Option<&MaterialPreset>, override_: &SettingsOverride) -> (s:
    Settings)
    ensures
        override_.speed matches Some(v) ==> s.speed == Some(v),
        override_.force matches Some(v) ==> s.force == Some(v),
        override_.repeat_count matches Some(n) ==> s.repeat_count == n,
        override_.speed is None ==> s.speed == match preset {
            Some(p) => p.settings.speed,
            None => None,
        },
        override_.force is None ==> s.force == match preset {
            Some(p) => p.settings.force,
            None => None,
        },
        override_.repeat_count is None ==> s.repeat_count == match preset {
            Some(p) => p.settings.repeat_count,
            None => 1,
        },
        s == resolved_settings(
            match preset {
                Some(p) => Some(p.settings),
                None => None,
            },
            *override_,
        ),
{
    let from: Option<PresetSettings> = match preset {
        Some(p) => Some(p.settings),
        None => None,
    };
    let speed = match override_.speed {
        Some(v) => Some(v),
        None => match from {
            Some(p) => p.speed,
            None => None,
        },
    };
    let force = match override_.force {
        Some(v) => Some(v),
        None => match from {
            Some(p) => p.force,
            None => None,
        },
    };
    let repeat_count = match override_.repeat_count {
        Some(v) => v,
        None => match from {
            Some(p) => p.repeat_count,
            None => 1,
        },
    };
    Settings { speed, force, repeat_count }
}

// ---------------------------------------------------------------------------
// Refusals
// ---------------------------------------------------------------------------

/// Every way the presets file refuses to be read or written.
#[derive(Debug)]
pub enum PresetError {
    /// The file's bytes arrived and did not make sense; the payload is the whole sentence.
    Corrupt(String),
    /// A format version other than the one this build reads, as found in the file.
    UnknownVersion(u64),
    /// The file's bytes could not be had; the payload is the system's diagnostic.
    Unreadable(String),
    /// The file could not be written; the payload is the system's diagnostic.
    Unwritable(String),
}

/// A `PresetError` with its text as characters.
pub enum PresetErrorView {
    Corrupt(Seq<char>),
    UnknownVersion(u64),
    Unreadable(Seq<char>),
    Unwritable(Seq<char>),
}

impl View for PresetError {
    type V = PresetErrorView;

    open spec fn view(&self) -> PresetErrorView {
        match self {
            PresetError::Corrupt(m) => PresetErrorView::Corrupt(m@),
            PresetError::UnknownVersion(v) => PresetErrorView::UnknownVersion(*v),
            PresetError::Unreadable(m) => PresetErrorView::Unreadable(m@),
            PresetError::Unwritable(m) => PresetErrorView::Unwritable(m@),
        }
    }
}

impl PartialEq for PresetError {
    fn eq(&self, other: &Self) -> (r: bool) {
        let same = match (self, other) {
            (PresetError::Corrupt(a), PresetError::Corrupt(b)) => *a == *b,
            (PresetError::UnknownVersion(a), PresetError::UnknownVersion(b)) => *a == *b,
            (PresetError::Unreadable(a), PresetError::Unreadable(b)) => *a == *b,
            (PresetError::Unwritable(a), PresetError::Unwritable(b)) => *a == *b,
            _ => false,
        };
        proof {
            if same {
                assert(self@ == other@);
            }
        }
        same
    }
}

impl vstd::std_specs::cmp::PartialEqSpecImpl for PresetError {
    open spec fn obeys_eq_spec() -> bool {
        true
    }

    open spec fn eq_spec(&self, other: &Self) -> bool {
        self@ == other@
    }
}

/// The stable identifier of each kind of refusal.
pub open spec fn preset_error_code(e: PresetErrorView) -> Seq<char> {
    match e {
        PresetErrorView::Corrupt(_) => "presets_corrupt"@,
        PresetErrorView::UnknownVersion(_) => "presets_unknown_version"@,
        PresetErrorView::Unreadable(_) => "presets_unreadable"@,
        PresetErrorView::Unwritable(_) => "presets_unwritable"@,
    }
}

/// What an operator reads for each refusal. A corrupt file's payload is already the sentence;
/// a version names both the one found and the one this build reads.
pub open spec fn preset_error_message(e: PresetErrorView) -> Seq<char> {
    match e {
        PresetErrorView::Corrupt(m) => m,
        PresetErrorView::UnknownVersion(found) => "this presets file is in a format this build does not read (presets version "@
            + crate::text::dec(found as nat) + "; this build reads "@ + crate::text::dec(
            PRESETS_VERSION as nat,
        ) + ")"@,
        PresetErrorView::Unreadable(m) => "the presets file could not be read ("@ + m + ")"@,
        PresetErrorView::Unwritable(m) => "the presets file could not be written ("@ + m + ")"@,
    }
}

impl PresetError {
    /// The stable identifier a caller branches on instead of matching the sentence.
    pub fn code(&self) -> (r: &'static str)
        ensures
            r@ == preset_error_code(self@),
    {
        match self {
            PresetError::Corrupt(_) => "presets_corrupt",
            PresetError::UnknownVersion(_) => "presets_unknown_version",
            PresetError::Unreadable(_) => "presets_unreadable",
            PresetError::Unwritable(_) => "presets_unwritable",
        }
    }

    /// The refusal in the words an operator reads.
    pub fn message(&self) -> (r: String)
        ensures
            r@ == preset_error_message(self@),
    {
        match self {
            PresetError::Corrupt(m) => m.clone(),
            PresetError::UnknownVersion(found) => {
                let mut r = String::from_str(
                    "this presets file is in a format this build does not read (presets version ",
                );
                push_dec(&mut r, *found);
                r.append("; this build reads ");
                push_dec(&mut r, PRESETS_VERSION as u64);
                r.append(")");
                r
            },
            PresetError::Unreadable(m) => {
                let mut r = String::from_str("the presets file could not be read (");
                r.append(m.as_str());
                r.append(")");
                r
            },
            PresetError::Unwritable(m) => {
                let mut r = String::from_str("the presets file could not be written (");
                r.append(m.as_str());
                r.append(")");
                r
            },
        }
    }
}

// ---------------------------------------------------------------------------
// Loading the operator's presets file
// ---------------------------------------------------------------------------

/// A user entry as loaded: the operator's own, whatever the file said.
pub open spec fn as_user_entry(p: MaterialPresetView) -> MaterialPresetView {
    MaterialPresetView {
        id: p.id,
        name: p.name,
        machine_id: p.machine_id,
        settings: p.settings,
        builtin: false,
    }
}

/// The user entries that load, in file order: every one with an id, as the operator's own. An
/// entry with no id names no material, so it is dropped rather than loaded.
pub open spec fn user_entries(user: Seq<MaterialPresetView>) -> Seq<MaterialPresetView>
    decreases user.len(),
{
    if user.len() == 0 {
        seq![]
    } else {
        let rest = user_entries(user.drop_last());
        if user.last().id.len() > 0 {
            rest.push(as_user_entry(user.last()))
        } else {
            rest
        }
    }
}

/// Whether two presets name the same material on the same machine.
pub open spec fn same_material(a: MaterialPresetView, b: MaterialPresetView) -> bool {
    a.machine_id == b.machine_id && a.id == b.id
}

/// Whether one of `entries` names the material `p` names, on `p`'s machine.
pub open spec fn shadowed(p: MaterialPresetView, entries: Seq<MaterialPresetView>) -> bool {
    exists|k: int| 0 <= k < entries.len() && same_material(#[trigger] entries[k], p)
}

/// The test a builtin passes to stay loaded beside `entries`.
pub open spec fn not_shadowed_by(entries: Seq<MaterialPresetView>) -> spec_fn(
    MaterialPresetView,
) -> bool {
    |b: MaterialPresetView| !shadowed(b, entries)
}

/// What loading lays out: the builtins that no loaded user entry shadows, in their order, then
/// the loaded user entries in file order. A preset is machine-scoped, so a user entry replaces a
/// builtin only when both the machine and the id match.
pub open spec fn merged_presets(builtins: Seq<MaterialPresetView>, user: Seq<MaterialPresetView>) -> Seq<
    MaterialPresetView,
> {
    builtins.filter(not_shadowed_by(user_entries(user))) + user_entries(user)
}

fn is_shadowed(p: &MaterialPreset, entries: &Vec<MaterialPreset>) -> (r: bool)
    ensures
        r == shadowed(p@, presets_view(entries@)),
{
    let ghost ev = presets_view(entries@);
    let mut k: usize = 0;
    while k < entries.len()
        invariant
            k <= entries.len(),
            ev == presets_view(entries@),
            forall|j: int| 0 <= j < k ==> !same_material(#[trigger] ev[j], p@),
        decreases entries.len() - k,
    {
        let e = &entries[k];
        if e.machine_id == p.machine_id && e.id == p.id {
            assert(same_material(ev[k as int], p@));
            return true;
        }
        k = k + 1;
    }
    false
}

/// The presets a load yields from the user entries of a file that read cleanly: the builtins
/// the entries do not shadow, then the entries that name a material, each marked as the
/// operator's own.
pub fn merge_presets(user: Vec<MaterialPreset>) -> (r: Vec<MaterialPreset>)
    ensures
        presets_view(r@) == merged_presets(builtin_table(), presets_view(user@)),
{
    let ghost uv = presets_view(user@);
    let mut kept: Vec<MaterialPreset> = Vec::new();
    let mut i: usize = 0;
    while i < user.len()
        invariant
            i <= user.len(),
            uv == presets_view(user@),
            presets_view(kept@) == user_entries(uv.take(i as int)),
        decreases user.len() - i,
    {
        let u = &user[i];
        assert(uv.take(i + 1).drop_last() =~= uv.take(i as int));
        if !u.id.as_str().is_empty() {
            let mut entry = u.duplicate();
            entry.builtin = false;
            kept.push(entry);
            assert(presets_view(kept@) =~= user_entries(uv.take(i as int)).push(as_user_entry(uv[i as int])));
        }
        i = i + 1;
    }
    assert(uv.take(user.len() as int) =~= uv);
    let ghost entries = user_entries(uv);
    let builtins = builtin_presets();
    let ghost bv = builtin_table();
    let mut out: Vec<MaterialPreset> = Vec::new();
    let mut j: usize = 0;
    while j < builtins.len()
        invariant
            j <= builtins.len(),
            bv == presets_view(builtins@),
            entries == presets_view(kept@),
            presets_view(out@) == bv.take(j as int).filter(not_shadowed_by(entries)),
        decreases builtins.len() - j,
    {
        let b = &builtins[j];
        assert(bv.take(j + 1) =~= bv.take(j as int).push(bv[j as int]));
        proof {
            bv.take(j as int).lemma_filter_push(bv[j as int], not_shadowed_by(entries));
        }
        if !is_shadowed(b, &kept) {
            out.push(b.duplicate());
            assert(presets_view(out@) =~= bv.take(j as int).filter(not_shadowed_by(entries)).push(bv[j as int]));
        }
        j = j + 1;
    }
    assert(bv.take(builtins.len() as int) =~= bv);
    let ghost head = out@;
    out.append(&mut kept);
    assert(presets_view(out@) =~= presets_view(head) + entries);
    out
}

/// The name for what `serde_json` reads from `text` under the top-level key `key`: the text's
/// own refusal when it is not JSON, else the number stored there when it is written as an
/// integer a `u64` holds, else nothing.
pub uninterp spec fn json_whole_number_at(text: Seq<char>, key: Seq<char>) -> Result<Option<u64>, Seq<char>>;

/// `serde_json::from_str` into a `serde_json::Value`, then `Value::get` and `Value::as_u64`.
/// Trusted to give, on the same text and key, the same answer every time: the parser's error
/// sentence when the text is not JSON; otherwise the number under `key` when the document is an
/// object holding there an integer literal (no fraction, no exponent) that a `u64` holds, and
/// `None` for anything else, a missing key, a negative number and `1.0` among them. Nothing is
/// claimed of the name beyond its being the same on the same text and key.
#[verifier::external_body]
fn whole_number_at(text: &str, key: &str) -> (r: Result<Option<u64>, String>)
    ensures
        match r {
            Ok(v) => json_whole_number_at(text@, key@) == Ok::<Option<u64>, Seq<char>>(v),
            Err(m) => json_whole_number_at(text@, key@) == Err::<Option<u64>, Seq<char>>(m@),
        },
{
    match serde_json::from_str::<serde_json::Value>(text) {
        Ok(value) => match value.get(key) {
            Some(found) => Ok(found.as_u64()),
            None => Ok(None),
        },
        Err(e) => Err(e.to_string()),
    }
}

/// `String::from_utf8`: the text the bytes spell when they are valid UTF-8, and nothing when
/// they are not.
#[verifier::external_body]
fn utf8_text(bytes: Vec<u8>) -> (r: Option<String>)
    ensures
        r is Some <==> vstd::utf8::valid_utf8(bytes@),
        r matches Some(s) ==> s@ == vstd::utf8::decode_utf8(bytes@),
{
    String::from_utf8(bytes).ok()
}

/// The refusal for a file that is not text.
pub open spec fn not_text_message() -> Seq<char> {
    "the presets file is not UTF-8 text"@
}

/// The refusal for text that is not JSON; it carries the parser's own sentence.
pub open spec fn not_json_message(m: Seq<char>) -> Seq<char> {
    "the presets file is not valid JSON ("@ + m + ")"@
}

/// The refusal for a file that states no version this build can compare.
pub open spec fn no_version_message() -> Seq<char> {
    "the presets file does not state a usable whole-number version, so this build cannot tell what format it is in"@
}

/// The refusal for a file whose presets do not read; it carries the parser's own sentence.
pub open spec fn no_list_message(m: Seq<char>) -> Seq<char> {
    "the presets file does not hold a usable list of material presets ("@ + m + ")"@
}

/// The text of a presets file's bytes, or the refusal for bytes that are not UTF-8.
pub fn presets_text(bytes: Vec<u8>) -> (r: Result<String, PresetError>)
    ensures
        match r {
            Ok(s) => vstd::utf8::valid_utf8(bytes@) && s@ == vstd::utf8::decode_utf8(bytes@),
            Err(e) => !vstd::utf8::valid_utf8(bytes@) && e@ == PresetErrorView::Corrupt(
                not_text_message(),
            ),
        },
{
    match utf8_text(bytes) {
        Some(s) => Ok(s),
        None => Err(PresetError::Corrupt(String::from_str("the presets file is not UTF-8 text"))),
    }
}

/// What a file's version probe decides: the version when it is the one this build reads, else
/// the refusal. Checked before the presets themselves, so a file in a newer format is never
/// called damaged.
pub open spec fn version_verdict(probe: Result<Option<u64>, Seq<char>>) -> Result<u64, PresetErrorView> {
    match probe {
        Err(m) => Err(PresetErrorView::Corrupt(not_json_message(m))),
        Ok(None) => Err(PresetErrorView::Corrupt(no_version_message())),
        Ok(Some(v)) => if v == PRESETS_VERSION as u64 {
            Ok(v)
        } else {
            Err(PresetErrorView::UnknownVersion(v))
        },
    }
}

/// What a load decides, from the version probe and the parse of the presets list.
pub open spec fn load_verdict(
    probe: Result<Option<u64>, Seq<char>>,
    parsed: Result<Seq<MaterialPresetView>, Seq<char>>,
) -> Result<Seq<MaterialPresetView>, PresetErrorView> {
    match version_verdict(probe) {
        Err(e) => Err(e),
        Ok(_) => match parsed {
            Err(m) => Err(PresetErrorView::Corrupt(no_list_message(m))),
            Ok(user) => Ok(merged_presets(builtin_table(), user)),
        },
    }
}

/// The verdict on a version probe's result.
pub fn judge_version(probe: Result<Option<u64>, String>) -> (r: Result<u64, PresetError>)
    ensures
        match r {
            Ok(v) => version_verdict(
                match probe {
                    Ok(x) => Ok::<Option<u64>, Seq<char>>(x),
                    Err(m) => Err::<Option<u64>, Seq<char>>(m@),
                },
            ) == Ok::<u64, PresetErrorView>(v),
            Err(e) => version_verdict(
                match probe {
                    Ok(x) => Ok::<Option<u64>, Seq<char>>(x),
                    Err(m) => Err::<Option<u64>, Seq<char>>(m@),
                },
            ) == Err::<u64, PresetErrorView>(e@),
        },
{
    match probe {
        Err(m) => {
            let mut s = String::from_str("the presets file is not valid JSON (");
            s.append(m.as_str());
            s.append(")");
            Err(PresetError::Corrupt(s))
        },
        Ok(None) => Err(
            PresetError::Corrupt(
                String::from_str(
                    "the presets file does not state a usable whole-number version, so this build cannot tell what format it is in",
                ),
            ),
        ),
        Ok(Some(v)) => if v == PRESETS_VERSION as u64 {
            Ok(v)
        } else {
            Err(PresetError::UnknownVersion(v))
        },
    }
}

/// The format version a presets file's text states, or the refusal.
pub fn presets_version(content: &str) -> (r: Result<u64, PresetError>)
    ensures
        match r {
            Ok(v) => version_verdict(json_whole_number_at(content@, "version"@)) == Ok::<
                u64,
                PresetErrorView,
            >(v),
            Err(e) => version_verdict(json_whole_number_at(content@, "version"@)) == Err::<
                u64,
                PresetErrorView,
            >(e@),
        },
{
    judge_version(whole_number_at(content, "version"))
}

/// The presets a load yields, from a version probe's result and the parse of the file's
/// presets list: the version is judged first, then the list, then the entries are laid over the
/// builtins.
pub fn load_from_probe(probe: Result<Option<u64>, String>, parsed: Result<Vec<MaterialPreset>, String>) -> (r:
    Result<Vec<MaterialPreset>, PresetError>)
    ensures
        ({
            let pv = match probe {
                Ok(x) => Ok::<Option<u64>, Seq<char>>(x),
                Err(m) => Err::<Option<u64>, Seq<char>>(m@),
            };
            let lv = match parsed {
                Ok(u) => Ok::<Seq<MaterialPresetView>, Seq<char>>(presets_view(u@)),
                Err(m) => Err::<Seq<MaterialPresetView>, Seq<char>>(m@),
            };
            match r {
                Ok(v) => load_verdict(pv, lv) == Ok::<Seq<MaterialPresetView>, PresetErrorView>(
                    presets_view(v@),
                ),
                Err(e) => load_verdict(pv, lv) == Err::<Seq<MaterialPresetView>, PresetErrorView>(
                    e@,
                ),
            }
        }),
{
    match judge_version(probe) {
        Err(e) => Err(e),
        Ok(_) => match parsed {
            Err(m) => {
                let mut s = String::from_str(
                    "the presets file does not hold a usable list of material presets (",
                );
                s.append(m.as_str());
                s.append(")");
                Err(PresetError::Corrupt(s))
            },
            Ok(user) => Ok(merge_presets(user)),
        },
    }
}

/// The presets a load yields from a presets file's text and the parse of its presets list.
pub fn presets_from_text(content: &str, parsed: Result<Vec<MaterialPreset>, String>) -> (r: Result<
    Vec<MaterialPreset>,
    PresetError,
>)
    ensures
        ({
            let lv = match parsed {
                Ok(u) => Ok::<Seq<MaterialPresetView>, Seq<char>>(presets_view(u@)),
                Err(m) => Err::<Seq<MaterialPresetView>, Seq<char>>(m@),
            };
            match r {
                Ok(v) => load_verdict(json_whole_number_at(content@, "version"@), lv) == Ok::<
                    Seq<MaterialPresetView>,
                    PresetErrorView,
                >(presets_view(v@)),
                Err(e) => load_verdict(json_whole_number_at(content@, "version"@), lv) == Err::<
                    Seq<MaterialPresetView>,
                    PresetErrorView,
                >(e@),
            }
        }),
{
    load_from_probe(whole_number_at(content, "version"), parsed)
}

// ---------------------------------------------------------------------------
// What loading keeps
// ---------------------------------------------------------------------------

proof fn lemma_user_entries_are_named_and_owned(user: Seq<MaterialPresetView>)
    ensures
        forall|k: int|
            0 <= k < user_entries(user).len() ==> (#[trigger] user_entries(user)[k]).id.len() > 0
                && !user_entries(user)[k].builtin,
        forall|k: int|
            0 <= k < user.len() && (#[trigger] user[k]).id.len() > 0 ==> user_entries(
                user,
            ).contains(as_user_entry(user[k])),
    decreases user.len(),
{
    if user.len() > 0 {
        let rest = user.drop_last();
        lemma_user_entries_are_named_and_owned(rest);
        assert forall|k: int| 0 <= k < user.len() && (#[trigger] user[k]).id.len() > 0 implies user_entries(
            user,
        ).contains(as_user_entry(user[k])) by {
            if k < user.len() - 1 {
                assert(rest[k] == user[k]);
                let w = choose|w: int|
                    0 <= w < user_entries(rest).len() && user_entries(rest)[w] == as_user_entry(
                        rest[k],
                    );
                assert(user_entries(user)[w] == as_user_entry(user[k]));
            } else {
                assert(user_entries(user).last() == as_user_entry(user[k]));
            }
        }
    }
}

proof fn lemma_filter_keeps_all(s: Seq<MaterialPresetView>, pred: spec_fn(MaterialPresetView) -> bool)
    requires
        forall|i: int| 0 <= i < s.len() ==> pred(#[trigger] s[i]),
    ensures
        s.filter(pred) == s,
    decreases s.len(),
{
    reveal(Seq::filter);
    if s.len() > 0 {
        lemma_filter_keeps_all(s.drop_last(), pred);
        s.drop_last().lemma_filter_push(s.last(), pred);
        assert(s.drop_last().push(s.last()) =~= s);
    }
}

/// Only a file of this build's format version, 1, loads: any other stated version is refused
/// as unknown, whatever the presets say, and a file of this version loads its presets laid over
/// the builtins, or is refused as damaged when they do not read.
pub proof fn lemma_only_this_version_loads(
    probe: Result<Option<u64>, Seq<char>>,
    parsed: Result<Seq<MaterialPresetView>, Seq<char>>,
)
    ensures
        load_verdict(probe, parsed) is Ok ==> probe == Ok::<Option<u64>, Seq<char>>(Some(1u64)) && parsed is Ok,
        forall|v: u64|
            v != 1 && probe == Ok::<Option<u64>, Seq<char>>(Some(v)) ==> #[trigger] load_verdict(
                Ok::<Option<u64>, Seq<char>>(Some(v)),
                parsed,
            ) == Err::<Seq<MaterialPresetView>, PresetErrorView>(PresetErrorView::UnknownVersion(v)),
        forall|u: Seq<MaterialPresetView>|
            #[trigger] load_verdict(Ok::<Option<u64>, Seq<char>>(Some(1u64)), Ok::<Seq<MaterialPresetView>, Seq<char>>(u))
                == Ok::<Seq<MaterialPresetView>, PresetErrorView>(merged_presets(builtin_table(), u)),
        probe == Ok::<Option<u64>, Seq<char>>(Some(1u64)) && parsed is Err ==> load_verdict(probe, parsed) is Err,
{
}

/// With no user entries, a load yields exactly the builtins, in order: deleting every entry of
/// one's own brings back each builtin it shadowed.
pub proof fn lemma_no_user_entries_leaves_the_builtins(builtins: Seq<MaterialPresetView>)
    ensures
        merged_presets(builtins, seq![]) == builtins,
{
    let none: Seq<MaterialPresetView> = seq![];
    assert(user_entries(none) =~= none);
    lemma_filter_keeps_all(builtins, not_shadowed_by(none));
    assert(builtins + none =~= builtins);
}

/// A builtin stays loaded exactly when no loaded user entry names the same material for the
/// same machine: an entry keyed to another machine, or with another id, leaves it in place.
pub proof fn lemma_a_user_entry_shadows_only_its_own_material(
    builtins: Seq<MaterialPresetView>,
    user: Seq<MaterialPresetView>,
    i: int,
)
    requires
        0 <= i < builtins.len(),
        builtins[i].builtin,
    ensures
        merged_presets(builtins, user).contains(builtins[i]) <==> !shadowed(
            builtins[i],
            user_entries(user),
        ),
{
    let entries = user_entries(user);
    let pred = not_shadowed_by(entries);
    let kept = builtins.filter(pred);
    let all = merged_presets(builtins, user);
    lemma_user_entries_are_named_and_owned(user);
    if !shadowed(builtins[i], entries) {
        builtins.lemma_filter_contains(pred, i);
        let w = choose|w: int| 0 <= w < kept.len() && kept[w] == builtins[i];
        assert(all[w] == builtins[i]);
    }
    if all.contains(builtins[i]) {
        let w = choose|w: int| 0 <= w < all.len() && all[w] == builtins[i];
        if w < kept.len() {
            builtins.lemma_filter_pred(pred, w);
        } else {
            assert(all[w] == entries[w - kept.len()]);
        }
    }
}

/// Every preset a load yields names a material, and every entry of the operator's own that names
/// one is among them, as the operator's own.
pub proof fn lemma_every_loaded_preset_is_named(user: Seq<MaterialPresetView>)
    ensures
        forall|k: int|
            0 <= k < merged_presets(builtin_table(), user).len() ==> (#[trigger] merged_presets(
                builtin_table(),
                user,
            )[k]).id.len() > 0,
        forall|k: int|
            0 <= k < user.len() && (#[trigger] user[k]).id.len() > 0 ==> merged_presets(
                builtin_table(),
                user,
            ).contains(as_user_entry(user[k])),
{
    let b = builtin_table();
    let entries = user_entries(user);
    let kept = b.filter(not_shadowed_by(entries));
    let all = merged_presets(b, user);
    lemma_user_entries_are_named_and_owned(user);
    reveal_strlit("cameo5-cardstock-medium");
    reveal_strlit("cameo5-vinyl-adhesive");
    reveal_strlit("cameo5-htv");
    reveal_strlit("cameo5-copy-paper");
    reveal_strlit("cameo5-cardboard-thin");
    reveal_strlit("puma-cardstock-medium");
    reveal_strlit("puma-vinyl-adhesive");
    reveal_strlit("puma-htv");
    reveal_strlit("puma-copy-paper");
    reveal_strlit("puma-cardboard-thin");
    assert forall|w: int| 0 <= w < b.len() implies (#[trigger] b[w]).id.len() > 0 by {
        assert(b[0].id.len() > 0);
        assert(b[1].id.len() > 0);
        assert(b[2].id.len() > 0);
        assert(b[3].id.len() > 0);
        assert(b[4].id.len() > 0);
        assert(b[5].id.len() > 0);
        assert(b[6].id.len() > 0);
        assert(b[7].id.len() > 0);
        assert(b[8].id.len() > 0);
        assert(b[9].id.len() > 0);
    }
    assert forall|k: int| 0 <= k < all.len() implies (#[trigger] all[k]).id.len() > 0 by {
        if k < kept.len() {
            assert(kept.contains(kept[k]));
            b.lemma_filter_contains_rev(not_shadowed_by(entries), kept[k]);
            let w = choose|w: int| 0 <= w < b.len() && b[w] == kept[k];
            assert(b[w].id.len() > 0);
        } else {
            assert(all[k] == entries[k - kept.len()]);
        }
    }
    assert forall|k: int| 0 <= k < user.len() && (#[trigger] user[k]).id.len() > 0 implies all.contains(
        as_user_entry(user[k]),
    ) by {
        let w = choose|w: int| 0 <= w < entries.len() && entries[w] == as_user_entry(user[k]);
        assert(all[kept.len() + w] == entries[w]);
    }
}

} // verus!
