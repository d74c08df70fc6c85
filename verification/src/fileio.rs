//! Project files: the refusals a load or a save can end in, the size ceilings a project is held
//! to, the versioned manifest and the migrations an older one runs, what inspecting a file
//! about to be replaced decides, and how a paint is written into the interchange SVG.
use vstd::prelude::*;
use crate::text::{dec, dec_digit_char, hex_digits, push_char, push_dec, push_hex};
use crate::document::{
    fresh_node, Delta, IdGen, Node, NodeId, NodeKindView, NodeOp, NodeOpView, ShapeKind,
    ShapeKindView, Style, ops_view,
};

verus! {

/// Every way reading or writing a project refuses.
#[derive(Debug)]
pub enum IoError {
    /// The file's contents could not be understood; the payload is the parser's sentence.
    Parse(String),
    /// The file could not be read or written; the payload says why.
    Io(String),
    /// A project written by a newer build.
    UnsupportedProjectVersion { found: u32, supported: u32 },
}

/// An `IoError` with its text as characters.
pub enum IoErrorView {
    Parse(Seq<char>),
    Io(Seq<char>),
    UnsupportedProjectVersion { found: u32, supported: u32 },
}

impl View for IoError {
    type V = IoErrorView;

    open spec fn view(&self) -> IoErrorView {
        match self {
            IoError::Parse(m) => IoErrorView::Parse(m@),
            IoError::Io(m) => IoErrorView::Io(m@),
            IoError::UnsupportedProjectVersion { found, supported } =>
                IoErrorView::UnsupportedProjectVersion { found: *found, supported: *supported },
        }
    }
}

/// What an operator reads for each refusal.
pub open spec fn io_error_message(e: IoErrorView) -> Seq<char> {
    match e {
        IoErrorView::Parse(m) => "the file could not be understood ("@ + m + ")"@,
        IoErrorView::Io(m) => "the file could not be read or written ("@ + m + ")"@,
        IoErrorView::UnsupportedProjectVersion { found, supported } =>
            "this project was saved by a newer Cuthulhu (manifest version "@ + dec(found as nat)
                + "; this build reads "@ + dec(supported as nat) + ")"@,
    }
}

impl IoError {
    /// The refusal in the words an operator reads.
    pub fn message(&self) -> (r: String)
        ensures
            r@ == io_error_message(self@),
    {
        match self {
            IoError::Parse(m) => {
                let mut r = String::from_str("the file could not be understood (");
                r.append(m.as_str());
                r.append(")");
                r
            },
            IoError::Io(m) => {
                let mut r = String::from_str("the file could not be read or written (");
                r.append(m.as_str());
                r.append(")");
                r
            },
            IoError::UnsupportedProjectVersion { found, supported } => {
                let mut r = String::from_str(
                    "this project was saved by a newer Cuthulhu (manifest version ",
                );
                push_dec(&mut r, *found as u64);
                r.append("; this build reads ");
                push_dec(&mut r, *supported as u64);
                r.append(")");
                r
            },
        }
    }
}

// ---------------------------------------------------------------------------
// Size ceilings
// ---------------------------------------------------------------------------

/// The largest container a project may be: 32 MiB, checked before the archive is parsed.
pub const MAX_PROJECT_BYTES: u64 = 33554432;

/// The largest manifest a project may hold, inflated: 256 MiB.
pub const MAX_MANIFEST_BYTES: u64 = 268435456;

/// Whole mebibytes in `bytes`, rounded down.
pub open spec fn mebibytes(bytes: u64) -> nat {
    bytes as nat / 1048576
}

/// The reason a container over the ceiling is refused.
pub open spec fn project_too_large_text() -> Seq<char> {
    "the file is larger than "@ + dec(mebibytes(MAX_PROJECT_BYTES)) + " MiB"@
}

/// The reason a manifest over the ceiling is refused.
pub open spec fn manifest_too_large_text() -> Seq<char> {
    "the manifest is larger than "@ + dec(mebibytes(MAX_MANIFEST_BYTES)) + " MiB"@
}

/// Why a container is refused for its size.
pub fn project_too_large() -> (r: String)
    ensures
        r@ == project_too_large_text(),
{
    let mut r = String::from_str("the file is larger than ");
    push_dec(&mut r, MAX_PROJECT_BYTES / 1048576);
    r.append(" MiB");
    r
}

/// Why a manifest is refused for its size.
pub fn manifest_too_large() -> (r: String)
    ensures
        r@ == manifest_too_large_text(),
{
    let mut r = String::from_str("the manifest is larger than ");
    push_dec(&mut r, MAX_MANIFEST_BYTES / 1048576);
    r.append(" MiB");
    r
}

/// The refusal for a save whose `what` would be over the ceiling this build reads back.
pub open spec fn too_large_to_save_text(what: Seq<char>, limit: u64) -> Seq<char> {
    "this project is too large to save: its "@ + what + " is over "@ + dec(mebibytes(limit))
        + " MiB, which this build would refuse to reopen"@
}

/// Applies a read ceiling to what is about to be written, so that a project this build saves is
/// always one it can reopen: `len` bytes of `what` are refused exactly when they exceed `limit`.
pub fn refuse_writing_what_we_could_not_read(what: &str, len: u64, limit: u64) -> (r: Result<
    (),
    IoError,
>)
    ensures
        len <= limit ==> r is Ok,
        len > limit ==> (r matches Err(e) && e@ == IoErrorView::Io(too_large_to_save_text(what@, limit))),
{
    if len > limit {
        let mut m = String::from_str("this project is too large to save: its ");
        m.append(what);
        m.append(" is over ");
        push_dec(&mut m, limit / 1048576);
        m.append(" MiB, which this build would refuse to reopen");
        return Err(IoError::Io(m));
    }
    Ok(())
}

/// Whether a container of `len` bytes is small enough to be opened as a project.
pub fn project_size_admitted(len: u64) -> (r: Result<(), IoError>)
    ensures
        len <= MAX_PROJECT_BYTES ==> r is Ok,
        len > MAX_PROJECT_BYTES ==> (r matches Err(e) && e@ == IoErrorView::Io(project_too_large_text())),
{
    if len > MAX_PROJECT_BYTES {
        return Err(IoError::Io(project_too_large()));
    }
    Ok(())
}

// ---------------------------------------------------------------------------
// The versioned manifest
// ---------------------------------------------------------------------------

/// The manifest schema version this build writes.
pub const MANIFEST_VERSION: u32 = 2;

/// The version of every manifest written before the envelope existed: a bare document with no
/// version field at all.
pub const LEGACY_UNVERSIONED: u32 = 1;

/// One migration, taking a manifest of one version to the next.
#[derive(Clone, Copy, Debug, PartialEq, Eq, Structural)]
pub enum MigrationStep {
    /// Version 1 to 2: the machine ids renamed to their canonical spelling.
    LegacyMachineIds,
}

/// The migrations, in order: the `i`th takes version `LEGACY_UNVERSIONED + i` to the next.
pub open spec fn migration_table() -> Seq<MigrationStep> {
    seq![MigrationStep::LegacyMachineIds]
}

/// Every migration, in order.
pub fn migration_steps() -> (r: Vec<MigrationStep>)
    ensures
        r@ == migration_table(),
{
    let mut r = Vec::new();
    r.push(MigrationStep::LegacyMachineIds);
    assert(r@ =~= migration_table());
    r
}

/// The version a manifest declares, from the probe of its `version` field: the parser's
/// refusal, or the version, with no field at all meaning the legacy schema.
pub open spec fn declared_version(probe: Result<Option<u32>, Seq<char>>) -> Result<u32, IoErrorView> {
    match probe {
        Err(m) => Err(IoErrorView::Parse(m)),
        Ok(None) => Ok(LEGACY_UNVERSIONED),
        Ok(Some(v)) => Ok(v),
    }
}

/// The version a manifest declares, or the refusal of a probe that did not parse.
pub fn probe_version(probe: Result<Option<u32>, String>) -> (r: Result<u32, IoError>)
    ensures
        match probe {
            Err(m) => r matches Err(e) && e@ == IoErrorView::Parse(m@),
            Ok(None) => r == Ok::<u32, IoError>(LEGACY_UNVERSIONED),
            Ok(Some(v)) => r == Ok::<u32, IoError>(v),
        },
{
    match probe {
        Err(m) => Err(IoError::Parse(m)),
        Ok(None) => Ok(LEGACY_UNVERSIONED),
        Ok(Some(v)) => Ok(v),
    }
}

/// How a manifest's document is laid out on disk.
#[derive(Clone, Copy, Debug, PartialEq, Eq, Structural)]
pub enum ManifestLayout {
    /// The bare document, as written before the envelope.
    Bare,
    /// The `{ version, document }` envelope.
    Enveloped,
}

/// How a manifest of a declared version is read, with the index of the first migration it
/// runs, or why it is refused: newer than this build, or a version nothing ever wrote.
pub open spec fn manifest_reading(version: u32) -> Result<(ManifestLayout, int), IoErrorView> {
    if version > MANIFEST_VERSION {
        Err(IoErrorView::UnsupportedProjectVersion { found: version, supported: MANIFEST_VERSION })
    } else if version < LEGACY_UNVERSIONED {
        Err(
            IoErrorView::Parse(
                "manifest version "@ + dec(version as nat) + " was never written"@,
            ),
        )
    } else if version == LEGACY_UNVERSIONED {
        Ok((ManifestLayout::Bare, version - LEGACY_UNVERSIONED))
    } else {
        Ok((ManifestLayout::Enveloped, version - LEGACY_UNVERSIONED))
    }
}

/// How to read a manifest that declares `version`: its layout and the index of the first
/// migration it runs. A newer version is refused before any of the document is parsed.
pub fn plan_manifest_read(version: u32) -> (r: Result<(ManifestLayout, usize), IoError>)
    ensures
        match r {
            Ok((layout, first)) => manifest_reading(version) == Ok::<
                (ManifestLayout, int),
                IoErrorView,
            >((layout, first as int)),
            Err(e) => manifest_reading(version) == Err::<(ManifestLayout, int), IoErrorView>(e@),
        },
{
    if version > MANIFEST_VERSION {
        return Err(IoError::UnsupportedProjectVersion { found: version, supported: MANIFEST_VERSION });
    }
    if version < LEGACY_UNVERSIONED {
        let mut m = String::from_str("manifest version ");
        push_dec(&mut m, version as u64);
        m.append(" was never written");
        return Err(IoError::Parse(m));
    }
    let first = (version - LEGACY_UNVERSIONED) as usize;
    if version == LEGACY_UNVERSIONED {
        Ok((ManifestLayout::Bare, first))
    } else {
        Ok((ManifestLayout::Enveloped, first))
    }
}

/// The canonical spelling of a machine id that predates the rename.
pub open spec fn canonical_machine_id(id: Seq<char>) -> Seq<char> {
    if id == "cameo5_alpha"@ {
        "cameo5"@
    } else if id == "puma_iv"@ {
        "puma"@
    } else {
        id
    }
}

/// What one migration makes of a document's machine id.
pub open spec fn migrated_by(step: MigrationStep, id: Seq<char>) -> Seq<char> {
    match step {
        MigrationStep::LegacyMachineIds => canonical_machine_id(id),
    }
}

/// What the migrations from index `first` onward make of a machine id, in order.
pub open spec fn migrated_from(first: int, id: Seq<char>) -> Seq<char>
    decreases migration_table().len() - first,
{
    if first < 0 || first >= migration_table().len() {
        id
    } else {
        migrated_from(first + 1, migrated_by(migration_table()[first], id))
    }
}

/// The machine id a migration leaves.
pub fn migrate_machine_id(step: MigrationStep, id: &str) -> (r: String)
    ensures
        r@ == migrated_by(step, id@),
{
    match step {
        MigrationStep::LegacyMachineIds => {
            let v = crate::text::chars_of(id);
            if crate::text::chars_equal(&v, &crate::text::chars_of("cameo5_alpha")) {
                String::from_str("cameo5")
            } else if crate::text::chars_equal(&v, &crate::text::chars_of("puma_iv")) {
                String::from_str("puma")
            } else {
                String::from_str(id)
            }
        },
    }
}

/// The machine id after every migration from index `first` onward has run, in order: a
/// manifest runs each step from its own version on, so no version skips one.
pub fn run_migrations(first: usize, id: &str) -> (r: String)
    ensures
        r@ == migrated_from(first as int, id@),
{
    let steps = migration_steps();
    let mut cur = String::from_str(id);
    let mut i = first;
    while i < steps.len()
        invariant
            first <= i || i >= steps.len(),
            steps@ == migration_table(),
            migrated_from(i as int, cur@) == migrated_from(first as int, id@),
        decreases steps.len() - i,
    {
        let next = migrate_machine_id(steps[i], cur.as_str());
        cur = next;
        i = i + 1;
    }
    cur
}

// ---------------------------------------------------------------------------
// Inspecting a file about to be replaced
// ---------------------------------------------------------------------------

/// The leading signatures an archive with nothing prepended begins with: a local file header,
/// an empty archive's end record, a split archive's spanning signature, and the temporary
/// spanning marker.
pub open spec fn archive_signature(head: Seq<u8>) -> bool {
    head.len() == 4 && head[0] == 0x50u8 && head[1] == 0x4Bu8 && (
    (head[2] == 3u8 && head[3] == 4u8) || (head[2] == 5u8 && head[3] == 6u8) || (head[2] == 7u8
        && head[3] == 8u8) || (head[2] == 0x30u8 && head[3] == 0x30u8))
}

/// Whether `bytes` holds an end-of-central-directory signature at `i`.
pub open spec fn end_record_at(bytes: Seq<u8>, i: int) -> bool {
    0 <= i && i + 4 <= bytes.len() && bytes[i] == 0x50u8 && bytes[i + 1] == 0x4Bu8 && bytes[i
        + 2] == 5u8 && bytes[i + 3] == 6u8
}

/// How far from the end an end-of-central-directory record can begin: its own 22 bytes plus
/// the longest comment its length field can describe.
pub const TRAILER_BYTES: u64 = 65557;

/// Whether the first four bytes of a file are an archive's leading signature.
pub fn has_archive_signature(head: &[u8]) -> (r: bool)
    ensures
        r == archive_signature(head@),
{
    if head.len() != 4 || head[0] != 0x50u8 || head[1] != 0x4Bu8 {
        return false;
    }
    (head[2] == 3u8 && head[3] == 4u8) || (head[2] == 5u8 && head[3] == 6u8) || (head[2] == 7u8
        && head[3] == 8u8) || (head[2] == 0x30u8 && head[3] == 0x30u8)
}

/// Whether a file's trailing bytes hold an end-of-central-directory signature anywhere.
pub fn has_end_record(trailer: &[u8]) -> (r: bool)
    ensures
        r == exists|i: int| end_record_at(trailer@, i),
{
    if trailer.len() < 4 {
        return false;
    }
    let mut i: usize = 0;
    while i < trailer.len() - 3
        invariant
            trailer.len() >= 4,
            forall|j: int| 0 <= j < i ==> !end_record_at(trailer@, j),
        decreases trailer.len() - i,
    {
        if trailer[i] == 0x50u8 && trailer[i + 1] == 0x4Bu8 && trailer[i + 2] == 5u8 && trailer[i
            + 3] == 6u8 {
            assert(end_record_at(trailer@, i as int));
            return true;
        }
        i = i + 1;
    }
    false
}

/// Where the trailing window of a file of `len` bytes begins.
pub fn trailer_start(len: u64) -> (r: u64)
    ensures
        r == if len > TRAILER_BYTES {
            len - TRAILER_BYTES
        } else {
            0
        },
{
    len.saturating_sub(TRAILER_BYTES)
}

/// What inspecting the file at a save's destination found, at the point the inspection
/// stopped.
#[derive(Debug)]
pub enum Destination {
    /// Nothing is there.
    Absent,
    /// It could not be opened, measured or re-read; the system's words.
    Unreadable(String),
    /// It is longer than any project this build opens.
    TooLarge,
    /// It does not open as an archive (the archive reader's words), and whether it still looks
    /// like one.
    NotAnArchive { reason: String, looks_like_one: bool },
    /// An archive without a manifest.
    NoManifest,
    /// An archive whose manifest is there but could not be read; the reader's words.
    ManifestUnreadable(String),
    /// An archive whose manifest inflates past the ceiling.
    ManifestTooLarge,
    /// The manifest's bytes, and the probe of its `version` field when they are text.
    Manifest { bytes: Vec<u8>, probe: Result<Option<u32>, String> },
}

/// A `Destination` with its text as characters.
pub enum DestinationView {
    Absent,
    Unreadable(Seq<char>),
    TooLarge,
    NotAnArchive { reason: Seq<char>, looks_like_one: bool },
    NoManifest,
    ManifestUnreadable(Seq<char>),
    ManifestTooLarge,
    Manifest { bytes: Seq<u8>, probe: Result<Option<u32>, Seq<char>> },
}

impl View for Destination {
    type V = DestinationView;

    open spec fn view(&self) -> DestinationView {
        match self {
            Destination::Absent => DestinationView::Absent,
            Destination::Unreadable(m) => DestinationView::Unreadable(m@),
            Destination::TooLarge => DestinationView::TooLarge,
            Destination::NotAnArchive { reason, looks_like_one } => DestinationView::NotAnArchive {
                reason: reason@,
                looks_like_one: *looks_like_one,
            },
            Destination::NoManifest => DestinationView::NoManifest,
            Destination::ManifestUnreadable(m) => DestinationView::ManifestUnreadable(m@),
            Destination::ManifestTooLarge => DestinationView::ManifestTooLarge,
            Destination::Manifest { bytes, probe } => DestinationView::Manifest {
                bytes: bytes@,
                probe: match probe {
                    Ok(v) => Ok(*v),
                    Err(m) => Err(m@),
                },
            },
        }
    }
}

/// The refusal for a destination that could not be inspected.
pub open spec fn uninspectable_text(reason: Seq<char>) -> Seq<char> {
    "the file being replaced could not be inspected ("@ + reason + ")"@
}

/// Whether a save may replace what is at its destination. It fails closed wherever the file may
/// be a project this build cannot read, and open only where it can name why it is not one: no
/// file, bytes that neither open as an archive nor look like one, an archive with no manifest,
/// a manifest that is not text, or one whose version does not parse. A readable manifest from a
/// newer build is refused by name.
pub open spec fn overwrite_verdict(d: DestinationView) -> Result<(), IoErrorView> {
    match d {
        DestinationView::Absent => Ok(()),
        DestinationView::Unreadable(m) => Err(IoErrorView::Io(uninspectable_text(m))),
        DestinationView::TooLarge => Err(IoErrorView::Io(uninspectable_text(project_too_large_text()))),
        DestinationView::NotAnArchive { reason, looks_like_one } => if looks_like_one {
            Err(IoErrorView::Io(uninspectable_text(reason)))
        } else {
            Ok(())
        },
        DestinationView::NoManifest => Ok(()),
        DestinationView::ManifestUnreadable(m) => Err(IoErrorView::Io(uninspectable_text(m))),
        DestinationView::ManifestTooLarge => Err(
            IoErrorView::Io(uninspectable_text(manifest_too_large_text())),
        ),
        DestinationView::Manifest { bytes, probe } => {
            if !vstd::utf8::valid_utf8(bytes) {
                Ok(())
            } else {
                match declared_version(probe) {
                    Ok(found) if found > MANIFEST_VERSION => Err(
                        IoErrorView::UnsupportedProjectVersion {
                            found,
                            supported: MANIFEST_VERSION,
                        },
                    ),
                    _ => Ok(()),
                }
            }
        },
    }
}

/// `str::from_utf8`: whether the bytes are valid UTF-8.
#[verifier::external_body]
fn is_utf8(bytes: &[u8]) -> (r: bool)
    ensures
        r == vstd::utf8::valid_utf8(bytes@),
{
    std::str::from_utf8(bytes).is_ok()
}

fn uninspectable(reason: &str) -> (e: IoError)
    ensures
        e@ == IoErrorView::Io(uninspectable_text(reason@)),
{
    let mut m = String::from_str("the file being replaced could not be inspected (");
    m.append(reason);
    m.append(")");
    IoError::Io(m)
}

/// Whether a save may replace its destination, given what inspecting it found.
pub fn refuse_overwriting(d: &Destination) -> (r: Result<(), IoError>)
    ensures
        match r {
            Ok(()) => overwrite_verdict(d@) == Ok::<(), IoErrorView>(()),
            Err(e) => overwrite_verdict(d@) == Err::<(), IoErrorView>(e@),
        },
{
    match d {
        Destination::Absent => Ok(()),
        Destination::Unreadable(m) => Err(uninspectable(m.as_str())),
        Destination::TooLarge => {
            let m = project_too_large();
            Err(uninspectable(m.as_str()))
        },
        Destination::NotAnArchive { reason, looks_like_one } => if *looks_like_one {
            Err(uninspectable(reason.as_str()))
        } else {
            Ok(())
        },
        Destination::NoManifest => Ok(()),
        Destination::ManifestUnreadable(m) => Err(uninspectable(m.as_str())),
        Destination::ManifestTooLarge => {
            let m = manifest_too_large();
            Err(uninspectable(m.as_str()))
        },
        Destination::Manifest { bytes, probe } => {
            if !is_utf8(bytes.as_slice()) {
                return Ok(());
            }
            match probe {
                Ok(Some(found)) => if *found > MANIFEST_VERSION {
                    Err(IoError::UnsupportedProjectVersion { found: *found, supported: MANIFEST_VERSION })
                } else {
                    Ok(())
                },
                _ => Ok(()),
            }
        },
    }
}

// ---------------------------------------------------------------------------
// Paint in the interchange SVG
// ---------------------------------------------------------------------------

/// Four decimal digits of `n < 10000`, zero-padded.
pub open spec fn four_digits(n: nat) -> Seq<char> {
    seq![
        dec_digit_char(n / 1000),
        dec_digit_char((n / 100) % 10),
        dec_digit_char((n / 10) % 10),
        dec_digit_char(n % 10),
    ]
}

/// An alpha byte as an opacity to four decimals, rounded to nearest: `a / 255`.
pub open spec fn opacity_digits(a: nat) -> nat {
    (a * 20000 + 255) / 510
}

/// One paint as SVG attributes: `none` for absent paint; otherwise the colour as six lowercase
/// hex digits, followed, when the paint is not opaque, by its opacity to four decimals.
pub open spec fn paint_attrs_text(name: Seq<char>, paint: Option<u32>) -> Seq<char> {
    match paint {
        None => " "@ + name + "=\"none\""@,
        Some(rgba) => {
            let a = rgba as nat % 256;
            let rgb = " "@ + name + "=\"#"@ + hex_digits(rgba as nat / 256, 6) + "\""@;
            if a == 255 {
                rgb
            } else {
                rgb + " "@ + name + "-opacity=\"0."@ + four_digits(opacity_digits(a)) + "\""@
            }
        },
    }
}

fn push_digit(s: &mut String, d: u32)
    requires
        d < 10,
    ensures
        final(s)@ == old(s)@.push(dec_digit_char(d as nat)),
{
    let c = (48u8 + d as u8) as char;
    push_char(s, c);
}

/// The attributes a paint is written as: `stroke="none"`, `fill="#rrggbb"`,
/// `fill="#rrggbb" fill-opacity="0.5020"`.
pub fn paint_attrs(name: &str, paint: Option<u32>) -> (r: String)
    ensures
        r@ == paint_attrs_text(name@, paint),
{
    let mut r = String::from_str(" ");
    r.append(name);
    match paint {
        None => {
            r.append("=\"none\"");
            r
        },
        Some(rgba) => {
            r.append("=\"#");
            push_hex(&mut r, rgba / 256, 6);
            r.append("\"");
            let a = rgba % 256;
            if a == 255 {
                return r;
            }
            r.append(" ");
            r.append(name);
            r.append("-opacity=\"0.");
            let n: u32 = (a * 20000 + 255) / 510;
            assert(n < 10000);
            push_digit(&mut r, n / 1000);
            push_digit(&mut r, (n / 100) % 10);
            push_digit(&mut r, (n / 10) % 10);
            push_digit(&mut r, n % 10);
            r.append("\"");
            proof {
                assert(r@ =~= paint_attrs_text(name@, paint));
            }
            r
        },
    }
}

// ---------------------------------------------------------------------------
// What the format promises
// ---------------------------------------------------------------------------

/// Every version from the legacy schema up to the one this build writes has exactly one
/// migration step taking it to the next.
pub proof fn lemma_every_version_has_a_migration_step()
    ensures
        MANIFEST_VERSION == LEGACY_UNVERSIONED + migration_table().len(),
{
}

/// A manifest this build writes reads back in its envelope and runs no migration: its machine id
/// comes back as written.
pub proof fn lemma_a_current_manifest_runs_no_migration(id: Seq<char>)
    ensures
        manifest_reading(MANIFEST_VERSION) == Ok::<(ManifestLayout, int), IoErrorView>(
            (ManifestLayout::Enveloped, migration_table().len() as int),
        ),
        migrated_from(migration_table().len() as int, id) == id,
{
}

/// A project a load refuses as written by a newer build is one a save refuses to replace, with
/// the same refusal: what this build cannot read, it must not be the one to overwrite.
pub proof fn lemma_what_a_load_refuses_as_newer_a_save_will_not_replace(
    bytes: Seq<u8>,
    probe: Result<Option<u32>, Seq<char>>,
)
    requires
        vstd::utf8::valid_utf8(bytes),
        declared_version(probe) matches Ok(v) && v > MANIFEST_VERSION,
    ensures
        overwrite_verdict(DestinationView::Manifest { bytes, probe }) == Err::<(), IoErrorView>(
            IoErrorView::UnsupportedProjectVersion {
                found: declared_version(probe)->Ok_0,
                supported: MANIFEST_VERSION,
            },
        ),
        manifest_reading(declared_version(probe)->Ok_0) == Err::<(ManifestLayout, int), IoErrorView>(
            IoErrorView::UnsupportedProjectVersion {
                found: declared_version(probe)->Ok_0,
                supported: MANIFEST_VERSION,
            },
        ),
{
}


// ---------------------------------------------------------------------------
// Importing SVG paths
// ---------------------------------------------------------------------------

/// The paint an imported path carried, each colour `0xRRGGBBAA`.
#[derive(Clone, Copy, Debug, PartialEq, Eq, Structural)]
pub struct StyleHint {
    pub stroke: Option<u32>,
    pub fill: Option<u32>,
}

/// A colour from its channels and an alpha byte: `0xRRGGBBAA`.
pub open spec fn rgba_value(r: u8, g: u8, b: u8, a: u8) -> u32 {
    (r as int * 0x1000000 + g as int * 0x10000 + b as int * 0x100 + a as int) as u32
}

/// Packs a colour's channels and alpha into `0xRRGGBBAA`.
pub fn rgba(r: u8, g: u8, b: u8, a: u8) -> (c: u32)
    ensures
        c == rgba_value(r, g, b, a),
{
    (r as u32) * 0x1000000 + (g as u32) * 0x10000 + (b as u32) * 0x100 + (a as u32)
}

/// The node an imported path becomes: a fresh path shape holding the path data, painted as the
/// path was.
pub open spec fn imported_node(id: NodeId, d: Seq<char>, hint: StyleHint) -> crate::document::NodeView {
    crate::document::NodeView {
        style: Style { stroke: hint.stroke, fill: hint.fill },
        ..fresh_node(id, NodeKindView::Shape(ShapeKindView::Path { d }))
    }
}

/// The edits that import `paths`: each, in order, becomes a new last child of `parent` with the
/// next id after `first_after`.
pub open spec fn import_ops(paths: Seq<(Seq<char>, StyleHint)>, parent: NodeId, first_after: u64) -> Seq<
    NodeOpView,
> {
    Seq::new(
        paths.len(),
        |i: int|
            NodeOpView::Add {
                parent,
                node: imported_node(NodeId((first_after + i + 1) as u64), paths[i].0, paths[i].1),
                index: usize::MAX,
            },
    )
}

/// The paths as values.
pub open spec fn paths_view(p: Seq<(String, StyleHint)>) -> Seq<(Seq<char>, StyleHint)> {
    p.map_values(|e: (String, StyleHint)| (e.0@, e.1))
}

/// The delta that imports already-read SVG paths under `parent`: one new path shape for each,
/// in order, each appended as `parent`'s last child with the next id minted from `ids`.
pub fn import_paths(paths: Vec<(String, StyleHint)>, ids: &mut IdGen, parent: NodeId) -> (d: Delta)
    requires
        old(ids).last() + paths@.len() <= u64::MAX,
    ensures
        final(ids).last() == old(ids).last() + paths@.len(),
        ops_view(d.0@) == import_ops(paths_view(paths@), parent, old(ids).last()),
{
    let ghost pv = paths_view(paths@);
    let ghost start = ids.last();
    let mut ops: Vec<NodeOp> = Vec::new();
    let mut i: usize = 0;
    let n = paths.len();
    while i < n
        invariant
            i <= n,
            n == pv.len(),
            ids.last() == start + i,
            start + n <= u64::MAX,
            ops_view(ops@) == import_ops(pv.take(i as int), parent, start),
            n == paths@.len(),
            pv == paths_view(paths@),
        decreases n - i,
    {
        let d: String = paths[i].0.clone();
        let hint: StyleHint = paths[i].1;
        let ghost was = ops_view(ops@);
        let id = ids.next();
        let ghost text = d@;
        assert(text == pv[i as int].0 && hint == pv[i as int].1);
        let mut node = Node::shape(id, ShapeKind::Path { d });
        node.style = Style { stroke: hint.stroke, fill: hint.fill };
        assert(node@ == imported_node(id, text, hint));
        ops.push(NodeOp::Add { parent, node, index: usize::MAX });
        assert(ops_view(ops@) =~= was.push(NodeOpView::Add { parent, node: imported_node(id, text, hint), index: usize::MAX }));
        i = i + 1;
        assert(ops_view(ops@) =~= import_ops(pv.take(i as int), parent, start));
    }
    assert(pv.take(n as int) =~= pv);
    Delta(ops)
}
} // verus!
