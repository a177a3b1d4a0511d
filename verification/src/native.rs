//! The native API surface of a session: which dump is used, whether its release fits the project,
//! and what the user is told about it.

use vstd::prelude::*;
use vstd::string::*;

use crate::numbers;
use crate::numbers::decimal;
use crate::text;

verus! {

/// A Godot feature release: scripts are read by the rules of one.
#[derive(Debug, Clone, Copy, PartialEq, Eq, Structural)]
pub struct Dialect {
    pub major: u32,
    pub minor: u32,
}

/// How the dialect of a project was found.
#[derive(Debug, Clone, Copy, PartialEq, Eq, Structural)]
pub enum DialectOrigin {
    /// The client set it.
    Override,
    /// The project declares it.
    Declared,
    /// The project declares a later release than is supported.
    ClampedNewer,
    /// The project declares an earlier release than is supported.
    ClampedOlder,
    /// The project declares none.
    DefaultedNewest,
    /// There is no project file.
    NoProject,
}

impl DialectOrigin {
    /// Whether something other than a guess speaks for the dialect.
    pub open spec fn evidenced(self) -> bool {
        !(self is DefaultedNewest) && !(self is NoProject)
    }

    /// Whether something other than a guess speaks for the dialect.
    pub fn is_evidenced(self) -> (r: bool)
        ensures
            r == self.evidenced(),
    {
        match self {
            DialectOrigin::DefaultedNewest => false,
            DialectOrigin::NoProject => false,
            _ => true,
        }
    }
}

/// What a surface claims to be.
#[derive(Debug, Clone, Copy, PartialEq, Eq, Structural)]
pub enum ApiProvenance {
    /// The surface of the engine itself: what is absent from it does not exist.
    Exact,
    /// A surface that need not be the engine's own.
    Generic,
}

/// A native API surface, as far as a session decides by it.
#[derive(Debug, Clone, Copy, PartialEq, Eq, Structural)]
pub struct NativeSurface {
    pub version_major: u32,
    pub version_minor: u32,
    pub provenance: ApiProvenance,
    pub content_hash: u64,
    pub class_count: usize,
    pub empty: bool,
}

/// A release as text: major and minor version with a dot between.
pub open spec fn release_text(major: u32, minor: u32) -> Seq<char> {
    numbers::decimal_text(major as nat) + "."@ + numbers::decimal_text(minor as nat)
}

/// A release as text.
pub fn release(major: u32, minor: u32) -> (r: String)
    ensures
        r@ == release_text(major, minor),
{
    let mut r: String = decimal(major as u64);
    r.append(".");
    r.append(decimal(minor as u64).as_str());
    r
}

// ---------------------------------------------------------------------------
// A dump of another release.
// ---------------------------------------------------------------------------

/// Whether a surface is of another release than the scripts are read as. One without a version has
/// nothing to disagree with.
pub open spec fn version_mismatch(db: NativeSurface, dialect: Dialect) -> bool {
    db.version_major != 0 && !(db.version_major == dialect.major && db.version_minor
        == dialect.minor)
}

/// The log line about a surface of another release.
pub open spec fn mismatch_text(db: NativeSurface, dialect: Dialect) -> Seq<char> {
    "the loaded dump is Godot "@ + release_text(db.version_major, db.version_minor)
        + " but scripts are read as Godot "@ + release_text(dialect.major, dialect.minor)
        + " — engine signatures, enum values, and the class list differ between releases, so some diagnostics will not match what Godot reports. Point extensionApiPath or godotBinaryPath at a "@
        + release_text(dialect.major, dialect.minor) + " build, or set the dialect explicitly."@
}

/// Say so when the native surface is not of the release that the project is read as.
pub fn version_mismatch_notice(db: &NativeSurface, dialect: Dialect) -> (r: Option<String>)
    ensures
        r is Some == version_mismatch(*db, dialect),
        r matches Some(notice) ==> notice@ == mismatch_text(*db, dialect),
{
    if db.version_major == 0 || (db.version_major == dialect.major && db.version_minor
        == dialect.minor) {
        return None;
    }
    let mut notice: String = "the loaded dump is Godot ".to_owned();
    notice.append(release(db.version_major, db.version_minor).as_str());
    notice.append(" but scripts are read as Godot ");
    notice.append(release(dialect.major, dialect.minor).as_str());
    notice.append(
        " — engine signatures, enum values, and the class list differ between releases, so some diagnostics will not match what Godot reports. Point extensionApiPath or godotBinaryPath at a ",
    );
    notice.append(release(dialect.major, dialect.minor).as_str());
    notice.append(" build, or set the dialect explicitly.");
    Some(notice)
}

/// Whether a surface is of an earlier release than the dialect. It lacks what came since.
pub open spec fn older_release(db: NativeSurface, dialect: Dialect) -> bool {
    db.version_major < dialect.major || (db.version_major == dialect.major && db.version_minor
        < dialect.minor)
}

/// What the user is told when a dump was replaced by the built-in surface.
pub open spec fn replaced_text(db: NativeSurface, dialect: Dialect) -> Seq<char> {
    let dump = release_text(db.version_major, db.version_minor);
    let declared = release_text(dialect.major, dialect.minor);
    "gdls ignored the Godot "@ + dump
        + " extension_api.json it found: this project declares Godot "@ + declared
        + ", and every API added since "@ + dump
        + " is missing from that dump, so code that is fine would be reported as errors. The built-in stock "@
        + declared
        + " surface is being used instead, which means classes from your own Godot build are not available. Re-dump with a "@
        + declared
        + " binary (set `godotBinaryPath`, or the GDLS_GODOT environment variable), or fix `application/config/features` in project.godot."@
}

/// What the user is told when a dump is kept but no longer taken for exact.
pub open spec fn demoted_text(db: NativeSurface, dialect: Dialect) -> Seq<char> {
    let dump = release_text(db.version_major, db.version_minor);
    let declared = release_text(dialect.major, dialect.minor);
    "the extension_api.json gdls found is for Godot "@ + dump
        + " but this project declares Godot "@ + declared
        + ". gdls will not report unknown identifiers or members against it, since every API added since "@
        + dump + " is missing from it. Re-dump with a "@ + declared
        + " binary (set `godotBinaryPath`, or the GDLS_GODOT environment variable), or fix `application/config/features` in project.godot."@
}

/// Whether the session acts on a dump of another release: the dialect is no guess, and the dump is
/// of an earlier release. A later one still holds everything that the project can use.
pub open spec fn acts_on_release(
    db: NativeSurface,
    dialect: Dialect,
    origin: DialectOrigin,
) -> bool {
    origin.evidenced() && version_mismatch(db, dialect) && older_release(db, dialect)
}

/// The surface that the session goes on with.
pub open spec fn reconciled(
    db: NativeSurface,
    stock: Option<NativeSurface>,
    dialect: Dialect,
    origin: DialectOrigin,
) -> NativeSurface {
    if acts_on_release(db, dialect, origin) {
        match stock {
            Some(stock) => stock,
            None => NativeSurface { provenance: ApiProvenance::Generic, ..db },
        }
    } else {
        db
    }
}

fn replaced_notice(db: &NativeSurface, dialect: Dialect) -> (r: String)
    ensures
        r@ == replaced_text(*db, dialect),
{
    let dump = release(db.version_major, db.version_minor);
    let declared = release(dialect.major, dialect.minor);
    let mut notice: String = "gdls ignored the Godot ".to_owned();
    notice.append(dump.as_str());
    notice.append(" extension_api.json it found: this project declares Godot ");
    notice.append(declared.as_str());
    notice.append(", and every API added since ");
    notice.append(dump.as_str());
    notice.append(
        " is missing from that dump, so code that is fine would be reported as errors. The built-in stock ",
    );
    notice.append(declared.as_str());
    notice.append(
        " surface is being used instead, which means classes from your own Godot build are not available. Re-dump with a ",
    );
    notice.append(declared.as_str());
    notice.append(
        " binary (set `godotBinaryPath`, or the GDLS_GODOT environment variable), or fix `application/config/features` in project.godot.",
    );
    notice
}

fn demoted_notice(db: &NativeSurface, dialect: Dialect) -> (r: String)
    ensures
        r@ == demoted_text(*db, dialect),
{
    let dump = release(db.version_major, db.version_minor);
    let declared = release(dialect.major, dialect.minor);
    let mut notice: String = "the extension_api.json gdls found is for Godot ".to_owned();
    notice.append(dump.as_str());
    notice.append(" but this project declares Godot ");
    notice.append(declared.as_str());
    notice.append(
        ". gdls will not report unknown identifiers or members against it, since every API added since ",
    );
    notice.append(dump.as_str());
    notice.append(" is missing from it. Re-dump with a ");
    notice.append(declared.as_str());
    notice.append(
        " binary (set `godotBinaryPath`, or the GDLS_GODOT environment variable), or fix `application/config/features` in project.godot.",
    );
    notice
}

/// Act on a native surface of an earlier release than the project declares: it is replaced by the
/// built-in surface of that release where there is one, and is no longer taken for exact where
/// there is none. `stock` is the built-in surface, where its use is allowed.
pub fn reconcile_release(
    db: &mut NativeSurface,
    stock: Option<NativeSurface>,
    dialect: Dialect,
    origin: DialectOrigin,
) -> (r: Option<String>)
    ensures
        *final(db) == reconciled(*old(db), stock, dialect, origin),
        r is Some == acts_on_release(*old(db), dialect, origin),
        r matches Some(notice) ==> notice@ == (if stock is Some {
            replaced_text(*old(db), dialect)
        } else {
            demoted_text(*old(db), dialect)
        }),
{
    if !origin.is_evidenced() {
        return None;
    }
    if version_mismatch_notice(db, dialect).is_none() {
        return None;
    }
    if db.version_major > dialect.major || (db.version_major == dialect.major && db.version_minor
        > dialect.minor) {
        return None;
    }
    match stock {
        Some(stock) => {
            let notice = replaced_notice(db, dialect);
            *db = stock;
            Some(notice)
        },
        None => {
            let notice = demoted_notice(db, dialect);
            db.provenance = ApiProvenance::Generic;
            Some(notice)
        },
    }
}

// ---------------------------------------------------------------------------
// Extensions.
// ---------------------------------------------------------------------------

/// A class that an extension declares, and whether the surface knows it.
pub struct ClassHint {
    pub name: String,
    pub known: bool,
}

/// The names of hinted classes, with a separator between.
pub open spec fn hint_names(hints: Seq<ClassHint>) -> Seq<char>
    decreases hints.len(),
{
    if hints.len() == 0 {
        Seq::empty()
    } else if hints.len() == 1 {
        hints[0].name@
    } else {
        hint_names(hints.drop_last()) + ", "@ + hints.last().name@
    }
}

/// Whether no hinted class is known.
pub open spec fn all_unknown(hints: Seq<ClassHint>) -> bool {
    forall|i: int| 0 <= i < hints.len() ==> !(#[trigger] hints[i]).known
}

/// The notice about an extension whose classes the session cannot see.
pub open spec fn extension_text(hints: Seq<ClassHint>) -> Seq<char> {
    numbers::decimal_text(hints.len())
        + " declared class(es) are absent from both doc XML and the native dump ("@ + hint_names(
        hints,
    )
        + ") — those types degrade to dynamic; a dump taken with the extension loaded fixes this (open the project in the Godot editor once — this generates .godot/extension_list.cfg — then restart gdls so it re-dumps)"@
}

/// The notice for an extension whose declared classes are neither documented nor in the dump. An
/// extension of which one class is known, or one documented, is not noted.
pub fn extension_class_notice(hints: &Vec<ClassHint>, merged_this_ext: usize) -> (r: Option<String>)
    ensures
        r is Some == (merged_this_ext == 0 && hints@.len() > 0 && all_unknown(hints@)),
        r matches Some(notice) ==> notice@ == extension_text(hints@),
{
    if merged_this_ext > 0 || hints.len() == 0 {
        return None;
    }
    let mut list: String = String::new();
    let mut i: usize = 0;
    while i < hints.len()
        invariant
            0 <= i <= hints@.len(),
            all_unknown(hints@.take(i as int)),
            list@ == hint_names(hints@.take(i as int)),
        decreases hints@.len() - i,
    {
        if hints[i].known {
            proof {
                assert(hints@[i as int].known);
            }
            return None;
        }
        proof {
            assert(hints@.take(i as int + 1).drop_last() =~= hints@.take(i as int));
            assert(hints@.take(i as int + 1).last() == hints@[i as int]);
            assert forall|j: int| 0 <= j < i + 1 implies !(#[trigger] hints@.take(
                i as int + 1,
            )[j]).known by {
                if j < i {
                    assert(hints@.take(i as int)[j] == hints@[j]);
                }
            }
        }
        if i > 0 {
            list.append(", ");
        }
        list.append(hints[i].name.as_str());
        proof {
            if i == 0 {
                assert(list@ =~= hints@[0].name@);
            }
        }
        i = i + 1;
    }
    proof {
        assert(hints@.take(i as int) =~= hints@);
    }
    let mut notice: String = decimal(hints.len() as u64);
    notice.append(" declared class(es) are absent from both doc XML and the native dump (");
    notice.append(list.as_str());
    notice.append(
        ") — those types degrade to dynamic; a dump taken with the extension loaded fixes this (open the project in the Godot editor once — this generates .godot/extension_list.cfg — then restart gdls so it re-dumps)",
    );
    Some(notice)
}

/// What became of one documentation file of an extension.
#[derive(Debug, Clone, Copy, PartialEq, Eq, Structural)]
pub enum DocXml {
    /// A class of it was merged into the surface.
    Merged,
    /// The class was in the surface already.
    Known,
    /// The file holds no class.
    NotAClass,
    /// The file could not be read.
    Failed,
}

/// An extension: its documentation files and its declared classes.
pub struct Extension {
    pub docs: Vec<DocXml>,
    pub hints: Vec<ClassHint>,
}

/// How many files merged a class.
pub open spec fn merged_count(docs: Seq<DocXml>) -> int
    decreases docs.len(),
{
    if docs.len() == 0 {
        0
    } else {
        merged_count(docs.drop_last()) + if docs.last() == DocXml::Merged {
            1int
        } else {
            0
        }
    }
}

fn count_merged(docs: &Vec<DocXml>) -> (r: usize)
    ensures
        r == merged_count(docs@),
{
    let mut r: usize = 0;
    let mut i: usize = 0;
    while i < docs.len()
        invariant
            0 <= i <= docs@.len(),
            r == merged_count(docs@.take(i as int)),
            r <= i,
        decreases docs@.len() - i,
    {
        proof {
            assert(docs@.take(i as int + 1).drop_last() =~= docs@.take(i as int));
            assert(docs@.take(i as int + 1).last() == docs@[i as int]);
        }
        if docs[i] == DocXml::Merged {
            r = r + 1;
        }
        i = i + 1;
    }
    proof {
        assert(docs@.take(i as int) =~= docs@);
    }
    r
}

/// Where a session has its native surface from.
pub enum NativeSource {
    /// A configured dump was read.
    Configured(NativeSurface),
    /// A configured dump could not be read.
    Unreadable,
    /// No dump is configured: the surface that was found without one.
    Resolved(NativeSurface),
}

/// The surface that a session starts from.
pub open spec fn chosen_surface(
    source: NativeSource,
    stock: Option<NativeSurface>,
    none: NativeSurface,
) -> NativeSurface {
    match source {
        NativeSource::Configured(db) => db,
        NativeSource::Unreadable => match stock {
            Some(stock) => stock,
            None => none,
        },
        NativeSource::Resolved(db) => db,
    }
}

/// Whether the extension at an index is noted.
pub open spec fn extension_noted(extension: Extension) -> bool {
    merged_count(extension.docs@) == 0 && extension.hints@.len() > 0 && all_unknown(
        extension.hints@,
    )
}

/// A loaded surface, and what there is to say about it.
pub struct LoadedNative {
    pub surface: NativeSurface,
    pub release_notice: Option<String>,
    /// For each extension the notice about its classes, where there is one.
    pub extension_notices: Vec<Option<String>>,
}

/// How many classes the extensions merged into the surface.
pub open spec fn all_merged(extensions: Seq<Extension>) -> int
    decreases extensions.len(),
{
    if extensions.len() == 0 {
        0
    } else {
        all_merged(extensions.drop_last()) + merged_count(extensions.last().docs@)
    }
}

/// A count of classes; one that does not fit is the largest there is.
pub open spec fn counted(classes: int) -> usize {
    if classes > usize::MAX {
        usize::MAX
    } else {
        classes as usize
    }
}

/// The surface with classes that were merged into it.
pub open spec fn enlarged(db: NativeSurface, merged: int) -> NativeSurface {
    NativeSurface {
        class_count: counted(db.class_count + merged),
        empty: db.empty && merged == 0,
        ..db
    }
}

/// Choose the native surface of a session, see whether it fits the project, and add the classes that
/// the documentation of extensions merges into it. `none` is the surface without classes, `stock`
/// the built-in one, where its use is allowed.
pub fn load_native(
    source: NativeSource,
    stock: Option<NativeSurface>,
    none: NativeSurface,
    extensions: &Vec<Extension>,
    dialect: Dialect,
    origin: DialectOrigin,
) -> (r: LoadedNative)
    ensures
        ({
            let chosen = chosen_surface(source, stock, none);
            &&& r.surface == enlarged(
                reconciled(chosen, stock, dialect, origin),
                all_merged(extensions@),
            )
            &&& r.release_notice is Some == acts_on_release(chosen, dialect, origin)
            &&& r.release_notice matches Some(notice) ==> notice@ == (if stock is Some {
                replaced_text(chosen, dialect)
            } else {
                demoted_text(chosen, dialect)
            })
        }),
        r.extension_notices@.len() == extensions@.len(),
        forall|i: int|
            0 <= i < extensions@.len() ==> {
                let notice = #[trigger] r.extension_notices@[i];
                &&& notice is Some == extension_noted(extensions@[i])
                &&& notice matches Some(text) ==> text@ == extension_text(extensions@[i].hints@)
            },
{
    let mut surface: NativeSurface = match source {
        NativeSource::Configured(db) => db,
        NativeSource::Unreadable => match stock {
            Some(stock) => stock,
            None => none,
        },
        NativeSource::Resolved(db) => db,
    };
    let release_notice = reconcile_release(&mut surface, stock, dialect, origin);
    let mut extension_notices: Vec<Option<String>> = Vec::new();
    let ghost fitting = surface;
    let mut i: usize = 0;
    proof {
        assert(extensions@.take(0) =~= Seq::<Extension>::empty());
    }
    while i < extensions.len()
        invariant
            0 <= i <= extensions@.len(),
            extension_notices@.len() == i,
            all_merged(extensions@.take(i as int)) >= 0,
            surface == enlarged(fitting, all_merged(extensions@.take(i as int))),
            forall|j: int|
                0 <= j < i ==> {
                    let notice = #[trigger] extension_notices@[j];
                    &&& notice is Some == extension_noted(extensions@[j])
                    &&& notice matches Some(text) ==> text@ == extension_text(
                        extensions@[j].hints@,
                    )
                },
        decreases extensions@.len() - i,
    {
        let merged: usize = count_merged(&extensions[i].docs);
        proof {
            assert(extensions@.take(i as int + 1).drop_last() =~= extensions@.take(i as int));
            assert(extensions@.take(i as int + 1).last() == extensions@[i as int]);
        }
        surface.class_count = surface.class_count.saturating_add(merged);
        surface.empty = surface.empty && merged == 0;
        let notice = extension_class_notice(&extensions[i].hints, merged);
        extension_notices.push(notice);
        i = i + 1;
    }
    proof {
        assert(extensions@.take(i as int) =~= extensions@);
    }
    LoadedNative { surface, release_notice, extension_notices }
}

// ---------------------------------------------------------------------------
// A surface that comes in mid-session.
// ---------------------------------------------------------------------------

/// Whether a surface is strictly worse than the live one: empty where that is not, or no longer
/// exact where that is.
pub open spec fn downgrade(live: NativeSurface, new: NativeSurface) -> bool {
    (new.empty && !live.empty) || (live.provenance == ApiProvenance::Exact && new.provenance
        != ApiProvenance::Exact)
}

/// Whether a surface that comes in takes the place of the live one. A worse one never does; one of
/// the same content does not where content decides.
pub open spec fn adopts(live: NativeSurface, new: NativeSurface, dedupe_by_hash: bool) -> bool {
    !downgrade(live, new) && !(dedupe_by_hash && new.content_hash == live.content_hash
        && new.provenance == live.provenance)
}

/// Whether a surface that comes in takes the place of the live one.
pub fn adopts_native(live: &NativeSurface, new: &NativeSurface, dedupe_by_hash: bool) -> (r: bool)
    ensures
        r == adopts(*live, *new, dedupe_by_hash),
{
    let worse: bool = (new.empty && !live.empty) || (live.provenance == ApiProvenance::Exact
        && new.provenance != ApiProvenance::Exact);
    if worse {
        return false;
    }
    !(dedupe_by_hash && new.content_hash == live.content_hash && new.provenance == live.provenance)
}

// ---------------------------------------------------------------------------
// Laws.
// ---------------------------------------------------------------------------

/// A surface that stays exact under an evidenced dialect is of its release or a later one: what is
/// absent from it, the project's engine does not have.
pub proof fn lemma_exact_is_not_older(
    db: NativeSurface,
    stock: Option<NativeSurface>,
    dialect: Dialect,
    origin: DialectOrigin,
)
    requires
        origin.evidenced(),
        stock matches Some(stock) ==> !older_release(stock, dialect),
        db.version_major != 0,
    ensures
        ({
            let after = reconciled(db, stock, dialect, origin);
            after.provenance == ApiProvenance::Exact ==> !older_release(after, dialect)
        }),
{
}

/// Reconciling again changes nothing and says nothing more, when the built-in surface is of the
/// declared release or there is none.
pub proof fn lemma_reconcile_settles(
    db: NativeSurface,
    stock: Option<NativeSurface>,
    dialect: Dialect,
    origin: DialectOrigin,
)
    requires
        stock matches Some(stock) ==> stock.version_major == dialect.major && stock.version_minor
            == dialect.minor,
    ensures
        ({
            let once = reconciled(db, stock, dialect, origin);
            reconciled(once, stock, dialect, origin) == once
        }),
{
}

/// A surface into which an extension merged a class is not empty, whatever it was chosen from.
pub proof fn lemma_merged_is_not_empty(db: NativeSurface, extensions: Seq<Extension>)
    requires
        all_merged(extensions) > 0,
    ensures
        !enlarged(db, all_merged(extensions)).empty,
        enlarged(db, all_merged(extensions)).class_count > 0,
{
}

/// A session never goes from an exact surface to one that is not, nor from classes to none.
pub proof fn lemma_never_worse(live: NativeSurface, new: NativeSurface, dedupe_by_hash: bool)
    requires
        adopts(live, new, dedupe_by_hash),
    ensures
        live.provenance == ApiProvenance::Exact ==> new.provenance == ApiProvenance::Exact,
        !live.empty ==> !new.empty,
{
}

/// The echo of a surface that was just adopted is not adopted again.
pub proof fn lemma_echo_ignored(new: NativeSurface)
    ensures
        !adopts(new, new, true),
{
}

/// A dialect is a guess exactly where nothing declares one.
pub proof fn lemma_what_is_evidenced(origin: DialectOrigin)
    ensures
        origin.evidenced() <==> origin is Override || origin is Declared || origin is ClampedNewer
            || origin is ClampedOlder,
{
}

/// A release is its two numbers: texts of two releases agree where the numbers do, and the digits
/// before the dot are those of the major version.
pub proof fn lemma_release_text(major: u32, minor: u32)
    ensures
        ({
            let r = release_text(major, minor);
            let whole = numbers::decimal_text(major as nat);
            &&& r.len() == whole.len() + 1 + numbers::decimal_text(minor as nat).len()
            &&& r.take(whole.len() as int) == whole
            &&& r[whole.len() as int] == '.'
            &&& r.skip(whole.len() as int + 1) == numbers::decimal_text(minor as nat)
        }),
{
    reveal_strlit(".");
    let r = release_text(major, minor);
    let whole = numbers::decimal_text(major as nat);
    assert(r.take(whole.len() as int) =~= whole);
    assert(r.skip(whole.len() as int + 1) =~= numbers::decimal_text(minor as nat));
}

/// A surface of the dialect's own release, or of none that is known, does not disagree with it; any
/// other does.
pub proof fn lemma_when_releases_disagree(db: NativeSurface, dialect: Dialect)
    ensures
        db.version_major == dialect.major && db.version_minor == dialect.minor
            ==> !version_mismatch(db, dialect),
        db.version_major == 0 ==> !version_mismatch(db, dialect),
        db.version_major != 0 && db.version_major != dialect.major ==> version_mismatch(
            db,
            dialect,
        ),
        db.version_major != 0 && db.version_minor != dialect.minor ==> version_mismatch(
            db,
            dialect,
        ),
{
}

/// An earlier release is one of a smaller major version, or of a smaller minor version of the same;
/// of two different releases exactly one is the earlier.
pub proof fn lemma_earlier_release(db: NativeSurface, other: NativeSurface, dialect: Dialect)
    requires
        other.version_major == dialect.major,
        other.version_minor == dialect.minor,
    ensures
        db.version_major < dialect.major ==> older_release(db, dialect),
        db.version_major > dialect.major ==> !older_release(db, dialect),
        db.version_major == dialect.major ==> (older_release(db, dialect) <==> db.version_minor
            < dialect.minor),
        !older_release(other, dialect),
{
}

/// A dump of an earlier release than an evidenced dialect is not gone on with as it is: the built-in
/// surface takes its place, or else it is no longer taken for exact and keeps all that it holds. One
/// of the same release or a later one stays as it is, and under a guessed dialect every one does.
pub proof fn lemma_what_becomes_of_a_dump(
    db: NativeSurface,
    stock: Option<NativeSurface>,
    dialect: Dialect,
    origin: DialectOrigin,
)
    ensures
        ({
            let after = reconciled(db, stock, dialect, origin);
            let earlier = db.version_major != 0 && (db.version_major < dialect.major || (
            db.version_major == dialect.major && db.version_minor < dialect.minor));
            let guessed = origin is DefaultedNewest || origin is NoProject;
            &&& guessed ==> after == db
            &&& !earlier ==> after == db
            &&& earlier && !guessed && stock is Some ==> after == stock->0
            &&& earlier && !guessed && stock is None ==> after.provenance is Generic
                && after.version_major == db.version_major && after.version_minor
                == db.version_minor && after.content_hash == db.content_hash && after.class_count
                == db.class_count && after.empty == db.empty
        }),
{
}

/// What is said of a dump names its release first and then the one that the project declares.
pub proof fn lemma_notices_name_both_releases(db: NativeSurface, dialect: Dialect)
    ensures
        ({
            let dump = release_text(db.version_major, db.version_minor);
            let declared = release_text(dialect.major, dialect.minor);
            &&& ("the loaded dump is Godot "@ + dump + " but scripts are read as Godot "@
                + declared).is_prefix_of(mismatch_text(db, dialect))
            &&& ("gdls ignored the Godot "@ + dump
                + " extension_api.json it found: this project declares Godot "@
                + declared).is_prefix_of(replaced_text(db, dialect))
            &&& ("the extension_api.json gdls found is for Godot "@ + dump
                + " but this project declares Godot "@ + declared).is_prefix_of(
                demoted_text(db, dialect),
            )
        }),
{
}

/// What is said of an extension names each of its classes, in their order and with a comma between,
/// and says how many they are.
pub proof fn lemma_notice_names_every_class(hints: Seq<ClassHint>, last: ClassHint)
    ensures
        hint_names(seq![last]) == last.name@,
        hints.len() > 0 ==> hint_names(hints.push(last)) == hint_names(hints) + ", "@ + last.name@,
        (numbers::decimal_text(hints.len())
            + " declared class(es) are absent from both doc XML and the native dump ("@
            + hint_names(hints) + ")"@).is_prefix_of(extension_text(hints)),
{
    assert(hints.push(last).drop_last() =~= hints);
    reveal_strlit(")");
    reveal_strlit(
        ") — those types degrade to dynamic; a dump taken with the extension loaded fixes this (open the project in the Godot editor once — this generates .godot/extension_list.cfg — then restart gdls so it re-dumps)",
    );
    let head = numbers::decimal_text(hints.len())
        + " declared class(es) are absent from both doc XML and the native dump ("@ + hint_names(
        hints,
    );
    let text = extension_text(hints);
    assert((head + ")"@) =~= text.take((head + ")"@).len() as int));
}

/// The merged files are those that merged a class, however many others there are.
pub proof fn lemma_merged_files(docs: Seq<DocXml>)
    ensures
        merged_count(docs) == docs.filter(|doc: DocXml| doc is Merged).len(),
    decreases docs.len(),
{
    reveal(Seq::filter);
    if docs.len() > 0 {
        lemma_merged_files(docs.drop_last());
    }
}

/// An extension is noted exactly where it declares classes, none of its files merged one and the
/// surface knows none of them.
pub proof fn lemma_which_extensions_are_noted(extension: Extension)
    ensures
        extension_noted(extension) <==> extension.hints@.len() > 0 && (forall|i: int|
            0 <= i < extension.docs@.len() ==> !((#[trigger] extension.docs@[i]) is Merged)) && (
        forall|i: int|
            0 <= i < extension.hints@.len() ==> !(#[trigger] extension.hints@[i]).known),
{
    lemma_no_merged_file(extension.docs@);
}

proof fn lemma_no_merged_file(docs: Seq<DocXml>)
    ensures
        merged_count(docs) >= 0,
        merged_count(docs) == 0 <==> forall|i: int|
            0 <= i < docs.len() ==> !((#[trigger] docs[i]) is Merged),
    decreases docs.len(),
{
    if docs.len() > 0 {
        let before = docs.drop_last();
        lemma_no_merged_file(before);
        assert(forall|i: int| 0 <= i < before.len() ==> before[i] == docs[i]);
        if forall|i: int| 0 <= i < docs.len() ==> !((#[trigger] docs[i]) is Merged) {
            assert(!(docs[docs.len() - 1] is Merged));
        } else {
            let i = choose|i: int| 0 <= i < docs.len() && (#[trigger] docs[i]) is Merged;
            if i < before.len() {
                assert(before[i] is Merged);
            }
        }
    }
}

/// The classes of all extensions are added to those of the surface; nothing else of it changes.
pub proof fn lemma_what_extensions_add(
    db: NativeSurface,
    extensions: Seq<Extension>,
    last: Extension,
)
    requires
        0 <= all_merged(extensions),
        db.class_count + all_merged(extensions) <= usize::MAX,
    ensures
        ({
            let after = enlarged(db, all_merged(extensions));
            &&& after.class_count == db.class_count + all_merged(extensions)
            &&& after.empty <==> db.empty && all_merged(extensions) == 0
            &&& after.version_major == db.version_major && after.version_minor
                == db.version_minor
            &&& after.provenance == db.provenance && after.content_hash == db.content_hash
        }),
        all_merged(extensions.push(last)) == all_merged(extensions) + merged_count(last.docs@),
        all_merged(Seq::empty()) == 0,
{
    assert(extensions.push(last).drop_last() =~= extensions);
}

/// A session starts from the configured dump where it can be read; where it cannot, from the
/// built-in surface, and from the one without classes where that may not be used.
pub proof fn lemma_where_a_session_starts(
    source: NativeSource,
    stock: Option<NativeSurface>,
    none: NativeSurface,
)
    ensures
        source matches NativeSource::Configured(db) ==> chosen_surface(source, stock, none) == db,
        source matches NativeSource::Resolved(db) ==> chosen_surface(source, stock, none) == db,
        source is Unreadable && stock is Some ==> chosen_surface(source, stock, none) == stock->0,
        source is Unreadable && stock is None ==> chosen_surface(source, stock, none) == none,
{
}

/// A surface that is no worse than the live one is adopted, unless it is the same and that is asked.
pub proof fn lemma_better_surface_is_adopted(
    live: NativeSurface,
    new: NativeSurface,
    dedupe_by_hash: bool,
)
    requires
        !new.empty || live.empty,
        new.provenance is Exact || live.provenance is Generic,
    ensures
        new.content_hash != live.content_hash ==> adopts(live, new, dedupe_by_hash),
        new.provenance != live.provenance ==> adopts(live, new, dedupe_by_hash),
        adopts(live, new, false),
        new.content_hash == live.content_hash && new.provenance == live.provenance ==> !adopts(
            live,
            new,
            true,
        ),
{
}

/// A surface without classes does not replace one with classes, nor a generic one an exact one.
pub proof fn lemma_worse_surface_is_refused(
    live: NativeSurface,
    new: NativeSurface,
    dedupe_by_hash: bool,
)
    ensures
        new.empty && !live.empty ==> !adopts(live, new, dedupe_by_hash),
        new.provenance is Generic && live.provenance is Exact ==> !adopts(
            live,
            new,
            dedupe_by_hash,
        ),
{
}

/// What is said of a dump ends with what helps: a dump of the release that the project declares.
pub proof fn lemma_notices_ask_for_the_declared_release(db: NativeSurface, dialect: Dialect)
    ensures
        ({
            let declared = release_text(dialect.major, dialect.minor);
            let help = declared
                + " binary (set `godotBinaryPath`, or the GDLS_GODOT environment variable), or fix `application/config/features` in project.godot."@;
            &&& (declared + " build, or set the dialect explicitly."@).is_suffix_of(
                mismatch_text(db, dialect),
            )
            &&& help.is_suffix_of(replaced_text(db, dialect))
            &&& help.is_suffix_of(demoted_text(db, dialect))
        }),
{
    let declared = release_text(dialect.major, dialect.minor);
    let build = declared + " build, or set the dialect explicitly."@;
    let help = declared
        + " binary (set `godotBinaryPath`, or the GDLS_GODOT environment variable), or fix `application/config/features` in project.godot."@;
    let mismatch = mismatch_text(db, dialect);
    let replaced = replaced_text(db, dialect);
    let demoted = demoted_text(db, dialect);
    assert(mismatch.subrange(mismatch.len() - build.len(), mismatch.len() as int) =~= build);
    assert(replaced.subrange(replaced.len() - help.len(), replaced.len() as int) =~= help);
    assert(demoted.subrange(demoted.len() - help.len(), demoted.len() as int) =~= help);
}

} // verus!
