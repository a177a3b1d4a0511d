//! The state of a session's project: parse and analysis caches, the files of the project, the
//! native surface, and what each event does to them.
//!
//! What a parser or an analyzer makes of a text is kept by its owner; the workspace knows it by a
//! number. A cached result is valid for the text it was made from, told by a fingerprint, and an
//! analysis also for the state of the files it depends on, told by an epoch.

use lru::LruCache;
use vstd::prelude::*;
use vstd::string::*;

use crate::files;
use crate::files::{
    FileProbe, FileRead, FileStat, PathSet, ProjectFiles, Reconciliation, ReconcileMode,
    ReconciliationReport, WalkItem, WalkedFile,
};
use crate::lru_cache;
use crate::lru_cache::{
    cache_clear, cache_get, cache_len, cache_new, cache_peek, cache_pop, cache_pop_lru, cache_put,
    cache_resize, CacheEntry,
};
use crate::native;
use crate::native::{adopts_native, Dialect, DialectOrigin, LoadedNative, NativeSurface};
use crate::path;
use crate::path::normalize_path;
use crate::text;
use crate::text::{has_prefix, same_text, trim};
use crate::text_map;
use crate::text_map::TextMap;
use crate::text_order;
use crate::text_order::sorted_union;
use crate::uri::CanonicalKey;

verus! {

/// The entries of a cache.
pub type Entries = Seq<(Seq<char>, CacheEntry)>;

/// How many disk reads are remembered to tell a change that is delivered twice.
pub const DISK_APPLY_CAPACITY: usize = 4096;

/// The fingerprint of a text on a machine. Machines differ in their word size, in how wide they
/// multiply and in what a text hands to a hasher; each goes by a number of its own.
pub uninterp spec fn text_hash(text: Seq<char>, machine: nat) -> u64;

/// `FxHasher` over a text: the fingerprint of this text, on some machine. Which machine it is, and
/// so which number, is left unsaid; a caller that compares two fingerprints compares numbers.
#[verifier::external_body]
pub(crate) fn fingerprint(text: &str) -> (r: u64)
    ensures
        exists|machine: nat| r == #[trigger] text_hash(text@, machine),
{
    let mut hasher = rustc_hash::FxHasher::default();
    std::hash::Hash::hash(text, &mut hasher);
    std::hash::Hasher::finish(&hasher)
}

/// What a workspace holds.
#[verifier::ext_equal]
pub struct WorkspaceView {
    pub parses: Entries,
    pub analyses: Entries,
    pub applied: Entries,
    pub capacity: nat,
    pub generation: u64,
    pub iter_limit: Option<u32>,
    pub checkpoint_delay_us: Option<u64>,
    pub native: NativeSurface,
    pub dialect: Dialect,
    pub origin: DialectOrigin,
    pub notice: Option<Seq<char>>,
    pub files: files::FilesView,
    pub uids: Map<Seq<char>, Seq<char>>,
}

/// What the server knows of the open project.
pub struct Workspace {
    parse_cache: LruCache<String, CacheEntry>,
    analysis_cache: LruCache<String, CacheEntry>,
    last_applied_disk: LruCache<String, CacheEntry>,
    analyzer_iter_limit: Option<u32>,
    analyzer_checkpoint_delay_us: Option<u64>,
    analysis_generation: u64,
    native: NativeSurface,
    dialect: Dialect,
    dialect_origin: DialectOrigin,
    native_release_notice: Option<String>,
    files: ProjectFiles,
    uids: TextMap<String>,
}

impl View for Workspace {
    type V = WorkspaceView;

    closed spec fn view(&self) -> WorkspaceView {
        WorkspaceView {
            parses: lru_cache::cache_entries(self.parse_cache),
            analyses: lru_cache::cache_entries(self.analysis_cache),
            applied: lru_cache::cache_entries(self.last_applied_disk),
            capacity: lru_cache::cache_capacity(self.parse_cache),
            generation: self.analysis_generation,
            iter_limit: self.analyzer_iter_limit,
            checkpoint_delay_us: self.analyzer_checkpoint_delay_us,
            native: self.native,
            dialect: self.dialect,
            origin: self.dialect_origin,
            notice: text::opt_string(self.native_release_notice),
            files: self.files@,
            uids: text_values(self.uids@),
        }
    }
}

/// The session-wide limits of the analyzer.
#[derive(Debug, Clone, Copy, PartialEq, Eq, Structural)]
pub struct AnalyzerLimits {
    pub iter_limit: Option<u32>,
    pub checkpoint_delay_us: Option<u64>,
}

/// How an analysis ended. One that bailed out holds a part of the result only.
#[derive(Debug, Clone, Copy, PartialEq, Eq, Structural)]
pub struct Analysis {
    pub value: u64,
    pub bailed: bool,
}

/// What a new project file said.
pub struct ProjectReload {
    /// The file could not be read as it should; what is known stays.
    pub preserve_prior: bool,
    pub dialect: Dialect,
    pub origin: DialectOrigin,
    /// The resource of each uid.
    pub uids: TextMap<String>,
}

/// What was found of a text in a cache, and the fingerprint to keep a new result under.
#[derive(Debug, Clone, Copy, PartialEq, Eq, Structural)]
pub struct CacheLookup {
    pub hash: u64,
    pub hit: Option<u64>,
}

/// What was found for an analysis, and how it is to be made where nothing was.
#[derive(Debug, Clone, Copy, PartialEq, Eq, Structural)]
pub struct AnalysisPlan {
    pub lookup: CacheLookup,
    pub limits: AnalyzerLimits,
    pub dialect: Dialect,
}

/// The uid that a resource had and the one that it has now.
pub struct UidChange {
    pub previous: Option<String>,
    pub current: Option<String>,
}

/// What a saved index is valid for.
pub struct CacheKey {
    pub cache_format_version: u32,
    pub server_version: String,
    pub native_db_content_hash: u64,
    pub project_fingerprint: u64,
    pub dialect: Dialect,
}

/// Whether a cached result is valid for a text.
pub open spec fn parse_hit(entries: Entries, key: Seq<char>, hash: u64) -> Option<u64> {
    match lru_cache::lookup(entries, key) {
        Some(entry) => if entry.hash == hash {
            Some(entry.value)
        } else {
            None
        },
        None => None,
    }
}

/// Whether a cached analysis is valid for a text and the files it depends on.
pub open spec fn analysis_hit(entries: Entries, key: Seq<char>, hash: u64, epoch: u64) -> Option<
    u64,
> {
    match lru_cache::lookup(entries, key) {
        Some(entry) => if entry.hash == hash && entry.epoch == epoch {
            Some(entry.value)
        } else {
            None
        },
        None => None,
    }
}

/// The limits of one analysis: its own where it has them, else those of the session.
pub open spec fn limits_within(ws: WorkspaceView, limits: AnalyzerLimits) -> AnalyzerLimits {
    AnalyzerLimits {
        iter_limit: if limits.iter_limit is Some {
            limits.iter_limit
        } else {
            ws.iter_limit
        },
        checkpoint_delay_us: if limits.checkpoint_delay_us is Some {
            limits.checkpoint_delay_us
        } else {
            ws.checkpoint_delay_us
        },
    }
}

/// What an analysis is served as, and the analyses that are cached then.
///
/// A valid cached analysis is served. Otherwise the analyzer's result counts: a complete one is
/// cached and served; of a partial one nothing is cached, and a complete analysis of the same text
/// from an earlier epoch is served in its place.
pub open spec fn analysis_step(
    entries: Entries,
    capacity: nat,
    key: Seq<char>,
    hash: u64,
    epoch: u64,
    result: Analysis,
) -> (Analysis, Entries) {
    let seen = lru_cache::touched(entries, key);
    match analysis_hit(entries, key, hash, epoch) {
        Some(value) => (Analysis { value, bailed: false }, seen),
        None => analysis_taken(seen, capacity, key, hash, epoch, result),
    }
}

/// What is served of a new analysis, and the analyses that are cached then.
pub open spec fn analysis_taken(
    entries: Entries,
    capacity: nat,
    key: Seq<char>,
    hash: u64,
    epoch: u64,
    result: Analysis,
) -> (Analysis, Entries) {
    if !result.bailed {
        (
            result,
            lru_cache::stored(
                entries,
                capacity,
                key,
                CacheEntry { hash, epoch, value: result.value },
            ),
        )
    } else {
        (
            match parse_hit(entries, key, hash) {
                Some(value) => Analysis { value, bailed: false },
                None => result,
            },
            lru_cache::touched(entries, key),
        )
    }
}

/// The workspace after a read of a file was applied.
pub open spec fn disk_applied(ws: WorkspaceView, path: Seq<char>, hash: u64) -> WorkspaceView {
    WorkspaceView {
        applied: lru_cache::stored(
            ws.applied,
            DISK_APPLY_CAPACITY as nat,
            path,
            CacheEntry { hash, epoch: 0, value: 0 },
        ),
        ..ws
    }
}

/// The texts of a map of strings.
pub open spec fn text_values(map: Map<Seq<char>, String>) -> Map<Seq<char>, Seq<char>> {
    map.map_values(|value: String| value@)
}

/// The uid that a sidecar file gives: its text, where that is one.
pub open spec fn sidecar_uid(body: Option<Seq<char>>) -> Option<Seq<char>> {
    match body {
        Some(body) => if text::starts_with(text::trimmed(body), "uid://"@) {
            Some(text::trimmed(body))
        } else {
            None
        },
        None => None,
    }
}

/// The uids after a resource has got one, or none: its earlier uids are gone.
pub open spec fn uids_after(
    uids: Map<Seq<char>, Seq<char>>,
    res: Seq<char>,
    uid: Option<Seq<char>>,
) -> Map<Seq<char>, Seq<char>> {
    let others = uids.remove_keys(Set::new(|u: Seq<char>| uids.dom().contains(u) && uids[u] == res));
    match uid {
        Some(uid) => others.insert(uid, res),
        None => others,
    }
}

/// Whether a uid stands for a resource.
pub open spec fn uid_of(uids: Map<Seq<char>, Seq<char>>, uid: Seq<char>, res: Seq<char>) -> bool {
    uids.dom().contains(uid) && uids[uid] == res
}

/// The workspace after every analysis was invalidated.
pub open spec fn invalidated(ws: WorkspaceView) -> WorkspaceView {
    WorkspaceView { analyses: Seq::empty(), generation: (ws.generation + 1) as u64, ..ws }
}

/// The workspace after a native surface came in.
pub open spec fn adopted(
    ws: WorkspaceView,
    new: NativeSurface,
    dedupe_by_hash: bool,
) -> WorkspaceView {
    if native::adopts(ws.native, new, dedupe_by_hash) {
        invalidated(WorkspaceView { native: new, ..ws })
    } else {
        ws
    }
}

/// The analysis that is cached under a key at an epoch, whatever its text.
pub open spec fn peeked(entries: Entries, key: Seq<char>, epoch: u64) -> Option<u64> {
    match lru_cache::lookup(entries, key) {
        Some(entry) => if entry.epoch == epoch {
            Some(entry.value)
        } else {
            None
        },
        None => None,
    }
}

/// The workspace after the project file was read again.
pub open spec fn reloaded(
    ws: WorkspaceView,
    project: ProjectReload,
    loaded: LoadedNative,
) -> WorkspaceView {
    if project.preserve_prior {
        ws
    } else if project.dialect != ws.dialect {
        WorkspaceView {
            dialect: project.dialect,
            origin: project.origin,
            uids: text_values(project.uids@),
            ..ws
        }
    } else {
        invalidated(
            adopted(
                WorkspaceView {
                    origin: project.origin,
                    uids: text_values(project.uids@),
                    notice: text::opt_string(loaded.release_notice),
                    ..ws
                },
                loaded.surface,
                false,
            ),
        )
    }
}

impl Workspace {
    /// The caches are kept within their capacities, with each key once.
    pub closed spec fn well_formed(&self) -> bool {
        &&& lru_cache::cache_capacity(self.analysis_cache) == self@.capacity
        &&& lru_cache::cache_capacity(self.last_applied_disk) == DISK_APPLY_CAPACITY
        &&& lru_cache::well_kept(self@.parses, self@.capacity)
        &&& lru_cache::well_kept(self@.analyses, self@.capacity)
        &&& lru_cache::well_kept(self@.applied, DISK_APPLY_CAPACITY as nat)
    }

    /// The caches of a well-formed workspace.
    pub proof fn lemma_well_kept(&self)
        requires
            self.well_formed(),
        ensures
            lru_cache::well_kept(self@.parses, self@.capacity),
            lru_cache::well_kept(self@.analyses, self@.capacity),
            lru_cache::well_kept(self@.applied, DISK_APPLY_CAPACITY as nat),
    {
    }

    /// The workspace of a project that was loaded: nothing is cached yet.
    pub fn load(
        files: ProjectFiles,
        uids: TextMap<String>,
        loaded: LoadedNative,
        dialect: Dialect,
        origin: DialectOrigin,
        capacity: usize,
        limits: AnalyzerLimits,
    ) -> (r: Workspace)
        requires
            0 < capacity,
            capacity * 64 <= isize::MAX,
        ensures
            r.well_formed(),
            r@ == (WorkspaceView {
                parses: Seq::empty(),
                analyses: Seq::empty(),
                applied: Seq::empty(),
                capacity: capacity as nat,
                generation: 0,
                iter_limit: limits.iter_limit,
                checkpoint_delay_us: limits.checkpoint_delay_us,
                native: loaded.surface,
                dialect,
                origin,
                notice: text::opt_string(loaded.release_notice),
                files: files@,
                uids: text_values(uids@),
            }),
    {
        Workspace {
            parse_cache: cache_new(capacity),
            analysis_cache: cache_new(capacity),
            last_applied_disk: cache_new(DISK_APPLY_CAPACITY),
            analyzer_iter_limit: limits.iter_limit,
            analyzer_checkpoint_delay_us: limits.checkpoint_delay_us,
            analysis_generation: 0,
            native: loaded.surface,
            dialect,
            dialect_origin: origin,
            native_release_notice: loaded.release_notice,
            files,
            uids,
        }
    }

    /// The count of wholesale invalidations, which content and epoch do not show.
    pub fn analysis_generation(&self) -> (r: u64)
        ensures
            r == self@.generation,
    {
        self.analysis_generation
    }

    /// The native surface in use.
    pub fn native(&self) -> (r: NativeSurface)
        ensures
            r == self@.native,
    {
        self.native
    }

    /// The release that scripts are read as, and how it was found.
    pub fn dialect(&self) -> (r: (Dialect, DialectOrigin))
        ensures
            r.0 == self@.dialect,
            r.1 == self@.origin,
    {
        (self.dialect, self.dialect_origin)
    }

    /// What the user is to be told of the native surface.
    pub fn native_release_notice(&self) -> (r: Option<&str>)
        ensures
            text::opt_str(r) == self@.notice,
    {
        match &self.native_release_notice {
            Some(notice) => Some(notice.as_str()),
            None => None,
        }
    }

    /// The files of the project.
    pub fn files(&self) -> (r: &ProjectFiles)
        ensures
            r@ == self@.files,
    {
        &self.files
    }

    // -----------------------------------------------------------------------
    // Parses and analyses.
    // -----------------------------------------------------------------------

    /// The parse of a text that is cached. Where there is none, the text is to be parsed, and
    /// `parsed` to follow.
    pub fn parse(&mut self, key: &CanonicalKey, text: &str) -> (r: CacheLookup)
        requires
            old(self).well_formed(),
        ensures
            final(self).well_formed(),
            exists|machine: nat| r.hash == #[trigger] text_hash(text@, machine),
            r.hit == parse_hit(old(self)@.parses, key@, r.hash),
            final(self)@ == (WorkspaceView {
                parses: lru_cache::touched(old(self)@.parses, key@),
                ..old(self)@
            }),
    {
        let hash: u64 = fingerprint(text);
        CacheLookup { hash, hit: self.cached_parse(key, hash) }
    }

    /// The parse that is cached for the text with a fingerprint.
    pub fn cached_parse(&mut self, key: &CanonicalKey, hash: u64) -> (r: Option<u64>)
        requires
            old(self).well_formed(),
        ensures
            final(self).well_formed(),
            r == parse_hit(old(self)@.parses, key@, hash),
            final(self)@ == (WorkspaceView {
                parses: lru_cache::touched(old(self)@.parses, key@),
                ..old(self)@
            }),
    {
        proof {
            lru_cache::lemma_touched(self@.parses, self@.capacity, key@);
        }
        match cache_get(&mut self.parse_cache, key.as_str()) {
            Some(entry) => if entry.hash == hash {
                Some(entry.value)
            } else {
                None
            },
            None => None,
        }
    }

    /// Keep the parse of a text.
    pub fn parsed(&mut self, key: &CanonicalKey, hash: u64, value: u64)
        requires
            old(self).well_formed(),
        ensures
            final(self).well_formed(),
            final(self)@ == (WorkspaceView {
                parses: lru_cache::stored(
                    old(self)@.parses,
                    old(self)@.capacity,
                    key@,
                    CacheEntry { hash, epoch: 0, value },
                ),
                ..old(self)@
            }),
    {
        let entry = CacheEntry { hash, epoch: 0, value };
        proof {
            lru_cache::lemma_stored(self@.parses, self@.capacity, key@, entry);
        }
        cache_put(&mut self.parse_cache, key.as_str().to_owned(), entry);
    }

    /// The limits of one analysis: its own where it has them, else those of the session.
    pub fn effective_limits(&self, limits: AnalyzerLimits) -> (r: AnalyzerLimits)
        ensures
            r == limits_within(self@, limits),
    {
        AnalyzerLimits {
            iter_limit: if limits.iter_limit.is_some() {
                limits.iter_limit
            } else {
                self.analyzer_iter_limit
            },
            checkpoint_delay_us: if limits.checkpoint_delay_us.is_some() {
                limits.checkpoint_delay_us
            } else {
                self.analyzer_checkpoint_delay_us
            },
        }
    }

    /// The analysis of a text that is cached and valid at the epoch of its file. The analyzer is
    /// not run.
    pub fn cached_analysis(&mut self, key: &CanonicalKey, text: &str, epoch: u64) -> (r:
        CacheLookup)
        requires
            old(self).well_formed(),
        ensures
            final(self).well_formed(),
            exists|machine: nat| r.hash == #[trigger] text_hash(text@, machine),
            r.hit == analysis_hit(old(self)@.analyses, key@, r.hash, epoch),
            final(self)@ == (WorkspaceView {
                analyses: lru_cache::touched(old(self)@.analyses, key@),
                ..old(self)@
            }),
    {
        let hash: u64 = fingerprint(text);
        CacheLookup { hash, hit: self.valid_analysis(key, hash, epoch) }
    }

    /// The analysis that is cached and valid for the text with a fingerprint.
    pub fn valid_analysis(&mut self, key: &CanonicalKey, hash: u64, epoch: u64) -> (r: Option<u64>)
        requires
            old(self).well_formed(),
        ensures
            final(self).well_formed(),
            r == analysis_hit(old(self)@.analyses, key@, hash, epoch),
            final(self)@ == (WorkspaceView {
                analyses: lru_cache::touched(old(self)@.analyses, key@),
                ..old(self)@
            }),
    {
        proof {
            lru_cache::lemma_touched(self@.analyses, self@.capacity, key@);
        }
        match cache_get(&mut self.analysis_cache, key.as_str()) {
            Some(entry) => if entry.hash == hash && entry.epoch == epoch {
                Some(entry.value)
            } else {
                None
            },
            None => None,
        }
    }

    /// Keep what the analyzer gave for a text that had no valid analysis, and say which result to
    /// serve. A complete result is cached under the epoch. A partial one is not: where a complete
    /// result for the same text is cached, though from an earlier epoch, that one is served.
    pub fn analyzed(&mut self, key: &CanonicalKey, hash: u64, epoch: u64, result: Analysis) -> (r:
        Analysis)
        requires
            old(self).well_formed(),
        ensures
            final(self).well_formed(),
            ({
                let step = analysis_taken(
                    old(self)@.analyses,
                    old(self)@.capacity,
                    key@,
                    hash,
                    epoch,
                    result,
                );
                r == step.0 && final(self)@ == (WorkspaceView { analyses: step.1, ..old(self)@ })
            }),
    {
        if result.bailed {
            proof {
                lru_cache::lemma_touched(self@.analyses, self@.capacity, key@);
            }
            return match cache_get(&mut self.analysis_cache, key.as_str()) {
                Some(entry) => if entry.hash == hash {
                    Analysis { value: entry.value, bailed: false }
                } else {
                    result
                },
                None => result,
            };
        }
        let entry = CacheEntry { hash, epoch, value: result.value };
        proof {
            lru_cache::lemma_stored(self@.analyses, self@.capacity, key@, entry);
        }
        cache_put(&mut self.analysis_cache, key.as_str().to_owned(), entry);
        result
    }

    /// What an analysis takes: the cached one where it is valid. Where there is none, the analyzer
    /// is to be run within the limits and by the rules of the release, and `analyzed` to follow.
    pub fn analyze_with_options(
        &mut self,
        key: &CanonicalKey,
        text: &str,
        epoch: u64,
        limits: AnalyzerLimits,
    ) -> (r: AnalysisPlan)
        requires
            old(self).well_formed(),
        ensures
            final(self).well_formed(),
            exists|machine: nat| r.lookup.hash == #[trigger] text_hash(text@, machine),
            r.lookup.hit == analysis_hit(old(self)@.analyses, key@, r.lookup.hash, epoch),
            r.limits == limits_within(old(self)@, limits),
            r.dialect == old(self)@.dialect,
            final(self)@ == (WorkspaceView {
                analyses: lru_cache::touched(old(self)@.analyses, key@),
                ..old(self)@
            }),
    {
        let limits: AnalyzerLimits = self.effective_limits(limits);
        let dialect: Dialect = self.dialect;
        AnalysisPlan { lookup: self.cached_analysis(key, text, epoch), limits, dialect }
    }

    /// The analysis of a text with a fingerprint: the cached one where it is valid, else what comes
    /// of the analyzer's result.
    pub fn analyze(&mut self, key: &CanonicalKey, hash: u64, epoch: u64, result: Analysis) -> (r:
        Analysis)
        requires
            old(self).well_formed(),
        ensures
            final(self).well_formed(),
            ({
                let step = analysis_step(
                    old(self)@.analyses,
                    old(self)@.capacity,
                    key@,
                    hash,
                    epoch,
                    result,
                );
                r == step.0 && final(self)@ == (WorkspaceView { analyses: step.1, ..old(self)@ })
            }),
    {
        match self.valid_analysis(key, hash, epoch) {
            Some(value) => Analysis { value, bailed: false },
            None => self.analyzed(key, hash, epoch, result),
        }
    }

    /// The analysis that is cached under a key, whatever its text, at the given epoch. The order of
    /// use stays as it is.
    pub fn peek_analysis(&self, key: &CanonicalKey, epoch: u64) -> (r: Option<u64>)
        ensures
            r == peeked(self@.analyses, key@, epoch),
    {
        match cache_peek(&self.analysis_cache, key.as_str()) {
            Some(entry) => if entry.epoch == epoch {
                Some(entry.value)
            } else {
                None
            },
            None => None,
        }
    }

    /// Drop what is cached under a key.
    pub fn forget(&mut self, key: &CanonicalKey)
        requires
            old(self).well_formed(),
        ensures
            final(self).well_formed(),
            final(self)@ == (WorkspaceView {
                parses: lru_cache::without(old(self)@.parses, key@),
                analyses: lru_cache::without(old(self)@.analyses, key@),
                ..old(self)@
            }),
    {
        proof {
            lru_cache::lemma_without(self@.parses, self@.capacity, key@);
            lru_cache::lemma_without(self@.analyses, self@.capacity, key@);
        }
        let _ = cache_pop(&mut self.parse_cache, key.as_str());
        let _ = cache_pop(&mut self.analysis_cache, key.as_str());
    }

    /// Drop the less recently used half of each cache. How many entries were dropped is given back.
    pub fn evict_half(&mut self) -> (r: usize)
        requires
            old(self).well_formed(),
        ensures
            final(self).well_formed(),
            r == old(self)@.parses.len() / 2 + old(self)@.analyses.len() / 2,
            final(self)@ == (WorkspaceView {
                parses: old(self)@.parses.take(
                    old(self)@.parses.len() - old(self)@.parses.len() / 2,
                ),
                analyses: old(self)@.analyses.take(
                    old(self)@.analyses.len() - old(self)@.analyses.len() / 2,
                ),
                ..old(self)@
            }),
    {
        let parse_drop: usize = cache_len(&self.parse_cache) / 2;
        let analysis_drop: usize = cache_len(&self.analysis_cache) / 2;
        proof {
            let parses = self@.parses;
            let analyses = self@.analyses;
            let kept_parses = (parses.len() - parses.len() / 2) as nat;
            let kept_analyses = (analyses.len() - analyses.len() / 2) as nat;
            lru_cache::lemma_recent(parses, self@.capacity, kept_parses);
            lru_cache::lemma_recent(analyses, self@.capacity, kept_analyses);
            assert(lru_cache::recent(parses, kept_parses) =~= parses.take(kept_parses as int));
            assert(lru_cache::recent(analyses, kept_analyses) =~= analyses.take(
                kept_analyses as int,
            ));
        }
        drop_least_recent(&mut self.parse_cache, parse_drop);
        drop_least_recent(&mut self.analysis_cache, analysis_drop);
        parse_drop + analysis_drop
    }

    /// How many parses and analyses are cached.
    pub fn cache_lens(&self) -> (r: (usize, usize))
        ensures
            r.0 == self@.parses.len(),
            r.1 == self@.analyses.len(),
    {
        (cache_len(&self.parse_cache), cache_len(&self.analysis_cache))
    }

    /// Change how many entries each cache may hold. A smaller cache keeps the most recently used.
    pub fn set_cache_capacity(&mut self, capacity: usize)
        requires
            old(self).well_formed(),
            0 < capacity,
        ensures
            final(self).well_formed(),
            final(self)@ == (WorkspaceView {
                parses: lru_cache::recent(old(self)@.parses, capacity as nat),
                analyses: lru_cache::recent(old(self)@.analyses, capacity as nat),
                capacity: capacity as nat,
                ..old(self)@
            }),
    {
        proof {
            lru_cache::lemma_recent(self@.parses, self@.capacity, capacity as nat);
            lru_cache::lemma_recent(self@.analyses, self@.capacity, capacity as nat);
        }
        cache_resize(&mut self.parse_cache, capacity);
        cache_resize(&mut self.analysis_cache, capacity);
    }

    /// Put a parse into the cache as it stands.
    pub fn debug_insert_parse_entry(&mut self, key: CanonicalKey, hash: u64, value: u64)
        requires
            old(self).well_formed(),
        ensures
            final(self).well_formed(),
            final(self)@ == (WorkspaceView {
                parses: lru_cache::stored(
                    old(self)@.parses,
                    old(self)@.capacity,
                    key@,
                    CacheEntry { hash, epoch: 0, value },
                ),
                ..old(self)@
            }),
    {
        self.parsed(&key, hash, value);
    }

    /// Put an analysis into the cache as it stands.
    pub fn debug_insert_analysis_entry(&mut self, key: CanonicalKey, hash: u64, value: u64)
        requires
            old(self).well_formed(),
        ensures
            final(self).well_formed(),
            final(self)@ == (WorkspaceView {
                analyses: lru_cache::stored(
                    old(self)@.analyses,
                    old(self)@.capacity,
                    key@,
                    CacheEntry { hash, epoch: 0, value },
                ),
                ..old(self)@
            }),
    {
        let _ = self.analyzed(&key, hash, 0, Analysis { value, bailed: false });
    }

    /// Invalidate every analysis.
    fn invalidate(&mut self)
        requires
            old(self).well_formed(),
            old(self)@.generation < u64::MAX,
        ensures
            final(self).well_formed(),
            final(self)@ == invalidated(old(self)@),
    {
        cache_clear(&mut self.analysis_cache);
        self.analysis_generation = self.analysis_generation + 1;
    }

    /// The warning policy changed: every cached analysis was made under the old one.
    pub fn apply_strict(&mut self)
        requires
            old(self).well_formed(),
            old(self)@.generation < u64::MAX,
        ensures
            final(self).well_formed(),
            final(self)@ == invalidated(old(self)@),
    {
        self.invalidate();
    }

    /// Change the limits of the analyzer; what was analyzed under the old ones is dropped.
    pub fn set_analyzer_config(&mut self, limits: AnalyzerLimits)
        requires
            old(self).well_formed(),
            old(self)@.generation < u64::MAX,
        ensures
            final(self).well_formed(),
            final(self)@ == invalidated(
                WorkspaceView {
                    iter_limit: limits.iter_limit,
                    checkpoint_delay_us: limits.checkpoint_delay_us,
                    ..old(self)@
                },
            ),
    {
        self.analyzer_iter_limit = limits.iter_limit;
        self.analyzer_checkpoint_delay_us = limits.checkpoint_delay_us;
        self.invalidate();
    }

    // -----------------------------------------------------------------------
    // The native surface.
    // -----------------------------------------------------------------------

    /// A native surface came in. Whether it took the place of the live one is given back.
    pub fn adopt_native(&mut self, new: NativeSurface, dedupe_by_hash: bool) -> (r: bool)
        requires
            old(self).well_formed(),
            old(self)@.generation < u64::MAX,
        ensures
            final(self).well_formed(),
            r == native::adopts(old(self)@.native, new, dedupe_by_hash),
            final(self)@ == adopted(old(self)@, new, dedupe_by_hash),
    {
        if !adopts_native(&self.native, &new, dedupe_by_hash) {
            return false;
        }
        self.native = new;
        self.invalidate();
        true
    }

    /// The native surface was loaded again. Whether it changed is given back.
    pub fn reload_native(&mut self, loaded: LoadedNative) -> (r: bool)
        requires
            old(self).well_formed(),
            old(self)@.generation < u64::MAX,
        ensures
            final(self).well_formed(),
            r == native::adopts(old(self)@.native, loaded.surface, true),
            final(self)@ == adopted(
                WorkspaceView { notice: text::opt_string(loaded.release_notice), ..old(self)@ },
                loaded.surface,
                true,
            ),
    {
        self.native_release_notice = loaded.release_notice;
        self.adopt_native(loaded.surface, true)
    }

    /// The project file was read again, and the native surface loaded for it. The answer is `true`
    /// when scripts are to be read as another release from now on: then nothing that is known can
    /// be trusted, and the workspace is to be loaded anew. A file that could not be read as it
    /// should changes nothing.
    pub fn reload_project_and_native(&mut self, project: ProjectReload, loaded: LoadedNative) -> (r:
        bool)
        requires
            old(self).well_formed(),
            old(self)@.generation < u64::MAX - 1,
        ensures
            final(self).well_formed(),
            r == (!project.preserve_prior && project.dialect != old(self)@.dialect),
            final(self)@ == reloaded(old(self)@, project, loaded),
    {
        if project.preserve_prior {
            return false;
        }
        if project.dialect.major != self.dialect.major || project.dialect.minor
            != self.dialect.minor {
            self.dialect = project.dialect;
            self.dialect_origin = project.origin;
            self.uids = project.uids;
            return true;
        }
        self.dialect_origin = project.origin;
        self.uids = project.uids;
        self.native_release_notice = loaded.release_notice;
        let _ = self.adopt_native(loaded.surface, false);
        self.invalidate();
        false
    }

    // -----------------------------------------------------------------------
    // Files. They go by their normalized paths, however a caller spells them.
    // -----------------------------------------------------------------------

    /// Whether a read of this file with exactly this text was applied last: the same change was
    /// delivered twice.
    pub fn disk_apply_is_duplicate(&mut self, path: &str, text: &str) -> (r: bool)
        requires
            old(self).well_formed(),
        ensures
            final(self).well_formed(),
            exists|machine: nat|
                r == (parse_hit(
                    old(self)@.applied,
                    path::normalized(path@),
                    #[trigger] text_hash(text@, machine),
                ) is Some),
            final(self)@ == (WorkspaceView {
                applied: lru_cache::touched(old(self)@.applied, path::normalized(path@)),
                ..old(self)@
            }),
    {
        let hash: u64 = fingerprint(text);
        self.is_last_applied(path, hash)
    }

    /// Whether the read of this file that was applied last has the fingerprint.
    pub fn is_last_applied(&mut self, path: &str, hash: u64) -> (r: bool)
        requires
            old(self).well_formed(),
        ensures
            final(self).well_formed(),
            r == (parse_hit(old(self)@.applied, path::normalized(path@), hash) is Some),
            final(self)@ == (WorkspaceView {
                applied: lru_cache::touched(old(self)@.applied, path::normalized(path@)),
                ..old(self)@
            }),
    {
        let path = normalize_path(path);
        proof {
            lru_cache::lemma_touched(self@.applied, DISK_APPLY_CAPACITY as nat, path@);
        }
        match cache_get(&mut self.last_applied_disk, path.as_str()) {
            Some(entry) => entry.hash == hash,
            None => false,
        }
    }

    /// Remember that a read of this file was applied.
    pub fn record_disk_apply(&mut self, path: &str, text: &str)
        requires
            old(self).well_formed(),
        ensures
            final(self).well_formed(),
            exists|machine: nat|
                final(self)@ == disk_applied(
                    old(self)@,
                    path::normalized(path@),
                    #[trigger] text_hash(text@, machine),
                ),
    {
        let hash: u64 = fingerprint(text);
        self.record_applied(path, hash);
    }

    /// Remember that a read with the fingerprint was applied.
    pub fn record_applied(&mut self, path: &str, hash: u64)
        requires
            old(self).well_formed(),
        ensures
            final(self).well_formed(),
            final(self)@ == disk_applied(old(self)@, path::normalized(path@), hash),
    {
        let entry = CacheEntry { hash, epoch: 0, value: 0 };
        let path = normalize_path(path);
        proof {
            lru_cache::lemma_stored(self@.applied, DISK_APPLY_CAPACITY as nat, path@, entry);
        }
        cache_put(&mut self.last_applied_disk, path, entry);
    }

    /// Index a script, from a buffer or from disk. The caches stay: a changed text misses them by
    /// itself.
    pub fn reindex(&mut self, path: &str, interface: u64)
        requires
            old(self).well_formed(),
        ensures
            final(self).well_formed(),
            final(self)@ == (WorkspaceView {
                files: files::FilesView {
                    index: old(self)@.files.index.insert(path::normalized(path@), interface),
                    ..old(self)@.files
                },
                ..old(self)@
            }),
    {
        self.files.set_script(normalize_path(path).as_str(), interface);
    }

    /// A file was looked at on disk; a failure forgets what was known of it.
    pub fn update_stat_from_disk(&mut self, path: &str, stat: Option<FileStat>)
        requires
            old(self).well_formed(),
        ensures
            final(self).well_formed(),
            final(self)@ == (WorkspaceView {
                files: files::FilesView {
                    stats: files::with_stat(old(self)@.files.stats, path::normalized(path@), stat),
                    ..old(self)@.files
                },
                ..old(self)@
            }),
    {
        self.files.update_stat(normalize_path(path).as_str(), stat);
    }

    /// Drop a script that is gone, and everything that is cached of it. `key` is its cache key,
    /// where it has one.
    pub fn remove(&mut self, path: &str, key: Option<CanonicalKey>)
        requires
            old(self).well_formed(),
        ensures
            final(self).well_formed(),
            final(self)@ == (WorkspaceView {
                parses: match key {
                    Some(key) => lru_cache::without(old(self)@.parses, key@),
                    None => old(self)@.parses,
                },
                analyses: match key {
                    Some(key) => lru_cache::without(old(self)@.analyses, key@),
                    None => old(self)@.analyses,
                },
                applied: lru_cache::without(old(self)@.applied, path::normalized(path@)),
                files: files::FilesView {
                    index: old(self)@.files.index.remove(path::normalized(path@)),
                    stats: old(self)@.files.stats.remove(path::normalized(path@)),
                    ..old(self)@.files
                },
                ..old(self)@
            }),
    {
        let path = normalize_path(path);
        proof {
            lru_cache::lemma_without(self@.applied, DISK_APPLY_CAPACITY as nat, path@);
        }
        let _ = cache_pop(&mut self.last_applied_disk, path.as_str());
        self.files.remove_script(path.as_str());
        if let Some(key) = key {
            self.forget(&key);
        }
    }

    /// A scene was read anew.
    pub fn reindex_scene(
        &mut self,
        path: &str,
        res: Option<&str>,
        read: FileRead,
        stat_now: Option<FileStat>,
    )
        requires
            old(self).well_formed(),
        ensures
            final(self).well_formed(),
            final(self)@ == (WorkspaceView {
                files: files::scene_reindexed(
                    old(self)@.files,
                    path::normalized(path@),
                    text::opt_str(res),
                    read,
                    stat_now,
                ),
                ..old(self)@
            }),
    {
        self.files.reindex_scene(normalize_path(path).as_str(), res, read, stat_now);
    }

    /// Drop a scene.
    pub fn remove_scene(&mut self, path: &str, res: Option<&str>)
        requires
            old(self).well_formed(),
        ensures
            final(self).well_formed(),
            final(self)@ == (WorkspaceView {
                files: files::scene_removed(
                    old(self)@.files,
                    path::normalized(path@),
                    text::opt_str(res),
                ),
                ..old(self)@
            }),
    {
        self.files.remove_scene(normalize_path(path).as_str(), res);
    }

    /// An asset was seen.
    pub fn reindex_asset(&mut self, path: &str, res: Option<&str>, stat_now: Option<FileStat>)
        requires
            old(self).well_formed(),
        ensures
            final(self).well_formed(),
            final(self)@ == (WorkspaceView {
                files: files::asset_reindexed(
                    old(self)@.files,
                    path::normalized(path@),
                    text::opt_str(res),
                    stat_now,
                ),
                ..old(self)@
            }),
    {
        self.files.reindex_asset(normalize_path(path).as_str(), res, stat_now);
    }

    /// Drop an asset.
    pub fn remove_asset(&mut self, path: &str, res: Option<&str>)
        requires
            old(self).well_formed(),
        ensures
            final(self).well_formed(),
            final(self)@ == (WorkspaceView {
                files: files::asset_removed(
                    old(self)@.files,
                    path::normalized(path@),
                    text::opt_str(res),
                ),
                ..old(self)@
            }),
    {
        self.files.remove_asset(normalize_path(path).as_str(), res);
    }

    /// What the next session may know of the files: the stat of each, but for the open ones. An
    /// open buffer may differ from its file, which is then read from disk at the next start.
    pub fn save_cache_excluding_open(&self, open: &PathSet) -> (r: Vec<(String, FileStat)>)
        ensures
            forall|i: int|
                0 <= i < r@.len() ==> {
                    let path = (#[trigger] r@[i]).0@;
                    &&& self@.files.stats.dom().contains(path)
                    &&& !open@.dom().contains(path)
                    &&& r@[i].1 == self@.files.stats[path]
                },
            forall|path: Seq<char>|
                self@.files.stats.dom().contains(path) && !open@.dom().contains(path)
                    ==> exists|i: int| 0 <= i < r@.len() && (#[trigger] r@[i]).0@ == path,
            forall|i: int, j: int|
                0 <= i < j < r@.len() ==> (#[trigger] r@[i]).0@ != (#[trigger] r@[j]).0@,
    {
        self.files.stats_without(open)
    }
}

impl Workspace {
    /// What the index of this workspace is saved under.
    pub fn cache_key(
        &self,
        cache_format_version: u32,
        server_version: String,
        project_fingerprint: u64,
    ) -> (r: CacheKey)
        ensures
            r == (CacheKey {
                cache_format_version,
                server_version,
                native_db_content_hash: self@.native.content_hash,
                project_fingerprint,
                dialect: self@.dialect,
            }),
    {
        CacheKey {
            cache_format_version,
            server_version,
            native_db_content_hash: self.native.content_hash,
            project_fingerprint,
            dialect: self.dialect,
        }
    }

    /// The resource that a uid stands for.
    pub fn resource_of_uid(&self, uid: &str) -> (r: Option<&str>)
        ensures
            text::opt_str(r) == (if self@.uids.dom().contains(uid@) {
                Some(self@.uids[uid@])
            } else {
                None
            }),
    {
        match self.uids.get(uid) {
            Some(res) => Some(res.as_str()),
            None => None,
        }
    }

    /// A `.uid` sidecar was written: `res` is its resource, where that is part of the project, and
    /// `body` what the file holds, where it could be read. A body that is no uid takes the
    /// resource's uid away rather than keep an old one.
    pub fn sync_uid_sidecar(&mut self, res: Option<&str>, body: Option<&str>) -> (r: UidChange)
        requires
            old(self).well_formed(),
        ensures
            final(self).well_formed(),
            sidecar_applied(
                old(self)@,
                text::opt_str(res),
                sidecar_uid(text::opt_str(body)),
                r,
                final(self)@,
            ),
    {
        let mut uid: Option<String> = None;
        if let Some(body) = body {
            let trimmed = trim(body);
            if has_prefix(trimmed.as_str(), "uid://") {
                uid = Some(trimmed);
            }
        }
        self.apply_uid_sidecar(res, uid)
    }

    /// A `.uid` sidecar was deleted: its resource has no uid any more.
    pub fn drop_uid_sidecar(&mut self, res: Option<&str>) -> (r: UidChange)
        requires
            old(self).well_formed(),
        ensures
            final(self).well_formed(),
            sidecar_applied(old(self)@, text::opt_str(res), None, r, final(self)@),
    {
        self.apply_uid_sidecar(res, None)
    }

    /// Give a resource a uid, or none, in place of those it had.
    fn apply_uid_sidecar(&mut self, res: Option<&str>, uid: Option<String>) -> (r: UidChange)
        requires
            old(self).well_formed(),
        ensures
            final(self).well_formed(),
            sidecar_applied(
                old(self)@,
                text::opt_str(res),
                text::opt_string(uid),
                r,
                final(self)@,
            ),
    {
        let res = match res {
            Some(res) => res,
            None => return UidChange { previous: None, current: None },
        };
        let gone = keys_with_value(&self.uids, res);
        let previous = if gone.len() > 0 {
            Some(gone[0].clone())
        } else {
            None
        };
        let ghost before = self.uids@;
        proof {
            assert(gone@.len() > 0 ==> text_map::has_text(gone@, gone@[0]@));
            assert forall|u: Seq<char>| #[trigger]
                text_map::has_text(gone@, u) == uid_of(self@.uids, u, res@) by {
                assert(text_map::texts_set(gone@).contains(u) == text_map::has_text(gone@, u));
            }
            if gone@.len() == 0 {
                assert forall|u: Seq<char>| !uid_of(self@.uids, u, res@) by {
                    assert(!text_map::has_text(gone@, u));
                }
            }
        }
        self.uids.remove_all(&gone);
        proof {
            assert(text_values(self.uids@) =~= uids_after(text_values(before), res@, None));
        }
        let current = uid.clone();
        if let Some(uid) = uid {
            let ghost kept = self.uids@;
            self.uids.insert(uid, res.to_owned());
            proof {
                assert(text_values(self.uids@) =~= text_values(kept).insert(current->0@, res@));
            }
        }
        UidChange { previous, current }
    }
}

impl Workspace {
    /// What the next session may know of the files when none is open.
    pub fn save_cache(&self) -> (r: Vec<(String, FileStat)>)
        ensures
            forall|i: int|
                0 <= i < r@.len() ==> {
                    let path = (#[trigger] r@[i]).0@;
                    &&& self@.files.stats.dom().contains(path)
                    &&& r@[i].1 == self@.files.stats[path]
                },
            forall|path: Seq<char>|
                self@.files.stats.dom().contains(path) ==> exists|i: int|
                    0 <= i < r@.len() && (#[trigger] r@[i]).0@ == path,
            forall|i: int, j: int|
                0 <= i < j < r@.len() ==> (#[trigger] r@[i]).0@ != (#[trigger] r@[j]).0@,
    {
        let nothing_open: PathSet = TextMap::new();
        let r = self.save_cache_excluding_open(&nothing_open);
        proof {
            assert forall|path: Seq<char>| self@.files.stats.dom().contains(path) implies exists|
                i: int,
            |
                0 <= i < r@.len() && (#[trigger] r@[i]).0@ == path by {
                assert(!nothing_open@.dom().contains(path));
            }
        }
        r
    }

    /// Take in a file that a reconciliation came to and had to read.
    pub fn take_in(&mut self, walk: &mut Reconciliation, file: &WalkedFile, probe: &FileProbe)
        requires
            old(self).well_formed(),
            old(walk)@.report.can_take_in(),
        ensures
            final(self).well_formed(),
            final(walk).spec_mode() == old(walk).spec_mode(),
            final(self)@ == (WorkspaceView {
                files: files::taken_in(old(self)@.files, *file, *probe),
                ..old(self)@
            }),
            final(walk)@ == (files::WalkView {
                report: files::counted(old(walk)@.report, old(self)@.files, *file, *probe),
                ..old(walk)@
            }),
    {
        walk.take_in(&mut self.files, file, probe);
    }

    /// End a reconciliation.
    pub fn finish_reconcile(&mut self, walk: Reconciliation, open: &PathSet) -> (r:
        ReconciliationReport)
        requires
            old(self).well_formed(),
            walk@.report.removed == 0,
        ensures
            final(self).well_formed(),
            final(self)@ == (WorkspaceView {
                files: files::settled(old(self)@.files, walk@, open@.dom()),
                ..old(self)@
            }),
            files::authoritative(walk@.report) ==> r == (ReconciliationReport {
                removed: files::gone_scripts(
                    old(self)@.files,
                    walk@.scripts,
                    open@.dom(),
                ).len() as usize,
                ..walk@.report
            }) && files::gone_scripts(old(self)@.files, walk@.scripts, open@.dom()).len()
                <= usize::MAX,
            !files::authoritative(walk@.report) ==> r == walk@.report,
    {
        walk.finish(&mut self.files, open)
    }

    /// Reconcile the files with a walk of the project, and look at each of them.
    pub fn reconcile(&mut self, items: &Vec<(WalkItem, FileProbe)>, open: &PathSet) -> (r:
        ReconciliationReport)
        requires
            old(self).well_formed(),
        ensures
            final(self).well_formed(),
            reconciled(
                old(self)@,
                items@,
                open@.dom(),
                ReconcileMode::FullStat,
                r,
                final(self)@,
            ),
    {
        self.reconcile_with(items, open, ReconcileMode::FullStat)
    }

    /// Reconcile the files with a walk of the project.
    pub fn reconcile_with(
        &mut self,
        items: &Vec<(WalkItem, FileProbe)>,
        open: &PathSet,
        mode: ReconcileMode,
    ) -> (r: ReconciliationReport)
        requires
            old(self).well_formed(),
        ensures
            final(self).well_formed(),
            reconciled(old(self)@, items@, open@.dom(), mode, r, final(self)@),
    {
        files::reconcile(&mut self.files, items, open, mode)
    }
}

/// What a reconciliation does to the workspace and reports. The caches stay as they are.
pub open spec fn reconciled(
    ws: WorkspaceView,
    items: Seq<(WalkItem, FileProbe)>,
    open: Set<Seq<char>>,
    mode: ReconcileMode,
    report: ReconciliationReport,
    after: WorkspaceView,
) -> bool {
    let walked = files::walked_all(ws.files, items, open, mode);
    let gone = files::gone_scripts(walked.0, walked.1.scripts, open);
    &&& after == (WorkspaceView { files: files::settled(walked.0, walked.1, open), ..ws })
    &&& files::authoritative(walked.1.report) ==> report == (ReconciliationReport {
        removed: gone.len() as usize,
        ..walked.1.report
    }) && gone.len() <= usize::MAX
    &&& !files::authoritative(walked.1.report) ==> report == walked.1.report
}

/// What a change of a resource's uid does to the workspace, and what is reported of it. A resource
/// that is not part of the project changes nothing.
pub open spec fn sidecar_applied(
    ws: WorkspaceView,
    res: Option<Seq<char>>,
    uid: Option<Seq<char>>,
    change: UidChange,
    after: WorkspaceView,
) -> bool {
    match res {
        None => after == ws && change.previous is None && change.current is None,
        Some(res) => {
            &&& after == (WorkspaceView { uids: uids_after(ws.uids, res, uid), ..ws })
            &&& text::opt_string(change.current) == uid
            &&& match change.previous {
                Some(previous) => uid_of(ws.uids, previous@, res),
                None => forall|u: Seq<char>| !#[trigger] uid_of(ws.uids, u, res),
            }
        },
    }
}

/// The resource that a sidecar file speaks of: its path without `.uid`.
pub fn sidecar_resource(sidecar: &str) -> (r: Option<String>)
    ensures
        text::opt_string(r) == text::without_suffix(sidecar@, ".uid"@),
{
    text::strip_suffix(sidecar, ".uid")
}

/// The scenes to read anew after a uid change, from those that name the earlier uid and those that
/// name the present one: each once, in order.
pub fn uid_scene_targets(previous: &Vec<String>, current: &Vec<String>) -> (r: Vec<String>)
    ensures
        text_order::strictly_sorted(r@),
        text_map::texts_set(r@) == text_map::texts_set(previous@).union(
            text_map::texts_set(current@),
        ),
{
    sorted_union(previous, current)
}

/// The keys under which a map holds a text.
fn keys_with_value(map: &TextMap<String>, value: &str) -> (r: Vec<String>)
    ensures
        text_map::texts_set(r@) == Set::new(
            |u: Seq<char>| uid_of(text_values(map@), u, value@),
        ),
{
    let keys = map.keys();
    let mut r: Vec<String> = Vec::new();
    let mut i: usize = 0;
    proof {
        assert(text_map::texts_set(r@) =~= Set::new(
            |u: Seq<char>|
                text_map::has_text(keys@.take(0), u) && uid_of(text_values(map@), u, value@),
        ));
    }
    while i < keys.len()
        invariant
            0 <= i <= keys@.len(),
            map@.dom() == text_map::texts_set(keys@),
            text_map::texts_set(r@) == Set::new(
                |u: Seq<char>|
                    text_map::has_text(keys@.take(i as int), u) && uid_of(
                        text_values(map@),
                        u,
                        value@,
                    ),
            ),
        decreases keys@.len() - i,
    {
        let ghost earlier = r@;
        let ghost done = keys@.take(i as int);
        proof {
            assert(text_map::has_text(keys@, keys@[i as int]@));
            assert(map@.dom().contains(keys@[i as int]@));
            text_map::lemma_texts_set_push(done, keys@[i as int]);
            assert(done.push(keys@[i as int]) =~= keys@.take(i as int + 1));
            assert forall|u: Seq<char>| #[trigger]
                text_map::has_text(keys@.take(i as int + 1), u) == (text_map::has_text(done, u) || u
                == keys@[i as int]@) by {
                assert(text_map::texts_set(done.push(keys@[i as int])).contains(u)
                    == text_map::texts_set(done).insert(keys@[i as int]@).contains(u));
            }
        }
        if let Some(held) = map.get(keys[i].as_str()) {
            if same_text(held.as_str(), value) {
                proof {
                    text_map::lemma_texts_set_push(r@, keys@[i as int]);
                }
                r.push(keys[i].clone());
            }
        }
        proof {
            assert(text_map::texts_set(r@) =~= Set::new(
                |u: Seq<char>|
                    text_map::has_text(keys@.take(i as int + 1), u) && uid_of(
                        text_values(map@),
                        u,
                        value@,
                    ),
            ));
        }
        i = i + 1;
    }
    proof {
        assert(keys@.take(i as int) =~= keys@);
        assert(text_map::texts_set(r@) =~= Set::new(
            |u: Seq<char>| uid_of(text_values(map@), u, value@),
        )) by {
            assert forall|u: Seq<char>| uid_of(text_values(map@), u, value@) implies
                text_map::has_text(keys@, u) by {
                assert(map@.dom().contains(u));
                assert(text_map::texts_set(keys@).contains(u));
            }
        }
    }
    r
}

/// Drop the `count` least recently used entries of a cache.
fn drop_least_recent(cache: &mut LruCache<String, CacheEntry>, count: usize)
    requires
        count <= lru_cache::cache_entries(*old(cache)).len(),
    ensures
        lru_cache::cache_entries(*final(cache)) == lru_cache::cache_entries(*old(cache)).take(
            lru_cache::cache_entries(*old(cache)).len() - count,
        ),
        lru_cache::cache_capacity(*final(cache)) == lru_cache::cache_capacity(*old(cache)),
{
    let ghost start = lru_cache::cache_entries(*cache);
    let ghost capacity = lru_cache::cache_capacity(*cache);
    let mut i: usize = 0;
    proof {
        assert(start.take(start.len() as int) =~= start);
    }
    while i < count
        invariant
            0 <= i <= count <= start.len(),
            lru_cache::cache_entries(*cache) == start.take(start.len() - i),
            lru_cache::cache_capacity(*cache) == capacity,
        decreases count - i,
    {
        let _ = cache_pop_lru(cache);
        proof {
            assert(start.take(start.len() - i).drop_last() =~= start.take(start.len() - i - 1));
        }
        i = i + 1;
    }
}

// ---------------------------------------------------------------------------
// Laws.
// ---------------------------------------------------------------------------

/// A parse that was kept is found again, under the fingerprint of its text only.
pub proof fn lemma_parse_found_again(
    entries: Entries,
    capacity: nat,
    key: Seq<char>,
    hash: u64,
    value: u64,
    asked: u64,
)
    requires
        lru_cache::well_kept(entries, capacity),
    ensures
        parse_hit(
            lru_cache::stored(entries, capacity, key, CacheEntry { hash, epoch: 0, value }),
            key,
            asked,
        ) == (if asked == hash {
            Some(value)
        } else {
            None
        }),
{
    lru_cache::lemma_stored(entries, capacity, key, CacheEntry { hash, epoch: 0, value });
}

/// A complete analysis leaves a valid entry at the current epoch: until the text or the epoch
/// changes, it is served again whatever the analyzer would say.
pub proof fn lemma_complete_analysis_is_served_again(
    entries: Entries,
    capacity: nat,
    key: Seq<char>,
    hash: u64,
    epoch: u64,
    result: Analysis,
    later: Analysis,
)
    requires
        lru_cache::well_kept(entries, capacity),
        !result.bailed,
    ensures
        ({
            let first = analysis_step(entries, capacity, key, hash, epoch, result);
            let second = analysis_step(first.1, capacity, key, hash, epoch, later);
            &&& !first.0.bailed
            &&& analysis_hit(first.1, key, hash, epoch) == Some(first.0.value)
            &&& second.0 == first.0
        }),
{
    let seen = lru_cache::touched(entries, key);
    lru_cache::lemma_touched(entries, capacity, key);
    lru_cache::lemma_stored(seen, capacity, key, CacheEntry { hash, epoch, value: result.value });
    assert(lru_cache::lookup(seen, key) == lru_cache::lookup(entries, key));
}

/// On one machine a text that was analyzed in full is served its analysis again, whatever the
/// analyzer would say, until the text or the epoch changes.
pub proof fn lemma_same_text_is_served_again(
    entries: Entries,
    capacity: nat,
    key: Seq<char>,
    text: Seq<char>,
    machine: nat,
    hash: u64,
    again: u64,
    epoch: u64,
    result: Analysis,
    later: Analysis,
)
    requires
        lru_cache::well_kept(entries, capacity),
        hash == text_hash(text, machine),
        again == text_hash(text, machine),
        !result.bailed,
    ensures
        ({
            let first = analysis_step(entries, capacity, key, hash, epoch, result);
            let second = analysis_step(first.1, capacity, key, again, epoch, later);
            second.0 == first.0
        }),
{
    lemma_complete_analysis_is_served_again(entries, capacity, key, hash, epoch, result, later);
}

/// On one machine a text that was applied last is a duplicate when it is delivered once more.
pub proof fn lemma_same_text_is_a_duplicate(
    ws: WorkspaceView,
    path: Seq<char>,
    text: Seq<char>,
    machine: nat,
)
    requires
        lru_cache::well_kept(ws.applied, DISK_APPLY_CAPACITY as nat),
    ensures
        parse_hit(
            disk_applied(ws, path, text_hash(text, machine)).applied,
            path,
            text_hash(text, machine),
        ) is Some,
{
    let hash = text_hash(text, machine);
    lemma_duplicate_is_last_applied(ws, path, hash, hash);
}

/// A partial analysis is never cached: every key has the entry it had.
pub proof fn lemma_partial_analysis_is_not_cached(
    entries: Entries,
    capacity: nat,
    key: Seq<char>,
    hash: u64,
    epoch: u64,
    result: Analysis,
    other: Seq<char>,
)
    requires
        lru_cache::well_kept(entries, capacity),
        result.bailed,
    ensures
        lru_cache::lookup(analysis_step(entries, capacity, key, hash, epoch, result).1, other)
            == lru_cache::lookup(entries, other),
{
    let seen = lru_cache::touched(entries, key);
    lru_cache::lemma_touched(entries, capacity, key);
    lru_cache::lemma_touched(seen, capacity, key);
    assert(lru_cache::lookup(seen, other) == lru_cache::lookup(entries, other));
}

/// A partial analysis is served only where no complete analysis of the same text is cached.
pub proof fn lemma_partial_analysis_is_last_resort(
    entries: Entries,
    capacity: nat,
    key: Seq<char>,
    hash: u64,
    epoch: u64,
    result: Analysis,
)
    requires
        lru_cache::well_kept(entries, capacity),
        parse_hit(entries, key, hash) is Some,
    ensures
        !analysis_step(entries, capacity, key, hash, epoch, result).0.bailed,
        result.bailed ==> analysis_step(entries, capacity, key, hash, epoch, result).0.value
            == parse_hit(entries, key, hash)->0,
{
    lru_cache::lemma_touched(entries, capacity, key);
    assert(lru_cache::lookup(lru_cache::touched(entries, key), key) == lru_cache::lookup(
        entries,
        key,
    ));
}

/// An analysis is not valid at another epoch than the one it was made at.
pub proof fn lemma_new_epoch_invalidates(
    entries: Entries,
    capacity: nat,
    key: Seq<char>,
    hash: u64,
    epoch: u64,
    value: u64,
    now: u64,
)
    requires
        lru_cache::well_kept(entries, capacity),
        now != epoch,
    ensures
        analysis_hit(
            lru_cache::stored(entries, capacity, key, CacheEntry { hash, epoch, value }),
            key,
            hash,
            now,
        ) is None,
{
    lru_cache::lemma_stored(entries, capacity, key, CacheEntry { hash, epoch, value });
}

/// After a read was applied, a text with its fingerprint is a duplicate and any other is not: of an
/// edit and its undoing, both are applied.
pub proof fn lemma_duplicate_is_last_applied(
    ws: WorkspaceView,
    path: Seq<char>,
    hash: u64,
    asked: u64,
)
    requires
        lru_cache::well_kept(ws.applied, DISK_APPLY_CAPACITY as nat),
    ensures
        parse_hit(disk_applied(ws, path, hash).applied, path, asked) is Some <==> asked == hash,
{
    lru_cache::lemma_stored(
        ws.applied,
        DISK_APPLY_CAPACITY as nat,
        path,
        CacheEntry { hash, epoch: 0, value: 0 },
    );
}

/// A file that was removed and comes back is never taken for a duplicate.
pub proof fn lemma_removed_is_no_duplicate(applied: Entries, path: Seq<char>, hash: u64)
    requires
        lru_cache::well_kept(applied, DISK_APPLY_CAPACITY as nat),
    ensures
        parse_hit(lru_cache::without(applied, path), path, hash) is None,
{
    lru_cache::lemma_without(applied, DISK_APPLY_CAPACITY as nat, path);
}

/// After a sidecar change a resource answers to no uid but its new one, and no other uid changed
/// what it stands for.
pub proof fn lemma_uid_follows_sidecar(
    uids: Map<Seq<char>, Seq<char>>,
    res: Seq<char>,
    uid: Option<Seq<char>>,
    asked: Seq<char>,
)
    ensures
        uid_of(uids_after(uids, res, uid), asked, res) <==> uid == Some(asked),
        forall|other: Seq<char>|
            other != res && uid != Some(asked) ==> (#[trigger] uid_of(
                uids_after(uids, res, uid),
                asked,
                other,
            ) <==> uid_of(uids, asked, other)),
{
}

/// A cached result is served for a text exactly where an entry of the key was made from it: the
/// fingerprint counts, and of an analysis the epoch too.
pub proof fn lemma_when_a_result_is_served(
    entries: Entries,
    capacity: nat,
    key: Seq<char>,
    hash: u64,
    epoch: u64,
    value: u64,
)
    requires
        lru_cache::well_kept(entries, capacity),
    ensures
        parse_hit(entries, key, hash) == Some(value) <==> exists|i: int|
            0 <= i < entries.len() && (#[trigger] entries[i]).0 == key && entries[i].1.hash == hash
                && entries[i].1.value == value,
        analysis_hit(entries, key, hash, epoch) == Some(value) <==> exists|i: int|
            0 <= i < entries.len() && (#[trigger] entries[i]).0 == key && entries[i].1.hash == hash
                && entries[i].1.epoch == epoch && entries[i].1.value == value,
{
    lru_cache::lemma_position(entries, key);
    let at = lru_cache::position(entries, key);
    assert forall|i: int| 0 <= i < entries.len() && (#[trigger] entries[i]).0 == key implies i
        == at by {
        lru_cache::lemma_position_unique(entries, capacity, key, i);
    }
}

/// An analysis runs within its own limits where it has them, and else within those of the session.
pub proof fn lemma_limits(ws: WorkspaceView, limits: AnalyzerLimits)
    ensures
        ({
            let within = limits_within(ws, limits);
            &&& limits.iter_limit is Some ==> within.iter_limit == limits.iter_limit
            &&& limits.iter_limit is None ==> within.iter_limit == ws.iter_limit
            &&& limits.checkpoint_delay_us is Some ==> within.checkpoint_delay_us
                == limits.checkpoint_delay_us
            &&& limits.checkpoint_delay_us is None ==> within.checkpoint_delay_us
                == ws.checkpoint_delay_us
        }),
{
}

/// What an analysis is served as: a valid cached one before anything new; else a complete new one,
/// which is cached for its text and its epoch; else a complete one of the same text from an earlier
/// epoch; and a partial one only where there is nothing better.
pub proof fn lemma_what_an_analysis_is_served_as(
    entries: Entries,
    capacity: nat,
    key: Seq<char>,
    hash: u64,
    epoch: u64,
    result: Analysis,
)
    requires
        lru_cache::well_kept(entries, capacity),
    ensures
        ({
            let (served, after) = analysis_step(entries, capacity, key, hash, epoch, result);
            let valid = analysis_hit(entries, key, hash, epoch);
            let earlier = parse_hit(entries, key, hash);
            &&& valid is Some ==> !served.bailed && served.value == valid->0
            &&& valid is None && !result.bailed ==> served == result && analysis_hit(
                after,
                key,
                hash,
                epoch,
            ) == Some(result.value)
            &&& valid is None && result.bailed && earlier is Some ==> !served.bailed
                && served.value == earlier->0
            &&& valid is None && result.bailed && earlier is None ==> served == result
            &&& lru_cache::well_kept(after, capacity)
        }),
{
    let seen = lru_cache::touched(entries, key);
    lru_cache::lemma_touched(entries, capacity, key);
    lru_cache::lemma_touched(seen, capacity, key);
    lru_cache::lemma_stored(
        seen,
        capacity,
        key,
        CacheEntry { hash, epoch, value: result.value },
    );
    assert(lru_cache::lookup(seen, key) == lru_cache::lookup(entries, key));
}

/// A new analysis that is handed over is served and kept as the analyzer's own is.
pub proof fn lemma_new_analysis_is_taken(
    entries: Entries,
    capacity: nat,
    key: Seq<char>,
    hash: u64,
    epoch: u64,
    result: Analysis,
)
    requires
        lru_cache::well_kept(entries, capacity),
    ensures
        ({
            let (served, after) = analysis_taken(entries, capacity, key, hash, epoch, result);
            &&& !result.bailed ==> served == result && analysis_hit(after, key, hash, epoch)
                == Some(result.value)
            &&& result.bailed ==> forall|other: Seq<char>| #[trigger]
                lru_cache::lookup(after, other) == lru_cache::lookup(entries, other)
        }),
{
    lru_cache::lemma_touched(entries, capacity, key);
    lru_cache::lemma_stored(
        entries,
        capacity,
        key,
        CacheEntry { hash, epoch, value: result.value },
    );
}

/// Invalidating everything drops every analysis and tells earlier reports apart from later ones; the
/// parses, which depend on nothing but their texts, stay, and so does all that is known of files.
pub proof fn lemma_what_invalidation_drops(ws: WorkspaceView)
    requires
        ws.generation < u64::MAX,
    ensures
        invalidated(ws).analyses.len() == 0,
        invalidated(ws).generation == ws.generation + 1,
        invalidated(ws).parses == ws.parses,
        invalidated(ws).applied == ws.applied,
        invalidated(ws).files == ws.files,
        invalidated(ws).native == ws.native,
        invalidated(ws).uids == ws.uids,
        invalidated(ws).dialect == ws.dialect && invalidated(ws).origin == ws.origin,
        invalidated(ws).capacity == ws.capacity && invalidated(ws).notice == ws.notice,
{
}

/// A native surface that takes the place of the live one is the one in use from then on, and no
/// analysis of before is; one that does not changes nothing.
pub proof fn lemma_adopted_surface_is_in_use(
    ws: WorkspaceView,
    new: NativeSurface,
    dedupe_by_hash: bool,
)
    requires
        ws.generation < u64::MAX,
    ensures
        ({
            let after = adopted(ws, new, dedupe_by_hash);
            &&& native::adopts(ws.native, new, dedupe_by_hash) ==> after.native == new
                && after.analyses.len() == 0 && after.generation == ws.generation + 1
                && after.files == ws.files
            &&& !native::adopts(ws.native, new, dedupe_by_hash) ==> after == ws
        }),
{
}

/// A sidecar gives a uid exactly where its text, without white space around it, is one.
pub proof fn lemma_uid_of_a_sidecar(body: Option<Seq<char>>)
    ensures
        body is None ==> sidecar_uid(body) is None,
        body matches Some(body) ==> {
            let written = text::trimmed(body);
            &&& "uid://"@.is_prefix_of(written) ==> sidecar_uid(Some(body)) == Some(written)
            &&& !"uid://"@.is_prefix_of(written) ==> sidecar_uid(Some(body)) is None
        },
{
}

/// A change of a sidecar is reported with the uid that the resource had and the one it has, and
/// nothing but the uids changes.
pub proof fn lemma_what_a_sidecar_changes(
    ws: WorkspaceView,
    res: Option<Seq<char>>,
    uid: Option<Seq<char>>,
    change: UidChange,
    after: WorkspaceView,
)
    requires
        sidecar_applied(ws, res, uid, change, after),
    ensures
        res is None ==> after == ws && change.previous is None && change.current is None,
        res matches Some(res) ==> {
            &&& uid matches Some(uid) ==> after.uids.dom().contains(uid) && after.uids[uid] == res
                && (change.current matches Some(current) && current@ == uid)
            &&& uid is None ==> change.current is None
            &&& change.previous matches Some(previous) ==> ws.uids.dom().contains(previous@)
                && ws.uids[previous@] == res
            &&& after.files == ws.files && after.parses == ws.parses && after.analyses
                == ws.analyses && after.generation == ws.generation
        },
{
}

/// After a read was applied the file is known by its fingerprint, and what is known of other files
/// stays as long as there is room.
pub proof fn lemma_applied_read_is_remembered(
    ws: WorkspaceView,
    path: Seq<char>,
    hash: u64,
    other: Seq<char>,
    asked: u64,
)
    requires
        lru_cache::well_kept(ws.applied, DISK_APPLY_CAPACITY as nat),
        ws.applied.len() < 4096,
        other != path,
    ensures
        parse_hit(disk_applied(ws, path, hash).applied, path, hash) is Some,
        parse_hit(disk_applied(ws, path, hash).applied, other, asked) == parse_hit(
            ws.applied,
            other,
            asked,
        ),
        disk_applied(ws, path, hash).files == ws.files,
{
    lru_cache::lemma_stored(
        ws.applied,
        DISK_APPLY_CAPACITY as nat,
        path,
        CacheEntry { hash, epoch: 0, value: 0 },
    );
    assert(lru_cache::lookup(disk_applied(ws, path, hash).applied, other) == lru_cache::lookup(
        ws.applied,
        other,
    ));
}

/// A look at the cache finds an analysis of the asked epoch and no other.
pub proof fn lemma_what_a_look_finds(
    entries: Entries,
    key: Seq<char>,
    epoch: u64,
    entry: lru_cache::CacheEntry,
)
    ensures
        lru_cache::lookup(entries, key) is None ==> peeked(entries, key, epoch) is None,
        lru_cache::lookup(entries, key) == Some(entry) && entry.epoch == epoch ==> peeked(
            entries,
            key,
            epoch,
        ) == Some(entry.value),
        lru_cache::lookup(entries, key) == Some(entry) && entry.epoch != epoch ==> peeked(
            entries,
            key,
            epoch,
        ) is None,
{
}

/// A project file that could not be read changes nothing. One of another release is taken over for
/// the load that follows. One of the same release leaves no analysis of before, and brings the
/// surface that was loaded for it, unless that is worse than the live one.
pub proof fn lemma_what_a_project_file_changes(
    ws: WorkspaceView,
    project: ProjectReload,
    loaded: LoadedNative,
)
    requires
        ws.generation < u64::MAX - 1,
    ensures
        ({
            let after = reloaded(ws, project, loaded);
            &&& project.preserve_prior ==> after == ws
            &&& !project.preserve_prior ==> after.dialect == project.dialect && after.origin
                == project.origin && after.files == ws.files && after.parses == ws.parses
            &&& !project.preserve_prior && project.dialect == ws.dialect ==> {
                &&& after.analyses.len() == 0
                &&& after.generation > ws.generation
                &&& after.notice == text::opt_string(loaded.release_notice)
                &&& native::adopts(ws.native, loaded.surface, false) ==> after.native
                    == loaded.surface
                &&& !native::adopts(ws.native, loaded.surface, false) ==> after.native
                    == ws.native
            }
            &&& !project.preserve_prior && project.dialect != ws.dialect ==> after.native
                == ws.native && after.analyses == ws.analyses && after.generation == ws.generation
        }),
{
}

/// What is said of texts in a map is said of each of them.
pub proof fn lemma_texts_of_a_map(map: Map<Seq<char>, String>, key: Seq<char>)
    ensures
        text_values(map).dom() == map.dom(),
        map.dom().contains(key) ==> text_values(map)[key] == map[key]@,
{
    assert(text_values(map).dom() =~= map.dom());
}

/// A resource has the uid that its sidecar gives and no other; the uids of other resources stay,
/// unless that uid was theirs.
pub proof fn lemma_one_uid_per_resource(
    ws: WorkspaceView,
    res: Seq<char>,
    uid: Option<Seq<char>>,
    change: UidChange,
    after: WorkspaceView,
    other: Seq<char>,
)
    requires
        sidecar_applied(ws, Some(res), uid, change, after),
    ensures
        after.uids.dom().contains(other) && after.uids[other] == res ==> uid == Some(other),
        ws.uids.dom().contains(other) && ws.uids[other] != res && uid != Some(other)
            ==> after.uids.dom().contains(other) && after.uids[other] == ws.uids[other],
        !ws.uids.dom().contains(other) && uid != Some(other) ==> !after.uids.dom().contains(other),
        (exists|u: Seq<char>| #[trigger] ws.uids.dom().contains(u) && ws.uids[u] == res)
            ==> change.previous is Some,
{
    if exists|u: Seq<char>| #[trigger] ws.uids.dom().contains(u) && ws.uids[u] == res {
        let u = choose|u: Seq<char>| #[trigger] ws.uids.dom().contains(u) && ws.uids[u] == res;
        assert(uid_of(ws.uids, u, res));
    }
}

} // verus!
