//! How the files of a project are known when a session starts: from a full index, or from what an
//! earlier session kept, brought up to date by a walk of the tree.

use vstd::prelude::*;

use crate::files;
use crate::files::{
    is_stat_changed, FileKind, FileProbe, FileRead, FileStat, PathSet, ProjectFiles, WalkItem,
    WalkedFile,
};
use crate::path;
use crate::path::normalize_path;
use crate::text;
use crate::text_map::TextMap;

verus! {

// ---------------------------------------------------------------------------
// A full index.
// ---------------------------------------------------------------------------

/// A script that was indexed, with its stat, where it has one.
pub struct IndexedScript {
    pub path: String,
    pub interface: u64,
    pub stat: Option<FileStat>,
}

/// A scene that was indexed: its resource path, the file it stands for, the number of what was read
/// of it, and its stat.
pub struct IndexedScene {
    pub res: String,
    pub path: Option<String>,
    pub parse: u64,
    pub stat: Option<FileStat>,
}

/// An asset that was indexed: its resource path, the file it stands for, and its stat.
pub struct IndexedResource {
    pub res: String,
    pub path: Option<String>,
    pub stat: Option<FileStat>,
}

/// The stats with one more, where it is known.
pub open spec fn and_stat(
    stats: Map<Seq<char>, FileStat>,
    path: Option<Seq<char>>,
    stat: Option<FileStat>,
) -> Map<Seq<char>, FileStat> {
    if path is Some && stat is Some {
        stats.insert(path->0, stat->0)
    } else {
        stats
    }
}

/// The normalized path of the file that a resource stands for.
pub open spec fn file_of(path: Option<String>) -> Option<Seq<char>> {
    path::normalized_opt(text::opt_string(path))
}

/// The files with indexed scripts, by their normalized paths.
pub open spec fn and_scripts(
    known: files::FilesView,
    scripts: Seq<IndexedScript>,
) -> files::FilesView
    decreases scripts.len(),
{
    if scripts.len() == 0 {
        known
    } else {
        let before = and_scripts(known, scripts.drop_last());
        let last = scripts.last();
        files::FilesView {
            index: before.index.insert(path::normalized(last.path@), last.interface),
            stats: and_stat(before.stats, Some(path::normalized(last.path@)), last.stat),
            ..before
        }
    }
}

/// The files with indexed scenes.
pub open spec fn and_scenes(
    known: files::FilesView,
    scenes: Seq<IndexedScene>,
) -> files::FilesView
    decreases scenes.len(),
{
    if scenes.len() == 0 {
        known
    } else {
        let before = and_scenes(known, scenes.drop_last());
        let last = scenes.last();
        files::FilesView {
            scenes: before.scenes.insert(
                last.res@,
                files::SceneView { path: file_of(last.path), parse: last.parse },
            ),
            stats: and_stat(before.stats, file_of(last.path), last.stat),
            ..before
        }
    }
}

/// The files with indexed assets.
pub open spec fn and_assets(
    known: files::FilesView,
    assets: Seq<IndexedResource>,
) -> files::FilesView
    decreases assets.len(),
{
    if assets.len() == 0 {
        known
    } else {
        let before = and_assets(known, assets.drop_last());
        let last = assets.last();
        files::FilesView {
            assets: before.assets.insert(last.res@, file_of(last.path)),
            stats: and_stat(before.stats, file_of(last.path), last.stat),
            ..before
        }
    }
}

fn opt_as_str(s: &Option<String>) -> (r: Option<&str>)
    ensures
        text::opt_str(r) == text::opt_string(*s),
{
    match s {
        Some(s) => Some(s.as_str()),
        None => None,
    }
}

fn normalize_opt(path: &Option<String>) -> (r: Option<String>)
    ensures
        text::opt_string(r) == file_of(*path),
{
    match path {
        Some(path) => Some(normalize_path(path.as_str())),
        None => None,
    }
}

/// Take over the scripts of an index, and what is known of them on disk.
pub fn add_scripts(known: &mut ProjectFiles, scripts: &Vec<IndexedScript>)
    ensures
        final(known)@ == and_scripts(old(known)@, scripts@),
{
    let ghost start = known@;
    let mut i: usize = 0;
    proof {
        assert(scripts@.take(0) =~= Seq::<IndexedScript>::empty());
    }
    while i < scripts.len()
        invariant
            0 <= i <= scripts@.len(),
            known@ == and_scripts(start, scripts@.take(i as int)),
        decreases scripts@.len() - i,
    {
        proof {
            assert(scripts@.take(i as int + 1).drop_last() =~= scripts@.take(i as int));
            assert(scripts@.take(i as int + 1).last() == scripts@[i as int]);
        }
        let path = normalize_path(scripts[i].path.as_str());
        known.set_script(path.as_str(), scripts[i].interface);
        if scripts[i].stat.is_some() {
            known.update_stat(path.as_str(), scripts[i].stat);
        }
        i = i + 1;
    }
    proof {
        assert(scripts@.take(i as int) =~= scripts@);
    }
}

/// Take over the scenes of an index, and what is known of them on disk.
pub fn add_scenes(known: &mut ProjectFiles, scenes: &Vec<IndexedScene>)
    ensures
        final(known)@ == and_scenes(old(known)@, scenes@),
{
    let ghost start = known@;
    let mut i: usize = 0;
    proof {
        assert(scenes@.take(0) =~= Seq::<IndexedScene>::empty());
    }
    while i < scenes.len()
        invariant
            0 <= i <= scenes@.len(),
            known@ == and_scenes(start, scenes@.take(i as int)),
        decreases scenes@.len() - i,
    {
        proof {
            assert(scenes@.take(i as int + 1).drop_last() =~= scenes@.take(i as int));
            assert(scenes@.take(i as int + 1).last() == scenes@[i as int]);
        }
        let path = normalize_opt(&scenes[i].path);
        known.set_scene(scenes[i].res.as_str(), opt_as_str(&path), scenes[i].parse);
        if let Some(path) = &path {
            if scenes[i].stat.is_some() {
                known.update_stat(path.as_str(), scenes[i].stat);
            }
        }
        i = i + 1;
    }
    proof {
        assert(scenes@.take(i as int) =~= scenes@);
    }
}

/// Take over the assets of an index, and what is known of them on disk.
pub fn add_assets(known: &mut ProjectFiles, assets: &Vec<IndexedResource>)
    ensures
        final(known)@ == and_assets(old(known)@, assets@),
{
    let ghost start = known@;
    let mut i: usize = 0;
    proof {
        assert(assets@.take(0) =~= Seq::<IndexedResource>::empty());
    }
    while i < assets.len()
        invariant
            0 <= i <= assets@.len(),
            known@ == and_assets(start, assets@.take(i as int)),
        decreases assets@.len() - i,
    {
        proof {
            assert(assets@.take(i as int + 1).drop_last() =~= assets@.take(i as int));
            assert(assets@.take(i as int + 1).last() == assets@[i as int]);
        }
        let path = normalize_opt(&assets[i].path);
        known.set_asset(assets[i].res.as_str(), opt_as_str(&path));
        if let Some(path) = &path {
            if assets[i].stat.is_some() {
                known.update_stat(path.as_str(), assets[i].stat);
            }
        }
        i = i + 1;
    }
    proof {
        assert(assets@.take(i as int) =~= assets@);
    }
}

/// The files of a project that was indexed in full.
pub open spec fn cold_files(
    scripts: Seq<IndexedScript>,
    scenes: Seq<IndexedScene>,
    assets: Seq<IndexedResource>,
) -> files::FilesView {
    let none = files::FilesView {
        index: Map::empty(),
        scenes: Map::empty(),
        assets: Map::empty(),
        stats: Map::empty(),
    };
    and_assets(and_scenes(and_scripts(none, scripts), scenes), assets)
}

/// The files of a project that was indexed in full. What could not be looked at on disk has no
/// stat, and is read again at the next comparison.
pub fn cold_index(
    scripts: &Vec<IndexedScript>,
    scenes: &Vec<IndexedScene>,
    assets: &Vec<IndexedResource>,
) -> (r: ProjectFiles)
    ensures
        r@ == cold_files(scripts@, scenes@, assets@),
{
    let mut r = ProjectFiles::new();
    add_scripts(&mut r, scripts);
    add_scenes(&mut r, scenes);
    add_assets(&mut r, assets);
    r
}

// ---------------------------------------------------------------------------
// A warm start.
// ---------------------------------------------------------------------------

/// What a warm start found.
#[derive(Debug, Clone, Copy, PartialEq, Eq, Structural)]
pub struct WarmReport {
    pub reparsed: usize,
    pub added: usize,
    pub removed: usize,
    pub walk_errors: usize,
    pub skipped_unreadable: usize,
    pub skipped_non_utf8: usize,
}

/// The report of a walk that has not begun.
pub open spec fn no_report() -> WarmReport {
    WarmReport {
        reparsed: 0,
        added: 0,
        removed: 0,
        walk_errors: 0,
        skipped_unreadable: 0,
        skipped_non_utf8: 0,
    }
}

/// Where a warm start stands: scripts and scenes that the walk came to, assets, and its counts.
#[verifier::ext_equal]
pub struct WarmView {
    pub parsed: Set<Seq<char>>,
    pub assets: Set<Seq<char>>,
    pub report: WarmReport,
}

/// The start of a warm start.
pub open spec fn warm_start() -> WarmView {
    WarmView { parsed: Set::empty(), assets: Set::empty(), report: no_report() }
}

/// The walk after an item was seen.
pub open spec fn visited(walk: WarmView, item: WalkItem) -> WarmView {
    match item {
        WalkItem::Error => WarmView {
            report: WarmReport {
                walk_errors: (walk.report.walk_errors + 1) as usize,
                ..walk.report
            },
            ..walk
        },
        WalkItem::NotFile => walk,
        WalkItem::NotUtf8 => WarmView {
            report: WarmReport {
                skipped_non_utf8: (walk.report.skipped_non_utf8 + 1) as usize,
                ..walk.report
            },
            ..walk
        },
        WalkItem::File(file) => if file.kind == FileKind::Asset {
            WarmView { assets: walk.assets.insert(file.path@), ..walk }
        } else {
            WarmView { parsed: walk.parsed.insert(file.path@), ..walk }
        },
    }
}

/// Whether the file of an item has to be taken in: it is new, or changed since it was kept.
pub open spec fn due(known: files::FilesView, item: WalkItem) -> bool {
    item matches WalkItem::File(file) && files::stat_changed(known.stats, file.path@, file.stat)
}

/// The files after a file was taken in.
pub open spec fn taken_in(
    known: files::FilesView,
    file: WalkedFile,
    probe: FileProbe,
) -> files::FilesView {
    let stats = files::with_stat(known.stats, file.path@, file.stat);
    match file.kind {
        FileKind::Asset => files::FilesView {
            assets: match probe.res {
                Some(res) => known.assets.insert(res@, Some(file.path@)),
                None => known.assets,
            },
            stats,
            ..known
        },
        FileKind::Scene => match probe.read {
            FileRead::Text(parse) => files::FilesView {
                scenes: match probe.res {
                    Some(res) => known.scenes.insert(
                        res@,
                        files::SceneView { path: Some(file.path@), parse },
                    ),
                    None => known.scenes,
                },
                stats,
                ..known
            },
            _ => known,
        },
        FileKind::Script => match probe.read {
            FileRead::Text(interface) => files::FilesView {
                index: known.index.insert(file.path@, interface),
                stats,
                ..known
            },
            _ => known,
        },
    }
}

/// The counts after a file was taken in.
pub open spec fn counted(
    report: WarmReport,
    known: files::FilesView,
    file: WalkedFile,
    probe: FileProbe,
) -> WarmReport {
    if file.kind == FileKind::Asset {
        report
    } else if probe.read is Text {
        if file.kind == FileKind::Script && !known.index.dom().contains(file.path@) {
            WarmReport { added: (report.added + 1) as usize, ..report }
        } else {
            WarmReport { reparsed: (report.reparsed + 1) as usize, ..report }
        }
    } else {
        WarmReport { skipped_unreadable: (report.skipped_unreadable + 1) as usize, ..report }
    }
}

/// Files and walk after one item.
pub open spec fn stepped(
    known: files::FilesView,
    walk: WarmView,
    item: WalkItem,
    probe: FileProbe,
) -> (files::FilesView, WarmView) {
    let seen = visited(walk, item);
    if due(known, item) {
        let file = item->File_0;
        (
            taken_in(known, file, probe),
            WarmView { report: counted(seen.report, known, file, probe), ..seen },
        )
    } else {
        (known, seen)
    }
}

/// Files and walk after all items of a walk.
pub open spec fn walked_all(
    known: files::FilesView,
    items: Seq<(WalkItem, FileProbe)>,
) -> (files::FilesView, WarmView)
    decreases items.len(),
{
    if items.len() == 0 {
        (known, warm_start())
    } else {
        let before = walked_all(known, items.drop_last());
        stepped(before.0, before.1, items.last().0, items.last().1)
    }
}

/// Whether the walk speaks for the whole tree.
pub open spec fn authoritative(report: WarmReport) -> bool {
    report.walk_errors == 0 && report.skipped_non_utf8 == 0
}

/// The files after the walk: what a complete walk did not come to is dropped.
pub open spec fn settled(known: files::FilesView, walk: WarmView) -> files::FilesView {
    if authoritative(walk.report) {
        files::dropped(known, walk.parsed, walk.parsed, walk.assets, Set::empty())
    } else {
        known
    }
}

/// A warm start in progress.
pub struct WarmWalk {
    parsed: PathSet,
    assets: PathSet,
    report: WarmReport,
}

impl View for WarmWalk {
    type V = WarmView;

    closed spec fn view(&self) -> WarmView {
        WarmView {
            parsed: self.parsed@.dom(),
            assets: self.assets@.dom(),
            report: self.report,
        }
    }
}

impl WarmWalk {
    /// Begin a warm start.
    pub fn start() -> (r: WarmWalk)
        ensures
            r@ == warm_start(),
    {
        let r = WarmWalk {
            parsed: TextMap::new(),
            assets: TextMap::new(),
            report: WarmReport {
                reparsed: 0,
                added: 0,
                removed: 0,
                walk_errors: 0,
                skipped_unreadable: 0,
                skipped_non_utf8: 0,
            },
        };
        proof {
            assert(r@ =~= warm_start());
        }
        r
    }

    /// See one item of the walk. Where its file has to be taken in, the answer is `true`, and
    /// `take_in` is to follow.
    pub fn visit(&mut self, known: &ProjectFiles, item: &WalkItem) -> (r: bool)
        requires
            old(self)@.report.walk_errors < usize::MAX,
            old(self)@.report.skipped_non_utf8 < usize::MAX,
        ensures
            final(self)@ == visited(old(self)@, *item),
            r == due(known@, *item),
    {
        match item {
            WalkItem::Error => {
                self.report.walk_errors = self.report.walk_errors + 1;
                false
            },
            WalkItem::NotFile => false,
            WalkItem::NotUtf8 => {
                self.report.skipped_non_utf8 = self.report.skipped_non_utf8 + 1;
                false
            },
            WalkItem::File(file) => {
                if file.kind == FileKind::Asset {
                    let _ = self.assets.insert(file.path.clone(), ());
                } else {
                    let _ = self.parsed.insert(file.path.clone(), ());
                }
                proof {
                    assert(self@ =~= visited(old(self)@, *item));
                }
                is_stat_changed(known, file.path.as_str(), file.stat)
            },
        }
    }

    /// Take in a file that is new or changed.
    pub fn take_in(&mut self, known: &mut ProjectFiles, file: &WalkedFile, probe: &FileProbe)
        requires
            old(self)@.report.added < usize::MAX,
            old(self)@.report.reparsed < usize::MAX,
            old(self)@.report.skipped_unreadable < usize::MAX,
        ensures
            final(known)@ == taken_in(old(known)@, *file, *probe),
            final(self)@ == (WarmView {
                report: counted(old(self)@.report, old(known)@, *file, *probe),
                ..old(self)@
            }),
    {
        let path: &str = file.path.as_str();
        match file.kind {
            FileKind::Asset => {
                if let Some(res) = &probe.res {
                    known.set_asset(res.as_str(), Some(path));
                }
                known.update_stat(path, file.stat);
            },
            FileKind::Scene => match probe.read {
                FileRead::Text(parse) => {
                    if let Some(res) = &probe.res {
                        known.set_scene(res.as_str(), Some(path), parse);
                    }
                    known.update_stat(path, file.stat);
                    self.report.reparsed = self.report.reparsed + 1;
                },
                _ => {
                    self.report.skipped_unreadable = self.report.skipped_unreadable + 1;
                },
            },
            FileKind::Script => match probe.read {
                FileRead::Text(interface) => {
                    let is_added: bool = known.interface_of(path).is_none();
                    known.set_script(path, interface);
                    known.update_stat(path, file.stat);
                    if is_added {
                        self.report.added = self.report.added + 1;
                    } else {
                        self.report.reparsed = self.report.reparsed + 1;
                    }
                },
                _ => {
                    self.report.skipped_unreadable = self.report.skipped_unreadable + 1;
                },
            },
        }
    }

    /// End the walk: what it did not come to is dropped, unless it was incomplete.
    pub fn finish(self, known: &mut ProjectFiles) -> (r: WarmReport)
        requires
            self@.report.removed == 0,
        ensures
            final(known)@ == settled(old(known)@, self@),
            authoritative(self@.report) ==> r == (WarmReport {
                removed: files::gone_scripts(
                    old(known)@,
                    self@.parsed,
                    Set::empty(),
                ).len() as usize,
                ..self@.report
            }) && files::gone_scripts(old(known)@, self@.parsed, Set::empty()).len() <= usize::MAX,
            !authoritative(self@.report) ==> r == self@.report,
    {
        let mut report: WarmReport = self.report;
        if report.walk_errors > 0 || report.skipped_non_utf8 > 0 {
            return report;
        }
        let none: PathSet = TextMap::new();
        proof {
            assert(none@.dom() =~= Set::<Seq<char>>::empty());
        }
        report.removed = known.drop_unwalked(&self.parsed, &self.parsed, &self.assets, &none);
        report
    }
}

/// Bring what an earlier session kept up to date with a walk of the tree, for which each file that
/// might have to be read was.
pub fn warm_index_from_cache(
    known: &mut ProjectFiles,
    items: &Vec<(WalkItem, FileProbe)>,
) -> (r: WarmReport)
    ensures
        ({
            let after = walked_all(old(known)@, items@);
            &&& final(known)@ == settled(after.0, after.1)
            &&& authoritative(after.1.report) ==> r == (WarmReport {
                removed: files::gone_scripts(after.0, after.1.parsed, Set::empty()).len() as usize,
                ..after.1.report
            }) && files::gone_scripts(after.0, after.1.parsed, Set::empty()).len() <= usize::MAX
            &&& !authoritative(after.1.report) ==> r == after.1.report
        }),
{
    let ghost start = known@;
    let mut walk = WarmWalk::start();
    let mut i: usize = 0;
    proof {
        assert(items@.take(0) =~= Seq::<(WalkItem, FileProbe)>::empty());
    }
    while i < items.len()
        invariant
            0 <= i <= items@.len(),
            (known@, walk@) == walked_all(start, items@.take(i as int)),
            walk@.report.removed == 0,
            walk@.report.added + walk@.report.reparsed + walk@.report.skipped_unreadable <= i,
            walk@.report.walk_errors <= i,
            walk@.report.skipped_non_utf8 <= i,
        decreases items@.len() - i,
    {
        let ghost known_before = known@;
        let ghost walk_before = walk@;
        proof {
            assert(items@.take(i as int + 1).drop_last() =~= items@.take(i as int));
            assert(items@.take(i as int + 1).last() == items@[i as int]);
        }
        let item = &items[i].0;
        let probe = &items[i].1;
        let read: bool = walk.visit(known, item);
        if read {
            if let WalkItem::File(file) = item {
                walk.take_in(known, file, probe);
            }
        }
        proof {
            let next = stepped(
                known_before,
                walk_before,
                items@[i as int].0,
                items@[i as int].1,
            );
            assert(known@ == next.0);
            assert(walk@ =~= next.1);
        }
        i = i + 1;
    }
    proof {
        assert(items@.take(i as int) =~= items@);
    }
    walk.finish(known)
}

// ---------------------------------------------------------------------------
// Laws.
// ---------------------------------------------------------------------------

/// A file that did not change since it was kept is not read again, and what is known of it stays.
pub proof fn lemma_unchanged_not_read(
    known: files::FilesView,
    walk: WarmView,
    file: WalkedFile,
    probe: FileProbe,
)
    requires
        known.stats.dom().contains(file.path@),
        file.stat == Some(known.stats[file.path@]),
    ensures
        stepped(known, walk, WalkItem::File(file), probe).0 == known,
{
}

/// A file that was kept without a stat, as an open buffer is, is read from disk at the next start.
pub proof fn lemma_unknown_stat_is_read(
    known: files::FilesView,
    walk: WarmView,
    file: WalkedFile,
    probe: FileProbe,
)
    requires
        file.kind == FileKind::Script,
        !known.stats.dom().contains(file.path@),
        probe.read is Text,
    ensures
        stepped(known, walk, WalkItem::File(file), probe).0.index.dom().contains(file.path@),
        stepped(known, walk, WalkItem::File(file), probe).0.index[file.path@] == probe.read->Text_0,
{
}

/// A walk that met an error drops nothing of what was kept.
pub proof fn lemma_incomplete_walk_drops_nothing(known: files::FilesView, walk: WarmView)
    requires
        walk.report.walk_errors > 0 || walk.report.skipped_non_utf8 > 0,
    ensures
        settled(known, walk) == known,
{
}

/// What an index lists is known, each under its normalized path and as the last entry of that path
/// says; nothing else is.
pub proof fn lemma_indexed_scripts_are_known(
    known: files::FilesView,
    scripts: Seq<IndexedScript>,
    i: int,
)
    requires
        0 <= i < scripts.len(),
        forall|j: int|
            i < j < scripts.len() ==> path::normalized((#[trigger] scripts[j]).path@)
                != path::normalized(scripts[i].path@),
    ensures
        ({
            let after = and_scripts(known, scripts);
            let at = path::normalized(scripts[i].path@);
            &&& after.index.dom().contains(at)
            &&& after.index[at] == scripts[i].interface
            &&& scripts[i].stat matches Some(stat) ==> after.stats.dom().contains(at)
                && after.stats[at] == stat
            &&& after.scenes == known.scenes && after.assets == known.assets
        }),
    decreases scripts.len(),
{
    let before = scripts.drop_last();
    lemma_scripts_leave_resources(known, scripts);
    if i < before.len() {
        assert forall|j: int| i < j < before.len() implies path::normalized(
            (#[trigger] before[j]).path@,
        ) != path::normalized(before[i].path@) by {
            assert(before[j] == scripts[j]);
        }
        assert(before[i] == scripts[i]);
        lemma_indexed_scripts_are_known(known, before, i);
        assert(path::normalized(scripts[scripts.len() - 1].path@) != path::normalized(
            scripts[i].path@,
        ));
    }
}

proof fn lemma_scripts_leave_resources(known: files::FilesView, scripts: Seq<IndexedScript>)
    ensures
        and_scripts(known, scripts).scenes == known.scenes,
        and_scripts(known, scripts).assets == known.assets,
    decreases scripts.len(),
{
    if scripts.len() > 0 {
        lemma_scripts_leave_resources(known, scripts.drop_last());
    }
}

/// A script that an index does not list is as it was known before.
pub proof fn lemma_unlisted_script_is_as_before(
    known: files::FilesView,
    scripts: Seq<IndexedScript>,
    path: Seq<char>,
)
    requires
        forall|j: int|
            0 <= j < scripts.len() ==> path::normalized((#[trigger] scripts[j]).path@) != path,
    ensures
        and_scripts(known, scripts).index.dom().contains(path) == known.index.dom().contains(path),
        known.index.dom().contains(path) ==> and_scripts(known, scripts).index[path]
            == known.index[path],
    decreases scripts.len(),
{
    if scripts.len() > 0 {
        let before = scripts.drop_last();
        assert forall|j: int| 0 <= j < before.len() implies path::normalized(
            (#[trigger] before[j]).path@,
        ) != path by {
            assert(before[j] == scripts[j]);
        }
        lemma_unlisted_script_is_as_before(known, before, path);
        assert(path::normalized(scripts[scripts.len() - 1].path@) != path);
    }
}

/// A scene that an index lists is known by what was read of it and stands for its file; of several
/// entries of one resource the last counts.
pub proof fn lemma_indexed_scenes_are_known(
    known: files::FilesView,
    scenes: Seq<IndexedScene>,
    i: int,
)
    requires
        0 <= i < scenes.len(),
        forall|j: int| i < j < scenes.len() ==> (#[trigger] scenes[j]).res@ != scenes[i].res@,
    ensures
        ({
            let after = and_scenes(known, scenes);
            &&& after.scenes.dom().contains(scenes[i].res@)
            &&& after.scenes[scenes[i].res@].parse == scenes[i].parse
            &&& scenes[i].path matches Some(path) ==> after.scenes[scenes[i].res@].path == Some(
                path::normalized(path@),
            )
            &&& scenes[i].path is None ==> after.scenes[scenes[i].res@].path is None
            &&& after.index == known.index && after.assets == known.assets
        }),
    decreases scenes.len(),
{
    let before = scenes.drop_last();
    lemma_scenes_leave_the_rest(known, scenes);
    if i < before.len() {
        assert forall|j: int| i < j < before.len() implies (#[trigger] before[j]).res@
            != before[i].res@ by {
            assert(before[j] == scenes[j]);
        }
        assert(before[i] == scenes[i]);
        lemma_indexed_scenes_are_known(known, before, i);
        assert(scenes[scenes.len() - 1].res@ != scenes[i].res@);
    }
}

proof fn lemma_scenes_leave_the_rest(known: files::FilesView, scenes: Seq<IndexedScene>)
    ensures
        and_scenes(known, scenes).index == known.index,
        and_scenes(known, scenes).assets == known.assets,
    decreases scenes.len(),
{
    if scenes.len() > 0 {
        lemma_scenes_leave_the_rest(known, scenes.drop_last());
    }
}

/// An asset that an index lists is known and stands for its file.
pub proof fn lemma_indexed_assets_are_known(
    known: files::FilesView,
    assets: Seq<IndexedResource>,
    i: int,
)
    requires
        0 <= i < assets.len(),
        forall|j: int| i < j < assets.len() ==> (#[trigger] assets[j]).res@ != assets[i].res@,
    ensures
        ({
            let after = and_assets(known, assets);
            &&& after.assets.dom().contains(assets[i].res@)
            &&& assets[i].path matches Some(path) ==> after.assets[assets[i].res@] == Some(
                path::normalized(path@),
            )
            &&& assets[i].path is None ==> after.assets[assets[i].res@] is None
            &&& after.index == known.index && after.scenes == known.scenes
        }),
    decreases assets.len(),
{
    let before = assets.drop_last();
    lemma_assets_leave_the_rest(known, assets);
    if i < before.len() {
        assert forall|j: int| i < j < before.len() implies (#[trigger] before[j]).res@
            != before[i].res@ by {
            assert(before[j] == assets[j]);
        }
        assert(before[i] == assets[i]);
        lemma_indexed_assets_are_known(known, before, i);
        assert(assets[assets.len() - 1].res@ != assets[i].res@);
    }
}

proof fn lemma_assets_leave_the_rest(known: files::FilesView, assets: Seq<IndexedResource>)
    ensures
        and_assets(known, assets).index == known.index,
        and_assets(known, assets).scenes == known.scenes,
    decreases assets.len(),
{
    if assets.len() > 0 {
        lemma_assets_leave_the_rest(known, assets.drop_last());
    }
}

/// A full index knows the scripts, scenes and assets that are listed, and starts from nothing.
pub proof fn lemma_full_index(
    scripts: Seq<IndexedScript>,
    scenes: Seq<IndexedScene>,
    assets: Seq<IndexedResource>,
)
    ensures
        ({
            let none = files::FilesView {
                index: Map::empty(),
                scenes: Map::empty(),
                assets: Map::empty(),
                stats: Map::empty(),
            };
            let all = cold_files(scripts, scenes, assets);
            &&& all.index == and_scripts(none, scripts).index
            &&& all.scenes == and_scenes(none, scenes).scenes
            &&& all.assets == and_assets(none, assets).assets
        }),
{
    let none = files::FilesView {
        index: Map::empty(),
        scenes: Map::empty(),
        assets: Map::empty(),
        stats: Map::empty(),
    };
    let first = and_scripts(none, scripts);
    let second = and_scenes(first, scenes);
    lemma_scripts_leave_resources(none, scripts);
    lemma_scenes_leave_the_rest(first, scenes);
    lemma_assets_leave_the_rest(second, assets);
    lemma_scenes_depend_on_scenes(first, none, scenes);
    lemma_assets_depend_on_assets(second, none, assets);
}

proof fn lemma_scenes_depend_on_scenes(
    a: files::FilesView,
    b: files::FilesView,
    scenes: Seq<IndexedScene>,
)
    requires
        a.scenes == b.scenes,
    ensures
        and_scenes(a, scenes).scenes == and_scenes(b, scenes).scenes,
    decreases scenes.len(),
{
    if scenes.len() > 0 {
        lemma_scenes_depend_on_scenes(a, b, scenes.drop_last());
    }
}

proof fn lemma_assets_depend_on_assets(
    a: files::FilesView,
    b: files::FilesView,
    assets: Seq<IndexedResource>,
)
    requires
        a.assets == b.assets,
    ensures
        and_assets(a, assets).assets == and_assets(b, assets).assets,
    decreases assets.len(),
{
    if assets.len() > 0 {
        lemma_assets_depend_on_assets(a, b, assets.drop_last());
    }
}

/// A warm start reads a file exactly where it is new, or its size or time is another than what was
/// kept, or cannot be told.
pub proof fn lemma_what_a_warm_start_reads(known: files::FilesView, item: WalkItem)
    ensures
        due(known, item) <==> (item matches WalkItem::File(file) && !(known.stats.dom().contains(
            file.path@,
        ) && file.stat == Some(known.stats[file.path@]))),
{
}

/// What a warm start counts and remembers of an item: errors and paths that are not UTF-8, each
/// once; of a file only that the walk came to it.
pub proof fn lemma_what_a_warm_start_counts(walk: WarmView, item: WalkItem)
    requires
        walk.report.walk_errors < usize::MAX,
        walk.report.skipped_non_utf8 < usize::MAX,
    ensures
        ({
            let after = visited(walk, item);
            &&& after.report.walk_errors == walk.report.walk_errors + (if item is Error {
                1int
            } else {
                0int
            })
            &&& after.report.skipped_non_utf8 == walk.report.skipped_non_utf8 + (if item
                is NotUtf8 {
                1int
            } else {
                0int
            })
            &&& !(item is File) ==> after.parsed == walk.parsed && after.assets == walk.assets
            &&& item matches WalkItem::File(file) ==> after.report == walk.report && after.assets
                == (if file.kind is Asset {
                walk.assets.insert(file.path@)
            } else {
                walk.assets
            }) && after.parsed == (if file.kind is Asset {
                walk.parsed
            } else {
                walk.parsed.insert(file.path@)
            })
        }),
{
}

/// What a warm start makes of a file that it read: a script is known by what it declares, a scene by
/// what was read of it, an asset by its path, each with the stat that the walk saw. What cannot be
/// read stays as it was kept, and is counted.
pub proof fn lemma_what_a_warm_start_takes_in(
    known: files::FilesView,
    report: WarmReport,
    file: WalkedFile,
    probe: FileProbe,
)
    requires
        report.added < usize::MAX,
        report.reparsed < usize::MAX,
        report.skipped_unreadable < usize::MAX,
    ensures
        ({
            let after = taken_in(known, file, probe);
            let counts = counted(report, known, file, probe);
            let new = !known.index.dom().contains(file.path@);
            &&& file.kind is Script ==> (probe.read matches FileRead::Text(interface)
                ==> after.index == known.index.insert(file.path@, interface))
            &&& file.kind is Scene ==> (probe.read matches FileRead::Text(parse) ==> (probe.res
                matches Some(res) ==> after.scenes == known.scenes.insert(
                res@,
                files::SceneView { path: Some(file.path@), parse },
            )))
            &&& file.kind is Asset ==> (probe.res matches Some(res) ==> after.assets
                == known.assets.insert(res@, Some(file.path@)))
            &&& file.kind is Asset || probe.read is Text ==> (file.stat matches Some(stat)
                ==> after.stats == known.stats.insert(file.path@, stat))
            &&& !(file.kind is Asset) && !(probe.read is Text) ==> after == known
                && counts.skipped_unreadable == report.skipped_unreadable + 1 && counts.added
                == report.added && counts.reparsed == report.reparsed
            &&& file.kind is Asset ==> counts == report
            &&& file.kind is Script && probe.read is Text && new ==> counts.added == report.added
                + 1 && counts.reparsed == report.reparsed
            &&& (file.kind is Script && !new || file.kind is Scene) && probe.read is Text
                ==> counts.reparsed == report.reparsed + 1 && counts.added == report.added
            &&& !(file.kind is Script) ==> after.index == known.index
            &&& !(file.kind is Scene) ==> after.scenes == known.scenes
            &&& !(file.kind is Asset) ==> after.assets == known.assets
        }),
{
}

/// A warm start takes its items one after the other.
pub proof fn lemma_warm_start_item_by_item(
    known: files::FilesView,
    items: Seq<(WalkItem, FileProbe)>,
    next: (WalkItem, FileProbe),
)
    ensures
        ({
            let before = walked_all(known, items);
            let after = walked_all(known, items.push(next));
            let seen = visited(before.1, next.0);
            &&& due(before.0, next.0) ==> (next.0 matches WalkItem::File(file) && after.0
                == taken_in(before.0, file, next.1) && after.1.report == counted(
                seen.report,
                before.0,
                file,
                next.1,
            ))
            &&& !due(before.0, next.0) ==> after == (before.0, seen)
            &&& after.1.parsed == seen.parsed && after.1.assets == seen.assets
        }),
        walked_all(known, Seq::empty()).0 == known,
        walked_all(known, Seq::empty()).1.parsed == Set::<Seq<char>>::empty(),
        walked_all(known, Seq::empty()).1.assets == Set::<Seq<char>>::empty(),
{
    assert(items.push(next).drop_last() =~= items);
}

/// After a complete warm start a script that was kept stays exactly where it is still on disk, and
/// as it was; so do scenes and assets whose files are.
pub proof fn lemma_what_a_warm_start_leaves(
    known: files::FilesView,
    walk: WarmView,
    name: Seq<char>,
)
    requires
        walk.report.walk_errors == 0,
        walk.report.skipped_non_utf8 == 0,
    ensures
        ({
            let after = settled(known, walk);
            &&& after.index.dom().contains(name) <==> known.index.dom().contains(name)
                && walk.parsed.contains(name)
            &&& after.index.dom().contains(name) ==> after.index[name] == known.index[name]
            &&& after.scenes.dom().contains(name) <==> known.scenes.dom().contains(name) && (
            known.scenes[name].path matches Some(path) && walk.parsed.contains(path))
            &&& after.assets.dom().contains(name) <==> known.assets.dom().contains(name) && (
            known.assets[name] matches Some(path) && walk.assets.contains(path))
        }),
{
}

/// What an index says of the files of scenes and assets is known of them.
pub proof fn lemma_stats_of_an_index(
    stats: Map<Seq<char>, FileStat>,
    path: Seq<char>,
    stat: FileStat,
    other: Option<FileStat>,
)
    ensures
        and_stat(stats, Some(path), Some(stat)) == stats.insert(path, stat),
        and_stat(stats, None, other) == stats,
        and_stat(stats, Some(path), None) == stats,
{
}

/// The file of a scene or an asset that an index lists is known with the stat that stands there, as
/// long as the entry has both; else nothing more is known of files.
pub proof fn lemma_stats_entry_by_entry(
    known: files::FilesView,
    scenes: Seq<IndexedScene>,
    scene: IndexedScene,
    assets: Seq<IndexedResource>,
    asset: IndexedResource,
)
    ensures
        scene.path is Some && scene.stat is Some ==> and_scenes(known, scenes.push(scene)).stats
            == and_scenes(known, scenes).stats.insert(
            path::normalized(scene.path->0@),
            scene.stat->0,
        ),
        scene.path is None || scene.stat is None ==> and_scenes(known, scenes.push(scene)).stats
            == and_scenes(known, scenes).stats,
        asset.path is Some && asset.stat is Some ==> and_assets(known, assets.push(asset)).stats
            == and_assets(known, assets).stats.insert(
            path::normalized(asset.path->0@),
            asset.stat->0,
        ),
        asset.path is None || asset.stat is None ==> and_assets(known, assets.push(asset)).stats
            == and_assets(known, assets).stats,
{
    assert(scenes.push(scene).drop_last() =~= scenes);
    assert(assets.push(asset).drop_last() =~= assets);
}

} // verus!
