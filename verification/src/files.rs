//! The files a project is made of, and how they are brought in line with the disk.
//!
//! A walk of the project tree is handed in item by item. Each item says whether its file has to be
//! read; when the walk was complete, what is no longer on disk is dropped.

use vstd::prelude::*;

use crate::path;
use crate::path::{extension, normalize_path};
use crate::text;
use crate::text::opt_is;
use crate::text_map;
use crate::text_map::TextMap;

verus! {

/// A set of paths.
pub type PathSet = TextMap<()>;

// ---------------------------------------------------------------------------
// Files.
// ---------------------------------------------------------------------------

/// What tells whether a file changed.
#[derive(Debug, Clone, Copy, PartialEq, Eq, Structural)]
pub struct FileStat {
    pub size: u64,
    pub mtime_ns: i128,
}

/// What a file is to the project.
#[derive(Debug, Clone, Copy, PartialEq, Eq, Structural)]
pub enum FileKind {
    Script,
    Scene,
    Asset,
}

/// What a file that is no scene is to the project, by its extension.
pub open spec fn kind_by(extension: Option<Seq<char>>) -> FileKind {
    if extension == Some("gd"@) {
        FileKind::Script
    } else {
        FileKind::Asset
    }
}

/// What a file is to the project, by its extension. Scenes are told apart first.
pub fn file_kind(path: &str, is_scene: bool) -> (r: FileKind)
    ensures
        is_scene ==> r == FileKind::Scene,
        !is_scene ==> exists|ext: Option<Seq<char>>| #[trigger]
            path::reads_extension(path@, ext) && r == kind_by(ext),
        !is_scene && path::portable(path@) ==> r == kind_by(path::extension_of(path@)),
{
    if is_scene {
        return FileKind::Scene;
    }
    let ext = extension(path);
    proof {
        assert(path::reads_extension(path@, text::opt_string(ext)));
    }
    if opt_is(&ext, "gd") {
        FileKind::Script
    } else {
        FileKind::Asset
    }
}

/// An indexed scene: the file it stands for, and the number under which its owner keeps what was
/// read of it.
#[verifier::ext_equal]
pub struct SceneView {
    pub path: Option<Seq<char>>,
    pub parse: u64,
}

/// The files of a project: the scripts with their interfaces, scenes and assets by resource path
/// with the file they stand for, and what is known of each file on disk.
#[verifier::ext_equal]
pub struct FilesView {
    pub index: Map<Seq<char>, u64>,
    pub scenes: Map<Seq<char>, SceneView>,
    pub assets: Map<Seq<char>, Option<Seq<char>>>,
    pub stats: Map<Seq<char>, FileStat>,
}

/// What stands for a file, where there is one.
trait Located {
    spec fn place(&self) -> Option<Seq<char>>;

    fn path(&self) -> (r: Option<&str>)
        ensures
            text::opt_str(r) == self.place(),
    ;
}

/// An indexed scene.
struct Scene {
    path: Option<String>,
    parse: u64,
}

impl Located for Scene {
    spec fn place(&self) -> Option<Seq<char>> {
        text::opt_string(self.path)
    }

    fn path(&self) -> (r: Option<&str>) {
        self.path.path()
    }
}

impl Located for Option<String> {
    spec fn place(&self) -> Option<Seq<char>> {
        text::opt_string(*self)
    }

    fn path(&self) -> (r: Option<&str>) {
        match self {
            Some(path) => Some(path.as_str()),
            None => None,
        }
    }
}

/// The files of a project.
pub struct ProjectFiles {
    index: TextMap<u64>,
    scenes: TextMap<Scene>,
    assets: TextMap<Option<String>>,
    stats: TextMap<FileStat>,
}

/// The files that resources stand for.
spec fn places<V: Located>(map: Map<Seq<char>, V>) -> Map<Seq<char>, Option<Seq<char>>> {
    map.map_values(|resource: V| resource.place())
}

/// Scenes over texts.
spec fn scenes_view(map: Map<Seq<char>, Scene>) -> Map<Seq<char>, SceneView> {
    map.map_values(
        |scene: Scene| SceneView { path: text::opt_string(scene.path), parse: scene.parse },
    )
}

/// The files that scenes stand for.
pub open spec fn scene_paths(scenes: Map<Seq<char>, SceneView>) -> Map<
    Seq<char>,
    Option<Seq<char>>,
> {
    scenes.map_values(|scene: SceneView| scene.path)
}

impl View for ProjectFiles {
    type V = FilesView;

    closed spec fn view(&self) -> FilesView {
        FilesView {
            index: self.index@,
            scenes: scenes_view(self.scenes@),
            assets: places(self.assets@),
            stats: self.stats@,
        }
    }
}

/// The stats after a file was looked at: a failure forgets what was known.
pub open spec fn with_stat(
    stats: Map<Seq<char>, FileStat>,
    path: Seq<char>,
    stat: Option<FileStat>,
) -> Map<Seq<char>, FileStat> {
    match stat {
        Some(stat) => stats.insert(path, stat),
        None => stats.remove(path),
    }
}

/// How reading a file ended. What was read of a script or scene is kept by its owner under a number.
#[derive(Debug, Clone, Copy, PartialEq, Eq, Structural)]
pub enum FileRead {
    Text(u64),
    NotFound,
    Unreadable,
}

/// The files without a scene.
pub open spec fn scene_removed(
    files: FilesView,
    path: Seq<char>,
    res: Option<Seq<char>>,
) -> FilesView {
    FilesView {
        scenes: match res {
            Some(res) => files.scenes.remove(res),
            None => files.scenes,
        },
        stats: files.stats.remove(path),
        ..files
    }
}

/// The files after a scene was read anew. A scene outside the project changes nothing, nor does one
/// that cannot be read; one that is gone is dropped.
pub open spec fn scene_reindexed(
    files: FilesView,
    path: Seq<char>,
    res: Option<Seq<char>>,
    read: FileRead,
    stat_now: Option<FileStat>,
) -> FilesView {
    match res {
        None => files,
        Some(name) => match read {
            FileRead::Text(parse) => FilesView {
                scenes: files.scenes.insert(name, SceneView { path: Some(path), parse }),
                stats: with_stat(files.stats, path, stat_now),
                ..files
            },
            FileRead::NotFound => scene_removed(files, path, res),
            FileRead::Unreadable => files,
        },
    }
}

/// The files without an asset.
pub open spec fn asset_removed(
    files: FilesView,
    path: Seq<char>,
    res: Option<Seq<char>>,
) -> FilesView {
    FilesView {
        assets: match res {
            Some(res) => files.assets.remove(res),
            None => files.assets,
        },
        stats: files.stats.remove(path),
        ..files
    }
}

/// The files after an asset was seen. One outside the project changes nothing.
pub open spec fn asset_reindexed(
    files: FilesView,
    path: Seq<char>,
    res: Option<Seq<char>>,
    stat_now: Option<FileStat>,
) -> FilesView {
    match res {
        None => files,
        Some(name) => FilesView {
            assets: files.assets.insert(name, Some(path)),
            stats: with_stat(files.stats, path, stat_now),
            ..files
        },
    }
}

impl ProjectFiles {
    /// No files.
    pub fn new() -> (r: ProjectFiles)
        ensures
            r@ == (FilesView {
                index: Map::empty(),
                scenes: Map::empty(),
                assets: Map::empty(),
                stats: Map::empty(),
            }),
    {
        let r = ProjectFiles {
            index: TextMap::new(),
            scenes: TextMap::new(),
            assets: TextMap::new(),
            stats: TextMap::new(),
        };
        proof {
            assert(r@.scenes =~= Map::<Seq<char>, SceneView>::empty());
            assert(r@.assets =~= Map::<Seq<char>, Option<Seq<char>>>::empty());
        }
        r
    }

    /// The number of a script's interface, where the script is indexed.
    pub fn interface_of(&self, path: &str) -> (r: Option<u64>)
        ensures
            r is Some == self@.index.dom().contains(path@),
            r matches Some(interface) ==> interface == self@.index[path@],
    {
        match self.index.get(path) {
            Some(interface) => Some(*interface),
            None => None,
        }
    }

    /// What is known of a file on disk.
    pub fn stat_of(&self, path: &str) -> (r: Option<FileStat>)
        ensures
            r is Some == self@.stats.dom().contains(path@),
            r matches Some(stat) ==> stat == self@.stats[path@],
    {
        match self.stats.get(path) {
            Some(stat) => Some(*stat),
            None => None,
        }
    }

    /// Whether a scene is indexed.
    pub fn has_scene(&self, res: &str) -> (r: bool)
        ensures
            r == self@.scenes.dom().contains(res@),
    {
        self.scenes.contains_key(res)
    }

    /// The number of what was read of a scene, where the scene is indexed.
    pub fn scene_of(&self, res: &str) -> (r: Option<u64>)
        ensures
            r is Some == self@.scenes.dom().contains(res@),
            r matches Some(parse) ==> parse == self@.scenes[res@].parse,
    {
        match self.scenes.get(res) {
            Some(scene) => Some(scene.parse),
            None => None,
        }
    }

    /// Whether an asset is indexed.
    pub fn has_asset(&self, res: &str) -> (r: bool)
        ensures
            r == self@.assets.dom().contains(res@),
    {
        self.assets.contains_key(res)
    }

    /// A file was looked at; a failure forgets what was known of it.
    pub fn update_stat(&mut self, path: &str, stat: Option<FileStat>)
        ensures
            final(self)@ == (FilesView {
                stats: with_stat(old(self)@.stats, path@, stat),
                ..old(self)@
            }),
    {
        match stat {
            Some(stat) => {
                let _ = self.stats.insert(path.to_owned(), stat);
            },
            None => {
                let _ = self.stats.remove(path);
            },
        }
    }

    /// Index a script.
    pub fn set_script(&mut self, path: &str, interface: u64)
        ensures
            final(self)@ == (FilesView {
                index: old(self)@.index.insert(path@, interface),
                ..old(self)@
            }),
    {
        let _ = self.index.insert(path.to_owned(), interface);
    }

    /// Drop a script.
    pub fn remove_script(&mut self, path: &str)
        ensures
            final(self)@ == (FilesView {
                index: old(self)@.index.remove(path@),
                stats: old(self)@.stats.remove(path@),
                ..old(self)@
            }),
    {
        let _ = self.index.remove(path);
        let _ = self.stats.remove(path);
    }

    /// Index a scene, with the file it stands for and the number of what was read of it.
    pub fn set_scene(&mut self, res: &str, path: Option<&str>, parse: u64)
        ensures
            final(self)@ == (FilesView {
                scenes: old(self)@.scenes.insert(
                    res@,
                    SceneView { path: text::opt_str(path), parse },
                ),
                ..old(self)@
            }),
    {
        let owned: Option<String> = match path {
            Some(path) => Some(path.to_owned()),
            None => None,
        };
        let _ = self.scenes.insert(res.to_owned(), Scene { path: owned, parse });
        proof {
            assert(self@.scenes =~= old(self)@.scenes.insert(
                res@,
                SceneView { path: text::opt_str(path), parse },
            ));
        }
    }

    /// Index an asset, with the file it stands for.
    pub fn set_asset(&mut self, res: &str, path: Option<&str>)
        ensures
            final(self)@ == (FilesView {
                assets: old(self)@.assets.insert(res@, text::opt_str(path)),
                ..old(self)@
            }),
    {
        let owned: Option<String> = match path {
            Some(path) => Some(path.to_owned()),
            None => None,
        };
        let _ = self.assets.insert(res.to_owned(), owned);
        proof {
            assert(self@.assets =~= old(self)@.assets.insert(res@, text::opt_str(path)));
        }
    }

    /// Drop a scene. `res` is its resource path, where the file is under the project root.
    pub fn remove_scene(&mut self, path: &str, res: Option<&str>)
        ensures
            final(self)@ == scene_removed(old(self)@, path@, text::opt_str(res)),
    {
        if let Some(res) = res {
            let _ = self.scenes.remove(res);
            proof {
                assert(self@.scenes =~= old(self)@.scenes.remove(res@));
            }
        }
        let _ = self.stats.remove(path);
    }

    /// A scene was read anew.
    pub fn reindex_scene(
        &mut self,
        path: &str,
        res: Option<&str>,
        read: FileRead,
        stat_now: Option<FileStat>,
    )
        ensures
            final(self)@ == scene_reindexed(
                old(self)@,
                path@,
                text::opt_str(res),
                read,
                stat_now,
            ),
    {
        match res {
            None => {},
            Some(name) => match read {
                FileRead::Text(parse) => {
                    self.set_scene(name, Some(path), parse);
                    self.update_stat(path, stat_now);
                },
                FileRead::NotFound => {
                    self.remove_scene(path, res);
                },
                FileRead::Unreadable => {},
            },
        }
    }

    /// Drop an asset. `res` is its resource path, where the file is under the project root.
    pub fn remove_asset(&mut self, path: &str, res: Option<&str>)
        ensures
            final(self)@ == asset_removed(old(self)@, path@, text::opt_str(res)),
    {
        if let Some(res) = res {
            let _ = self.assets.remove(res);
            proof {
                assert(self@.assets =~= old(self)@.assets.remove(res@));
            }
        }
        let _ = self.stats.remove(path);
    }

    /// An asset was seen.
    pub fn reindex_asset(&mut self, path: &str, res: Option<&str>, stat_now: Option<FileStat>)
        ensures
            final(self)@ == asset_reindexed(old(self)@, path@, text::opt_str(res), stat_now),
    {
        match res {
            None => {},
            Some(name) => {
                let _ = self.assets.insert(name.to_owned(), Some(path.to_owned()));
                proof {
                    assert(self@.assets =~= old(self)@.assets.insert(name@, Some(path@)));
                }
                self.update_stat(path, stat_now);
            },
        }
    }
}

// ---------------------------------------------------------------------------
// A walk of the tree.
// ---------------------------------------------------------------------------

/// A file that a walk came to, under its normalized path.
pub struct WalkedFile {
    pub path: String,
    pub kind: FileKind,
    pub stat: Option<FileStat>,
}

/// What a walk hands on of a file, under its normalized path.
pub fn walked_file(path: &str, is_scene: bool, stat: Option<FileStat>) -> (r: WalkedFile)
    ensures
        r.path@ == path::normalized(path@),
        r.stat == stat,
        is_scene ==> r.kind == FileKind::Scene,
        !is_scene ==> exists|ext: Option<Seq<char>>| #[trigger]
            path::reads_extension(path@, ext) && r.kind == kind_by(ext),
        !is_scene && path::portable(path@) ==> r.kind == kind_by(path::extension_of(path@)),
{
    WalkedFile { path: normalize_path(path), kind: file_kind(path, is_scene), stat }
}

/// One item of a walk.
pub enum WalkItem {
    /// An entry that could not be read.
    Error,
    /// A directory or anything else that is no file.
    NotFile,
    /// A path that is not UTF-8.
    NotUtf8,
    File(WalkedFile),
}

/// What was found of a file that had to be read: its resource path, its text, and its stat after
/// reading.
pub struct FileProbe {
    pub res: Option<String>,
    pub read: FileRead,
    pub stat_now: Option<FileStat>,
}

/// Whether a file is to be read: it is new, its stat failed, or its size or time changed.
pub open spec fn stat_changed(
    stats: Map<Seq<char>, FileStat>,
    path: Seq<char>,
    new: Option<FileStat>,
) -> bool {
    !stats.dom().contains(path) || new is None || stats[path] != new->0
}

/// Whether a file is to be read.
pub fn is_stat_changed(files: &ProjectFiles, path: &str, new: Option<FileStat>) -> (r: bool)
    ensures
        r == stat_changed(files@.stats, path@, new),
{
    match (files.stat_of(path), new) {
        (Some(old), Some(new)) => old != new,
        _ => true,
    }
}

// ---------------------------------------------------------------------------
// Reconciling with the disk.
// ---------------------------------------------------------------------------

/// How a reconciliation treats files that are known.
#[derive(Debug, Clone, Copy, PartialEq, Eq, Structural)]
pub enum ReconcileMode {
    /// Every file is compared with the disk.
    FullStat,
    /// Known files are passed over: a live watcher reports their changes.
    DiscoverOnly,
}

/// What a reconciliation found.
#[derive(Debug, Clone, Copy, PartialEq, Eq, Structural)]
pub struct ReconciliationReport {
    pub added: usize,
    pub modified: usize,
    pub removed: usize,
    pub walked: usize,
    /// Entries that could not be read. With any, nothing is removed.
    pub walk_errors: usize,
    /// Scripts whose text could not be read. What is known of them stays.
    pub skipped_unreadable: usize,
    /// Paths that are not UTF-8. With any, nothing is removed.
    pub skipped_non_utf8: usize,
}

impl Default for ReconciliationReport {
    fn default() -> (r: ReconciliationReport)
        ensures
            r == no_report(),
    {
        ReconciliationReport {
            added: 0,
            modified: 0,
            removed: 0,
            walked: 0,
            walk_errors: 0,
            skipped_unreadable: 0,
            skipped_non_utf8: 0,
        }
    }
}

/// The report of a walk that has not begun.
pub open spec fn no_report() -> ReconciliationReport {
    ReconciliationReport {
        added: 0,
        modified: 0,
        removed: 0,
        walked: 0,
        walk_errors: 0,
        skipped_unreadable: 0,
        skipped_non_utf8: 0,
    }
}

impl ReconciliationReport {
    /// Whether the walk met anything that an operator should see.
    pub fn had_errors(&self) -> (r: bool)
        ensures
            r == (self.walk_errors > 0 || self.skipped_unreadable > 0 || self.skipped_non_utf8 > 0),
    {
        self.walk_errors > 0 || self.skipped_unreadable > 0 || self.skipped_non_utf8 > 0
    }

    /// Whether each count of visited items can still grow.
    pub open spec fn can_visit(self) -> bool {
        &&& self.walked < usize::MAX
        &&& self.walk_errors < usize::MAX
        &&& self.skipped_non_utf8 < usize::MAX
    }

    /// Whether each count of files that were read can still grow.
    pub open spec fn can_take_in(self) -> bool {
        &&& self.added < usize::MAX
        &&& self.modified < usize::MAX
        &&& self.skipped_unreadable < usize::MAX
    }
}

/// Where a reconciliation stands: the files it came to, and its counts.
#[verifier::ext_equal]
pub struct WalkView {
    pub scripts: Set<Seq<char>>,
    pub scenes: Set<Seq<char>>,
    pub assets: Set<Seq<char>>,
    pub report: ReconciliationReport,
}

/// The start of a reconciliation.
pub open spec fn walk_start() -> WalkView {
    WalkView {
        scripts: Set::empty(),
        scenes: Set::empty(),
        assets: Set::empty(),
        report: no_report(),
    }
}

/// The walk after an item was seen.
pub open spec fn visited(walk: WalkView, item: WalkItem) -> WalkView {
    match item {
        WalkItem::Error => WalkView {
            report: ReconciliationReport {
                walk_errors: (walk.report.walk_errors + 1) as usize,
                ..walk.report
            },
            ..walk
        },
        WalkItem::NotFile => walk,
        WalkItem::NotUtf8 => WalkView {
            report: ReconciliationReport {
                skipped_non_utf8: (walk.report.skipped_non_utf8 + 1) as usize,
                ..walk.report
            },
            ..walk
        },
        WalkItem::File(file) => {
            let report = ReconciliationReport {
                walked: (walk.report.walked + 1) as usize,
                ..walk.report
            };
            match file.kind {
                FileKind::Script => WalkView {
                    scripts: walk.scripts.insert(file.path@),
                    report,
                    ..walk
                },
                FileKind::Scene => WalkView {
                    scenes: walk.scenes.insert(file.path@),
                    report,
                    ..walk
                },
                FileKind::Asset => WalkView {
                    assets: walk.assets.insert(file.path@),
                    report,
                    ..walk
                },
            }
        },
    }
}

/// Whether the file of an item has to be read. An open script is never: its buffer is its text. In
/// discovery no known file is.
pub open spec fn due(
    files: FilesView,
    item: WalkItem,
    open: Set<Seq<char>>,
    mode: ReconcileMode,
) -> bool {
    item matches WalkItem::File(file) && stat_changed(files.stats, file.path@, file.stat) && !(mode
        == ReconcileMode::DiscoverOnly && files.stats.dom().contains(file.path@)) && (file.kind
        == FileKind::Script ==> !open.contains(file.path@))
}

/// The files after a file was read.
pub open spec fn taken_in(files: FilesView, file: WalkedFile, probe: FileProbe) -> FilesView {
    match file.kind {
        FileKind::Script => match probe.read {
            FileRead::Text(interface) => FilesView {
                index: files.index.insert(file.path@, interface),
                stats: with_stat(files.stats, file.path@, file.stat),
                ..files
            },
            _ => files,
        },
        FileKind::Scene => scene_reindexed(
            files,
            file.path@,
            text::opt_string(probe.res),
            probe.read,
            probe.stat_now,
        ),
        FileKind::Asset => asset_reindexed(
            files,
            file.path@,
            text::opt_string(probe.res),
            probe.stat_now,
        ),
    }
}

/// The counts after a file was read.
pub open spec fn counted(
    report: ReconciliationReport,
    files: FilesView,
    file: WalkedFile,
    probe: FileProbe,
) -> ReconciliationReport {
    if file.kind != FileKind::Script {
        report
    } else if probe.read is Text {
        if files.index.dom().contains(file.path@) {
            ReconciliationReport { modified: (report.modified + 1) as usize, ..report }
        } else {
            ReconciliationReport { added: (report.added + 1) as usize, ..report }
        }
    } else {
        ReconciliationReport {
            skipped_unreadable: (report.skipped_unreadable + 1) as usize,
            ..report
        }
    }
}

/// Files and walk after one item.
pub open spec fn stepped(
    files: FilesView,
    walk: WalkView,
    item: WalkItem,
    probe: FileProbe,
    open: Set<Seq<char>>,
    mode: ReconcileMode,
) -> (FilesView, WalkView) {
    let seen = visited(walk, item);
    if due(files, item, open, mode) {
        let file = item->File_0;
        (
            taken_in(files, file, probe),
            WalkView { report: counted(seen.report, files, file, probe), ..seen },
        )
    } else {
        (files, seen)
    }
}

/// Files and walk after all items of a walk.
pub open spec fn walked_all(
    files: FilesView,
    items: Seq<(WalkItem, FileProbe)>,
    open: Set<Seq<char>>,
    mode: ReconcileMode,
) -> (FilesView, WalkView)
    decreases items.len(),
{
    if items.len() == 0 {
        (files, walk_start())
    } else {
        let before = walked_all(files, items.drop_last(), open, mode);
        stepped(before.0, before.1, items.last().0, items.last().1, open, mode)
    }
}

/// Whether the walk speaks for the whole tree.
pub open spec fn authoritative(report: ReconciliationReport) -> bool {
    report.walk_errors == 0 && report.skipped_non_utf8 == 0
}

/// The scripts that are on disk no more, the open ones left out.
pub open spec fn gone_scripts(
    files: FilesView,
    walked: Set<Seq<char>>,
    open: Set<Seq<char>>,
) -> Set<Seq<char>> {
    Set::new(
        |path: Seq<char>|
            files.index.dom().contains(path) && !walked.contains(path) && !open.contains(path),
    )
}

/// The resources whose files a walk did not come to.
pub open spec fn gone_resources(
    resources: Map<Seq<char>, Option<Seq<char>>>,
    walked: Set<Seq<char>>,
    open: Set<Seq<char>>,
) -> Set<Seq<char>> {
    Set::new(
        |res: Seq<char>|
            resources.dom().contains(res) && (resources[res] matches Some(path) ==> !walked.contains(
                path,
            ) && !open.contains(path)),
    )
}

/// The files that resources stand for.
pub open spec fn paths_of(
    resources: Map<Seq<char>, Option<Seq<char>>>,
    names: Set<Seq<char>>,
) -> Set<Seq<char>> {
    Set::new(
        |path: Seq<char>|
            exists|res: Seq<char>| #[trigger]
                names.contains(res) && resources[res] == Some(path),
    )
}

/// The files without those that a walk did not come to. Open scripts and scenes stay.
pub open spec fn dropped(
    files: FilesView,
    scripts: Set<Seq<char>>,
    scenes: Set<Seq<char>>,
    assets: Set<Seq<char>>,
    open: Set<Seq<char>>,
) -> FilesView {
    let no_scripts = gone_scripts(files, scripts, open);
    let no_scenes = gone_resources(scene_paths(files.scenes), scenes, open);
    let no_assets = gone_resources(files.assets, assets, Set::empty());
    FilesView {
        index: files.index.remove_keys(no_scripts),
        scenes: files.scenes.remove_keys(no_scenes),
        assets: files.assets.remove_keys(no_assets),
        stats: files.stats.remove_keys(no_scripts).remove_keys(
            paths_of(scene_paths(files.scenes), no_scenes),
        ).remove_keys(paths_of(files.assets, no_assets)),
    }
}

/// The files after a walk: what a complete walk did not come to is dropped. After an incomplete one
/// nothing is.
pub open spec fn settled(files: FilesView, walk: WalkView, open: Set<Seq<char>>) -> FilesView {
    if authoritative(walk.report) {
        dropped(files, walk.scripts, walk.scenes, walk.assets, open)
    } else {
        files
    }
}

/// The keys of a list of resources that a walk did not come to, and the files they stand for.
fn find_gone<V: Located>(resources: &TextMap<V>, walked: &PathSet, open: &PathSet) -> (r: (
    Vec<String>,
    Vec<String>,
))
    ensures
        text_map::texts_set(r.0@) == gone_resources(
            places(resources@),
            walked@.dom(),
            open@.dom(),
        ),
        text_map::texts_set(r.1@) == paths_of(places(resources@), text_map::texts_set(r.0@)),
{
    let keys = resources.keys();
    let mut gone: Vec<String> = Vec::new();
    let mut paths: Vec<String> = Vec::new();
    let ghost all = places(resources@);
    let ghost target = gone_resources(all, walked@.dom(), open@.dom());
    let mut i: usize = 0;
    proof {
        assert(text_map::texts_set(gone@) =~= Set::<Seq<char>>::empty());
        assert(text_map::texts_set(paths@) =~= Set::<Seq<char>>::empty());
        assert(paths_of(all, text_map::texts_set(gone@)) =~= Set::<Seq<char>>::empty());
    }
    while i < keys.len()
        invariant
            0 <= i <= keys@.len(),
            all == places(resources@),
            target == gone_resources(all, walked@.dom(), open@.dom()),
            resources@.dom() == text_map::texts_set(keys@),
            forall|res: Seq<char>| #[trigger]
                text_map::texts_set(gone@).contains(res) ==> target.contains(res),
            forall|j: int|
                0 <= j < i && target.contains((#[trigger] keys@[j])@) ==> text_map::texts_set(
                    gone@,
                ).contains(keys@[j]@),
            text_map::texts_set(paths@) == paths_of(all, text_map::texts_set(gone@)),
        decreases keys@.len() - i,
    {
        let ghost key = keys@[i as int]@;
        let ghost gone_before = gone@;
        let ghost paths_before = paths@;
        proof {
            assert(text_map::has_text(keys@, key));
            assert(resources@.dom().contains(key));
            assert(all.dom().contains(key));
            text_map::lemma_texts_set_push(gone_before, keys@[i as int]);
        }
        match resources.get(keys[i].as_str()) {
            Some(entry) => match entry.path() {
                Some(path) => {
                    proof {
                        assert(all[key] == Some(path@));
                    }
                    if !walked.contains_key(path) && !open.contains_key(path) {
                        gone.push(keys[i].clone());
                        paths.push(path.to_owned());
                        proof {
                            text_map::lemma_texts_set_push(gone_before, gone@.last());
                            text_map::lemma_texts_set_push(paths_before, paths@.last());
                            assert(target.contains(key));
                            lemma_paths_of_insert(
                                all,
                                text_map::texts_set(gone_before),
                                key,
                                Some(path@),
                            );
                        }
                    }
                },
                None => {
                    proof {
                        assert(all[key] == None::<Seq<char>>);
                    }
                    gone.push(keys[i].clone());
                    proof {
                        text_map::lemma_texts_set_push(gone_before, gone@.last());
                        assert(target.contains(key));
                        lemma_paths_of_insert(all, text_map::texts_set(gone_before), key, None);
                    }
                },
            },
            None => {},
        }
        i = i + 1;
    }
    proof {
        assert forall|res: Seq<char>| target.contains(res) implies #[trigger] text_map::texts_set(
            gone@,
        ).contains(res) by {
            assert(text_map::has_text(keys@, res));
            let j = choose|j: int| 0 <= j < keys@.len() && (#[trigger] keys@[j])@ == res;
            assert(target.contains(keys@[j]@));
        }
        assert(text_map::texts_set(gone@) =~= target);
    }
    (gone, paths)
}

proof fn lemma_paths_of_insert(
    resources: Map<Seq<char>, Option<Seq<char>>>,
    names: Set<Seq<char>>,
    name: Seq<char>,
    path: Option<Seq<char>>,
)
    requires
        resources[name] == path,
    ensures
        paths_of(resources, names.insert(name)) == (match path {
            Some(path) => paths_of(resources, names).insert(path),
            None => paths_of(resources, names),
        }),
{
    let more = names.insert(name);
    let left = paths_of(resources, more);
    let right = match path {
        Some(path) => paths_of(resources, names).insert(path),
        None => paths_of(resources, names),
    };
    assert forall|p: Seq<char>| left.contains(p) == right.contains(p) by {
        if left.contains(p) {
            let res = choose|res: Seq<char>| #[trigger]
                more.contains(res) && resources[res] == Some(p);
            if res != name {
                assert(names.contains(res));
            }
        }
        if paths_of(resources, names).contains(p) {
            let res = choose|res: Seq<char>| #[trigger]
                names.contains(res) && resources[res] == Some(p);
            assert(more.contains(res));
        }
        if path == Some(p) {
            assert(more.contains(name));
        }
    }
    assert(left =~= right);
}

impl ProjectFiles {
    /// Drop the files that a walk did not come to. How many scripts were dropped is given back.
    pub fn drop_unwalked(
        &mut self,
        scripts: &PathSet,
        scenes: &PathSet,
        assets: &PathSet,
        open: &PathSet,
    ) -> (r: usize)
        ensures
            final(self)@ == dropped(
                old(self)@,
                scripts@.dom(),
                scenes@.dom(),
                assets@.dom(),
                open@.dom(),
            ),
            gone_scripts(old(self)@, scripts@.dom(), open@.dom()).finite(),
            r == gone_scripts(old(self)@, scripts@.dom(), open@.dom()).len(),
    {
        let ghost start = self@;
        let keys = self.index.keys();
        let mut gone: Vec<String> = Vec::new();
        let ghost target = gone_scripts(start, scripts@.dom(), open@.dom());
        let mut i: usize = 0;
        proof {
            assert(text_map::texts_set(gone@) =~= Set::<Seq<char>>::empty());
        }
        while i < keys.len()
            invariant
                0 <= i <= keys@.len(),
                target == gone_scripts(start, scripts@.dom(), open@.dom()),
                start.index.dom() == text_map::texts_set(keys@),
                text_map::distinct_texts(keys@),
                text_map::distinct_texts(gone@),
                forall|path: Seq<char>| #[trigger]
                    text_map::texts_set(gone@).contains(path) ==> target.contains(path)
                        && text_map::texts_set(keys@.take(i as int)).contains(path),
                forall|j: int|
                    0 <= j < i && target.contains((#[trigger] keys@[j])@) ==> text_map::texts_set(
                        gone@,
                    ).contains(keys@[j]@),
            decreases keys@.len() - i,
        {
            let ghost key = keys@[i as int]@;
            let ghost before = gone@;
            proof {
                assert(text_map::has_text(keys@, key));
                assert(start.index.dom().contains(key));
                assert(keys@.take(i as int + 1) =~= keys@.take(i as int).push(keys@[i as int]));
                text_map::lemma_texts_set_push(keys@.take(i as int), keys@[i as int]);
                assert(!text_map::texts_set(keys@.take(i as int)).contains(key)) by {
                    if text_map::has_text(keys@.take(i as int), key) {
                        let j = choose|j: int|
                            0 <= j < i && (#[trigger] keys@.take(i as int)[j])@ == key;
                        assert(keys@[j]@ != keys@[i as int]@);
                    }
                }
            }
            if !scripts.contains_key(keys[i].as_str()) && !open.contains_key(
                keys[i].as_str(),
            ) {
                gone.push(keys[i].clone());
                proof {
                    text_map::lemma_texts_set_push(before, gone@.last());
                    assert(target.contains(key));
                    assert forall|a: int, b: int| 0 <= a < b < gone@.len() implies (
                    #[trigger] gone@[a])@ != (#[trigger] gone@[b])@ by {
                        if b == before.len() {
                            if gone@[a]@ == key {
                                assert(text_map::has_text(before, key)) by {
                                    assert(before[a]@ == key);
                                }
                                assert(text_map::texts_set(before).contains(key));
                            }
                        }
                    }
                }
            }
            i = i + 1;
        }
        proof {
            assert forall|path: Seq<char>| target.contains(path) implies
                #[trigger] text_map::texts_set(gone@).contains(path) by {
                assert(text_map::has_text(keys@, path));
                let j = choose|j: int| 0 <= j < keys@.len() && (#[trigger] keys@[j])@ == path;
                assert(target.contains(keys@[j]@));
            }
            assert(text_map::texts_set(gone@) =~= target);
            text_map::lemma_texts_set_len(gone@);
        }
        self.index.remove_all(&gone);
        self.stats.remove_all(&gone);
        let ghost scenes_before = self.scenes@;
        let (gone_scenes, gone_paths) = find_gone(&self.scenes, scenes, open);
        self.scenes.remove_all(&gone_scenes);
        self.stats.remove_all(&gone_paths);
        let none: PathSet = TextMap::new();
        let (gone_assets, asset_paths) = find_gone(&self.assets, assets, &none);
        self.assets.remove_all(&gone_assets);
        self.stats.remove_all(&asset_paths);
        proof {
            let end = dropped(start, scripts@.dom(), scenes@.dom(), assets@.dom(), open@.dom());
            assert(none@.dom() =~= Set::<Seq<char>>::empty());
            assert(places(scenes_before) =~= scene_paths(start.scenes));
            assert(self@.scenes =~= end.scenes);
            assert(self@.assets =~= end.assets);
            assert(self@.stats =~= end.stats);
            assert(self@.index =~= end.index);
        }
        gone.len()
    }
}

impl ProjectFiles {
    /// The stat of each file, but for those of a set.
    pub fn stats_without(&self, open: &PathSet) -> (r: Vec<(String, FileStat)>)
        ensures
            forall|i: int|
                0 <= i < r@.len() ==> {
                    let path = (#[trigger] r@[i]).0@;
                    &&& self@.stats.dom().contains(path)
                    &&& !open@.dom().contains(path)
                    &&& r@[i].1 == self@.stats[path]
                },
            forall|path: Seq<char>|
                self@.stats.dom().contains(path) && !open@.dom().contains(path) ==> exists|i: int|
                    0 <= i < r@.len() && (#[trigger] r@[i]).0@ == path,
            forall|i: int, j: int|
                0 <= i < j < r@.len() ==> (#[trigger] r@[i]).0@ != (#[trigger] r@[j]).0@,
    {
        let keys = self.stats.keys();
        let mut r: Vec<(String, FileStat)> = Vec::new();
        let mut i: usize = 0;
        while i < keys.len()
            invariant
                0 <= i <= keys@.len(),
                self@.stats.dom() == text_map::texts_set(keys@),
                text_map::distinct_texts(keys@),
                forall|k: int|
                    0 <= k < r@.len() ==> {
                        let path = (#[trigger] r@[k]).0@;
                        &&& self@.stats.dom().contains(path)
                        &&& !open@.dom().contains(path)
                        &&& r@[k].1 == self@.stats[path]
                        &&& exists|j: int| 0 <= j < i && (#[trigger] keys@[j])@ == path
                    },
                forall|j: int|
                    0 <= j < i && !open@.dom().contains((#[trigger] keys@[j])@) ==> exists|k: int|
                        0 <= k < r@.len() && (#[trigger] r@[k]).0@ == keys@[j]@,
                forall|a: int, b: int|
                    0 <= a < b < r@.len() ==> (#[trigger] r@[a]).0@ != (#[trigger] r@[b]).0@,
            decreases keys@.len() - i,
        {
            let ghost before = r@;
            let ghost key = keys@[i as int]@;
            proof {
                assert(text_map::has_text(keys@, key));
                assert(self@.stats.dom().contains(key));
            }
            if !open.contains_key(keys[i].as_str()) {
                if let Some(stat) = self.stats.get(keys[i].as_str()) {
                    r.push((keys[i].clone(), *stat));
                    proof {
                        assert(r@[before.len() as int].0@ == key);
                        assert forall|a: int, b: int| 0 <= a < b < r@.len() implies (
                        #[trigger] r@[a]).0@ != (#[trigger] r@[b]).0@ by {
                            if b == before.len() {
                                assert(r@[a] == before[a]);
                                let j = choose|j: int|
                                    0 <= j < i && (#[trigger] keys@[j])@ == before[a].0@;
                                assert(keys@[j]@ != keys@[i as int]@);
                            }
                        }
                    }
                }
            }
            proof {
                assert forall|j: int|
                    0 <= j < i + 1 && !open@.dom().contains((#[trigger] keys@[j])@) implies exists|
                    k: int,
                |
                    0 <= k < r@.len() && (#[trigger] r@[k]).0@ == keys@[j]@ by {
                    if j < i {
                        let k = choose|k: int|
                            0 <= k < before.len() && (#[trigger] before[k]).0@ == keys@[j]@;
                        assert(r@[k].0@ == keys@[j]@);
                    } else {
                        assert(r@[before.len() as int].0@ == key);
                    }
                }
            }
            i = i + 1;
        }
        proof {
            assert forall|path: Seq<char>|
                self@.stats.dom().contains(path) && !open@.dom().contains(path) implies exists|
                k: int,
            |
                0 <= k < r@.len() && (#[trigger] r@[k]).0@ == path by {
                assert(text_map::has_text(keys@, path));
                let j = choose|j: int| 0 <= j < keys@.len() && (#[trigger] keys@[j])@ == path;
                assert(keys@[j]@ == path);
            }
        }
        r
    }
}

/// A reconciliation in progress.
pub struct Reconciliation {
    mode: ReconcileMode,
    scripts: PathSet,
    scenes: PathSet,
    assets: PathSet,
    report: ReconciliationReport,
}

impl View for Reconciliation {
    type V = WalkView;

    closed spec fn view(&self) -> WalkView {
        WalkView {
            scripts: self.scripts@.dom(),
            scenes: self.scenes@.dom(),
            assets: self.assets@.dom(),
            report: self.report,
        }
    }
}

impl Reconciliation {
    /// How known files are treated.
    pub closed spec fn spec_mode(&self) -> ReconcileMode {
        self.mode
    }

    /// Begin a reconciliation.
    pub fn start(mode: ReconcileMode) -> (r: Reconciliation)
        ensures
            r.spec_mode() == mode,
            r@ == walk_start(),
    {
        let r = Reconciliation {
            mode,
            scripts: TextMap::new(),
            scenes: TextMap::new(),
            assets: TextMap::new(),
            report: Default::default(),
        };
        proof {
            assert(r@ =~= walk_start());
        }
        r
    }

    /// See one item of the walk. Where its file has to be read, the answer is `true`, and `take_in`
    /// is to follow.
    pub fn visit(&mut self, files: &ProjectFiles, item: &WalkItem, open: &PathSet) -> (r: bool)
        requires
            old(self)@.report.can_visit(),
        ensures
            final(self).spec_mode() == old(self).spec_mode(),
            final(self)@ == visited(old(self)@, *item),
            r == due(files@, *item, open@.dom(), old(self).spec_mode()),
    {
        match item {
            WalkItem::Error => {
                self.report.walk_errors = self.report.walk_errors + 1;
                false
            },
            WalkItem::NotFile => false,
            WalkItem::NotUtf8 => {
                self.report.skipped_non_utf8 = self.report.skipped_non_utf8 + 1;
                false
            },
            WalkItem::File(file) => {
                self.report.walked = self.report.walked + 1;
                match file.kind {
                    FileKind::Script => {
                        let _ = self.scripts.insert(file.path.clone(), ());
                    },
                    FileKind::Scene => {
                        let _ = self.scenes.insert(file.path.clone(), ());
                    },
                    FileKind::Asset => {
                        let _ = self.assets.insert(file.path.clone(), ());
                    },
                }
                proof {
                    assert(self@ =~= visited(old(self)@, *item));
                }
                if file.kind == FileKind::Script && open.contains_key(file.path.as_str()) {
                    return false;
                }
                if self.mode == ReconcileMode::DiscoverOnly && files.stat_of(
                    file.path.as_str(),
                ).is_some() {
                    return false;
                }
                is_stat_changed(files, file.path.as_str(), file.stat)
            },
        }
    }

    /// Take in a file that was read.
    pub fn take_in(&mut self, files: &mut ProjectFiles, file: &WalkedFile, probe: &FileProbe)
        requires
            old(self)@.report.can_take_in(),
        ensures
            final(self).spec_mode() == old(self).spec_mode(),
            final(files)@ == taken_in(old(files)@, *file, *probe),
            final(self)@ == (WalkView {
                report: counted(old(self)@.report, old(files)@, *file, *probe),
                ..old(self)@
            }),
    {
        let path: &str = file.path.as_str();
        let res: Option<&str> = match &probe.res {
            Some(res) => Some(res.as_str()),
            None => None,
        };
        match file.kind {
            FileKind::Script => match probe.read {
                FileRead::Text(interface) => {
                    let is_added: bool = files.interface_of(path).is_none();
                    files.set_script(path, interface);
                    files.update_stat(path, file.stat);
                    if is_added {
                        self.report.added = self.report.added + 1;
                    } else {
                        self.report.modified = self.report.modified + 1;
                    }
                },
                _ => {
                    self.report.skipped_unreadable = self.report.skipped_unreadable + 1;
                },
            },
            FileKind::Scene => {
                files.reindex_scene(path, res, probe.read, probe.stat_now);
            },
            FileKind::Asset => {
                files.reindex_asset(path, res, probe.stat_now);
            },
        }
    }

    /// End the walk: what it did not come to is dropped, unless the walk was incomplete. The
    /// scripts that were dropped are counted.
    pub fn finish(self, files: &mut ProjectFiles, open: &PathSet) -> (r: ReconciliationReport)
        requires
            self@.report.removed == 0,
        ensures
            final(files)@ == settled(old(files)@, self@, open@.dom()),
            authoritative(self@.report) ==> r == (ReconciliationReport {
                removed: gone_scripts(old(files)@, self@.scripts, open@.dom()).len() as usize,
                ..self@.report
            }) && gone_scripts(old(files)@, self@.scripts, open@.dom()).len() <= usize::MAX,
            !authoritative(self@.report) ==> r == self@.report,
    {
        let mut report: ReconciliationReport = self.report;
        if report.walk_errors > 0 || report.skipped_non_utf8 > 0 {
            return report;
        }
        report.removed = files.drop_unwalked(&self.scripts, &self.scenes, &self.assets, open);
        report
    }
}

/// Reconcile the files of a project with a walk of its tree, for which each file that might have to
/// be read was.
pub fn reconcile(
    files: &mut ProjectFiles,
    items: &Vec<(WalkItem, FileProbe)>,
    open: &PathSet,
    mode: ReconcileMode,
) -> (r: ReconciliationReport)
    ensures
        ({
            let after = walked_all(old(files)@, items@, open@.dom(), mode);
            &&& final(files)@ == settled(after.0, after.1, open@.dom())
            &&& authoritative(after.1.report) ==> r == (ReconciliationReport {
                removed: gone_scripts(after.0, after.1.scripts, open@.dom()).len() as usize,
                ..after.1.report
            }) && gone_scripts(after.0, after.1.scripts, open@.dom()).len() <= usize::MAX
            &&& !authoritative(after.1.report) ==> r == after.1.report
        }),
{
    let ghost start = files@;
    let mut walk = Reconciliation::start(mode);
    let mut i: usize = 0;
    proof {
        assert(items@.take(0) =~= Seq::<(WalkItem, FileProbe)>::empty());
    }
    while i < items.len()
        invariant
            0 <= i <= items@.len(),
            walk.spec_mode() == mode,
            (files@, walk@) == walked_all(start, items@.take(i as int), open@.dom(), mode),
            walk@.report.removed == 0,
            walk@.report.added + walk@.report.modified + walk@.report.skipped_unreadable <= i,
            walk@.report.walked <= i,
            walk@.report.walk_errors <= i,
            walk@.report.skipped_non_utf8 <= i,
        decreases items@.len() - i,
    {
        let ghost files_before = files@;
        let ghost walk_before = walk@;
        proof {
            assert(items@.take(i as int + 1).drop_last() =~= items@.take(i as int));
            assert(items@.take(i as int + 1).last() == items@[i as int]);
        }
        let item = &items[i].0;
        let probe = &items[i].1;
        let read: bool = walk.visit(files, item, open);
        if read {
            if let WalkItem::File(file) = item {
                walk.take_in(files, file, probe);
            }
        }
        proof {
            let next = stepped(
                files_before,
                walk_before,
                items@[i as int].0,
                items@[i as int].1,
                open@.dom(),
                mode,
            );
            assert(files@ == next.0);
            assert(walk@ =~= next.1);
        }
        i = i + 1;
    }
    proof {
        assert(items@.take(i as int) =~= items@);
    }
    walk.finish(files, open)
}

// ---------------------------------------------------------------------------
// Laws of reconciliation.
// ---------------------------------------------------------------------------

/// A script that is open in an editor keeps its interface, whatever the disk holds: it is neither
/// read anew nor dropped.
pub proof fn lemma_open_script_untouched(
    files: FilesView,
    items: Seq<(WalkItem, FileProbe)>,
    open: Set<Seq<char>>,
    mode: ReconcileMode,
    path: Seq<char>,
)
    requires
        open.contains(path),
    ensures
        ({
            let after = walked_all(files, items, open, mode);
            let end = settled(after.0, after.1, open);
            &&& end.index.dom().contains(path) == files.index.dom().contains(path)
            &&& files.index.dom().contains(path) ==> end.index[path] == files.index[path]
        }),
{
    lemma_open_walked(files, items, open, mode, path);
}

proof fn lemma_open_walked(
    files: FilesView,
    items: Seq<(WalkItem, FileProbe)>,
    open: Set<Seq<char>>,
    mode: ReconcileMode,
    path: Seq<char>,
)
    requires
        open.contains(path),
    ensures
        ({
            let after = walked_all(files, items, open, mode).0;
            &&& after.index.dom().contains(path) == files.index.dom().contains(path)
            &&& files.index.dom().contains(path) ==> after.index[path] == files.index[path]
        }),
    decreases items.len(),
{
    if items.len() > 0 {
        lemma_open_walked(files, items.drop_last(), open, mode, path);
    }
}

/// A walk that met an error, or a path that is not UTF-8, drops nothing.
pub proof fn lemma_incomplete_walk_drops_nothing(
    files: FilesView,
    walk: WalkView,
    open: Set<Seq<char>>,
)
    requires
        walk.report.walk_errors > 0 || walk.report.skipped_non_utf8 > 0,
    ensures
        settled(files, walk, open) == files,
{
}

/// After a complete walk every indexed script was on disk, or is open.
pub proof fn lemma_complete_walk_is_exact(files: FilesView, walk: WalkView, open: Set<Seq<char>>)
    requires
        authoritative(walk.report),
    ensures
        forall|path: Seq<char>| #[trigger]
            settled(files, walk, open).index.dom().contains(path) ==> walk.scripts.contains(path)
                || open.contains(path),
{
}

/// In discovery a file that is known is left as it is, whatever its kind.
pub proof fn lemma_discovery_passes_known(
    files: FilesView,
    walk: WalkView,
    file: WalkedFile,
    probe: FileProbe,
    open: Set<Seq<char>>,
)
    requires
        files.stats.dom().contains(file.path@),
    ensures
        stepped(
            files,
            walk,
            WalkItem::File(file),
            probe,
            open,
            ReconcileMode::DiscoverOnly,
        ).0 == files,
{
}

/// The path of the item at an index, where it is a file.
pub open spec fn path_at(items: Seq<(WalkItem, FileProbe)>, i: int) -> Option<Seq<char>> {
    match items[i].0 {
        WalkItem::File(file) => Some(file.path@),
        _ => None,
    }
}

/// A walk comes to no path twice.
pub open spec fn distinct_paths(items: Seq<(WalkItem, FileProbe)>) -> bool {
    forall|i: int, j: int|
        #![trigger path_at(items, i), path_at(items, j)]
        0 <= i < j < items.len() && path_at(items, i) is Some ==> path_at(items, i) != path_at(
            items,
            j,
        )
}

/// Whether a path that the walk comes to is of the given kind there.
pub open spec fn walked_as(
    items: Seq<(WalkItem, FileProbe)>,
    path: Seq<char>,
    kind: FileKind,
) -> bool {
    forall|i: int|
        0 <= i < items.len() && #[trigger] path_at(items, i) == Some(path) ==> items[i].0->File_0.kind
            == kind
}

/// What is indexed as a script, a scene or an asset is that on disk too.
pub open spec fn kinds_agree(files: FilesView, items: Seq<(WalkItem, FileProbe)>) -> bool {
    &&& forall|path: Seq<char>| #[trigger]
        files.index.dom().contains(path) ==> walked_as(items, path, FileKind::Script)
    &&& forall|res: Seq<char>| #[trigger]
        files.scenes.dom().contains(res) && files.scenes[res].path is Some ==> walked_as(
            items,
            files.scenes[res].path->0,
            FileKind::Scene,
        )
    &&& forall|res: Seq<char>| #[trigger]
        files.assets.dom().contains(res) && files.assets[res] is Some ==> walked_as(
            items,
            files.assets[res]->0,
            FileKind::Asset,
        )
}

/// The resource path of the item at an index, where it is a file of the given kind.
pub open spec fn res_at(
    items: Seq<(WalkItem, FileProbe)>,
    i: int,
    kind: FileKind,
) -> Option<Seq<char>> {
    match items[i].0 {
        WalkItem::File(file) => if file.kind == kind {
            text::opt_string(items[i].1.res)
        } else {
            None
        },
        _ => None,
    }
}

/// No two scenes of a walk have one resource path, and no two assets.
pub open spec fn distinct_resources(items: Seq<(WalkItem, FileProbe)>) -> bool {
    forall|i: int, j: int, kind: FileKind|
        #![trigger res_at(items, i, kind), res_at(items, j, kind)]
        0 <= i < j < items.len() && res_at(items, i, kind) is Some ==> res_at(items, i, kind)
            != res_at(items, j, kind)
}

/// Whether each script whose text is taken in has a stat. Without one it is read every time.
pub open spec fn scripts_have_stats(
    items: Seq<(WalkItem, FileProbe)>,
    open: Set<Seq<char>>,
) -> bool {
    forall|i: int|
        0 <= i < items.len() ==> ((#[trigger] items[i]).0 matches WalkItem::File(file) ==> file.kind
            == FileKind::Script && !open.contains(file.path@) && items[i].1.read is Text
            ==> file.stat is Some)
}

/// Whether an item is done with: its file is not due, or taking it in once more changes nothing and
/// counts nothing as added or modified.
spec fn done_with(
    files: FilesView,
    item: WalkItem,
    probe: FileProbe,
    open: Set<Seq<char>>,
    mode: ReconcileMode,
) -> bool {
    due(files, item, open, mode) ==> {
        let file = item->File_0;
        let path = file.path@;
        match file.kind {
            FileKind::Script => !(probe.read is Text),
            FileKind::Scene => match text::opt_string(probe.res) {
                None => true,
                Some(res) => match probe.read {
                    FileRead::Text(parse) => {
                        &&& files.scenes.dom().contains(res)
                        &&& files.scenes[res] == SceneView { path: Some(path), parse }
                        &&& has_stat(files, path, probe.stat_now)
                    },
                    FileRead::NotFound => {
                        &&& !files.scenes.dom().contains(res)
                        &&& has_stat(files, path, None)
                    },
                    FileRead::Unreadable => true,
                },
            },
            FileKind::Asset => match text::opt_string(probe.res) {
                None => true,
                Some(res) => {
                    &&& files.assets.dom().contains(res)
                    &&& files.assets[res] == Some(path)
                    &&& has_stat(files, path, probe.stat_now)
                },
            },
        }
    }
}

/// Whether a stat is what is known of a file.
spec fn has_stat(files: FilesView, path: Seq<char>, stat: Option<FileStat>) -> bool {
    match stat {
        Some(stat) => files.stats.dom().contains(path) && files.stats[path] == stat,
        None => !files.stats.dom().contains(path),
    }
}

proof fn lemma_done_with_stays(
    files: FilesView,
    item: WalkItem,
    probe: FileProbe,
    open: Set<Seq<char>>,
    mode: ReconcileMode,
)
    requires
        done_with(files, item, probe, open, mode),
        due(files, item, open, mode),
    ensures
        taken_in(files, item->File_0, probe) == files,
{
    let after = taken_in(files, item->File_0, probe);
    assert(after.index =~= files.index);
    assert(after.scenes =~= files.scenes);
    assert(after.assets =~= files.assets);
    assert(after.stats =~= files.stats);
}

proof fn lemma_walk_done(
    files: FilesView,
    items: Seq<(WalkItem, FileProbe)>,
    open: Set<Seq<char>>,
    mode: ReconcileMode,
    n: int,
)
    requires
        0 <= n <= items.len(),
        distinct_paths(items),
        distinct_resources(items),
        kinds_agree(files, items),
        scripts_have_stats(items, open),
    ensures
        ({
            let after = walked_all(files, items.take(n), open, mode);
            &&& kinds_agree(after.0, items)
            &&& forall|i: int|
                0 <= i < n ==> done_with(
                    after.0,
                    (#[trigger] items[i]).0,
                    items[i].1,
                    open,
                    mode,
                )
            &&& forall|i: int|
                0 <= i < n ==> (#[trigger] path_at(items, i) matches Some(path) ==> (
                match items[i].0->File_0.kind {
                    FileKind::Script => after.1.scripts.contains(path),
                    FileKind::Scene => after.1.scenes.contains(path),
                    FileKind::Asset => after.1.assets.contains(path),
                }))
        }),
    decreases n,
{
    if n == 0 {
        assert(items.take(0) =~= Seq::<(WalkItem, FileProbe)>::empty());
    } else {
        lemma_walk_done(files, items, open, mode, n - 1);
        let before = walked_all(files, items.take(n - 1), open, mode);
        let after = walked_all(files, items.take(n), open, mode);
        assert(items.take(n).drop_last() =~= items.take(n - 1));
        assert(items.take(n).last() == items[n - 1]);
        let item = items[n - 1].0;
        let probe = items[n - 1].1;
        assert(done_with(after.0, item, probe, open, mode)) by {
            assert(item matches WalkItem::File(file) ==> file.kind == FileKind::Script
                && !open.contains(file.path@) && probe.read is Text ==> file.stat is Some);
        }
        assert forall|i: int| 0 <= i < n implies done_with(
            after.0,
            (#[trigger] items[i]).0,
            items[i].1,
            open,
            mode,
        ) by {
            if i < n - 1 {
                lemma_done_with_kept(before.0, items, open, mode, i, n - 1);
            }
        }
        lemma_kinds_kept(before.0, items, open, mode, n - 1);
        assert forall|i: int| 0 <= i < n implies (#[trigger] path_at(items, i) matches Some(path)
            ==> (match items[i].0->File_0.kind {
            FileKind::Script => after.1.scripts.contains(path),
            FileKind::Scene => after.1.scenes.contains(path),
            FileKind::Asset => after.1.assets.contains(path),
        })) by {
            if i < n - 1 {
                let seen = path_at(items, i);
            }
        }
    }
}

/// An item that is done with stays so when another one is seen.
proof fn lemma_done_with_kept(
    files: FilesView,
    items: Seq<(WalkItem, FileProbe)>,
    open: Set<Seq<char>>,
    mode: ReconcileMode,
    i: int,
    j: int,
)
    requires
        0 <= i < j < items.len(),
        distinct_paths(items),
        distinct_resources(items),
        done_with(files, items[i].0, items[i].1, open, mode),
    ensures
        done_with(
            stepped(files, walk_start(), items[j].0, items[j].1, open, mode).0,
            items[i].0,
            items[i].1,
            open,
            mode,
        ),
{
    if due(files, items[j].0, open, mode) {
        match items[i].0 {
            WalkItem::File(file) => {
                let other = items[j].0->File_0;
                assert(path_at(items, i) != path_at(items, j));
                assert(file.path@ != other.path@);
                let kind = file.kind;
                assert(res_at(items, i, kind) is Some ==> res_at(items, i, kind) != res_at(
                    items,
                    j,
                    kind,
                ));
                assert(res_at(items, i, kind) == text::opt_string(items[i].1.res));
            },
            _ => {},
        }
    }
}

/// Seeing an item keeps what is indexed in agreement with the disk.
proof fn lemma_kinds_kept(
    files: FilesView,
    items: Seq<(WalkItem, FileProbe)>,
    open: Set<Seq<char>>,
    mode: ReconcileMode,
    i: int,
)
    requires
        0 <= i < items.len(),
        distinct_paths(items),
        kinds_agree(files, items),
    ensures
        kinds_agree(stepped(files, walk_start(), items[i].0, items[i].1, open, mode).0, items),
{
    let after = stepped(files, walk_start(), items[i].0, items[i].1, open, mode).0;
    if due(files, items[i].0, open, mode) {
        let file = items[i].0->File_0;
        let here = file.path@;
        assert(path_at(items, i) == Some(here));
        assert(walked_as(items, here, file.kind)) by {
            assert forall|k: int|
                0 <= k < items.len() && #[trigger] path_at(items, k) == Some(here) implies items[k].0
                ->File_0.kind == file.kind by {
                if k < i {
                    assert(path_at(items, k) != path_at(items, i));
                } else if k > i {
                    assert(path_at(items, i) != path_at(items, k));
                }
            }
        }
        assert forall|path: Seq<char>| #[trigger] after.index.dom().contains(path) implies walked_as(
            items,
            path,
            FileKind::Script,
        ) by {
            if !files.index.dom().contains(path) {
                assert(path == here);
            }
        }
        assert forall|res: Seq<char>| #[trigger]
            after.scenes.dom().contains(res) && after.scenes[res].path is Some implies walked_as(
            items,
            after.scenes[res].path->0,
            FileKind::Scene,
        ) by {
            if files.scenes.dom().contains(res) && files.scenes[res] == after.scenes[res] {
                assert(files.scenes.dom().contains(res));
            } else {
                assert(after.scenes[res].path == Some(here));
            }
        }
        assert forall|res: Seq<char>| #[trigger]
            after.assets.dom().contains(res) && after.assets[res] is Some implies walked_as(
            items,
            after.assets[res]->0,
            FileKind::Asset,
        ) by {
            if files.assets.dom().contains(res) && files.assets[res] == after.assets[res] {
                assert(files.assets.dom().contains(res));
            } else {
                assert(after.assets[res] == Some(here));
            }
        }
    }
}

/// What a walk came to, and how complete it was, depends on the walk alone.
proof fn lemma_walk_sets(
    a: FilesView,
    b: FilesView,
    items: Seq<(WalkItem, FileProbe)>,
    open: Set<Seq<char>>,
    mode: ReconcileMode,
)
    ensures
        ({
            let one = walked_all(a, items, open, mode).1;
            let two = walked_all(b, items, open, mode).1;
            &&& one.scripts == two.scripts
            &&& one.scenes == two.scenes
            &&& one.assets == two.assets
            &&& one.report.walked == two.report.walked
            &&& one.report.walk_errors == two.report.walk_errors
            &&& one.report.skipped_non_utf8 == two.report.skipped_non_utf8
        }),
    decreases items.len(),
{
    if items.len() > 0 {
        lemma_walk_sets(a, b, items.drop_last(), open, mode);
    }
}

/// A walk over files that are all done with changes nothing.
proof fn lemma_idle_walk(
    files: FilesView,
    items: Seq<(WalkItem, FileProbe)>,
    open: Set<Seq<char>>,
    mode: ReconcileMode,
    n: int,
)
    requires
        0 <= n <= items.len(),
        forall|i: int|
            0 <= i < items.len() ==> done_with(
                files,
                (#[trigger] items[i]).0,
                items[i].1,
                open,
                mode,
            ),
    ensures
        ({
            let after = walked_all(files, items.take(n), open, mode);
            &&& after.0 == files
            &&& after.1.report.added == 0
            &&& after.1.report.modified == 0
        }),
    decreases n,
{
    if n == 0 {
        assert(items.take(0) =~= Seq::<(WalkItem, FileProbe)>::empty());
    } else {
        lemma_idle_walk(files, items, open, mode, n - 1);
        assert(items.take(n).drop_last() =~= items.take(n - 1));
        assert(items.take(n).last() == items[n - 1]);
        let item = items[n - 1].0;
        let probe = items[n - 1].1;
        assert(done_with(files, item, probe, open, mode));
        if due(files, item, open, mode) {
            lemma_done_with_stays(files, item, probe, open, mode);
        }
    }
}

/// Dropping what a walk did not come to leaves alone what it is done with.
proof fn lemma_done_with_settled(
    files: FilesView,
    walk: WalkView,
    items: Seq<(WalkItem, FileProbe)>,
    open: Set<Seq<char>>,
    mode: ReconcileMode,
    i: int,
)
    requires
        0 <= i < items.len(),
        kinds_agree(files, items),
        done_with(files, items[i].0, items[i].1, open, mode),
        path_at(items, i) matches Some(path) ==> (match items[i].0->File_0.kind {
            FileKind::Script => walk.scripts.contains(path),
            FileKind::Scene => walk.scenes.contains(path),
            FileKind::Asset => walk.assets.contains(path),
        }),
    ensures
        done_with(settled(files, walk, open), items[i].0, items[i].1, open, mode),
{
    let once = settled(files, walk, open);
    let no_scripts = gone_scripts(files, walk.scripts, open);
    let no_scenes = gone_resources(scene_paths(files.scenes), walk.scenes, open);
    let no_assets = gone_resources(files.assets, walk.assets, Set::empty());
    match items[i].0 {
        WalkItem::File(file) => {
            let path = file.path@;
            assert(path_at(items, i) == Some(path));
            if no_scripts.contains(path) {
                assert(files.index.dom().contains(path));
                assert(walked_as(items, path, FileKind::Script));
            }
            if paths_of(scene_paths(files.scenes), no_scenes).contains(path) {
                let res = choose|res: Seq<char>| #[trigger]
                    no_scenes.contains(res) && scene_paths(files.scenes)[res] == Some(path);
                assert(files.scenes.dom().contains(res));
                assert(files.scenes[res].path == Some(path));
                assert(walked_as(items, path, FileKind::Scene));
            }
            if paths_of(files.assets, no_assets).contains(path) {
                let res = choose|res: Seq<char>| #[trigger]
                    no_assets.contains(res) && files.assets[res] == Some(path);
                assert(files.assets.dom().contains(res));
                assert(walked_as(items, path, FileKind::Asset));
            }
            assert(once.stats.dom().contains(path) == files.stats.dom().contains(path));
            assert(files.stats.dom().contains(path) ==> once.stats[path] == files.stats[path]);
        },
        _ => {},
    }
}

/// Reconciling twice with the same tree does what doing it once does: the second time no file is
/// added, modified or removed, and nothing that is known changes, whether or not a file could be
/// read or the walk was complete. Only a script that is taken in without a stat is taken in again.
pub proof fn lemma_reconcile_idempotent(
    files: FilesView,
    items: Seq<(WalkItem, FileProbe)>,
    open: Set<Seq<char>>,
    mode: ReconcileMode,
)
    requires
        distinct_paths(items),
        distinct_resources(items),
        kinds_agree(files, items),
        scripts_have_stats(items, open),
    ensures
        ({
            let first = walked_all(files, items, open, mode);
            let once = settled(first.0, first.1, open);
            let second = walked_all(once, items, open, mode);
            &&& settled(second.0, second.1, open) == once
            &&& second.1.report.added == 0
            &&& second.1.report.modified == 0
            &&& authoritative(second.1.report) ==> gone_scripts(
                second.0,
                second.1.scripts,
                open,
            ).is_empty()
            &&& second.1.report.walked == first.1.report.walked
            &&& authoritative(second.1.report) == authoritative(first.1.report)
        }),
{
    let first = walked_all(files, items, open, mode);
    assert(items.take(items.len() as int) =~= items);
    lemma_walk_done(files, items, open, mode, items.len() as int);
    let once = settled(first.0, first.1, open);
    assert forall|i: int| 0 <= i < items.len() implies done_with(
        once,
        (#[trigger] items[i]).0,
        items[i].1,
        open,
        mode,
    ) by {
        let seen = path_at(items, i);
        lemma_done_with_settled(first.0, first.1, items, open, mode, i);
    }
    lemma_idle_walk(once, items, open, mode, items.len() as int);
    lemma_walk_sets(files, once, items, open, mode);
    let second = walked_all(once, items, open, mode);
    assert(second.0 == once);
    if authoritative(first.1.report) {
        let no_scenes = gone_resources(scene_paths(first.0.scenes), first.1.scenes, open);
        let no_assets = gone_resources(first.0.assets, first.1.assets, Set::empty());
        assert(gone_scripts(once, second.1.scripts, open) =~= Set::<Seq<char>>::empty());
        let left_scenes = gone_resources(scene_paths(once.scenes), second.1.scenes, open);
        let left_assets = gone_resources(once.assets, second.1.assets, Set::empty());
        assert(left_scenes =~= Set::<Seq<char>>::empty()) by {
            assert forall|res: Seq<char>| !left_scenes.contains(res) by {
                if left_scenes.contains(res) {
                    assert(no_scenes.contains(res));
                }
            }
        }
        assert(left_assets =~= Set::<Seq<char>>::empty()) by {
            assert forall|res: Seq<char>| !left_assets.contains(res) by {
                if left_assets.contains(res) {
                    assert(no_assets.contains(res));
                }
            }
        }
        assert(paths_of(scene_paths(once.scenes), left_scenes) =~= Set::<Seq<char>>::empty());
        assert(paths_of(once.assets, left_assets) =~= Set::<Seq<char>>::empty());
        let end = settled(second.0, second.1, open);
        assert(end.index =~= once.index);
        assert(end.scenes =~= once.scenes);
        assert(end.assets =~= once.assets);
        assert(end.stats =~= once.stats);
    }
}

proof fn lemma_discovery_walk(
    files: FilesView,
    items: Seq<(WalkItem, FileProbe)>,
    open: Set<Seq<char>>,
    res: Seq<char>,
    i: int,
    n: int,
)
    requires
        0 <= i < items.len(),
        0 <= n <= items.len(),
        distinct_paths(items),
        distinct_resources(items),
        kinds_agree(files, items),
        res_at(items, i, FileKind::Scene) == Some(res),
        files.scenes.dom().contains(res),
        files.stats.dom().contains(path_at(items, i)->0),
    ensures
        ({
            let path = path_at(items, i)->0;
            let after = walked_all(files, items.take(n), open, ReconcileMode::DiscoverOnly);
            &&& kinds_agree(after.0, items)
            &&& after.0.stats.dom().contains(path) && after.0.stats[path] == files.stats[path]
            &&& after.0.scenes.dom().contains(res) && after.0.scenes[res] == files.scenes[res]
            &&& i < n ==> after.1.scenes.contains(path)
        }),
    decreases n,
{
    if n == 0 {
        assert(items.take(0) =~= Seq::<(WalkItem, FileProbe)>::empty());
    } else {
        let mode = ReconcileMode::DiscoverOnly;
        lemma_discovery_walk(files, items, open, res, i, n - 1);
        let before = walked_all(files, items.take(n - 1), open, mode);
        assert(items.take(n).drop_last() =~= items.take(n - 1));
        assert(items.take(n).last() == items[n - 1]);
        lemma_kinds_kept(before.0, items, open, mode, n - 1);
        let here = path_at(items, i);
        let there = path_at(items, n - 1);
        let this = res_at(items, i, FileKind::Scene);
        let that = res_at(items, n - 1, FileKind::Scene);
        assert(i != n - 1 ==> here != there && this != that);
    }
}

/// In discovery a scene that is known and still there keeps its entry and its stat to the end,
/// whatever else the walk comes to.
pub proof fn lemma_discovery_keeps_known_scene(
    files: FilesView,
    items: Seq<(WalkItem, FileProbe)>,
    open: Set<Seq<char>>,
    res: Seq<char>,
    i: int,
)
    requires
        0 <= i < items.len(),
        distinct_paths(items),
        distinct_resources(items),
        kinds_agree(files, items),
        res_at(items, i, FileKind::Scene) == Some(res),
        files.scenes.dom().contains(res),
        files.scenes[res].path == path_at(items, i),
        files.stats.dom().contains(path_at(items, i)->0),
    ensures
        ({
            let path = path_at(items, i)->0;
            let after = walked_all(files, items, open, ReconcileMode::DiscoverOnly);
            let end = settled(after.0, after.1, open);
            &&& end.scenes.dom().contains(res) && end.scenes[res] == files.scenes[res]
            &&& end.stats.dom().contains(path) && end.stats[path] == files.stats[path]
        }),
{
    let after = walked_all(files, items, open, ReconcileMode::DiscoverOnly);
    let path = path_at(items, i)->0;
    assert(path_at(items, i) == Some(path));
    assert(items[i].0->File_0.kind == FileKind::Scene);
    assert(items.take(items.len() as int) =~= items);
    lemma_discovery_walk(files, items, open, res, i, items.len() as int);
    let no_scripts = gone_scripts(after.0, after.1.scripts, open);
    let no_scenes = gone_resources(scene_paths(after.0.scenes), after.1.scenes, open);
    let no_assets = gone_resources(after.0.assets, after.1.assets, Set::empty());
    if no_scripts.contains(path) {
        assert(after.0.index.dom().contains(path));
        assert(walked_as(items, path, FileKind::Script));
    }
    if paths_of(scene_paths(after.0.scenes), no_scenes).contains(path) {
        let other = choose|other: Seq<char>| #[trigger]
            no_scenes.contains(other) && scene_paths(after.0.scenes)[other] == Some(path);
        assert(after.1.scenes.contains(path));
    }
    if paths_of(after.0.assets, no_assets).contains(path) {
        let other = choose|other: Seq<char>| #[trigger]
            no_assets.contains(other) && after.0.assets[other] == Some(path);
        assert(after.0.assets.dom().contains(other));
        assert(walked_as(items, path, FileKind::Asset));
    }
    assert(!no_scenes.contains(res));
}

/// What a walk counts: each file, each entry that could not be read and each path that is not UTF-8,
/// once, and of files to which kind they belong. A directory is passed over.
pub proof fn lemma_what_a_walk_counts(walk: WalkView, item: WalkItem)
    requires
        walk.report.can_visit(),
    ensures
        ({
            let after = visited(walk, item);
            &&& item is NotFile ==> after == walk
            &&& item is Error ==> after.report.walk_errors == walk.report.walk_errors + 1
            &&& !(item is Error) ==> after.report.walk_errors == walk.report.walk_errors
            &&& item is NotUtf8 ==> after.report.skipped_non_utf8 == walk.report.skipped_non_utf8
                + 1
            &&& !(item is NotUtf8) ==> after.report.skipped_non_utf8
                == walk.report.skipped_non_utf8
            &&& item is File ==> after.report.walked == walk.report.walked + 1
            &&& !(item is File) ==> after.report.walked == walk.report.walked && after.scripts
                == walk.scripts && after.scenes == walk.scenes && after.assets == walk.assets
            &&& item matches WalkItem::File(file) ==> {
                &&& after.scripts == (if file.kind is Script {
                    walk.scripts.insert(file.path@)
                } else {
                    walk.scripts
                })
                &&& after.scenes == (if file.kind is Scene {
                    walk.scenes.insert(file.path@)
                } else {
                    walk.scenes
                })
                &&& after.assets == (if file.kind is Asset {
                    walk.assets.insert(file.path@)
                } else {
                    walk.assets
                })
            }
            &&& after.report.added == walk.report.added && after.report.modified
                == walk.report.modified
        }),
{
}

/// A file is read exactly where it is new or its size or time is another than what is known, or
/// cannot be told. An open script is never read, and in discovery no file that is known is.
pub proof fn lemma_what_a_walk_reads(
    files: FilesView,
    item: WalkItem,
    open: Set<Seq<char>>,
    mode: ReconcileMode,
)
    ensures
        due(files, item, open, mode) ==> item is File,
        item matches WalkItem::File(file) ==> {
            let known = files.stats.dom().contains(file.path@);
            let same = known && (file.stat matches Some(stat) && stat.size
                == files.stats[file.path@].size && stat.mtime_ns
                == files.stats[file.path@].mtime_ns);
            &&& file.kind is Script && open.contains(file.path@) ==> !due(files, item, open, mode)
            &&& mode is DiscoverOnly && known ==> !due(files, item, open, mode)
            &&& same ==> !due(files, item, open, mode)
            &&& !same && !(mode is DiscoverOnly && known) && !(file.kind is Script
                && open.contains(file.path@)) ==> due(files, item, open, mode)
        },
{
}

/// A script that a walk read is known by what it declares, and with the stat that the walk saw; it
/// counts as added where it was not known and as modified where it was. One that cannot be read
/// counts as such, and what is known of it stays.
pub proof fn lemma_script_that_was_read(
    files: FilesView,
    report: ReconciliationReport,
    file: WalkedFile,
    probe: FileProbe,
)
    requires
        file.kind is Script,
        report.can_take_in(),
    ensures
        ({
            let after = taken_in(files, file, probe);
            let counts = counted(report, files, file, probe);
            let known = files.index.dom().contains(file.path@);
            &&& probe.read matches FileRead::Text(interface) ==> {
                &&& after.index == files.index.insert(file.path@, interface)
                &&& file.stat matches Some(stat) ==> after.stats == files.stats.insert(
                    file.path@,
                    stat,
                )
                &&& counts.added == report.added + (if known {
                    0int
                } else {
                    1int
                })
                &&& counts.modified == report.modified + (if known {
                    1int
                } else {
                    0int
                })
                &&& counts.skipped_unreadable == report.skipped_unreadable
            }
            &&& !(probe.read is Text) ==> after == files && counts.skipped_unreadable
                == report.skipped_unreadable + 1 && counts.added == report.added && counts.modified
                == report.modified
            &&& after.scenes == files.scenes && after.assets == files.assets
        }),
{
}

/// A scene that a walk read is known by what was read of it, an asset by its path; neither is
/// counted among the scripts.
pub proof fn lemma_resource_that_was_read(
    files: FilesView,
    report: ReconciliationReport,
    file: WalkedFile,
    probe: FileProbe,
    res: String,
)
    requires
        !(file.kind is Script),
        probe.res == Some(res),
    ensures
        ({
            let after = taken_in(files, file, probe);
            &&& counted(report, files, file, probe) == report
            &&& file.kind is Scene ==> (probe.read matches FileRead::Text(parse) ==> after.scenes
                == files.scenes.insert(res@, SceneView { path: Some(file.path@), parse }))
            &&& file.kind is Scene && probe.read is NotFound ==> after.scenes
                == files.scenes.remove(res@)
            &&& file.kind is Scene && probe.read is Unreadable ==> after == files
            &&& file.kind is Asset ==> after.assets == files.assets.insert(
                res@,
                Some(file.path@),
            ) && after.scenes == files.scenes
            &&& file.kind is Scene ==> after.assets == files.assets
            &&& after.index == files.index
        }),
{
}

/// A walk takes its items one after the other: each is counted, and read where it has to be.
pub proof fn lemma_walk_item_by_item(
    files: FilesView,
    items: Seq<(WalkItem, FileProbe)>,
    next: (WalkItem, FileProbe),
    open: Set<Seq<char>>,
    mode: ReconcileMode,
)
    ensures
        ({
            let before = walked_all(files, items, open, mode);
            let after = walked_all(files, items.push(next), open, mode);
            let seen = visited(before.1, next.0);
            &&& due(before.0, next.0, open, mode) ==> (next.0 matches WalkItem::File(file)
                && after.0 == taken_in(before.0, file, next.1) && after.1.report == counted(
                seen.report,
                before.0,
                file,
                next.1,
            ))
            &&& !due(before.0, next.0, open, mode) ==> after == (before.0, seen)
            &&& after.1.scripts == seen.scripts && after.1.scenes == seen.scenes
                && after.1.assets == seen.assets
        }),
        walked_all(files, Seq::empty(), open, mode).0 == files,
        walked_all(files, Seq::empty(), open, mode).1.report == (ReconciliationReport {
            added: 0,
            modified: 0,
            removed: 0,
            walked: 0,
            walk_errors: 0,
            skipped_unreadable: 0,
            skipped_non_utf8: 0,
        }),
        walked_all(files, Seq::empty(), open, mode).1.scripts == Set::<Seq<char>>::empty(),
{
    assert(items.push(next).drop_last() =~= items);
}

/// What a complete walk leaves: a script stays exactly where the walk came to it or it is open; a
/// scene where it stands for a file that the walk came to or that is open; an asset where it stands
/// for a file that the walk came to. What stays is as it was, and of a script that goes nothing is
/// known of its file.
pub proof fn lemma_what_a_complete_walk_leaves(
    files: FilesView,
    walk: WalkView,
    open: Set<Seq<char>>,
    name: Seq<char>,
)
    requires
        walk.report.walk_errors == 0,
        walk.report.skipped_non_utf8 == 0,
    ensures
        ({
            let after = settled(files, walk, open);
            &&& files.index.dom().contains(name) ==> {
                &&& after.index.dom().contains(name) <==> walk.scripts.contains(name)
                    || open.contains(name)
                &&& after.index.dom().contains(name) ==> after.index[name] == files.index[name]
                &&& !after.index.dom().contains(name) ==> !after.stats.dom().contains(name)
            }
            &&& files.scenes.dom().contains(name) ==> {
                &&& after.scenes.dom().contains(name) <==> (files.scenes[name].path
                    matches Some(path) && (walk.scenes.contains(path) || open.contains(path)))
                &&& after.scenes.dom().contains(name) ==> after.scenes[name] == files.scenes[name]
            }
            &&& files.assets.dom().contains(name) ==> {
                &&& after.assets.dom().contains(name) <==> (files.assets[name] matches Some(path)
                    && walk.assets.contains(path))
                &&& after.assets.dom().contains(name) ==> after.assets[name] == files.assets[name]
            }
            &&& !files.index.dom().contains(name) ==> !after.index.dom().contains(name)
            &&& !files.scenes.dom().contains(name) ==> !after.scenes.dom().contains(name)
            &&& !files.assets.dom().contains(name) ==> !after.assets.dom().contains(name)
        }),
{
}

/// A file that is looked at is known as it was found; where that failed, nothing is known of it. No
/// other file is touched.
pub proof fn lemma_stat_of_a_file(
    stats: Map<Seq<char>, FileStat>,
    path: Seq<char>,
    stat: Option<FileStat>,
    other: Seq<char>,
)
    requires
        other != path,
    ensures
        ({
            let after = with_stat(stats, path, stat);
            &&& stat matches Some(stat) ==> after.dom().contains(path) && after[path] == stat
            &&& stat is None ==> !after.dom().contains(path)
            &&& after.dom().contains(other) == stats.dom().contains(other)
            &&& stats.dom().contains(other) ==> after[other] == stats[other]
        }),
{
}

/// A file with the extension of scripts is one; any other that is no scene is an asset.
pub proof fn lemma_kind_by_extension(extension: Option<Seq<char>>)
    ensures
        kind_by(extension) is Script <==> extension == Some("gd"@),
        kind_by(extension) is Asset <==> extension != Some("gd"@),
{
}

/// Of a scene or an asset that a complete walk drops, nothing is known of its file either; the stats
/// of files that stay are kept.
pub proof fn lemma_stats_after_a_complete_walk(
    files: FilesView,
    walk: WalkView,
    open: Set<Seq<char>>,
    res: Seq<char>,
    path: Seq<char>,
)
    requires
        walk.report.walk_errors == 0,
        walk.report.skipped_non_utf8 == 0,
    ensures
        ({
            let after = settled(files, walk, open);
            &&& files.scenes.dom().contains(res) && files.scenes[res].path == Some(path)
                && !walk.scenes.contains(path) && !open.contains(path)
                ==> !after.stats.dom().contains(path)
            &&& files.assets.dom().contains(res) && files.assets[res] == Some(path)
                && !walk.assets.contains(path) ==> !after.stats.dom().contains(path)
            &&& after.stats.dom().contains(path) ==> files.stats.dom().contains(path)
                && after.stats[path] == files.stats[path]
            &&& files.stats.dom().contains(path) && walk.scripts.contains(path)
                && walk.scenes.contains(path) && walk.assets.contains(path)
                ==> after.stats.dom().contains(path)
        }),
{
    let gone_scenes = gone_resources(scene_paths(files.scenes), walk.scenes, open);
    let gone_assets = gone_resources(files.assets, walk.assets, Set::empty());
    if files.scenes.dom().contains(res) && files.scenes[res].path == Some(path)
        && !walk.scenes.contains(path) && !open.contains(path) {
        assert(gone_scenes.contains(res));
        assert(paths_of(scene_paths(files.scenes), gone_scenes).contains(path));
    }
    if files.assets.dom().contains(res) && files.assets[res] == Some(path)
        && !walk.assets.contains(path) {
        assert(gone_assets.contains(res));
        assert(paths_of(files.assets, gone_assets).contains(path));
    }
}

} // verus!
