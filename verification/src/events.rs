//! What file events do to a workspace.
//!
//! Events come from the watcher and from the client; both take the same way. An open buffer is the
//! truth about its file: nothing that happens on disk changes what is known of an open file. What
//! concerns the project as a whole is done once for a batch, however many events ask for it.

use vstd::prelude::*;
use vstd::string::*;

use crate::files;
use crate::files::{FileRead, FileStat, PathSet};
use crate::lru_cache;
use crate::path;
use crate::path::{normalize_path, path_starts_with};
use crate::text;
use crate::text::same_text;
use crate::text_map;
use crate::uri::{uri_to_path, CanonicalKey, Uri};
use crate::uri;
use crate::watcher;
use crate::watcher::{
    classify_client_event, classify_event, EventKind, EventPath, FileChange, KnownPathView,
    PathFactsView, Reaction, ReactionView,
};
use crate::workspace;
use crate::workspace::{fingerprint, Workspace, WorkspaceView};

verus! {

// ---------------------------------------------------------------------------
// One reaction.
// ---------------------------------------------------------------------------

/// The name of a reaction's kind, for traces. A dropped event is named by the reason.
pub open spec fn kind_name(reaction: ReactionView) -> Seq<char> {
    match reaction {
        ReactionView::Other(reason) => watcher::skip_name(reason),
        ReactionView::GdSource { .. } => "gd_source"@,
        ReactionView::ProjectGodot => "project_godot"@,
        ReactionView::ExtensionApiJson => "extension_api_json"@,
        ReactionView::Gdextension { .. } => "gdextension"@,
        ReactionView::DocClassesXml { .. } => "doc_classes_xml"@,
        ReactionView::Scene { .. } => "scene"@,
        ReactionView::Asset { .. } => "asset"@,
    }
}

/// The name of a reaction's kind, for traces.
pub fn reaction_kind(reaction: &Reaction) -> (r: &'static str)
    ensures
        r@ == kind_name(reaction@),
{
    match reaction {
        Reaction::Other(reason) => reason.as_str(),
        Reaction::GdSource { .. } => "gd_source",
        Reaction::ProjectGodot => "project_godot",
        Reaction::ExtensionApiJson => "extension_api_json",
        Reaction::Gdextension { .. } => "gdextension",
        Reaction::DocClassesXml { .. } => "doc_classes_xml",
        Reaction::Scene { .. } => "scene",
        Reaction::Asset { .. } => "asset",
    }
}

/// The file that a reaction changes what is known of.
pub open spec fn path_of(reaction: ReactionView) -> Option<Seq<char>> {
    match reaction {
        ReactionView::GdSource { path, .. } => Some(path),
        ReactionView::Scene { path, .. } => Some(path),
        ReactionView::Asset { path, .. } => Some(path),
        _ => None,
    }
}

/// The file that a reaction changes what is known of.
pub fn event_path(reaction: &Reaction) -> (r: Option<String>)
    ensures
        text::opt_string(r) == path_of(reaction@),
{
    match reaction {
        Reaction::GdSource { path, .. } => Some(path.clone()),
        Reaction::Scene { path, .. } => Some(path.clone()),
        Reaction::Asset { path, .. } => Some(path.clone()),
        _ => None,
    }
}

/// Whether a path is the root's, or in it, by the normalized forms of both.
pub open spec fn in_project(path: Seq<char>, root: Seq<char>) -> bool {
    path::within(path::normalized(path), path::normalized(root))
}

/// Whether every system compares the normalized forms of a path and a root alike.
pub open spec fn placed(path: Seq<char>, root: Seq<char>) -> bool {
    path::comparable(path::normalized(path), path::normalized(root))
}

/// Whether a path is the root's, or in it. How the two are spelled does not matter.
pub fn path_is_within(path: &str, root: &str) -> (r: bool)
    ensures
        path::reads_within(path::normalized(path@), path::normalized(root@), r),
        placed(path@, root@) ==> r == in_project(path@, root@),
{
    path_starts_with(normalize_path(path).as_str(), normalize_path(root).as_str())
}

/// How reading a script ended: the fingerprint of its text, what it declares, and its stat after the
/// read.
#[derive(Debug, Clone, Copy, PartialEq, Eq, Structural)]
pub enum ScriptRead {
    Text { hash: u64, interface: u64, stat: Option<FileStat> },
    NotFound,
    Unreadable,
}

/// A script that was read, under the fingerprint of its text.
pub fn script_read(text: &str, interface: u64, stat: Option<FileStat>) -> (r: ScriptRead)
    ensures
        r == (ScriptRead::Text { hash: r->hash, interface, stat }),
        exists|machine: nat| r->hash == #[trigger] workspace::text_hash(text@, machine),
{
    ScriptRead::Text { hash: fingerprint(text), interface, stat }
}

/// What was found on disk of the file of a reaction; of a rename, of the new path.
pub struct DiskFacts {
    pub script: ScriptRead,
    /// What reading it as a scene gave.
    pub scene: FileRead,
    pub stat: Option<FileStat>,
    /// The cache keys of the path and of the old path.
    pub key: Option<CanonicalKey>,
    pub from_key: Option<CanonicalKey>,
    /// The resource paths of the path and of the old path.
    pub res: Option<String>,
    pub from_res: Option<String>,
}

/// The text of a key.
pub open spec fn key_text(key: Option<CanonicalKey>) -> Option<Seq<char>> {
    match key {
        Some(key) => Some(key@),
        None => None,
    }
}

/// The workspace after a script was indexed.
pub open spec fn indexed(ws: WorkspaceView, path: Seq<char>, interface: u64) -> WorkspaceView {
    WorkspaceView {
        files: files::FilesView { index: ws.files.index.insert(path, interface), ..ws.files },
        ..ws
    }
}

/// The workspace after a file was looked at.
pub open spec fn looked_at(
    ws: WorkspaceView,
    path: Seq<char>,
    stat: Option<FileStat>,
) -> WorkspaceView {
    WorkspaceView {
        files: files::FilesView {
            stats: files::with_stat(ws.files.stats, path, stat),
            ..ws.files
        },
        ..ws
    }
}

/// The workspace after a script was removed.
pub open spec fn removed(ws: WorkspaceView, path: Seq<char>, key: Option<Seq<char>>) -> WorkspaceView {
    WorkspaceView {
        parses: match key {
            Some(key) => lru_cache::without(ws.parses, key),
            None => ws.parses,
        },
        analyses: match key {
            Some(key) => lru_cache::without(ws.analyses, key),
            None => ws.analyses,
        },
        applied: lru_cache::without(ws.applied, path),
        files: files::FilesView {
            index: ws.files.index.remove(path),
            stats: ws.files.stats.remove(path),
            ..ws.files
        },
        ..ws
    }
}

/// The workspace after a script was read from disk and indexed.
pub open spec fn read_in(
    ws: WorkspaceView,
    path: Seq<char>,
    hash: u64,
    interface: u64,
    stat: Option<FileStat>,
) -> WorkspaceView {
    looked_at(workspace::disk_applied(indexed(ws, path, interface), path, hash), path, stat)
}

/// The workspace after a script on disk was written. A change that was delivered before is not
/// applied again. One that is gone is removed; one that cannot be read stays as it was known.
pub open spec fn script_written(
    ws: WorkspaceView,
    path: Seq<char>,
    read: ScriptRead,
    key: Option<Seq<char>>,
) -> WorkspaceView {
    match read {
        ScriptRead::Text { hash, interface, stat } => {
            let seen = WorkspaceView { applied: lru_cache::touched(ws.applied, path), ..ws };
            if workspace::parse_hit(ws.applied, path, hash) is Some {
                looked_at(seen, path, stat)
            } else {
                read_in(seen, path, hash, interface, stat)
            }
        },
        ScriptRead::NotFound => removed(ws, path, key),
        ScriptRead::Unreadable => ws,
    }
}

/// The workspace after the old path of a rename is gone, unless it is open or not in the project.
pub open spec fn rename_source_removed(
    ws: WorkspaceView,
    change: watcher::FileChangeView,
    disk: DiskFacts,
    place: (bool, bool),
    open: Set<Seq<char>>,
) -> WorkspaceView {
    match change {
        watcher::FileChangeView::Renamed { from, to: _ } => if place.1 && !open.contains(from) {
            removed(ws, from, key_text(disk.from_key))
        } else {
            ws
        },
        _ => ws,
    }
}

/// The workspace after a script changed on disk.
pub open spec fn script_changed(
    ws: WorkspaceView,
    path: Seq<char>,
    change: watcher::FileChangeView,
    disk: DiskFacts,
    place: (bool, bool),
    open: Set<Seq<char>>,
) -> WorkspaceView {
    if !place.0 {
        ws
    } else {
        let settled = rename_source_removed(ws, change, disk, place, open);
        if open.contains(path) {
            settled
        } else {
            match change {
                watcher::FileChangeView::Created => script_written(
                    settled,
                    path,
                    disk.script,
                    key_text(disk.key),
                ),
                watcher::FileChangeView::Modified => script_written(
                    settled,
                    path,
                    disk.script,
                    key_text(disk.key),
                ),
                watcher::FileChangeView::Deleted => removed(settled, path, key_text(disk.key)),
                watcher::FileChangeView::Renamed { from: _, to } => match disk.script {
                    ScriptRead::Text { hash, interface, stat } => read_in(
                        settled,
                        to,
                        hash,
                        interface,
                        stat,
                    ),
                    _ => settled,
                },
            }
        }
    }
}

/// The workspace after a scene changed on disk.
pub open spec fn scene_changed(
    ws: WorkspaceView,
    path: Seq<char>,
    change: watcher::FileChangeView,
    disk: DiskFacts,
    place: (bool, bool),
) -> WorkspaceView {
    if !place.0 {
        ws
    } else {
        let res = text::opt_string(disk.res);
        let from_res = text::opt_string(disk.from_res);
        WorkspaceView {
            files: match change {
                watcher::FileChangeView::Created => files::scene_reindexed(
                    ws.files,
                    path,
                    res,
                    disk.scene,
                    disk.stat,
                ),
                watcher::FileChangeView::Modified => files::scene_reindexed(
                    ws.files,
                    path,
                    res,
                    disk.scene,
                    disk.stat,
                ),
                watcher::FileChangeView::Deleted => files::scene_removed(ws.files, path, res),
                watcher::FileChangeView::Renamed { from, to } => files::scene_reindexed(
                    files::scene_removed(ws.files, from, from_res),
                    to,
                    res,
                    disk.scene,
                    disk.stat,
                ),
            },
            ..ws
        }
    }
}

/// The workspace after an asset changed on disk.
pub open spec fn asset_changed(
    ws: WorkspaceView,
    path: Seq<char>,
    change: watcher::FileChangeView,
    disk: DiskFacts,
    place: (bool, bool),
) -> WorkspaceView {
    if !place.0 {
        ws
    } else {
        let res = text::opt_string(disk.res);
        let from_res = text::opt_string(disk.from_res);
        WorkspaceView {
            files: match change {
                watcher::FileChangeView::Created => files::asset_reindexed(
                    ws.files,
                    path,
                    res,
                    disk.stat,
                ),
                watcher::FileChangeView::Modified => files::asset_reindexed(
                    ws.files,
                    path,
                    res,
                    disk.stat,
                ),
                watcher::FileChangeView::Deleted => files::asset_removed(ws.files, path, res),
                watcher::FileChangeView::Renamed { from, to } => files::asset_reindexed(
                    files::asset_removed(ws.files, from, from_res),
                    to,
                    res,
                    disk.stat,
                ),
            },
            ..ws
        }
    }
}

/// A change with its paths normalized.
pub open spec fn normalized_change(change: watcher::FileChangeView) -> watcher::FileChangeView {
    match change {
        watcher::FileChangeView::Renamed { from, to } => watcher::FileChangeView::Renamed {
            from: path::normalized(from),
            to: path::normalized(to),
        },
        _ => change,
    }
}

/// The workspace after a reaction. Files go by their normalized paths. `place` says whether the file
/// is in the project, and whether the old path of a rename is. What concerns the project as a whole
/// waits for the end of the batch.
pub open spec fn reacted(
    ws: WorkspaceView,
    reaction: ReactionView,
    disk: DiskFacts,
    place: (bool, bool),
    open: Set<Seq<char>>,
) -> WorkspaceView {
    match reaction {
        ReactionView::GdSource { path, change } => script_changed(
            ws,
            path::normalized(path),
            normalized_change(change),
            disk,
            place,
            open,
        ),
        ReactionView::Scene { path, change } => scene_changed(
            ws,
            path::normalized(path),
            normalized_change(change),
            disk,
            place,
        ),
        ReactionView::Asset { path, change } => asset_changed(
            ws,
            path::normalized(path),
            normalized_change(change),
            disk,
            place,
        ),
        _ => ws,
    }
}

/// Take in a script that was read from disk.
fn take_in_script(
    ws: &mut Workspace,
    path: &str,
    hash: u64,
    interface: u64,
    stat: Option<FileStat>,
)
    requires
        old(ws).well_formed(),
    ensures
        final(ws).well_formed(),
        final(ws)@ == read_in(old(ws)@, path::normalized(path@), hash, interface, stat),
{
    ws.reindex(path, interface);
    ws.record_applied(path, hash);
    ws.update_stat_from_disk(path, stat);
}

fn write_script(ws: &mut Workspace, path: &str, read: ScriptRead, key: Option<CanonicalKey>)
    requires
        old(ws).well_formed(),
    ensures
        final(ws).well_formed(),
        final(ws)@ == script_written(old(ws)@, path::normalized(path@), read, key_text(key)),
{
    match read {
        ScriptRead::Text { hash, interface, stat } => {
            if ws.is_last_applied(path, hash) {
                ws.update_stat_from_disk(path, stat);
            } else {
                take_in_script(ws, path, hash, interface, stat);
            }
        },
        ScriptRead::NotFound => {
            ws.remove(path, key);
        },
        ScriptRead::Unreadable => {},
    }
}

fn copy_key(key: &Option<CanonicalKey>) -> (r: Option<CanonicalKey>)
    ensures
        key_text(r) == key_text(*key),
{
    match key {
        Some(key) => Some(key.clone()),
        None => None,
    }
}

fn opt_as_str(s: &Option<String>) -> (r: Option<&str>)
    ensures
        text::opt_str(r) == text::opt_string(*s),
{
    match s {
        Some(s) => Some(s.as_str()),
        None => None,
    }
}

fn change_script(
    ws: &mut Workspace,
    path: &str,
    change: &FileChange,
    disk: &DiskFacts,
    place: (bool, bool),
    open: &PathSet,
)
    requires
        old(ws).well_formed(),
    ensures
        final(ws).well_formed(),
        final(ws)@ == script_changed(
            old(ws)@,
            path::normalized(path@),
            normalized_change(change@),
            *disk,
            place,
            open@.dom(),
        ),
{
    if !place.0 {
        return;
    }
    if let FileChange::Renamed { from, to: _ } = change {
        if place.1 && !open.contains_key(normalize_path(from.as_str()).as_str()) {
            ws.remove(from.as_str(), copy_key(&disk.from_key));
        }
    }
    if open.contains_key(normalize_path(path).as_str()) {
        return;
    }
    match change {
        FileChange::Created => write_script(ws, path, disk.script, copy_key(&disk.key)),
        FileChange::Modified => write_script(ws, path, disk.script, copy_key(&disk.key)),
        FileChange::Deleted => ws.remove(path, copy_key(&disk.key)),
        FileChange::Renamed { from: _, to } => {
            if let ScriptRead::Text { hash, interface, stat } = disk.script {
                take_in_script(ws, to.as_str(), hash, interface, stat);
            }
        },
    }
}

fn change_scene(
    ws: &mut Workspace,
    path: &str,
    change: &FileChange,
    disk: &DiskFacts,
    place: (bool, bool),
)
    requires
        old(ws).well_formed(),
    ensures
        final(ws).well_formed(),
        final(ws)@ == scene_changed(
            old(ws)@,
            path::normalized(path@),
            normalized_change(change@),
            *disk,
            place,
        ),
{
    if !place.0 {
        return;
    }
    let res = opt_as_str(&disk.res);
    match change {
        FileChange::Created => ws.reindex_scene(path, res, disk.scene, disk.stat),
        FileChange::Modified => ws.reindex_scene(path, res, disk.scene, disk.stat),
        FileChange::Deleted => ws.remove_scene(path, res),
        FileChange::Renamed { from, to } => {
            ws.remove_scene(from.as_str(), opt_as_str(&disk.from_res));
            ws.reindex_scene(to.as_str(), res, disk.scene, disk.stat);
        },
    }
}

fn change_asset(
    ws: &mut Workspace,
    path: &str,
    change: &FileChange,
    disk: &DiskFacts,
    place: (bool, bool),
)
    requires
        old(ws).well_formed(),
    ensures
        final(ws).well_formed(),
        final(ws)@ == asset_changed(
            old(ws)@,
            path::normalized(path@),
            normalized_change(change@),
            *disk,
            place,
        ),
{
    if !place.0 {
        return;
    }
    let res = opt_as_str(&disk.res);
    match change {
        FileChange::Created => ws.reindex_asset(path, res, disk.stat),
        FileChange::Modified => ws.reindex_asset(path, res, disk.stat),
        FileChange::Deleted => ws.remove_asset(path, res),
        FileChange::Renamed { from, to } => {
            ws.remove_asset(from.as_str(), opt_as_str(&disk.from_res));
            ws.reindex_asset(to.as_str(), res, disk.stat);
        },
    }
}

/// The old path of a script that was renamed.
pub open spec fn source_of(reaction: ReactionView) -> Option<Seq<char>> {
    match reaction {
        ReactionView::GdSource { path: _, change } => match change {
            watcher::FileChangeView::Renamed { from, to: _ } => Some(from),
            _ => None,
        },
        _ => None,
    }
}

/// Whether a flag says of a path whether it is in the project. It need not for one that systems
/// place differently.
pub open spec fn tells_place(flag: bool, path: Option<Seq<char>>, root: Seq<char>) -> bool {
    match path {
        Some(path) => {
            &&& path::reads_within(path::normalized(path), path::normalized(root), flag)
            &&& placed(path, root) ==> flag == in_project(path, root)
        },
        None => !flag,
    }
}

/// Whether that is the place of a reaction: whether its file is in the project, and whether the old
/// path of a rename is.
pub open spec fn is_place(place: (bool, bool), reaction: ReactionView, root: Seq<char>) -> bool {
    &&& tells_place(place.0, path_of(reaction), root)
    &&& tells_place(place.1, source_of(reaction), root)
}

/// Whether the file of a reaction is in the project, and whether the old path of a rename is.
pub fn place(reaction: &Reaction, root: &str) -> (r: (bool, bool))
    ensures
        is_place(r, reaction@, root@),
{
    let in_root = match event_path(reaction) {
        Some(path) => path_is_within(path.as_str(), root),
        None => false,
    };
    let from_in_root = match reaction {
        Reaction::GdSource { path: _, change } => match change {
            FileChange::Renamed { from, to: _ } => path_is_within(from.as_str(), root),
            _ => false,
        },
        _ => false,
    };
    (in_root, from_in_root)
}

/// Whether the file of a reaction is outside of the project, on every system.
pub open spec fn outside(reaction: ReactionView, root: Seq<char>) -> bool {
    path_of(reaction) matches Some(path) && placed(path, root) && !in_project(path, root)
}

/// Apply one reaction. `root` is that of the project: what happens outside of it changes nothing.
/// `open` holds the normalized paths of the open buffers.
pub fn apply_reaction(
    ws: &mut Workspace,
    reaction: &Reaction,
    disk: &DiskFacts,
    root: &str,
    open: &PathSet,
)
    requires
        old(ws).well_formed(),
    ensures
        final(ws).well_formed(),
        exists|place: (bool, bool)|
            is_place(place, reaction@, root@) && final(ws)@ == #[trigger] reacted(
                old(ws)@,
                reaction@,
                *disk,
                place,
                open@.dom(),
            ),
        outside(reaction@, root@) ==> final(ws)@ == old(ws)@,
{
    let place = place(reaction, root);
    react(ws, reaction, disk, place, open);
    proof {
        assert(ws@ == reacted(old(ws)@, reaction@, *disk, place, open@.dom()));
    }
}

/// Apply one reaction to a file at the given place.
fn react(
    ws: &mut Workspace,
    reaction: &Reaction,
    disk: &DiskFacts,
    place: (bool, bool),
    open: &PathSet,
)
    requires
        old(ws).well_formed(),
    ensures
        final(ws).well_formed(),
        final(ws)@ == reacted(old(ws)@, reaction@, *disk, place, open@.dom()),
{
    match reaction {
        Reaction::GdSource { path, change } => change_script(
            ws,
            path.as_str(),
            change,
            disk,
            place,
            open,
        ),
        Reaction::Scene { path, change } => change_scene(ws, path.as_str(), change, disk, place),
        Reaction::Asset { path, change } => change_asset(ws, path.as_str(), change, disk, place),
        _ => {},
    }
}

// ---------------------------------------------------------------------------
// A batch.
// ---------------------------------------------------------------------------

/// What a batch asks for of the project as a whole.
#[derive(Debug, Clone, Copy, PartialEq, Eq, Structural)]
pub enum Reload {
    Nothing,
    /// The native surface alone.
    Native,
    /// The project file, and the native surface with it.
    Project,
}

/// Whether a reaction asks for a reload of the project.
pub open spec fn asks_project(reaction: ReactionView) -> bool {
    reaction is ProjectGodot || reaction is Gdextension || reaction is DocClassesXml
}

/// What a batch asks for: a reload of the project comprises one of the native surface.
pub open spec fn batch_reload(reactions: Seq<ReactionView>) -> Reload {
    if exists|i: int| 0 <= i < reactions.len() && asks_project(#[trigger] reactions[i]) {
        Reload::Project
    } else if exists|i: int| 0 <= i < reactions.len() && #[trigger] reactions[i] is ExtensionApiJson {
        Reload::Native
    } else {
        Reload::Nothing
    }
}

/// A reaction with what was found on disk of its file.
pub struct Found {
    pub reaction: Reaction,
    pub disk: DiskFacts,
}

/// The reactions of a batch.
pub open spec fn found_reactions(batch: Seq<Found>) -> Seq<ReactionView> {
    batch.map_values(|found: Found| found.reaction@)
}

/// The workspace after the reactions of a batch, one by one, each at its place.
pub open spec fn all_reacted(
    ws: WorkspaceView,
    batch: Seq<Found>,
    places: Seq<(bool, bool)>,
    open: Set<Seq<char>>,
) -> WorkspaceView
    decreases batch.len(),
{
    if batch.len() == 0 {
        ws
    } else {
        reacted(
            all_reacted(ws, batch.drop_last(), places, open),
            batch.last().reaction@,
            batch.last().disk,
            places[batch.len() - 1],
            open,
        )
    }
}

/// Whether those are the places of the reactions of a batch.
pub open spec fn are_places(
    places: Seq<(bool, bool)>,
    batch: Seq<Found>,
    root: Seq<char>,
) -> bool {
    &&& places.len() == batch.len()
    &&& forall|i: int|
        0 <= i < batch.len() ==> is_place(#[trigger] places[i], batch[i].reaction@, root)
}

proof fn lemma_places_so_far(
    ws: WorkspaceView,
    batch: Seq<Found>,
    a: Seq<(bool, bool)>,
    b: Seq<(bool, bool)>,
    open: Set<Seq<char>>,
)
    requires
        batch.len() <= a.len(),
        batch.len() <= b.len(),
        forall|i: int| 0 <= i < batch.len() ==> a[i] == b[i],
    ensures
        all_reacted(ws, batch, a, open) == all_reacted(ws, batch, b, open),
    decreases batch.len(),
{
    if batch.len() > 0 {
        lemma_places_so_far(ws, batch.drop_last(), a, b, open);
    }
}

/// Apply a batch of reactions, and say what it asks for of the project as a whole.
pub fn apply_reaction_batch(
    ws: &mut Workspace,
    batch: &Vec<Found>,
    root: &str,
    open: &PathSet,
) -> (r: Reload)
    requires
        old(ws).well_formed(),
    ensures
        final(ws).well_formed(),
        exists|places: Seq<(bool, bool)>|
            are_places(places, batch@, root@) && final(ws)@ == #[trigger] all_reacted(
                old(ws)@,
                batch@,
                places,
                open@.dom(),
            ),
        r == batch_reload(found_reactions(batch@)),
{
    let ghost start = ws@;
    let ghost reactions = found_reactions(batch@);
    let mut project_changed = false;
    let mut native_changed = false;
    let ghost mut places: Seq<(bool, bool)> = Seq::empty();
    let mut i: usize = 0;
    proof {
        assert(batch@.take(0) =~= Seq::<Found>::empty());
    }
    while i < batch.len()
        invariant
            0 <= i <= batch@.len(),
            ws.well_formed(),
            reactions == found_reactions(batch@),
            are_places(places, batch@.take(i as int), root@),
            ws@ == all_reacted(start, batch@.take(i as int), places, open@.dom()),
            project_changed == (exists|k: int|
                0 <= k < i && asks_project(#[trigger] reactions[k])),
            native_changed == (exists|k: int|
                0 <= k < i && #[trigger] reactions[k] is ExtensionApiJson),
        decreases batch@.len() - i,
    {
        proof {
            assert(batch@.take(i as int + 1).drop_last() =~= batch@.take(i as int));
            assert(batch@.take(i as int + 1).last() == batch@[i as int]);
            assert(reactions[i as int] == batch@[i as int].reaction@);
        }
        let here = place(&batch[i].reaction, root);
        let ghost before_places = places;
        proof {
            places = places.push(here);
            lemma_places_so_far(start, batch@.take(i as int), before_places, places, open@.dom());
            assert(are_places(places, batch@.take(i as int + 1), root@)) by {
                assert forall|k: int| 0 <= k < i + 1 implies is_place(
                    #[trigger] places[k],
                    batch@.take(i as int + 1)[k].reaction@,
                    root@,
                ) by {
                    if k < i {
                        assert(is_place(
                            before_places[k],
                            batch@.take(i as int)[k].reaction@,
                            root@,
                        ));
                    }
                }
            }
        }
        let ghost before_project = project_changed;
        let ghost before_native = native_changed;
        match &batch[i].reaction {
            Reaction::ProjectGodot => {
                project_changed = true;
            },
            Reaction::Gdextension { .. } => {
                project_changed = true;
            },
            Reaction::DocClassesXml { .. } => {
                project_changed = true;
            },
            Reaction::ExtensionApiJson => {
                native_changed = true;
            },
            _ => react(ws, &batch[i].reaction, &batch[i].disk, here, open),
        }
        proof {
            if before_project {
                let k = choose|k: int| 0 <= k < i && asks_project(#[trigger] reactions[k]);
                assert(0 <= k < i + 1 && asks_project(reactions[k]));
            }
            if before_native {
                let k = choose|k: int| 0 <= k < i && #[trigger] reactions[k] is ExtensionApiJson;
                assert(0 <= k < i + 1 && reactions[k] is ExtensionApiJson);
            }
        }
        i = i + 1;
    }
    proof {
        assert(batch@.take(i as int) =~= batch@);
    }
    if project_changed {
        Reload::Project
    } else if native_changed {
        Reload::Native
    } else {
        Reload::Nothing
    }
}

/// What follows a reload.
#[derive(Debug, Clone, Copy, PartialEq, Eq, Structural)]
pub struct FollowUp {
    /// Load the workspace anew.
    pub rebuild: bool,
    /// Publish the diagnostics of every open buffer.
    pub republish_all: bool,
    /// Ask the client to fetch semantic tokens anew.
    pub refresh_tokens: bool,
    pub save_cache: bool,
}

/// What follows a reload.
pub open spec fn followed_by(reload: Reload, changed: bool) -> FollowUp {
    match reload {
        Reload::Nothing => FollowUp {
            rebuild: false,
            republish_all: false,
            refresh_tokens: false,
            save_cache: false,
        },
        Reload::Project => FollowUp {
            rebuild: changed,
            republish_all: true,
            refresh_tokens: true,
            save_cache: false,
        },
        Reload::Native => FollowUp {
            rebuild: false,
            republish_all: changed,
            refresh_tokens: changed,
            save_cache: changed,
        },
    }
}

/// What follows a reload. Of the project, `changed` says that scripts are read as another release
/// from now on; of the native surface, that it is another. A native surface that is the same is
/// followed by nothing.
pub fn follow_up(reload: Reload, changed: bool) -> (r: FollowUp)
    ensures
        r == followed_by(reload, changed),
{
    match reload {
        Reload::Nothing => FollowUp {
            rebuild: false,
            republish_all: false,
            refresh_tokens: false,
            save_cache: false,
        },
        Reload::Project => FollowUp {
            rebuild: changed,
            republish_all: true,
            refresh_tokens: true,
            save_cache: false,
        },
        Reload::Native => FollowUp {
            rebuild: false,
            republish_all: changed,
            refresh_tokens: changed,
            save_cache: changed,
        },
    }
}

// ---------------------------------------------------------------------------
// Where events come from.
// ---------------------------------------------------------------------------

/// A debounced event of the watcher.
pub struct WatcherEvent {
    /// Events were lost.
    pub need_rescan: bool,
    pub kind: EventKind,
    pub paths: Vec<EventPath>,
}

/// What to do about events of the watcher.
pub enum WatcherPlan {
    /// Walk the project and look at each file.
    Reconcile,
    Apply(Vec<Reaction>),
}

/// The reactions of the events of the watcher, where all paths are clear.
pub open spec fn event_reactions(events: Seq<WatcherEvent>, root: Seq<char>) -> Seq<ReactionView>
    decreases events.len(),
{
    if events.len() == 0 {
        Seq::empty()
    } else {
        event_reactions(events.drop_last(), root) + watcher::classified(
            events.last().kind,
            watcher::usable_paths(events.last().paths@, root),
        )
    }
}

/// Whether those are the usable paths of the events of the watcher, with facts that are read of them.
pub open spec fn reads_events(
    events: Seq<WatcherEvent>,
    root: Seq<char>,
    known: Seq<Seq<KnownPathView>>,
) -> bool {
    &&& known.len() == events.len()
    &&& forall|i: int|
        0 <= i < events.len() ==> watcher::reads_paths(
            events[i].paths@,
            root,
            #[trigger] known[i],
        )
}

/// The reactions of the events of the watcher, each with its usable paths.
pub open spec fn all_classified(
    events: Seq<WatcherEvent>,
    known: Seq<Seq<KnownPathView>>,
) -> Seq<ReactionView>
    decreases events.len(),
{
    if events.len() == 0 {
        Seq::empty()
    } else {
        all_classified(events.drop_last(), known) + watcher::classified(
            events.last().kind,
            known[events.len() - 1],
        )
    }
}

proof fn lemma_known_so_far(
    events: Seq<WatcherEvent>,
    a: Seq<Seq<KnownPathView>>,
    b: Seq<Seq<KnownPathView>>,
)
    requires
        forall|i: int| 0 <= i < events.len() ==> a[i] == b[i],
    ensures
        all_classified(events, a) == all_classified(events, b),
    decreases events.len(),
{
    if events.len() > 0 {
        lemma_known_so_far(events.drop_last(), a, b);
    }
}

/// Where all paths are clear, the reactions of the events are the same on every system.
pub proof fn lemma_clear_events(
    events: Seq<WatcherEvent>,
    root: Seq<char>,
    known: Seq<Seq<KnownPathView>>,
)
    requires
        events_clear(events, root),
        reads_events(events, root, known),
    ensures
        all_classified(events, known) == event_reactions(events, root),
    decreases events.len(),
{
    if events.len() > 0 {
        let before = events.drop_last();
        let last = events.len() - 1;
        let earlier = known.take(last);
        assert(events[last] == events.last());
        assert forall|i: int| 0 <= i < before.len() implies watcher::reads_paths(
            before[i].paths@,
            root,
            #[trigger] earlier[i],
        ) by {
            assert(earlier[i] == known[i]);
        }
        assert forall|i: int| 0 <= i < before.len() implies watcher::all_clear(
            (#[trigger] before[i]).paths@,
            root,
        ) by {
            assert(before[i] == events[i]);
        }
        lemma_clear_events(before, root, earlier);
        lemma_known_so_far(before, earlier, known);
        assert(watcher::reads_paths(events[last].paths@, root, known[last]));
        watcher::lemma_clear_paths(events[last].paths@, root, known[last]);
    }
}

/// Whether events were lost.
pub open spec fn lost_events(events: Seq<WatcherEvent>) -> bool {
    exists|i: int| 0 <= i < events.len() && (#[trigger] events[i]).need_rescan
}

/// Whether every path of every event reads the same on every system.
pub open spec fn events_clear(events: Seq<WatcherEvent>, root: Seq<char>) -> bool {
    forall|i: int|
        0 <= i < events.len() ==> watcher::all_clear((#[trigger] events[i]).paths@, root)
}

fn append_reactions(all: &mut Vec<Reaction>, more: Vec<Reaction>)
    ensures
        watcher::reactions_view(final(all)@) == watcher::reactions_view(old(all)@)
            + watcher::reactions_view(more@),
{
    let mut more = more;
    let ghost first = all@;
    let ghost second = more@;
    all.append(&mut more);
    proof {
        assert(watcher::reactions_view(all@) =~= watcher::reactions_view(first)
            + watcher::reactions_view(second));
    }
}

/// What to do about events of the watcher: where some were lost only a walk tells what changed,
/// else each is reacted to.
pub fn handle_watcher(events: &Vec<WatcherEvent>, root: &str) -> (r: WatcherPlan)
    ensures
        r is Reconcile <==> lost_events(events@),
        r matches WatcherPlan::Apply(reactions) ==> exists|known: Seq<Seq<KnownPathView>>|
            reads_events(events@, root@, known) && watcher::reactions_view(reactions@)
                == #[trigger] all_classified(events@, known),
        r matches WatcherPlan::Apply(reactions) ==> (events_clear(events@, root@)
            ==> watcher::reactions_view(reactions@) == event_reactions(events@, root@)),
{
    let mut i: usize = 0;
    while i < events.len()
        invariant
            0 <= i <= events@.len(),
            forall|k: int| 0 <= k < i ==> !(#[trigger] events@[k]).need_rescan,
        decreases events@.len() - i,
    {
        if events[i].need_rescan {
            return WatcherPlan::Reconcile;
        }
        i = i + 1;
    }
    let mut all: Vec<Reaction> = Vec::new();
    let mut k: usize = 0;
    let ghost mut known = Seq::<Seq<KnownPathView>>::empty();
    proof {
        assert(events@.take(0) =~= Seq::<WatcherEvent>::empty());
        assert(watcher::reactions_view(all@) =~= Seq::<ReactionView>::empty());
    }
    while k < events.len()
        invariant
            0 <= k <= events@.len(),
            reads_events(events@.take(k as int), root@, known),
            watcher::reactions_view(all@) == all_classified(events@.take(k as int), known),
        decreases events@.len() - k,
    {
        let ghost earlier = known;
        let found = classify_event(events[k].kind, &events[k].paths, root);
        proof {
            let seen = choose|seen: Seq<KnownPathView>|
                watcher::reads_paths(events@[k as int].paths@, root@, seen)
                    && watcher::reactions_view(found@) == #[trigger] watcher::classified(
                    events@[k as int].kind,
                    seen,
                );
            known = earlier.push(seen);
            let so_far = events@.take(k as int + 1);
            assert(so_far.drop_last() =~= events@.take(k as int));
            assert(so_far.last() == events@[k as int]);
            lemma_known_so_far(events@.take(k as int), earlier, known);
            assert forall|i: int| 0 <= i < so_far.len() implies watcher::reads_paths(
                so_far[i].paths@,
                root@,
                #[trigger] known[i],
            ) by {
                if i < k {
                    assert(watcher::reads_paths(
                        events@.take(k as int)[i].paths@,
                        root@,
                        earlier[i],
                    ));
                }
            }
        }
        append_reactions(&mut all, found);
        k = k + 1;
    }
    proof {
        assert(events@.take(k as int) =~= events@);
        if events_clear(events@, root@) {
            lemma_clear_events(events@, root@, known);
        }
    }
    WatcherPlan::Apply(all)
}

/// What a client says happened to a file.
#[derive(Debug, Clone, Copy, PartialEq, Eq, Structural)]
pub enum ClientChange {
    Created,
    Changed,
    Deleted,
    /// A kind that is not known.
    Other,
}

/// A file event that a client delivered.
pub struct ClientFileEvent {
    pub uri: Uri,
    pub change: ClientChange,
    /// Whether the path is under an excluded directory.
    pub excluded: bool,
}

/// The change that a client means.
pub open spec fn client_change(change: ClientChange) -> Option<watcher::FileChangeView> {
    match change {
        ClientChange::Created => Some(watcher::FileChangeView::Created),
        ClientChange::Changed => Some(watcher::FileChangeView::Modified),
        ClientChange::Deleted => Some(watcher::FileChangeView::Deleted),
        ClientChange::Other => None,
    }
}

/// The normalized path of the file that a URI stands for.
pub open spec fn file_path(uri: Seq<char>, windows: bool) -> Option<Seq<char>> {
    path::normalized_opt(uri::uri_path(uri, windows))
}

fn path_of_uri(uri: &Uri, windows: bool) -> (r: Option<String>)
    ensures
        text::opt_string(r) == file_path(uri@, windows),
{
    match uri_to_path(uri, windows) {
        Some(path) => Some(normalize_path(path.as_str())),
        None => None,
    }
}

/// The reaction to a client's event, where its path is clear; nothing for a URI without a path
/// and for a kind that is not known.
pub open spec fn client_reaction(
    event: ClientFileEvent,
    root: Seq<char>,
    windows: bool,
) -> Option<ReactionView> {
    match file_path(event.uri@, windows) {
        Some(path) => client_reaction_by(event, watcher::facts_of(path, root), windows),
        None => None,
    }
}

/// The reaction to a client's event, by the facts of its path.
pub open spec fn client_reaction_by(
    event: ClientFileEvent,
    facts: PathFactsView,
    windows: bool,
) -> Option<ReactionView> {
    match (file_path(event.uri@, windows), client_change(event.change)) {
        (Some(path), Some(change)) => Some(
            if event.excluded {
                ReactionView::Other(watcher::SkipReason::Excluded)
            } else {
                watcher::reaction_of(path, change, facts)
            },
        ),
        _ => None,
    }
}

/// Whether those are facts that are read of the path of a client's event, where it is classified by
/// its path.
pub open spec fn reads_client_event(
    event: ClientFileEvent,
    root: Seq<char>,
    windows: bool,
    facts: PathFactsView,
) -> bool {
    file_path(event.uri@, windows) matches Some(path) ==> (client_change(event.change) is Some
        && !event.excluded ==> watcher::reads_facts(path, root, facts))
}

/// Whether those are facts that are read of the paths of a client's events.
pub open spec fn reads_client_events(
    events: Seq<ClientFileEvent>,
    root: Seq<char>,
    windows: bool,
    facts: Seq<PathFactsView>,
) -> bool {
    &&& facts.len() == events.len()
    &&& forall|i: int|
        0 <= i < events.len() ==> reads_client_event(events[i], root, windows, #[trigger] facts[i])
}

/// The reactions to the events of a client, by the facts of their paths.
pub open spec fn client_reactions_by(
    events: Seq<ClientFileEvent>,
    facts: Seq<PathFactsView>,
    windows: bool,
) -> Seq<ReactionView>
    decreases events.len(),
{
    if events.len() == 0 {
        Seq::empty()
    } else {
        let before = client_reactions_by(events.drop_last(), facts, windows);
        match client_reaction_by(events.last(), facts[events.len() - 1], windows) {
            Some(reaction) => before.push(reaction),
            None => before,
        }
    }
}

proof fn lemma_client_so_far(
    events: Seq<ClientFileEvent>,
    a: Seq<PathFactsView>,
    b: Seq<PathFactsView>,
    windows: bool,
)
    requires
        forall|i: int| 0 <= i < events.len() ==> a[i] == b[i],
    ensures
        client_reactions_by(events, a, windows) == client_reactions_by(events, b, windows),
    decreases events.len(),
{
    if events.len() > 0 {
        lemma_client_so_far(events.drop_last(), a, b, windows);
    }
}

/// Where all paths are clear, the reactions to the events of a client are the same on every system.
pub proof fn lemma_clear_client_events(
    events: Seq<ClientFileEvent>,
    root: Seq<char>,
    windows: bool,
    facts: Seq<PathFactsView>,
)
    requires
        client_clear(events, root, windows),
        reads_client_events(events, root, windows, facts),
    ensures
        client_reactions_by(events, facts, windows) == client_reactions(events, root, windows),
    decreases events.len(),
{
    if events.len() > 0 {
        let before = events.drop_last();
        let last = events.len() - 1;
        let earlier = facts.take(last);
        assert(events[last] == events.last());
        assert forall|i: int| 0 <= i < before.len() implies reads_client_event(
            before[i],
            root,
            windows,
            #[trigger] earlier[i],
        ) by {
            assert(earlier[i] == facts[i]);
        }
        assert forall|i: int| 0 <= i < before.len() implies (file_path(
            (#[trigger] before[i]).uri@,
            windows,
        ) matches Some(path) ==> watcher::clear(path, root)) by {
            assert(before[i] == events[i]);
        }
        lemma_clear_client_events(before, root, windows, earlier);
        lemma_client_so_far(before, earlier, facts, windows);
        assert(reads_client_event(events[last], root, windows, facts[last]));
        match file_path(events[last].uri@, windows) {
            Some(path) => {
                if client_change(events[last].change) is Some && !events[last].excluded {
                    watcher::lemma_clear_facts(path, root, facts[last]);
                }
            },
            None => {},
        }
    }
}

/// The reactions to the events of a client.
pub open spec fn client_reactions(
    events: Seq<ClientFileEvent>,
    root: Seq<char>,
    windows: bool,
) -> Seq<ReactionView>
    decreases events.len(),
{
    if events.len() == 0 {
        Seq::empty()
    } else {
        let before = client_reactions(events.drop_last(), root, windows);
        match client_reaction(events.last(), root, windows) {
            Some(reaction) => before.push(reaction),
            None => before,
        }
    }
}

/// Whether the path of every event reads the same on every system.
pub open spec fn client_clear(
    events: Seq<ClientFileEvent>,
    root: Seq<char>,
    windows: bool,
) -> bool {
    forall|i: int|
        0 <= i < events.len() ==> (file_path((#[trigger] events[i]).uri@, windows) matches Some(path)
            ==> watcher::clear(path, root))
}

/// The reactions to the events of a client.
pub fn handle_client_file_events(events: &Vec<ClientFileEvent>, root: &str, windows: bool) -> (r: Vec<
    Reaction,
>)
    ensures
        exists|facts: Seq<PathFactsView>|
            reads_client_events(events@, root@, windows, facts) && watcher::reactions_view(r@)
                == #[trigger] client_reactions_by(events@, facts, windows),
        client_clear(events@, root@, windows) ==> watcher::reactions_view(r@)
            == client_reactions(events@, root@, windows),
{
    let mut r: Vec<Reaction> = Vec::new();
    let mut i: usize = 0;
    let ghost mut facts = Seq::<PathFactsView>::empty();
    proof {
        assert(events@.take(0) =~= Seq::<ClientFileEvent>::empty());
        assert(watcher::reactions_view(r@) =~= Seq::<ReactionView>::empty());
    }
    while i < events.len()
        invariant
            0 <= i <= events@.len(),
            reads_client_events(events@.take(i as int), root@, windows, facts),
            watcher::reactions_view(r@) == client_reactions_by(
                events@.take(i as int),
                facts,
                windows,
            ),
        decreases events@.len() - i,
    {
        let ghost before = r@;
        let ghost earlier = facts;
        let ghost mut read = arbitrary::<PathFactsView>();
        let change: Option<FileChange> = match events[i].change {
            ClientChange::Created => Some(FileChange::Created),
            ClientChange::Changed => Some(FileChange::Modified),
            ClientChange::Deleted => Some(FileChange::Deleted),
            ClientChange::Other => None,
        };
        if let Some(path) = path_of_uri(&events[i].uri, windows) {
            if let Some(change) = change {
                let ghost told = change@;
                let reaction = classify_client_event(
                    path.as_str(),
                    change,
                    root,
                    events[i].excluded,
                );
                let ghost seen = reaction@;
                proof {
                    if !events@[i as int].excluded {
                        read = choose|read: PathFactsView|
                            watcher::reads_facts(path@, root@, read) && seen
                                == #[trigger] watcher::reaction_of(path@, told, read);
                    }
                }
                r.push(reaction);
                proof {
                    assert(watcher::reactions_view(r@) =~= watcher::reactions_view(before).push(
                        seen,
                    ));
                }
            }
        }
        proof {
            facts = earlier.push(read);
            let so_far = events@.take(i as int + 1);
            assert(so_far.drop_last() =~= events@.take(i as int));
            assert(so_far.last() == events@[i as int]);
            lemma_client_so_far(events@.take(i as int), earlier, facts, windows);
            assert forall|k: int| 0 <= k < so_far.len() implies reads_client_event(
                so_far[k],
                root@,
                windows,
                #[trigger] facts[k],
            ) by {
                if k < i {
                    assert(reads_client_event(
                        events@.take(i as int)[k],
                        root@,
                        windows,
                        earlier[k],
                    ));
                }
            }
        }
        i = i + 1;
    }
    proof {
        assert(events@.take(i as int) =~= events@);
        if client_clear(events@, root@, windows) {
            lemma_clear_client_events(events@, root@, windows, facts);
        }
    }
    r
}

// ---------------------------------------------------------------------------
// What a client watches.
// ---------------------------------------------------------------------------

/// What a client is asked to watch: the files that the project is made of. Every file only where
/// the server has no watcher of its own, for nothing less matches arbitrary assets.
pub open spec fn watched_globs(native_watcher_armed: bool) -> Seq<Seq<char>> {
    let named = seq![
        "**/*.gd"@,
        "**/*.tscn"@,
        "**/project.godot"@,
        "**/*.gdextension"@,
        "**/extension_api.json"@,
        "**/doc_classes/*.xml"@,
    ];
    if native_watcher_armed {
        named
    } else {
        named.push("**/*"@)
    }
}

/// What a client is asked to watch. One that takes no such request at run time is not asked.
pub fn register_watched_files(dynamic_registration: bool, native_watcher_armed: bool) -> (r: Option<
    Vec<String>,
>)
    ensures
        r is Some == dynamic_registration,
        r matches Some(globs) ==> text::texts(globs@) == watched_globs(native_watcher_armed),
{
    if !dynamic_registration {
        return None;
    }
    let mut globs: Vec<String> = Vec::new();
    globs.push("**/*.gd".to_owned());
    globs.push("**/*.tscn".to_owned());
    globs.push("**/project.godot".to_owned());
    globs.push("**/*.gdextension".to_owned());
    globs.push("**/extension_api.json".to_owned());
    globs.push("**/doc_classes/*.xml".to_owned());
    if !native_watcher_armed {
        globs.push("**/*".to_owned());
    }
    proof {
        assert(text::texts(globs@) =~= watched_globs(native_watcher_armed));
    }
    Some(globs)
}

// ---------------------------------------------------------------------------
// Open buffers.
// ---------------------------------------------------------------------------

/// An open buffer: its URI, and the path of its file where it has one.
pub struct OpenBuffer {
    pub uri: String,
    pub path: Option<String>,
}

/// The texts of URIs.
pub open spec fn uri_texts(uris: Seq<Uri>) -> Seq<Seq<char>> {
    Seq::new(uris.len(), |i: int| uris[i]@)
}

/// The texts that are URIs.
pub open spec fn parsed_uris(texts: Seq<Seq<char>>) -> Seq<Seq<char>>
    decreases texts.len(),
{
    if texts.len() == 0 {
        Seq::empty()
    } else if uri::is_uri(texts.last()) {
        parsed_uris(texts.drop_last()).push(texts.last())
    } else {
        parsed_uris(texts.drop_last())
    }
}

/// The URIs of the open buffers, in their order. What is no URI is left out.
pub fn open_buffer_uris(open: &Vec<String>) -> (r: Vec<Uri>)
    ensures
        uri_texts(r@) == parsed_uris(text::texts(open@)),
{
    let mut r: Vec<Uri> = Vec::new();
    let mut i: usize = 0;
    let ghost all = text::texts(open@);
    proof {
        assert(uri_texts(r@) =~= parsed_uris(all.take(0)));
    }
    while i < open.len()
        invariant
            0 <= i <= open@.len(),
            all == text::texts(open@),
            uri_texts(r@) == parsed_uris(all.take(i as int)),
        decreases open@.len() - i,
    {
        let ghost before = r@;
        if let Some(uri) = Uri::parse(open[i].as_str()) {
            r.push(uri);
            proof {
                assert(uri_texts(r@) =~= uri_texts(before).push(uri@));
            }
        }
        proof {
            assert(all.take(i as int + 1).drop_last() =~= all.take(i as int));
            assert(all.take(i as int + 1).last() == open@[i as int]@);
        }
        i = i + 1;
    }
    proof {
        assert(all.take(i as int) =~= all);
    }
    r
}

/// An open buffer by the text of its URI: its path is the URI's, normalized.
pub open spec fn buffer_of(buffer: OpenBuffer, text: Seq<char>, windows: bool) -> bool {
    &&& buffer.uri@ == text
    &&& text::opt_string(buffer.path) == if uri::is_uri(text) {
        file_path(text, windows)
    } else {
        None
    }
}

/// The open buffers by the texts of their URIs.
pub fn open_buffers(open: &Vec<String>, windows: bool) -> (r: Vec<OpenBuffer>)
    ensures
        r@.len() == open@.len(),
        forall|i: int|
            0 <= i < r@.len() ==> buffer_of(#[trigger] r@[i], open@[i]@, windows),
{
    let mut r: Vec<OpenBuffer> = Vec::new();
    let mut i: usize = 0;
    while i < open.len()
        invariant
            0 <= i <= open@.len(),
            r@.len() == i,
            forall|k: int|
                0 <= k < r@.len() ==> buffer_of(#[trigger] r@[k], open@[k]@, windows),
        decreases open@.len() - i,
    {
        let path = match Uri::parse(open[i].as_str()) {
            Some(uri) => path_of_uri(&uri, windows),
            None => None,
        };
        r.push(OpenBuffer { uri: open[i].clone(), path });
        i = i + 1;
    }
    r
}

/// The normalized path of a buffer's file.
pub open spec fn buffer_path(buffer: OpenBuffer) -> Option<Seq<char>> {
    path::normalized_opt(text::opt_string(buffer.path))
}

/// The normalized paths of the open buffers.
pub open spec fn buffer_paths(buffers: Seq<OpenBuffer>) -> Set<Seq<char>> {
    Set::new(
        |path: Seq<char>|
            exists|i: int|
                0 <= i < buffers.len() && buffer_path(#[trigger] buffers[i]) == Some(path),
    )
}

/// The normalized paths of the open buffers.
pub fn open_buffer_paths(buffers: &Vec<OpenBuffer>) -> (r: PathSet)
    ensures
        r@.dom() == buffer_paths(buffers@),
{
    let mut r: PathSet = text_map::TextMap::new();
    let mut i: usize = 0;
    proof {
        assert(r@.dom() =~= buffer_paths(buffers@.take(0)));
    }
    while i < buffers.len()
        invariant
            0 <= i <= buffers@.len(),
            r@.dom() == buffer_paths(buffers@.take(i as int)),
        decreases buffers@.len() - i,
    {
        let ghost before = r@.dom();
        if let Some(path) = &buffers[i].path {
            let _ = r.insert(normalize_path(path.as_str()), ());
        }
        proof {
            let done = buffers@.take(i as int);
            let more = buffers@.take(i as int + 1);
            assert forall|p: Seq<char>| #[trigger]
                buffer_paths(more).contains(p) == (buffer_paths(done).contains(p) || buffer_path(
                    buffers@[i as int],
                ) == Some(p)) by {
                if buffer_paths(more).contains(p) {
                    let k = choose|k: int|
                        0 <= k < more.len() && buffer_path(#[trigger] more[k]) == Some(p);
                    if k < i {
                        assert(done[k] == more[k]);
                    }
                }
                if buffer_paths(done).contains(p) {
                    let k = choose|k: int|
                        0 <= k < done.len() && buffer_path(#[trigger] done[k]) == Some(p);
                    assert(more[k] == done[k]);
                }
                assert(more[i as int] == buffers@[i as int]);
            }
            assert(r@.dom() =~= buffer_paths(more));
        }
        i = i + 1;
    }
    proof {
        assert(buffers@.take(i as int) =~= buffers@);
    }
    r
}

/// Paths, normalized.
pub open spec fn normalized_all(paths: Set<Seq<char>>) -> Set<Seq<char>> {
    Set::new(
        |key: Seq<char>|
            exists|path: Seq<char>| #[trigger]
                paths.contains(path) && path::normalized(path) == key,
    )
}

fn normalize_all(paths: &PathSet) -> (r: PathSet)
    ensures
        r@.dom() == normalized_all(paths@.dom()),
{
    let keys = paths.keys();
    let mut r: PathSet = text_map::TextMap::new();
    let ghost all = normalized_all(paths@.dom());
    let mut i: usize = 0;
    while i < keys.len()
        invariant
            0 <= i <= keys@.len(),
            paths@.dom() == text_map::texts_set(keys@),
            all == normalized_all(paths@.dom()),
            forall|key: Seq<char>| #[trigger] r@.dom().contains(key) ==> all.contains(key),
            forall|k: int|
                0 <= k < i ==> r@.dom().contains(path::normalized((#[trigger] keys@[k])@)),
        decreases keys@.len() - i,
    {
        proof {
            assert(text_map::has_text(keys@, keys@[i as int]@));
            assert(paths@.dom().contains(keys@[i as int]@));
        }
        let _ = r.insert(normalize_path(keys[i].as_str()), ());
        i = i + 1;
    }
    proof {
        assert forall|key: Seq<char>| all.contains(key) implies #[trigger] r@.dom().contains(
            key,
        ) by {
            let path = choose|path: Seq<char>| #[trigger]
                paths@.dom().contains(path) && path::normalized(path) == key;
            assert(text_map::has_text(keys@, path));
            let k = choose|k: int| 0 <= k < keys@.len() && (#[trigger] keys@[k])@ == path;
            assert(r@.dom().contains(path::normalized(keys@[k]@)));
        }
        assert(r@.dom() =~= all);
    }
    r
}

/// Whether a buffer is to be published again: it is not the one to skip, and its file is dirty. The
/// dirty paths are normalized.
pub open spec fn stale_buffer(
    buffer: OpenBuffer,
    dirty: Set<Seq<char>>,
    skip: Option<Seq<char>>,
) -> bool {
    &&& Some(buffer.uri@) != skip
    &&& buffer_path(buffer) is Some
    &&& dirty.contains(buffer_path(buffer)->0)
}

/// The URIs of the buffers to publish again.
pub open spec fn stale_uris(
    buffers: Seq<OpenBuffer>,
    dirty: Set<Seq<char>>,
    skip: Option<Seq<char>>,
) -> Seq<Seq<char>>
    decreases buffers.len(),
{
    if buffers.len() == 0 {
        Seq::empty()
    } else {
        let before = stale_uris(buffers.drop_last(), dirty, skip);
        if stale_buffer(buffers.last(), dirty, skip) {
            before.push(buffers.last().uri@)
        } else {
            before
        }
    }
}

/// What is to be published again.
pub struct Republish {
    /// The buffers, by their URIs.
    pub uris: Vec<String>,
    /// Ask a client that fetches diagnostics to fetch them anew.
    pub refresh: bool,
}

/// What is to be published again after some files became dirty. The buffer whose edit caused it was
/// published already. A client that fetches diagnostics is told once, and only where another file
/// than the edited one is dirty.
pub fn republish_dirty_open_buffers_except(
    buffers: &Vec<OpenBuffer>,
    dirty: &PathSet,
    skip_uri: Option<&str>,
    skip_path: Option<&str>,
) -> (r: Republish)
    ensures
        text::texts(r.uris@) == stale_uris(
            buffers@,
            normalized_all(dirty@.dom()),
            text::opt_str(skip_uri),
        ),
        r.refresh == (exists|path: Seq<char>|
            #[trigger] normalized_all(dirty@.dom()).contains(path) && Some(path)
                != path::normalized_opt(text::opt_str(skip_path))),
{
    let stale = normalize_all(dirty);
    let mut uris: Vec<String> = Vec::new();
    let mut i: usize = 0;
    proof {
        assert(buffers@.take(0) =~= Seq::<OpenBuffer>::empty());
        assert(text::texts(uris@) =~= Seq::<Seq<char>>::empty());
    }
    while i < buffers.len()
        invariant
            0 <= i <= buffers@.len(),
            text::texts(uris@) == stale_uris(
                buffers@.take(i as int),
                stale@.dom(),
                text::opt_str(skip_uri),
            ),
        decreases buffers@.len() - i,
    {
        let ghost before = uris@;
        proof {
            assert(buffers@.take(i as int + 1).drop_last() =~= buffers@.take(i as int));
            assert(buffers@.take(i as int + 1).last() == buffers@[i as int]);
        }
        let skipped = match skip_uri {
            Some(uri) => same_text(uri, buffers[i].uri.as_str()),
            None => false,
        };
        let is_dirty = match &buffers[i].path {
            Some(path) => stale.contains_key(normalize_path(path.as_str()).as_str()),
            None => false,
        };
        if !skipped && is_dirty {
            uris.push(buffers[i].uri.clone());
            proof {
                assert(text::texts(uris@) =~= text::texts(before).push(buffers@[i as int].uri@));
            }
        }
        i = i + 1;
    }
    proof {
        assert(buffers@.take(i as int) =~= buffers@);
    }
    let refresh = match skip_path {
        Some(path) => has_other(&stale, Some(normalize_path(path).as_str())),
        None => has_other(&stale, None),
    };
    Republish { uris, refresh }
}

fn has_other(paths: &PathSet, skip: Option<&str>) -> (r: bool)
    ensures
        r == (exists|path: Seq<char>|
            #[trigger] paths@.dom().contains(path) && Some(path) != text::opt_str(skip)),
{
    let keys = paths.keys();
    let mut i: usize = 0;
    while i < keys.len()
        invariant
            0 <= i <= keys@.len(),
            paths@.dom() == text_map::texts_set(keys@),
            forall|k: int| 0 <= k < i ==> Some((#[trigger] keys@[k])@) == text::opt_str(skip),
        decreases keys@.len() - i,
    {
        let skipped = match skip {
            Some(path) => same_text(path, keys[i].as_str()),
            None => false,
        };
        if !skipped {
            proof {
                assert(text_map::has_text(keys@, keys@[i as int]@));
                assert(paths@.dom().contains(keys@[i as int]@));
            }
            return true;
        }
        i = i + 1;
    }
    proof {
        assert forall|path: Seq<char>| #[trigger] paths@.dom().contains(path) implies Some(path)
            == text::opt_str(skip) by {
            assert(text_map::has_text(keys@, path));
            let k = choose|k: int| 0 <= k < keys@.len() && (#[trigger] keys@[k])@ == path;
            assert(keys@[k]@ == path);
        }
    }
    false
}

/// What a change on disk of an open file means.
#[derive(Debug, Clone, Copy, PartialEq, Eq, Structural)]
pub enum OpenFileChange {
    /// What the file declares is what the buffer declares.
    SameInterface,
    /// The file was edited elsewhere.
    ExternalEdit,
    Vanished,
    Unreadable,
}

/// What a change on disk of an open file means.
pub open spec fn open_file_change(buffer: Option<u64>, read: FileRead) -> OpenFileChange {
    match read {
        FileRead::Text(disk) => if buffer == Some(disk) {
            OpenFileChange::SameInterface
        } else {
            OpenFileChange::ExternalEdit
        },
        FileRead::NotFound => OpenFileChange::Vanished,
        FileRead::Unreadable => OpenFileChange::Unreadable,
    }
}

/// What a change on disk of an open file means, by the fingerprints of what the buffer and the file
/// declare. Nothing follows from it but a trace: the buffer stays the truth.
pub fn classify_open_buffer_disk_change(buffer: Option<u64>, read: FileRead) -> (r: OpenFileChange)
    ensures
        r == open_file_change(buffer, read),
{
    match read {
        FileRead::Text(disk) => match buffer {
            Some(known) => if known == disk {
                OpenFileChange::SameInterface
            } else {
                OpenFileChange::ExternalEdit
            },
            None => OpenFileChange::ExternalEdit,
        },
        FileRead::NotFound => OpenFileChange::Vanished,
        FileRead::Unreadable => OpenFileChange::Unreadable,
    }
}

// ---------------------------------------------------------------------------
// Laws.
// ---------------------------------------------------------------------------

/// Nothing that happens on disk changes what a script that is open is known to declare, however the
/// event spells its path.
pub proof fn lemma_open_buffer_wins(
    ws: WorkspaceView,
    path: Seq<char>,
    change: watcher::FileChangeView,
    disk: DiskFacts,
    place: (bool, bool),
    open: Set<Seq<char>>,
    buffer: Seq<char>,
)
    requires
        open.contains(path::normalized(buffer)),
        change matches watcher::FileChangeView::Renamed { from: _, to } ==> to == path,
    ensures
        ({
            let key = path::normalized(buffer);
            let reaction = ReactionView::GdSource { path, change };
            let after = reacted(ws, reaction, disk, place, open).files.index;
            &&& after.dom().contains(key) == ws.files.index.dom().contains(key)
            &&& ws.files.index.dom().contains(key) ==> after[key] == ws.files.index[key]
        }),
{
}

/// An event outside of the project changes nothing.
pub proof fn lemma_outside_is_ignored(
    ws: WorkspaceView,
    reaction: ReactionView,
    disk: DiskFacts,
    place: (bool, bool),
    open: Set<Seq<char>>,
    root: Seq<char>,
)
    requires
        is_place(place, reaction, root),
        outside(reaction, root),
    ensures
        reacted(ws, reaction, disk, place, open) == ws,
{
}

/// A batch whose events are all outside of the project changes nothing.
pub proof fn lemma_batch_outside_is_ignored(
    ws: WorkspaceView,
    batch: Seq<Found>,
    places: Seq<(bool, bool)>,
    open: Set<Seq<char>>,
    root: Seq<char>,
)
    requires
        are_places(places, batch, root),
        forall|i: int| 0 <= i < batch.len() ==> outside((#[trigger] batch[i]).reaction@, root),
    ensures
        all_reacted(ws, batch, places, open) == ws,
    decreases batch.len(),
{
    if batch.len() > 0 {
        let before = batch.drop_last();
        let last: int = batch.len() - 1;
        let earlier = places.take(last);
        assert(are_places(earlier, before, root)) by {
            assert forall|i: int| 0 <= i < before.len() implies is_place(
                #[trigger] earlier[i],
                before[i].reaction@,
                root,
            ) by {
                assert(is_place(places[i], batch[i].reaction@, root));
            }
        }
        assert forall|i: int| 0 <= i < before.len() implies outside(
            (#[trigger] before[i]).reaction@,
            root,
        ) by {
            assert(outside(batch[i].reaction@, root));
        }
        lemma_batch_outside_is_ignored(ws, before, earlier, open, root);
        lemma_places_so_far(ws, before, earlier, places, open);
        assert(is_place(places[last], batch[last].reaction@, root));
        assert(outside(batch[last].reaction@, root));
    }
}

/// A change that is delivered twice is applied once: the second delivery leaves what is indexed and
/// what is cached as it is.
pub proof fn lemma_second_delivery_is_free(
    ws: WorkspaceView,
    path: Seq<char>,
    hash: u64,
    interface: u64,
    other: u64,
    stat: Option<FileStat>,
    key: Option<Seq<char>>,
)
    requires
        lru_cache::well_kept(ws.applied, workspace::DISK_APPLY_CAPACITY as nat),
        !(workspace::parse_hit(ws.applied, path, hash) is Some),
    ensures
        ({
            let first = script_written(
                ws,
                path,
                ScriptRead::Text { hash, interface, stat },
                key,
            );
            let second = script_written(
                first,
                path,
                ScriptRead::Text { hash, interface: other, stat },
                key,
            );
            &&& first.files.index == ws.files.index.insert(path, interface)
            &&& second.files == first.files
            &&& second.parses == first.parses
            &&& second.analyses == first.analyses
        }),
{
    let seen = lru_cache::touched(ws.applied, path);
    lru_cache::lemma_touched(ws.applied, workspace::DISK_APPLY_CAPACITY as nat, path);
    lru_cache::lemma_stored(
        seen,
        workspace::DISK_APPLY_CAPACITY as nat,
        path,
        lru_cache::CacheEntry { hash, epoch: 0, value: 0 },
    );
    let first = script_written(ws, path, ScriptRead::Text { hash, interface, stat }, key);
    let second = script_written(
        first,
        path,
        ScriptRead::Text { hash, interface: other, stat },
        key,
    );
    assert(workspace::parse_hit(first.applied, path, hash) is Some);
    assert(second.files.stats =~= first.files.stats);
}

/// A rename takes the old path out of the index, also where the new path is open.
pub proof fn lemma_rename_drops_source(
    ws: WorkspaceView,
    from: Seq<char>,
    to: Seq<char>,
    disk: DiskFacts,
    place: (bool, bool),
    open: Set<Seq<char>>,
)
    requires
        place.0,
        place.1,
        !open.contains(from),
        from != to,
    ensures
        !script_changed(
            ws,
            to,
            watcher::FileChangeView::Renamed { from, to },
            disk,
            place,
            open,
        ).files.index.dom().contains(from),
{
}

/// However many events of a batch ask for a reload, there is at most one, and one of the project
/// comprises one of the native surface.
pub proof fn lemma_one_reload(reactions: Seq<ReactionView>, i: int)
    requires
        0 <= i < reactions.len(),
    ensures
        asks_project(reactions[i]) ==> batch_reload(reactions) == Reload::Project,
        reactions[i] is ExtensionApiJson ==> batch_reload(reactions) != Reload::Nothing,
{
}

/// A script that was written in the project, and that no buffer holds, is known by what it declares
/// now and as it was found on disk. One that is gone is dropped, and one that cannot be read stays
/// as it was known. No other script is touched, nor is any scene or asset.
pub proof fn lemma_written_script_is_indexed(
    ws: WorkspaceView,
    path: Seq<char>,
    change: watcher::FileChangeView,
    disk: DiskFacts,
    open: Set<Seq<char>>,
    from_in_root: bool,
    other: Seq<char>,
)
    requires
        change is Created || change is Modified,
        !open.contains(path::normalized(path)),
        other != path::normalized(path),
    ensures
        ({
            let at = path::normalized(path);
            let reaction = ReactionView::GdSource { path, change };
            let after = reacted(ws, reaction, disk, (true, from_in_root), open);
            &&& disk.script matches ScriptRead::Text { hash, interface, stat } ==> {
                &&& workspace::parse_hit(ws.applied, at, hash) is None
                    ==> after.files.index.dom().contains(at) && after.files.index[at] == interface
                &&& workspace::parse_hit(ws.applied, at, hash) is Some ==> after.files.index
                    == ws.files.index
                &&& stat matches Some(stat) ==> after.files.stats.dom().contains(at)
                    && after.files.stats[at] == stat
                &&& stat is None ==> !after.files.stats.dom().contains(at)
            }
            &&& disk.script is NotFound ==> !after.files.index.dom().contains(at)
                && !after.files.stats.dom().contains(at)
            &&& disk.script is Unreadable ==> after == ws
            &&& after.files.index.dom().contains(other) == ws.files.index.dom().contains(other)
            &&& ws.files.index.dom().contains(other) ==> after.files.index[other]
                == ws.files.index[other]
            &&& after.files.scenes == ws.files.scenes && after.files.assets == ws.files.assets
        }),
{
}

/// A script that was deleted in the project, and that no buffer holds, is known no more, and neither
/// is what was cached of it; if it comes back it is read.
pub proof fn lemma_deleted_script_is_forgotten(
    ws: WorkspaceView,
    path: Seq<char>,
    disk: DiskFacts,
    open: Set<Seq<char>>,
    from_in_root: bool,
    other: Seq<char>,
    hash: u64,
)
    requires
        !open.contains(path::normalized(path)),
        other != path::normalized(path),
        lru_cache::well_kept(ws.parses, ws.capacity),
        lru_cache::well_kept(ws.analyses, ws.capacity),
        lru_cache::well_kept(ws.applied, workspace::DISK_APPLY_CAPACITY as nat),
    ensures
        ({
            let at = path::normalized(path);
            let reaction = ReactionView::GdSource {
                path,
                change: watcher::FileChangeView::Deleted,
            };
            let after = reacted(ws, reaction, disk, (true, from_in_root), open);
            &&& !after.files.index.dom().contains(at)
            &&& !after.files.stats.dom().contains(at)
            &&& workspace::parse_hit(after.applied, at, hash) is None
            &&& disk.key matches Some(key) ==> lru_cache::lookup(after.parses, key@) is None
                && lru_cache::lookup(after.analyses, key@) is None
            &&& after.files.index.dom().contains(other) == ws.files.index.dom().contains(other)
            &&& ws.files.index.dom().contains(other) ==> after.files.index[other]
                == ws.files.index[other]
        }),
{
    let at = path::normalized(path);
    lru_cache::lemma_without(ws.applied, workspace::DISK_APPLY_CAPACITY as nat, at);
    if disk.key is Some {
        lru_cache::lemma_without(ws.parses, ws.capacity, disk.key->0@);
        lru_cache::lemma_without(ws.analyses, ws.capacity, disk.key->0@);
    }
}

/// A script that was renamed within the project is known under its new path, by what it declares
/// there, and under its old path no more.
pub proof fn lemma_renamed_script_moves(
    ws: WorkspaceView,
    from: Seq<char>,
    to: Seq<char>,
    disk: DiskFacts,
    open: Set<Seq<char>>,
)
    requires
        path::normalized(from) != path::normalized(to),
        !open.contains(path::normalized(from)),
        !open.contains(path::normalized(to)),
    ensures
        ({
            let reaction = ReactionView::GdSource {
                path: to,
                change: watcher::FileChangeView::Renamed { from, to },
            };
            let after = reacted(ws, reaction, disk, (true, true), open);
            &&& !after.files.index.dom().contains(path::normalized(from))
            &&& !after.files.stats.dom().contains(path::normalized(from))
            &&& disk.script matches ScriptRead::Text { hash: _, interface, stat: _ }
                ==> after.files.index.dom().contains(path::normalized(to))
                && after.files.index[path::normalized(to)] == interface
        }),
{
}

/// A scene follows its file: written, it is known by what was read of it and stands for its path;
/// deleted or gone, it is known no more; renamed, both. One that cannot be read stays as it was
/// known. Scripts and assets are not touched.
pub proof fn lemma_scene_follows_its_file(
    ws: WorkspaceView,
    path: Seq<char>,
    change: watcher::FileChangeView,
    disk: DiskFacts,
    open: Set<Seq<char>>,
    from_in_root: bool,
    res: String,
)
    requires
        disk.res == Some(res),
        change matches watcher::FileChangeView::Renamed { from: _, to } ==> to == path,
    ensures
        ({
            let at = path::normalized(path);
            let after = reacted(
                ws,
                ReactionView::Scene { path, change },
                disk,
                (true, from_in_root),
                open,
            );
            &&& !(change is Deleted) ==> (disk.scene matches FileRead::Text(parse)
                ==> after.files.scenes.dom().contains(res@) && after.files.scenes[res@].parse
                == parse && after.files.scenes[res@].path == Some(at))
            &&& change is Deleted || disk.scene is NotFound ==> !after.files.scenes.dom().contains(
                res@,
            ) && !after.files.stats.dom().contains(at)
            &&& (change is Created || change is Modified) && disk.scene is Unreadable ==> after
                == ws
            &&& change is Renamed ==> (disk.from_res matches Some(old) ==> old@ != res@
                ==> !after.files.scenes.dom().contains(old@))
            &&& after.files.index == ws.files.index && after.files.assets == ws.files.assets
        }),
{
}

/// An asset follows its file: seen, it stands for its path; deleted, it is known no more; renamed,
/// both. Scripts and scenes are not touched.
pub proof fn lemma_asset_follows_its_file(
    ws: WorkspaceView,
    path: Seq<char>,
    change: watcher::FileChangeView,
    disk: DiskFacts,
    open: Set<Seq<char>>,
    from_in_root: bool,
    res: String,
)
    requires
        disk.res == Some(res),
        change matches watcher::FileChangeView::Renamed { from: _, to } ==> to == path,
    ensures
        ({
            let at = path::normalized(path);
            let after = reacted(
                ws,
                ReactionView::Asset { path, change },
                disk,
                (true, from_in_root),
                open,
            );
            &&& !(change is Deleted) ==> after.files.assets.dom().contains(res@)
                && after.files.assets[res@] == Some(at)
            &&& !(change is Deleted) && disk.stat is Some ==> after.files.stats.dom().contains(at)
                && after.files.stats[at] == disk.stat->0
            &&& change is Deleted ==> !after.files.assets.dom().contains(res@)
                && !after.files.stats.dom().contains(at)
            &&& change is Renamed ==> (disk.from_res matches Some(old) ==> old@ != res@
                ==> !after.files.assets.dom().contains(old@))
            &&& after.files.index == ws.files.index && after.files.scenes == ws.files.scenes
        }),
{
}

/// What concerns the project as a whole, and what is dropped, changes nothing of what is known of
/// files.
pub proof fn lemma_whole_project_waits(
    ws: WorkspaceView,
    reaction: ReactionView,
    disk: DiskFacts,
    place: (bool, bool),
    open: Set<Seq<char>>,
)
    requires
        !(reaction is GdSource) && !(reaction is Scene) && !(reaction is Asset),
    ensures
        reacted(ws, reaction, disk, place, open) == ws,
{
}

/// The reactions of a batch are applied one after the other, none left out.
pub proof fn lemma_batch_is_applied_in_order(
    ws: WorkspaceView,
    batch: Seq<Found>,
    places: Seq<(bool, bool)>,
    open: Set<Seq<char>>,
    next: Found,
    place: (bool, bool),
)
    requires
        places.len() == batch.len(),
    ensures
        all_reacted(ws, batch.push(next), places.push(place), open) == reacted(
            all_reacted(ws, batch, places, open),
            next.reaction@,
            next.disk,
            place,
            open,
        ),
        all_reacted(ws, Seq::empty(), Seq::empty(), open) == ws,
{
    assert(batch.push(next).drop_last() =~= batch);
    lemma_places_so_far(ws, batch, places.push(place), places, open);
}

/// The project is loaded anew exactly where its file, an extension or a page of documentation
/// changed; the native surface alone exactly where its dump did and nothing of these.
pub proof fn lemma_what_is_loaded_anew(reactions: Seq<ReactionView>)
    ensures
        batch_reload(reactions) is Project <==> exists|i: int|
            0 <= i < reactions.len() && ((#[trigger] reactions[i]) is ProjectGodot || reactions[i]
                is Gdextension || reactions[i] is DocClassesXml),
        batch_reload(reactions) is Native <==> (exists|i: int|
            0 <= i < reactions.len() && (#[trigger] reactions[i]) is ExtensionApiJson) && !(exists|
            i: int,
        |
            0 <= i < reactions.len() && ((#[trigger] reactions[i]) is ProjectGodot || reactions[i]
                is Gdextension || reactions[i] is DocClassesXml)),
{
    if exists|i: int|
        0 <= i < reactions.len() && ((#[trigger] reactions[i]) is ProjectGodot || reactions[i]
            is Gdextension || reactions[i] is DocClassesXml) {
        let i = choose|i: int|
            0 <= i < reactions.len() && ((#[trigger] reactions[i]) is ProjectGodot || reactions[i]
                is Gdextension || reactions[i] is DocClassesXml);
        assert(asks_project(reactions[i]));
    }
    if exists|i: int| 0 <= i < reactions.len() && asks_project(#[trigger] reactions[i]) {
        let i = choose|i: int| 0 <= i < reactions.len() && asks_project(#[trigger] reactions[i]);
        assert(reactions[i] is ProjectGodot || reactions[i] is Gdextension || reactions[i]
            is DocClassesXml);
    }
}

/// The file of a reaction is that of a source, a scene or an asset; the old path of a rename counts
/// for sources alone.
pub proof fn lemma_file_of_a_reaction(reaction: ReactionView)
    ensures
        reaction matches ReactionView::GdSource { path, change } ==> path_of(reaction) == Some(path)
            && (change matches watcher::FileChangeView::Renamed { from, to: _ } ==> source_of(
            reaction,
        ) == Some(from)) && (!(change is Renamed) ==> source_of(reaction) is None),
        reaction matches ReactionView::Scene { path, change: _ } ==> path_of(reaction) == Some(path),
        reaction matches ReactionView::Asset { path, change: _ } ==> path_of(reaction) == Some(path),
        !(reaction is GdSource) ==> source_of(reaction) is None,
        !(reaction is GdSource) && !(reaction is Scene) && !(reaction is Asset) ==> path_of(reaction)
            is None,
{
}

/// A path is in the project by its normalized form: however it and the root are spelled.
pub proof fn lemma_place_whatever_the_spelling(
    path: Seq<char>,
    same: Seq<char>,
    root: Seq<char>,
    same_root: Seq<char>,
)
    requires
        path::normalized(path) == path::normalized(same),
        path::normalized(root) == path::normalized(same_root),
    ensures
        in_project(path, root) == in_project(same, same_root),
        in_project(path, root) <==> path::same_start(path::normalized(path), path::normalized(root))
            && path::names(path::normalized(root)).is_prefix_of(
            path::names(path::normalized(path)),
        ),
{
}

/// Each reaction goes by its own name in traces, and a dropped event by its reason.
pub proof fn lemma_names_of_reactions(reaction: ReactionView)
    ensures
        reaction is GdSource ==> kind_name(reaction) == "gd_source"@,
        reaction is ProjectGodot ==> kind_name(reaction) == "project_godot"@,
        reaction is ExtensionApiJson ==> kind_name(reaction) == "extension_api_json"@,
        reaction is Gdextension ==> kind_name(reaction) == "gdextension"@,
        reaction is DocClassesXml ==> kind_name(reaction) == "doc_classes_xml"@,
        reaction is Scene ==> kind_name(reaction) == "scene"@,
        reaction is Asset ==> kind_name(reaction) == "asset"@,
        reaction matches ReactionView::Other(reason) ==> kind_name(reaction) == (match reason {
            watcher::SkipReason::NoPath => "skip_no_path"@,
            watcher::SkipReason::Excluded => "skip_excluded"@,
            watcher::SkipReason::AccessOnly => "skip_access_only"@,
            watcher::SkipReason::UnknownExtension => "skip_unknown_extension"@,
            watcher::SkipReason::NoExtension => "skip_no_extension"@,
            watcher::SkipReason::NotDocClasses => "skip_not_doc_classes"@,
        }),
{
}

/// The reactions of the watcher's events are those of each event, in the order of the events.
pub proof fn lemma_reactions_event_by_event(
    events: Seq<WatcherEvent>,
    next: WatcherEvent,
    root: Seq<char>,
    known: Seq<Seq<KnownPathView>>,
    paths: Seq<KnownPathView>,
)
    requires
        known.len() == events.len(),
    ensures
        event_reactions(events.push(next), root) == event_reactions(events, root)
            + watcher::classified(next.kind, watcher::usable_paths(next.paths@, root)),
        all_classified(events.push(next), known.push(paths)) == all_classified(events, known)
            + watcher::classified(next.kind, paths),
        event_reactions(Seq::empty(), root).len() == 0,
        all_classified(Seq::empty(), Seq::empty()).len() == 0,
{
    assert(events.push(next).drop_last() =~= events);
    lemma_known_so_far(events, known.push(paths), known);
}

/// A client's event is reacted to as the file that its URI stands for is: created, changed or
/// deleted. One of an excluded file is dropped, and of a URI without a path, or of a kind that is
/// not known, nothing follows.
pub proof fn lemma_reaction_to_a_client(
    event: ClientFileEvent,
    facts: PathFactsView,
    windows: bool,
)
    ensures
        ({
            let r = client_reaction_by(event, facts, windows);
            let file = path::normalized_opt(uri::uri_path(event.uri@, windows));
            &&& file is None || event.change is Other ==> r is None
            &&& file is Some && !(event.change is Other) && event.excluded ==> r == Some(
                ReactionView::Other(watcher::SkipReason::Excluded),
            )
            &&& file is Some && !event.excluded && event.change is Created ==> r == Some(
                watcher::reaction_of(file->0, watcher::FileChangeView::Created, facts),
            )
            &&& file is Some && !event.excluded && event.change is Changed ==> r == Some(
                watcher::reaction_of(file->0, watcher::FileChangeView::Modified, facts),
            )
            &&& file is Some && !event.excluded && event.change is Deleted ==> r == Some(
                watcher::reaction_of(file->0, watcher::FileChangeView::Deleted, facts),
            )
        }),
{
}

/// The reactions to a client's events are those of each event, in the order of the events.
pub proof fn lemma_reactions_client_event_by_event(
    events: Seq<ClientFileEvent>,
    next: ClientFileEvent,
    facts: Seq<PathFactsView>,
    last: PathFactsView,
    root: Seq<char>,
    windows: bool,
)
    requires
        facts.len() == events.len(),
    ensures
        client_reactions_by(events.push(next), facts.push(last), windows) == client_reactions_by(
            events,
            facts,
            windows,
        ) + (match client_reaction_by(next, last, windows) {
            Some(reaction) => seq![reaction],
            None => Seq::empty(),
        }),
        client_reactions(events.push(next), root, windows) == client_reactions(
            events,
            root,
            windows,
        ) + (match client_reaction(next, root, windows) {
            Some(reaction) => seq![reaction],
            None => Seq::empty(),
        }),
        client_reactions_by(Seq::empty(), Seq::empty(), windows).len() == 0,
        client_reactions(Seq::empty(), root, windows).len() == 0,
{
    assert(events.push(next).drop_last() =~= events);
    lemma_client_so_far(events, facts.push(last), facts, windows);
    assert(client_reactions_by(events.push(next), facts.push(last), windows) =~= client_reactions_by(
        events,
        facts,
        windows,
    ) + (match client_reaction_by(next, last, windows) {
        Some(reaction) => seq![reaction],
        None => Seq::empty(),
    }));
    assert(client_reactions(events.push(next), root, windows) =~= client_reactions(
        events,
        root,
        windows,
    ) + (match client_reaction(next, root, windows) {
        Some(reaction) => seq![reaction],
        None => Seq::empty(),
    }));
}

/// A client is asked to watch every kind of file that something follows from, and all other files
/// exactly where the server has no watcher of its own.
pub proof fn lemma_what_a_client_watches(native_watcher_armed: bool)
    ensures
        ({
            let globs = watched_globs(native_watcher_armed);
            &&& globs.contains("**/*.gd"@) && globs.contains("**/*.tscn"@)
            &&& globs.contains("**/project.godot"@) && globs.contains("**/*.gdextension"@)
            &&& globs.contains("**/extension_api.json"@)
            &&& globs.contains("**/doc_classes/*.xml"@)
            &&& globs.contains("**/*"@) <==> !native_watcher_armed
        }),
{
    let globs = watched_globs(native_watcher_armed);
    reveal_strlit("**/*");
    reveal_strlit("**/*.gd");
    reveal_strlit("**/*.tscn");
    reveal_strlit("**/project.godot");
    reveal_strlit("**/*.gdextension");
    reveal_strlit("**/extension_api.json");
    reveal_strlit("**/doc_classes/*.xml");
    assert(globs[0] == "**/*.gd"@ && globs[1] == "**/*.tscn"@ && globs[2] == "**/project.godot"@);
    assert(globs[3] == "**/*.gdextension"@ && globs[4] == "**/extension_api.json"@);
    assert(globs[5] == "**/doc_classes/*.xml"@);
    assert("**/*"@.len() == 4);
    if native_watcher_armed {
        assert forall|i: int| 0 <= i < globs.len() implies #[trigger] globs[i] != "**/*"@ by {
            assert(globs[i].len() > 4);
        }
    } else {
        assert(globs[6] == "**/*"@);
    }
}

/// The open buffers that have a URI are those whose text is one, in their order.
pub proof fn lemma_open_buffer_uris(texts: Seq<Seq<char>>)
    ensures
        parsed_uris(texts) == texts.filter(|one: Seq<char>| uri::is_uri(one)),
    decreases texts.len(),
{
    reveal(Seq::filter);
    if texts.len() > 0 {
        lemma_open_buffer_uris(texts.drop_last());
    }
    assert(parsed_uris(texts) =~= texts.filter(|one: Seq<char>| uri::is_uri(one)));
}

/// The open buffers are published again whose files became dirty, all of them and in their order,
/// but for the one whose edit caused it.
pub proof fn lemma_dirty_buffers_are_published(
    buffers: Seq<OpenBuffer>,
    dirty: Set<Seq<char>>,
    skip: Option<Seq<char>>,
)
    ensures
        ({
            let again = buffers.filter(
                |buffer: OpenBuffer|
                    Some(buffer.uri@) != skip && (buffer.path matches Some(path) && dirty.contains(
                        path::normalized(path@),
                    )),
            );
            let uris = stale_uris(buffers, dirty, skip);
            &&& uris.len() == again.len()
            &&& forall|i: int| 0 <= i < uris.len() ==> #[trigger] uris[i] == again[i].uri@
        }),
    decreases buffers.len(),
{
    reveal(Seq::filter);
    if buffers.len() > 0 {
        lemma_dirty_buffers_are_published(buffers.drop_last(), dirty, skip);
    }
}

/// A path is dirty, or open, by its normalized form.
pub proof fn lemma_paths_by_normalized_form(
    paths: Set<Seq<char>>,
    buffers: Seq<OpenBuffer>,
    path: Seq<char>,
    i: int,
)
    ensures
        paths.contains(path) ==> normalized_all(paths).contains(path::normalized(path)),
        0 <= i < buffers.len() && (buffers[i].path matches Some(at) && at@ == path) ==> buffer_paths(
            buffers,
        ).contains(path::normalized(path)),
        forall|key: Seq<char>| #[trigger]
            buffer_paths(buffers).contains(key) ==> exists|k: int|
                0 <= k < buffers.len() && (#[trigger] buffers[k]).path is Some && path::normalized(
                    buffers[k].path->0@,
                ) == key,
{
    assert forall|key: Seq<char>| #[trigger] buffer_paths(buffers).contains(key) implies exists|
        k: int,
    |
        0 <= k < buffers.len() && (#[trigger] buffers[k]).path is Some && path::normalized(
            buffers[k].path->0@,
        ) == key by {
        let k = choose|k: int|
            0 <= k < buffers.len() && buffer_path(#[trigger] buffers[k]) == Some(key);
        assert(path::normalized(buffers[k].path->0@) == key);
    }
    if 0 <= i < buffers.len() && (buffers[i].path matches Some(at) && at@ == path) {
        assert(buffer_path(buffers[i]) == Some(path::normalized(path)));
    }
}

/// A project that was loaded anew is published again as a whole, and built anew where its release
/// changed; a native surface that is another is published again and kept. Otherwise nothing follows.
pub proof fn lemma_what_follows_a_reload(reload: Reload, changed: bool)
    ensures
        ({
            let after = followed_by(reload, changed);
            &&& after.rebuild <==> reload is Project && changed
            &&& after.republish_all <==> reload is Project || (reload is Native && changed)
            &&& after.refresh_tokens <==> after.republish_all
            &&& after.save_cache <==> reload is Native && changed
        }),
{
}

/// A file that is open and changed on disk is the same where its buffer declares what it declares;
/// gone and unreadable files are told apart from edited ones.
pub proof fn lemma_what_a_disk_change_means(buffer: Option<u64>, disk: u64)
    ensures
        open_file_change(buffer, FileRead::Text(disk)) is SameInterface <==> buffer == Some(disk),
        open_file_change(buffer, FileRead::Text(disk)) is ExternalEdit <==> buffer != Some(disk),
        open_file_change(buffer, FileRead::NotFound) is Vanished,
        open_file_change(buffer, FileRead::Unreadable) is Unreadable,
{
}

/// Events were lost exactly where one of them says so.
pub proof fn lemma_lost_events(events: Seq<WatcherEvent>, event: WatcherEvent)
    ensures
        lost_events(events.push(event)) <==> lost_events(events) || event.need_rescan,
        !lost_events(Seq::empty()),
{
    let all = events.push(event);
    if lost_events(events) {
        let i = choose|i: int| 0 <= i < events.len() && (#[trigger] events[i]).need_rescan;
        assert(all[i].need_rescan);
    }
    if event.need_rescan {
        assert(all[events.len() as int].need_rescan);
    }
    if lost_events(all) {
        let i = choose|i: int| 0 <= i < all.len() && (#[trigger] all[i]).need_rescan;
        if i < events.len() {
            assert(events[i].need_rescan);
        }
    }
}

/// A buffer stands for the file of its URI, and for none where its URI is none or names no file.
pub proof fn lemma_file_of_a_buffer(buffer: OpenBuffer, text: Seq<char>, windows: bool)
    requires
        buffer_of(buffer, text, windows),
    ensures
        buffer.uri@ == text,
        uri::is_uri(text) ==> (uri::uri_path(text, windows) matches Some(file) ==> buffer.path
            is Some && buffer.path->0@ == path::normalized(file)),
        !uri::is_uri(text) || uri::uri_path(text, windows) is None ==> buffer.path is None,
{
}

/// What is said of batches, of URIs and of keys is said of each of them.
pub proof fn lemma_batches_as_they_are(
    batch: Seq<Found>,
    uris: Seq<Uri>,
    key: Option<CanonicalKey>,
)
    ensures
        found_reactions(batch).len() == batch.len(),
        forall|i: int|
            0 <= i < batch.len() ==> #[trigger] found_reactions(batch)[i] == batch[i].reaction@,
        uri_texts(uris).len() == uris.len(),
        forall|i: int| 0 <= i < uris.len() ==> #[trigger] uri_texts(uris)[i] == uris[i]@,
        key is None <==> key_text(key) is None,
        key matches Some(one) ==> key_text(key) == Some(one@),
{
}

/// A scene or an asset that was read is known with the stat that came with it, and one whose file
/// could not be looked at with none. The old path of a rename is forgotten.
pub proof fn lemma_stats_of_resources(
    ws: WorkspaceView,
    path: Seq<char>,
    change: watcher::FileChangeView,
    disk: DiskFacts,
    open: Set<Seq<char>>,
    from_in_root: bool,
    res: String,
)
    requires
        disk.res == Some(res),
        change is Created || change is Modified,
    ensures
        ({
            let at = path::normalized(path);
            let scene = reacted(
                ws,
                ReactionView::Scene { path, change },
                disk,
                (true, from_in_root),
                open,
            );
            let asset = reacted(
                ws,
                ReactionView::Asset { path, change },
                disk,
                (true, from_in_root),
                open,
            );
            &&& disk.scene is Text && disk.stat is Some ==> scene.files.stats.dom().contains(at)
                && scene.files.stats[at] == disk.stat->0
            &&& disk.scene is Text && disk.stat is None ==> !scene.files.stats.dom().contains(at)
            &&& disk.stat is None ==> !asset.files.stats.dom().contains(at)
        }),
{
}

/// Outside of the project, and in an open buffer, a change on disk counts for nothing.
pub proof fn lemma_what_does_not_count(
    ws: WorkspaceView,
    path: Seq<char>,
    change: watcher::FileChangeView,
    disk: DiskFacts,
    place: (bool, bool),
    open: Set<Seq<char>>,
)
    requires
        !(change is Renamed),
    ensures
        !place.0 ==> reacted(ws, ReactionView::GdSource { path, change }, disk, place, open) == ws,
        !place.0 ==> reacted(ws, ReactionView::Scene { path, change }, disk, place, open) == ws,
        !place.0 ==> reacted(ws, ReactionView::Asset { path, change }, disk, place, open) == ws,
        open.contains(path::normalized(path)) ==> reacted(
            ws,
            ReactionView::GdSource { path, change },
            disk,
            place,
            open,
        ).files.index == ws.files.index,
{
}

/// A normalized path is that of one of the paths, and of no other.
pub proof fn lemma_only_normalized_paths(paths: Set<Seq<char>>, key: Seq<char>)
    ensures
        normalized_all(paths).contains(key) <==> exists|path: Seq<char>| #[trigger]
            paths.contains(path) && path::normalized(path) == key,
{
}

} // verus!
