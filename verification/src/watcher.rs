//! What a change on disk means to the project: file events are classified into reactions.

use vstd::prelude::*;

use crate::path;
use crate::path::{extension, file_name, parent, same_path};
use crate::text;
use crate::text::{lowercase_is, opt_is, same_text};

verus! {

/// How long a burst of events has to be quiet before it is delivered, in milliseconds.
pub const DEBOUNCE_QUIET_MILLIS: u64 = 250;

// ---------------------------------------------------------------------------
// Changes and reactions.
// ---------------------------------------------------------------------------

/// What happened to a file.
#[derive(Debug)]
pub enum FileChange {
    Created,
    Modified,
    Deleted,
    /// Both ends of the rename are known.
    Renamed { from: String, to: String },
}

/// A file change over texts.
pub enum FileChangeView {
    Created,
    Modified,
    Deleted,
    Renamed { from: Seq<char>, to: Seq<char> },
}

impl View for FileChange {
    type V = FileChangeView;

    open spec fn view(&self) -> FileChangeView {
        match self {
            FileChange::Created => FileChangeView::Created,
            FileChange::Modified => FileChangeView::Modified,
            FileChange::Deleted => FileChangeView::Deleted,
            FileChange::Renamed { from, to } => FileChangeView::Renamed { from: from@, to: to@ },
        }
    }
}

impl Clone for FileChange {
    fn clone(&self) -> (r: FileChange)
        ensures
            r@ == self@,
    {
        match self {
            FileChange::Created => FileChange::Created,
            FileChange::Modified => FileChange::Modified,
            FileChange::Deleted => FileChange::Deleted,
            FileChange::Renamed { from, to } => FileChange::Renamed {
                from: from.clone(),
                to: to.clone(),
            },
        }
    }
}

/// Why an event is dropped.
#[derive(Debug, Clone, Copy, PartialEq, Eq, Structural)]
#[non_exhaustive]
pub enum SkipReason {
    /// The event carried no usable path.
    NoPath,
    /// The path is under an excluded directory.
    Excluded,
    /// The file was only read.
    AccessOnly,
    /// A file with an extension that is not tracked.
    UnknownExtension,
    /// A file without an extension.
    NoExtension,
    /// An `.xml` file that is not under a `doc_classes` directory.
    NotDocClasses,
}

/// The stable name of a reason.
pub open spec fn skip_name(reason: SkipReason) -> Seq<char> {
    match reason {
        SkipReason::NoPath => "skip_no_path"@,
        SkipReason::Excluded => "skip_excluded"@,
        SkipReason::AccessOnly => "skip_access_only"@,
        SkipReason::UnknownExtension => "skip_unknown_extension"@,
        SkipReason::NoExtension => "skip_no_extension"@,
        SkipReason::NotDocClasses => "skip_not_doc_classes"@,
    }
}

impl SkipReason {
    /// The stable lower-case name of the reason.
    #[must_use]
    pub fn as_str(self) -> (r: &'static str)
        ensures
            r@ == skip_name(self),
    {
        match self {
            SkipReason::NoPath => "skip_no_path",
            SkipReason::Excluded => "skip_excluded",
            SkipReason::AccessOnly => "skip_access_only",
            SkipReason::UnknownExtension => "skip_unknown_extension",
            SkipReason::NoExtension => "skip_no_extension",
            SkipReason::NotDocClasses => "skip_not_doc_classes",
        }
    }
}

/// What a file event concerns. `path` is where the file is now: for a rename it is the new path.
#[derive(Debug)]
#[non_exhaustive]
pub enum Reaction {
    /// A `.gd` source file changed.
    GdSource { path: String, change: FileChange },
    /// `project.godot` changed.
    ProjectGodot,
    /// The project's `extension_api.json` changed.
    ExtensionApiJson,
    /// A `.gdextension` file changed.
    Gdextension { path: String, change: FileChange },
    /// A `.tscn` scene changed.
    Scene { path: String, change: FileChange },
    /// A class documentation file changed.
    DocClassesXml { path: String },
    /// A file that scripts can load changed.
    Asset { path: String, change: FileChange },
    /// Anything else is dropped.
    Other(SkipReason),
}

/// A reaction over texts.
pub enum ReactionView {
    GdSource { path: Seq<char>, change: FileChangeView },
    ProjectGodot,
    ExtensionApiJson,
    Gdextension { path: Seq<char>, change: FileChangeView },
    Scene { path: Seq<char>, change: FileChangeView },
    DocClassesXml { path: Seq<char> },
    Asset { path: Seq<char>, change: FileChangeView },
    Other(SkipReason),
}

impl View for Reaction {
    type V = ReactionView;

    open spec fn view(&self) -> ReactionView {
        match self {
            Reaction::GdSource { path, change } => ReactionView::GdSource {
                path: path@,
                change: change@,
            },
            Reaction::ProjectGodot => ReactionView::ProjectGodot,
            Reaction::ExtensionApiJson => ReactionView::ExtensionApiJson,
            Reaction::Gdextension { path, change } => ReactionView::Gdextension {
                path: path@,
                change: change@,
            },
            Reaction::Scene { path, change } => ReactionView::Scene {
                path: path@,
                change: change@,
            },
            Reaction::DocClassesXml { path } => ReactionView::DocClassesXml { path: path@ },
            Reaction::Asset { path, change } => ReactionView::Asset {
                path: path@,
                change: change@,
            },
            Reaction::Other(reason) => ReactionView::Other(*reason),
        }
    }
}

/// The reactions of a list.
pub open spec fn reactions_view(reactions: Seq<Reaction>) -> Seq<ReactionView> {
    Seq::new(reactions.len(), |i: int| reactions[i]@)
}

// ---------------------------------------------------------------------------
// Paths.
// ---------------------------------------------------------------------------

/// What classification reads of a path.
pub struct PathFacts {
    pub file_name: Option<String>,
    pub extension: Option<String>,
    /// The name of the directory that holds the file.
    pub folder: Option<String>,
    /// Whether the directory that holds the file is the project root.
    pub at_root: bool,
}

/// Path facts over texts.
pub struct PathFactsView {
    pub file_name: Option<Seq<char>>,
    pub extension: Option<Seq<char>>,
    pub folder: Option<Seq<char>>,
    pub at_root: bool,
}

impl View for PathFacts {
    type V = PathFactsView;

    open spec fn view(&self) -> PathFactsView {
        PathFactsView {
            file_name: text::opt_string(self.file_name),
            extension: text::opt_string(self.extension),
            folder: text::opt_string(self.folder),
            at_root: self.at_root,
        }
    }
}

/// Whether a path reads the same under a root on every system: neither holds a backslash, each
/// begins with a slash or a drive, and the file is not right under a drive.
pub open spec fn clear(path: Seq<char>, root: Seq<char>) -> bool {
    path::nested(path) && path::comparable(path, root)
}

/// The facts of a path that is clear under a root.
pub open spec fn facts_of(path: Seq<char>, root: Seq<char>) -> PathFactsView {
    let names = path::names(path);
    PathFactsView {
        file_name: path::file_name_of(path),
        extension: path::extension_of(path),
        folder: if names.len() < 2 || names[names.len() - 2] == ".."@ {
            None
        } else {
            Some(names[names.len() - 2])
        },
        at_root: names.len() > 0 && path::same_start(path, root) && names.drop_last()
            == path::names(root),
    }
}

/// Whether those are facts that are read of a path: of its names, and of the directory that holds
/// it.
pub open spec fn reads_facts(path: Seq<char>, root: Seq<char>, facts: PathFactsView) -> bool {
    &&& path::reads_file_name(path, facts.file_name)
    &&& path::reads_extension(path, facts.extension)
    &&& exists|directory: Option<Seq<char>>| #[trigger]
        path::reads_parent(path, directory) && reads_place(directory, root, facts)
}

/// Whether the facts tell of that directory: its name, and whether it is the root.
pub open spec fn reads_place(
    directory: Option<Seq<char>>,
    root: Seq<char>,
    facts: PathFactsView,
) -> bool {
    match directory {
        Some(directory) => path::reads_file_name(directory, facts.folder) && path::reads_same_path(
            directory,
            root,
            facts.at_root,
        ),
        None => facts.folder is None && !facts.at_root,
    }
}

/// The facts of a clear path are the same on every system.
pub proof fn lemma_clear_facts(path: Seq<char>, root: Seq<char>, facts: PathFactsView)
    requires
        clear(path, root),
        reads_facts(path, root, facts),
    ensures
        facts == facts_of(path, root),
{
    let names = path::names(path);
    let directory = choose|directory: Option<Seq<char>>| #[trigger]
        path::reads_parent(path, directory) && reads_place(directory, root, facts);
    if names.len() >= 2 {
        assert(names.drop_last().last() == names[names.len() - 2]);
    }
    if directory is Some {
        assert(path::comparable(directory->0, root));
    }
}

/// Read the facts of a path.
pub fn path_facts(path: &str, project_root: &str) -> (r: PathFacts)
    ensures
        reads_facts(path@, project_root@, r@),
        clear(path@, project_root@) ==> r@ == facts_of(path@, project_root@),
{
    match parent(path) {
        Some(directory) => {
            let r = PathFacts {
                file_name: file_name(path),
                extension: extension(path),
                folder: file_name(directory.as_str()),
                at_root: same_path(directory.as_str(), project_root),
            };
            proof {
                assert(path::reads_parent(path@, Some(directory@)));
                assert(reads_place(Some(directory@), project_root@, r@));
                if clear(path@, project_root@) {
                    lemma_clear_facts(path@, project_root@, r@);
                }
            }
            r
        },
        None => {
            let r = PathFacts {
                file_name: file_name(path),
                extension: extension(path),
                folder: None,
                at_root: false,
            };
            proof {
                assert(path::reads_parent(path@, None));
                assert(reads_place(None, project_root@, r@));
                if clear(path@, project_root@) {
                    lemma_clear_facts(path@, project_root@, r@);
                }
            }
            r
        },
    }
}

// ---------------------------------------------------------------------------
// Classification of one path.
// ---------------------------------------------------------------------------

/// What a change of a path means, by the facts of the path.
pub open spec fn reaction_of(
    path: Seq<char>,
    change: FileChangeView,
    facts: PathFactsView,
) -> ReactionView {
    let lower = match facts.file_name {
        Some(name) => text::lowered(name),
        None => ""@,
    };
    if lower == "extension_api.json"@ && facts.at_root {
        ReactionView::ExtensionApiJson
    } else if lower == "project.godot"@ && facts.at_root {
        ReactionView::ProjectGodot
    } else {
        match facts.extension {
            Some(ext) => if ext == "gd"@ {
                ReactionView::GdSource { path, change }
            } else if ext == "tscn"@ {
                ReactionView::Scene { path, change }
            } else if ext == "gdextension"@ {
                ReactionView::Gdextension { path, change }
            } else if ext == "xml"@ {
                if facts.folder is Some && text::lowered(facts.folder->0) == "doc_classes"@ {
                    ReactionView::DocClassesXml { path }
                } else {
                    ReactionView::Other(SkipReason::NotDocClasses)
                }
            } else {
                ReactionView::Other(SkipReason::UnknownExtension)
            },
            None => ReactionView::Other(SkipReason::NoExtension),
        }
    }
}

/// A change of a source file at one path.
fn gd_source_one_sided(path: String, change: FileChange) -> (r: Reaction)
    requires
        !(change is Renamed),
    ensures
        r@ == (ReactionView::GdSource { path: path@, change: change@ }),
{
    Reaction::GdSource { path, change }
}

/// A rename of a source file: it is now at the new path.
fn gd_source_renamed(from: String, to: String) -> (r: Reaction)
    ensures
        r@ == (ReactionView::GdSource {
            path: to@,
            change: FileChangeView::Renamed { from: from@, to: to@ },
        }),
{
    let path = to.clone();
    Reaction::GdSource { path, change: FileChange::Renamed { from, to } }
}

/// Classify a change of a path whose facts are known.
pub fn reaction_for_facts(path: &str, change: FileChange, facts: &PathFacts) -> (r: Reaction)
    requires
        !(change is Renamed),
    ensures
        r@ == reaction_of(path@, change@, facts@),
{
    proof {
        reveal_strlit("");
        reveal_strlit("extension_api.json");
        reveal_strlit("project.godot");
        assert(""@.len() != "extension_api.json"@.len());
        assert(""@.len() != "project.godot"@.len());
    }
    let is_dump: bool = match &facts.file_name {
        Some(name) => lowercase_is(name.as_str(), "extension_api.json"),
        None => false,
    };
    if is_dump && facts.at_root {
        return Reaction::ExtensionApiJson;
    }
    let is_project: bool = match &facts.file_name {
        Some(name) => lowercase_is(name.as_str(), "project.godot"),
        None => false,
    };
    if is_project && facts.at_root {
        return Reaction::ProjectGodot;
    }
    match &facts.extension {
        Some(ext) => {
            if same_text(ext.as_str(), "gd") {
                gd_source_one_sided(path.to_owned(), change)
            } else if same_text(ext.as_str(), "tscn") {
                Reaction::Scene { path: path.to_owned(), change }
            } else if same_text(ext.as_str(), "gdextension") {
                Reaction::Gdextension { path: path.to_owned(), change }
            } else if same_text(ext.as_str(), "xml") {
                let documented: bool = match &facts.folder {
                    Some(folder) => lowercase_is(folder.as_str(), "doc_classes"),
                    None => false,
                };
                if documented {
                    Reaction::DocClassesXml { path: path.to_owned() }
                } else {
                    Reaction::Other(SkipReason::NotDocClasses)
                }
            } else {
                Reaction::Other(SkipReason::UnknownExtension)
            }
        },
        None => Reaction::Other(SkipReason::NoExtension),
    }
}

/// Classify a change of a path. The root matters to `extension_api.json` and `project.godot` alone:
/// elsewhere in the tree they mean nothing.
pub fn reaction_for_path(path: &str, change: FileChange, project_root: &str) -> (r: Reaction)
    requires
        !(change is Renamed),
    ensures
        clear(path@, project_root@) ==> r@ == reaction_of(
            path@,
            change@,
            facts_of(path@, project_root@),
        ),
        exists|facts: PathFactsView|
            reads_facts(path@, project_root@, facts) && r@ == #[trigger] reaction_of(
                path@,
                change@,
                facts,
            ),
{
    let facts = path_facts(path, project_root);
    reaction_for_facts(path, change, &facts)
}

/// Classify a file event that the client delivered, by the rules of the watcher's own events.
/// `excluded` says whether the path is under an excluded directory.
pub fn classify_client_event(
    path: &str,
    change: FileChange,
    project_root: &str,
    excluded: bool,
) -> (r: Reaction)
    requires
        !(change is Renamed),
    ensures
        excluded ==> r@ == ReactionView::Other(SkipReason::Excluded),
        !excluded && clear(path@, project_root@) ==> r@ == reaction_of(
            path@,
            change@,
            facts_of(path@, project_root@),
        ),
        !excluded ==> exists|facts: PathFactsView|
            reads_facts(path@, project_root@, facts) && r@ == #[trigger] reaction_of(
                path@,
                change@,
                facts,
            ),
{
    if excluded {
        return Reaction::Other(SkipReason::Excluded);
    }
    reaction_for_path(path, change, project_root)
}

// ---------------------------------------------------------------------------
// Classification of one event.
// ---------------------------------------------------------------------------

/// The kind of a debounced file event.
#[derive(Debug, Clone, Copy, PartialEq, Eq, Structural)]
pub enum EventKind {
    Any,
    Access,
    Create,
    /// A rename whose two ends the event names, old path first.
    RenameBoth,
    /// Any other modification, a rename with one known end included.
    Modify,
    Remove,
    Other,
}

/// A path of an event: its text, where it is UTF-8, and whether it is under an excluded directory.
pub struct EventPath {
    pub path: Option<String>,
    pub excluded: bool,
}

/// A path of an event with its facts.
pub struct KnownPath {
    pub path: String,
    pub excluded: bool,
    pub facts: PathFacts,
}

/// A known path over texts.
pub struct KnownPathView {
    pub path: Seq<char>,
    pub excluded: bool,
    pub facts: PathFactsView,
}

impl View for KnownPath {
    type V = KnownPathView;

    open spec fn view(&self) -> KnownPathView {
        KnownPathView { path: self.path@, excluded: self.excluded, facts: self.facts@ }
    }
}

/// The known paths of a list.
pub open spec fn known_view(paths: Seq<KnownPath>) -> Seq<KnownPathView> {
    Seq::new(paths.len(), |i: int| paths[i]@)
}

/// What an event kind says of the files it names; `None` for a mere access.
pub open spec fn change_of(kind: EventKind) -> Option<FileChangeView> {
    match kind {
        EventKind::Create => Some(FileChangeView::Created),
        EventKind::Remove => Some(FileChangeView::Deleted),
        EventKind::Access => None,
        _ => Some(FileChangeView::Modified),
    }
}

/// The reactions to a change of several paths, the excluded ones left out.
pub open spec fn each_reaction(paths: Seq<KnownPathView>, change: FileChangeView) -> Seq<
    ReactionView,
>
    decreases paths.len(),
{
    if paths.len() == 0 {
        Seq::empty()
    } else if paths.last().excluded {
        each_reaction(paths.drop_last(), change)
    } else {
        each_reaction(paths.drop_last(), change).push(
            reaction_of(paths.last().path, change, paths.last().facts),
        )
    }
}

/// The reactions to a rename with two known ends. An excluded end makes it a creation or a
/// deletion; a rename of sources stays one; any other is a deletion and a creation.
pub open spec fn rename_reactions(from: KnownPathView, to: KnownPathView) -> Seq<ReactionView> {
    let deleted = reaction_of(from.path, FileChangeView::Deleted, from.facts);
    let created = reaction_of(to.path, FileChangeView::Created, to.facts);
    if from.excluded && to.excluded {
        seq![ReactionView::Other(SkipReason::Excluded)]
    } else if to.excluded {
        seq![deleted]
    } else if from.excluded {
        seq![created]
    } else if from.facts.extension == Some("gd"@) && to.facts.extension == Some("gd"@) {
        seq![
            ReactionView::GdSource {
                path: to.path,
                change: FileChangeView::Renamed { from: from.path, to: to.path },
            },
        ]
    } else {
        seq![deleted, created]
    }
}

/// The reactions to an event with the given usable paths.
pub open spec fn classified(kind: EventKind, paths: Seq<KnownPathView>) -> Seq<ReactionView> {
    if paths.len() == 0 {
        seq![ReactionView::Other(SkipReason::NoPath)]
    } else if kind == EventKind::RenameBoth && paths.len() == 2 {
        rename_reactions(paths[0], paths[1])
    } else {
        match change_of(kind) {
            Some(change) => each_reaction(paths, change),
            None => seq![ReactionView::Other(SkipReason::AccessOnly)],
        }
    }
}

/// Classify an event whose usable paths and their facts are known.
pub fn classify_known(kind: EventKind, paths: &Vec<KnownPath>) -> (r: Vec<Reaction>)
    ensures
        reactions_view(r@) == classified(kind, known_view(paths@)),
{
    let ghost known = known_view(paths@);
    if paths.len() == 0 {
        let r = vec![Reaction::Other(SkipReason::NoPath)];
        proof {
            assert(reactions_view(r@) =~= classified(kind, known));
        }
        return r;
    }
    if kind == EventKind::RenameBoth && paths.len() == 2 {
        let from = &paths[0];
        let to = &paths[1];
        let r: Vec<Reaction> = if from.excluded && to.excluded {
            vec![Reaction::Other(SkipReason::Excluded)]
        } else if to.excluded {
            vec![reaction_for_facts(from.path.as_str(), FileChange::Deleted, &from.facts)]
        } else if from.excluded {
            vec![reaction_for_facts(to.path.as_str(), FileChange::Created, &to.facts)]
        } else if opt_is(&from.facts.extension, "gd") && opt_is(&to.facts.extension, "gd") {
            vec![gd_source_renamed(from.path.clone(), to.path.clone())]
        } else {
            vec![
                reaction_for_facts(from.path.as_str(), FileChange::Deleted, &from.facts),
                reaction_for_facts(to.path.as_str(), FileChange::Created, &to.facts),
            ]
        };
        proof {
            assert(known[0] == from@ && known[1] == to@);
            assert(reactions_view(r@) =~= rename_reactions(known[0], known[1]));
        }
        return r;
    }
    let change = match kind {
        EventKind::Create => FileChange::Created,
        EventKind::Remove => FileChange::Deleted,
        EventKind::Access => {
            let r = vec![Reaction::Other(SkipReason::AccessOnly)];
            proof {
                assert(reactions_view(r@) =~= classified(kind, known));
            }
            return r;
        },
        _ => FileChange::Modified,
    };
    let mut r: Vec<Reaction> = Vec::new();
    let mut i: usize = 0;
    proof {
        assert(known.take(0) =~= Seq::<KnownPathView>::empty());
        assert(reactions_view(r@) =~= each_reaction(known.take(0), change@));
    }
    while i < paths.len()
        invariant
            0 <= i <= paths@.len(),
            known == known_view(paths@),
            !(change is Renamed),
            reactions_view(r@) == each_reaction(known.take(i as int), change@),
        decreases paths@.len() - i,
    {
        let ghost before = r@;
        proof {
            assert(known.take(i as int + 1).drop_last() =~= known.take(i as int));
            assert(known.take(i as int + 1).last() == paths@[i as int]@);
        }
        if !paths[i].excluded {
            let one = reaction_for_facts(paths[i].path.as_str(), change.clone(), &paths[i].facts);
            let ghost seen = one@;
            r.push(one);
            proof {
                assert(reactions_view(r@) =~= reactions_view(before).push(seen));
            }
        }
        i = i + 1;
    }
    proof {
        assert(known.take(i as int) =~= known);
    }
    r
}

/// The usable paths of an event, with their facts under the root.
pub open spec fn usable_paths(paths: Seq<EventPath>, root: Seq<char>) -> Seq<KnownPathView>
    decreases paths.len(),
{
    if paths.len() == 0 {
        Seq::empty()
    } else {
        let before = usable_paths(paths.drop_last(), root);
        match paths.last().path {
            Some(path) => before.push(
                KnownPathView {
                    path: path@,
                    excluded: paths.last().excluded,
                    facts: facts_of(path@, root),
                },
            ),
            None => before,
        }
    }
}

/// Whether every usable path of an event is clear.
pub open spec fn all_clear(paths: Seq<EventPath>, root: Seq<char>) -> bool {
    forall|i: int|
        0 <= i < paths.len() ==> ((#[trigger] paths[i]).path matches Some(path) ==> clear(
            path@,
            root,
        ))
}

/// Whether those are the usable paths of an event, in their order, with facts that are read of them.
pub open spec fn reads_paths(
    paths: Seq<EventPath>,
    root: Seq<char>,
    known: Seq<KnownPathView>,
) -> bool
    decreases paths.len(),
{
    if paths.len() == 0 {
        known.len() == 0
    } else {
        match paths.last().path {
            Some(path) => {
                &&& known.len() > 0
                &&& known.last().path == path@
                &&& known.last().excluded == paths.last().excluded
                &&& reads_facts(path@, root, known.last().facts)
                &&& reads_paths(paths.drop_last(), root, known.drop_last())
            },
            None => reads_paths(paths.drop_last(), root, known),
        }
    }
}

/// Where every usable path of an event is clear, its usable paths are the same on every system.
pub proof fn lemma_clear_paths(
    paths: Seq<EventPath>,
    root: Seq<char>,
    known: Seq<KnownPathView>,
)
    requires
        all_clear(paths, root),
        reads_paths(paths, root, known),
    ensures
        known == usable_paths(paths, root),
    decreases paths.len(),
{
    if paths.len() > 0 {
        let before = paths.drop_last();
        assert forall|i: int| 0 <= i < before.len() implies ((#[trigger] before[i]).path
            matches Some(path) ==> clear(path@, root)) by {
            assert(before[i] == paths[i]);
        }
        match paths.last().path {
            Some(path) => {
                assert(paths[paths.len() - 1] == paths.last());
                lemma_clear_facts(path@, root, known.last().facts);
                lemma_clear_paths(before, root, known.drop_last());
                assert(known =~= known.drop_last().push(known.last()));
            },
            None => {
                lemma_clear_paths(before, root, known);
            },
        }
    }
}

/// Classify a debounced event. Paths that are not UTF-8 are left out; each other path gives a
/// reaction of its own, but for a rename of a source file, which gives one.
pub fn classify_event(kind: EventKind, paths: &Vec<EventPath>, project_root: &str) -> (r: Vec<
    Reaction,
>)
    ensures
        all_clear(paths@, project_root@) ==> reactions_view(r@) == classified(
            kind,
            usable_paths(paths@, project_root@),
        ),
        exists|known: Seq<KnownPathView>|
            reads_paths(paths@, project_root@, known) && reactions_view(r@)
                == #[trigger] classified(kind, known),
{
    let mut known: Vec<KnownPath> = Vec::new();
    let mut i: usize = 0;
    proof {
        assert(paths@.take(0) =~= Seq::<EventPath>::empty());
    }
    while i < paths.len()
        invariant
            0 <= i <= paths@.len(),
            reads_paths(paths@.take(i as int), project_root@, known_view(known@)),
        decreases paths@.len() - i,
    {
        let ghost before = known@;
        proof {
            assert(paths@.take(i as int + 1).drop_last() =~= paths@.take(i as int));
            assert(paths@.take(i as int + 1).last() == paths@[i as int]);
        }
        match &paths[i].path {
            Some(path) => {
                let one = KnownPath {
                    path: path.clone(),
                    excluded: paths[i].excluded,
                    facts: path_facts(path.as_str(), project_root),
                };
                let ghost seen = one@;
                known.push(one);
                proof {
                    assert(known_view(known@).last() == seen);
                    assert(known_view(known@).drop_last() =~= known_view(before));
                }
            },
            None => {},
        }
        i = i + 1;
    }
    proof {
        assert(paths@.take(i as int) =~= paths@);
        if all_clear(paths@, project_root@) {
            lemma_clear_paths(paths@, project_root@, known_view(known@));
        }
    }
    classify_known(kind, &known)
}

// ---------------------------------------------------------------------------
// The watch root.
// ---------------------------------------------------------------------------

/// How an attempt to open the watch root ended.
#[derive(Debug, Clone, Copy, PartialEq, Eq, Structural)]
pub enum RootProbe {
    /// It was opened. Where its identity was known before, whether it is still the same.
    Opened { same_identity: Option<bool> },
    NotFound,
    /// Another failure, which may pass.
    Failed,
}

/// Whether the watch root is still the directory that is watched.
pub open spec fn root_stands(probe: RootProbe) -> bool {
    match probe {
        RootProbe::Opened { same_identity } => same_identity != Some(false),
        RootProbe::NotFound => false,
        RootProbe::Failed => true,
    }
}

/// Whether the watch root is still the directory that is watched. A directory made anew at the same
/// path is not; a failure that may pass does not count against it.
pub fn root_exists(probe: RootProbe) -> (r: bool)
    ensures
        r == root_stands(probe),
{
    match probe {
        RootProbe::Opened { same_identity } => match same_identity {
            Some(same) => same,
            None => true,
        },
        RootProbe::NotFound => false,
        RootProbe::Failed => true,
    }
}

// ---------------------------------------------------------------------------
// Laws.
// ---------------------------------------------------------------------------

/// A reaction to a renamed source names the new path.
pub open spec fn path_is_destination(reaction: ReactionView) -> bool {
    reaction matches ReactionView::GdSource { path, change } ==> (
    change matches FileChangeView::Renamed { to, .. } ==> path == to)
}

/// Whatever the event, a source reaction's path is where the file is now.
pub proof fn lemma_source_path_is_destination(kind: EventKind, paths: Seq<KnownPathView>)
    ensures
        forall|i: int|
            0 <= i < classified(kind, paths).len() ==> path_is_destination(
                #[trigger] classified(kind, paths)[i],
            ),
{
    match change_of(kind) {
        Some(change) => {
            lemma_each_one_sided(paths, change);
        },
        None => {},
    }
}

proof fn lemma_each_one_sided(paths: Seq<KnownPathView>, change: FileChangeView)
    requires
        !(change is Renamed),
    ensures
        forall|i: int|
            0 <= i < each_reaction(paths, change).len() ==> path_is_destination(
                #[trigger] each_reaction(paths, change)[i],
            ),
    decreases paths.len(),
{
    if paths.len() > 0 {
        lemma_each_one_sided(paths.drop_last(), change);
        let all = each_reaction(paths, change);
        let before = each_reaction(paths.drop_last(), change);
        assert forall|i: int| 0 <= i < all.len() implies path_is_destination(#[trigger] all[i]) by {
            if i < before.len() {
                assert(all[i] == before[i]);
            }
        }
    }
}

/// The client's event of a path and the watcher's own event of it alone give the same reaction:
/// no client event reaches what a watcher event could not.
pub proof fn lemma_one_funnel(path: KnownPathView, kind: EventKind)
    requires
        !path.excluded,
        kind == EventKind::Create || kind == EventKind::Modify || kind == EventKind::Remove,
    ensures
        change_of(kind) matches Some(change) && classified(kind, seq![path]) == seq![
            reaction_of(path.path, change, path.facts),
        ],
{
    let change = change_of(kind)->0;
    let paths = seq![path];
    assert(paths.drop_last() =~= Seq::<KnownPathView>::empty());
    assert(each_reaction(paths.drop_last(), change) =~= Seq::<ReactionView>::empty());
    assert(each_reaction(paths, change) =~= seq![reaction_of(path.path, change, path.facts)]);
}

/// An excluded path gives no reaction, or one that is dropped.
pub proof fn lemma_excluded_is_inert(kind: EventKind, paths: Seq<KnownPathView>)
    requires
        forall|i: int| 0 <= i < paths.len() ==> (#[trigger] paths[i]).excluded,
    ensures
        forall|i: int|
            0 <= i < classified(kind, paths).len() ==> (#[trigger] classified(
                kind,
                paths,
            )[i]) is Other,
{
    match change_of(kind) {
        Some(change) => {
            lemma_each_excluded(paths, change);
        },
        None => {},
    }
}

proof fn lemma_each_excluded(paths: Seq<KnownPathView>, change: FileChangeView)
    requires
        forall|i: int| 0 <= i < paths.len() ==> (#[trigger] paths[i]).excluded,
    ensures
        each_reaction(paths, change).len() == 0,
    decreases paths.len(),
{
    if paths.len() > 0 {
        lemma_each_excluded(paths.drop_last(), change);
    }
}

/// What a change of a file means follows from the file alone: the two files of the project root that
/// the server loads, told by their names in any case; a source, a scene, an extension and a page of
/// documentation in `doc_classes`, told by their extensions. Nothing else means anything. Of a file
/// that is followed by its path, path and change are kept as they are.
pub proof fn lemma_what_a_file_means(path: Seq<char>, change: FileChangeView, facts: PathFactsView)
    ensures
        ({
            let r = reaction_of(path, change, facts);
            let named = |name: Seq<char>| facts.file_name is Some && text::lowered(
                facts.file_name->0,
            ) == name;
            let dump = facts.at_root && named("extension_api.json"@);
            let project = facts.at_root && named("project.godot"@) && !dump;
            let other = !dump && !project;
            let ext = facts.extension;
            let documented = facts.folder is Some && text::lowered(facts.folder->0)
                == "doc_classes"@;
            &&& dump <==> r is ExtensionApiJson
            &&& project <==> r is ProjectGodot
            &&& other && ext == Some("gd"@) ==> r == (ReactionView::GdSource { path, change })
            &&& other && ext == Some("tscn"@) ==> r == (ReactionView::Scene { path, change })
            &&& other && ext == Some("gdextension"@) ==> r == (ReactionView::Gdextension {
                path,
                change,
            })
            &&& other && ext == Some("xml"@) && documented ==> r == (ReactionView::DocClassesXml {
                path,
            })
            &&& other && ext == Some("xml"@) && !documented ==> r == ReactionView::Other(
                SkipReason::NotDocClasses,
            )
            &&& other && ext is None ==> r == ReactionView::Other(SkipReason::NoExtension)
            &&& other && ext is Some && ext->0 != "gd"@ && ext->0 != "tscn"@ && ext->0
                != "gdextension"@ && ext->0 != "xml"@ ==> r == ReactionView::Other(
                SkipReason::UnknownExtension,
            )
        }),
{
    reveal_strlit("");
    reveal_strlit("extension_api.json");
    reveal_strlit("project.godot");
    reveal_strlit("gd");
    reveal_strlit("tscn");
    reveal_strlit("gdextension");
    reveal_strlit("xml");
    assert("project.godot"@.len() == 13 && "extension_api.json"@.len() == 18);
    assert("gd"@.len() == 2 && "tscn"@.len() == 4 && "gdextension"@.len() == 11 && "xml"@.len()
        == 3);
}

/// A rename with two known ends that are both watched is known of both ends. One of a source stays a
/// rename; any other removes what was at the old path and adds what is at the new one, in this
/// order.
pub proof fn lemma_rename_covers_both_ends(from: KnownPathView, to: KnownPathView)
    requires
        !from.excluded,
        !to.excluded,
    ensures
        ({
            let r = classified(EventKind::RenameBoth, seq![from, to]);
            if from.facts.extension == Some("gd"@) && to.facts.extension == Some("gd"@) {
                r.len() == 1 && r[0] == (ReactionView::GdSource {
                    path: to.path,
                    change: FileChangeView::Renamed { from: from.path, to: to.path },
                })
            } else {
                &&& r.len() == 2
                &&& r[0] == reaction_of(from.path, FileChangeView::Deleted, from.facts)
                &&& r[1] == reaction_of(to.path, FileChangeView::Created, to.facts)
            }
        }),
{
}

/// Whether a reaction takes a file away from its path.
pub open spec fn takes_away(reaction: ReactionView, path: Seq<char>) -> bool {
    match reaction {
        ReactionView::GdSource { path: at, change } => at == path && change is Deleted || (
        change matches FileChangeView::Renamed { from, .. } && from == path),
        ReactionView::Scene { path: at, change } => at == path && change is Deleted,
        ReactionView::Gdextension { path: at, change } => at == path && change is Deleted,
        ReactionView::DocClassesXml { path: at } => at == path,
        _ => false,
    }
}

/// Whether a reaction puts a file at its path.
pub open spec fn puts_there(reaction: ReactionView, path: Seq<char>) -> bool {
    match reaction {
        ReactionView::GdSource { path: at, change } => at == path && (change is Created || (
        change matches FileChangeView::Renamed { to, .. } && to == path)),
        ReactionView::Scene { path: at, change } => at == path && change is Created,
        ReactionView::Gdextension { path: at, change } => at == path && change is Created,
        ReactionView::DocClassesXml { path: at } => at == path,
        _ => false,
    }
}

/// A followed file that is renamed is taken away from its old path and put at its new one, whatever
/// kind of file it is and whatever it becomes.
pub proof fn lemma_renamed_file_moves(from: KnownPathView, to: KnownPathView)
    requires
        !from.excluded,
        !to.excluded,
    ensures
        ({
            let r = classified(EventKind::RenameBoth, seq![from, to]);
            let ordinary = |facts: PathFactsView| !facts.at_root;
            let followed = |facts: PathFactsView|
                facts.extension == Some("gd"@) || facts.extension == Some("tscn"@)
                    || facts.extension == Some("gdextension"@) || (facts.extension == Some("xml"@)
                    && facts.folder is Some && text::lowered(facts.folder->0) == "doc_classes"@);
            &&& ordinary(from.facts) && followed(from.facts) ==> exists|i: int|
                0 <= i < r.len() && takes_away(#[trigger] r[i], from.path)
            &&& ordinary(to.facts) && followed(to.facts) ==> exists|i: int|
                0 <= i < r.len() && puts_there(#[trigger] r[i], to.path)
        }),
{
    lemma_rename_covers_both_ends(from, to);
    lemma_what_a_file_means(from.path, FileChangeView::Deleted, from.facts);
    lemma_what_a_file_means(to.path, FileChangeView::Created, to.facts);
    let r = classified(EventKind::RenameBoth, seq![from, to]);
    if r.len() == 1 {
        assert(takes_away(r[0], from.path));
        assert(puts_there(r[0], to.path));
    } else {
        assert(r[0] == reaction_of(from.path, FileChangeView::Deleted, from.facts));
        assert(r[1] == reaction_of(to.path, FileChangeView::Created, to.facts));
    }
}

/// A rename over the border of what is watched is what can be seen of it: into an excluded directory
/// the file is gone, out of one it is new, and within one nothing happened.
pub proof fn lemma_rename_over_the_border(from: KnownPathView, to: KnownPathView)
    ensures
        ({
            let r = classified(EventKind::RenameBoth, seq![from, to]);
            &&& from.excluded || to.excluded ==> r.len() == 1
            &&& from.excluded && to.excluded ==> r[0] == ReactionView::Other(SkipReason::Excluded)
            &&& to.excluded && !from.excluded ==> r[0] == reaction_of(
                from.path,
                FileChangeView::Deleted,
                from.facts,
            )
            &&& from.excluded && !to.excluded ==> r[0] == reaction_of(
                to.path,
                FileChangeView::Created,
                to.facts,
            )
        }),
{
}

/// Every path of an event that is watched gets its own reaction, in the order of the paths, and no
/// other path does: a creation or a deletion where the event says so, else a modification.
pub proof fn lemma_each_watched_path_reacts(kind: EventKind, paths: Seq<KnownPathView>)
    requires
        paths.len() > 0,
        kind != EventKind::Access,
        kind == EventKind::RenameBoth ==> paths.len() != 2,
    ensures
        ({
            let r = classified(kind, paths);
            let watched = paths.filter(|path: KnownPathView| !path.excluded);
            let change = if kind == EventKind::Create {
                FileChangeView::Created
            } else if kind == EventKind::Remove {
                FileChangeView::Deleted
            } else {
                FileChangeView::Modified
            };
            &&& r.len() == watched.len()
            &&& forall|i: int|
                0 <= i < r.len() ==> #[trigger] r[i] == reaction_of(
                    watched[i].path,
                    change,
                    watched[i].facts,
                )
        }),
{
    let change = change_of(kind)->0;
    lemma_each_is_filtered(paths, change);
}

proof fn lemma_each_is_filtered(paths: Seq<KnownPathView>, change: FileChangeView)
    ensures
        ({
            let r = each_reaction(paths, change);
            let watched = paths.filter(|path: KnownPathView| !path.excluded);
            &&& r.len() == watched.len()
            &&& forall|i: int|
                0 <= i < r.len() ==> #[trigger] r[i] == reaction_of(
                    watched[i].path,
                    change,
                    watched[i].facts,
                )
        }),
    decreases paths.len(),
{
    reveal(Seq::filter);
    if paths.len() > 0 {
        lemma_each_is_filtered(paths.drop_last(), change);
    }
}

/// An event without a usable path, and one of a mere access, are dropped, each with its reason.
pub proof fn lemma_what_is_dropped(kind: EventKind, paths: Seq<KnownPathView>)
    ensures
        paths.len() == 0 ==> classified(kind, paths) == seq![
            ReactionView::Other(SkipReason::NoPath),
        ],
        paths.len() > 0 && kind == EventKind::Access ==> classified(kind, paths) == seq![
            ReactionView::Other(SkipReason::AccessOnly),
        ],
{
}

/// The paths of an event that are UTF-8 are used, each with its place and in their order.
pub proof fn lemma_usable_paths(paths: Seq<EventPath>, root: Seq<char>)
    ensures
        ({
            let usable = usable_paths(paths, root);
            let readable = paths.filter(|path: EventPath| path.path is Some);
            &&& usable.len() == readable.len()
            &&& forall|i: int|
                0 <= i < usable.len() ==> (#[trigger] usable[i]).path == readable[i].path->0@
                    && usable[i].excluded == readable[i].excluded && usable[i].facts == facts_of(
                    readable[i].path->0@,
                    root,
                )
        }),
    decreases paths.len(),
{
    reveal(Seq::filter);
    if paths.len() > 0 {
        lemma_usable_paths(paths.drop_last(), root);
    }
}

/// The facts of a file `folder/name.ext` in a directory: its name, its extension, the name of the
/// directory, and whether that directory is the root.
pub proof fn lemma_facts_of_a_file(path: Seq<char>, root: Seq<char>)
    requires
        path::names(path).len() >= 1,
        path::names(path).last() != ".."@,
    ensures
        ({
            let names = path::names(path);
            let facts = facts_of(path, root);
            &&& facts.file_name == Some(names.last())
            &&& facts.extension == path::extension_in(names.last())
            &&& names.len() == 1 ==> facts.folder is None
            &&& names.len() >= 2 && names[names.len() - 2] != ".."@ ==> facts.folder == Some(
                names[names.len() - 2],
            )
            &&& facts.at_root <==> path::same_start(path, root) && path::names(root)
                == names.take(names.len() - 1)
        }),
{
    let names = path::names(path);
    assert(names.drop_last() =~= names.take(names.len() - 1));
}

/// A watch root is lost exactly where it is gone or is another directory; where that cannot be told
/// it is taken to be there.
pub proof fn lemma_when_the_root_is_lost(probe: RootProbe)
    ensures
        probe is NotFound ==> !root_stands(probe),
        probe is Failed ==> root_stands(probe),
        probe matches RootProbe::Opened { same_identity } ==> (!root_stands(probe) <==> same_identity
            is Some && !same_identity->0),
{
}

/// What is said of a change, of a reaction and of a file's facts is said of the values themselves.
pub proof fn lemma_changes_as_they_are(change: FileChange, reaction: Reaction, facts: PathFacts)
    ensures
        change is Created <==> change@ is Created,
        change is Modified <==> change@ is Modified,
        change is Deleted <==> change@ is Deleted,
        change matches FileChange::Renamed { from, to } ==> change@ == (FileChangeView::Renamed {
            from: from@,
            to: to@,
        }),
        reaction is GdSource <==> reaction@ is GdSource,
        reaction is ProjectGodot <==> reaction@ is ProjectGodot,
        reaction is ExtensionApiJson <==> reaction@ is ExtensionApiJson,
        reaction is Gdextension <==> reaction@ is Gdextension,
        reaction is DocClassesXml <==> reaction@ is DocClassesXml,
        reaction is Scene <==> reaction@ is Scene,
        reaction is Asset <==> reaction@ is Asset,
        reaction matches Reaction::GdSource { path, change } ==> reaction@
            == (ReactionView::GdSource { path: path@, change: change@ }),
        reaction matches Reaction::Scene { path, change } ==> reaction@ == (ReactionView::Scene {
            path: path@,
            change: change@,
        }),
        reaction matches Reaction::Asset { path, change } ==> reaction@ == (ReactionView::Asset {
            path: path@,
            change: change@,
        }),
        reaction matches Reaction::Other(reason) ==> reaction@ == ReactionView::Other(reason),
        facts@.file_name == text::opt_string(facts.file_name),
        facts@.extension == text::opt_string(facts.extension),
        facts@.folder == text::opt_string(facts.folder),
        facts@.at_root == facts.at_root,
{
}

/// What is said of lists of reactions and of paths is said of each of them.
pub proof fn lemma_lists_as_they_are(reactions: Seq<Reaction>, paths: Seq<KnownPath>)
    ensures
        reactions_view(reactions).len() == reactions.len(),
        forall|i: int|
            0 <= i < reactions.len() ==> #[trigger] reactions_view(reactions)[i] == reactions[i]@,
        known_view(paths).len() == paths.len(),
        forall|i: int|
            0 <= i < paths.len() ==> (#[trigger] known_view(paths)[i]).path == paths[i].path@
                && known_view(paths)[i].excluded == paths[i].excluded
                && known_view(paths)[i].facts == paths[i].facts@,
{
}

} // verus!
