//! Cross-file queries of the analyzer, answered from the index and from what is cached.
//!
//! An analysis asks for facts about other files while it runs. The answers are conservative: a
//! cached fact that may be stale, or a scene that leaves a question open, gives no answer rather
//! than a wrong one.

use vstd::prelude::*;
use vstd::string::*;

use crate::files::PathSet;
use crate::lru_cache;
use crate::text;
use crate::text::{opt_is, same_text};
use crate::text_map::TextMap;
use crate::uri;
use crate::uri::CanonicalKey;
use crate::workspace;
use crate::workspace::Workspace;

verus! {

/// The number of a script in the index; the first script has number one.
#[derive(Debug, Clone, Copy, PartialEq, Eq, Structural)]
pub struct FileId(pub u32);

/// A script of the index.
pub struct ScriptFile {
    pub path: String,
    /// The path on disk that it leads to, where it exists.
    pub resolved: Option<String>,
    /// How often the file, or what it depends on, changed.
    pub epoch: u64,
}

/// What the index knows of the scripts.
pub struct ScriptIndex {
    pub files: Vec<ScriptFile>,
    /// The script of each global class name.
    pub classes: TextMap<FileId>,
    /// The script of each resource path.
    pub resources: TextMap<FileId>,
}

/// The script with a number.
pub open spec fn script_at(index: ScriptIndex, file: FileId) -> Option<ScriptFile> {
    if 1 <= file.0 <= index.files@.len() {
        Some(index.files@[file.0 - 1])
    } else {
        None
    }
}

/// What a map holds under a text.
pub open spec fn held<V>(map: Map<Seq<char>, V>, key: Seq<char>) -> Option<V> {
    if map.dom().contains(key) {
        Some(map[key])
    } else {
        None
    }
}

fn held_file(map: &TextMap<FileId>, key: &str) -> (r: Option<FileId>)
    ensures
        r == held(map@, key@),
{
    match map.get(key) {
        Some(file) => Some(*file),
        None => None,
    }
}

impl ScriptIndex {
    /// The script with a number.
    pub fn script(&self, file: FileId) -> (r: Option<&ScriptFile>)
        ensures
            match r {
                Some(script) => script_at(*self, file) == Some(*script),
                None => script_at(*self, file) is None,
            },
    {
        let n: usize = self.files.len();
        let id: usize = file.0 as usize;
        if 1 <= id && id <= n {
            Some(&self.files[id - 1])
        } else {
            None
        }
    }
}

// ---------------------------------------------------------------------------
// Autoloads.
// ---------------------------------------------------------------------------

/// What types an autoload.
pub enum AutoloadTyping {
    /// The script at a resource path.
    Script(String),
    /// A scene without a script.
    NativeNode,
}

/// An autoload of the project file.
pub struct Autoload {
    pub name: String,
    pub is_singleton: bool,
    pub typing: Option<AutoloadTyping>,
}

/// The autoloads as the analyzer sees them.
pub struct AutoloadEnv {
    script: TextMap<FileId>,
    native: TextMap<String>,
    names: PathSet,
}

#[verifier::ext_equal]
pub struct AutoloadEnvView {
    pub script: Map<Seq<char>, FileId>,
    pub native: Map<Seq<char>, Seq<char>>,
    pub names: Set<Seq<char>>,
}

impl View for AutoloadEnv {
    type V = AutoloadEnvView;

    closed spec fn view(&self) -> AutoloadEnvView {
        AutoloadEnvView {
            script: self.script@,
            native: workspace::text_values(self.native@),
            names: self.names@.dom(),
        }
    }
}

/// No autoloads.
pub open spec fn no_autoloads() -> AutoloadEnvView {
    AutoloadEnvView { script: Map::empty(), native: Map::empty(), names: Set::empty() }
}

/// The environment with one more autoload. One that is no singleton is no global name. One whose
/// script is not in the index yet is a name without a type.
pub open spec fn and_autoload(
    env: AutoloadEnvView,
    index: ScriptIndex,
    autoload: Autoload,
) -> AutoloadEnvView {
    if !autoload.is_singleton {
        env
    } else {
        let named = AutoloadEnvView { names: env.names.insert(autoload.name@), ..env };
        match autoload.typing {
            Some(AutoloadTyping::Script(res)) => match held(index.resources@, res@) {
                Some(file) => AutoloadEnvView {
                    script: env.script.insert(autoload.name@, file),
                    ..named
                },
                None => named,
            },
            Some(AutoloadTyping::NativeNode) => AutoloadEnvView {
                native: env.native.insert(autoload.name@, "Node"@),
                ..named
            },
            None => named,
        }
    }
}

/// The environment of a list of autoloads.
pub open spec fn autoload_env(autoloads: Seq<Autoload>, index: ScriptIndex) -> AutoloadEnvView
    decreases autoloads.len(),
{
    if autoloads.len() == 0 {
        no_autoloads()
    } else {
        and_autoload(autoload_env(autoloads.drop_last(), index), index, autoloads.last())
    }
}

/// The autoloads of a project as the analyzer sees them.
pub fn build_autoload_maps(autoloads: &Vec<Autoload>, index: &ScriptIndex) -> (r: AutoloadEnv)
    ensures
        r@ == autoload_env(autoloads@, *index),
{
    let mut env = AutoloadEnv {
        script: TextMap::new(),
        native: TextMap::new(),
        names: TextMap::new(),
    };
    let mut i: usize = 0;
    proof {
        assert(env@ =~= no_autoloads());
        assert(autoloads@.take(0) =~= Seq::<Autoload>::empty());
    }
    while i < autoloads.len()
        invariant
            0 <= i <= autoloads@.len(),
            env@ == autoload_env(autoloads@.take(i as int), *index),
        decreases autoloads@.len() - i,
    {
        let ghost before = env@;
        let autoload = &autoloads[i];
        proof {
            assert(autoloads@.take(i as int + 1).drop_last() =~= autoloads@.take(i as int));
            assert(autoloads@.take(i as int + 1).last() == autoloads@[i as int]);
        }
        if autoload.is_singleton {
            let _ = env.names.insert(autoload.name.clone(), ());
            match &autoload.typing {
                Some(AutoloadTyping::Script(res)) => {
                    if let Some(file) = held_file(&index.resources, res.as_str()) {
                        let _ = env.script.insert(autoload.name.clone(), file);
                    }
                },
                Some(AutoloadTyping::NativeNode) => {
                    let ghost kept = env.native@;
                    let _ = env.native.insert(autoload.name.clone(), "Node".to_owned());
                    proof {
                        assert(workspace::text_values(env.native@) =~= workspace::text_values(
                            kept,
                        ).insert(autoload.name@, "Node"@));
                    }
                },
                None => {},
            }
        }
        proof {
            assert(env@ =~= and_autoload(before, *index, *autoload));
        }
        i = i + 1;
    }
    proof {
        assert(autoloads@.take(i as int) =~= autoloads@);
    }
    env
}

// ---------------------------------------------------------------------------
// Scenes.
// ---------------------------------------------------------------------------

/// A node of a scene.
pub struct SceneNode {
    pub path: String,
    /// The resource path of the script attached to it.
    pub script: Option<String>,
}

/// What a node path leads to.
pub struct ResolvedRoot {
    pub script: Option<String>,
    pub native_type: Option<String>,
}

/// A scene that attaches a script, and what the access in question leads to in it from the node
/// that has the script.
pub struct AttachingScene {
    pub nodes: Vec<SceneNode>,
    pub resolved: Option<ResolvedRoot>,
}

/// What is known of a node.
#[derive(Debug, PartialEq, Eq)]
pub enum SceneNodeFacts {
    Script(FileId),
    Native(String),
}

pub enum SceneNodeFactsView {
    Script(FileId),
    Native(Seq<char>),
}

impl View for SceneNodeFacts {
    type V = SceneNodeFactsView;

    open spec fn view(&self) -> SceneNodeFactsView {
        match self {
            SceneNodeFacts::Script(file) => SceneNodeFactsView::Script(*file),
            SceneNodeFacts::Native(name) => SceneNodeFactsView::Native(name@),
        }
    }
}

/// What is known of a node, as a plain value.
pub open spec fn facts_view(facts: Option<SceneNodeFacts>) -> Option<SceneNodeFactsView> {
    match facts {
        Some(facts) => Some(facts@),
        None => None,
    }
}

/// Whether a node has the script.
pub open spec fn attaches(node: SceneNode, script_res: Seq<char>) -> bool {
    text::opt_string(node.script) == Some(script_res)
}

/// The one node that has the script, where there is exactly one.
pub open spec fn attachment(nodes: Seq<SceneNode>, script_res: Seq<char>) -> Option<Seq<char>>
    decreases nodes.len(),
{
    if nodes.len() == 0 {
        None
    } else if attaches(nodes.last(), script_res) {
        if exists|i: int| 0 <= i < nodes.len() - 1 && attaches(#[trigger] nodes[i], script_res) {
            None
        } else {
            Some(nodes.last().path@)
        }
    } else {
        attachment(nodes.drop_last(), script_res)
    }
}

/// What is known of a node that was found: its script counts before its native type, as far as the
/// index has the script.
pub open spec fn root_facts(resolved: ResolvedRoot, index: ScriptIndex) -> Option<
    SceneNodeFactsView,
> {
    let file = match resolved.script {
        Some(res) => held(index.resources@, res@),
        None => None,
    };
    match (file, resolved.native_type) {
        (Some(file), _) => Some(SceneNodeFactsView::Script(file)),
        (None, Some(name)) => Some(SceneNodeFactsView::Native(name@)),
        (None, None) => None,
    }
}

/// What one scene says of an access.
pub open spec fn scene_facts(
    scene: AttachingScene,
    script_res: Seq<char>,
    index: ScriptIndex,
) -> Option<SceneNodeFactsView> {
    match (attachment(scene.nodes@, script_res), scene.resolved) {
        (Some(_), Some(resolved)) => root_facts(resolved, index),
        _ => None,
    }
}

/// What all scenes say of an access, where they all say the same.
pub open spec fn agreed_facts(
    scenes: Seq<AttachingScene>,
    script_res: Seq<char>,
    index: ScriptIndex,
) -> Option<SceneNodeFactsView> {
    if scenes.len() > 0 && forall|i: int|
        0 <= i < scenes.len() ==> scene_facts(#[trigger] scenes[i], script_res, index)
            == scene_facts(scenes[0], script_res, index) {
        scene_facts(scenes[0], script_res, index)
    } else {
        None
    }
}

/// The node from which a script's relative accesses start in a scene. A script that is attached at
/// several nodes has none.
pub fn attachment_node(nodes: &Vec<SceneNode>, script_res: &str) -> (r: Option<String>)
    ensures
        text::opt_string(r) == attachment(nodes@, script_res@),
{
    let mut found: Option<usize> = None;
    let mut i: usize = 0;
    proof {
        assert(nodes@.take(0) =~= Seq::<SceneNode>::empty());
    }
    while i < nodes.len()
        invariant
            0 <= i <= nodes@.len(),
            match found {
                Some(k) => k < i && attaches(nodes@[k as int], script_res@) && attachment(
                    nodes@.take(i as int),
                    script_res@,
                ) == Some(nodes@[k as int].path@),
                None => attachment(nodes@.take(i as int), script_res@) is None,
            },
            forall|j: int|
                0 <= j < i && attaches(#[trigger] nodes@[j], script_res@) ==> found
                    == Some(j as usize),
        decreases nodes@.len() - i,
    {
        proof {
            let more = nodes@.take(i as int + 1);
            assert(more.drop_last() =~= nodes@.take(i as int));
            assert(more.last() == nodes@[i as int]);
            assert(forall|j: int| 0 <= j < i ==> more[j] == nodes@[j]);
        }
        if opt_is(&nodes[i].script, script_res) {
            if let Some(k) = found {
                proof {
                    lemma_two_attachments(nodes@, script_res@, k as int, i as int);
                }
                return None;
            }
            found = Some(i);
        }
        i = i + 1;
    }
    proof {
        assert(nodes@.take(i as int) =~= nodes@);
    }
    match found {
        Some(k) => Some(nodes[k].path.clone()),
        None => None,
    }
}

/// A script that is attached at two nodes has no one node.
pub proof fn lemma_two_attachments(
    nodes: Seq<SceneNode>,
    script_res: Seq<char>,
    i: int,
    j: int,
)
    requires
        0 <= i < j < nodes.len(),
        attaches(nodes[i], script_res),
        attaches(nodes[j], script_res),
    ensures
        attachment(nodes, script_res) is None,
    decreases nodes.len(),
{
    if j < nodes.len() - 1 {
        lemma_two_attachments(nodes.drop_last(), script_res, i, j);
    }
}

fn same_facts(a: &SceneNodeFacts, b: &SceneNodeFacts) -> (r: bool)
    ensures
        r == (a@ == b@),
{
    match (a, b) {
        (SceneNodeFacts::Script(x), SceneNodeFacts::Script(y)) => x.0 == y.0,
        (SceneNodeFacts::Native(x), SceneNodeFacts::Native(y)) => same_text(
            x.as_str(),
            y.as_str(),
        ),
        _ => false,
    }
}

// ---------------------------------------------------------------------------
// Member references.
// ---------------------------------------------------------------------------

/// A member of another file that an initializer refers to.
#[derive(Debug, PartialEq, Eq)]
pub struct MemberXref {
    pub target_file: FileId,
    pub target_member: String,
}

impl Clone for MemberXref {
    fn clone(&self) -> (r: MemberXref)
        ensures
            r == *self,
    {
        MemberXref { target_file: self.target_file, target_member: self.target_member.clone() }
    }
}

/// The references of each member's initializer, as an analysis found them.
pub type MemberXrefs = TextMap<Vec<MemberXref>>;

fn copy_xrefs(xrefs: &Vec<MemberXref>) -> (r: Vec<MemberXref>)
    ensures
        r@ == xrefs@,
{
    let mut r: Vec<MemberXref> = Vec::new();
    let mut i: usize = 0;
    while i < xrefs.len()
        invariant
            0 <= i <= xrefs@.len(),
            r@ == xrefs@.take(i as int),
        decreases xrefs@.len() - i,
    {
        r.push(xrefs[i].clone());
        proof {
            assert(xrefs@.take(i as int + 1) =~= xrefs@.take(i as int).push(xrefs@[i as int]));
        }
        i = i + 1;
    }
    proof {
        assert(xrefs@.take(i as int) =~= xrefs@);
    }
    r
}

/// The cache key of a script.
pub open spec fn script_key(script: ScriptFile) -> Option<Seq<char>> {
    uri::path_key(script.path@, text::opt_string(script.resolved))
}

/// The references of a member's initializer that are known: those of the cached analysis of its
/// file, as long as that is of the file's present epoch.
pub open spec fn known_xrefs(
    index: ScriptIndex,
    analyses: workspace::Entries,
    results: Seq<MemberXrefs>,
    file: FileId,
    member: Seq<char>,
) -> Seq<MemberXref> {
    match script_at(index, file) {
        Some(script) => match script_key(script) {
            Some(key) => match lru_cache::lookup(analyses, key) {
                Some(entry) => if entry.epoch == script.epoch && entry.value < results.len()
                    && results[entry.value as int]@.dom().contains(member) {
                    results[entry.value as int]@[member]@
                } else {
                    Seq::empty()
                },
                None => Seq::empty(),
            },
            None => Seq::empty(),
        },
        None => Seq::empty(),
    }
}

/// The answers to one analysis' questions about other files. An analysis in the cache is a number,
/// under which `results` has what it recorded.
pub struct WorkspaceXFileQuery<'a> {
    pub index: &'a ScriptIndex,
    pub workspace: &'a Workspace,
    pub results: &'a Vec<MemberXrefs>,
    pub autoloads: AutoloadEnv,
}

impl<'a> WorkspaceXFileQuery<'a> {
    /// A query over an index and the caches of a workspace.
    pub fn new(
        index: &'a ScriptIndex,
        workspace: &'a Workspace,
        results: &'a Vec<MemberXrefs>,
        autoloads: AutoloadEnv,
    ) -> (r: WorkspaceXFileQuery<'a>)
        ensures
            *r.index == *index,
            *r.workspace == *workspace,
            *r.results == *results,
            r.autoloads == autoloads,
    {
        WorkspaceXFileQuery { index, workspace, results, autoloads }
    }

    /// The script of a global class.
    pub fn global_class_file(&self, name: &str) -> (r: Option<FileId>)
        ensures
            r == held(self.index.classes@, name@),
    {
        held_file(&self.index.classes, name)
    }

    /// The script at a resource path.
    pub fn resolve_res_path(&self, path: &str) -> (r: Option<FileId>)
        ensures
            r == held(self.index.resources@, path@),
    {
        held_file(&self.index.resources, path)
    }

    /// The path of a script.
    pub fn file_path(&self, file: FileId) -> (r: Option<&str>)
        ensures
            text::opt_str(r) == (match script_at(*self.index, file) {
                Some(script) => Some(script.path@),
                None => None,
            }),
    {
        match self.index.script(file) {
            Some(script) => Some(script.path.as_str()),
            None => None,
        }
    }

    /// The script of an autoload.
    pub fn autoload_file(&self, name: &str) -> (r: Option<FileId>)
        ensures
            r == held(self.autoloads@.script, name@),
    {
        held_file(&self.autoloads.script, name)
    }

    /// The native class of an autoload without a script.
    pub fn autoload_native_type(&self, name: &str) -> (r: Option<&str>)
        ensures
            text::opt_str(r) == held(self.autoloads@.native, name@),
    {
        match self.autoloads.native.get(name) {
            Some(class) => Some(class.as_str()),
            None => None,
        }
    }

    /// Whether a name is that of an autoload, typed or not.
    pub fn is_autoload(&self, name: &str) -> (r: bool)
        ensures
            r == self.autoloads@.names.contains(name@),
    {
        self.autoloads.names.contains_key(name)
    }

    /// What is known of a node that was found.
    pub fn resolved_root_to_facts(&self, resolved: &ResolvedRoot) -> (r: Option<SceneNodeFacts>)
        ensures
            facts_view(r) == root_facts(*resolved, *self.index),
    {
        if let Some(res) = &resolved.script {
            if let Some(file) = self.resolve_res_path(res.as_str()) {
                return Some(SceneNodeFacts::Script(file));
            }
        }
        match &resolved.native_type {
            Some(name) => Some(SceneNodeFacts::Native(name.clone())),
            None => None,
        }
    }

    /// What one scene says of an access.
    pub fn resolve_one_scene(&self, scene: &AttachingScene, script_res: &str) -> (r: Option<
        SceneNodeFacts,
    >)
        ensures
            facts_view(r) == scene_facts(*scene, script_res@, *self.index),
    {
        if attachment_node(&scene.nodes, script_res).is_none() {
            return None;
        }
        match &scene.resolved {
            Some(resolved) => self.resolved_root_to_facts(resolved),
            None => None,
        }
    }

    /// What is known of the node that a script's access leads to: what every scene that attaches
    /// the script says of it. A scene that cannot say, or that says something else, leaves nothing
    /// known. `script_res` is the resource path of the script, where it has one.
    pub fn scene_node_facts(&self, script_res: Option<&str>, scenes: &Vec<AttachingScene>) -> (r:
        Option<SceneNodeFacts>)
        ensures
            facts_view(r) == (match script_res {
                Some(res) => agreed_facts(scenes@, res@, *self.index),
                None => None,
            }),
    {
        let wanted: &str = match script_res {
            Some(res) => res,
            None => return None,
        };
        let mut agreed: Option<SceneNodeFacts> = None;
        let mut i: usize = 0;
        while i < scenes.len()
            invariant
                0 <= i <= scenes@.len(),
                text::opt_str(script_res) == Some(wanted@),
                i == 0 <==> agreed is None,
                forall|j: int|
                    0 <= j < i ==> scene_facts(#[trigger] scenes@[j], wanted@, *self.index)
                        == facts_view(agreed),
            decreases scenes@.len() - i,
        {
            let facts = match self.resolve_one_scene(&scenes[i], wanted) {
                Some(facts) => facts,
                None => {
                    proof {
                        lemma_one_miss_is_permissive(
                            scenes@,
                            wanted@,
                            *self.index,
                            i as int,
                        );
                    }
                    return None;
                },
            };
            match &agreed {
                None => {
                    agreed = Some(facts);
                },
                Some(earlier) => {
                    if !same_facts(earlier, &facts) {
                        proof {
                            assert(scene_facts(scenes@[0], wanted@, *self.index) == facts_view(
                                agreed,
                            ));
                            assert(scene_facts(scenes@[i as int], wanted@, *self.index)
                                != scene_facts(scenes@[0], wanted@, *self.index));
                        }
                        return None;
                    }
                },
            }
            i = i + 1;
        }
        agreed
    }

    /// The references of a member's initializer that are known. The cache is only looked at: which
    /// entries were used last stays as it is.
    pub fn member_initializer_xrefs(&self, file: FileId, member: &str) -> (r: Vec<MemberXref>)
        ensures
            r@ == known_xrefs(
                *self.index,
                self.workspace@.analyses,
                self.results@,
                file,
                member@,
            ),
    {
        let script = match self.index.script(file) {
            Some(script) => script,
            None => return Vec::new(),
        };
        let resolved: Option<&str> = match &script.resolved {
            Some(resolved) => Some(resolved.as_str()),
            None => None,
        };
        let key = match CanonicalKey::for_path(script.path.as_str(), resolved) {
            Some(key) => key,
            None => return Vec::new(),
        };
        let value: u64 = match self.workspace.peek_analysis(&key, script.epoch) {
            Some(value) => value,
            None => return Vec::new(),
        };
        let n: u64 = self.results.len() as u64;
        if value >= n {
            return Vec::new();
        }
        match self.results[value as usize].get(member) {
            Some(xrefs) => copy_xrefs(xrefs),
            None => Vec::new(),
        }
    }
}

// ---------------------------------------------------------------------------
// Laws.
// ---------------------------------------------------------------------------

/// A scene that cannot resolve an access leaves nothing known of it.
pub proof fn lemma_one_miss_is_permissive(
    scenes: Seq<AttachingScene>,
    script_res: Seq<char>,
    index: ScriptIndex,
    i: int,
)
    requires
        0 <= i < scenes.len(),
        scene_facts(scenes[i], script_res, index) is None,
    ensures
        agreed_facts(scenes, script_res, index) is None,
{
}

/// What is known of an access is what each attaching scene says of it.
pub proof fn lemma_facts_hold_in_every_scene(
    scenes: Seq<AttachingScene>,
    script_res: Seq<char>,
    index: ScriptIndex,
    i: int,
)
    requires
        0 <= i < scenes.len(),
        agreed_facts(scenes, script_res, index) is Some,
    ensures
        scene_facts(scenes[i], script_res, index) == agreed_facts(scenes, script_res, index),
{
}

/// A dependency that changed since it was analyzed has no known references.
pub proof fn lemma_stale_dependency_has_no_xrefs(
    index: ScriptIndex,
    analyses: workspace::Entries,
    results: Seq<MemberXrefs>,
    file: FileId,
    member: Seq<char>,
)
    requires
        script_at(index, file) is Some,
        script_key(script_at(index, file)->0) is Some,
        lru_cache::lookup(analyses, script_key(script_at(index, file)->0)->0) is Some,
        lru_cache::lookup(analyses, script_key(script_at(index, file)->0)->0)->0.epoch
            != script_at(index, file)->0.epoch,
    ensures
        known_xrefs(index, analyses, results, file, member) == Seq::<MemberXref>::empty(),
{
}

/// An analysis that was cached under the URI that a client wrote is the one whose references are
/// read by the path of the file.
pub proof fn lemma_written_by_uri_read_by_path(
    index: ScriptIndex,
    analyses: workspace::Entries,
    capacity: nat,
    results: Seq<MemberXrefs>,
    file: FileId,
    member: Seq<char>,
    uri_text: Seq<char>,
    windows: bool,
    entry: lru_cache::CacheEntry,
)
    requires
        lru_cache::well_kept(analyses, capacity),
        script_at(index, file) is Some,
        script_key(script_at(index, file)->0) is Some,
        uri::uri_path(uri_text, windows) == Some(script_at(index, file)->0.path@),
        entry.epoch == script_at(index, file)->0.epoch,
        entry.value < results.len(),
        results[entry.value as int]@.dom().contains(member),
    ensures
        ({
            let script = script_at(index, file)->0;
            let key = uri::uri_key(uri_text, text::opt_string(script.resolved), windows);
            known_xrefs(
                index,
                lru_cache::stored(analyses, capacity, key, entry),
                results,
                file,
                member,
            ) == results[entry.value as int]@[member]@
        }),
{
    let script = script_at(index, file)->0;
    let resolved = text::opt_string(script.resolved);
    uri::lemma_keys_agree(uri_text, script.path@, resolved, windows);
    lru_cache::lemma_stored(analyses, capacity, uri::uri_key(uri_text, resolved, windows), entry);
}

/// The scripts are numbered from one, without a gap.
pub proof fn lemma_script_numbers(index: ScriptIndex, i: int)
    requires
        0 <= i < index.files@.len() < u32::MAX,
    ensures
        script_at(index, FileId((i + 1) as u32)) == Some(index.files@[i]),
        script_at(index, FileId(0)) is None,
        forall|file: FileId| #[trigger]
            script_at(index, file) is Some ==> 1 <= file.0 <= index.files@.len(),
{
}

/// Which names are autoloads: those of the singletons.
pub proof fn lemma_names_of_autoloads(
    autoloads: Seq<Autoload>,
    index: ScriptIndex,
    name: Seq<char>,
)
    ensures
        autoload_env(autoloads, index).names.contains(name) <==> exists|i: int|
            0 <= i < autoloads.len() && (#[trigger] autoloads[i]).is_singleton
                && autoloads[i].name@ == name,
    decreases autoloads.len(),
{
    if autoloads.len() > 0 {
        let before = autoloads.drop_last();
        lemma_names_of_autoloads(before, index, name);
        assert(forall|i: int| 0 <= i < before.len() ==> before[i] == autoloads[i]);
        if exists|i: int|
            0 <= i < autoloads.len() && (#[trigger] autoloads[i]).is_singleton
                && autoloads[i].name@ == name {
            let i = choose|i: int|
                0 <= i < autoloads.len() && (#[trigger] autoloads[i]).is_singleton
                    && autoloads[i].name@ == name;
            if i < before.len() {
                assert(before[i].is_singleton);
            }
        }
        if exists|i: int|
            0 <= i < before.len() && (#[trigger] before[i]).is_singleton && before[i].name@
                == name {
            let i = choose|i: int|
                0 <= i < before.len() && (#[trigger] before[i]).is_singleton && before[i].name@
                    == name;
            assert(autoloads[i].is_singleton);
        }
        assert(autoloads.last() == autoloads[autoloads.len() - 1]);
    }
}

/// A singleton whose script the index has stands for that script, and one that is a plain node for
/// the class of nodes; the last entry of a name counts.
pub proof fn lemma_what_an_autoload_stands_for(
    autoloads: Seq<Autoload>,
    index: ScriptIndex,
    i: int,
)
    requires
        0 <= i < autoloads.len(),
        autoloads[i].is_singleton,
        forall|j: int| i < j < autoloads.len() ==> (#[trigger] autoloads[j]).name@
            != autoloads[i].name@,
    ensures
        ({
            let env = autoload_env(autoloads, index);
            let name = autoloads[i].name@;
            &&& autoloads[i].typing matches Some(AutoloadTyping::Script(res)) ==> (
            index.resources@.dom().contains(res@) ==> held(env.script, name) == Some(
                index.resources@[res@],
            ))
            &&& autoloads[i].typing matches Some(AutoloadTyping::NativeNode) ==> held(
                env.native,
                name,
            ) == Some("Node"@)
        }),
    decreases autoloads.len(),
{
    let before = autoloads.drop_last();
    if i < before.len() {
        assert forall|j: int| i < j < before.len() implies (#[trigger] before[j]).name@
            != before[i].name@ by {
            assert(before[j] == autoloads[j]);
        }
        assert(before[i] == autoloads[i]);
        lemma_what_an_autoload_stands_for(before, index, i);
        assert(autoloads[autoloads.len() - 1].name@ != autoloads[i].name@);
    }
}

/// A name stands for a script, or for the class of nodes, only where a singleton of that name says
/// so.
pub proof fn lemma_nothing_else_is_an_autoload(
    autoloads: Seq<Autoload>,
    index: ScriptIndex,
    name: Seq<char>,
)
    requires
        forall|j: int|
            0 <= j < autoloads.len() && (#[trigger] autoloads[j]).is_singleton
                ==> autoloads[j].name@ != name,
    ensures
        held(autoload_env(autoloads, index).script, name) is None,
        held(autoload_env(autoloads, index).native, name) is None,
        !autoload_env(autoloads, index).names.contains(name),
    decreases autoloads.len(),
{
    if autoloads.len() > 0 {
        let before = autoloads.drop_last();
        assert forall|j: int|
            0 <= j < before.len() && (#[trigger] before[j]).is_singleton implies before[j].name@
            != name by {
            assert(before[j] == autoloads[j]);
        }
        lemma_nothing_else_is_an_autoload(before, index, name);
        assert(autoloads.last() == autoloads[autoloads.len() - 1]);
    }
}

/// A script has a node to start from exactly where one node has it, and that node it is.
pub proof fn lemma_the_one_node(nodes: Seq<SceneNode>, script_res: Seq<char>, i: int)
    requires
        0 <= i < nodes.len(),
        attaches(nodes[i], script_res),
        forall|j: int|
            0 <= j < nodes.len() && j != i ==> !attaches(#[trigger] nodes[j], script_res),
    ensures
        attachment(nodes, script_res) == Some(nodes[i].path@),
    decreases nodes.len(),
{
    let before = nodes.drop_last();
    assert(nodes.last() == nodes[nodes.len() - 1]);
    if i < before.len() {
        assert forall|j: int| 0 <= j < before.len() && j != i implies !attaches(
            #[trigger] before[j],
            script_res,
        ) by {
            assert(before[j] == nodes[j]);
        }
        assert(before[i] == nodes[i]);
        assert(!attaches(nodes[nodes.len() - 1], script_res));
        lemma_the_one_node(before, script_res, i);
    }
}

/// A script that no node has starts from none.
pub proof fn lemma_no_node(nodes: Seq<SceneNode>, script_res: Seq<char>)
    requires
        forall|j: int| 0 <= j < nodes.len() ==> !attaches(#[trigger] nodes[j], script_res),
    ensures
        attachment(nodes, script_res) is None,
    decreases nodes.len(),
{
    if nodes.len() > 0 {
        let before = nodes.drop_last();
        assert forall|j: int| 0 <= j < before.len() implies !attaches(
            #[trigger] before[j],
            script_res,
        ) by {
            assert(before[j] == nodes[j]);
        }
        assert(!attaches(nodes[nodes.len() - 1], script_res));
        lemma_no_node(before, script_res);
    }
}

/// A node has the script that it names and no other.
pub proof fn lemma_script_of_a_node(node: SceneNode, script_res: Seq<char>)
    ensures
        node.script is None ==> !attaches(node, script_res),
        node.script matches Some(script) ==> (attaches(node, script_res) <==> script@
            == script_res),
{
}

/// A node is its script where the index has it; else its native type; else nothing is known of it.
pub proof fn lemma_what_is_known_of_a_node(resolved: ResolvedRoot, index: ScriptIndex)
    ensures
        ({
            let facts = root_facts(resolved, index);
            let indexed = resolved.script is Some && index.resources@.dom().contains(
                resolved.script->0@,
            );
            &&& indexed ==> facts == Some(
                SceneNodeFactsView::Script(index.resources@[resolved.script->0@]),
            )
            &&& !indexed && resolved.native_type is Some ==> facts == Some(
                SceneNodeFactsView::Native(resolved.native_type->0@),
            )
            &&& !indexed && resolved.native_type is None ==> facts is None
        }),
{
}

/// One scene says what is known of the node that the access leads to in it, as long as the script
/// has one node there to start from.
pub proof fn lemma_what_one_scene_says(
    scene: AttachingScene,
    script_res: Seq<char>,
    index: ScriptIndex,
)
    ensures
        attachment(scene.nodes@, script_res) is None ==> scene_facts(scene, script_res, index)
            is None,
        scene.resolved is None ==> scene_facts(scene, script_res, index) is None,
        attachment(scene.nodes@, script_res) is Some ==> (scene.resolved matches Some(resolved)
            ==> scene_facts(scene, script_res, index) == root_facts(resolved, index)),
{
}

/// Scenes that all say the same of an access leave it known; no scene, or two that differ, do not.
pub proof fn lemma_agreement_is_enough(
    scenes: Seq<AttachingScene>,
    script_res: Seq<char>,
    index: ScriptIndex,
    facts: SceneNodeFactsView,
)
    ensures
        agreed_facts(scenes, script_res, index) == Some(facts) <==> scenes.len() > 0 && forall|
            i: int,
        |
            0 <= i < scenes.len() ==> scene_facts(#[trigger] scenes[i], script_res, index) == Some(
                facts,
            ),
{
    if scenes.len() > 0 && forall|i: int|
        0 <= i < scenes.len() ==> scene_facts(#[trigger] scenes[i], script_res, index) == Some(
            facts,
        ) {
        assert(scene_facts(scenes[0], script_res, index) == Some(facts));
    }
}

/// The references of an initializer are those that the analysis of its file recorded for the member,
/// as long as that analysis is of the file's present epoch.
pub proof fn lemma_present_analysis_has_its_xrefs(
    index: ScriptIndex,
    analyses: workspace::Entries,
    results: Seq<MemberXrefs>,
    file: FileId,
    member: Seq<char>,
    script: ScriptFile,
    key: Seq<char>,
    entry: lru_cache::CacheEntry,
)
    requires
        script_at(index, file) == Some(script),
        uri::path_key(script.path@, text::opt_string(script.resolved)) == Some(key),
        lru_cache::lookup(analyses, key) == Some(entry),
    ensures
        ({
            let recorded = entry.value < results.len() && results[entry.value as int]@.dom().contains(
                member,
            );
            let known = known_xrefs(index, analyses, results, file, member);
            &&& entry.epoch == script.epoch && recorded ==> known
                == results[entry.value as int]@[member]@
            &&& entry.epoch != script.epoch || !recorded ==> known.len() == 0
        }),
{
}

/// What is said of a node is said of the facts that were found.
pub proof fn lemma_facts_as_they_are(facts: Option<SceneNodeFacts>)
    ensures
        facts is None <==> facts_view(facts) is None,
        facts matches Some(SceneNodeFacts::Script(file)) ==> facts_view(facts) == Some(
            SceneNodeFactsView::Script(file),
        ),
        facts matches Some(SceneNodeFacts::Native(name)) ==> facts_view(facts) == Some(
            SceneNodeFactsView::Native(name@),
        ),
{
}

} // verus!
