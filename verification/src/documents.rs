//! What the notifications about documents do to the open buffers and to the workspace.

use vstd::prelude::*;
use vstd::string::*;

use crate::events;
use crate::events::{ClientChange, ScriptRead};
use crate::lru_cache;
use crate::path;
use crate::path::extension;
use crate::text;
use crate::text::{opt_is, same_text};
use crate::uri::{CanonicalKey, Uri};
use crate::vfs;
use crate::vfs::{ContentChange, DocumentView, Vfs};
use crate::workspace::{Workspace, WorkspaceView};

verus! {

/// The notifications that something follows from.
#[derive(Debug, Clone, Copy, PartialEq, Eq, Structural)]
pub enum NotificationKind {
    DidOpen,
    DidChange,
    DidSave,
    DidClose,
    CancelRequest,
    DidChangeWatchedFiles,
    DidRenameFiles,
    DidCreateFiles,
    DidDeleteFiles,
    DidChangeConfiguration,
    Exit,
    /// Nothing follows.
    Ignored,
}

/// The notification that a method name stands for.
pub open spec fn notification_of(method: Seq<char>) -> NotificationKind {
    if method == "textDocument/didOpen"@ {
        NotificationKind::DidOpen
    } else if method == "textDocument/didChange"@ {
        NotificationKind::DidChange
    } else if method == "textDocument/didSave"@ {
        NotificationKind::DidSave
    } else if method == "textDocument/didClose"@ {
        NotificationKind::DidClose
    } else if method == "$/cancelRequest"@ {
        NotificationKind::CancelRequest
    } else if method == "workspace/didChangeWatchedFiles"@ {
        NotificationKind::DidChangeWatchedFiles
    } else if method == "workspace/didRenameFiles"@ {
        NotificationKind::DidRenameFiles
    } else if method == "workspace/didCreateFiles"@ {
        NotificationKind::DidCreateFiles
    } else if method == "workspace/didDeleteFiles"@ {
        NotificationKind::DidDeleteFiles
    } else if method == "workspace/didChangeConfiguration"@ {
        NotificationKind::DidChangeConfiguration
    } else if method == "exit"@ {
        NotificationKind::Exit
    } else {
        NotificationKind::Ignored
    }
}

/// The notification that a method name stands for.
pub fn notification_kind(method: &str) -> (r: NotificationKind)
    ensures
        r == notification_of(method@),
{
    if same_text(method, "textDocument/didOpen") {
        NotificationKind::DidOpen
    } else if same_text(method, "textDocument/didChange") {
        NotificationKind::DidChange
    } else if same_text(method, "textDocument/didSave") {
        NotificationKind::DidSave
    } else if same_text(method, "textDocument/didClose") {
        NotificationKind::DidClose
    } else if same_text(method, "$/cancelRequest") {
        NotificationKind::CancelRequest
    } else if same_text(method, "workspace/didChangeWatchedFiles") {
        NotificationKind::DidChangeWatchedFiles
    } else if same_text(method, "workspace/didRenameFiles") {
        NotificationKind::DidRenameFiles
    } else if same_text(method, "workspace/didCreateFiles") {
        NotificationKind::DidCreateFiles
    } else if same_text(method, "workspace/didDeleteFiles") {
        NotificationKind::DidDeleteFiles
    } else if same_text(method, "workspace/didChangeConfiguration") {
        NotificationKind::DidChangeConfiguration
    } else if same_text(method, "exit") {
        NotificationKind::Exit
    } else {
        NotificationKind::Ignored
    }
}

/// What is published after a notification.
#[derive(Debug, Clone, Copy, PartialEq, Eq, Structural)]
pub struct Publishing {
    /// The diagnostics of the document, with the version of the buffer where it is known.
    pub document: bool,
    pub with_version: bool,
    /// Those of the other open buffers that became dirty.
    pub dirty_others: bool,
}

/// What is published after a notification that could be read.
pub open spec fn published_after(kind: NotificationKind) -> Publishing {
    Publishing {
        document: kind == NotificationKind::DidOpen || kind == NotificationKind::DidChange || kind
            == NotificationKind::DidSave || kind == NotificationKind::DidClose,
        with_version: kind == NotificationKind::DidOpen || kind == NotificationKind::DidChange,
        dirty_others: kind == NotificationKind::DidOpen || kind == NotificationKind::DidChange
            || kind == NotificationKind::DidClose,
    }
}

/// What is published after a notification that could be read.
pub fn publishing(kind: NotificationKind) -> (r: Publishing)
    ensures
        r == published_after(kind),
{
    let edits: bool = kind == NotificationKind::DidOpen || kind == NotificationKind::DidChange;
    let closes: bool = kind == NotificationKind::DidClose;
    Publishing {
        document: edits || closes || kind == NotificationKind::DidSave,
        with_version: edits,
        dirty_others: edits || closes,
    }
}

// ---------------------------------------------------------------------------
// Scripts.
// ---------------------------------------------------------------------------

/// Whether a document is a script: it has a path, with the extension of scripts.
pub fn is_script(path: Option<&str>) -> (r: bool)
    ensures
        path is None ==> !r,
        path matches Some(path) ==> exists|ext: Option<Seq<char>>| #[trigger]
            path::reads_extension(path@, ext) && r == (ext == Some("gd"@)),
        path matches Some(path) ==> (path::portable(path@) ==> r == (path::extension_of(path@)
            == Some("gd"@))),
{
    match path {
        Some(path) => {
            let ext = extension(path);
            proof {
                assert(path::reads_extension(path@, text::opt_string(ext)));
            }
            opt_is(&ext, "gd")
        },
        None => false,
    }
}

/// The workspace after a buffer came to declare something: it is indexed where it counts.
pub open spec fn buffer_indexed(
    ws: WorkspaceView,
    path: Seq<char>,
    counts: bool,
    interface: u64,
) -> WorkspaceView {
    if counts {
        events::indexed(ws, path::normalized(path), interface)
    } else {
        ws
    }
}

/// The open buffers after an edit. One that is not open is left alone.
pub open spec fn edited(
    buffers: Map<Seq<char>, DocumentView>,
    uri: Seq<char>,
    changes: Seq<ContentChange>,
    version: i32,
) -> Map<Seq<char>, DocumentView> {
    if buffers.dom().contains(uri) {
        buffers.insert(
            uri,
            DocumentView {
                text: vfs::all_changed(buffers[uri].text, changes),
                version,
                open: buffers[uri].open,
            },
        )
    } else {
        buffers
    }
}

/// A buffer was opened or edited: where it is a script and open, what it declares is indexed.
pub fn reindex_open_buffer(
    ws: &mut Workspace,
    path: &str,
    is_script: bool,
    is_open: bool,
    interface: u64,
)
    requires
        old(ws).well_formed(),
    ensures
        final(ws).well_formed(),
        final(ws)@ == buffer_indexed(old(ws)@, path@, is_script && is_open, interface),
{
    if is_script && is_open {
        ws.reindex(path, interface);
    }
}

/// The workspace after a script was closed: what is on disk counts again. One that is gone is
/// removed; one that cannot be read stays as it was known.
pub open spec fn closed_script(
    ws: WorkspaceView,
    path: Seq<char>,
    read: ScriptRead,
    key: Option<Seq<char>>,
) -> WorkspaceView {
    match read {
        ScriptRead::Text { hash, interface, stat } => events::read_in(
            ws,
            path,
            hash,
            interface,
            stat,
        ),
        ScriptRead::NotFound => events::removed(ws, path, key),
        ScriptRead::Unreadable => ws,
    }
}

/// The workspace after what is on disk counts again: where it is a script it is indexed from there.
pub open spec fn disk_indexed(
    ws: WorkspaceView,
    path: Seq<char>,
    is_script: bool,
    read: ScriptRead,
    key: Option<Seq<char>>,
) -> WorkspaceView {
    if is_script {
        closed_script(ws, path::normalized(path), read, key)
    } else {
        ws
    }
}

/// The workspace after a document was closed.
pub open spec fn closed_document(
    ws: WorkspaceView,
    doc: DocumentFacts,
    read: ScriptRead,
) -> WorkspaceView {
    disk_indexed(
        forgotten(ws, doc.key@),
        doc.path@,
        doc.is_script,
        read,
        events::key_text(doc.path_key),
    )
}

/// A buffer was closed: where it is a script, what is on disk is indexed in its place.
pub fn reindex_from_disk(
    ws: &mut Workspace,
    path: &str,
    is_script: bool,
    read: ScriptRead,
    key: Option<CanonicalKey>,
)
    requires
        old(ws).well_formed(),
    ensures
        final(ws).well_formed(),
        final(ws)@ == disk_indexed(old(ws)@, path@, is_script, read, events::key_text(key)),
{
    if !is_script {
        return;
    }
    match read {
        ScriptRead::Text { hash, interface, stat } => {
            ws.reindex(path, interface);
            ws.record_applied(path, hash);
            ws.update_stat_from_disk(path, stat);
        },
        ScriptRead::NotFound => ws.remove(path, key),
        ScriptRead::Unreadable => {},
    }
}

// ---------------------------------------------------------------------------
// Documents.
// ---------------------------------------------------------------------------

/// What is known of the document of a notification.
pub struct DocumentFacts {
    /// The path of its file; empty where it has none.
    pub path: String,
    pub is_script: bool,
    /// The cache key of its URI.
    pub key: CanonicalKey,
    /// The cache key of its path.
    pub path_key: Option<CanonicalKey>,
}

/// A document was opened.
pub fn did_open(
    buffers: &mut Vfs,
    ws: &mut Workspace,
    uri: &str,
    text: String,
    version: i32,
    doc: &DocumentFacts,
    interface: u64,
)
    requires
        old(ws).well_formed(),
    ensures
        final(ws).well_formed(),
        final(buffers)@ == old(buffers)@.insert(
            uri@,
            DocumentView { text: text@, version, open: true },
        ),
        final(ws)@ == buffer_indexed(old(ws)@, doc.path@, doc.is_script, interface),
{
    buffers.open(uri.to_owned(), text, version);
    reindex_open_buffer(ws, doc.path.as_str(), doc.is_script, true, interface);
}

/// A document was edited. One that is not open is left alone.
pub fn did_change(
    buffers: &mut Vfs,
    ws: &mut Workspace,
    uri: &str,
    changes: Vec<ContentChange>,
    version: i32,
    doc: &DocumentFacts,
    interface: u64,
)
    requires
        old(ws).well_formed(),
        old(buffers)@.dom().contains(uri@) ==> vfs::changes_fit(
            old(buffers)@[uri@].text,
            changes@,
        ),
    ensures
        final(ws).well_formed(),
        final(buffers)@ == edited(old(buffers)@, uri@, changes@, version),
        final(ws)@ == buffer_indexed(
            old(ws)@,
            doc.path@,
            doc.is_script && old(buffers)@.dom().contains(uri@),
            interface,
        ),
{
    buffers.apply_changes(uri, changes, version);
    let is_open = buffers.get(uri).is_some();
    reindex_open_buffer(ws, doc.path.as_str(), doc.is_script, is_open, interface);
}

/// The workspace after what was cached under a key was dropped.
pub open spec fn forgotten(ws: WorkspaceView, key: Seq<char>) -> WorkspaceView {
    WorkspaceView {
        parses: lru_cache::without(ws.parses, key),
        analyses: lru_cache::without(ws.analyses, key),
        ..ws
    }
}

/// A document was closed: its buffer and what was cached of it are dropped, and what is on disk
/// counts again.
pub fn did_close(
    buffers: &mut Vfs,
    ws: &mut Workspace,
    uri: &str,
    doc: &DocumentFacts,
    read: ScriptRead,
)
    requires
        old(ws).well_formed(),
    ensures
        final(ws).well_formed(),
        final(buffers)@ == old(buffers)@.remove(uri@),
        final(ws)@ == closed_document(old(ws)@, *doc, read),
{
    buffers.close(uri);
    ws.forget(&doc.key);
    let key: Option<CanonicalKey> = match &doc.path_key {
        Some(key) => Some(key.clone()),
        None => None,
    };
    reindex_from_disk(ws, doc.path.as_str(), doc.is_script, read, key);
}

// ---------------------------------------------------------------------------
// File operations of the client.
// ---------------------------------------------------------------------------

/// The file events that the renames of a client stand for: the old file is gone, the new one came.
pub open spec fn rename_events(renames: Seq<(Uri, Uri)>) -> Seq<(Seq<char>, ClientChange)>
    decreases renames.len(),
{
    if renames.len() == 0 {
        Seq::empty()
    } else {
        rename_events(renames.drop_last()).push(
            (renames.last().0@, ClientChange::Deleted),
        ).push((renames.last().1@, ClientChange::Created))
    }
}

/// File events, as plain values.
pub open spec fn uri_events(events: Seq<(Uri, ClientChange)>) -> Seq<(Seq<char>, ClientChange)> {
    events.map_values(|event: (Uri, ClientChange)| (event.0@, event.1))
}

/// The file events that the renames of a client stand for.
pub fn did_rename_files(renames: &Vec<(Uri, Uri)>) -> (r: Vec<(Uri, ClientChange)>)
    ensures
        uri_events(r@) == rename_events(renames@),
{
    let mut r: Vec<(Uri, ClientChange)> = Vec::new();
    let mut i: usize = 0;
    proof {
        assert(renames@.take(0) =~= Seq::<(Uri, Uri)>::empty());
        assert(uri_events(r@) =~= Seq::<(Seq<char>, ClientChange)>::empty());
    }
    while i < renames.len()
        invariant
            0 <= i <= renames@.len(),
            uri_events(r@) == rename_events(renames@.take(i as int)),
        decreases renames@.len() - i,
    {
        let ghost before = r@;
        proof {
            assert(renames@.take(i as int + 1).drop_last() =~= renames@.take(i as int));
            assert(renames@.take(i as int + 1).last() == renames@[i as int]);
        }
        r.push((renames[i].0.clone(), ClientChange::Deleted));
        r.push((renames[i].1.clone(), ClientChange::Created));
        proof {
            assert(uri_events(r@) =~= uri_events(before).push(
                (renames@[i as int].0@, ClientChange::Deleted),
            ).push((renames@[i as int].1@, ClientChange::Created)));
        }
        i = i + 1;
    }
    proof {
        assert(renames@.take(i as int) =~= renames@);
    }
    r
}

// ---------------------------------------------------------------------------
// Configuration.
// ---------------------------------------------------------------------------

/// Where new settings come from.
#[derive(Debug, Clone, Copy, PartialEq, Eq, Structural)]
pub enum SettingsSource {
    /// Ask the client for them; what the notification carries does not count.
    Pull,
    /// The server's own section of what the notification carries.
    Section,
    /// All that the notification carries.
    Whole,
}

/// Where new settings come from.
pub open spec fn source_of_settings(
    client_configuration: bool,
    has_section: bool,
) -> SettingsSource {
    if client_configuration {
        SettingsSource::Pull
    } else if has_section {
        SettingsSource::Section
    } else {
        SettingsSource::Whole
    }
}

/// Where new settings come from.
pub fn settings_source(client_configuration: bool, has_section: bool) -> (r: SettingsSource)
    ensures
        r == source_of_settings(client_configuration, has_section),
{
    if client_configuration {
        SettingsSource::Pull
    } else if has_section {
        SettingsSource::Section
    } else {
        SettingsSource::Whole
    }
}

// ---------------------------------------------------------------------------
// Laws.
// ---------------------------------------------------------------------------

/// Closing a script that is on disk undoes what its buffer declared: the index has what is on disk,
/// whatever was opened and edited before.
pub proof fn lemma_close_restores_disk(
    ws: WorkspaceView,
    path: Seq<char>,
    buffer_interface: u64,
    hash: u64,
    interface: u64,
    stat: Option<crate::files::FileStat>,
    key: Option<Seq<char>>,
)
    ensures
        closed_script(
            events::indexed(ws, path, buffer_interface),
            path,
            ScriptRead::Text { hash, interface, stat },
            key,
        ).files.index == ws.files.index.insert(path, interface),
{
    let after = closed_script(
        events::indexed(ws, path, buffer_interface),
        path,
        ScriptRead::Text { hash, interface, stat },
        key,
    );
    assert(after.files.index =~= ws.files.index.insert(path, interface));
}

/// A buffer's edits leave what is known of the file on disk as it is, so that the next start does
/// not take them for it.
pub proof fn lemma_buffer_leaves_stat(ws: WorkspaceView, path: Seq<char>, interface: u64)
    ensures
        events::indexed(ws, path, interface).files.stats == ws.files.stats,
{
}

/// Each notification that something follows from goes by the method that the protocol has for it;
/// of any other nothing follows.
pub proof fn lemma_notifications_by_method(method: Seq<char>)
    ensures
        ({
            let kind = notification_of(method);
            &&& kind is DidOpen <==> method == "textDocument/didOpen"@
            &&& kind is DidChange <==> method == "textDocument/didChange"@
            &&& kind is DidSave <==> method == "textDocument/didSave"@
            &&& kind is DidClose <==> method == "textDocument/didClose"@
            &&& kind is CancelRequest <==> method == "$/cancelRequest"@
            &&& kind is DidChangeWatchedFiles <==> method == "workspace/didChangeWatchedFiles"@
            &&& kind is DidRenameFiles <==> method == "workspace/didRenameFiles"@
            &&& kind is DidCreateFiles <==> method == "workspace/didCreateFiles"@
            &&& kind is DidDeleteFiles <==> method == "workspace/didDeleteFiles"@
            &&& kind is DidChangeConfiguration <==> method == "workspace/didChangeConfiguration"@
            &&& kind is Exit <==> method == "exit"@
        }),
{
    reveal_strlit("textDocument/didOpen");
    reveal_strlit("textDocument/didChange");
    reveal_strlit("textDocument/didSave");
    reveal_strlit("textDocument/didClose");
    reveal_strlit("$/cancelRequest");
    reveal_strlit("workspace/didChangeWatchedFiles");
    reveal_strlit("workspace/didRenameFiles");
    reveal_strlit("workspace/didCreateFiles");
    reveal_strlit("workspace/didDeleteFiles");
    reveal_strlit("workspace/didChangeConfiguration");
    reveal_strlit("exit");
    assert("textDocument/didOpen"@.len() == 20 && "textDocument/didOpen"@[16] == 'O');
    assert("textDocument/didSave"@.len() == 20 && "textDocument/didSave"@[16] == 'S');
    assert("textDocument/didChange"@.len() == 22);
    assert("textDocument/didClose"@.len() == 21);
    assert("$/cancelRequest"@.len() == 15);
    assert("workspace/didChangeWatchedFiles"@.len() == 31);
    assert("workspace/didRenameFiles"@.len() == 24 && "workspace/didRenameFiles"@[13] == 'R');
    assert("workspace/didCreateFiles"@.len() == 24 && "workspace/didCreateFiles"@[13] == 'C');
    assert("workspace/didDeleteFiles"@.len() == 24 && "workspace/didDeleteFiles"@[13] == 'D');
    assert("workspace/didChangeConfiguration"@.len() == 32);
    assert("exit"@.len() == 4);
}

/// A script that is closed is known by what is on disk: what it declares there, or nothing where it
/// is gone. One that cannot be read stays as it was known, and no other script is touched.
pub proof fn lemma_closed_script_is_what_is_on_disk(
    ws: WorkspaceView,
    path: Seq<char>,
    read: ScriptRead,
    key: Option<Seq<char>>,
    other: Seq<char>,
)
    requires
        other != path,
    ensures
        ({
            let after = closed_script(ws, path, read, key);
            &&& read matches ScriptRead::Text { hash: _, interface, stat } ==> {
                &&& after.files.index.dom().contains(path)
                &&& after.files.index[path] == interface
                &&& stat matches Some(stat) ==> after.files.stats.dom().contains(path)
                    && after.files.stats[path] == stat
                &&& stat is None ==> !after.files.stats.dom().contains(path)
            }
            &&& read is NotFound ==> !after.files.index.dom().contains(path)
                && !after.files.stats.dom().contains(path)
            &&& read is Unreadable ==> after == ws
            &&& after.files.index.dom().contains(other) == ws.files.index.dom().contains(other)
            &&& ws.files.index.dom().contains(other) ==> after.files.index[other]
                == ws.files.index[other]
            &&& after.files.scenes == ws.files.scenes && after.files.assets == ws.files.assets
        }),
{
}

/// What was cached of a document that is closed is gone; what was cached of others stays.
pub proof fn lemma_closed_document_is_forgotten(
    ws: WorkspaceView,
    key: Seq<char>,
    other: Seq<char>,
)
    requires
        lru_cache::well_kept(ws.parses, ws.capacity),
        lru_cache::well_kept(ws.analyses, ws.capacity),
        other != key,
    ensures
        ({
            let after = forgotten(ws, key);
            &&& lru_cache::lookup(after.parses, key) is None
            &&& lru_cache::lookup(after.analyses, key) is None
            &&& lru_cache::lookup(after.parses, other) == lru_cache::lookup(ws.parses, other)
            &&& lru_cache::lookup(after.analyses, other) == lru_cache::lookup(ws.analyses, other)
            &&& after.files == ws.files && after.applied == ws.applied
        }),
{
    lru_cache::lemma_without(ws.parses, ws.capacity, key);
    lru_cache::lemma_without(ws.analyses, ws.capacity, key);
}

/// A rename of the client is a deletion of the old file followed by a creation of the new one, for
/// each pair and in their order.
pub proof fn lemma_rename_is_deletion_and_creation(renames: Seq<(Uri, Uri)>)
    ensures
        rename_events(renames).len() == 2 * renames.len(),
        forall|i: int|
            #![trigger renames[i]]
            0 <= i < renames.len() ==> rename_events(renames)[2 * i] == (
                renames[i].0@,
                ClientChange::Deleted,
            ) && rename_events(renames)[2 * i + 1] == (renames[i].1@, ClientChange::Created),
    decreases renames.len(),
{
    if renames.len() > 0 {
        let before = renames.drop_last();
        lemma_rename_is_deletion_and_creation(before);
        assert forall|i: int|
            #![trigger renames[i]]
            0 <= i < renames.len() implies rename_events(renames)[2 * i] == (
            renames[i].0@,
            ClientChange::Deleted,
        ) && rename_events(renames)[2 * i + 1] == (renames[i].1@, ClientChange::Created) by {
            if i < before.len() {
                assert(before[i] == renames[i]);
                assert(rename_events(renames)[2 * i] == rename_events(before)[2 * i]);
                assert(rename_events(renames)[2 * i + 1] == rename_events(before)[2 * i + 1]);
            }
        }
    }
}

/// A client that can be asked for its settings is asked; else what it sent counts, its section of it
/// where it has one.
pub proof fn lemma_where_settings_come_from(client_configuration: bool, has_section: bool)
    ensures
        source_of_settings(client_configuration, has_section) is Pull <==> client_configuration,
        source_of_settings(client_configuration, has_section) is Section <==> !client_configuration
            && has_section,
        source_of_settings(client_configuration, has_section) is Whole <==> !client_configuration
            && !has_section,
{
}

/// What is published: a document that was opened, edited, saved or closed; with its version where it
/// was opened or edited; and what else became dirty, unless it was only saved.
pub proof fn lemma_what_is_published(kind: NotificationKind)
    ensures
        ({
            let after = published_after(kind);
            &&& kind is DidOpen || kind is DidChange ==> after.document && after.with_version
                && after.dirty_others
            &&& kind is DidSave ==> after.document && !after.with_version && !after.dirty_others
            &&& kind is DidClose ==> after.document && !after.with_version && after.dirty_others
            &&& !(kind is DidOpen) && !(kind is DidChange) && !(kind is DidSave) && !(kind
                is DidClose) ==> !after.document && !after.with_version && !after.dirty_others
        }),
{
}

/// A script that is open is known by what its buffer declares, and nothing else is touched; a buffer
/// that does not count changes nothing.
pub proof fn lemma_open_script_is_its_buffer(
    ws: WorkspaceView,
    path: Seq<char>,
    interface: u64,
    other: Seq<char>,
)
    requires
        other != path::normalized(path),
    ensures
        ({
            let after = buffer_indexed(ws, path, true, interface);
            let at = path::normalized(path);
            &&& after.files.index.dom().contains(at) && after.files.index[at] == interface
            &&& after.files.index.dom().contains(other) == ws.files.index.dom().contains(other)
            &&& ws.files.index.dom().contains(other) ==> after.files.index[other]
                == ws.files.index[other]
            &&& after.files.scenes == ws.files.scenes && after.files.assets == ws.files.assets
            &&& after.files.stats == ws.files.stats
        }),
        buffer_indexed(ws, path, false, interface) == ws,
{
}

/// An edit of an open document leaves the text that its changes leave, with the version that came
/// with it; no other document is touched, and one that is not open is not opened by it.
pub proof fn lemma_edit_of_a_document(
    buffers: Map<Seq<char>, DocumentView>,
    uri: Seq<char>,
    changes: Seq<ContentChange>,
    version: i32,
    other: Seq<char>,
)
    requires
        other != uri,
    ensures
        ({
            let after = edited(buffers, uri, changes, version);
            &&& after.dom() == buffers.dom()
            &&& buffers.dom().contains(uri) ==> after[uri].text == vfs::all_changed(
                buffers[uri].text,
                changes,
            ) && after[uri].version == version && after[uri].open == buffers[uri].open
            &&& buffers.dom().contains(other) ==> after[other] == buffers[other]
        }),
{
    let after = edited(buffers, uri, changes, version);
    assert(after.dom() =~= buffers.dom());
}

/// What was cached of a document is gone once it is closed. A script is then known by what is on
/// disk; of a document that is no script nothing else changes.
pub proof fn lemma_what_closing_leaves(ws: WorkspaceView, doc: DocumentFacts, read: ScriptRead)
    requires
        lru_cache::well_kept(ws.parses, ws.capacity),
        lru_cache::well_kept(ws.analyses, ws.capacity),
    ensures
        ({
            let after = closed_document(ws, doc, read);
            let at = path::normalized(doc.path@);
            &&& lru_cache::lookup(after.parses, doc.key@) is None
            &&& lru_cache::lookup(after.analyses, doc.key@) is None
            &&& !doc.is_script ==> after.files == ws.files && after.applied == ws.applied
            &&& doc.is_script ==> (read matches ScriptRead::Text { hash: _, interface, stat: _ }
                ==> after.files.index.dom().contains(at) && after.files.index[at] == interface)
            &&& doc.is_script && read is NotFound ==> !after.files.index.dom().contains(at)
            &&& doc.is_script && read is Unreadable ==> after.files == ws.files
        }),
{
    let mid = forgotten(ws, doc.key@);
    lru_cache::lemma_without(ws.parses, ws.capacity, doc.key@);
    lru_cache::lemma_without(ws.analyses, ws.capacity, doc.key@);
    if doc.path_key is Some {
        let key = doc.path_key->0@;
        lru_cache::lemma_without(mid.parses, ws.capacity, key);
        lru_cache::lemma_without(mid.analyses, ws.capacity, key);
        if key != doc.key@ {
            assert(lru_cache::lookup(lru_cache::without(mid.parses, key), doc.key@)
                == lru_cache::lookup(mid.parses, doc.key@));
            assert(lru_cache::lookup(lru_cache::without(mid.analyses, key), doc.key@)
                == lru_cache::lookup(mid.analyses, doc.key@));
        }
    }
}

} // verus!
