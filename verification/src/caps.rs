//! What a client can take, and what the server offers it.
//!
//! A client says what it supports once, at the start. What it leaves unsaid counts as not supported,
//! so that every client gets an answer it understands.

use vstd::prelude::*;
use vstd::string::*;

use crate::diagnostics::DiagnosticCaps;
use crate::signature::SignatureHelpCaps;
use crate::text;

verus! {

/// The kinds of prose that a client may name.
#[derive(Debug, Clone, Copy, PartialEq, Eq, Structural)]
pub enum MarkupKind {
    Markdown,
    PlainText,
    /// One that is not known.
    Other,
}

/// The kinds of prose that the server writes.
#[derive(Debug, Clone, Copy, PartialEq, Eq, Structural)]
pub enum ProseFormat {
    Markdown,
    PlainText,
}

/// The first kind of prose, from some place of a client's list on, that the server writes. A client
/// that names none gets plain text.
pub open spec fn first_format(formats: Seq<MarkupKind>, i: int) -> ProseFormat
    decreases formats.len() - i,
{
    if i >= formats.len() {
        ProseFormat::PlainText
    } else {
        match formats[i] {
            MarkupKind::Markdown => ProseFormat::Markdown,
            MarkupKind::PlainText => ProseFormat::PlainText,
            MarkupKind::Other => first_format(formats, i + 1),
        }
    }
}

/// The first kind of prose of a client's list that the server writes.
pub fn prose_format_from(formats: &Vec<MarkupKind>) -> (r: ProseFormat)
    ensures
        r == first_format(formats@, 0),
{
    let mut i: usize = 0;
    while i < formats.len()
        invariant
            0 <= i <= formats@.len(),
            first_format(formats@, 0) == first_format(formats@, i as int),
        decreases formats@.len() - i,
    {
        match formats[i] {
            MarkupKind::Markdown => return ProseFormat::Markdown,
            MarkupKind::PlainText => return ProseFormat::PlainText,
            MarkupKind::Other => {},
        }
        i = i + 1;
    }
    ProseFormat::PlainText
}

/// The prose of a client that may have named kinds.
pub open spec fn prose_of(formats: Option<Vec<MarkupKind>>) -> ProseFormat {
    match formats {
        Some(formats) => first_format(formats@, 0),
        None => ProseFormat::PlainText,
    }
}

fn prose(formats: &Option<Vec<MarkupKind>>) -> (r: ProseFormat)
    ensures
        r == prose_of(*formats),
{
    match formats {
        Some(formats) => prose_format_from(formats),
        None => ProseFormat::PlainText,
    }
}

/// Whether something is said to be supported.
pub open spec fn on(said: Option<bool>) -> bool {
    said == Some(true)
}

fn is_on(said: Option<bool>) -> (r: bool)
    ensures
        r == on(said),
{
    match said {
        Some(said) => said,
        None => false,
    }
}

/// The marks that a client may show on an item.
#[derive(Debug, Clone, Copy, PartialEq, Eq, Structural)]
pub enum Tag {
    Unnecessary,
    Deprecated,
    /// One that is not known.
    Other,
}

/// Whether a client shows a mark.
pub open spec fn has_tag(tags: Option<Vec<Tag>>, tag: Tag) -> bool {
    tags matches Some(tags) && tags@.contains(tag)
}

fn shows_tag(tags: &Option<Vec<Tag>>, tag: Tag) -> (r: bool)
    ensures
        r == has_tag(*tags, tag),
{
    match tags {
        Some(list) => {
            let mut i: usize = 0;
            while i < list.len()
                invariant
                    0 <= i <= list@.len(),
                    *tags == Some(*list),
                    forall|k: int| 0 <= k < i ==> list@[k] != tag,
                decreases list@.len() - i,
            {
                if list[i] == tag {
                    return true;
                }
                i = i + 1;
            }
            false
        },
        None => false,
    }
}

/// The texts of a list that a client may have given.
pub open spec fn listed(list: Option<Vec<String>>) -> Seq<Seq<char>> {
    match list {
        Some(list) => text::texts(list@),
        None => Seq::empty(),
    }
}

fn copy_list(list: &Option<Vec<String>>) -> (r: Vec<String>)
    ensures
        text::texts(r@) == listed(*list),
{
    let mut r: Vec<String> = Vec::new();
    if let Some(list) = list {
        let mut i: usize = 0;
        while i < list.len()
            invariant
                0 <= i <= list@.len(),
                r@.len() == i,
                forall|k: int| 0 <= k < i ==> (#[trigger] r@[k])@ == list@[k]@,
            decreases list@.len() - i,
        {
            r.push(list[i].clone());
            i = i + 1;
        }
        proof {
            assert(text::texts(r@) =~= text::texts(list@));
        }
    } else {
        proof {
            assert(text::texts(r@) =~= Seq::<Seq<char>>::empty());
        }
    }
    r
}

/// The numbers of a list that a client may have given.
pub open spec fn numbers_of(list: Option<Vec<u32>>) -> Option<Seq<u32>> {
    match list {
        Some(list) => Some(list@),
        None => None,
    }
}

fn copy_numbers(list: &Option<Vec<u32>>) -> (r: Option<Vec<u32>>)
    ensures
        numbers_of(r) == numbers_of(*list),
{
    match list {
        Some(list) => {
            let mut r: Vec<u32> = Vec::new();
            let mut i: usize = 0;
            while i < list.len()
                invariant
                    0 <= i <= list@.len(),
                    r@ =~= list@.take(i as int),
                decreases list@.len() - i,
            {
                r.push(list[i]);
                i = i + 1;
            }
            Some(r)
        },
        None => None,
    }
}

/// What a client says of completion.
pub struct CompletionSaid {
    pub snippet_support: Option<bool>,
    pub insert_replace_support: Option<bool>,
    pub commit_characters_support: Option<bool>,
    pub documentation_format: Option<Vec<MarkupKind>>,
    /// What it can wait for until an item is chosen.
    pub resolve_properties: Option<Vec<String>>,
    /// What it takes once for a whole list.
    pub list_item_defaults: Option<Vec<String>>,
    /// The kinds of items that it knows, by their numbers.
    pub kind_value_set: Option<Vec<u32>>,
    pub tags: Option<Vec<Tag>>,
}

/// What a client says of signature help.
pub struct SignatureHelpSaid {
    pub documentation_format: Option<Vec<MarkupKind>>,
    pub label_offset_support: Option<bool>,
    pub active_parameter_support: Option<bool>,
}

/// What a client says of file operations: whether it tells of them.
#[derive(Debug, Clone, Copy, PartialEq, Eq, Structural)]
pub struct FileOperationsSaid {
    pub will_rename: Option<bool>,
    pub did_rename: Option<bool>,
    pub did_create: Option<bool>,
    pub did_delete: Option<bool>,
}

/// What a client says of itself. What it leaves out is absent.
pub struct ClientCapabilities {
    pub hierarchical_document_symbol_support: Option<bool>,
    pub diagnostic_tags: Option<Vec<Tag>>,
    pub code_description_support: Option<bool>,
    pub diagnostic_data_support: Option<bool>,
    pub work_done_progress: Option<bool>,
    pub configuration: Option<bool>,
    pub watched_files_dynamic_registration: Option<bool>,
    pub hover_content_format: Option<Vec<MarkupKind>>,
    pub completion: CompletionSaid,
    pub signature_help: SignatureHelpSaid,
    pub folding_range_limit: Option<u32>,
    pub folding_line_folding_only: Option<bool>,
    /// Whether symbols of the workspace can be resolved; so with the others of this name.
    pub symbol_resolve_support: bool,
    pub rename_prepare_support: Option<bool>,
    pub workspace_edit_document_changes: Option<bool>,
    /// `workspace.diagnostics.refreshSupport`, as the protocol spells it.
    pub diagnostics_refresh_support: Option<bool>,
    /// `workspace.diagnostic.refreshSupport`, as some clients spell it.
    pub diagnostic_refresh_support: Option<bool>,
    pub semantic_tokens_refresh_support: Option<bool>,
    pub inlay_hint_resolve_support: bool,
    pub inlay_hint_refresh_support: Option<bool>,
    pub code_action_literal_support: bool,
    pub code_action_resolve_support: bool,
    pub file_operations: FileOperationsSaid,
}

/// How completion is shown.
pub struct CompletionCaps {
    pub snippet_support: bool,
    pub insert_replace_support: bool,
    pub commit_characters_support: bool,
    pub documentation_format: ProseFormat,
    pub resolve_properties: Vec<String>,
    pub list_item_defaults: Vec<String>,
    pub kind_value_set: Option<Vec<u32>>,
    pub tag_support_deprecated: bool,
}

/// Which file operations the client tells of.
#[derive(Debug, Clone, Copy, PartialEq, Eq, Structural)]
pub struct FileOperationsCaps {
    pub will_rename: bool,
    pub did_rename: bool,
    pub did_create: bool,
    pub did_delete: bool,
}

/// How inlay hints are shown.
#[derive(Debug, Clone, Copy, PartialEq, Eq, Structural)]
pub struct InlayHintCaps {
    pub resolve_support: bool,
    pub refresh_support: bool,
}

/// How code actions are shown.
#[derive(Debug, Clone, Copy, PartialEq, Eq, Structural)]
pub struct CodeActionCaps {
    pub literal_support: bool,
    pub resolve_support: bool,
    pub diagnostic_data_support: bool,
}

/// What the server goes by when it talks to a client.
pub struct ClientCaps {
    pub hierarchical_document_symbols: bool,
    pub diagnostic_tag_unnecessary: bool,
    pub code_description: bool,
    pub work_done_progress: bool,
    pub workspace_configuration: bool,
    pub dynamic_watched_files: bool,
    pub hover_format: ProseFormat,
    pub completion: CompletionCaps,
    pub signature_help: SignatureHelpCaps,
    pub signature_help_format: ProseFormat,
    pub folding_range_limit: Option<u32>,
    pub folding_line_folding_only: bool,
    pub symbol_resolve_support: bool,
    pub rename_prepare_support: bool,
    pub workspace_edit_document_changes: bool,
    pub semantic_tokens_refresh_support: bool,
    pub inlay_hint: InlayHintCaps,
    pub code_action: CodeActionCaps,
    pub diagnostic_refresh_support: bool,
    pub file_operations: FileOperationsCaps,
}

/// What the server goes by for file operations.
pub open spec fn file_operations_of(said: FileOperationsSaid) -> FileOperationsCaps {
    FileOperationsCaps {
        will_rename: on(said.will_rename),
        did_rename: on(said.did_rename),
        did_create: on(said.did_create),
        did_delete: on(said.did_delete),
    }
}

/// Whether that is what the server goes by for completion.
pub open spec fn completion_agreed(r: CompletionCaps, said: CompletionSaid) -> bool {
    &&& r.snippet_support == on(said.snippet_support)
    &&& r.insert_replace_support == on(said.insert_replace_support)
    &&& r.commit_characters_support == on(said.commit_characters_support)
    &&& r.documentation_format == prose_of(said.documentation_format)
    &&& text::texts(r.resolve_properties@) == listed(said.resolve_properties)
    &&& text::texts(r.list_item_defaults@) == listed(said.list_item_defaults)
    &&& numbers_of(r.kind_value_set) == numbers_of(said.kind_value_set)
    &&& r.tag_support_deprecated == has_tag(said.tags, Tag::Deprecated)
}

/// Whether that is what the server goes by.
pub open spec fn agreed(r: ClientCaps, said: ClientCapabilities) -> bool {
    &&& r.hierarchical_document_symbols == on(said.hierarchical_document_symbol_support)
    &&& r.diagnostic_tag_unnecessary == has_tag(said.diagnostic_tags, Tag::Unnecessary)
    &&& r.code_description == on(said.code_description_support)
    &&& r.work_done_progress == on(said.work_done_progress)
    &&& r.workspace_configuration == on(said.configuration)
    &&& r.dynamic_watched_files == on(said.watched_files_dynamic_registration)
    &&& r.hover_format == prose_of(said.hover_content_format)
    &&& completion_agreed(r.completion, said.completion)
    &&& r.signature_help.label_offset_support == on(said.signature_help.label_offset_support)
    &&& r.signature_help.active_parameter_support == on(
        said.signature_help.active_parameter_support,
    )
    &&& r.signature_help_format == prose_of(said.signature_help.documentation_format)
    &&& r.folding_range_limit == said.folding_range_limit
    &&& r.folding_line_folding_only == on(said.folding_line_folding_only)
    &&& r.symbol_resolve_support == said.symbol_resolve_support
    &&& r.rename_prepare_support == on(said.rename_prepare_support)
    &&& r.workspace_edit_document_changes == on(said.workspace_edit_document_changes)
    &&& r.semantic_tokens_refresh_support == on(said.semantic_tokens_refresh_support)
    &&& r.inlay_hint.resolve_support == said.inlay_hint_resolve_support
    &&& r.inlay_hint.refresh_support == on(said.inlay_hint_refresh_support)
    &&& r.code_action.literal_support == said.code_action_literal_support
    &&& r.code_action.resolve_support == said.code_action_resolve_support
    &&& r.code_action.diagnostic_data_support == on(said.diagnostic_data_support)
    &&& r.diagnostic_refresh_support == (match said.diagnostics_refresh_support {
        Some(supported) => supported,
        None => on(said.diagnostic_refresh_support),
    })
    &&& r.file_operations == file_operations_of(said.file_operations)
}

impl FileOperationsCaps {
    /// What the server goes by for file operations.
    pub fn negotiate(said: &FileOperationsSaid) -> (r: FileOperationsCaps)
        ensures
            r == file_operations_of(*said),
    {
        FileOperationsCaps {
            will_rename: is_on(said.will_rename),
            did_rename: is_on(said.did_rename),
            did_create: is_on(said.did_create),
            did_delete: is_on(said.did_delete),
        }
    }
}

impl CompletionCaps {
    /// What the server goes by for completion.
    pub fn negotiate(said: &CompletionSaid) -> (r: CompletionCaps)
        ensures
            completion_agreed(r, *said),
    {
        CompletionCaps {
            snippet_support: is_on(said.snippet_support),
            insert_replace_support: is_on(said.insert_replace_support),
            commit_characters_support: is_on(said.commit_characters_support),
            documentation_format: prose(&said.documentation_format),
            resolve_properties: copy_list(&said.resolve_properties),
            list_item_defaults: copy_list(&said.list_item_defaults),
            kind_value_set: copy_numbers(&said.kind_value_set),
            tag_support_deprecated: shows_tag(&said.tags, Tag::Deprecated),
        }
    }
}

impl ClientCaps {
    /// What the server goes by.
    pub fn negotiate(said: &ClientCapabilities) -> (r: ClientCaps)
        ensures
            agreed(r, *said),
    {
        ClientCaps {
            hierarchical_document_symbols: is_on(said.hierarchical_document_symbol_support),
            diagnostic_tag_unnecessary: shows_tag(&said.diagnostic_tags, Tag::Unnecessary),
            code_description: is_on(said.code_description_support),
            work_done_progress: is_on(said.work_done_progress),
            workspace_configuration: is_on(said.configuration),
            dynamic_watched_files: is_on(said.watched_files_dynamic_registration),
            hover_format: prose(&said.hover_content_format),
            completion: CompletionCaps::negotiate(&said.completion),
            signature_help: SignatureHelpCaps {
                label_offset_support: is_on(said.signature_help.label_offset_support),
                active_parameter_support: is_on(said.signature_help.active_parameter_support),
            },
            signature_help_format: prose(&said.signature_help.documentation_format),
            folding_range_limit: said.folding_range_limit,
            folding_line_folding_only: is_on(said.folding_line_folding_only),
            symbol_resolve_support: said.symbol_resolve_support,
            rename_prepare_support: is_on(said.rename_prepare_support),
            workspace_edit_document_changes: is_on(said.workspace_edit_document_changes),
            semantic_tokens_refresh_support: is_on(said.semantic_tokens_refresh_support),
            inlay_hint: InlayHintCaps {
                resolve_support: said.inlay_hint_resolve_support,
                refresh_support: is_on(said.inlay_hint_refresh_support),
            },
            code_action: CodeActionCaps {
                literal_support: said.code_action_literal_support,
                resolve_support: said.code_action_resolve_support,
                diagnostic_data_support: is_on(said.diagnostic_data_support),
            },
            diagnostic_refresh_support: match said.diagnostics_refresh_support {
                Some(supported) => supported,
                None => is_on(said.diagnostic_refresh_support),
            },
            file_operations: FileOperationsCaps::negotiate(&said.file_operations),
        }
    }

    /// How diagnostics are shown.
    pub fn diagnostics(&self) -> (r: DiagnosticCaps)
        ensures
            r == (DiagnosticCaps {
                unnecessary_tags: self.diagnostic_tag_unnecessary,
                code_description: self.code_description,
                data_support: self.code_action.diagnostic_data_support,
            }),
    {
        DiagnosticCaps {
            unnecessary_tags: self.diagnostic_tag_unnecessary,
            code_description: self.code_description,
            data_support: self.code_action.diagnostic_data_support,
        }
    }
}

// ---------------------------------------------------------------------------
// What the server offers.
// ---------------------------------------------------------------------------

/// In which units positions in a line are counted.
#[derive(Debug, Clone, Copy, PartialEq, Eq, Structural)]
pub enum PositionEncoding {
    Utf8,
    Utf16,
    Utf32,
}

/// How the client tells the server of edits.
#[derive(Debug, Clone, Copy, PartialEq, Eq, Structural)]
pub enum SyncKind {
    Full,
    Incremental,
}

/// How documents are kept in step.
#[derive(Debug, Clone, Copy, PartialEq, Eq, Structural)]
pub struct SyncOptions {
    pub open_close: bool,
    pub change: SyncKind,
    /// Whether a save comes with the text.
    pub save_includes_text: bool,
}

/// A feature that may come with progress, and whose items may be completed later.
#[derive(Debug, Clone, Copy, PartialEq, Eq, Structural)]
pub struct Provider {
    pub work_done_progress: bool,
    pub resolve: bool,
}

/// How semantic tokens can be fetched.
#[derive(Debug, Clone, Copy, PartialEq, Eq, Structural)]
pub struct SemanticTokensProvider {
    pub range: bool,
    pub full_delta: bool,
}

/// What the server offers a client.
pub struct ServerCapabilities {
    pub position_encoding: PositionEncoding,
    pub sync: SyncOptions,
    pub document_symbols: bool,
    pub workspace_symbols: Provider,
    pub definition: bool,
    pub declaration: bool,
    pub type_definition: bool,
    pub implementation: bool,
    pub references: Provider,
    pub document_highlight: bool,
    pub hover: bool,
    pub call_hierarchy: bool,
    pub type_hierarchy: bool,
    pub completion: Provider,
    pub completion_label_details: bool,
    pub completion_triggers: Vec<String>,
    pub signature_triggers: Vec<String>,
    pub signature_retriggers: Vec<String>,
    pub folding_range: bool,
    pub selection_range: bool,
    pub color: bool,
    pub semantic_tokens: SemanticTokensProvider,
    pub inlay_hints: Provider,
    pub rename_prepare: bool,
    pub document_links: Provider,
    /// The name that the server's diagnostics go by.
    pub diagnostics_identifier: String,
    /// Whether a file can change what is said of another.
    pub inter_file_dependencies: bool,
    /// Whether diagnostics of the whole project can be fetched.
    pub workspace_diagnostics: bool,
    pub code_actions: Provider,
    pub document_formatting: bool,
    pub file_operations: FileOperationsCaps,
}

/// A feature without progress whose items are complete.
pub open spec fn plain_provider() -> Provider {
    Provider { work_done_progress: false, resolve: false }
}

/// A feature without progress whose items may be completed later.
pub open spec fn resolving_provider() -> Provider {
    Provider { work_done_progress: false, resolve: true }
}

/// Whether the features are offered that every client gets.
pub open spec fn offers_all(r: ServerCapabilities) -> bool {
    &&& r.sync == (SyncOptions {
        open_close: true,
        change: SyncKind::Incremental,
        save_includes_text: false,
    })
    &&& r.document_symbols && r.definition && r.declaration && r.type_definition
    &&& r.implementation && r.document_highlight && r.hover && r.call_hierarchy
    &&& r.type_hierarchy && r.folding_range && r.selection_range && r.color && r.rename_prepare
    &&& r.workspace_symbols == (Provider { work_done_progress: true, resolve: true })
    &&& r.references == (Provider { work_done_progress: true, resolve: false })
    &&& r.completion == resolving_provider() && r.completion_label_details
    &&& r.inlay_hints == resolving_provider()
    &&& r.code_actions == resolving_provider()
    &&& r.document_links == plain_provider()
    &&& r.semantic_tokens == (SemanticTokensProvider { range: true, full_delta: true })
    &&& r.inter_file_dependencies && !r.workspace_diagnostics
}

/// What the server offers a client. Nothing is offered that the client would never use or that
/// nothing stands behind: formatting only with a formatter, file operations only where the client
/// tells of them.
pub fn capabilities(encoding: PositionEncoding, caps: &ClientCaps, has_formatter: bool) -> (r:
    ServerCapabilities)
    ensures
        r.position_encoding == encoding,
        offers_all(r),
        text::texts(r.completion_triggers@) == seq!["."@, "$"@, "%"@, "\""@, "@"@],
        text::texts(r.signature_triggers@) == seq!["("@, ","@],
        text::texts(r.signature_retriggers@) == seq![")"@],
        r.diagnostics_identifier@ == "gdls"@,
        r.document_formatting == has_formatter,
        r.file_operations == caps.file_operations,
{
    let mut completion_triggers: Vec<String> = Vec::new();
    completion_triggers.push(".".to_owned());
    completion_triggers.push("$".to_owned());
    completion_triggers.push("%".to_owned());
    completion_triggers.push("\"".to_owned());
    completion_triggers.push("@".to_owned());
    let mut signature_triggers: Vec<String> = Vec::new();
    signature_triggers.push("(".to_owned());
    signature_triggers.push(",".to_owned());
    let mut signature_retriggers: Vec<String> = Vec::new();
    signature_retriggers.push(")".to_owned());
    proof {
        assert(text::texts(completion_triggers@) =~= seq!["."@, "$"@, "%"@, "\""@, "@"@]);
        assert(text::texts(signature_triggers@) =~= seq!["("@, ","@]);
        assert(text::texts(signature_retriggers@) =~= seq![")"@]);
    }
    let resolving = Provider { work_done_progress: false, resolve: true };
    ServerCapabilities {
        position_encoding: encoding,
        sync: SyncOptions {
            open_close: true,
            change: SyncKind::Incremental,
            save_includes_text: false,
        },
        document_symbols: true,
        workspace_symbols: Provider { work_done_progress: true, resolve: true },
        definition: true,
        declaration: true,
        type_definition: true,
        implementation: true,
        references: Provider { work_done_progress: true, resolve: false },
        document_highlight: true,
        hover: true,
        call_hierarchy: true,
        type_hierarchy: true,
        completion: resolving,
        completion_label_details: true,
        completion_triggers,
        signature_triggers,
        signature_retriggers,
        folding_range: true,
        selection_range: true,
        color: true,
        semantic_tokens: SemanticTokensProvider { range: true, full_delta: true },
        inlay_hints: resolving,
        rename_prepare: true,
        document_links: Provider { work_done_progress: false, resolve: false },
        diagnostics_identifier: "gdls".to_owned(),
        inter_file_dependencies: true,
        workspace_diagnostics: false,
        code_actions: resolving,
        document_formatting: has_formatter,
        file_operations: caps.file_operations,
    }
}

// ---------------------------------------------------------------------------
// Laws.
// ---------------------------------------------------------------------------

/// Whether a client says nothing of itself.
pub open spec fn says_nothing(said: ClientCapabilities) -> bool {
    &&& said.hierarchical_document_symbol_support is None && said.diagnostic_tags is None
    &&& said.code_description_support is None && said.diagnostic_data_support is None
    &&& said.work_done_progress is None && said.configuration is None
    &&& said.watched_files_dynamic_registration is None && said.hover_content_format is None
    &&& said.completion.snippet_support is None && said.completion.insert_replace_support is None
    &&& said.completion.commit_characters_support is None
    &&& said.completion.documentation_format is None
    &&& said.completion.resolve_properties is None && said.completion.list_item_defaults is None
    &&& said.completion.kind_value_set is None && said.completion.tags is None
    &&& said.signature_help.documentation_format is None
    &&& said.signature_help.label_offset_support is None
    &&& said.signature_help.active_parameter_support is None
    &&& said.folding_range_limit is None && said.folding_line_folding_only is None
    &&& !said.symbol_resolve_support && said.rename_prepare_support is None
    &&& said.workspace_edit_document_changes is None
    &&& said.diagnostics_refresh_support is None && said.diagnostic_refresh_support is None
    &&& said.semantic_tokens_refresh_support is None
    &&& !said.inlay_hint_resolve_support && said.inlay_hint_refresh_support is None
    &&& !said.code_action_literal_support && !said.code_action_resolve_support
    &&& said.file_operations.will_rename is None && said.file_operations.did_rename is None
    &&& said.file_operations.did_create is None && said.file_operations.did_delete is None
}

/// A client that says nothing gets nothing that it would have to understand: no feature is on, and
/// all prose is plain text.
pub proof fn lemma_silent_client_gets_the_floor(r: ClientCaps, said: ClientCapabilities)
    requires
        agreed(r, said),
        says_nothing(said),
    ensures
        !r.hierarchical_document_symbols && !r.diagnostic_tag_unnecessary && !r.code_description,
        !r.work_done_progress && !r.workspace_configuration && !r.dynamic_watched_files,
        r.hover_format == ProseFormat::PlainText,
        r.completion.documentation_format == ProseFormat::PlainText,
        r.signature_help_format == ProseFormat::PlainText,
        !r.completion.snippet_support && !r.completion.insert_replace_support,
        !r.completion.commit_characters_support && !r.completion.tag_support_deprecated,
        r.completion.resolve_properties@.len() == 0,
        r.completion.list_item_defaults@.len() == 0,
        r.completion.kind_value_set is None,
        !r.signature_help.label_offset_support && !r.signature_help.active_parameter_support,
        r.folding_range_limit is None && !r.folding_line_folding_only,
        !r.symbol_resolve_support && !r.rename_prepare_support,
        !r.workspace_edit_document_changes && !r.diagnostic_refresh_support,
        !r.semantic_tokens_refresh_support,
        !r.inlay_hint.resolve_support && !r.inlay_hint.refresh_support,
        !r.code_action.literal_support && !r.code_action.resolve_support,
        !r.code_action.diagnostic_data_support,
        !r.file_operations.will_rename && !r.file_operations.did_rename,
        !r.file_operations.did_create && !r.file_operations.did_delete,
{
    assert(text::texts(r.completion.resolve_properties@).len() == 0);
    assert(text::texts(r.completion.list_item_defaults@).len() == 0);
}

/// The prose that a client gets is one that it named, unless it named none that the server writes.
pub proof fn lemma_prose_was_asked_for(formats: Seq<MarkupKind>, i: int)
    requires
        0 <= i,
        first_format(formats, i) == ProseFormat::Markdown,
    ensures
        exists|k: int| i <= k < formats.len() && #[trigger] formats[k] == MarkupKind::Markdown,
    decreases formats.len() - i,
{
    if i < formats.len() && formats[i] == MarkupKind::Other {
        lemma_prose_was_asked_for(formats, i + 1);
        let k = choose|k: int|
            i + 1 <= k < formats.len() && #[trigger] formats[k] == MarkupKind::Markdown;
        assert(formats[k] == MarkupKind::Markdown);
    } else if i < formats.len() {
        assert(formats[i] == MarkupKind::Markdown);
    }
}

/// The prose that a client gets is the first kind of its list that the server writes, and plain text
/// where the list has none.
pub proof fn lemma_first_known_prose(formats: Seq<MarkupKind>, from: int, k: int)
    requires
        0 <= from <= k <= formats.len(),
        forall|j: int| from <= j < k ==> #[trigger] formats[j] == MarkupKind::Other,
        k < formats.len() ==> formats[k] != MarkupKind::Other,
    ensures
        k < formats.len() && formats[k] == MarkupKind::Markdown ==> first_format(formats, from)
            == ProseFormat::Markdown,
        k < formats.len() && formats[k] == MarkupKind::PlainText ==> first_format(formats, from)
            == ProseFormat::PlainText,
        k == formats.len() ==> first_format(formats, from) == ProseFormat::PlainText,
    decreases k - from,
{
    if from < k {
        assert(formats[from] == MarkupKind::Other);
        lemma_first_known_prose(formats, from + 1, k);
    }
}

/// What a client says it supports is what the server goes by, each for itself; what it denies or
/// leaves out is off.
pub proof fn lemma_what_a_client_says_counts(r: ClientCaps, said: ClientCapabilities)
    requires
        agreed(r, said),
    ensures
        r.hierarchical_document_symbols <==> said.hierarchical_document_symbol_support == Some(
            true,
        ),
        r.code_description <==> said.code_description_support == Some(true),
        r.work_done_progress <==> said.work_done_progress == Some(true),
        r.workspace_configuration <==> said.configuration == Some(true),
        r.dynamic_watched_files <==> said.watched_files_dynamic_registration == Some(true),
        r.folding_line_folding_only <==> said.folding_line_folding_only == Some(true),
        r.rename_prepare_support <==> said.rename_prepare_support == Some(true),
        r.workspace_edit_document_changes <==> said.workspace_edit_document_changes == Some(true),
        r.semantic_tokens_refresh_support <==> said.semantic_tokens_refresh_support == Some(true),
        r.inlay_hint.refresh_support <==> said.inlay_hint_refresh_support == Some(true),
        r.code_action.diagnostic_data_support <==> said.diagnostic_data_support == Some(true),
        r.symbol_resolve_support == said.symbol_resolve_support,
        r.inlay_hint.resolve_support == said.inlay_hint_resolve_support,
        r.code_action.literal_support == said.code_action_literal_support,
        r.code_action.resolve_support == said.code_action_resolve_support,
        r.folding_range_limit == said.folding_range_limit,
        r.signature_help.label_offset_support <==> said.signature_help.label_offset_support == Some(
            true,
        ),
        r.signature_help.active_parameter_support <==> said.signature_help.active_parameter_support
            == Some(true),
        r.diagnostic_refresh_support <==> said.diagnostics_refresh_support == Some(true) || (
        said.diagnostics_refresh_support is None && said.diagnostic_refresh_support == Some(true)),
        r.file_operations.will_rename <==> said.file_operations.will_rename == Some(true),
        r.file_operations.did_rename <==> said.file_operations.did_rename == Some(true),
        r.file_operations.did_create <==> said.file_operations.did_create == Some(true),
        r.file_operations.did_delete <==> said.file_operations.did_delete == Some(true),
{
}

/// So with completion: its switches, its lists and its marks.
pub proof fn lemma_what_a_client_says_of_completion_counts(r: CompletionCaps, said: CompletionSaid)
    requires
        completion_agreed(r, said),
    ensures
        r.snippet_support <==> said.snippet_support == Some(true),
        r.insert_replace_support <==> said.insert_replace_support == Some(true),
        r.commit_characters_support <==> said.commit_characters_support == Some(true),
        said.resolve_properties matches Some(list) ==> r.resolve_properties@.len() == list@.len()
            && forall|i: int|
            0 <= i < list@.len() ==> (#[trigger] r.resolve_properties@[i])@ == list@[i]@,
        said.list_item_defaults matches Some(list) ==> r.list_item_defaults@.len() == list@.len()
            && forall|i: int|
            0 <= i < list@.len() ==> (#[trigger] r.list_item_defaults@[i])@ == list@[i]@,
        said.resolve_properties is None ==> r.resolve_properties@.len() == 0,
        said.list_item_defaults is None ==> r.list_item_defaults@.len() == 0,
        said.kind_value_set matches Some(list) ==> r.kind_value_set is Some
            && r.kind_value_set->0@ == list@,
        said.kind_value_set is None ==> r.kind_value_set is None,
        r.tag_support_deprecated <==> said.tags is Some && exists|i: int|
            0 <= i < said.tags->0@.len() && #[trigger] said.tags->0@[i] == Tag::Deprecated,
{
    assert(text::texts(r.resolve_properties@).len() == r.resolve_properties@.len());
    assert(text::texts(r.list_item_defaults@).len() == r.list_item_defaults@.len());
    if let Some(list) = said.resolve_properties {
        assert forall|i: int| 0 <= i < list@.len() implies (#[trigger] r.resolve_properties@[i])@
            == list@[i]@ by {
            assert(text::texts(r.resolve_properties@)[i] == text::texts(list@)[i]);
        }
    }
    if let Some(list) = said.list_item_defaults {
        assert forall|i: int| 0 <= i < list@.len() implies (#[trigger] r.list_item_defaults@[i])@
            == list@[i]@ by {
            assert(text::texts(r.list_item_defaults@)[i] == text::texts(list@)[i]);
        }
    }
}

/// The marks and the prose of a client: unneeded code is faded exactly where the client names that
/// mark, and each kind of prose is that of its own list.
pub proof fn lemma_marks_and_prose(r: ClientCaps, said: ClientCapabilities)
    requires
        agreed(r, said),
    ensures
        r.diagnostic_tag_unnecessary <==> said.diagnostic_tags is Some && exists|i: int|
            0 <= i < said.diagnostic_tags->0@.len() && #[trigger] said.diagnostic_tags->0@[i]
                == Tag::Unnecessary,
        said.hover_content_format is None ==> r.hover_format == ProseFormat::PlainText,
        said.hover_content_format matches Some(list) ==> (list@.len() > 0 && list@[0]
            == MarkupKind::Markdown ==> r.hover_format == ProseFormat::Markdown),
        said.hover_content_format matches Some(list) ==> (list@.len() > 0 && list@[0]
            == MarkupKind::PlainText ==> r.hover_format == ProseFormat::PlainText),
        said.signature_help.documentation_format is None ==> r.signature_help_format
            == ProseFormat::PlainText,
        said.signature_help.documentation_format matches Some(list) ==> (list@.len() > 0
            && list@[0] == MarkupKind::Markdown ==> r.signature_help_format
            == ProseFormat::Markdown),
        said.completion.documentation_format is None ==> r.completion.documentation_format
            == ProseFormat::PlainText,
        said.completion.documentation_format matches Some(list) ==> (list@.len() > 0 && list@[0]
            == MarkupKind::Markdown ==> r.completion.documentation_format
            == ProseFormat::Markdown),
{
}

/// Every client is offered all of the language features, edits come in parts, and diagnostics are
/// fetched file by file.
pub proof fn lemma_what_every_client_is_offered(r: ServerCapabilities)
    requires
        offers_all(r),
    ensures
        r.sync.open_close && r.sync.change is Incremental && !r.sync.save_includes_text,
        r.document_symbols && r.definition && r.declaration && r.type_definition,
        r.implementation && r.document_highlight && r.hover && r.call_hierarchy,
        r.type_hierarchy && r.folding_range && r.selection_range && r.color,
        r.rename_prepare && r.completion_label_details,
        r.completion.resolve && r.inlay_hints.resolve && r.code_actions.resolve,
        r.workspace_symbols.resolve && r.workspace_symbols.work_done_progress,
        r.references.work_done_progress && !r.references.resolve && !r.document_links.resolve,
        !r.completion.work_done_progress && !r.inlay_hints.work_done_progress,
        !r.code_actions.work_done_progress && !r.document_links.work_done_progress,
        r.semantic_tokens.range && r.semantic_tokens.full_delta,
        r.inter_file_dependencies && !r.workspace_diagnostics,
{
}

} // verus!
