use gd_server::caps::{
    capabilities, prose_format_from, ClientCapabilities, ClientCaps, CompletionCaps,
    CompletionSaid, FileOperationsSaid, MarkupKind, PositionEncoding, ProseFormat, Provider,
    SignatureHelpSaid, SyncKind, Tag,
};

fn silent() -> ClientCapabilities {
    ClientCapabilities {
        hierarchical_document_symbol_support: None,
        diagnostic_tags: None,
        code_description_support: None,
        diagnostic_data_support: None,
        work_done_progress: None,
        configuration: None,
        watched_files_dynamic_registration: None,
        hover_content_format: None,
        completion: CompletionSaid {
            snippet_support: None,
            insert_replace_support: None,
            commit_characters_support: None,
            documentation_format: None,
            resolve_properties: None,
            list_item_defaults: None,
            kind_value_set: None,
            tags: None,
        },
        signature_help: SignatureHelpSaid {
            documentation_format: None,
            label_offset_support: None,
            active_parameter_support: None,
        },
        folding_range_limit: None,
        folding_line_folding_only: None,
        symbol_resolve_support: false,
        rename_prepare_support: None,
        workspace_edit_document_changes: None,
        diagnostics_refresh_support: None,
        diagnostic_refresh_support: None,
        semantic_tokens_refresh_support: None,
        inlay_hint_resolve_support: false,
        inlay_hint_refresh_support: None,
        code_action_literal_support: false,
        code_action_resolve_support: false,
        file_operations: FileOperationsSaid {
            will_rename: None,
            did_rename: None,
            did_create: None,
            did_delete: None,
        },
    }
}

#[test]
fn the_first_known_format_counts() {
    assert_eq!(prose_format_from(&vec![]), ProseFormat::PlainText);
    assert_eq!(
        prose_format_from(&vec![MarkupKind::Other, MarkupKind::Markdown]),
        ProseFormat::Markdown
    );
    assert_eq!(
        prose_format_from(&vec![MarkupKind::PlainText, MarkupKind::Markdown]),
        ProseFormat::PlainText
    );
}

#[test]
fn a_silent_client_gets_the_floor() {
    let caps = ClientCaps::negotiate(&silent());
    assert_eq!(caps.hover_format, ProseFormat::PlainText);
    assert!(!caps.completion.snippet_support);
    assert!(!caps.diagnostic_refresh_support);
    assert!(!caps.dynamic_watched_files);
    assert_eq!(caps.folding_range_limit, None);
    let diagnostics = caps.diagnostics();
    assert!(!diagnostics.unnecessary_tags && !diagnostics.code_description);
}

#[test]
fn what_a_client_says_counts() {
    let mut said = silent();
    said.hover_content_format = Some(vec![MarkupKind::Markdown]);
    said.diagnostic_tags = Some(vec![Tag::Other, Tag::Unnecessary]);
    said.diagnostic_data_support = Some(true);
    said.folding_range_limit = Some(50);
    said.completion.snippet_support = Some(true);
    said.signature_help.label_offset_support = Some(true);
    let caps = ClientCaps::negotiate(&said);
    assert_eq!(caps.hover_format, ProseFormat::Markdown);
    assert!(caps.diagnostics().unnecessary_tags && caps.diagnostics().data_support);
    assert_eq!(caps.folding_range_limit, Some(50));
    assert!(caps.signature_help.label_offset_support);
    assert!(CompletionCaps::negotiate(&said.completion).snippet_support);
    said.completion.tags = Some(vec![Tag::Unnecessary]);
    said.completion.resolve_properties = Some(vec!["documentation".to_string()]);
    said.completion.kind_value_set = Some(vec![1, 25]);
    let completion = CompletionCaps::negotiate(&said.completion);
    assert!(!completion.tag_support_deprecated);
    assert_eq!(completion.resolve_properties, ["documentation"]);
    assert!(completion.list_item_defaults.is_empty());
    assert_eq!(completion.kind_value_set, Some(vec![1, 25]));
}

#[test]
fn the_plural_spelling_of_diagnostic_refresh_wins() {
    let mut said = silent();
    said.diagnostic_refresh_support = Some(true);
    assert!(ClientCaps::negotiate(&said).diagnostic_refresh_support);
    said.diagnostics_refresh_support = Some(false);
    assert!(!ClientCaps::negotiate(&said).diagnostic_refresh_support);
}

#[test]
fn formatting_is_offered_with_a_formatter() {
    let mut said = silent();
    said.file_operations.will_rename = Some(true);
    let caps = ClientCaps::negotiate(&said);
    let offered = capabilities(PositionEncoding::Utf16, &caps, true);
    assert!(offered.document_formatting && offered.inter_file_dependencies);
    assert!(!offered.workspace_diagnostics);
    assert!(offered.file_operations.will_rename && !offered.file_operations.did_rename);
    assert_eq!(offered.completion_triggers, [".", "$", "%", "\"", "@"]);
    assert_eq!(offered.signature_triggers, ["(", ","]);
    assert_eq!(offered.signature_retriggers, [")"]);
    assert_eq!(offered.position_encoding, PositionEncoding::Utf16);
    assert_eq!(offered.sync.change, SyncKind::Incremental);
    assert_eq!(offered.diagnostics_identifier, "gdls");
    assert!(offered.hover && offered.type_hierarchy && offered.semantic_tokens.full_delta);
    assert_eq!(offered.references, Provider { work_done_progress: true, resolve: false });
    assert!(!capabilities(PositionEncoding::Utf8, &caps, false).document_formatting);
}
