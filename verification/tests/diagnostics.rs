use gd_server::diagnostics::{
    collect_diagnostics, diagnostic_source, document_diagnostic, project_related, related_files,
    result_id_for, result_id_text, severity_number, unnecessary_tag, warning_docs_uri,
    AnalyzerDiagnostic, DiagnosticCaps, DocumentState, PulledReport, RelatedInfo, ReportSource,
    Severity, SyntaxDiagnostic,
};
use gd_server::files::ProjectFiles;
use gd_server::memory::MemoryPressure;
use gd_server::native::{ApiProvenance, Dialect, DialectOrigin, LoadedNative, NativeSurface};
use gd_server::syntax::ByteSpan;
use gd_server::text_map::TextMap;
use gd_server::uri::CanonicalKey;
use gd_server::workspace::{Analysis, AnalyzerLimits, Workspace};
use gd_server::xfile::FileId;

fn workspace() -> Workspace {
    let surface = NativeSurface {
        version_major: 4,
        version_minor: 7,
        provenance: ApiProvenance::Exact,
        content_hash: 1,
        class_count: 1,
        empty: false,
    };
    Workspace::load(
        ProjectFiles::new(),
        TextMap::new(),
        LoadedNative { surface, release_notice: None, extension_notices: vec![] },
        Dialect { major: 4, minor: 7 },
        DialectOrigin::Declared,
        8,
        AnalyzerLimits { iter_limit: None, checkpoint_delay_us: None },
    )
}

fn key() -> CanonicalKey {
    CanonicalKey::for_path("/proj/a.gd", None).unwrap()
}

const DOCUMENT: DocumentState = DocumentState {
    is_stub: false,
    is_open: true,
    is_script: true,
    hash: 255,
    epoch: 3,
    version: 1,
};

#[test]
fn hard_pressure_publish_diagnostics_does_not_start_uncached_analysis() {
    let mut ws = workspace();
    let source = diagnostic_source(&mut ws, &key(), &DOCUMENT, MemoryPressure::Hard);
    assert_eq!(
        source,
        ReportSource::Syntax,
        "Hard pressure with no cached analysis must publish parser-only diagnostics"
    );
    ws.analyzed(&key(), 255, 3, Analysis { value: 9, bailed: false });
    assert_eq!(
        diagnostic_source(&mut ws, &key(), &DOCUMENT, MemoryPressure::Hard),
        ReportSource::Cached(9)
    );
    assert_eq!(
        diagnostic_source(&mut ws, &key(), &DOCUMENT, MemoryPressure::Soft),
        ReportSource::Analyze
    );
}

#[test]
fn warning_docs_uri_maps_per_code_anchors_with_deprecated_fallback() {
    assert_eq!(
        warning_docs_uri("UNUSED_VARIABLE").unwrap().as_str(),
        "https://docs.godotengine.org/en/stable/classes/class_projectsettings.html\
         #class-projectsettings-property-debug-gdscript-warnings-unused-variable"
    );
    assert_eq!(
        warning_docs_uri("GET_NODE_DEFAULT_WITHOUT_ONREADY").unwrap().as_str(),
        "https://docs.godotengine.org/en/stable/classes/class_projectsettings.html\
         #class-projectsettings-property-debug-gdscript-warnings-get-node-default-without-onready"
    );
    for deprecated in [
        "PROPERTY_USED_AS_FUNCTION",
        "CONSTANT_USED_AS_FUNCTION",
        "FUNCTION_USED_AS_PROPERTY",
    ] {
        assert!(
            warning_docs_uri(deprecated).unwrap().as_str().ends_with("warning_system.html"),
            "deprecated codes have no ProjectSettings entry and must use the overview page"
        );
    }
}

#[test]
fn pages_of_the_server_and_other_files_are_not_analyzed() {
    let mut ws = workspace();
    let stub = DocumentState { is_stub: true, ..DOCUMENT };
    let closed = DocumentState { is_open: false, ..DOCUMENT };
    let other = DocumentState { is_script: false, ..DOCUMENT };
    for (doc, source) in [
        (stub, ReportSource::Nothing),
        (closed, ReportSource::Nothing),
        (other, ReportSource::Syntax),
    ] {
        assert_eq!(diagnostic_source(&mut ws, &key(), &doc, MemoryPressure::Normal), source);
    }
}

fn span(start: usize, end: usize) -> ByteSpan {
    ByteSpan { start, end }
}

fn warning(code: &str, related: Vec<RelatedInfo>) -> AnalyzerDiagnostic {
    AnalyzerDiagnostic {
        span: span(1, 2),
        severity: Severity::Warning,
        code: code.to_string(),
        message: "m".to_string(),
        warning: Some(code.to_string()),
        related,
    }
}

fn related(file: Option<u32>, message: &str) -> RelatedInfo {
    RelatedInfo { file: file.map(FileId), span: span(3, 4), message: message.to_string() }
}

#[test]
fn syntax_comes_before_analysis() {
    let caps = DiagnosticCaps {
        unnecessary_tags: true,
        code_description: true,
        data_support: true,
    };
    let syntax = vec![SyntaxDiagnostic { span: span(5, 6), message: "bad".to_string() }];
    let analyzed = vec![warning("UNUSED_VARIABLE", vec![])];
    let items = collect_diagnostics(&caps, "file:///a.gd", &vec![], &syntax, &analyzed);
    assert_eq!(items.len(), 2);
    assert_eq!(items[0].message, "bad");
    assert_eq!(items[0].severity, Severity::Error);
    assert_eq!(items[0].span, span(5, 6));
    assert_eq!(items[1].code.as_deref(), Some("UNUSED_VARIABLE"));
    assert!(items[1].unnecessary);
    assert!(items[1].href.is_some());
    assert!(items[1].related.is_none());
    assert_eq!(severity_number(Severity::Error), 1);
    assert_eq!(severity_number(Severity::Warning), 2);
}

#[test]
fn a_plain_client_gets_the_same_messages() {
    let bare = DiagnosticCaps {
        unnecessary_tags: false,
        code_description: false,
        data_support: false,
    };
    let analyzed = vec![warning("UNUSED_VARIABLE", vec![])];
    let items = collect_diagnostics(&bare, "file:///a.gd", &vec![], &vec![], &analyzed);
    assert_eq!(items[0].message, "m");
    assert!(!items[0].unnecessary && items[0].href.is_none() && items[0].data.is_none());
    assert!(unnecessary_tag("UNUSED_VARIABLE"));
    assert!(!unnecessary_tag("SHADOWED_VARIABLE"));
}

#[test]
fn related_places_lie_in_known_files() {
    let targets = vec![(FileId(7), "file:///b.gd".to_string())];
    let list = vec![related(None, "here"), related(Some(7), "there"), related(Some(8), "gone")];
    let shown = project_related(&list, "file:///a.gd", &targets).unwrap();
    let places: Vec<(&str, &str)> =
        shown.iter().map(|r| (r.uri.as_str(), r.message.as_str())).collect();
    assert_eq!(places, [("file:///a.gd", "here"), ("file:///b.gd", "there")]);
    assert!(project_related(&vec![related(Some(8), "gone")], "u", &targets).is_none());
    let files = related_files(&vec![warning("A", list), warning("B", vec![related(Some(7), "")])]);
    assert_eq!(files, [FileId(7), FileId(8)]);
}

#[test]
fn a_report_is_known_by_text_epoch_and_generation() {
    assert_eq!(result_id_text(-1, 255, 3, 4), "-1:00000000000000ff:3:4");
    let mut ws = workspace();
    let id = result_id_for(&mut ws, &key(), &DOCUMENT, MemoryPressure::Normal).unwrap();
    assert_eq!(id, format!("1:00000000000000ff:3:{}", ws.analysis_generation()));
    ws.apply_strict();
    let after = result_id_for(&mut ws, &key(), &DOCUMENT, MemoryPressure::Normal).unwrap();
    assert_ne!(id, after);
    assert!(
        result_id_for(&mut ws, &key(), &DOCUMENT, MemoryPressure::Hard).is_none(),
        "a report without its analysis has no identity"
    );
}

#[test]
fn only_the_report_of_now_is_unchanged() {
    let current = || Some("x".to_string());
    assert!(matches!(
        document_diagnostic(Some("x"), current()),
        PulledReport::Unchanged(id) if id == "x"
    ));
    assert!(matches!(
        document_diagnostic(Some("y"), current()),
        PulledReport::Full(Some(id)) if id == "x"
    ));
    assert!(matches!(document_diagnostic(None, current()), PulledReport::Full(Some(_))));
    assert!(matches!(document_diagnostic(Some("x"), None), PulledReport::Full(None)));
}

#[test]
fn different_reports_have_different_identities() {
    let ids = [
        result_id_text(1, 2, 3, 4),
        result_id_text(11, 2, 3, 4),
        result_id_text(1, 12, 3, 4),
        result_id_text(1, 2, 13, 4),
        result_id_text(1, 2, 3, 14),
        result_id_text(-1, 2, 3, 4),
        result_id_text(1, 2, 34, 4),
    ];
    for (i, a) in ids.iter().enumerate() {
        for b in &ids[i + 1..] {
            assert_ne!(a, b);
        }
    }
}
