//! Diagnostics: what is said of a document, and when it may be said again unchanged.

use vstd::prelude::*;
use vstd::string::*;

use crate::memory::MemoryPressure;
use crate::numbers;
use crate::numbers::{decimal, hex, signed_decimal};
use crate::syntax::ByteSpan;
use crate::text;
use crate::text::{chars_of, opt_is, same_text, to_lower};
use crate::uri;
use crate::uri::{CanonicalKey, Uri};
use crate::workspace;
use crate::workspace::{Workspace, WorkspaceView};
use crate::xfile::FileId;
use crate::lru_cache;

verus! {

// ---------------------------------------------------------------------------
// Warnings.
// ---------------------------------------------------------------------------

/// Whether a warning is of something that is not used or not reached.
pub open spec fn unnecessary(code: Seq<char>) -> bool {
    ||| code == "UNUSED_VARIABLE"@
    ||| code == "UNUSED_LOCAL_CONSTANT"@
    ||| code == "UNUSED_PRIVATE_CLASS_VARIABLE"@
    ||| code == "UNUSED_PARAMETER"@
    ||| code == "UNUSED_SIGNAL"@
    ||| code == "UNREACHABLE_CODE"@
    ||| code == "UNREACHABLE_PATTERN"@
}

/// Whether a warning is of something that is not used or not reached. It is so by its code, however
/// severe it is made.
pub fn unnecessary_tag(code: &str) -> (r: bool)
    ensures
        r == unnecessary(code@),
{
    same_text(code, "UNUSED_VARIABLE") || same_text(code, "UNUSED_LOCAL_CONSTANT") || same_text(
        code,
        "UNUSED_PRIVATE_CLASS_VARIABLE",
    ) || same_text(code, "UNUSED_PARAMETER") || same_text(code, "UNUSED_SIGNAL") || same_text(
        code,
        "UNREACHABLE_CODE",
    ) || same_text(code, "UNREACHABLE_PATTERN")
}

/// Whether a warning has no page of its own in the engine's documentation.
pub open spec fn without_page(code: Seq<char>) -> bool {
    ||| code == "PROPERTY_USED_AS_FUNCTION"@
    ||| code == "CONSTANT_USED_AS_FUNCTION"@
    ||| code == "FUNCTION_USED_AS_PROPERTY"@
}

/// A text with hyphens in place of underscores.
pub open spec fn hyphened(s: Seq<char>) -> Seq<char> {
    s.map_values(
        |c: char|
            if c == '_' {
                '-'
            } else {
                c
            },
    )
}

fn to_hyphens(s: &str) -> (r: String)
    ensures
        r@ == hyphened(s@),
{
    let chars = chars_of(s);
    let mut r: String = String::new();
    let mut i: usize = 0;
    proof {
        assert(hyphened(s@.take(0)) =~= Seq::<char>::empty());
    }
    while i < chars.len()
        invariant
            0 <= i <= chars@.len(),
            chars@ == s@,
            r@ == hyphened(s@.take(i as int)),
        decreases chars@.len() - i,
    {
        let c: char = if chars[i] == '_' {
            '-'
        } else {
            chars[i]
        };
        r.push(c);
        proof {
            assert(r@ =~= hyphened(s@.take(i as int + 1)));
        }
        i = i + 1;
    }
    proof {
        assert(s@.take(i as int) =~= s@);
    }
    r
}

/// Where a warning is documented: in the settings of the project, each has a place of its own; the
/// few that have none are covered by the overview of warnings.
pub open spec fn docs_text(code: Seq<char>) -> Seq<char> {
    if without_page(code) {
        "https://docs.godotengine.org/en/stable/tutorials/scripting/gdscript/warning_system.html"@
    } else {
        "https://docs.godotengine.org/en/stable/classes/class_projectsettings.html"@
            + "#class-projectsettings-property-debug-gdscript-warnings-"@ + hyphened(
            text::lowered(code),
        )
    }
}

/// Where a warning is documented.
pub fn warning_docs_text(code: &str) -> (r: String)
    ensures
        r@ == docs_text(code@),
{
    if same_text(code, "PROPERTY_USED_AS_FUNCTION") || same_text(
        code,
        "CONSTANT_USED_AS_FUNCTION",
    ) || same_text(code, "FUNCTION_USED_AS_PROPERTY") {
        return "https://docs.godotengine.org/en/stable/tutorials/scripting/gdscript/warning_system.html".to_owned();
    }
    let mut r = "https://docs.godotengine.org/en/stable/classes/class_projectsettings.html".to_owned();
    r.append("#class-projectsettings-property-debug-gdscript-warnings-");
    r.append(to_hyphens(to_lower(code).as_str()).as_str());
    r
}

/// Where a warning is documented, as a URI; nothing for a code that makes none.
pub fn warning_docs_uri(code: &str) -> (r: Option<Uri>)
    ensures
        r is Some == uri::is_uri(docs_text(code@)),
        r matches Some(uri) ==> uri@ == docs_text(code@),
{
    Uri::parse(warning_docs_text(code).as_str())
}

// ---------------------------------------------------------------------------
// What is reported.
// ---------------------------------------------------------------------------

/// How severe a diagnostic is.
#[derive(Debug, Clone, Copy, PartialEq, Eq, Structural)]
pub enum Severity {
    Error,
    Warning,
}

/// The number of a severity in the protocol.
pub open spec fn wire_number(severity: Severity) -> u32 {
    match severity {
        Severity::Error => 1,
        Severity::Warning => 2,
    }
}

/// The number of a severity in the protocol.
pub fn severity_number(severity: Severity) -> (r: u32)
    ensures
        r == wire_number(severity),
{
    match severity {
        Severity::Error => 1,
        Severity::Warning => 2,
    }
}

/// An error that the parser found.
pub struct SyntaxDiagnostic {
    pub span: ByteSpan,
    pub message: String,
}

/// A place that a diagnostic also concerns: in the same file, or in another.
pub struct RelatedInfo {
    pub file: Option<FileId>,
    pub span: ByteSpan,
    pub message: String,
}

/// What the analyzer found.
pub struct AnalyzerDiagnostic {
    pub span: ByteSpan,
    pub severity: Severity,
    pub code: String,
    pub message: String,
    /// The warning that it is, by its code; an error is none.
    pub warning: Option<String>,
    pub related: Vec<RelatedInfo>,
}

/// A place as a client gets it.
pub struct RelatedInformation {
    pub uri: String,
    pub span: ByteSpan,
    pub message: String,
}

/// A diagnostic as a client gets it. The places are bytes of the texts that they are in.
pub struct Diagnostic {
    pub span: ByteSpan,
    pub severity: Severity,
    pub code: Option<String>,
    pub message: String,
    /// Shown faded.
    pub unnecessary: bool,
    /// Where it is documented.
    pub href: Option<Uri>,
    /// The code of the warning, for fixes to find.
    pub data: Option<String>,
    pub related: Option<Vec<RelatedInformation>>,
}

#[verifier::ext_equal]
pub struct RelatedView {
    pub uri: Seq<char>,
    pub span: ByteSpan,
    pub message: Seq<char>,
}

#[verifier::ext_equal]
pub struct DiagnosticView {
    pub span: ByteSpan,
    pub severity: Severity,
    pub code: Option<Seq<char>>,
    pub message: Seq<char>,
    pub unnecessary: bool,
    pub href: Option<Seq<char>>,
    pub data: Option<Seq<char>>,
    pub related: Option<Seq<RelatedView>>,
}

impl View for RelatedInformation {
    type V = RelatedView;

    open spec fn view(&self) -> RelatedView {
        RelatedView { uri: self.uri@, span: self.span, message: self.message@ }
    }
}

/// Places, as plain values.
pub open spec fn related_view(related: Option<Vec<RelatedInformation>>) -> Option<Seq<RelatedView>> {
    match related {
        Some(related) => Some(related@.map_values(|one: RelatedInformation| one@)),
        None => None,
    }
}

impl View for Diagnostic {
    type V = DiagnosticView;

    open spec fn view(&self) -> DiagnosticView {
        DiagnosticView {
            span: self.span,
            severity: self.severity,
            code: text::opt_string(self.code),
            message: self.message@,
            unnecessary: self.unnecessary,
            href: match self.href {
                Some(uri) => Some(uri@),
                None => None,
            },
            data: text::opt_string(self.data),
            related: related_view(self.related),
        }
    }
}

/// What a client takes of a diagnostic beyond place, severity and message.
#[derive(Debug, Clone, Copy, PartialEq, Eq, Structural)]
pub struct DiagnosticCaps {
    pub unnecessary_tags: bool,
    pub code_description: bool,
    pub data_support: bool,
}

/// The URI of a file whose text is at hand.
pub open spec fn target_uri(targets: Seq<(FileId, String)>, i: int, file: FileId) -> Option<Seq<char>>
    decreases targets.len() - i,
{
    if i >= targets.len() {
        None
    } else if targets[i].0 == file {
        Some(targets[i].1@)
    } else {
        target_uri(targets, i + 1, file)
    }
}

fn find_target<'a>(targets: &'a Vec<(FileId, String)>, file: FileId) -> (r: Option<&'a str>)
    ensures
        text::opt_str(r) == target_uri(targets@, 0, file),
{
    let mut i: usize = 0;
    while i < targets.len()
        invariant
            0 <= i <= targets@.len(),
            target_uri(targets@, 0, file) == target_uri(targets@, i as int, file),
        decreases targets@.len() - i,
    {
        if targets[i].0 == file {
            return Some(targets[i].1.as_str());
        }
        i = i + 1;
    }
    None
}

/// A place as a client gets it: one in another file only where that file's text is at hand.
pub open spec fn projected(
    one: RelatedInfo,
    request_uri: Seq<char>,
    targets: Seq<(FileId, String)>,
) -> Option<RelatedView> {
    match one.file {
        None => Some(RelatedView { uri: request_uri, span: one.span, message: one.message@ }),
        Some(file) => match target_uri(targets, 0, file) {
            Some(uri) => Some(RelatedView { uri, span: one.span, message: one.message@ }),
            None => None,
        },
    }
}

/// The places that can be shown.
pub open spec fn all_projected(
    related: Seq<RelatedInfo>,
    request_uri: Seq<char>,
    targets: Seq<(FileId, String)>,
) -> Seq<RelatedView>
    decreases related.len(),
{
    if related.len() == 0 {
        Seq::empty()
    } else {
        let before = all_projected(related.drop_last(), request_uri, targets);
        match projected(related.last(), request_uri, targets) {
            Some(view) => before.push(view),
            None => before,
        }
    }
}

/// The places of a diagnostic, where it has any to show.
pub open spec fn shown_related(
    related: Seq<RelatedInfo>,
    request_uri: Seq<char>,
    targets: Seq<(FileId, String)>,
) -> Option<Seq<RelatedView>> {
    let shown = all_projected(related, request_uri, targets);
    if shown.len() == 0 {
        None
    } else {
        Some(shown)
    }
}

/// The places of a diagnostic, where it has any to show. A place whose file is not at hand is left
/// out, never the diagnostic.
pub fn project_related(
    related: &Vec<RelatedInfo>,
    request_uri: &str,
    targets: &Vec<(FileId, String)>,
) -> (r: Option<Vec<RelatedInformation>>)
    ensures
        related_view(r) == shown_related(related@, request_uri@, targets@),
{
    let mut out: Vec<RelatedInformation> = Vec::new();
    let mut i: usize = 0;
    proof {
        assert(related@.take(0) =~= Seq::<RelatedInfo>::empty());
        assert(out@.map_values(|one: RelatedInformation| one@) =~= Seq::<RelatedView>::empty());
    }
    while i < related.len()
        invariant
            0 <= i <= related@.len(),
            out@.map_values(|one: RelatedInformation| one@) == all_projected(
                related@.take(i as int),
                request_uri@,
                targets@,
            ),
        decreases related@.len() - i,
    {
        let ghost before = out@;
        proof {
            assert(related@.take(i as int + 1).drop_last() =~= related@.take(i as int));
            assert(related@.take(i as int + 1).last() == related@[i as int]);
        }
        let uri: Option<String> = match related[i].file {
            None => Some(request_uri.to_owned()),
            Some(file) => match find_target(targets, file) {
                Some(uri) => Some(uri.to_owned()),
                None => None,
            },
        };
        if let Some(uri) = uri {
            let one = RelatedInformation {
                uri,
                span: related[i].span,
                message: related[i].message.clone(),
            };
            let ghost view = one@;
            out.push(one);
            proof {
                assert(out@.map_values(|one: RelatedInformation| one@) =~= before.map_values(
                    |one: RelatedInformation| one@,
                ).push(view));
            }
        }
        i = i + 1;
    }
    proof {
        assert(related@.take(i as int) =~= related@);
        assert(out@.map_values(|one: RelatedInformation| one@).len() == out@.len());
    }
    if out.len() == 0 {
        None
    } else {
        Some(out)
    }
}

/// An error of the parser as a client gets it.
pub open spec fn syntax_item(d: SyntaxDiagnostic) -> DiagnosticView {
    DiagnosticView {
        span: d.span,
        severity: Severity::Error,
        code: None,
        message: d.message@,
        unnecessary: false,
        href: None,
        data: None,
        related: None,
    }
}

/// What the analyzer found as a client gets it. What the client cannot take is left out; place,
/// severity and message are the same for every client.
pub open spec fn analyzer_item(
    d: AnalyzerDiagnostic,
    caps: DiagnosticCaps,
    request_uri: Seq<char>,
    targets: Seq<(FileId, String)>,
) -> DiagnosticView {
    DiagnosticView {
        span: d.span,
        severity: d.severity,
        code: Some(d.code@),
        message: d.message@,
        unnecessary: caps.unnecessary_tags && d.warning is Some && unnecessary(d.warning->0@),
        href: if caps.code_description && d.warning is Some && uri::is_uri(
            docs_text(d.warning->0@),
        ) {
            Some(docs_text(d.warning->0@))
        } else {
            None
        },
        data: if caps.data_support {
            text::opt_string(d.warning)
        } else {
            None
        },
        related: shown_related(d.related@, request_uri, targets),
    }
}

/// All that is reported of a document: first what the parser found, then what the analyzer did.
pub open spec fn items(
    caps: DiagnosticCaps,
    request_uri: Seq<char>,
    targets: Seq<(FileId, String)>,
    syntax: Seq<SyntaxDiagnostic>,
    analyzed: Seq<AnalyzerDiagnostic>,
) -> Seq<DiagnosticView> {
    Seq::new(syntax.len(), |i: int| syntax_item(syntax[i])) + Seq::new(
        analyzed.len(),
        |i: int| analyzer_item(analyzed[i], caps, request_uri, targets),
    )
}

fn analyzer_diagnostic(
    d: &AnalyzerDiagnostic,
    caps: &DiagnosticCaps,
    request_uri: &str,
    targets: &Vec<(FileId, String)>,
) -> (r: Diagnostic)
    ensures
        r@ == analyzer_item(*d, *caps, request_uri@, targets@),
{
    let mut faded = false;
    let mut href: Option<Uri> = None;
    let mut data: Option<String> = None;
    if let Some(warning) = &d.warning {
        faded = caps.unnecessary_tags && unnecessary_tag(warning.as_str());
        if caps.code_description {
            href = warning_docs_uri(warning.as_str());
        }
        if caps.data_support {
            data = Some(warning.clone());
        }
    }
    Diagnostic {
        span: d.span,
        severity: d.severity,
        code: Some(d.code.clone()),
        message: d.message.clone(),
        unnecessary: faded,
        href,
        data,
        related: project_related(&d.related, request_uri, targets),
    }
}

/// All that is reported of a document.
pub fn collect_diagnostics(
    caps: &DiagnosticCaps,
    request_uri: &str,
    targets: &Vec<(FileId, String)>,
    syntax: &Vec<SyntaxDiagnostic>,
    analyzed: &Vec<AnalyzerDiagnostic>,
) -> (r: Vec<Diagnostic>)
    ensures
        r@.map_values(|d: Diagnostic| d@) == items(
            *caps,
            request_uri@,
            targets@,
            syntax@,
            analyzed@,
        ),
{
    let ghost all = items(*caps, request_uri@, targets@, syntax@, analyzed@);
    let mut r: Vec<Diagnostic> = Vec::new();
    let mut i: usize = 0;
    while i < syntax.len()
        invariant
            0 <= i <= syntax@.len(),
            all == items(*caps, request_uri@, targets@, syntax@, analyzed@),
            r@.len() == i,
            forall|k: int| 0 <= k < i ==> (#[trigger] r@[k])@ == all[k],
        decreases syntax@.len() - i,
    {
        let d = Diagnostic {
            span: syntax[i].span,
            severity: Severity::Error,
            code: None,
            message: syntax[i].message.clone(),
            unnecessary: false,
            href: None,
            data: None,
            related: None,
        };
        proof {
            assert(d@ =~= syntax_item(syntax@[i as int]));
            assert(all[i as int] == syntax_item(syntax@[i as int]));
        }
        r.push(d);
        i = i + 1;
    }
    let mut j: usize = 0;
    while j < analyzed.len()
        invariant
            0 <= j <= analyzed@.len(),
            i == syntax@.len(),
            all == items(*caps, request_uri@, targets@, syntax@, analyzed@),
            r@.len() == i + j,
            forall|k: int| 0 <= k < i + j ==> (#[trigger] r@[k])@ == all[k],
        decreases analyzed@.len() - j,
    {
        let d = analyzer_diagnostic(&analyzed[j], caps, request_uri, targets);
        proof {
            assert(all[i + j] == analyzer_item(
                analyzed@[j as int],
                *caps,
                request_uri@,
                targets@,
            ));
        }
        r.push(d);
        j = j + 1;
    }
    proof {
        assert(r@.map_values(|d: Diagnostic| d@) =~= all);
    }
    r
}

/// Whether a file is one of a list.
pub open spec fn lists(files: Seq<FileId>, file: FileId) -> bool {
    exists|i: int| 0 <= i < files.len() && #[trigger] files[i] == file
}

/// Whether some place of a diagnostic is in a file.
pub open spec fn mentions(d: AnalyzerDiagnostic, file: FileId) -> bool {
    exists|k: int| 0 <= k < d.related@.len() && (#[trigger] d.related@[k]).file == Some(file)
}

fn is_listed(files: &Vec<FileId>, file: FileId) -> (r: bool)
    ensures
        r == lists(files@, file),
{
    let mut i: usize = 0;
    while i < files.len()
        invariant
            0 <= i <= files@.len(),
            forall|k: int| 0 <= k < i ==> #[trigger] files@[k] != file,
        decreases files@.len() - i,
    {
        if files[i] == file {
            return true;
        }
        i = i + 1;
    }
    false
}

/// The other files that the diagnostics of a document speak of, each once: their texts are needed to
/// show the places in them.
pub fn related_files(analyzed: &Vec<AnalyzerDiagnostic>) -> (r: Vec<FileId>)
    ensures
        forall|file: FileId|
            #[trigger] lists(r@, file) <==> exists|i: int|
                0 <= i < analyzed@.len() && mentions(#[trigger] analyzed@[i], file),
        forall|i: int, j: int| 0 <= i < j < r@.len() ==> #[trigger] r@[i] != #[trigger] r@[j],
{
    let mut r: Vec<FileId> = Vec::new();
    let mut i: usize = 0;
    while i < analyzed.len()
        invariant
            0 <= i <= analyzed@.len(),
            forall|file: FileId|
                #[trigger] lists(r@, file) <==> exists|m: int|
                    0 <= m < i && mentions(#[trigger] analyzed@[m], file),
            forall|x: int, y: int| 0 <= x < y < r@.len() ==> #[trigger] r@[x] != #[trigger] r@[y],
        decreases analyzed@.len() - i,
    {
        let ghost start = r@;
        let related = &analyzed[i].related;
        let mut k: usize = 0;
        while k < related.len()
            invariant
                0 <= k <= related@.len(),
                i < analyzed@.len(),
                *related == analyzed@[i as int].related,
                forall|file: FileId|
                    #[trigger] lists(r@, file) <==> (lists(start, file) || exists|m: int|
                        0 <= m < k && (#[trigger] related@[m]).file == Some(file)),
                forall|x: int, y: int|
                    0 <= x < y < r@.len() ==> #[trigger] r@[x] != #[trigger] r@[y],
            decreases related@.len() - k,
        {
            let ghost before = r@;
            if let Some(file) = related[k].file {
                if !is_listed(&r, file) {
                    r.push(file);
                    proof {
                        assert forall|other: FileId| #[trigger] lists(r@, other) == (lists(
                            before,
                            other,
                        ) || other == file) by {
                            if lists(before, other) {
                                let x = choose|x: int|
                                    0 <= x < before.len() && #[trigger] before[x] == other;
                                assert(r@[x] == other);
                            }
                            if lists(r@, other) {
                                let x = choose|x: int|
                                    0 <= x < r@.len() && #[trigger] r@[x] == other;
                                if x < before.len() {
                                    assert(before[x] == other);
                                }
                            }
                            assert(r@[before.len() as int] == file);
                        }
                        assert forall|x: int, y: int| 0 <= x < y < r@.len() implies #[trigger] r@[x]
                            != #[trigger] r@[y] by {
                            if y == before.len() {
                                assert(before[x] == r@[x]);
                            }
                        }
                    }
                }
            }
            proof {
                assert forall|file: FileId| #[trigger] lists(r@, file) <==> (lists(start, file)
                    || exists|m: int| 0 <= m < k + 1 && (#[trigger] related@[m]).file == Some(
                    file,
                )) by {
                    if lists(r@, file) && !lists(start, file) {
                        if lists(before, file) {
                            let m = choose|m: int|
                                0 <= m < k && (#[trigger] related@[m]).file == Some(file);
                            assert(related@[m].file == Some(file));
                        } else {
                            assert(related@[k as int].file == Some(file));
                        }
                    }
                    if exists|m: int| 0 <= m < k + 1 && (#[trigger] related@[m]).file == Some(
                        file,
                    ) {
                        let m = choose|m: int|
                            0 <= m < k + 1 && (#[trigger] related@[m]).file == Some(file);
                        if m < k {
                            assert(lists(before, file));
                        }
                    }
                }
            }
            k = k + 1;
        }
        proof {
            assert forall|file: FileId| #[trigger] lists(r@, file) <==> exists|m: int|
                0 <= m < i + 1 && mentions(#[trigger] analyzed@[m], file) by {
                if lists(r@, file) {
                    if lists(start, file) {
                        let m = choose|m: int|
                            0 <= m < i && mentions(#[trigger] analyzed@[m], file);
                        assert(mentions(analyzed@[m], file));
                    } else {
                        assert(mentions(analyzed@[i as int], file));
                    }
                }
                if exists|m: int| 0 <= m < i + 1 && mentions(#[trigger] analyzed@[m], file) {
                    let m = choose|m: int|
                        0 <= m < i + 1 && mentions(#[trigger] analyzed@[m], file);
                    if m < i {
                        assert(lists(start, file));
                    }
                }
            }
        }
        i = i + 1;
    }
    r
}

// ---------------------------------------------------------------------------
// What a report is made from.
// ---------------------------------------------------------------------------

/// What is known of a document when its diagnostics are asked for.
#[derive(Debug, Clone, Copy, PartialEq, Eq, Structural)]
pub struct DocumentState {
    /// A page that the server made itself: nothing is said of it.
    pub is_stub: bool,
    pub is_open: bool,
    pub is_script: bool,
    /// The fingerprint of its text.
    pub hash: u64,
    pub epoch: u64,
    pub version: i32,
}

/// What a report is made from.
#[derive(Debug, Clone, Copy, PartialEq, Eq, Structural)]
pub enum ReportSource {
    /// Nothing: the report is empty.
    Nothing,
    /// What the parser found.
    Syntax,
    /// That, and an analysis that is at hand.
    Cached(u64),
    /// That, and an analysis that is to be made where none is at hand.
    Analyze,
}

/// What a report is made from. Under hard memory pressure no analysis is begun.
pub open spec fn report_source(
    ws: WorkspaceView,
    key: Seq<char>,
    doc: DocumentState,
    pressure: MemoryPressure,
) -> ReportSource {
    if doc.is_stub || !doc.is_open {
        ReportSource::Nothing
    } else if !doc.is_script {
        ReportSource::Syntax
    } else if pressure == MemoryPressure::Hard {
        match workspace::analysis_hit(ws.analyses, key, doc.hash, doc.epoch) {
            Some(value) => ReportSource::Cached(value),
            None => ReportSource::Syntax,
        }
    } else {
        ReportSource::Analyze
    }
}

/// Whether the cache of analyses is asked for a document.
pub open spec fn asks_cache(doc: DocumentState, pressure: MemoryPressure) -> bool {
    !doc.is_stub && doc.is_open && doc.is_script && pressure == MemoryPressure::Hard
}

/// The workspace after the cache was asked for a document, where it is.
pub open spec fn asked(
    ws: WorkspaceView,
    key: Seq<char>,
    doc: DocumentState,
    pressure: MemoryPressure,
) -> WorkspaceView {
    if asks_cache(doc, pressure) {
        WorkspaceView { analyses: lru_cache::touched(ws.analyses, key), ..ws }
    } else {
        ws
    }
}

/// Say what a report is made from.
pub fn diagnostic_source(
    ws: &mut Workspace,
    key: &CanonicalKey,
    doc: &DocumentState,
    pressure: MemoryPressure,
) -> (r: ReportSource)
    requires
        old(ws).well_formed(),
    ensures
        final(ws).well_formed(),
        final(ws)@ == asked(old(ws)@, key@, *doc, pressure),
        r == report_source(old(ws)@, key@, *doc, pressure),
{
    if doc.is_stub || !doc.is_open {
        return ReportSource::Nothing;
    }
    if !doc.is_script {
        return ReportSource::Syntax;
    }
    if pressure == MemoryPressure::Hard {
        return match ws.valid_analysis(key, doc.hash, doc.epoch) {
            Some(value) => ReportSource::Cached(value),
            None => ReportSource::Syntax,
        };
    }
    ReportSource::Analyze
}

// ---------------------------------------------------------------------------
// Reports that are fetched.
// ---------------------------------------------------------------------------

/// The identity of a report: of the version and the text of the document, of what it depends on, and
/// of all that invalidates every analysis.
pub open spec fn result_id(version: i32, hash: u64, epoch: u64, generation: u64) -> Seq<char> {
    numbers::signed_text(version as int) + ":"@ + (numbers::hex_text(hash as nat, 16) + ":"@ + (
    numbers::decimal_text(epoch as nat) + ":"@ + numbers::decimal_text(generation as nat)))
}

/// The identity of a report.
pub fn result_id_text(version: i32, hash: u64, epoch: u64, generation: u64) -> (r: String)
    ensures
        r@ == result_id(version, hash, epoch, generation),
{
    let mut r = signed_decimal(version as i64);
    r.append(":");
    r.append(hex(hash, 16).as_str());
    r.append(":");
    r.append(decimal(epoch).as_str());
    r.append(":");
    r.append(decimal(generation).as_str());
    proof {
        assert(r@ =~= result_id(version, hash, epoch, generation));
    }
    r
}

/// The identity of the report that a document has now. None where there is no buffer, and none
/// where the analysis was left out for want of memory: such a report must not stand for a full one.
pub open spec fn current_id(
    ws: WorkspaceView,
    key: Seq<char>,
    doc: DocumentState,
    pressure: MemoryPressure,
) -> Option<Seq<char>> {
    if !doc.is_open {
        None
    } else if asks_cache(doc, pressure) && workspace::analysis_hit(
        ws.analyses,
        key,
        doc.hash,
        doc.epoch,
    ) is None {
        None
    } else {
        Some(result_id(doc.version, doc.hash, doc.epoch, ws.generation))
    }
}

/// The identity of the report that a document has now.
pub fn result_id_for(
    ws: &mut Workspace,
    key: &CanonicalKey,
    doc: &DocumentState,
    pressure: MemoryPressure,
) -> (r: Option<String>)
    requires
        old(ws).well_formed(),
    ensures
        final(ws).well_formed(),
        final(ws)@ == asked(old(ws)@, key@, *doc, pressure),
        text::opt_string(r) == current_id(old(ws)@, key@, *doc, pressure),
{
    if !doc.is_open {
        return None;
    }
    if !doc.is_stub && doc.is_script && pressure == MemoryPressure::Hard {
        if ws.valid_analysis(key, doc.hash, doc.epoch).is_none() {
            return None;
        }
    }
    Some(result_id_text(doc.version, doc.hash, doc.epoch, ws.analysis_generation()))
}

/// A report that was fetched.
pub enum PulledReport {
    /// What the client has is still right.
    Unchanged(String),
    /// A new report, to be kept under an identity where it has one.
    Full(Option<String>),
}

/// Whether a client has the report of now already: the one it names is that one.
pub open spec fn still_right(previous: Option<Seq<char>>, current: Option<Seq<char>>) -> bool {
    previous is Some && current is Some && previous->0 == current->0
}

/// Whether what a client has is still right: only where it names the report of now.
pub fn document_diagnostic(previous: Option<&str>, current: Option<String>) -> (r: PulledReport)
    ensures
        r is Unchanged <==> still_right(text::opt_str(previous), text::opt_string(current)),
        match r {
            PulledReport::Unchanged(result_id) => Some(result_id@) == text::opt_string(current),
            PulledReport::Full(result_id) => text::opt_string(result_id) == text::opt_string(
                current,
            ),
        },
{
    if let Some(previous) = previous {
        if opt_is(&current, previous) {
            return match current {
                Some(result_id) => PulledReport::Unchanged(result_id),
                None => PulledReport::Full(None),
            };
        }
    }
    PulledReport::Full(current)
}

// ---------------------------------------------------------------------------
// Laws.
// ---------------------------------------------------------------------------

/// Whether a text holds no colon.
spec fn no_colon(s: Seq<char>) -> bool {
    forall|i: int| 0 <= i < s.len() ==> #[trigger] s[i] != ':'
}

proof fn lemma_split(a: Seq<char>, x: Seq<char>, b: Seq<char>, y: Seq<char>)
    requires
        no_colon(a),
        no_colon(b),
        a + ":"@ + x == b + ":"@ + y,
    ensures
        a == b,
        x == y,
{
    reveal_strlit(":");
    let left = a + ":"@ + x;
    let right = b + ":"@ + y;
    assert(left[a.len() as int] == ':');
    assert(right[b.len() as int] == ':');
    if a.len() < b.len() {
        assert(right[a.len() as int] == b[a.len() as int]);
    }
    if b.len() < a.len() {
        assert(left[b.len() as int] == a[b.len() as int]);
    }
    assert(a =~= left.take(a.len() as int));
    assert(b =~= right.take(b.len() as int));
    assert(x =~= left.skip(a.len() as int + 1));
    assert(y =~= right.skip(b.len() as int + 1));
}

proof fn lemma_decimal_plain(n: nat)
    ensures
        no_colon(numbers::decimal_text(n)),
        forall|i: int|
            0 <= i < numbers::decimal_text(n).len() ==> #[trigger] numbers::decimal_text(n)[i]
                != '-',
{
    numbers::lemma_decimal_round_trip(n);
}

proof fn lemma_signed_injective(a: int, b: int)
    requires
        numbers::signed_text(a) == numbers::signed_text(b),
    ensures
        a == b,
{
    reveal_strlit("-");
    let x: nat = (if a < 0 {
        -a
    } else {
        a
    }) as nat;
    let y: nat = (if b < 0 {
        -b
    } else {
        b
    }) as nat;
    numbers::lemma_decimal_round_trip(x);
    numbers::lemma_decimal_round_trip(y);
    lemma_decimal_plain(x);
    lemma_decimal_plain(y);
    assert(numbers::decimal_text(x)[0] != '-');
    assert(numbers::decimal_text(y)[0] != '-');
    assert(numbers::signed_text(a)[0] == numbers::signed_text(b)[0]);
    if a < 0 {
        assert(numbers::signed_text(a)[0] == '-');
        assert(numbers::signed_text(a).skip(1) =~= numbers::decimal_text(x));
    }
    if b < 0 {
        assert(numbers::signed_text(b)[0] == '-');
        assert(numbers::signed_text(b).skip(1) =~= numbers::decimal_text(y));
    }
}

proof fn lemma_signed_plain(n: int)
    ensures
        no_colon(numbers::signed_text(n)),
{
    reveal_strlit("-");
    if n < 0 {
        lemma_decimal_plain((-n) as nat);
        let s = numbers::signed_text(n);
        assert forall|i: int| 0 <= i < s.len() implies #[trigger] s[i] != ':' by {
            if i > 0 {
                assert(s[i] == numbers::decimal_text((-n) as nat)[i - 1]);
            }
        }
    } else {
        lemma_decimal_plain(n as nat);
    }
}

/// What is left of a number after so many hexadecimal digits.
spec fn above(n: nat, width: nat) -> nat
    decreases width,
{
    if width == 0 {
        n
    } else {
        above(n / 16, (width - 1) as nat)
    }
}

proof fn lemma_hex_injective(a: nat, b: nat, width: nat)
    requires
        numbers::hex_text(a, width) == numbers::hex_text(b, width),
        above(a, width) == above(b, width),
    ensures
        a == b,
    decreases width,
{
    if width > 0 {
        let x = numbers::hex_text(a, width);
        let y = numbers::hex_text(b, width);
        assert(x.last() == numbers::hex_char(a as int % 16));
        assert(y.last() == numbers::hex_char(b as int % 16));
        assert(x.drop_last() =~= numbers::hex_text(a / 16, (width - 1) as nat));
        assert(y.drop_last() =~= numbers::hex_text(b / 16, (width - 1) as nat));
        lemma_hex_injective(a / 16, b / 16, (width - 1) as nat);
        lemma_hex_char_injective(a as int % 16, b as int % 16);
    }
}

proof fn lemma_hex_char_injective(a: int, b: int)
    requires
        0 <= a < 16,
        0 <= b < 16,
        numbers::hex_char(a) == numbers::hex_char(b),
    ensures
        a == b,
{
    let x = if a < 10 {
        0x30 + a
    } else {
        0x61 + a - 10
    };
    let y = if b < 10 {
        0x30 + b
    } else {
        0x61 + b - 10
    };
    assert(numbers::hex_char(a) as int == x);
    assert(numbers::hex_char(b) as int == y);
}

proof fn lemma_hex_plain(n: nat, width: nat)
    ensures
        no_colon(numbers::hex_text(n, width)),
    decreases width,
{
    if width > 0 {
        lemma_hex_plain(n / 16, (width - 1) as nat);
        let digit = n as int % 16;
        let x = if digit < 10 {
            0x30 + digit
        } else {
            0x61 + digit - 10
        };
        assert(numbers::hex_char(digit) as int == x);
    }
}

proof fn lemma_sixteen_digits(n: u64)
    ensures
        above(n as nat, 16) == 0,
{
    reveal_with_fuel(above, 17);
}

/// Two reports have one identity only where version, text, dependencies and generation are the
/// same: what is left unchanged is nothing that could have changed.
pub proof fn lemma_result_id_tells_apart(
    version: i32,
    hash: u64,
    epoch: u64,
    generation: u64,
    other_version: i32,
    other_hash: u64,
    other_epoch: u64,
    other_generation: u64,
)
    requires
        result_id(version, hash, epoch, generation) == result_id(
            other_version,
            other_hash,
            other_epoch,
            other_generation,
        ),
    ensures
        version == other_version,
        hash == other_hash,
        epoch == other_epoch,
        generation == other_generation,
{
    let v = numbers::signed_text(version as int);
    let w = numbers::signed_text(other_version as int);
    let h = numbers::hex_text(hash as nat, 16);
    let k = numbers::hex_text(other_hash as nat, 16);
    let e = numbers::decimal_text(epoch as nat);
    let f = numbers::decimal_text(other_epoch as nat);
    let g = numbers::decimal_text(generation as nat);
    let i = numbers::decimal_text(other_generation as nat);
    lemma_signed_plain(version as int);
    lemma_signed_plain(other_version as int);
    lemma_hex_plain(hash as nat, 16);
    lemma_hex_plain(other_hash as nat, 16);
    lemma_decimal_plain(epoch as nat);
    lemma_decimal_plain(other_epoch as nat);
    lemma_split(v, h + ":"@ + (e + ":"@ + g), w, k + ":"@ + (f + ":"@ + i));
    lemma_split(h, e + ":"@ + g, k, f + ":"@ + i);
    lemma_split(e, g, f, i);
    lemma_signed_injective(version as int, other_version as int);
    lemma_sixteen_digits(hash);
    lemma_sixteen_digits(other_hash);
    lemma_hex_injective(hash as nat, other_hash as nat, 16);
    numbers::lemma_decimal_round_trip(epoch as nat);
    numbers::lemma_decimal_round_trip(other_epoch as nat);
    numbers::lemma_decimal_round_trip(generation as nat);
    numbers::lemma_decimal_round_trip(other_generation as nat);
}

/// After everything was invalidated no earlier report of any document is still right.
pub proof fn lemma_invalidation_reaches_every_report(
    ws: WorkspaceView,
    key: Seq<char>,
    doc: DocumentState,
    pressure: MemoryPressure,
)
    requires
        ws.generation < u64::MAX,
        current_id(ws, key, doc, pressure) is Some,
    ensures
        current_id(workspace::invalidated(ws), key, doc, pressure) != current_id(
            ws,
            key,
            doc,
            pressure,
        ),
{
    let after = workspace::invalidated(ws);
    if current_id(after, key, doc, pressure) == current_id(ws, key, doc, pressure) {
        lemma_result_id_tells_apart(
            doc.version,
            doc.hash,
            doc.epoch,
            ws.generation,
            doc.version,
            doc.hash,
            doc.epoch,
            after.generation,
        );
    }
}

/// A report without the analysis that belongs to it has no identity: it is never taken for one that
/// is still right.
pub proof fn lemma_degraded_report_is_never_pinned(
    ws: WorkspaceView,
    key: Seq<char>,
    doc: DocumentState,
    pressure: MemoryPressure,
)
    requires
        doc.is_script,
        report_source(ws, key, doc, pressure) == ReportSource::Syntax,
    ensures
        current_id(ws, key, doc, pressure) is None,
{
}

/// What a client can take changes nothing of place, severity, code and message.
pub proof fn lemma_caps_change_no_message(
    d: AnalyzerDiagnostic,
    a: DiagnosticCaps,
    b: DiagnosticCaps,
    request_uri: Seq<char>,
    targets: Seq<(FileId, String)>,
)
    ensures
        ({
            let x = analyzer_item(d, a, request_uri, targets);
            let y = analyzer_item(d, b, request_uri, targets);
            &&& x.span == y.span
            &&& x.severity == y.severity
            &&& x.code == y.code
            &&& x.message == y.message
            &&& x.related == y.related
        }),
{
}

/// Everything that was found is reported, once and in order: first each error of the parser, as an
/// error, then what the analyzer found, each with the place, the severity, the code and the message
/// that it was found with.
pub proof fn lemma_findings_are_reported_as_found(
    caps: DiagnosticCaps,
    request_uri: Seq<char>,
    targets: Seq<(FileId, String)>,
    syntax: Seq<SyntaxDiagnostic>,
    analyzed: Seq<AnalyzerDiagnostic>,
)
    ensures
        ({
            let all = items(caps, request_uri, targets, syntax, analyzed);
            &&& all.len() == syntax.len() + analyzed.len()
            &&& forall|i: int|
                0 <= i < syntax.len() ==> {
                    let item = #[trigger] all[i];
                    &&& item.span == syntax[i].span
                    &&& item.severity == Severity::Error
                    &&& item.message == syntax[i].message@
                    &&& item.code is None && item.data is None && item.href is None
                    &&& !item.unnecessary && item.related is None
                }
            &&& forall|i: int|
                syntax.len() <= i < all.len() ==> {
                    let item = #[trigger] all[i];
                    let found = analyzed[i - syntax.len()];
                    &&& item.span == found.span
                    &&& item.severity == found.severity
                    &&& item.code == Some(found.code@)
                    &&& item.message == found.message@
                }
        }),
{
}

/// A finding is shown faded exactly where it is a warning of something unused or unreachable, by
/// its code and not by its severity, and the client can show that.
pub proof fn lemma_what_is_faded(
    caps: DiagnosticCaps,
    request_uri: Seq<char>,
    targets: Seq<(FileId, String)>,
    syntax: Seq<SyntaxDiagnostic>,
    analyzed: Seq<AnalyzerDiagnostic>,
    i: int,
)
    requires
        0 <= i < analyzed.len(),
    ensures
        items(caps, request_uri, targets, syntax, analyzed)[syntax.len() + i].unnecessary <==> (
        caps.unnecessary_tags && (analyzed[i].warning matches Some(code) && {
            ||| code@ == "UNUSED_VARIABLE"@
            ||| code@ == "UNUSED_LOCAL_CONSTANT"@
            ||| code@ == "UNUSED_PRIVATE_CLASS_VARIABLE"@
            ||| code@ == "UNUSED_PARAMETER"@
            ||| code@ == "UNUSED_SIGNAL"@
            ||| code@ == "UNREACHABLE_CODE"@
            ||| code@ == "UNREACHABLE_PATTERN"@
        })),
{
}

/// The code of a warning goes with it for fixes to find, exactly where the client hands such data
/// back; an error has none.
pub proof fn lemma_warning_data(
    caps: DiagnosticCaps,
    request_uri: Seq<char>,
    targets: Seq<(FileId, String)>,
    syntax: Seq<SyntaxDiagnostic>,
    analyzed: Seq<AnalyzerDiagnostic>,
    i: int,
)
    requires
        0 <= i < analyzed.len(),
    ensures
        ({
            let data = items(caps, request_uri, targets, syntax, analyzed)[syntax.len() + i].data;
            &&& data is Some <==> caps.data_support && analyzed[i].warning is Some
            &&& data is Some ==> data->0 == analyzed[i].warning->0@
        }),
{
}

/// A warning leads to its page exactly where the client takes links; an error leads nowhere.
pub proof fn lemma_warning_link(
    caps: DiagnosticCaps,
    request_uri: Seq<char>,
    targets: Seq<(FileId, String)>,
    syntax: Seq<SyntaxDiagnostic>,
    analyzed: Seq<AnalyzerDiagnostic>,
    i: int,
)
    requires
        0 <= i < analyzed.len(),
    ensures
        ({
            let href = items(caps, request_uri, targets, syntax, analyzed)[syntax.len() + i].href;
            &&& href is Some <==> caps.code_description && (analyzed[i].warning matches Some(code)
                && uri::is_uri(docs_text(code@)))
            &&& href is Some ==> href->0 == docs_text(analyzed[i].warning->0@)
        }),
{
}

/// The page of a warning is that of its project setting: the code in lower case, with hyphens. Only
/// the three warnings without a setting lead to the overview.
pub proof fn lemma_warning_page(code: Seq<char>)
    ensures
        ({
            let start = "https://docs.godotengine.org/en/stable/classes/class_projectsettings.html"@
                + "#class-projectsettings-property-debug-gdscript-warnings-"@;
            let page = docs_text(code);
            if code == "PROPERTY_USED_AS_FUNCTION"@ || code == "CONSTANT_USED_AS_FUNCTION"@ || code
                == "FUNCTION_USED_AS_PROPERTY"@ {
                page
                    == "https://docs.godotengine.org/en/stable/tutorials/scripting/gdscript/warning_system.html"@
            } else {
                &&& page.len() == start.len() + code.len()
                &&& page.take(start.len() as int) == start
                &&& forall|i: int|
                    0 <= i < code.len() ==> {
                        let c = #[trigger] page[start.len() + i];
                        &&& code[i] == '_' ==> c == '-'
                        &&& 'A' <= code[i] <= 'Z' ==> c as int == code[i] as int + 32
                        &&& code[i] != '_' && !('A' <= code[i] <= 'Z') ==> c == code[i]
                    }
            }
        }),
{
    let start = "https://docs.godotengine.org/en/stable/classes/class_projectsettings.html"@
        + "#class-projectsettings-property-debug-gdscript-warnings-"@;
    let tail = hyphened(text::lowered(code));
    assert((start + tail).take(start.len() as int) =~= start);
    assert forall|i: int| 0 <= i < code.len() implies {
        let c = #[trigger] (start + tail)[start.len() + i];
        &&& code[i] == '_' ==> c == '-'
        &&& 'A' <= code[i] <= 'Z' ==> c as int == code[i] as int + 32
        &&& code[i] != '_' && !('A' <= code[i] <= 'Z') ==> c == code[i]
    } by {
        assert((start + tail)[start.len() + i] == tail[i]);
    }
}

/// Every place that a finding also concerns is shown with the text that it was found with: one in
/// the same file under the URI of the request, one in another file under that of the first target
/// that is this file. One whose file is not at hand is left out.
pub proof fn lemma_related_places_are_shown(
    related: Seq<RelatedInfo>,
    request_uri: Seq<char>,
    targets: Seq<(FileId, String)>,
    k: int,
)
    requires
        0 <= k < related.len(),
    ensures
        ({
            let shown = all_projected(related, request_uri, targets);
            let place = related[k];
            &&& place.file is None ==> exists|m: int|
                0 <= m < shown.len() && (#[trigger] shown[m]).uri == request_uri && shown[m].span
                    == place.span && shown[m].message == place.message@
            &&& forall|t: int|
                #![trigger targets[t]]
                0 <= t < targets.len() && place.file == Some(targets[t].0) && (forall|u: int|
                    0 <= u < t ==> (#[trigger] targets[u]).0 != targets[t].0) ==> exists|m: int|
                    0 <= m < shown.len() && (#[trigger] shown[m]).uri == targets[t].1@
                        && shown[m].span == place.span && shown[m].message == place.message@
        }),
    decreases related.len(),
{
    let shown = all_projected(related, request_uri, targets);
    let before = all_projected(related.drop_last(), request_uri, targets);
    let place = related[k];
    if k == related.len() - 1 {
        assert(related.last() == place);
        if place.file is None {
            assert(shown[before.len() as int].uri == request_uri);
        }
        assert forall|t: int|
            #![trigger targets[t]]
            0 <= t < targets.len() && place.file == Some(targets[t].0) && (forall|u: int|
                0 <= u < t ==> (#[trigger] targets[u]).0 != targets[t].0) implies exists|m: int|
            0 <= m < shown.len() && (#[trigger] shown[m]).uri == targets[t].1@ && shown[m].span
                == place.span && shown[m].message == place.message@ by {
            lemma_first_target(targets, 0, t);
            assert(shown[before.len() as int].uri == targets[t].1@);
        }
    } else {
        lemma_related_places_are_shown(related.drop_last(), request_uri, targets, k);
        assert(related.drop_last()[k] == place);
        assert forall|m: int| 0 <= m < before.len() implies #[trigger] shown[m] == before[m] by {}
        if place.file is None {
            let m = choose|m: int|
                0 <= m < before.len() && (#[trigger] before[m]).uri == request_uri
                    && before[m].span == place.span && before[m].message == place.message@;
            assert(shown[m].uri == request_uri);
        }
        assert forall|t: int|
            #![trigger targets[t]]
            0 <= t < targets.len() && place.file == Some(targets[t].0) && (forall|u: int|
                0 <= u < t ==> (#[trigger] targets[u]).0 != targets[t].0) implies exists|m: int|
            0 <= m < shown.len() && (#[trigger] shown[m]).uri == targets[t].1@ && shown[m].span
                == place.span && shown[m].message == place.message@ by {
            let m = choose|m: int|
                0 <= m < before.len() && (#[trigger] before[m]).uri == targets[t].1@
                    && before[m].span == place.span && before[m].message == place.message@;
            assert(shown[m].uri == targets[t].1@);
        }
    }
}

proof fn lemma_first_target(targets: Seq<(FileId, String)>, i: int, t: int)
    requires
        0 <= i <= t < targets.len(),
        forall|u: int| i <= u < t ==> (#[trigger] targets[u]).0 != targets[t].0,
    ensures
        target_uri(targets, i, targets[t].0) == Some(targets[t].1@),
    decreases t - i,
{
    if i < t {
        lemma_first_target(targets, i + 1, t);
    }
}

proof fn lemma_no_target(targets: Seq<(FileId, String)>, i: int, file: FileId)
    requires
        0 <= i,
        forall|u: int| i <= u < targets.len() ==> (#[trigger] targets[u]).0 != file,
    ensures
        target_uri(targets, i, file) is None,
    decreases targets.len() - i,
{
    if i < targets.len() {
        lemma_no_target(targets, i + 1, file);
    }
}

/// Whether a place can be shown: it is in the same file, or its file is at hand.
pub open spec fn showable(place: RelatedInfo, targets: Seq<(FileId, String)>) -> bool {
    place.file matches Some(file) ==> exists|t: int|
        0 <= t < targets.len() && (#[trigger] targets[t]).0 == file
}

/// No more places are shown than there are, and none is shown twice: those that can be shown are,
/// in their order, and no other. Where there is none the client is told of no places at all.
pub proof fn lemma_only_related_places_are_shown(
    related: Seq<RelatedInfo>,
    request_uri: Seq<char>,
    targets: Seq<(FileId, String)>,
)
    ensures
        ({
            let kept = related.filter(|place: RelatedInfo| showable(place, targets));
            let shown = all_projected(related, request_uri, targets);
            &&& shown.len() == kept.len()
            &&& forall|m: int|
                0 <= m < shown.len() ==> (#[trigger] shown[m]).span == kept[m].span
                    && shown[m].message == kept[m].message@
            &&& shown_related(related, request_uri, targets) == (if kept.len() == 0 {
                None
            } else {
                Some(shown)
            })
        }),
    decreases related.len(),
{
    let keep = |place: RelatedInfo| showable(place, targets);
    reveal(Seq::filter);
    if related.len() > 0 {
        let before = related.drop_last();
        lemma_only_related_places_are_shown(before, request_uri, targets);
        let last = related.last();
        match last.file {
            None => {},
            Some(file) => {
                if showable(last, targets) {
                    let t = choose|t: int| 0 <= t < targets.len() && (#[trigger] targets[t]).0 == file;
                    lemma_some_target(targets, 0, t);
                } else {
                    assert forall|u: int| 0 <= u < targets.len() implies (#[trigger] targets[u]).0
                        != file by {}
                    lemma_no_target(targets, 0, file);
                }
            },
        }
        assert(keep(last) == showable(last, targets));
    }
}

proof fn lemma_some_target(targets: Seq<(FileId, String)>, i: int, t: int)
    requires
        0 <= i <= t < targets.len(),
    ensures
        target_uri(targets, i, targets[t].0) is Some,
    decreases t - i,
{
    if i < t {
        lemma_some_target(targets, i + 1, t);
    }
}

/// What a report is made from: nothing for a page of the server's own or a document that is not
/// open; the parser alone for what is no script; an analysis for a script, a new one unless memory
/// is short, and then only one that is at hand for this very text and these dependencies.
pub proof fn lemma_report_source(
    ws: WorkspaceView,
    key: Seq<char>,
    doc: DocumentState,
    pressure: MemoryPressure,
)
    ensures
        ({
            let source = report_source(ws, key, doc, pressure);
            let said = doc.is_open && !doc.is_stub;
            let short = pressure == MemoryPressure::Hard;
            &&& source is Nothing <==> !said
            &&& source is Analyze <==> said && doc.is_script && !short
            &&& said && !doc.is_script ==> source is Syntax
            &&& source matches ReportSource::Cached(value) ==> said && doc.is_script && short && (
            exists|i: int| 0 <= i < ws.analyses.len() && (#[trigger] ws.analyses[i]).0 == key
                && ws.analyses[i].1.hash == doc.hash && ws.analyses[i].1.epoch == doc.epoch
                && ws.analyses[i].1.value == value)
        }),
{
    lru_cache::lemma_position(ws.analyses, key);
}

/// A report of a document that is open has an identity, except where the analysis that belongs to it
/// is neither at hand nor can be made. A document that is not open has none.
pub proof fn lemma_report_identity(
    ws: WorkspaceView,
    key: Seq<char>,
    doc: DocumentState,
    pressure: MemoryPressure,
)
    ensures
        ({
            let id = current_id(ws, key, doc, pressure);
            let source = report_source(ws, key, doc, pressure);
            &&& !doc.is_open ==> id is None
            &&& doc.is_open && doc.is_script && source is Syntax ==> id is None
            &&& doc.is_open && !(doc.is_script && source is Syntax) ==> id == Some(
                result_id(doc.version, doc.hash, doc.epoch, ws.generation),
            )
        }),
{
}

/// An error is the protocol's severity one, a warning its severity two.
pub proof fn lemma_severities_on_the_wire(severity: Severity)
    ensures
        severity is Error <==> wire_number(severity) == 1,
        severity is Warning <==> wire_number(severity) == 2,
{
}

/// A client keeps its report exactly where it names the one of now; with none to name, or with none
/// now, it gets a full one.
pub proof fn lemma_when_a_report_is_kept(previous: Seq<char>, current: Seq<char>)
    ensures
        still_right(Some(previous), Some(current)) <==> previous == current,
        !still_right(None, Some(current)) && !still_right(Some(previous), None),
        !still_right(None, None),
{
}

/// What is said of a diagnostic and of a place is said of the values that a client gets.
pub proof fn lemma_diagnostics_as_they_are(d: Diagnostic, one: RelatedInformation)
    ensures
        d@.span == d.span && d@.severity == d.severity && d@.message == d.message@,
        d@.unnecessary == d.unnecessary,
        d@.code == text::opt_string(d.code) && d@.data == text::opt_string(d.data),
        d.href is None <==> d@.href is None,
        d.href matches Some(uri) ==> d@.href == Some(uri@),
        d.related is None <==> d@.related is None,
        d.related matches Some(related) ==> d@.related->0.len() == related@.len() && forall|i: int|
            0 <= i < related@.len() ==> #[trigger] d@.related->0[i] == related@[i]@,
        one@.uri == one.uri@ && one@.span == one.span && one@.message == one.message@,
{
}

/// Asking for a report changes nothing that is known: at most, under hard pressure, which analysis of
/// an open script was used last.
pub proof fn lemma_asking_changes_no_answer(
    ws: WorkspaceView,
    key: Seq<char>,
    doc: DocumentState,
    pressure: MemoryPressure,
    other: Seq<char>,
)
    requires
        lru_cache::well_kept(ws.analyses, ws.capacity),
    ensures
        ({
            let after = asked(ws, key, doc, pressure);
            &&& lru_cache::lookup(after.analyses, other) == lru_cache::lookup(ws.analyses, other)
            &&& after.parses == ws.parses && after.files == ws.files && after.generation
                == ws.generation
            &&& pressure != MemoryPressure::Hard || !doc.is_open || !doc.is_script || doc.is_stub
                ==> after == ws
            &&& pressure == MemoryPressure::Hard && doc.is_open && doc.is_script && !doc.is_stub
                && lru_cache::lookup(ws.analyses, key) is Some ==> after.analyses[0].0 == key
        }),
{
    lru_cache::lemma_touched(ws.analyses, ws.capacity, key);
    lru_cache::lemma_position(ws.analyses, key);
}

/// A finding mentions the files of its places, each of them and no other.
pub proof fn lemma_files_that_are_mentioned(d: AnalyzerDiagnostic, file: FileId, k: int)
    ensures
        0 <= k < d.related@.len() && d.related@[k].file == Some(file) ==> mentions(d, file),
        (forall|j: int| 0 <= j < d.related@.len() ==> (#[trigger] d.related@[j]).file != Some(file))
            ==> !mentions(d, file),
        forall|files: Seq<FileId>| #[trigger] lists(files, file) <==> files.contains(file),
{
    if 0 <= k < d.related@.len() && d.related@[k].file == Some(file) {
        assert(d.related@[k].file == Some(file));
    }
    assert forall|files: Seq<FileId>| #[trigger] lists(files, file) <==> files.contains(file) by {
        if lists(files, file) {
            let i = choose|i: int| 0 <= i < files.len() && #[trigger] files[i] == file;
            assert(files[i] == file);
        }
        if files.contains(file) {
            let i = choose|i: int| 0 <= i < files.len() && files[i] == file;
            assert(files[i] == file);
        }
    }
}

} // verus!
