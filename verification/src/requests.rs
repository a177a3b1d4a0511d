//! Requests: which of them are let through, and what each is answered.
//!
//! A request is in flight from the moment it is read until it is answered. While it is, the client
//! may cancel it, and an edit may make its result stale; either takes the place of the answer.

use vstd::prelude::*;
use vstd::string::*;

use crate::memory::MemoryPressure;
use crate::numbers;
use crate::numbers::decimal;
use crate::text::same_text;
use crate::text_map::TextMap;

verus! {

/// No handler for the method.
pub const ERR_METHOD_NOT_FOUND: i32 = -32601;

/// The parameters could not be read.
pub const ERR_INVALID_PARAMS: i32 = -32602;

/// A request that may not come now.
pub const ERR_INVALID_REQUEST: i32 = -32600;

/// The result would not fit the content; the client may try again.
pub const ERR_CONTENT_MODIFIED: i32 = -32801;

/// A request that was understood and refused.
pub const ERR_REQUEST_FAILED: i32 = -32803;

/// The client took the request back.
pub const REQUEST_CANCELLED: i32 = -32800;

// ---------------------------------------------------------------------------
// Requests in flight.
// ---------------------------------------------------------------------------

/// The identity of a request, as its sender chose it.
#[derive(Debug, PartialEq, Eq)]
pub enum RequestId {
    Number(i32),
    Text(String),
}

pub enum RequestIdView {
    Number(i32),
    Text(Seq<char>),
}

impl View for RequestId {
    type V = RequestIdView;

    open spec fn view(&self) -> RequestIdView {
        match self {
            RequestId::Number(n) => RequestIdView::Number(*n),
            RequestId::Text(s) => RequestIdView::Text(s@),
        }
    }
}

impl Clone for RequestId {
    fn clone(&self) -> (r: RequestId)
        ensures
            r@ == self@,
    {
        match self {
            RequestId::Number(n) => RequestId::Number(*n),
            RequestId::Text(s) => RequestId::Text(s.clone()),
        }
    }
}

/// The text under which a request is kept.
spec fn key_of(id: RequestIdView) -> Seq<char> {
    match id {
        RequestIdView::Number(n) => "#"@ + numbers::decimal_text((n + 0x8000_0000) as nat),
        RequestIdView::Text(s) => "="@ + s,
    }
}

proof fn lemma_key_injective(a: RequestIdView, b: RequestIdView)
    ensures
        key_of(a) == key_of(b) <==> a == b,
{
    reveal_strlit("#");
    reveal_strlit("=");
    if key_of(a) == key_of(b) {
        assert(key_of(a)[0] == key_of(b)[0]);
        match (a, b) {
            (RequestIdView::Number(m), RequestIdView::Number(n)) => {
                let x = (m + 0x8000_0000) as nat;
                let y = (n + 0x8000_0000) as nat;
                numbers::lemma_decimal_round_trip(x);
                numbers::lemma_decimal_round_trip(y);
                assert(key_of(a).skip(1) =~= numbers::decimal_text(x));
                assert(key_of(b).skip(1) =~= numbers::decimal_text(y));
            },
            (RequestIdView::Text(s), RequestIdView::Text(t)) => {
                assert(key_of(a).skip(1) =~= s);
                assert(key_of(b).skip(1) =~= t);
            },
            _ => {},
        }
    }
}

fn key_text(id: &RequestId) -> (r: String)
    ensures
        r@ == key_of(id@),
{
    match id {
        RequestId::Number(n) => {
            let shifted: u64 = (*n as i64 + 0x8000_0000i64) as u64;
            let mut r = "#".to_owned();
            r.append(decimal(shifted).as_str());
            r
        },
        RequestId::Text(s) => {
            let mut r = "=".to_owned();
            r.append(s.as_str());
            r
        },
    }
}

/// What happened to a request while it is in flight.
#[derive(Debug, Clone, Copy, PartialEq, Eq, Structural)]
pub struct Lifecycle {
    pub cancelled: bool,
    pub stale: bool,
}

/// Why a request is not answered as it was asked.
#[derive(Debug, Clone, Copy, PartialEq, Eq, Structural)]
pub enum Interrupt {
    Cancelled,
    Stale,
}

/// Why a request is not answered as it was asked: taken back counts before stale.
pub open spec fn interrupt_of(lifecycle: Lifecycle) -> Option<Interrupt> {
    if lifecycle.cancelled {
        Some(Interrupt::Cancelled)
    } else if lifecycle.stale {
        Some(Interrupt::Stale)
    } else {
        None
    }
}

impl Lifecycle {
    /// Why the request is not answered as it was asked.
    pub fn interrupt(&self) -> (r: Option<Interrupt>)
        ensures
            r == interrupt_of(*self),
    {
        if self.cancelled {
            Some(Interrupt::Cancelled)
        } else if self.stale {
            Some(Interrupt::Stale)
        } else {
            None
        }
    }
}

/// A request to which nothing happened yet.
pub open spec fn undisturbed() -> Lifecycle {
    Lifecycle { cancelled: false, stale: false }
}

/// The requests in flight.
pub type Flights = Map<RequestIdView, Lifecycle>;

/// The requests in flight.
pub struct InFlight {
    entries: TextMap<Lifecycle>,
}

spec fn flights(entries: Map<Seq<char>, Lifecycle>) -> Flights {
    Map::new(
        |id: RequestIdView| entries.dom().contains(key_of(id)),
        |id: RequestIdView| entries[key_of(id)],
    )
}

proof fn lemma_flights_insert(
    entries: Map<Seq<char>, Lifecycle>,
    id: RequestIdView,
    lifecycle: Lifecycle,
)
    ensures
        flights(entries.insert(key_of(id), lifecycle)) == flights(entries).insert(id, lifecycle),
{
    assert forall|other: RequestIdView| #[trigger] key_of(other) == key_of(id) <==> other
        == id by {
        lemma_key_injective(other, id);
    }
    assert(flights(entries.insert(key_of(id), lifecycle)) =~= flights(entries).insert(
        id,
        lifecycle,
    ));
}

proof fn lemma_flights_remove(entries: Map<Seq<char>, Lifecycle>, id: RequestIdView)
    ensures
        flights(entries.remove(key_of(id))) == flights(entries).remove(id),
{
    assert forall|other: RequestIdView| #[trigger] key_of(other) == key_of(id) <==> other
        == id by {
        lemma_key_injective(other, id);
    }
    assert(flights(entries.remove(key_of(id))) =~= flights(entries).remove(id));
}

impl View for InFlight {
    type V = Flights;

    closed spec fn view(&self) -> Flights {
        flights(self.entries@)
    }
}

/// The requests in flight after one was cancelled or became stale. One that is not in flight is left
/// alone.
pub open spec fn disturbed(
    in_flight: Flights,
    id: RequestIdView,
    cancel: bool,
    stale: bool,
) -> Flights {
    if in_flight.dom().contains(id) {
        in_flight.insert(
            id,
            Lifecycle {
                cancelled: in_flight[id].cancelled || cancel,
                stale: in_flight[id].stale || stale,
            },
        )
    } else {
        in_flight
    }
}

/// What is known of a request that may be in flight.
pub open spec fn lifecycle_of(in_flight: Flights, id: RequestIdView) -> Lifecycle {
    if in_flight.dom().contains(id) {
        in_flight[id]
    } else {
        undisturbed()
    }
}

impl InFlight {
    /// No requests.
    pub fn new() -> (r: InFlight)
        ensures
            r@ == Flights::empty(),
    {
        let r = InFlight { entries: TextMap::new() };
        proof {
            assert(r@ =~= Flights::empty());
        }
        r
    }

    /// What is known of a request; it is in flight from now on.
    pub fn lifecycle(&mut self, id: &RequestId) -> (r: Lifecycle)
        ensures
            r == lifecycle_of(old(self)@, id@),
            final(self)@ == old(self)@.insert(id@, r),
    {
        let key = key_text(id);
        let known: Option<Lifecycle> = match self.entries.get(key.as_str()) {
            Some(lifecycle) => Some(*lifecycle),
            None => None,
        };
        match known {
            Some(lifecycle) => {
                proof {
                    assert(self@ =~= self@.insert(id@, lifecycle));
                }
                lifecycle
            },
            None => {
                let lifecycle = Lifecycle { cancelled: false, stale: false };
                proof {
                    lemma_flights_insert(self.entries@, id@, lifecycle);
                }
                let _ = self.entries.insert(key, lifecycle);
                lifecycle
            },
        }
    }

    /// The client takes a request back. Whether it was in flight is given back; one that is not is
    /// left alone.
    pub fn cancel(&mut self, id: &RequestId) -> (r: bool)
        ensures
            r == old(self)@.dom().contains(id@),
            final(self)@ == disturbed(old(self)@, id@, true, false),
    {
        self.disturb(id, true, false)
    }

    /// An edit made the result of a request stale.
    pub fn mark_stale(&mut self, id: &RequestId) -> (r: bool)
        ensures
            r == old(self)@.dom().contains(id@),
            final(self)@ == disturbed(old(self)@, id@, false, true),
    {
        self.disturb(id, false, true)
    }

    fn disturb(&mut self, id: &RequestId, cancel: bool, stale: bool) -> (r: bool)
        ensures
            r == old(self)@.dom().contains(id@),
            final(self)@ == disturbed(old(self)@, id@, cancel, stale),
    {
        let key = key_text(id);
        let known: Option<Lifecycle> = match self.entries.get(key.as_str()) {
            Some(lifecycle) => Some(*lifecycle),
            None => None,
        };
        match known {
            Some(lifecycle) => {
                let disturbed = Lifecycle {
                    cancelled: lifecycle.cancelled || cancel,
                    stale: lifecycle.stale || stale,
                };
                proof {
                    lemma_flights_insert(self.entries@, id@, disturbed);
                }
                let _ = self.entries.insert(key, disturbed);
                true
            },
            None => false,
        }
    }

    /// A request is in flight no more. What happened to it is given back.
    pub fn finish(&mut self, id: &RequestId) -> (r: Option<Lifecycle>)
        ensures
            r == (if old(self)@.dom().contains(id@) {
                Some(old(self)@[id@])
            } else {
                None
            }),
            final(self)@ == old(self)@.remove(id@),
    {
        let key = key_text(id);
        proof {
            lemma_flights_remove(self.entries@, id@);
        }
        self.entries.remove(key.as_str())
    }

    /// Whether a request is in flight.
    pub fn contains(&self, id: &RequestId) -> (r: bool)
        ensures
            r == self@.dom().contains(id@),
    {
        let key = key_text(id);
        self.entries.contains_key(key.as_str())
    }
}

// ---------------------------------------------------------------------------
// Answers.
// ---------------------------------------------------------------------------

/// The answer to a request. What a handler found is kept by its owner under a number.
pub struct Response {
    pub id: RequestId,
    pub outcome: Outcome,
}

pub enum Outcome {
    Value(u64),
    Error { code: i32, message: String },
}

pub struct ResponseView {
    pub id: RequestIdView,
    pub outcome: OutcomeView,
}

pub enum OutcomeView {
    Value(u64),
    Error { code: i32, message: Seq<char> },
}

impl View for Response {
    type V = ResponseView;

    open spec fn view(&self) -> ResponseView {
        ResponseView {
            id: self.id@,
            outcome: match self.outcome {
                Outcome::Value(value) => OutcomeView::Value(value),
                Outcome::Error { code, message } => OutcomeView::Error { code, message: message@ },
            },
        }
    }
}

/// An answer that says what went wrong.
pub open spec fn failure(id: RequestIdView, code: i32, message: Seq<char>) -> ResponseView {
    ResponseView { id, outcome: OutcomeView::Error { code, message } }
}

/// The answer to a request that was interrupted.
pub open spec fn interrupted(id: RequestIdView, interrupt: Interrupt) -> ResponseView {
    match interrupt {
        Interrupt::Cancelled => failure(id, REQUEST_CANCELLED, "request cancelled"@),
        Interrupt::Stale => failure(
            id,
            ERR_CONTENT_MODIFIED,
            "content modified during request; please retry"@,
        ),
    }
}

fn new_err(id: RequestId, code: i32, message: &str) -> (r: Response)
    ensures
        r@ == failure(id@, code, message@),
{
    Response { id, outcome: Outcome::Error { code, message: message.to_owned() } }
}

/// The answer to a request that was interrupted.
pub fn interrupt_response(interrupt: Interrupt, id: RequestId) -> (r: Response)
    ensures
        r@ == interrupted(id@, interrupt),
{
    match interrupt {
        Interrupt::Cancelled => new_err(id, REQUEST_CANCELLED, "request cancelled"),
        Interrupt::Stale => new_err(
            id,
            ERR_CONTENT_MODIFIED,
            "content modified during request; please retry",
        ),
    }
}

/// The answer to a request whose parameters could not be read; `error` says why.
pub fn invalid_params_response(id: RequestId, error: &str) -> (r: Response)
    ensures
        r@ == failure(id@, ERR_INVALID_PARAMS, "invalid params: "@ + error@),
{
    let mut message = "invalid params: ".to_owned();
    message.append(error);
    new_err(id, ERR_INVALID_PARAMS, message.as_str())
}

/// What a request is answered in the end, and the requests in flight then: an interrupt takes the
/// place of the answer.
pub open spec fn finished(in_flight: Flights, response: ResponseView) -> (ResponseView, Flights) {
    let answer = match interrupt_of(lifecycle_of(in_flight, response.id)) {
        Some(interrupt) => interrupted(response.id, interrupt),
        None => response,
    };
    (answer, in_flight.remove(response.id))
}

/// Answer a request: it is in flight no more, and an interrupt takes the place of the answer.
pub fn finish_request(in_flight: &mut InFlight, response: Response) -> (r: Response)
    ensures
        r@ == finished(old(in_flight)@, response@).0,
        final(in_flight)@ == finished(old(in_flight)@, response@).1,
{
    match in_flight.finish(&response.id) {
        Some(lifecycle) => match lifecycle.interrupt() {
            Some(interrupt) => interrupt_response(interrupt, response.id),
            None => response,
        },
        None => response,
    }
}

// ---------------------------------------------------------------------------
// Methods.
// ---------------------------------------------------------------------------

/// Whether a request runs the analyzer. Those that only parse or look into the index do not.
pub open spec fn analyzes(method: Seq<char>) -> bool {
    ||| method == "textDocument/hover"@
    ||| method == "textDocument/references"@
    ||| method == "textDocument/documentHighlight"@
    ||| method == "callHierarchy/incomingCalls"@
    ||| method == "callHierarchy/outgoingCalls"@
    ||| method == "textDocument/completion"@
    ||| method == "textDocument/signatureHelp"@
    ||| method == "textDocument/typeDefinition"@
    ||| method == "textDocument/rename"@
    ||| method == "textDocument/prepareRename"@
    ||| method == "textDocument/semanticTokens/full"@
    ||| method == "textDocument/semanticTokens/full/delta"@
    ||| method == "textDocument/inlayHint"@
    ||| method == "textDocument/codeAction"@
    ||| method == "codeAction/resolve"@
    ||| method == "workspace/willRenameFiles"@
}

/// Whether a request runs the analyzer.
pub fn analyze_using(method: &str) -> (r: bool)
    ensures
        r == analyzes(method@),
{
    same_text(method, "textDocument/hover") || same_text(method, "textDocument/references")
        || same_text(method, "textDocument/documentHighlight") || same_text(
        method,
        "callHierarchy/incomingCalls",
    ) || same_text(method, "callHierarchy/outgoingCalls") || same_text(
        method,
        "textDocument/completion",
    ) || same_text(method, "textDocument/signatureHelp") || same_text(
        method,
        "textDocument/typeDefinition",
    ) || same_text(method, "textDocument/rename") || same_text(
        method,
        "textDocument/prepareRename",
    ) || same_text(method, "textDocument/semanticTokens/full") || same_text(
        method,
        "textDocument/semanticTokens/full/delta",
    ) || same_text(method, "textDocument/inlayHint") || same_text(
        method,
        "textDocument/codeAction",
    ) || same_text(method, "codeAction/resolve") || same_text(method, "workspace/willRenameFiles")
}

/// Whether a request that runs no analyzer has a handler.
pub open spec fn handled_without_analysis(method: Seq<char>) -> bool {
    ||| method == "textDocument/documentSymbol"@
    ||| method == "textDocument/documentLink"@
    ||| method == "textDocument/definition"@
    ||| method == "textDocument/declaration"@
    ||| method == "textDocument/implementation"@
    ||| method == "textDocument/prepareCallHierarchy"@
    ||| method == "workspace/symbol"@
    ||| method == "workspaceSymbol/resolve"@
    ||| method == "completionItem/resolve"@
    ||| method == "textDocument/foldingRange"@
    ||| method == "textDocument/selectionRange"@
    ||| method == "textDocument/documentColor"@
    ||| method == "textDocument/colorPresentation"@
    ||| method == "textDocument/semanticTokens/range"@
    ||| method == "inlayHint/resolve"@
    ||| method == "workspace/executeCommand"@
    ||| method == "textDocument/prepareTypeHierarchy"@
    ||| method == "typeHierarchy/supertypes"@
    ||| method == "typeHierarchy/subtypes"@
    ||| method == "textDocument/diagnostic"@
}

fn is_handled_without_analysis(method: &str) -> (r: bool)
    ensures
        r == handled_without_analysis(method@),
{
    same_text(method, "textDocument/documentSymbol") || same_text(
        method,
        "textDocument/documentLink",
    ) || same_text(method, "textDocument/definition") || same_text(
        method,
        "textDocument/declaration",
    ) || same_text(method, "textDocument/implementation") || same_text(
        method,
        "textDocument/prepareCallHierarchy",
    ) || same_text(method, "workspace/symbol") || same_text(method, "workspaceSymbol/resolve")
        || same_text(method, "completionItem/resolve") || same_text(
        method,
        "textDocument/foldingRange",
    ) || same_text(method, "textDocument/selectionRange") || same_text(
        method,
        "textDocument/documentColor",
    ) || same_text(method, "textDocument/colorPresentation") || same_text(
        method,
        "textDocument/semanticTokens/range",
    ) || same_text(method, "inlayHint/resolve") || same_text(method, "workspace/executeCommand")
        || same_text(method, "textDocument/prepareTypeHierarchy") || same_text(
        method,
        "typeHierarchy/supertypes",
    ) || same_text(method, "typeHierarchy/subtypes") || same_text(
        method,
        "textDocument/diagnostic",
    )
}

/// Whether a request has a handler that answers at once.
pub open spec fn handled(method: Seq<char>) -> bool {
    analyzes(method) || handled_without_analysis(method)
}

/// Whether a handler may refuse a request that could be read.
pub open spec fn refusable(method: Seq<char>) -> bool {
    ||| method == "workspace/executeCommand"@
    ||| method == "textDocument/prepareRename"@
    ||| method == "textDocument/rename"@
}

/// What is done with a request.
pub enum Dispatch {
    /// It is answered without a handler.
    Answer(Response),
    /// The formatter gets it, and answers later.
    Format,
    /// Its handler gets it. One that may refuse does so with an error of its own.
    Handle { may_refuse: bool },
}

pub enum DispatchView {
    Answer(ResponseView),
    Format,
    Handle { may_refuse: bool },
}

impl View for Dispatch {
    type V = DispatchView;

    open spec fn view(&self) -> DispatchView {
        match self {
            Dispatch::Answer(response) => DispatchView::Answer(response@),
            Dispatch::Format => DispatchView::Format,
            Dispatch::Handle { may_refuse } => DispatchView::Handle { may_refuse: *may_refuse },
        }
    }
}

/// What is done with a request, and the requests in flight then. One that was interrupted while it
/// waited is answered at once. Under hard memory pressure one that runs the analyzer is refused, to
/// be tried again.
pub open spec fn dispatched(
    in_flight: Flights,
    pressure: MemoryPressure,
    id: RequestIdView,
    method: Seq<char>,
) -> (DispatchView, Flights) {
    let lifecycle = lifecycle_of(in_flight, id);
    let waiting = in_flight.insert(id, lifecycle);
    match interrupt_of(lifecycle) {
        Some(interrupt) => (
            DispatchView::Answer(interrupted(id, interrupt)),
            in_flight.remove(id),
        ),
        None => if pressure == MemoryPressure::Hard && analyzes(method) {
            (
                DispatchView::Answer(
                    failure(
                        id,
                        ERR_CONTENT_MODIFIED,
                        "server is shedding requests under memory pressure; please retry"@,
                    ),
                ),
                in_flight.remove(id),
            )
        } else if method == "textDocument/formatting"@ {
            (DispatchView::Format, waiting)
        } else if handled(method) {
            (DispatchView::Handle { may_refuse: refusable(method) }, waiting)
        } else {
            (
                DispatchView::Answer(
                    failure(id, ERR_METHOD_NOT_FOUND, "unhandled method: "@ + method),
                ),
                in_flight.remove(id),
            )
        },
    }
}

/// Say what is done with a request.
pub fn dispatch_request(
    in_flight: &mut InFlight,
    pressure: MemoryPressure,
    id: &RequestId,
    method: &str,
) -> (r: Dispatch)
    ensures
        r@ == dispatched(old(in_flight)@, pressure, id@, method@).0,
        final(in_flight)@ == dispatched(old(in_flight)@, pressure, id@, method@).1,
{
    let lifecycle = in_flight.lifecycle(id);
    proof {
        assert(old(in_flight)@.insert(id@, lifecycle).remove(id@) =~= old(in_flight)@.remove(id@));
    }
    if let Some(interrupt) = lifecycle.interrupt() {
        let _ = in_flight.finish(id);
        return Dispatch::Answer(interrupt_response(interrupt, id.clone()));
    }
    let analysis = analyze_using(method);
    if pressure == MemoryPressure::Hard && analysis {
        let response = new_err(
            id.clone(),
            ERR_CONTENT_MODIFIED,
            "server is shedding requests under memory pressure; please retry",
        );
        return Dispatch::Answer(finish_request(in_flight, response));
    }
    if same_text(method, "textDocument/formatting") {
        return Dispatch::Format;
    }
    if analysis || is_handled_without_analysis(method) {
        let may_refuse = same_text(method, "workspace/executeCommand") || same_text(
            method,
            "textDocument/prepareRename",
        ) || same_text(method, "textDocument/rename");
        return Dispatch::Handle { may_refuse };
    }
    let mut message = "unhandled method: ".to_owned();
    message.append(method);
    let response = new_err(id.clone(), ERR_METHOD_NOT_FOUND, message.as_str());
    Dispatch::Answer(finish_request(in_flight, response))
}

/// What came of handing a request to the formatter.
pub enum FormatDispatch {
    /// It is answered now.
    Immediate(u64),
    /// It will be answered when the formatter is done.
    Pending,
    /// Its parameters could not be read.
    Invalid(String),
}

/// The answer that a formatting request has already, before it is seen whether it was interrupted.
pub open spec fn format_answer(id: RequestIdView, dispatch: FormatDispatch) -> Option<
    ResponseView,
> {
    match dispatch {
        FormatDispatch::Pending => None,
        FormatDispatch::Immediate(value) => Some(
            ResponseView { id, outcome: OutcomeView::Value(value) },
        ),
        FormatDispatch::Invalid(error) => Some(
            failure(id, ERR_INVALID_PARAMS, "invalid params: "@ + error@),
        ),
    }
}

/// The answer to a formatting request, where there is one already. A request that waits for the
/// formatter stays in flight, so that it can still be interrupted.
pub fn answer_formatting(in_flight: &mut InFlight, id: &RequestId, dispatch: FormatDispatch) -> (r:
    Option<Response>)
    ensures
        r is Some == format_answer(id@, dispatch) is Some,
        format_answer(id@, dispatch) is None ==> final(in_flight)@ == old(in_flight)@,
        format_answer(id@, dispatch) matches Some(answer) ==> (r->0)@ == finished(
            old(in_flight)@,
            answer,
        ).0 && final(in_flight)@ == finished(old(in_flight)@, answer).1,
{
    match dispatch {
        FormatDispatch::Pending => None,
        FormatDispatch::Immediate(value) => {
            let response = Response { id: id.clone(), outcome: Outcome::Value(value) };
            Some(finish_request(in_flight, response))
        },
        FormatDispatch::Invalid(error) => {
            let response = invalid_params_response(id.clone(), error.as_str());
            Some(finish_request(in_flight, response))
        },
    }
}

// ---------------------------------------------------------------------------
// Laws.
// ---------------------------------------------------------------------------

/// A request that was taken back is answered so, whether or not an edit came too.
pub proof fn lemma_cancelled_wins(in_flight: Flights, response: ResponseView)
    requires
        in_flight.dom().contains(response.id),
        in_flight[response.id].cancelled,
    ensures
        finished(in_flight, response).0 == failure(
            response.id,
            REQUEST_CANCELLED,
            "request cancelled"@,
        ),
{
}

/// A request to which nothing happened gets the answer of its handler.
pub proof fn lemma_clean_answer_passes(in_flight: Flights, response: ResponseView)
    requires
        lifecycle_of(in_flight, response.id) == undisturbed(),
    ensures
        finished(in_flight, response).0 == response,
{
}

/// A request that is answered is in flight no more, and no other request is touched.
pub proof fn lemma_answered_leaves_flight(
    in_flight: Flights,
    pressure: MemoryPressure,
    id: RequestIdView,
    method: Seq<char>,
    other: RequestIdView,
)
    requires
        other != id,
    ensures
        ({
            let (done, after) = dispatched(in_flight, pressure, id, method);
            &&& done is Answer <==> !after.dom().contains(id)
            &&& after.dom().contains(other) == in_flight.dom().contains(other)
            &&& in_flight.dom().contains(other) ==> after[other] == in_flight[other]
        }),
{
}

/// Under hard memory pressure no request that runs the analyzer comes to its handler, and every
/// other is treated as at any time.
pub proof fn lemma_hard_pressure_sheds_analysis(
    in_flight: Flights,
    id: RequestIdView,
    method: Seq<char>,
)
    ensures
        analyzes(method) ==> dispatched(in_flight, MemoryPressure::Hard, id, method).0 is Answer,
        !analyzes(method) ==> dispatched(in_flight, MemoryPressure::Hard, id, method)
            == dispatched(in_flight, MemoryPressure::Normal, id, method),
{
}

/// What happens to a request while it is in flight replaces its answer: no result of an interrupted
/// request is ever sent.
pub proof fn lemma_interrupt_replaces_answer(
    in_flight: Flights,
    a: ResponseView,
    b: ResponseView,
)
    requires
        a.id == b.id,
        interrupt_of(lifecycle_of(in_flight, a.id)) is Some,
    ensures
        finished(in_flight, a) == finished(in_flight, b),
        finished(in_flight, a).0.outcome is Error,
{
}

/// A request that nothing interrupted, while memory lasts, comes to a handler exactly where its
/// method is that of a feature of the server. Formatting goes to the formatter; every other method
/// is unknown, and the client is told so by name.
pub proof fn lemma_every_feature_is_served(
    in_flight: Flights,
    pressure: MemoryPressure,
    id: RequestIdView,
    method: Seq<char>,
)
    requires
        in_flight.dom().contains(id) ==> !in_flight[id].cancelled && !in_flight[id].stale,
        pressure != MemoryPressure::Hard,
    ensures
        ({
            let navigation = {
                ||| "textDocument/definition"@ == method
                ||| "textDocument/declaration"@ == method
                ||| "textDocument/typeDefinition"@ == method
                ||| "textDocument/implementation"@ == method
                ||| "textDocument/references"@ == method
                ||| "textDocument/documentHighlight"@ == method
                ||| "textDocument/documentSymbol"@ == method
                ||| "textDocument/documentLink"@ == method
                ||| "workspace/symbol"@ == method
                ||| "workspaceSymbol/resolve"@ == method
                ||| "textDocument/prepareCallHierarchy"@ == method
                ||| "callHierarchy/incomingCalls"@ == method
                ||| "callHierarchy/outgoingCalls"@ == method
                ||| "textDocument/prepareTypeHierarchy"@ == method
                ||| "typeHierarchy/supertypes"@ == method
                ||| "typeHierarchy/subtypes"@ == method
            };
            let reading = {
                ||| "textDocument/hover"@ == method
                ||| "textDocument/signatureHelp"@ == method
                ||| "textDocument/foldingRange"@ == method
                ||| "textDocument/selectionRange"@ == method
                ||| "textDocument/documentColor"@ == method
                ||| "textDocument/colorPresentation"@ == method
                ||| "textDocument/semanticTokens/full"@ == method
                ||| "textDocument/semanticTokens/full/delta"@ == method
                ||| "textDocument/semanticTokens/range"@ == method
                ||| "textDocument/inlayHint"@ == method
                ||| "inlayHint/resolve"@ == method
                ||| "textDocument/diagnostic"@ == method
            };
            let writing = {
                ||| "textDocument/completion"@ == method
                ||| "completionItem/resolve"@ == method
                ||| "textDocument/prepareRename"@ == method
                ||| "textDocument/rename"@ == method
                ||| "textDocument/codeAction"@ == method
                ||| "codeAction/resolve"@ == method
                ||| "workspace/executeCommand"@ == method
                ||| "workspace/willRenameFiles"@ == method
            };
            let served = navigation || reading || writing;
            let done = dispatched(in_flight, pressure, id, method).0;
            let formats = method == "textDocument/formatting"@;
            &&& served <==> done is Handle
            &&& formats <==> done is Format
            &&& !served && !formats ==> done == DispatchView::Answer(
                ResponseView {
                    id,
                    outcome: OutcomeView::Error {
                        code: (-32601) as i32,
                        message: "unhandled method: "@ + method,
                    },
                },
            )
        }),
{
    lemma_formatting_is_apart(method);
}

/// Formatting is neither priced as an analysis nor answered at once.
proof fn lemma_formatting_is_apart(method: Seq<char>)
    ensures
        method == "textDocument/formatting"@ ==> !analyzes(method) && !handled_without_analysis(
            method,
        ),
{
    if method == "textDocument/formatting"@ {
        reveal_strlit("textDocument/formatting");
        reveal_strlit("textDocument/hover");
        reveal_strlit("textDocument/references");
        reveal_strlit("textDocument/documentHighlight");
        reveal_strlit("callHierarchy/incomingCalls");
        reveal_strlit("callHierarchy/outgoingCalls");
        reveal_strlit("textDocument/completion");
        reveal_strlit("textDocument/signatureHelp");
        reveal_strlit("textDocument/typeDefinition");
        reveal_strlit("textDocument/rename");
        reveal_strlit("textDocument/prepareRename");
        reveal_strlit("textDocument/semanticTokens/full");
        reveal_strlit("textDocument/semanticTokens/full/delta");
        reveal_strlit("textDocument/inlayHint");
        reveal_strlit("textDocument/codeAction");
        reveal_strlit("codeAction/resolve");
        reveal_strlit("workspace/willRenameFiles");
        reveal_strlit("textDocument/documentSymbol");
        reveal_strlit("textDocument/documentLink");
        reveal_strlit("textDocument/definition");
        reveal_strlit("textDocument/declaration");
        reveal_strlit("textDocument/implementation");
        reveal_strlit("textDocument/prepareCallHierarchy");
        reveal_strlit("workspace/symbol");
        reveal_strlit("workspaceSymbol/resolve");
        reveal_strlit("completionItem/resolve");
        reveal_strlit("textDocument/foldingRange");
        reveal_strlit("textDocument/selectionRange");
        reveal_strlit("textDocument/documentColor");
        reveal_strlit("textDocument/colorPresentation");
        reveal_strlit("textDocument/semanticTokens/range");
        reveal_strlit("inlayHint/resolve");
        reveal_strlit("workspace/executeCommand");
        reveal_strlit("textDocument/prepareTypeHierarchy");
        reveal_strlit("typeHierarchy/supertypes");
        reveal_strlit("typeHierarchy/subtypes");
        reveal_strlit("textDocument/diagnostic");
        assert(method.len() == 23 && method[13] == 'f' && method[14] == 'o' && method[15] == 'r');
    }
}

/// Under hard memory pressure exactly the requests that run the analyzer are turned away, to be
/// tried again; every other is treated as at any time.
pub proof fn lemma_shed_requests(
    in_flight: Flights,
    id: RequestIdView,
    method: Seq<char>,
)
    requires
        in_flight.dom().contains(id) ==> !in_flight[id].cancelled && !in_flight[id].stale,
    ensures
        ({
            let priced = {
                ||| method == "textDocument/hover"@
                ||| method == "textDocument/references"@
                ||| method == "textDocument/documentHighlight"@
                ||| method == "textDocument/typeDefinition"@
                ||| method == "callHierarchy/incomingCalls"@
                ||| method == "callHierarchy/outgoingCalls"@
                ||| method == "textDocument/completion"@
                ||| method == "textDocument/signatureHelp"@
                ||| method == "textDocument/prepareRename"@
                ||| method == "textDocument/rename"@
                ||| method == "textDocument/semanticTokens/full"@
                ||| method == "textDocument/semanticTokens/full/delta"@
                ||| method == "textDocument/inlayHint"@
                ||| method == "textDocument/codeAction"@
                ||| method == "codeAction/resolve"@
                ||| method == "workspace/willRenameFiles"@
            };
            let at_hard = dispatched(in_flight, MemoryPressure::Hard, id, method);
            &&& priced ==> at_hard.0 == DispatchView::Answer(
                ResponseView {
                    id,
                    outcome: OutcomeView::Error {
                        code: (-32801) as i32,
                        message: "server is shedding requests under memory pressure; please retry"@,
                    },
                },
            ) && !at_hard.1.dom().contains(id)
            &&& !priced ==> at_hard == dispatched(in_flight, MemoryPressure::Soft, id, method)
                && at_hard == dispatched(in_flight, MemoryPressure::Normal, id, method)
        }),
{
}

/// Below hard pressure memory changes nothing of how a request is treated.
pub proof fn lemma_soft_pressure_serves(
    in_flight: Flights,
    id: RequestIdView,
    method: Seq<char>,
)
    ensures
        dispatched(in_flight, MemoryPressure::Soft, id, method) == dispatched(
            in_flight,
            MemoryPressure::Normal,
            id,
            method,
        ),
{
}

/// Only a command and the two requests of a rename may be refused by their handlers.
pub proof fn lemma_who_may_refuse(
    in_flight: Flights,
    pressure: MemoryPressure,
    id: RequestIdView,
    method: Seq<char>,
)
    ensures
        dispatched(in_flight, pressure, id, method).0 matches DispatchView::Handle { may_refuse }
            ==> may_refuse == (method == "workspace/executeCommand"@ || method
            == "textDocument/prepareRename"@ || method == "textDocument/rename"@),
{
}

/// A request that was interrupted while it waited comes to no handler, whatever it asks for: one
/// that was taken back is answered as such, and one whose document was edited is to be tried again.
pub proof fn lemma_interrupted_while_waiting(
    in_flight: Flights,
    pressure: MemoryPressure,
    id: RequestIdView,
    method: Seq<char>,
)
    requires
        in_flight.dom().contains(id),
        in_flight[id].cancelled || in_flight[id].stale,
    ensures
        dispatched(in_flight, pressure, id, method).0 matches DispatchView::Answer(answer)
            && answer.id == id && (answer.outcome matches OutcomeView::Error { code, message } && (
        if in_flight[id].cancelled {
            code == -32800 && message == "request cancelled"@
        } else {
            code == -32801 && message == "content modified during request; please retry"@
        })),
        dispatched(in_flight, pressure, id, method).1 == in_flight.remove(id),
{
}

/// A request that comes to a handler or to the formatter stays in flight as it was, so that it can
/// still be interrupted.
pub proof fn lemma_handled_stays_in_flight(
    in_flight: Flights,
    pressure: MemoryPressure,
    id: RequestIdView,
    method: Seq<char>,
)
    requires
        !(dispatched(in_flight, pressure, id, method).0 is Answer),
    ensures
        ({
            let after = dispatched(in_flight, pressure, id, method).1;
            &&& after.dom() == in_flight.dom().insert(id)
            &&& !after[id].cancelled && !after[id].stale
            &&& forall|other: RequestIdView| #[trigger]
                in_flight.dom().contains(other) ==> after[other] == in_flight[other]
        }),
{
}

/// What a request is answered in the end: what its handler found where nothing happened meanwhile,
/// else that it was taken back or that its document was edited, in this order. It is in flight no
/// more, and no other request is touched.
pub proof fn lemma_final_answer(in_flight: Flights, response: ResponseView)
    ensures
        ({
            let (answer, after) = finished(in_flight, response);
            let known = in_flight.dom().contains(response.id);
            let cancelled = known && in_flight[response.id].cancelled;
            let stale = known && in_flight[response.id].stale;
            &&& answer.id == response.id
            &&& !cancelled && !stale ==> answer.outcome == response.outcome
            &&& cancelled ==> answer.outcome == (OutcomeView::Error {
                code: (-32800) as i32,
                message: "request cancelled"@,
            })
            &&& stale && !cancelled ==> answer.outcome == (OutcomeView::Error {
                code: (-32801) as i32,
                message: "content modified during request; please retry"@,
            })
            &&& after == in_flight.remove(response.id)
        }),
{
}

/// A request that is cancelled is cancelled from then on, one that becomes stale is stale, and what
/// had happened to it before stays. No other request is touched, and none comes into flight by it.
pub proof fn lemma_what_disturbs_a_request(
    in_flight: Flights,
    id: RequestIdView,
    cancel: bool,
    stale: bool,
    other: RequestIdView,
)
    requires
        other != id,
    ensures
        ({
            let after = disturbed(in_flight, id, cancel, stale);
            &&& after.dom() == in_flight.dom()
            &&& in_flight.dom().contains(id) ==> {
                &&& after[id].cancelled <==> in_flight[id].cancelled || cancel
                &&& after[id].stale <==> in_flight[id].stale || stale
            }
            &&& in_flight.dom().contains(other) ==> after[other] == in_flight[other]
        }),
{
    assert(disturbed(in_flight, id, cancel, stale).dom() =~= in_flight.dom());
}

/// What is said of an identity, of an answer and of a dispatch is said of the values themselves.
pub proof fn lemma_answers_as_they_are(id: RequestId, response: Response, dispatch: Dispatch)
    ensures
        id matches RequestId::Number(n) ==> id@ == RequestIdView::Number(n),
        id matches RequestId::Text(s) ==> id@ == RequestIdView::Text(s@),
        response@.id == response.id@,
        response.outcome matches Outcome::Value(value) ==> response@.outcome == OutcomeView::Value(
            value,
        ),
        response.outcome matches Outcome::Error { code, message } ==> response@.outcome
            == (OutcomeView::Error { code, message: message@ }),
        dispatch is Format <==> dispatch@ is Format,
        dispatch matches Dispatch::Answer(answer) ==> dispatch@ == DispatchView::Answer(answer@),
        dispatch matches Dispatch::Handle { may_refuse } ==> dispatch@ == (DispatchView::Handle {
            may_refuse,
        }),
{
}

/// A formatting request is answered at once exactly where the formatter need not be waited for: with
/// what there is, or, where its parameters could not be read, with what was wrong with them.
pub proof fn lemma_when_formatting_is_answered(id: RequestIdView, dispatch: FormatDispatch)
    ensures
        dispatch is Pending <==> format_answer(id, dispatch) is None,
        dispatch matches FormatDispatch::Immediate(value) ==> format_answer(id, dispatch) == Some(
            ResponseView { id, outcome: OutcomeView::Value(value) },
        ),
        dispatch matches FormatDispatch::Invalid(error) ==> format_answer(id, dispatch) == Some(
            ResponseView {
                id,
                outcome: OutcomeView::Error {
                    code: (-32602) as i32,
                    message: "invalid params: "@ + error@,
                },
            },
        ),
{
}

} // verus!
