use gd_server::memory::MemoryPressure;
use gd_server::requests::{
    analyze_using, answer_formatting, dispatch_request, finish_request, interrupt_response,
    invalid_params_response, Dispatch, FormatDispatch, InFlight, Interrupt, Outcome, RequestId,
    Response, ERR_CONTENT_MODIFIED, ERR_INVALID_PARAMS, ERR_REQUEST_FAILED, REQUEST_CANCELLED,
};

fn error_code(response: &Response) -> Option<i32> {
    match &response.outcome {
        Outcome::Error { code, .. } => Some(*code),
        Outcome::Value(_) => None,
    }
}

fn shed_code(in_flight: &mut InFlight, id: i32, method: &str) -> Option<i32> {
    let id = RequestId::Number(id);
    match dispatch_request(in_flight, MemoryPressure::Hard, &id, method) {
        Dispatch::Answer(response) => error_code(&response),
        _ => None,
    }
}

#[test]
fn hard_pressure_sheds_analyze_using_requests_with_content_modified() {
    let mut in_flight = InFlight::new();
    assert_eq!(
        shed_code(&mut in_flight, 1, "textDocument/hover"),
        Some(ERR_CONTENT_MODIFIED)
    );
    assert!(!in_flight.contains(&RequestId::Number(1)), "shed must deregister the request");
    for (id, method) in [(4, "textDocument/completion"), (6, "textDocument/signatureHelp")] {
        assert_eq!(shed_code(&mut in_flight, id, method), Some(ERR_CONTENT_MODIFIED), "{method}");
    }
    for (id, method) in [
        (2, "textDocument/documentSymbol"),
        (3, "textDocument/definition"),
        (5, "completionItem/resolve"),
    ] {
        assert_ne!(shed_code(&mut in_flight, id, method), Some(ERR_CONTENT_MODIFIED), "{method}");
    }
}

#[test]
fn hard_pressure_sheds_semantic_tokens_full_and_delta_but_serves_range() {
    let mut in_flight = InFlight::new();
    assert_eq!(
        shed_code(&mut in_flight, 1, "textDocument/semanticTokens/full"),
        Some(ERR_CONTENT_MODIFIED)
    );
    assert_eq!(
        shed_code(&mut in_flight, 2, "textDocument/semanticTokens/full/delta"),
        Some(ERR_CONTENT_MODIFIED)
    );
    assert_ne!(
        shed_code(&mut in_flight, 3, "textDocument/semanticTokens/range"),
        Some(ERR_CONTENT_MODIFIED)
    );
}

#[test]
fn finish_request_maps_interrupts_and_passes_clean_responses() {
    let ok = |id: i32| Response { id: RequestId::Number(id), outcome: Outcome::Value(1) };

    let mut shared = InFlight::new();
    let _ = shared.lifecycle(&RequestId::Number(7));
    let passed = finish_request(&mut shared, ok(7));
    assert!(
        error_code(&passed).is_none(),
        "an uninterrupted request must keep its handler response"
    );
    assert!(!shared.contains(&RequestId::Number(7)), "finish must deregister");

    let mut shared = InFlight::new();
    let _ = shared.lifecycle(&RequestId::Number(8));
    shared.cancel(&RequestId::Number(8));
    let response = finish_request(&mut shared, ok(8));
    match &response.outcome {
        Outcome::Error { code, message } => {
            assert_eq!(*code, REQUEST_CANCELLED);
            assert!(message.contains("cancelled"));
        }
        Outcome::Value(_) => panic!("a cancelled request must yield an error response"),
    }

    let mut shared = InFlight::new();
    let _ = shared.lifecycle(&RequestId::Number(9));
    shared.mark_stale(&RequestId::Number(9));
    let response = finish_request(&mut shared, ok(9));
    assert_eq!(error_code(&response), Some(ERR_CONTENT_MODIFIED));

    let mut shared = InFlight::new();
    let _ = shared.lifecycle(&RequestId::Number(10));
    shared.mark_stale(&RequestId::Number(10));
    shared.cancel(&RequestId::Number(10));
    let response = finish_request(&mut shared, ok(10));
    assert_eq!(error_code(&response), Some(REQUEST_CANCELLED), "cancelled wins over stale");

    let mut shared = InFlight::new();
    let unregistered = finish_request(&mut shared, ok(11));
    assert!(error_code(&unregistered).is_none());
}

#[test]
fn error_codes_are_those_of_the_protocol() {
    assert_eq!(REQUEST_CANCELLED, -32800);
    assert_eq!(ERR_CONTENT_MODIFIED, -32801);
    assert_eq!(ERR_INVALID_PARAMS, -32602);
    assert_eq!(ERR_REQUEST_FAILED, -32803);
}

#[test]
fn numbers_and_texts_are_different_ids() {
    let mut shared = InFlight::new();
    let number = RequestId::Number(1);
    let text = RequestId::Text("1".to_string());
    assert!(!shared.cancel(&number), "nothing to cancel yet");
    let fresh = shared.lifecycle(&number);
    assert!(!fresh.cancelled && !fresh.stale);
    assert!(!shared.contains(&text));
    let _ = shared.lifecycle(&text.clone());
    assert!(shared.cancel(&text));
    assert!(shared.finish(&text).unwrap().cancelled);
    assert!(!shared.finish(&number).unwrap().cancelled);
    assert!(shared.finish(&number).is_none());
}

#[test]
fn an_interrupted_request_is_answered_at_once() {
    let mut shared = InFlight::new();
    let id = RequestId::Text("a".to_string());
    let _ = shared.lifecycle(&id);
    shared.cancel(&id);
    let r = dispatch_request(&mut shared, MemoryPressure::Normal, &id, "textDocument/hover");
    match r {
        Dispatch::Answer(response) => {
            assert_eq!(error_code(&response), Some(REQUEST_CANCELLED));
            assert_eq!(response.id, id);
        }
        _ => panic!("a cancelled request is not handled"),
    }
    assert!(!shared.contains(&id));
    let stale = interrupt_response(Interrupt::Stale, RequestId::Number(2));
    assert_eq!(error_code(&stale), Some(ERR_CONTENT_MODIFIED));
}

#[test]
fn formatting_is_answered_later() {
    let mut shared = InFlight::new();
    let id = RequestId::Number(1);
    let r = dispatch_request(&mut shared, MemoryPressure::Normal, &id, "textDocument/formatting");
    assert!(matches!(r, Dispatch::Format));
    assert!(answer_formatting(&mut shared, &id, FormatDispatch::Pending).is_none());
    assert!(shared.contains(&id), "a request that is being formatted stays in flight");
    let done = answer_formatting(&mut shared, &id, FormatDispatch::Immediate(4)).unwrap();
    assert!(matches!(done.outcome, Outcome::Value(4)));
    assert!(!shared.contains(&id));
    let bad =
        answer_formatting(&mut shared, &id, FormatDispatch::Invalid("no uri".to_string())).unwrap();
    assert_eq!(error_code(&bad), Some(ERR_INVALID_PARAMS));
}

#[test]
fn unknown_methods_are_refused_and_known_ones_handled() {
    let mut shared = InFlight::new();
    let id = RequestId::Number(1);
    let r = dispatch_request(&mut shared, MemoryPressure::Hard, &id, "textDocument/foldingRange");
    assert!(matches!(r, Dispatch::Handle { .. }));
    assert!(analyze_using("textDocument/hover"));
    assert!(!analyze_using("textDocument/foldingRange"));
    let invalid = invalid_params_response(RequestId::Number(3), "missing field");
    assert_eq!(error_code(&invalid), Some(ERR_INVALID_PARAMS));
    match invalid.outcome {
        Outcome::Error { message, .. } => assert!(message.contains("missing field")),
        Outcome::Value(_) => unreachable!(),
    }
}
