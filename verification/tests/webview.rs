use wry_bindgen::batch::{respond_encoder, Runtime};
use wry_bindgen::ipc::{EncodedData, MessageType};
use wry_bindgen::webview::{
    evaluate_script_text, message_type_of, route_request, Conversation, JsReply, Route, WebviewAction,
};

fn message(ty: u8) -> Vec<u8> {
    let mut e = EncodedData::new();
    e.push_u8(ty);
    e.to_bytes()
}

fn route(uri: &str) -> Route {
    route_request("wry", uri)
}

#[test]
fn routes_the_handler_on_every_platform_prefix() {
    assert!(matches!(route("wry://index.html/__wbg__/handler"), Route::Handler));
    assert!(matches!(route("http://wry.index.html/__wbg__/handler"), Route::Handler));
    assert!(matches!(route("https://wry.index.html/__wbg__/handler"), Route::Handler));
}

#[test]
fn routes_init_script_and_load_notice() {
    assert!(matches!(route("wry://index.html/__wbg__/init.js"), Route::InitScript));
    assert!(matches!(route("wry://index.html/__wbg__/initialized"), Route::Initialized));
}

#[test]
fn trims_slashes_around_the_path() {
    assert!(matches!(route("wry://index.html///__wbg__/handler//"), Route::Handler));
}

#[test]
fn routes_snippets_by_their_path() {
    match route("wry://index.html/__wbg__/snippets/crate-1/inline0.js") {
        Route::Snippet(p) => assert_eq!(p, "crate-1/inline0.js"),
        _ => panic!("expected a snippet route"),
    }
}

#[test]
fn leaves_other_requests_to_the_caller() {
    assert!(matches!(route("wry://index.html/index.html"), Route::Unhandled));
    assert!(matches!(route("wry://index.html/__wbg__/unknown"), Route::Unhandled));
    assert!(matches!(route("other://index.html/__wbg__/handler"), Route::Unhandled));
    assert!(matches!(route("wry://index.html/__wbg__"), Route::Unhandled));
}

#[test]
fn a_uri_without_page_prefix_is_routed_by_its_path() {
    assert!(matches!(route("/__wbg__/handler"), Route::Handler));
}

#[test]
fn reads_the_message_type_from_the_frame() {
    assert_eq!(message_type_of(&message(0)), Some(MessageType::Evaluate));
    assert_eq!(message_type_of(&message(1)), Some(MessageType::Respond));
    assert_eq!(message_type_of(&message(2)), None);
    assert_eq!(message_type_of(&[1, 2, 3]), None);
    assert_eq!(message_type_of(&EncodedData::new().to_bytes()), None);
}

#[test]
fn evaluate_script_wraps_the_encoded_text() {
    assert_eq!(evaluate_script_text("QUJD"), "window.evaluate_from_rust_binary(\"QUJD\")");
}

#[test]
fn messages_wait_until_the_webview_loads() {
    let mut c = Conversation::new();
    assert!(c.rust_message(message(0)).is_none());
    assert!(c.rust_message(message(0)).is_none());
    assert_eq!(c.pending_js_evaluates(), 0);
    let acts = c.webview_loaded();
    assert_eq!(acts.len(), 2);
    for a in &acts {
        match a {
            WebviewAction::EvaluateScript(s) => {
                assert_eq!(s, "window.evaluate_from_rust_binary(\"DAAAAAwAAAANAAAAAA==\")")
            }
            _ => panic!("expected a script"),
        }
    }
    assert_eq!(c.pending_js_evaluates(), 2);
    assert!(c.is_loaded());
    assert!(c.webview_loaded().is_empty());
}

#[test]
fn a_held_request_is_answered_with_the_next_message() {
    let mut c = Conversation::new();
    c.webview_loaded();
    assert!(c.accepts_js_request(MessageType::Evaluate));
    assert_eq!(c.js_request(MessageType::Evaluate), JsReply::Hold);
    assert!(c.has_pending_request());
    assert!(!c.accepts_js_request(MessageType::Evaluate));
    assert_eq!(c.pending_rust_evaluates(), 1);
    match c.rust_message(message(1)) {
        Some(WebviewAction::RespondToRequest(body)) => assert_eq!(body, "DAAAAAwAAAANAAAAAQ=="),
        _ => panic!("expected an answer to the held request"),
    }
    assert!(!c.has_pending_request());
    assert_eq!(c.pending_rust_evaluates(), 0);
}

#[test]
fn a_final_respond_from_js_is_answered_blank() {
    let mut c = Conversation::new();
    c.webview_loaded();
    assert!(c.rust_message(message(0)).is_some());
    assert_eq!(c.pending_js_evaluates(), 1);
    assert_eq!(c.js_request(MessageType::Respond), JsReply::Blank);
    assert_eq!(c.pending_js_evaluates(), 0);
    assert!(!c.has_pending_request());
}

#[test]
fn a_respond_is_held_while_rust_still_owes_an_answer() {
    let mut c = Conversation::new();
    c.webview_loaded();
    assert_eq!(c.js_request(MessageType::Evaluate), JsReply::Hold);
    // Rust calls back into JS while answering: the held request carries it.
    match c.rust_message(message(0)) {
        Some(WebviewAction::RespondToRequest(_)) => {}
        _ => panic!("expected the held request to carry the call"),
    }
    assert_eq!(c.pending_js_evaluates(), 1);
    assert_eq!(c.js_request(MessageType::Respond), JsReply::Hold);
    assert_eq!(c.pending_js_evaluates(), 0);
    assert_eq!(c.pending_rust_evaluates(), 1);
}

#[test]
fn a_respond_from_rust_without_held_request_needs_nothing() {
    let mut c = Conversation::new();
    c.webview_loaded();
    assert!(c.rust_message(message(1)).is_none());
    assert_eq!(c.pending_rust_evaluates(), 0);
}

#[test]
fn responses_announce_themselves_as_respond() {
    let mut rt: Runtime<u32> = Runtime::new(1);
    let mut e = respond_encoder();
    e.push_u32(5);
    let msg = rt.finish_respond_message(e);
    assert_eq!(message_type_of(&msg.bytes), Some(MessageType::Respond));
    let (taken, _) = rt.take_message();
    assert_eq!(message_type_of(&taken.bytes), Some(MessageType::Evaluate));
}
