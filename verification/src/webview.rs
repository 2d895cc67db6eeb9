//! The webview side of the protocol: which requests of the custom protocol
//! belong to the library, and the conversation state that decides, for each
//! request and each message, whether to answer, hold or forward.

use crate::batch::{prelude_words, with_prelude, RuntimeState};
use crate::ipc::{frame_bytes, lemma_frame_roundtrip, parse_frame, DecodedData, MessageType, Wire};
use crate::text::{occurs_at, trim_char_end, trim_char_start};
use base64::Engine;
use vstd::prelude::*;

verus! {

/// `s` starts with `p`.
pub open spec fn has_prefix(s: Seq<char>, p: Seq<char>) -> bool {
    occurs_at(s, p, 0)
}

/// The page prefix of the protocol on most platforms: `{protocol}://index.html`.
pub open spec fn protocol_prefix(protocol: Seq<char>) -> Seq<char> {
    protocol + "://index.html"@
}

/// The page prefix on Windows: `http://{protocol}.index.html`.
pub open spec fn windows_prefix(protocol: Seq<char>) -> Seq<char> {
    "http://"@ + protocol + ".index.html"@
}

/// The page prefix on Android: `https://{protocol}.index.html`.
pub open spec fn android_prefix(protocol: Seq<char>) -> Seq<char> {
    "https://"@ + protocol + ".index.html"@
}

/// `uri` without the first page prefix it starts with, tried in the order
/// protocol, Windows, Android; `uri` itself when it starts with none.
pub open spec fn strip_page_prefix(protocol: Seq<char>, uri: Seq<char>) -> Seq<char> {
    if has_prefix(uri, protocol_prefix(protocol)) {
        uri.skip(protocol_prefix(protocol).len() as int)
    } else if has_prefix(uri, windows_prefix(protocol)) {
        uri.skip(windows_prefix(protocol).len() as int)
    } else if has_prefix(uri, android_prefix(protocol)) {
        uri.skip(android_prefix(protocol).len() as int)
    } else {
        uri
    }
}

/// The path a request names: the URI without its page prefix and without
/// surrounding slashes, as `str::trim_matches('/')`.
pub open spec fn request_path(protocol: Seq<char>, uri: Seq<char>) -> Seq<char> {
    trim_char_end(trim_char_start(strip_page_prefix(protocol, uri), '/'), '/')
}

/// What a request of the custom protocol asks for.
pub enum Route {
    /// Not a request of this library: the caller answers it.
    Unhandled,
    /// An inline JavaScript module, by its path under `__wbg__/snippets/`.
    Snippet(String),
    /// The initialization script, `__wbg__/init.js`.
    InitScript,
    /// The webview finished loading, `__wbg__/initialized`.
    Initialized,
    /// An IPC message from JavaScript, `__wbg__/handler`.
    Handler,
}

/// A `Route` with its module path as characters.
pub enum RouteView {
    Unhandled,
    Snippet(Seq<char>),
    InitScript,
    Initialized,
    Handler,
}

impl View for Route {
    type V = RouteView;

    open spec fn view(&self) -> RouteView {
        match self {
            Route::Unhandled => RouteView::Unhandled,
            Route::Snippet(p) => RouteView::Snippet(p@),
            Route::InitScript => RouteView::InitScript,
            Route::Initialized => RouteView::Initialized,
            Route::Handler => RouteView::Handler,
        }
    }
}

/// The route of a request path: everything the library serves lies under
/// `__wbg__/`; any other path, and any unknown path under it, is left to the
/// caller.
pub open spec fn route_of_path(path: Seq<char>) -> RouteView {
    if !has_prefix(path, "__wbg__/"@) {
        RouteView::Unhandled
    } else {
        let rest = path.skip("__wbg__/"@.len() as int);
        if has_prefix(rest, "snippets/"@) {
            RouteView::Snippet(rest.skip("snippets/"@.len() as int))
        } else if rest == "init.js"@ {
            RouteView::InitScript
        } else if rest == "initialized"@ {
            RouteView::Initialized
        } else if rest == "handler"@ {
            RouteView::Handler
        } else {
            RouteView::Unhandled
        }
    }
}

/// Whether `s[from..]` starts with `p`.
fn starts_with_at(s: &str, from: usize, p: &str) -> (r: bool)
    requires
        from <= s@.len(),
    ensures
        r == has_prefix(s@.skip(from as int), p@),
{
    let n = s.unicode_len();
    let m = p.unicode_len();
    if n - from < m {
        return false;
    }
    let mut k: usize = 0;
    while k < m
        invariant
            n == s@.len(),
            m == p@.len(),
            from + m <= n,
            k <= m,
            forall|j: int| 0 <= j < k ==> s@[from + j] == p@[j],
        decreases m - k,
    {
        if s.get_char(from + k) != p.get_char(k) {
            assert(s@.skip(from as int).subrange(0, m as int)[k as int] != p@[k as int]);
            return false;
        }
        k = k + 1;
    }
    assert(s@.skip(from as int).subrange(0, m as int) =~= p@);
    true
}

/// Whether `s[from..to]` is exactly `p`.
fn range_equals(s: &str, from: usize, to: usize, p: &str) -> (r: bool)
    requires
        from <= to <= s@.len(),
    ensures
        r == (s@.subrange(from as int, to as int) == p@),
{
    let m = p.unicode_len();
    if to - from != m {
        return false;
    }
    let mut k: usize = 0;
    while k < m
        invariant
            to <= s@.len(),
            m == p@.len(),
            from + m == to,
            k <= m,
            forall|j: int| 0 <= j < k ==> s@[from + j] == p@[j],
        decreases m - k,
    {
        if s.get_char(from + k) != p.get_char(k) {
            assert(s@.subrange(from as int, to as int)[k as int] != p@[k as int]);
            return false;
        }
        k = k + 1;
    }
    assert(s@.subrange(from as int, to as int) =~= p@);
    true
}

/// Where `s[from..]` continues after a leading `prefix + middle + suffix`,
/// if it starts with it.
fn skip_joined(s: &str, prefix: &str, middle: &str, suffix: &str) -> (r: Option<usize>)
    ensures
        match r {
            Some(i) => has_prefix(s@, prefix@ + middle@ + suffix@) && i == (prefix@ + middle@
                + suffix@).len(),
            None => !has_prefix(s@, prefix@ + middle@ + suffix@),
        },
{
    let ghost whole = prefix@ + middle@ + suffix@;
    let n = s.unicode_len();
    if !starts_with_at(s, 0, prefix) {
        proof {
            if has_prefix(s@, whole) {
                assert(s@.skip(0).subrange(0, prefix@.len() as int) =~= whole.subrange(
                    0,
                    prefix@.len() as int,
                ));
                assert(whole.subrange(0, prefix@.len() as int) =~= prefix@);
            }
        }
        return None;
    }
    let a = prefix.unicode_len();
    if !starts_with_at(s, a, middle) {
        proof {
            if has_prefix(s@, whole) {
                assert(s@.skip(a as int).subrange(0, middle@.len() as int) =~= whole.subrange(
                    a as int,
                    a + middle@.len(),
                ));
                assert(whole.subrange(a as int, a + middle@.len()) =~= middle@);
            }
        }
        return None;
    }
    let b = a + middle.unicode_len();
    if !starts_with_at(s, b, suffix) {
        proof {
            if has_prefix(s@, whole) {
                assert(s@.skip(b as int).subrange(0, suffix@.len() as int) =~= whole.subrange(
                    b as int,
                    b + suffix@.len(),
                ));
                assert(whole.subrange(b as int, b + suffix@.len()) =~= suffix@);
            }
        }
        return None;
    }
    let c = b + suffix.unicode_len();
    assert(s@.subrange(0, c as int) =~= whole) by {
        assert forall|j: int| 0 <= j < c implies s@.subrange(0, c as int)[j] == whole[j] by {
            if j < a {
                assert(s@.skip(0).subrange(0, a as int)[j] == prefix@[j]);
            } else if j < b {
                assert(s@.skip(a as int).subrange(0, middle@.len() as int)[j - a] == middle@[j - a]);
            } else {
                assert(s@.skip(b as int).subrange(0, suffix@.len() as int)[j - b] == suffix@[j
                    - b]);
            }
        }
    }
    Some(c)
}

/// The route of a request of the custom protocol `protocol` for `uri`:
/// the page prefix is dropped, then surrounding slashes, then the path
/// under `__wbg__/` picks the route.
pub fn route_request(protocol: &str, uri: &str) -> (r: Route)
    ensures
        r@ == route_of_path(request_path(protocol@, uri@)),
{
    let n = uri.unicode_len();
    let start: usize = match skip_joined(uri, "", protocol, "://index.html") {
        Some(i) => {
            assert(""@ + protocol@ + "://index.html"@ =~= protocol_prefix(protocol@)) by {
                reveal_strlit("");
            }
            i
        },
        None => {
            assert(""@ + protocol@ + "://index.html"@ =~= protocol_prefix(protocol@)) by {
                reveal_strlit("");
            }
            match skip_joined(uri, "http://", protocol, ".index.html") {
                Some(i) => i,
                None => match skip_joined(uri, "https://", protocol, ".index.html") {
                    Some(i) => i,
                    None => 0,
                },
            }
        },
    };
    assert(uri@.skip(start as int) == strip_page_prefix(protocol@, uri@));
    let mut a = start;
    while a < n && uri.get_char(a) == '/'
        invariant
            start <= a <= n == uri@.len(),
            trim_char_start(uri@.subrange(a as int, n as int), '/') == trim_char_start(
                uri@.skip(start as int),
                '/',
            ),
        decreases n - a,
    {
        assert(uri@.subrange(a as int, n as int).skip(1) =~= uri@.subrange(a + 1, n as int));
        a = a + 1;
    }
    proof {
        assert(uri@.skip(start as int) =~= uri@.subrange(start as int, n as int));
        assert(trim_char_start(uri@.subrange(a as int, n as int), '/') == uri@.subrange(
            a as int,
            n as int,
        ));
    }
    let mut b = n;
    while b > a && uri.get_char(b - 1) == '/'
        invariant
            a <= b <= n == uri@.len(),
            trim_char_end(uri@.subrange(a as int, b as int), '/') == trim_char_end(
                uri@.subrange(a as int, n as int),
                '/',
            ),
        decreases b - a,
    {
        assert(uri@.subrange(a as int, b as int).drop_last() =~= uri@.subrange(a as int, b - 1));
        b = b - 1;
    }
    let ghost path = uri@.subrange(a as int, b as int);
    assert(path == request_path(protocol@, uri@));
    let wbg = "__wbg__/";
    proof {
        reveal_strlit("__wbg__/");
        reveal_strlit("snippets/");
    }
    let tail = uri.substring_char(a, b);
    if !starts_with_at(tail, 0, wbg) {
        assert(tail@.skip(0) =~= path);
        return Route::Unhandled;
    }
    assert(tail@.skip(0) =~= path);
    let c = a + 8;
    let rest = uri.substring_char(c, b);
    assert(rest@ =~= path.skip(8));
    if starts_with_at(rest, 0, "snippets/") {
        assert(rest@.skip(0) =~= rest@);
        let module = rest.substring_char(9, rest.unicode_len());
        assert(module@ =~= rest@.skip(9));
        return Route::Snippet(String::from_str(module));
    }
    assert(rest@.skip(0) =~= rest@);
    if range_equals(uri, c, b, "init.js") {
        Route::InitScript
    } else if range_equals(uri, c, b, "initialized") {
        Route::Initialized
    } else if range_equals(uri, c, b, "handler") {
        Route::Handler
    } else {
        Route::Unhandled
    }
}


/// The message type a message's bytes announce: the first byte of its byte
/// stream.
pub open spec fn type_of_byte(b: u8) -> Option<MessageType> {
    if b == 0 {
        Some(MessageType::Evaluate)
    } else if b == 1 {
        Some(MessageType::Respond)
    } else {
        None
    }
}

/// The type of the message framed in `bytes`, if the frame is well formed and
/// its byte stream starts with a known type.
pub open spec fn message_type(bytes: Seq<u8>) -> Option<MessageType> {
    match parse_frame(bytes) {
        Some(w) => if w.u8s.len() > 0 {
            type_of_byte(w.u8s[0])
        } else {
            None
        },
        None => None,
    }
}

/// The type of the message framed in `bytes`.
pub fn message_type_of(bytes: &[u8]) -> (r: Option<MessageType>)
    ensures
        r == message_type(bytes@),
{
    match DecodedData::from_bytes(bytes) {
        Ok(mut d) => match d.take_u8() {
            Ok(b) => MessageType::from_u8(b),
            Err(_) => None,
        },
        Err(_) => None,
    }
}

/// The text the standard base64 engine (standard alphabet, with padding)
/// makes of `bytes`.
pub uninterp spec fn base64_standard(bytes: Seq<u8>) -> Seq<char>;

/// The length of the padded base64 text of `n` bytes.
pub open spec fn base64_len(n: nat) -> nat {
    4 * ((n + 2) / 3)
}

/// A character of the standard base64 alphabet, or the padding `=`.
pub open spec fn is_base64_char(c: char) -> bool {
    ||| ('A' <= c && c <= 'Z')
    ||| ('a' <= c && c <= 'z')
    ||| ('0' <= c && c <= '9')
    ||| c == '+'
    ||| c == '/'
    ||| c == '='
}

/// `base64::engine::general_purpose::STANDARD.encode`: the padded base64 text
/// of `bytes`, `4 * ceil(n / 3)` characters of the standard alphabet and `=`.
/// It panics when that length overflows `usize`, which `requires` leaves out.
#[verifier::external_body]
fn encode_base64(bytes: &[u8]) -> (s: String)
    requires
        base64_len(bytes@.len()) <= usize::MAX,
    ensures
        s@ == base64_standard(bytes@),
        s@.len() == base64_len(bytes@.len()),
        forall|i: int| 0 <= i < s@.len() ==> is_base64_char(#[trigger] s@[i]),
{
    base64::engine::general_purpose::STANDARD.encode(bytes)
}

/// The script that hands a message, as base64 text, to the JavaScript side.
pub open spec fn evaluate_call(encoded: Seq<char>) -> Seq<char> {
    "window.evaluate_from_rust_binary(\""@ + encoded + "\")"@
}

/// The script that hands the base64 text `encoded` to the JavaScript side.
pub fn evaluate_script_text(encoded: &str) -> (s: String)
    ensures
        s@ == evaluate_call(encoded@),
{
    let mut s = String::from_str("window.evaluate_from_rust_binary(\"");
    s.append(encoded);
    s.append("\")");
    s
}

/// What the webview side does with a message from Rust.
pub enum WebviewAction {
    /// Answer the held JavaScript request with this body (the message as base64).
    RespondToRequest(String),
    /// Evaluate this script in the webview.
    EvaluateScript(String),
}

/// A `WebviewAction` with its text as characters.
pub enum ActionView {
    RespondToRequest(Seq<char>),
    EvaluateScript(Seq<char>),
}

impl View for WebviewAction {
    type V = ActionView;

    open spec fn view(&self) -> ActionView {
        match self {
            WebviewAction::RespondToRequest(s) => ActionView::RespondToRequest(s@),
            WebviewAction::EvaluateScript(s) => ActionView::EvaluateScript(s@),
        }
    }
}

/// The view of an optional action.
pub open spec fn opt_view(a: Option<WebviewAction>) -> Option<ActionView> {
    match a {
        Some(x) => Some(x@),
        None => None,
    }
}

/// The views of a sequence of actions.
pub open spec fn actions_view(v: Seq<WebviewAction>) -> Seq<ActionView> {
    v.map_values(|a: WebviewAction| a@)
}

/// How a request from JavaScript on the handler path is answered.
#[derive(Clone, Copy, Debug, PartialEq, Eq, Structural)]
pub enum JsReply {
    /// Keep the request open; the next message from Rust answers it.
    Hold,
    /// The conversation is over: answer with an empty response now.
    Blank,
}

/// The state of the conversation with one webview.
pub struct ConversationState {
    /// Evaluates sent to JavaScript that it has not answered yet.
    pub pending_js: nat,
    /// Evaluates from JavaScript that Rust has not answered yet.
    pub pending_rust: nat,
    /// A JavaScript request is held open, waiting for Rust.
    pub ongoing: bool,
    /// The webview finished loading.
    pub loaded: bool,
    /// Messages from Rust that wait for the webview to load, oldest first.
    pub queued: Seq<Seq<u8>>,
}

/// `n - 1`, but not below zero.
pub open spec fn saturating_dec(n: nat) -> nat {
    if n == 0 {
        0
    } else {
        (n - 1) as nat
    }
}

/// A message from Rust that the webview side can pass on: a known type, and
/// small enough to be written as base64.
pub open spec fn deliverable(msg: Seq<u8>) -> bool {
    message_type(msg) is Some && base64_len(msg.len()) <= usize::MAX
}

/// Wraps an optional action as a sequence of at most one.
pub open spec fn opt_seq(a: Option<ActionView>) -> Seq<ActionView> {
    match a {
        Some(x) => seq![x],
        None => Seq::empty(),
    }
}

impl ConversationState {
    /// A fresh conversation: nothing pending, nothing held, still loading.
    pub open spec fn initial() -> ConversationState {
        ConversationState {
            pending_js: 0,
            pending_rust: 0,
            ongoing: false,
            loaded: false,
            queued: Seq::empty(),
        }
    }

    /// Messages wait only while loading, and each can be passed on.
    pub open spec fn wf(self) -> bool {
        &&& self.loaded ==> self.queued.len() == 0
        &&& forall|i: int| 0 <= i < self.queued.len() ==> deliverable(#[trigger] self.queued[i])
        &&& self.pending_js <= usize::MAX
        &&& self.pending_rust <= usize::MAX
    }

    /// Whether a request of type `ty` from JavaScript can be taken: it would
    /// not replace a held request, and its count fits.
    pub open spec fn accepts_js(self, ty: MessageType) -> bool {
        match ty {
            MessageType::Evaluate => !self.ongoing && self.pending_rust < usize::MAX,
            MessageType::Respond => (self.pending_rust > 0 || saturating_dec(self.pending_js) > 0)
                ==> !self.ongoing,
        }
    }

    /// A request of type `ty` from JavaScript. An Evaluate is held until Rust
    /// answers. A Respond settles one of Rust's Evaluates; it is held while
    /// either side still waits, and answered blank when nothing is pending.
    pub open spec fn after_js(self, ty: MessageType) -> (ConversationState, JsReply) {
        match ty {
            MessageType::Evaluate => (
                ConversationState { pending_rust: self.pending_rust + 1, ongoing: true, ..self },
                JsReply::Hold,
            ),
            MessageType::Respond => {
                let js = saturating_dec(self.pending_js);
                if self.pending_rust > 0 || js > 0 {
                    (ConversationState { pending_js: js, ongoing: true, ..self }, JsReply::Hold)
                } else {
                    (ConversationState { pending_js: js, ..self }, JsReply::Blank)
                }
            },
        }
    }

    /// A message from Rust, passed on now: it answers the held request if
    /// there is one; otherwise an Evaluate becomes a script for the webview
    /// and a Respond needs nothing more.
    pub open spec fn deliver(self, msg: Seq<u8>) -> (ConversationState, Option<ActionView>) {
        let ty = message_type(msg);
        let s1 = if ty == Some(MessageType::Evaluate) {
            ConversationState { pending_js: self.pending_js + 1, ..self }
        } else {
            ConversationState { pending_rust: saturating_dec(self.pending_rust), ..self }
        };
        if s1.ongoing {
            (
                ConversationState { ongoing: false, ..s1 },
                Some(ActionView::RespondToRequest(base64_standard(msg))),
            )
        } else if ty == Some(MessageType::Evaluate) {
            (s1, Some(ActionView::EvaluateScript(evaluate_call(base64_standard(msg)))))
        } else {
            (s1, None)
        }
    }

    /// Messages from Rust passed on in order, with the actions they cause.
    pub open spec fn deliver_all(self, msgs: Seq<Seq<u8>>) -> (ConversationState, Seq<ActionView>)
        decreases msgs.len(),
    {
        if msgs.len() == 0 {
            (self, Seq::empty())
        } else {
            let (s1, acts) = self.deliver_all(msgs.drop_last());
            let (s2, a) = s1.deliver(msgs.last());
            (s2, acts + opt_seq(a))
        }
    }

    /// A message from Rust: queued while the webview loads, passed on after.
    pub open spec fn after_rust(self, msg: Seq<u8>) -> (ConversationState, Option<ActionView>) {
        if !self.loaded {
            (ConversationState { queued: self.queued.push(msg), ..self }, None)
        } else {
            self.deliver(msg)
        }
    }

    /// The webview finished loading: the queued messages are passed on in
    /// the order they came. A second notice changes nothing.
    pub open spec fn after_loaded(self) -> (ConversationState, Seq<ActionView>) {
        if self.loaded {
            (self, Seq::empty())
        } else {
            ConversationState { loaded: true, queued: Seq::empty(), ..self }.deliver_all(
                self.queued,
            )
        }
    }
}

/// The conversation with one webview: the counts of unanswered calls each
/// way, whether a JavaScript request is held open, and the messages that
/// wait for the webview to load.
pub struct Conversation {
    pending_js_evaluates: usize,
    pending_rust_evaluates: usize,
    ongoing_request: bool,
    loaded: bool,
    queued: Vec<Vec<u8>>,
}

impl Conversation {
    pub closed spec fn state(&self) -> ConversationState {
        ConversationState {
            pending_js: self.pending_js_evaluates as nat,
            pending_rust: self.pending_rust_evaluates as nat,
            ongoing: self.ongoing_request,
            loaded: self.loaded,
            queued: self.queued@.map_values(|m: Vec<u8>| m@),
        }
    }
}

impl View for Conversation {
    type V = ConversationState;

    open spec fn view(&self) -> ConversationState {
        self.state()
    }
}

impl Conversation {
    /// A conversation with a webview that is still loading.
    pub fn new() -> (c: Self)
        ensures
            c@ == ConversationState::initial(),
            c@.wf(),
    {
        let c = Conversation {
            pending_js_evaluates: 0,
            pending_rust_evaluates: 0,
            ongoing_request: false,
            loaded: false,
            queued: Vec::new(),
        };
        assert(c@.queued =~= Seq::<Seq<u8>>::empty());
        c
    }

    /// Evaluates sent to JavaScript and not answered yet.
    pub fn pending_js_evaluates(&self) -> (n: usize)
        ensures
            n == self@.pending_js,
    {
        self.pending_js_evaluates
    }

    /// Evaluates from JavaScript that Rust has not answered yet.
    pub fn pending_rust_evaluates(&self) -> (n: usize)
        ensures
            n == self@.pending_rust,
    {
        self.pending_rust_evaluates
    }

    /// Whether a JavaScript request is held open.
    pub fn has_pending_request(&self) -> (r: bool)
        ensures
            r == self@.ongoing,
    {
        self.ongoing_request
    }

    /// Whether the webview finished loading.
    pub fn is_loaded(&self) -> (r: bool)
        ensures
            r == self@.loaded,
    {
        self.loaded
    }

    /// How many messages from Rust wait for the webview to load.
    pub fn queued_len(&self) -> (n: usize)
        ensures
            n == self@.queued.len(),
    {
        self.queued.len()
    }

    /// Whether a request of type `ty` from JavaScript can be taken now.
    pub fn accepts_js_request(&self, ty: MessageType) -> (r: bool)
        ensures
            r == self@.accepts_js(ty),
    {
        match ty {
            MessageType::Evaluate => !self.ongoing_request && self.pending_rust_evaluates
                < usize::MAX,
            MessageType::Respond => {
                let js = if self.pending_js_evaluates > 0 {
                    self.pending_js_evaluates - 1
                } else {
                    0
                };
                !(self.pending_rust_evaluates > 0 || js > 0) || !self.ongoing_request
            },
        }
    }

    /// A request of type `ty` arrived from JavaScript on the handler path.
    /// The caller forwards the message to the application either way; the
    /// reply says whether to hold the request or answer it blank now.
    pub fn js_request(&mut self, ty: MessageType) -> (r: JsReply)
        requires
            old(self)@.wf(),
            old(self)@.accepts_js(ty),
        ensures
            (final(self)@, r) == old(self)@.after_js(ty),
            final(self)@.wf(),
    {
        match ty {
            MessageType::Evaluate => {
                self.pending_rust_evaluates = self.pending_rust_evaluates + 1;
                self.ongoing_request = true;
                JsReply::Hold
            },
            MessageType::Respond => {
                if self.pending_js_evaluates > 0 {
                    self.pending_js_evaluates = self.pending_js_evaluates - 1;
                }
                if self.pending_rust_evaluates > 0 || self.pending_js_evaluates > 0 {
                    self.ongoing_request = true;
                    JsReply::Hold
                } else {
                    JsReply::Blank
                }
            },
        }
    }

    /// Pass a message from Rust on now.
    fn deliver(&mut self, msg: Vec<u8>) -> (a: Option<WebviewAction>)
        requires
            deliverable(msg@),
            old(self)@.pending_js < usize::MAX,
        ensures
            (final(self)@, opt_view(a)) == old(self)@.deliver(msg@),
            final(self).queued@ == old(self).queued@,
            final(self).loaded == old(self).loaded,
    {
        let ty = message_type_of(msg.as_slice());
        let is_evaluate = match ty {
            Some(MessageType::Evaluate) => true,
            _ => false,
        };
        if is_evaluate {
            self.pending_js_evaluates = self.pending_js_evaluates + 1;
        } else if self.pending_rust_evaluates > 0 {
            self.pending_rust_evaluates = self.pending_rust_evaluates - 1;
        }
        if self.ongoing_request {
            self.ongoing_request = false;
            let body = encode_base64(msg.as_slice());
            Some(WebviewAction::RespondToRequest(body))
        } else if is_evaluate {
            let encoded = encode_base64(msg.as_slice());
            Some(WebviewAction::EvaluateScript(evaluate_script_text(encoded.as_str())))
        } else {
            None
        }
    }

    /// A message from Rust for this webview: queued while the webview loads,
    /// passed on once it has loaded.
    pub fn rust_message(&mut self, msg: Vec<u8>) -> (a: Option<WebviewAction>)
        requires
            old(self)@.wf(),
            deliverable(msg@),
            old(self)@.pending_js + old(self)@.queued.len() < usize::MAX,
        ensures
            (final(self)@, opt_view(a)) == old(self)@.after_rust(msg@),
            final(self)@.wf(),
    {
        if !self.loaded {
            let ghost m = msg@;
            self.queued.push(msg);
            assert(self@.queued =~= old(self)@.queued.push(m));
            None
        } else {
            self.deliver(msg)
        }
    }

    /// The webview finished loading: pass the queued messages on, oldest
    /// first, and return what they cause.
    pub fn webview_loaded(&mut self) -> (acts: Vec<WebviewAction>)
        requires
            old(self)@.wf(),
            old(self)@.pending_js + old(self)@.queued.len() <= usize::MAX,
        ensures
            (final(self)@, actions_view(acts@)) == old(self)@.after_loaded(),
            final(self)@.wf(),
    {
        let mut acts: Vec<WebviewAction> = Vec::new();
        if self.loaded {
            assert(actions_view(acts@) =~= Seq::<ActionView>::empty());
            return acts;
        }
        let mut queued: Vec<Vec<u8>> = Vec::new();
        std::mem::swap(&mut queued, &mut self.queued);
        self.loaded = true;
        let ghost msgs = queued@.map_values(|m: Vec<u8>| m@);
        let ghost start = ConversationState { loaded: true, queued: Seq::empty(), ..old(self)@ };
        assert(self@ == start) by {
            assert(self@.queued =~= Seq::<Seq<u8>>::empty());
        }
        assert(msgs == old(self)@.queued);
        let n = queued.len();
        let mut i: usize = 0;
        for m in it: queued
            invariant
                n == queued@.len(),
                msgs == queued@.map_values(|m: Vec<u8>| m@),
                it.seq() == queued@,
                old(self)@.wf(),
                msgs == old(self)@.queued,
                old(self)@.pending_js + msgs.len() <= usize::MAX,
                self.loaded,
                self.queued@.len() == 0,
                (self@, actions_view(acts@)) == start.deliver_all(msgs.take(it.index() as int)),
                self@.pending_js <= old(self)@.pending_js + it.index(),
        {
            let ghost k = it.index();
            assert(msgs[k as int] == m@);
            assert(deliverable(msgs[k as int]));
            let ghost before = acts@;
            let a = self.deliver(m);
            assert(msgs.take(k + 1).drop_last() =~= msgs.take(k as int));
            assert(msgs.take(k + 1).last() == msgs[k as int]);
            match a {
                Some(x) => {
                    acts.push(x);
                },
                None => {},
            }
            assert(actions_view(acts@) =~= actions_view(before) + opt_seq(opt_view(a)));
        }
        assert(msgs.take(n as int) =~= msgs);
        acts
    }
}


/// Passing messages on never changes whether the webview has loaded.
proof fn lemma_deliver_all_keeps_loaded(s: ConversationState, msgs: Seq<Seq<u8>>)
    ensures
        s.deliver_all(msgs).0.loaded == s.loaded,
    decreases msgs.len(),
{
    if msgs.len() > 0 {
        lemma_deliver_all_keeps_loaded(s, msgs.drop_last());
    }
}

/// Law: queueing while the webview loads is invisible. A message that comes
/// from Rust before the load notice causes, once the webview has loaded,
/// exactly what it would have caused had it come right after the notice:
/// the same final state, and its action after those of the earlier messages.
pub proof fn lemma_queueing_is_transparent(s: ConversationState, msg: Seq<u8>)
    requires
        !s.loaded,
    ensures
        ({
            let (loaded, acts) = s.after_loaded();
            let (after, a) = loaded.after_rust(msg);
            s.after_rust(msg).0.after_loaded() == (after, acts + opt_seq(a))
        }),
{
    let base = ConversationState { loaded: true, queued: Seq::empty(), ..s };
    let q = s.queued.push(msg);
    assert(q.drop_last() =~= s.queued);
    lemma_deliver_all_keeps_loaded(base, s.queued);
}

/// Law: a message taken from a batch that began as an Evaluate announces
/// itself as an Evaluate to the webview side.
pub proof fn lemma_taken_message_is_evaluate<O>(s: RuntimeState<O>)
    requires
        s.message_fits(),
        s.encoder.wire.u8s.len() > 0,
        s.encoder.wire.u8s[0] == MessageType::Evaluate.byte(),
    ensures
        message_type(s.message_bytes()) == Some(MessageType::Evaluate),
{
    lemma_frame_roundtrip(
        with_prelude(
            s.encoder.wire,
            prelude_words(s.ids.heap.pending, Some(s.ids.heap.reserved)),
        ),
    );
}

/// Law: a response built on a Respond encoder announces itself as a
/// Respond to the webview side.
pub proof fn lemma_response_is_respond(w: Wire, pending: Seq<u64>)
    requires
        w.u8s.len() > 0,
        w.u8s[0] == MessageType::Respond.byte(),
        with_prelude(w, prelude_words(pending, None)).byte_len() <= u32::MAX,
    ensures
        message_type(frame_bytes(with_prelude(w, prelude_words(pending, None)))) == Some(
            MessageType::Respond,
        ),
{
    lemma_frame_roundtrip(with_prelude(w, prelude_words(pending, None)));
}

/// A loaded conversation with nothing pending either way and no request held.
pub open spec fn is_quiet(s: ConversationState) -> bool {
    &&& s.loaded
    &&& s.pending_js == 0
    &&& s.pending_rust == 0
    &&& !s.ongoing
}

/// Law: a call from JavaScript that Rust answers leaves a quiet conversation
/// as it was, and the held request is answered with the answer's bytes.
pub proof fn lemma_js_call_round_trip(s: ConversationState, answer: Seq<u8>)
    requires
        is_quiet(s),
        message_type(answer) == Some(MessageType::Respond),
    ensures
        ({
            let (held, reply) = s.after_js(MessageType::Evaluate);
            let (after, action) = held.after_rust(answer);
            &&& reply == JsReply::Hold
            &&& action == Some(ActionView::RespondToRequest(base64_standard(answer)))
            &&& after == s
        }),
{
}

/// Law: a call from Rust that JavaScript answers leaves a quiet conversation
/// as it was: the call becomes a script, and the answer is acknowledged
/// with an empty response.
pub proof fn lemma_rust_call_round_trip(s: ConversationState, call: Seq<u8>)
    requires
        is_quiet(s),
        message_type(call) == Some(MessageType::Evaluate),
    ensures
        ({
            let (sent, action) = s.after_rust(call);
            let (after, reply) = sent.after_js(MessageType::Respond);
            &&& action == Some(ActionView::EvaluateScript(evaluate_call(base64_standard(call))))
            &&& reply == JsReply::Blank
            &&& after == s
        }),
{
}

} // verus!
