//! Events carried by the application's event loop.

use crate::batch::OutboundMessage;
use vstd::prelude::*;

verus! {

/// What an event carries.
pub enum AppEventVariant {
    /// A message for JavaScript.
    Ipc(OutboundMessage),
    /// The webview finished loading.
    WebviewLoaded,
}

/// An event for the webview with the given id.
pub struct WryBindgenEvent {
    id: u64,
    event: AppEventVariant,
}

impl WryBindgenEvent {
    pub closed spec fn webview(&self) -> u64 {
        self.id
    }

    pub closed spec fn variant(&self) -> AppEventVariant {
        self.event
    }

    /// The webview the event is for.
    pub fn id(&self) -> (r: u64)
        ensures
            r == self.webview(),
    {
        self.id
    }

    /// A message for the webview `id`.
    pub fn ipc(id: u64, msg: OutboundMessage) -> (e: Self)
        ensures
            e.webview() == id,
            e.variant() == AppEventVariant::Ipc(msg),
    {
        WryBindgenEvent { id, event: AppEventVariant::Ipc(msg) }
    }

    /// The webview `id` finished loading.
    pub fn webview_loaded(id: u64) -> (e: Self)
        ensures
            e.webview() == id,
            e.variant() is WebviewLoaded,
    {
        WryBindgenEvent { id, event: AppEventVariant::WebviewLoaded }
    }

    /// What the event carries.
    pub fn into_variant(self) -> (v: AppEventVariant)
        ensures
            v == self.variant(),
    {
        self.event
    }
}

} // verus!
