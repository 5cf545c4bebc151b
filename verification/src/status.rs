//! The status line of the desktop front end and the translation keys of
//! its messages.

use vstd::prelude::*;
use crate::i18n::{fill, lookup_text, I18n};
use crate::text::{decimal, decimal_string};

verus! {

/// The status messages, each with its translation key.
#[derive(Clone, Copy, PartialEq, Eq, Debug)]
pub enum StatusKey {
    Ready,
    RefreshingNodes,
    LoadedNodes,
    RefreshFailed,
    RefreshDisconnected,
    SceneApplied,
    DoctorMessage,
    RefreshErrorSourceNodeDiscovery,
}

/// The translation key of a status message.
pub open spec fn status_key_id(key: StatusKey) -> Seq<char> {
    match key {
        StatusKey::Ready => "status.ready"@,
        StatusKey::RefreshingNodes => "status.refreshing_nodes"@,
        StatusKey::LoadedNodes => "status.loaded_nodes"@,
        StatusKey::RefreshFailed => "status.refresh_failed"@,
        StatusKey::RefreshDisconnected => "status.refresh_disconnected"@,
        StatusKey::SceneApplied => "status.scene_applied"@,
        StatusKey::DoctorMessage => "doctor.message"@,
        StatusKey::RefreshErrorSourceNodeDiscovery => "status.refresh_error_source.node_discovery"@,
    }
}

impl StatusKey {
    /// The translation key of this message.
    pub fn as_str(&self) -> (id: &'static str)
        ensures
            id@ == status_key_id(*self),
    {
        match self {
            StatusKey::Ready => "status.ready",
            StatusKey::RefreshingNodes => "status.refreshing_nodes",
            StatusKey::LoadedNodes => "status.loaded_nodes",
            StatusKey::RefreshFailed => "status.refresh_failed",
            StatusKey::RefreshDisconnected => "status.refresh_disconnected",
            StatusKey::SceneApplied => "status.scene_applied",
            StatusKey::DoctorMessage => "doctor.message",
            StatusKey::RefreshErrorSourceNodeDiscovery => "status.refresh_error_source.node_discovery",
        }
    }
}

/// Where a failed refresh failed.
#[derive(Clone, Copy, PartialEq, Eq, Debug)]
pub enum RefreshErrorSource {
    NodeDiscovery,
}

/// The status message that names where a refresh failed.
pub open spec fn source_status_key(source: RefreshErrorSource) -> StatusKey {
    match source {
        RefreshErrorSource::NodeDiscovery => StatusKey::RefreshErrorSourceNodeDiscovery,
    }
}

impl RefreshErrorSource {
    /// The status message that names this source.
    pub fn status_key(&self) -> (key: StatusKey)
        ensures
            key == source_status_key(*self),
    {
        match self {
            RefreshErrorSource::NodeDiscovery => StatusKey::RefreshErrorSourceNodeDiscovery,
        }
    }
}

/// A failed refresh: where it failed and the error's own message.
#[derive(Clone, Debug)]
pub struct RefreshError {
    pub source: RefreshErrorSource,
    pub message: String,
}

impl RefreshError {
    /// A failure of node discovery with `message`.
    pub fn node_discovery(message: String) -> (error: RefreshError)
        ensures
            error.source == RefreshErrorSource::NodeDiscovery,
            error.message == message,
    {
        RefreshError { source: RefreshErrorSource::NodeDiscovery, message }
    }
}

/// The message the status bar shows.
pub struct UiStatus {
    message: String,
}

impl View for UiStatus {
    type V = Seq<char>;

    closed spec fn view(&self) -> Seq<char> {
        self.message@
    }
}

impl UiStatus {
    /// The status of a fresh session: ready.
    pub fn new(i18n: &I18n) -> (status: UiStatus)
        ensures
            status@ == lookup_text(i18n@, status_key_id(StatusKey::Ready)),
    {
        UiStatus { message: i18n.text(StatusKey::Ready.as_str()) }
    }

    /// A node refresh has started.
    pub fn set_refreshing(&mut self, i18n: &I18n)
        ensures
            final(self)@ == lookup_text(i18n@, status_key_id(StatusKey::RefreshingNodes)),
    {
        self.message = i18n.text(StatusKey::RefreshingNodes.as_str());
    }

    /// A refresh found `count` nodes.
    pub fn set_loaded_nodes(&mut self, i18n: &I18n, count: usize)
        ensures
            final(self)@ == fill(
                lookup_text(i18n@, status_key_id(StatusKey::LoadedNodes)),
                seq![("count"@, decimal(count as nat))],
            ),
    {
        let placeholders = [("count", decimal_string(count as u64))];
        self.message = i18n.text_with(StatusKey::LoadedNodes.as_str(), &placeholders);
        proof {
            reveal_strlit("count");
            assert(crate::i18n::placeholder_views(placeholders@) =~= seq![("count"@, decimal(count as nat))]);
        }
    }

    /// A refresh failed with `error`: the message names the failed part in
    /// the current language (`{{source}}`) and gives the error's own text
    /// (`{{error}}`).
    pub fn set_refresh_failed(&mut self, i18n: &I18n, error: RefreshError)
        ensures
            final(self)@ == fill(
                lookup_text(i18n@, status_key_id(StatusKey::RefreshFailed)),
                seq![
                    ("source"@, lookup_text(i18n@, status_key_id(source_status_key(error.source)))),
                    ("error"@, error.message@),
                ],
            ),
    {
        let source = i18n.text(error.source.status_key().as_str());
        let placeholders = [("source", source), ("error", error.message)];
        self.message = i18n.text_with(StatusKey::RefreshFailed.as_str(), &placeholders);
        proof {
            assert(crate::i18n::placeholder_views(placeholders@) =~= seq![
                ("source"@, lookup_text(i18n@, status_key_id(source_status_key(error.source)))),
                ("error"@, error.message@),
            ]);
        }
    }

    /// The refresh worker went away without an answer.
    pub fn set_refresh_disconnected(&mut self, i18n: &I18n)
        ensures
            final(self)@ == lookup_text(i18n@, status_key_id(StatusKey::RefreshDisconnected)),
    {
        self.message = i18n.text(StatusKey::RefreshDisconnected.as_str());
    }

    /// The doctor button was pressed.
    pub fn set_doctor_message(&mut self, i18n: &I18n)
        ensures
            final(self)@ == lookup_text(i18n@, status_key_id(StatusKey::DoctorMessage)),
    {
        self.message = i18n.text(StatusKey::DoctorMessage.as_str());
    }

    /// The message shown.
    pub fn text(&self) -> (text: &str)
        ensures
            text@ == self@,
    {
        self.message.as_str()
    }
}

} // verus!
