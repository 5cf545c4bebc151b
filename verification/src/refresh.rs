//! The decisions of the background node refresh: when a refresh may start,
//! and what each answer of the worker does to the status line.

use vstd::prelude::*;
use crate::i18n::{fill, lookup_text, I18n};
use crate::status::{source_status_key, status_key_id, RefreshError, StatusKey, UiStatus};
use crate::text::decimal;

verus! {

/// What polling the refresh worker found.
pub enum RefreshEvent {
    /// The worker found this many nodes.
    Loaded(usize),
    /// The worker failed.
    Failed(RefreshError),
    /// The worker has not answered yet.
    Pending,
    /// The worker went away without an answer.
    Disconnected,
}

/// Whether a refresh is running.
pub struct RefreshFlow {
    inflight: bool,
}

impl RefreshFlow {
    /// No refresh running.
    pub fn new() -> (flow: RefreshFlow)
        ensures
            !flow.is_inflight_spec(),
    {
        RefreshFlow { inflight: false }
    }

    /// A refresh is running.
    pub closed spec fn is_inflight_spec(&self) -> bool {
        self.inflight
    }

    /// Whether a refresh is running.
    pub fn is_inflight(&self) -> (running: bool)
        ensures
            running == self.is_inflight_spec(),
    {
        self.inflight
    }

    /// Starts a refresh unless one is running; returns whether the caller
    /// should launch the worker. A started refresh that `updates_status`
    /// says so in the status line.
    pub fn start(&mut self, updates_status: bool, status: &mut UiStatus, i18n: &I18n) -> (launch:
        bool)
        ensures
            launch == !old(self).is_inflight_spec(),
            final(self).is_inflight_spec(),
            launch && updates_status ==> final(status)@ == lookup_text(
                i18n@,
                status_key_id(StatusKey::RefreshingNodes),
            ),
            !(launch && updates_status) ==> final(status)@ == old(status)@,
    {
        if self.inflight {
            return false;
        }
        self.inflight = true;
        if updates_status {
            status.set_refreshing(i18n);
        }
        true
    }

    /// Takes in what polling the worker found; returns whether the caller
    /// should install the nodes the worker found. Without a running refresh
    /// there is nothing to take in.
    pub fn poll(&mut self, event: RefreshEvent, status: &mut UiStatus, i18n: &I18n) -> (install:
        bool)
        ensures
            !old(self).is_inflight_spec() ==> !install && !final(self).is_inflight_spec()
                && final(status)@ == old(status)@,
            old(self).is_inflight_spec() ==> install == (event is Loaded),
            old(self).is_inflight_spec() ==> final(self).is_inflight_spec() == (event is Pending),
            old(self).is_inflight_spec() ==> match event {
                RefreshEvent::Loaded(count) => final(status)@ == fill(
                    lookup_text(i18n@, status_key_id(StatusKey::LoadedNodes)),
                    seq![("count"@, decimal(count as nat))],
                ),
                RefreshEvent::Failed(error) => final(status)@ == fill(
                    lookup_text(i18n@, status_key_id(StatusKey::RefreshFailed)),
                    seq![
                        (
                            "source"@,
                            lookup_text(i18n@, status_key_id(source_status_key(error.source))),
                        ),
                        ("error"@, error.message@),
                    ],
                ),
                RefreshEvent::Pending => final(status)@ == old(status)@,
                RefreshEvent::Disconnected => final(status)@ == lookup_text(
                    i18n@,
                    status_key_id(StatusKey::RefreshDisconnected),
                ),
            },
    {
        if !self.inflight {
            return false;
        }
        match event {
            RefreshEvent::Loaded(count) => {
                self.inflight = false;
                status.set_loaded_nodes(i18n, count);
                true
            },
            RefreshEvent::Failed(error) => {
                self.inflight = false;
                status.set_refresh_failed(i18n, error);
                false
            },
            RefreshEvent::Pending => false,
            RefreshEvent::Disconnected => {
                self.inflight = false;
                status.set_refresh_disconnected(i18n);
                false
            },
        }
    }
}

} // verus!
