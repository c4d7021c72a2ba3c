//! The persisted record for one monitored URL, and the internal report
//! message consumed by the alert batcher.

use vstd::prelude::*;
use crate::status::Status;

verus! {

/// The value persisted for one URL. `url` is transient: it is not written to
/// the store, and is attached only when a record is emitted outward. `data`
/// is the client-supplied JSON blob, held verbatim as its JSON text.
#[derive(Debug, PartialEq, Eq)]
pub struct UrlValue {
    pub url: Option<String>,
    pub status: Status,
    pub reason: String,
    pub data: String,
}

/// Internal message on the alert channel. `still` marks a periodic reminder
/// that the URL has stayed bad beyond the still-bad timeout, as opposed to a
/// fresh transition.
#[derive(Debug, PartialEq, Eq)]
pub struct Report {
    pub url: String,
    pub status: Status,
    pub still: bool,
    pub reason: String,
}

impl Clone for UrlValue {
    fn clone(&self) -> (r: Self)
        ensures
            r == *self,
    {
        UrlValue {
            url: self.url.clone(),
            status: self.status,
            reason: self.reason.clone(),
            data: self.data.clone(),
        }
    }
}

impl Clone for Report {
    fn clone(&self) -> (r: Self)
        ensures
            r == *self,
    {
        Report {
            url: self.url.clone(),
            status: self.status,
            still: self.still,
            reason: self.reason.clone(),
        }
    }
}

impl UrlValue {
    /// The record a fresh user insert installs: healthy, no reason, the
    /// user's data.
    pub fn fresh(data: String) -> (r: UrlValue)
        ensures
            r.url is None,
            r.status == Status::Healthy,
            r.reason@ == Seq::<char>::empty(),
            r.data == data,
    {
        UrlValue { url: None, status: Status::Healthy, reason: String::new(), data }
    }

    /// The record with the given URL attached, so that subscribers can
    /// identify the subject of an emitted frame.
    pub fn with_url(&self, url: &String) -> (r: UrlValue)
        ensures
            r == (UrlValue { url: Some(*url), ..*self }),
    {
        UrlValue {
            url: Some(url.clone()),
            status: self.status,
            reason: self.reason.clone(),
            data: self.data.clone(),
        }
    }

    /// A probe result patched into an existing record: `status` and `reason`
    /// are overwritten, the user's `data` is preserved.
    pub fn probe_patch(&self, status: Status, reason: &String) -> (r: UrlValue)
        ensures
            r == (UrlValue { status, reason: *reason, ..*self }),
    {
        UrlValue {
            url: self.url.clone(),
            status,
            reason: reason.clone(),
            data: self.data.clone(),
        }
    }

    /// A user update applied to an existing record: only `data` is
    /// overwritten; the `status` and `reason` last written by the probe loop
    /// are preserved.
    pub fn user_patch(&self, data: &String) -> (r: UrlValue)
        ensures
            r == (UrlValue { data: *data, ..*self }),
    {
        UrlValue {
            url: self.url.clone(),
            status: self.status,
            reason: self.reason.clone(),
            data: data.clone(),
        }
    }
}

} // verus!
