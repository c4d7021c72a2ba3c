//! Probe outcomes and the coarse good/bad judgement reported on the alert
//! channel.

use vstd::prelude::*;

verus! {

/// Outcome of one probe, as persisted and as shown to subscribers.
/// `Removed` is a transient marker used only in outbound messages.
#[derive(Debug, Clone, Copy, PartialEq, Eq, Structural)]
pub enum Status {
    Healthy,
    Unhealthy,
    Unreacheable,
    Removed,
}

impl Status {
    /// The canonical name of the variant, as a sequence of characters.
    pub open spec fn spec_name(self) -> Seq<char> {
        match self {
            Status::Healthy => "Healthy"@,
            Status::Unhealthy => "Unhealthy"@,
            Status::Unreacheable => "Unreacheable"@,
            Status::Removed => "Removed"@,
        }
    }

    /// Only `Healthy` counts as good; every other outcome is bad.
    pub fn is_good(&self) -> (r: bool)
        ensures
            r == (*self == Status::Healthy),
    {
        *self == Status::Healthy
    }

    /// The variant's name, used in event frames and alert lines.
    pub fn name(&self) -> (r: String)
        ensures
            r@ == self.spec_name(),
    {
        match self {
            Status::Healthy => "Healthy".to_owned(),
            Status::Unhealthy => "Unhealthy".to_owned(),
            Status::Unreacheable => "Unreacheable".to_owned(),
            Status::Removed => "Removed".to_owned(),
        }
    }
}

/// The two-valued judgement carried by outbound alerts: a URL is reported
/// either newly unhealthy or newly healthy.
#[derive(Debug, Clone, Copy, PartialEq, Eq, Structural, PartialOrd, Ord, Hash)]
pub enum ReportStatus {
    Unhealthy,
    Healthy,
}

impl ReportStatus {
    /// The judgement a status maps to on the alert channel.
    pub fn of_status(s: Status) -> (r: ReportStatus)
        ensures
            r == (if s == Status::Healthy {
                ReportStatus::Healthy
            } else {
                ReportStatus::Unhealthy
            }),
    {
        if s.is_good() {
            ReportStatus::Healthy
        } else {
            ReportStatus::Unhealthy
        }
    }
}

} // verus!
