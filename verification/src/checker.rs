//! The per-URL health-checker state machine: probe classification, the
//! sliding-window judgement, transition detection, cadence selection and the
//! still-bad reminder. The surrounding loop (HTTP probe, sleep, channel
//! send) runs outside; each iteration hands its observations to `tick` and,
//! after sleeping, to `still_bad_check`.

use vstd::prelude::*;
use crate::record::{Report, UrlValue};
use crate::status::Status;
use crate::window::{count_bad, spec_push, Window};

verus! {

/// Inter-probe delay while the URL is (or may be turning) bad.
pub const FAST_PING_MS: u64 = 800;

/// Inter-probe delay while the URL is quietly healthy, or fully down.
pub const NORMAL_PING_MS: u64 = 3000;

/// How long a URL may stay bad before the alert is repeated.
pub const STILL_BAD_TIMEOUT_MS: u64 = 900000;

/// Total timeout of one probe request.
pub const PROBE_TIMEOUT_MS: u64 = 5000;

/// The transport-level outcome of one HTTP GET, as the probe loop hands it
/// in: either a response with its status code and status text, or a
/// transport failure with its error text.
pub enum ProbeOutcome {
    Response { code: u16, text: String },
    Failed { error: String },
}

/// How one probe outcome is judged: a 2xx response is healthy, any other
/// response is unhealthy, and a transport failure means unreachable; the
/// reason is the status text or the error text.
pub fn classify(outcome: &ProbeOutcome) -> (r: (Status, String))
    ensures
        match *outcome {
            ProbeOutcome::Response { code, text } => {
                &&& r.0 == (if 200 <= code <= 299 {
                    Status::Healthy
                } else {
                    Status::Unhealthy
                })
                &&& r.1 == text
            },
            ProbeOutcome::Failed { error } => r.0 == Status::Unreacheable && r.1 == error,
        },
{
    match outcome {
        ProbeOutcome::Response { code, text } => {
            if 200 <= *code && *code <= 299 {
                (Status::Healthy, text.clone())
            } else {
                (Status::Unhealthy, text.clone())
            }
        },
        ProbeOutcome::Failed { error } => (Status::Unreacheable, error.clone()),
    }
}

/// Whether a window with `bads` bad observations out of the fixed capacity
/// of ten crosses into the bad state.
pub open spec fn enters_bad(bads: int, was_bad: bool) -> bool {
    bads >= 5 && !was_bad
}

/// Whether such a window recovers: only a window with no bad observation at
/// all leaves the bad state.
pub open spec fn leaves_bad(bads: int, was_bad: bool) -> bool {
    bads == 0 && was_bad
}

/// The fast-ping predicate: probe again quickly when the task is in the bad
/// state, or the newest observation is bad, or at least half the window is
/// bad — except during a sustained full outage, which is probed at the
/// normal cadence.
pub open spec fn is_fast_ping(bads: int, newest_good: bool, bad_state: bool) -> bool {
    (bad_state || !newest_good || bads >= 5) && bads != 10
}

/// The delay until the next probe.
pub open spec fn sleep_for(bads: int, newest_good: bool, bad_state: bool) -> u64 {
    if is_fast_ping(bads, newest_good, bad_state) {
        FAST_PING_MS
    } else {
        NORMAL_PING_MS
    }
}

/// What one iteration of the health-checker loop asks of its surroundings.
pub struct TickOutcome {
    /// The URL's key was absent from the store: the loop must stop.
    pub exit: bool,
    /// A report to hand to the alert aggregator, if a transition fired.
    pub report: Option<Report>,
    /// A record to serialize and broadcast to subscribers, if anything
    /// happened worth telling them.
    pub event: Option<UrlValue>,
    /// How long to sleep before the next probe (zero when exiting).
    pub sleep_ms: u64,
}

/// The local state of one URL's health-checker task.
pub struct HealthChecker {
    url: String,
    window: Window,
    in_bad_since: Option<u64>,
    last: Option<UrlValue>,
}

impl HealthChecker {
    /// The monitored URL.
    pub closed spec fn url(self) -> String {
        self.url
    }

    /// The observations currently in the sliding window, newest first.
    pub closed spec fn obs(self) -> Seq<Status> {
        self.window.obs()
    }

    /// When the task entered (or last re-alerted about) the bad state;
    /// `None` while the URL is judged good.
    pub closed spec fn in_bad(self) -> Option<u64> {
        self.in_bad_since
    }

    /// The record of the last successful iteration, with the URL attached.
    pub closed spec fn last_seen(self) -> Option<UrlValue> {
        self.last
    }

    pub closed spec fn wf(self) -> bool {
        &&& self.window.wf()
        &&& (self.in_bad_since is Some ==> self.last is Some)
    }

    /// A fresh task: empty window, judged good, nothing seen yet.
    pub fn new(url: String) -> (c: HealthChecker)
        ensures
            c.url() == url,
            c.obs() == Seq::<Status>::empty(),
            c.in_bad() is None,
            c.last_seen() is None,
            c.wf(),
    {
        HealthChecker { url, window: Window::new(), in_bad_since: None, last: None }
    }

    /// One loop iteration, after the probe and the store patch: record the
    /// observation, detect transitions, and pick the next cadence.
    ///
    /// `status` and `reason` are the probe's classification; `updated` is
    /// the record as the store's atomic patch returned it, `None` when the
    /// key was absent (the URL was removed). On removal the task exits,
    /// emitting a final frame with status `Removed`; otherwise it emits a
    /// report and a frame exactly when the window newly crosses half bad or
    /// newly clears entirely.
    pub fn tick(
        &mut self,
        status: Status,
        reason: &String,
        updated: &Option<UrlValue>,
        now_ms: u64,
    ) -> (out: TickOutcome)
        requires
            old(self).wf(),
        ensures
            final(self).wf(),
            final(self).url() == old(self).url(),
            final(self).obs() == spec_push(old(self).obs(), status),
            out.exit == (*updated is None),
            *updated is None ==> {
                &&& final(self).in_bad() == old(self).in_bad()
                &&& final(self).last_seen() == old(self).last_seen()
                &&& out.report is None
                &&& out.sleep_ms == 0
                &&& (out.event matches Some(ev) && {
                    &&& ev.url == Some(old(self).url())
                    &&& ev.status == Status::Removed
                    &&& ev.reason@ == Seq::<char>::empty()
                    &&& (match old(self).last_seen() {
                        Some(l) => ev.data@ == l.data@,
                        None => ev.data@ == "null"@,
                    })
                })
            },
            *updated matches Some(v) ==> ({
                let bads = count_bad(spec_push(old(self).obs(), status));
                let was_bad = old(self).in_bad() is Some;
                let enter = enters_bad(bads, was_bad);
                let leave = leaves_bad(bads, was_bad);
                &&& final(self).in_bad() == (if enter {
                    Some(now_ms)
                } else if leave {
                    None::<u64>
                } else {
                    old(self).in_bad()
                })
                &&& (final(self).last_seen() matches Some(l) && l == (UrlValue {
                    url: Some(old(self).url()),
                    ..v
                }))
                &&& out.report == (if enter {
                    Some(
                        Report {
                            url: old(self).url(),
                            status: Status::Unhealthy,
                            still: false,
                            reason: *reason,
                        },
                    )
                } else if leave {
                    Some(
                        Report {
                            url: old(self).url(),
                            status: Status::Healthy,
                            still: false,
                            reason: *reason,
                        },
                    )
                } else {
                    None::<Report>
                })
                &&& out.event == (if enter || leave {
                    final(self).last_seen()
                } else {
                    None::<UrlValue>
                })
                &&& out.sleep_ms == sleep_for(
                    bads,
                    status == Status::Healthy,
                    final(self).in_bad() is Some,
                )
            }),
    {
        self.window.push(status);
        match updated {
            None => {
                let data = match &self.last {
                    Some(l) => l.data.clone(),
                    None => "null".to_owned(),
                };
                let ev = UrlValue {
                    url: Some(self.url.clone()),
                    status: Status::Removed,
                    reason: String::new(),
                    data,
                };
                TickOutcome { exit: true, report: None, event: Some(ev), sleep_ms: 0 }
            },
            Some(v) => {
                let bads = self.window.bad_count();
                let was_bad = self.in_bad_since.is_some();
                let attached = v.with_url(&self.url);
                self.last = Some(attached.clone());
                let enter = bads >= 5 && !was_bad;
                let leave = bads == 0 && was_bad;
                let report: Option<Report>;
                let event: Option<UrlValue>;
                if enter {
                    self.in_bad_since = Some(now_ms);
                    report = Some(
                        Report {
                            url: self.url.clone(),
                            status: Status::Unhealthy,
                            still: false,
                            reason: reason.clone(),
                        },
                    );
                    event = Some(attached);
                } else if leave {
                    self.in_bad_since = None;
                    report = Some(
                        Report {
                            url: self.url.clone(),
                            status: Status::Healthy,
                            still: false,
                            reason: reason.clone(),
                        },
                    );
                    event = Some(attached);
                } else {
                    report = None;
                    event = None;
                }
                let fast = (self.in_bad_since.is_some() || !status.is_good() || bads >= 5) && bads
                    != 10;
                let sleep_ms = if fast {
                    FAST_PING_MS
                } else {
                    NORMAL_PING_MS
                };
                TickOutcome { exit: false, report, event, sleep_ms }
            },
        }
    }

    /// The still-bad reminder, checked once per iteration after the sleep:
    /// when the task has been in the bad state for more than the still-bad
    /// timeout, re-emit the alert (marked `still`) and the current record,
    /// and restart the timeout so the reminder repeats until recovery.
    pub fn still_bad_check(&mut self, now_ms: u64) -> (out: Option<(Report, UrlValue)>)
        requires
            old(self).wf(),
            old(self).in_bad() matches Some(s) ==> s <= now_ms,
        ensures
            final(self).wf(),
            final(self).url() == old(self).url(),
            final(self).obs() == old(self).obs(),
            final(self).last_seen() == old(self).last_seen(),
            if old(self).in_bad() matches Some(s) && now_ms - s > STILL_BAD_TIMEOUT_MS {
                &&& final(self).in_bad() == Some(now_ms)
                &&& (out matches Some((rep, ev)) && {
                    &&& Some(ev) == old(self).last_seen()
                    &&& rep.url == old(self).url()
                    &&& rep.status == Status::Unhealthy
                    &&& rep.still
                    &&& rep.reason == ev.reason
                })
            } else {
                &&& final(self).in_bad() == old(self).in_bad()
                &&& out is None
            },
    {
        match self.in_bad_since {
            Some(s) => {
                if now_ms - s > STILL_BAD_TIMEOUT_MS {
                    let l = match &self.last {
                        Some(l) => l.clone(),
                        None => unreached(),
                    };
                    self.in_bad_since = Some(now_ms);
                    let rep = Report {
                        url: self.url.clone(),
                        status: Status::Unhealthy,
                        still: true,
                        reason: l.reason.clone(),
                    };
                    Some((rep, l))
                } else {
                    None
                }
            },
            None => None,
        }
    }
}

/// The window contents after feeding the observation sequence `s`, oldest
/// first, into an initially empty window.
pub open spec fn window_after(s: Seq<Status>) -> Seq<Status>
    decreases s.len(),
{
    if s.len() == 0 {
        Seq::<Status>::empty()
    } else {
        spec_push(window_after(s.drop_last()), s.last())
    }
}

/// Whether the task is judged bad after feeding `s` from the initial state
/// (empty window, judged good).
pub open spec fn bad_after(s: Seq<Status>) -> bool
    decreases s.len(),
{
    if s.len() == 0 {
        false
    } else {
        let bads = count_bad(window_after(s));
        let was = bad_after(s.drop_last());
        if enters_bad(bads, was) {
            true
        } else if leaves_bad(bads, was) {
            false
        } else {
            was
        }
    }
}

/// Whether feeding `s` ends with a transition into the bad state: the last
/// observation brings the window to at least half bad while the task was
/// not already bad.
pub open spec fn bad_transition_fires(s: Seq<Status>) -> bool
    recommends
        s.len() > 0,
{
    enters_bad(count_bad(window_after(s)), bad_after(s.drop_last()))
}

/// Whether feeding `s` ends with a recovery: the last observation clears
/// the window entirely while the task was bad.
pub open spec fn recovery_fires(s: Seq<Status>) -> bool
    recommends
        s.len() > 0,
{
    leaves_bad(count_bad(window_after(s)), bad_after(s.drop_last()))
}

/// One more observation extends a feed exactly as one loop iteration does:
/// the window is pushed, and the judgement moves by the same enter/leave
/// rule that `tick` promises.
pub proof fn lemma_feed_step(s: Seq<Status>, x: Status)
    ensures
        window_after(s.push(x)) == spec_push(window_after(s), x),
        bad_after(s.push(x)) == (if enters_bad(count_bad(spec_push(window_after(s), x)), bad_after(s)) {
            true
        } else if leaves_bad(count_bad(spec_push(window_after(s), x)), bad_after(s)) {
            false
        } else {
            bad_after(s)
        }),
{
    assert(s.push(x).drop_last() =~= s);
    assert(s.push(x).last() == x);
}

/// After feeding `s`, the window holds the last (up to ten) observations,
/// newest first.
pub proof fn lemma_window_after(s: Seq<Status>)
    ensures
        window_after(s).len() == (if s.len() < 10 {
            s.len() as int
        } else {
            10int
        }),
        forall|i: int| 0 <= i < window_after(s).len() ==> window_after(s)[i] == s[s.len() - 1 - i],
    decreases s.len(),
{
    if s.len() > 0 {
        lemma_window_after(s.drop_last());
        let w0 = window_after(s.drop_last());
        let w = window_after(s);
        assert forall|i: int| 0 <= i < w.len() implies w[i] == s[s.len() - 1 - i] by {
            if i > 0 {
                assert(w[i] == w0[i - 1]);
                assert(w0[i - 1] == s.drop_last()[s.len() - 1 - i]);
            }
        }
    }
}

/// Starting from an empty window and feeding a sequence of observations, a
/// transition to bad fires at an observation precisely when it brings the
/// bad count of the window — the last ten observations, against the fixed
/// capacity of ten — to at least half while the task was not already bad;
/// and symmetrically, a recovery fires precisely when the window holds no
/// bad observation at all while the task was bad.
pub proof fn lemma_transitions(s: Seq<Status>)
    requires
        s.len() > 0,
    ensures
        bad_transition_fires(s) <==> (count_bad(window_after(s)) >= 5 && !bad_after(
            s.drop_last(),
        )),
        recovery_fires(s) <==> (count_bad(window_after(s)) == 0 && bad_after(s.drop_last())),
        bad_transition_fires(s) ==> bad_after(s),
        recovery_fires(s) ==> !bad_after(s),
{
}

/// All of `obs` are good exactly when the window holds no bad observation;
/// all are bad exactly when the bad count equals the length.
pub proof fn lemma_count_bad_all(obs: Seq<Status>)
    ensures
        (count_bad(obs) == 0) <==> (forall|i: int|
            0 <= i < obs.len() ==> obs[i] == Status::Healthy),
        (count_bad(obs) == obs.len()) <==> (forall|i: int|
            0 <= i < obs.len() ==> obs[i] != Status::Healthy),
    decreases obs.len(),
{
    crate::window::lemma_count_bad_bounds(obs);
    if obs.len() > 0 {
        lemma_count_bad_all(obs.drop_last());
        crate::window::lemma_count_bad_bounds(obs.drop_last());
        assert forall|i: int| 0 <= i < obs.len() - 1 implies obs.drop_last()[i] == obs[i] by {}
        assert(obs.last() == obs[obs.len() - 1]);
    }
}

/// The cadence rule over a full window of ten observations:
/// - ten good observations, with the task judged good, give the normal
///   cadence;
/// - ten bad observations give the normal cadence (a sustained full outage
///   is not probed fast);
/// - a mixed window gives the fast cadence whenever the task is judged bad,
///   or the newest observation is bad, or at least half the window is bad.
pub proof fn lemma_cadence(obs: Seq<Status>, bad_state: bool)
    requires
        obs.len() == 10,
    ensures
        (forall|i: int| 0 <= i < 10 ==> obs[i] == Status::Healthy) && !bad_state ==> sleep_for(
            count_bad(obs),
            obs[0] == Status::Healthy,
            bad_state,
        ) == NORMAL_PING_MS,
        (forall|i: int| 0 <= i < 10 ==> obs[i] != Status::Healthy) ==> sleep_for(
            count_bad(obs),
            obs[0] == Status::Healthy,
            bad_state,
        ) == NORMAL_PING_MS,
        0 < count_bad(obs) < 10 && (bad_state || obs[0] != Status::Healthy || count_bad(obs)
            >= 5) ==> sleep_for(count_bad(obs), obs[0] == Status::Healthy, bad_state)
            == FAST_PING_MS,
{
    lemma_count_bad_all(obs);
}

} // verus!
