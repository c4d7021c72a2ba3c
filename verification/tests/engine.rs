use spo2::checker::{classify, HealthChecker, ProbeOutcome};
use spo2::checker::{FAST_PING_MS, NORMAL_PING_MS, STILL_BAD_TIMEOUT_MS};
use spo2::window::Window;
use spo2::{Report, ReportStatus, Status, UrlValue};

fn rec(data: &str) -> UrlValue {
    UrlValue {
        url: None,
        status: Status::Healthy,
        reason: String::new(),
        data: data.to_string(),
    }
}

// the record as the store's atomic patch returns it: status and reason
// overwritten by the probe's classification
fn patched(status: Status, reason: &str, data: &str) -> UrlValue {
    UrlValue {
        url: None,
        status,
        reason: reason.to_string(),
        data: data.to_string(),
    }
}

#[test]
fn status_is_good_only_for_healthy() {
    assert!(Status::Healthy.is_good());
    assert!(!Status::Unhealthy.is_good());
    assert!(!Status::Unreacheable.is_good());
    assert!(!Status::Removed.is_good());
}

#[test]
fn status_names() {
    assert_eq!(Status::Healthy.name(), "Healthy");
    assert_eq!(Status::Unhealthy.name(), "Unhealthy");
    assert_eq!(Status::Unreacheable.name(), "Unreacheable");
    assert_eq!(Status::Removed.name(), "Removed");
}

#[test]
fn report_status_of_status() {
    assert_eq!(ReportStatus::of_status(Status::Healthy), ReportStatus::Healthy);
    assert_eq!(ReportStatus::of_status(Status::Unhealthy), ReportStatus::Unhealthy);
    assert_eq!(ReportStatus::of_status(Status::Unreacheable), ReportStatus::Unhealthy);
}

#[test]
fn classify_by_status_code() {
    let (st, reason) = classify(&ProbeOutcome::Response {
        code: 200,
        text: "200 OK".to_string(),
    });
    assert_eq!(st, Status::Healthy);
    assert_eq!(reason, "200 OK");

    let (st, _) = classify(&ProbeOutcome::Response {
        code: 299,
        text: String::new(),
    });
    assert_eq!(st, Status::Healthy);

    let (st, reason) = classify(&ProbeOutcome::Response {
        code: 500,
        text: "500 Internal Server Error".to_string(),
    });
    assert_eq!(st, Status::Unhealthy);
    assert_eq!(reason, "500 Internal Server Error");

    let (st, reason) = classify(&ProbeOutcome::Failed {
        error: "connection refused".to_string(),
    });
    assert_eq!(st, Status::Unreacheable);
    assert_eq!(reason, "connection refused");
}

#[test]
fn window_evicts_oldest_at_capacity() {
    let mut w = Window::new();
    assert_eq!(w.bad_count(), 0);
    for _ in 0..10 {
        w.push(Status::Unreacheable);
    }
    assert_eq!(w.bad_count(), 10);
    // the eleventh observation evicts one of the bad ones
    w.push(Status::Healthy);
    assert_eq!(w.bad_count(), 9);
}

fn run_ticks(
    checker: &mut HealthChecker,
    status: Status,
    n: usize,
    now: u64,
) -> (Vec<Report>, Vec<UrlValue>, u64) {
    let mut reports = Vec::new();
    let mut events = Vec::new();
    let mut last_sleep = 0;
    let stored = Some(rec("null"));
    for _ in 0..n {
        let out = checker.tick(status, &"reason".to_string(), &stored, now);
        assert!(!out.exit);
        if let Some(r) = out.report {
            reports.push(r);
        }
        if let Some(e) = out.event {
            events.push(e);
        }
        last_sleep = out.sleep_ms;
    }
    (reports, events, last_sleep)
}

#[test]
fn transition_to_bad_fires_once_at_half_window() {
    // six consecutive unreachable observations: exactly one report, at the
    // fifth sample (5/10 crosses one half)
    let mut c = HealthChecker::new("https://a.example/".to_string());
    let stored = Some(patched(Status::Unreacheable, "closed port", "null"));
    let mut reports = Vec::new();
    let mut events = Vec::new();
    for i in 0..6 {
        let out = c.tick(Status::Unreacheable, &"closed port".to_string(), &stored, 1000 + i);
        if let Some(r) = out.report {
            reports.push((i, r));
        }
        if let Some(e) = out.event {
            events.push(e);
        }
    }
    assert_eq!(reports.len(), 1);
    let (at, ref rep) = reports[0];
    assert_eq!(at, 4); // the fifth observation
    assert_eq!(rep.status, Status::Unhealthy);
    assert!(!rep.still);
    assert_eq!(rep.url, "https://a.example/");
    assert_eq!(events.len(), 1);
    assert_eq!(events[0].status, Status::Unreacheable);
    assert_eq!(events[0].url.as_deref(), Some("https://a.example/"));
}

#[test]
fn recovery_fires_once_when_window_clears() {
    let mut c = HealthChecker::new("https://a.example/".to_string());
    let (reports, _, _) = run_ticks(&mut c, Status::Unreacheable, 6, 1000);
    assert_eq!(reports.len(), 1);
    // ten healthy observations: exactly one healthy report, at the tick
    // where the window holds zero bad samples
    let stored = Some(rec("null"));
    let mut reports = Vec::new();
    for i in 0..10 {
        let out = c.tick(Status::Healthy, &"200 OK".to_string(), &stored, 2000 + i);
        if let Some(r) = out.report {
            reports.push((i, r));
        }
    }
    assert_eq!(reports.len(), 1);
    let (at, ref rep) = reports[0];
    assert_eq!(at, 9); // the tenth healthy observation clears the window
    assert_eq!(rep.status, Status::Healthy);
    assert!(!rep.still);
}

#[test]
fn cadence_normal_when_all_good_or_all_bad_fast_between() {
    // all ten good: normal cadence
    let mut c = HealthChecker::new("u".to_string());
    let (_, _, sleep) = run_ticks(&mut c, Status::Healthy, 10, 0);
    assert_eq!(sleep, NORMAL_PING_MS);
    // one bad observation in a good window: fast cadence
    let stored = Some(rec("null"));
    let out = c.tick(Status::Unhealthy, &"503".to_string(), &stored, 0);
    assert_eq!(out.sleep_ms, FAST_PING_MS);
    // all ten bad (sustained full outage): back to the normal cadence
    let mut c2 = HealthChecker::new("u".to_string());
    let (_, _, sleep) = run_ticks(&mut c2, Status::Unreacheable, 10, 0);
    assert_eq!(sleep, NORMAL_PING_MS);
    // nine bad out of ten, newest good: still fast (in bad state)
    let out = c2.tick(Status::Healthy, &"ok".to_string(), &stored, 0);
    assert_eq!(out.sleep_ms, FAST_PING_MS);
}

#[test]
fn still_bad_reminder_every_timeout() {
    let mut c = HealthChecker::new("https://down.example/".to_string());
    let stored = Some(patched(Status::Unreacheable, "down", "null"));
    // enter the bad state at time 0
    for _ in 0..6 {
        let out = c.tick(Status::Unreacheable, &"down".to_string(), &stored, 0);
        assert!(!out.exit);
    }
    // within the timeout: no reminder
    assert!(c.still_bad_check(STILL_BAD_TIMEOUT_MS).is_none());
    // one minute past the timeout (the sixteen-minute mark): one reminder
    let t1 = STILL_BAD_TIMEOUT_MS + 60_000;
    let (rep, ev) = c.still_bad_check(t1).expect("first reminder");
    assert_eq!(rep.status, Status::Unhealthy);
    assert!(rep.still);
    assert_eq!(rep.url, "https://down.example/");
    assert_eq!(ev.status, Status::Unreacheable);
    // not again until another full timeout has passed
    assert!(c.still_bad_check(t1 + STILL_BAD_TIMEOUT_MS).is_none());
    let t2 = t1 + STILL_BAD_TIMEOUT_MS + 60_000;
    let (rep2, _) = c.still_bad_check(t2).expect("second reminder");
    assert!(rep2.still);
}

#[test]
fn absent_key_exits_with_removed_frame() {
    let mut c = HealthChecker::new("https://a.example/".to_string());
    let stored = Some(rec("{\"k\":1}"));
    let out = c.tick(Status::Healthy, &"200 OK".to_string(), &stored, 0);
    assert!(!out.exit);
    let out = c.tick(Status::Healthy, &"200 OK".to_string(), &None, 1);
    assert!(out.exit);
    assert!(out.report.is_none());
    let frame = out.event.expect("final frame");
    assert_eq!(frame.status, Status::Removed);
    assert_eq!(frame.url.as_deref(), Some("https://a.example/"));
    assert_eq!(frame.data, "{\"k\":1}");
}

#[test]
fn single_bad_sample_does_not_alert() {
    // the ratio is measured against the fixed capacity of ten, so one bad
    // sample early in a URL's life is one tenth, not a transition
    let mut c = HealthChecker::new("u".to_string());
    let stored = Some(patched(Status::Unreacheable, "down", "null"));
    let out = c.tick(Status::Unreacheable, &"down".to_string(), &stored, 0);
    assert!(out.report.is_none());
    assert!(out.event.is_none());
}
