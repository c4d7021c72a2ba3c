use spo2::aggregator::{dedup_batch, format_batch, format_line};
use spo2::strorder::str_lt;
use spo2::{Report, Status};

fn report(url: &str, status: Status, still: bool, reason: &str) -> Report {
    Report {
        url: url.to_string(),
        status,
        still,
        reason: reason.to_string(),
    }
}

#[test]
fn str_lt_is_lexicographic() {
    assert!(str_lt("a", "b"));
    assert!(!str_lt("b", "a"));
    assert!(str_lt("", "a"));
    assert!(!str_lt("a", ""));
    assert!(str_lt("abc", "abd"));
    assert!(str_lt("ab", "abc"));
    assert!(!str_lt("abc", "abc"));
}

#[test]
fn format_line_three_shapes() {
    let still = report("https://a.example/", Status::Unhealthy, true, "x");
    assert_eq!(format_line(&still), "https://a.example/ is still Unhealthy\n");

    let good = report("https://a.example/", Status::Healthy, false, "");
    assert_eq!(format_line(&good), "https://a.example/ is now Healthy 🎉\n");

    let bad = report(
        "https://a.example/",
        Status::Unreacheable,
        false,
        "connection refused",
    );
    assert_eq!(
        format_line(&bad),
        "https://a.example/ reported Unreacheable (connection refused)\n"
    );
}

#[test]
fn dedup_keeps_most_recent_per_url_sorted_descending() {
    let batch = vec![
        report("a", Status::Unhealthy, false, "first a"),
        report("b", Status::Healthy, false, ""),
        report("a", Status::Unreacheable, false, "second a"),
        report("c", Status::Unhealthy, true, ""),
    ];
    let out = dedup_batch(&batch);
    assert_eq!(out.len(), 3);
    // sorted by URL descending
    assert_eq!(out[0].url, "c");
    assert_eq!(out[1].url, "b");
    assert_eq!(out[2].url, "a");
    // the surviving report for `a` is its most recent one
    assert_eq!(out[2].reason, "second a");
    assert_eq!(out[2].status, Status::Unreacheable);
}

#[test]
fn batch_dedup_and_escalation() {
    // reports for a, b, a, c with a's final report a fresh bad transition:
    // the body begins with the channel mention, followed by exactly three
    // lines, one per distinct URL
    let batch = vec![
        report("a", Status::Healthy, false, ""),
        report("b", Status::Healthy, false, ""),
        report("a", Status::Unreacheable, false, "timed out"),
        report("c", Status::Unhealthy, true, ""),
    ];
    let body = format_batch(&batch);
    assert!(body.starts_with("<!channel>\n"));
    assert_eq!(body.lines().count(), 4); // the mention line plus three URLs
    assert_eq!(
        body,
        "<!channel>\nc is still Unhealthy\nb is now Healthy 🎉\na reported Unreacheable (timed out)\n"
    );
}

#[test]
fn no_escalation_without_fresh_bad_transition() {
    // only reminders and recoveries: no channel mention
    let batch = vec![
        report("a", Status::Healthy, false, ""),
        report("b", Status::Unhealthy, true, ""),
    ];
    let body = format_batch(&batch);
    assert!(!body.starts_with("<!channel>"));
    assert_eq!(body, "b is still Unhealthy\na is now Healthy 🎉\n");
}

#[test]
fn surviving_report_decides_escalation() {
    // a's fresh bad report is superseded by a recovery: the survivors hold
    // no fresh bad transition, so no mention
    let batch = vec![
        report("a", Status::Unreacheable, false, "down"),
        report("a", Status::Healthy, false, ""),
    ];
    let body = format_batch(&batch);
    assert_eq!(body, "a is now Healthy 🎉\n");
}
