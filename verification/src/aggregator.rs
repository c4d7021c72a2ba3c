//! The alert aggregator's flush: a collected batch of reports is reduced to
//! one report per URL (the most recent), sorted by URL descending, and
//! formatted as the outgoing message body, with a channel mention when the
//! batch holds a fresh bad transition.

use vstd::prelude::*;
use crate::record::Report;
use crate::status::Status;
use crate::strorder::{lemma_lex_transitive, lemma_lex_trichotomy, lex_lt, str_lt};

verus! {

/// A batch is flushed once it holds this many reports …
pub const BATCH_MAX_REPORTS: usize = 40;

/// … or once this long has passed since its first report.
pub const BATCH_WINDOW_MS: u64 = 10000;

/// Capacity of the alert channel; a full channel blocks the senders.
pub const ALERT_CHANNEL_CAPACITY: usize = 100;

/// The most recent report per URL: later reports overwrite earlier ones.
pub open spec fn url_map(s: Seq<Report>) -> Map<Seq<char>, Report>
    decreases s.len(),
{
    if s.len() == 0 {
        Map::<Seq<char>, Report>::empty()
    } else {
        url_map(s.drop_last()).insert(s.last().url@, s.last())
    }
}

/// The URLs of the reports, in order.
pub open spec fn urls_of(s: Seq<Report>) -> Seq<Seq<char>> {
    s.map_values(|r: Report| r.url@)
}

/// What the deduplication step must produce: one report per distinct URL of
/// the batch, each the most recent report for its URL, ordered by URL
/// descending.
pub open spec fn survivors_ok(batch: Seq<Report>, out: Seq<Report>) -> bool {
    &&& urls_of(out).no_duplicates()
    &&& forall|j: int| 0 <= j < out.len() ==> #[trigger] url_map(batch).contains_key(out[j].url@)
        && out[j] == url_map(batch)[out[j].url@]
    &&& forall|u: Seq<char>| url_map(batch).contains_key(u) ==> exists|j: int|
        0 <= j < out.len() && #[trigger] out[j].url@ == u
    &&& forall|i: int, j: int| 0 <= i < j < out.len() ==> lex_lt(out[j].url@, out[i].url@)
}

pub broadcast proof fn lemma_url_map_contains(s: Seq<Report>, u: Seq<char>)
    ensures
        #[trigger] url_map(s).contains_key(u) <==> exists|i: int|
            0 <= i < s.len() && #[trigger] s[i].url@ == u,
        url_map(s).dom().finite(),
    decreases s.len(),
{
    if s.len() > 0 {
        lemma_url_map_contains(s.drop_last(), u);
        if url_map(s).contains_key(u) {
            if s.last().url@ == u {
                assert(s[s.len() - 1].url@ == u);
            } else {
                let i = choose|i: int| 0 <= i < s.len() - 1 && #[trigger] s.drop_last()[i].url@
                    == u;
                assert(s[i].url@ == u);
            }
        }
        if exists|i: int| 0 <= i < s.len() && #[trigger] s[i].url@ == u {
            let i = choose|i: int| 0 <= i < s.len() && #[trigger] s[i].url@ == u;
            if i < s.len() - 1 {
                assert(s.drop_last()[i].url@ == u);
            }
        }
    }
}

/// In a sequence with pairwise distinct URLs, the map entry for each URL is
/// the report at its unique position.
proof fn lemma_url_map_distinct(s: Seq<Report>)
    requires
        urls_of(s).no_duplicates(),
    ensures
        forall|j: int| 0 <= j < s.len() ==> #[trigger] url_map(s).contains_key(s[j].url@)
            && url_map(s)[s[j].url@] == s[j],
    decreases s.len(),
{
    if s.len() > 0 {
        assert(urls_of(s.drop_last()) =~= urls_of(s).drop_last());
        lemma_url_map_distinct(s.drop_last());
        assert forall|j: int| 0 <= j < s.len() implies #[trigger] url_map(s).contains_key(
            s[j].url@,
        ) && url_map(s)[s[j].url@] == s[j] by {
            if j < s.len() - 1 {
                assert(urls_of(s)[j] != urls_of(s)[s.len() - 1]);
                assert(s.drop_last()[j] == s[j]);
                assert(url_map(s.drop_last()).contains_key(s.drop_last()[j].url@));
                assert(url_map(s.drop_last())[s[j].url@] == s[j]);
                assert(s[j].url@ != s.last().url@);
            }
        }
    }
}

/// Overwriting the entry at a URL's unique position updates its map entry
/// and nothing else.
proof fn lemma_url_map_update(s: Seq<Report>, j: int, r: Report)
    requires
        urls_of(s).no_duplicates(),
        0 <= j < s.len(),
        s[j].url@ == r.url@,
    ensures
        url_map(s.update(j, r)) =~= url_map(s).insert(r.url@, r),
    decreases s.len(),
{
    if s.len() > 0 {
        if j == s.len() - 1 {
            assert(s.update(j, r).drop_last() =~= s.drop_last());
            assert(s.update(j, r).last() == r);
        } else {
            assert(urls_of(s.drop_last()) =~= urls_of(s).drop_last());
            lemma_url_map_update(s.drop_last(), j, r);
            assert(s.update(j, r).drop_last() =~= s.drop_last().update(j, r));
            assert(s.update(j, r).last() == s.last());
            assert(urls_of(s)[j] != urls_of(s)[s.len() - 1]);
            assert(url_map(s.update(j, r)) =~= url_map(s.drop_last()).insert(r.url@, r).insert(
                s.last().url@,
                s.last(),
            ));
        }
    }
}

/// Find the position of a report with this URL, if one is there.
fn find_by_url(out: &Vec<Report>, url: &String) -> (r: Option<usize>)
    ensures
        match r {
            Some(j) => j < out@.len() && out@[j as int].url@ == url@,
            None => forall|j: int| 0 <= j < out@.len() ==> out@[j].url@ != url@,
        },
{
    let mut j: usize = 0;
    while j < out.len()
        invariant
            j <= out@.len(),
            forall|k: int| 0 <= k < j ==> out@[k].url@ != url@,
        decreases out@.len() - j,
    {
        if out[j].url == *url {
            return Some(j);
        }
        j = j + 1;
    }
    None
}

/// Keep only the most recent report per URL, in first-seen order.
fn dedup_last(batch: &Vec<Report>) -> (out: Vec<Report>)
    ensures
        urls_of(out@).no_duplicates(),
        url_map(out@) == url_map(batch@),
{
    let mut out: Vec<Report> = Vec::new();
    let mut i: usize = 0;
    proof {
        assert(batch@.take(0) =~= Seq::<Report>::empty());
        assert(urls_of(out@) =~= Seq::<Seq<char>>::empty());
    }
    while i < batch.len()
        invariant
            i <= batch@.len(),
            urls_of(out@).no_duplicates(),
            url_map(out@) == url_map(batch@.take(i as int)),
        decreases batch@.len() - i,
    {
        let r = batch[i].clone();
        let ghost prev = out@;
        match find_by_url(&out, &r.url) {
            Some(j) => {
                proof {
                    lemma_url_map_update(out@, j as int, r);
                }
                out[j] = r;
                proof {
                    assert(urls_of(out@) =~= urls_of(prev).update(j as int, batch@[i as int].url@));
                    assert(urls_of(out@) =~= urls_of(prev));
                }
            },
            None => {
                out.push(r);
                proof {
                    assert(out@.drop_last() =~= prev);
                    assert(urls_of(out@) =~= urls_of(prev).push(batch@[i as int].url@));
                    assert(urls_of(out@).drop_last() =~= urls_of(prev));
                    broadcast use lemma_url_map_contains;

                }
            },
        }
        i = i + 1;
        proof {
            assert(batch@.take(i as int).drop_last() =~= batch@.take(i - 1));
            assert(batch@.take(i as int).last() == batch@[i - 1]);
        }
    }
    proof {
        assert(batch@.take(batch@.len() as int) =~= batch@);
    }
    out
}

/// Sort reports by URL descending. The batch here has pairwise distinct
/// URLs, so the order is strict.
fn sort_desc(v: Vec<Report>) -> (out: Vec<Report>)
    requires
        urls_of(v@).no_duplicates(),
    ensures
        out@.to_multiset() == v@.to_multiset(),
        forall|i: int, j: int| 0 <= i < j < out@.len() ==> lex_lt(out@[j].url@, out@[i].url@),
{
    broadcast use vstd::seq_lib::group_to_multiset_ensures;

    let ghost gv = v@;
    let mut out: Vec<Report> = Vec::new();
    let mut k: usize = 0;
    proof {
        assert(gv.take(0) =~= Seq::<Report>::empty());
        assert(Seq::<Report>::empty().to_multiset() =~= out@.to_multiset());
    }
    while k < v.len()
        invariant
            k <= gv.len(),
            v@ == gv,
            urls_of(gv).no_duplicates(),
            out@.to_multiset() == gv.take(k as int).to_multiset(),
            out@.len() == k,
            forall|i: int, j: int| 0 <= i < j < out@.len() ==> lex_lt(out@[j].url@, out@[i].url@),
            forall|q: int| 0 <= q < out@.len() ==> exists|m: int|
                0 <= m < k && #[trigger] out@[q] == gv[m],
        decreases gv.len() - k,
    {
        let r = v[k].clone();
        proof {
            // r's URL differs from every URL already placed
            assert forall|q: int| 0 <= q < out@.len() implies out@[q].url@ != r.url@ by {
                let m = choose|m: int| 0 <= m < k && #[trigger] out@[q] == gv[m];
                assert(urls_of(gv)[m] != urls_of(gv)[k as int]);
            }
        }
        let mut p: usize = 0;
        while p < out.len() && str_lt(r.url.as_str(), out[p].url.as_str())
            invariant
                p <= out@.len(),
                forall|q: int| 0 <= q < p ==> lex_lt(r.url@, #[trigger] out@[q].url@),
            decreases out@.len() - p,
        {
            p = p + 1;
        }
        let ghost prev = out@;
        proof {
            if p < out@.len() {
                lemma_lex_trichotomy(r.url@, out@[p as int].url@);
            }
            vstd::seq_lib::to_multiset_insert(out@, p as int, r);
            vstd::seq_lib::to_multiset_build(gv.take(k as int), gv[k as int]);
            assert(gv.take(k + 1) =~= gv.take(k as int).push(gv[k as int]));
            assert(r == gv[k as int]);
        }
        proof {
            let pi = p as int;
            assert forall|q: int| pi <= q < prev.len() implies lex_lt(
                prev[q].url@,
                r.url@,
            ) by {
                if q > pi {
                    lemma_lex_transitive(prev[q].url@, prev[pi].url@, r.url@);
                }
            }
        }
        out.insert(p, r);
        k = k + 1;
        proof {
            let pi = p as int;
            assert forall|i: int, j: int| 0 <= i < j < out@.len() implies lex_lt(
                out@[j].url@,
                out@[i].url@,
            ) by {
                if i < pi && j == pi {
                    assert(out@[i] == prev[i]);
                    assert(out@[j] == r);
                } else if i < pi && j > pi {
                    assert(out@[i] == prev[i]);
                    assert(out@[j] == prev[j - 1]);
                    lemma_lex_transitive(prev[j - 1].url@, r.url@, prev[i].url@);
                } else if i == pi && j > pi {
                    assert(out@[j] == prev[j - 1]);
                } else if j < pi {
                    assert(out@[i] == prev[i]);
                    assert(out@[j] == prev[j]);
                } else if i > pi {
                    assert(out@[i] == prev[i - 1]);
                    assert(out@[j] == prev[j - 1]);
                }
            }
            assert forall|q: int| 0 <= q < out@.len() implies exists|m: int|
                0 <= m < k && #[trigger] out@[q] == gv[m] by {
                if q < p {
                    assert(out@[q] == prev[q]);
                } else if q == p {
                    assert(out@[q] == gv[k - 1]);
                } else {
                    assert(out@[q] == prev[q - 1]);
                }
            }
        }
    }
    proof {
        assert(gv.take(gv.len() as int) =~= gv);
    }
    out
}

/// One report per distinct URL of the batch — the most recent — ordered by
/// URL descending.
pub fn dedup_batch(batch: &Vec<Report>) -> (out: Vec<Report>)
    ensures
        survivors_ok(batch@, out@),
{
    let deduped = dedup_last(batch);
    let ghost dd = deduped@;
    let out = sort_desc(deduped);
    proof {
        broadcast use vstd::seq_lib::group_to_multiset_ensures;

        // multiset equality carries membership both ways
        assert forall|q: int| 0 <= q < out@.len() implies exists|m: int|
            0 <= m < dd.len() && #[trigger] out@[q] == dd[m] by {
            assert(out@.contains(out@[q]));
            assert(out@.to_multiset().count(out@[q]) > 0);
            assert(dd.contains(out@[q]));
            let m = choose|m: int| 0 <= m < dd.len() && dd[m] == out@[q];
            assert(out@[q] == dd[m]);
        }
        lemma_url_map_distinct(dd);
        assert forall|j: int| 0 <= j < out@.len() implies #[trigger] url_map(
            batch@,
        ).contains_key(out@[j].url@) && out@[j] == url_map(batch@)[out@[j].url@] by {
            let m = choose|m: int| 0 <= m < dd.len() && #[trigger] out@[j] == dd[m];
            assert(url_map(dd).contains_key(dd[m].url@));
        }
        assert forall|u: Seq<char>| url_map(batch@).contains_key(u) implies exists|j: int|
            0 <= j < out@.len() && #[trigger] out@[j].url@ == u by {
            broadcast use lemma_url_map_contains;

            assert(url_map(dd).contains_key(u));
            let m = choose|m: int| 0 <= m < dd.len() && #[trigger] dd[m].url@ == u;
            assert(dd.contains(dd[m]));
            assert(dd.to_multiset().count(dd[m]) > 0);
            assert(out@.contains(dd[m]));
            let j = choose|j: int| 0 <= j < out@.len() && out@[j] == dd[m];
            assert(out@[j].url@ == u);
        }
        // distinct URLs survive the permutation, given strict sortedness
        assert forall|i: int, j: int| 0 <= i < j < out@.len() implies urls_of(out@)[i] != urls_of(
            out@,
        )[j] by {
            lemma_lex_trichotomy(out@[j].url@, out@[i].url@);
        }
    }
    out
}

/// Whether some report in `s` carries the URL `u`.
pub open spec fn covers(s: Seq<Report>, u: Seq<char>) -> bool {
    exists|j: int| 0 <= j < s.len() && #[trigger] s[j].url@ == u
}

/// Only one sequence satisfies the deduplication contract for a given
/// batch: the message body is thereby a function of the batch.
pub proof fn lemma_survivors_unique(batch: Seq<Report>, a: Seq<Report>, b: Seq<Report>)
    requires
        survivors_ok(batch, a),
        survivors_ok(batch, b),
    ensures
        a == b,
{
    let m = url_map(batch);
    assert forall|i: int| 0 <= i < a.len() implies #[trigger] covers(b, a[i].url@) by {
        assert(m.contains_key(a[i].url@));
    }
    assert forall|j: int| 0 <= j < b.len() implies #[trigger] covers(a, b[j].url@) by {
        assert(m.contains_key(b[j].url@));
    }
    lemma_sorted_selection_unique(m, a, b);
}

/// Two strictly descending selections from the same map that cover the same
/// keys are the same sequence.
proof fn lemma_sorted_selection_unique(m: Map<Seq<char>, Report>, a: Seq<Report>, b: Seq<Report>)
    requires
        forall|i: int, j: int| 0 <= i < j < a.len() ==> lex_lt(a[j].url@, a[i].url@),
        forall|i: int, j: int| 0 <= i < j < b.len() ==> lex_lt(b[j].url@, b[i].url@),
        forall|j: int| 0 <= j < a.len() ==> #[trigger] m.contains_key(a[j].url@) && a[j]
            == m[a[j].url@],
        forall|j: int| 0 <= j < b.len() ==> #[trigger] m.contains_key(b[j].url@) && b[j]
            == m[b[j].url@],
        forall|i: int| 0 <= i < a.len() ==> #[trigger] covers(b, a[i].url@),
        forall|j: int| 0 <= j < b.len() ==> #[trigger] covers(a, b[j].url@),
    ensures
        a == b,
    decreases a.len(),
{
    if a.len() == 0 {
        if b.len() > 0 {
            assert(covers(a, b[0].url@));
            assert(false);
        }
        assert(a =~= b);
    } else {
        if b.len() == 0 {
            assert(covers(b, a[0].url@));
            assert(false);
        }
        // the heads carry the same (largest) URL
        if a[0].url@ != b[0].url@ {
            lemma_lex_trichotomy(a[0].url@, b[0].url@);
            if lex_lt(a[0].url@, b[0].url@) {
                assert(covers(a, b[0].url@));
                let i = choose|i: int| 0 <= i < a.len() && #[trigger] a[i].url@ == b[0].url@;
                assert(i > 0);
                assert(lex_lt(a[i].url@, a[0].url@));
                lemma_lex_trichotomy(b[0].url@, a[0].url@);
                assert(false);
            } else {
                assert(covers(b, a[0].url@));
                let j = choose|j: int| 0 <= j < b.len() && #[trigger] b[j].url@ == a[0].url@;
                assert(j > 0);
                assert(lex_lt(b[j].url@, b[0].url@));
                lemma_lex_trichotomy(a[0].url@, b[0].url@);
                assert(false);
            }
        }
        assert(m.contains_key(a[0].url@));
        assert(m.contains_key(b[0].url@));
        assert(a[0] == m[a[0].url@]);
        assert(a[0] == b[0]);
        let at = a.drop_first();
        let bt = b.drop_first();
        assert forall|i: int| 0 <= i < at.len() implies #[trigger] covers(bt, at[i].url@) by {
            let u = at[i].url@;
            assert(a[i + 1].url@ == u);
            assert(lex_lt(u, a[0].url@));
            assert(covers(b, a[i + 1].url@));
            let j = choose|j: int| 0 <= j < b.len() && #[trigger] b[j].url@ == u;
            lemma_lex_trichotomy(u, b[0].url@);
            assert(j > 0);
            assert(bt[j - 1].url@ == u);
        }
        assert forall|j: int| 0 <= j < bt.len() implies #[trigger] covers(at, bt[j].url@) by {
            let u = bt[j].url@;
            assert(b[j + 1].url@ == u);
            assert(lex_lt(u, b[0].url@));
            assert(covers(a, b[j + 1].url@));
            let i = choose|i: int| 0 <= i < a.len() && #[trigger] a[i].url@ == u;
            lemma_lex_trichotomy(u, a[0].url@);
            assert(i > 0);
            assert(at[i - 1].url@ == u);
        }
        assert forall|j: int| 0 <= j < at.len() implies #[trigger] m.contains_key(at[j].url@)
            && at[j] == m[at[j].url@] by {
            assert(m.contains_key(a[j + 1].url@));
        }
        assert forall|j: int| 0 <= j < bt.len() implies #[trigger] m.contains_key(bt[j].url@)
            && bt[j] == m[bt[j].url@] by {
            assert(m.contains_key(b[j + 1].url@));
        }
        lemma_sorted_selection_unique(m, at, bt);
        assert(a =~= seq![a[0]] + at);
        assert(b =~= seq![b[0]] + bt);
    }
}

/// How many distinct URLs a batch mentions.
pub open spec fn distinct_url_count(batch: Seq<Report>) -> nat {
    url_map(batch).dom().len()
}

/// The outgoing message holds exactly one line per distinct URL of the
/// batch: the deduplicated sequence, which yields one line per element, has
/// as many elements as the batch has distinct URLs.
pub proof fn lemma_one_line_per_url(batch: Seq<Report>, out: Seq<Report>)
    requires
        survivors_ok(batch, out),
    ensures
        out.len() == distinct_url_count(batch),
{
    broadcast use lemma_url_map_contains;

    assert(urls_of(out).to_set() =~= url_map(batch).dom()) by {
        assert forall|u: Seq<char>| urls_of(out).to_set().contains(u) implies url_map(
            batch,
        ).contains_key(u) by {
            let j = choose|j: int| 0 <= j < urls_of(out).len() && urls_of(out)[j] == u;
            assert(out[j].url@ == u);
        }
        assert forall|u: Seq<char>| url_map(batch).contains_key(u) implies urls_of(
            out,
        ).to_set().contains(u) by {
            let j = choose|j: int| 0 <= j < out.len() && #[trigger] out[j].url@ == u;
            assert(urls_of(out)[j] == u);
        }
    }
    urls_of(out).unique_seq_to_set();
}

/// The formatted line for one surviving report.
pub open spec fn spec_line(r: Report) -> Seq<char> {
    if r.still {
        r.url@ + " is still "@ + r.status.spec_name() + "\n"@
    } else if r.status == Status::Healthy {
        r.url@ + " is now "@ + r.status.spec_name() + " 🎉\n"@
    } else {
        r.url@ + " reported "@ + r.status.spec_name() + " ("@ + r.reason@ + ")\n"@
    }
}

/// The lines for the surviving reports, in order.
pub open spec fn spec_lines(s: Seq<Report>) -> Seq<char>
    decreases s.len(),
{
    if s.len() == 0 {
        Seq::<char>::empty()
    } else {
        spec_lines(s.drop_last()) + spec_line(s.last())
    }
}

/// Whether the surviving reports contain a fresh bad transition, which
/// escalates the message with a channel mention.
pub open spec fn spec_mention(s: Seq<Report>) -> bool {
    exists|i: int| 0 <= i < s.len() && !s[i].still && s[i].status != Status::Healthy
}

/// The whole message body.
pub open spec fn spec_body(s: Seq<Report>) -> Seq<char> {
    (if spec_mention(s) {
        "<!channel>\n"@
    } else {
        Seq::<char>::empty()
    }) + spec_lines(s)
}

/// One formatted line: a reminder, a recovery celebration, or a fresh bad
/// report with its reason.
pub fn format_line(r: &Report) -> (line: String)
    ensures
        line@ == spec_line(*r),
{
    let mut line = r.url.clone();
    if r.still {
        line.append(" is still ");
        line.append(r.status.name().as_str());
        line.append("\n");
    } else if r.status.is_good() {
        line.append(" is now ");
        line.append(r.status.name().as_str());
        line.append(" 🎉\n");
    } else {
        line.append(" reported ");
        line.append(r.status.name().as_str());
        line.append(" (");
        line.append(r.reason.as_str());
        line.append(")\n");
    }
    line
}

/// The flush step: reduce the batch to its survivors and format the
/// outgoing message body.
pub fn format_batch(batch: &Vec<Report>) -> (body: String)
    ensures
        exists|out: Seq<Report>|
            #[trigger] survivors_ok(batch@, out) && body@ == spec_body(out),
{
    let survivors = dedup_batch(batch);
    let mut mention = false;
    let mut i: usize = 0;
    while i < survivors.len()
        invariant
            i <= survivors@.len(),
            mention == exists|j: int|
                0 <= j < i && !survivors@[j].still && survivors@[j].status != Status::Healthy,
        decreases survivors@.len() - i,
    {
        let r = &survivors[i];
        if !r.still && !r.status.is_good() {
            mention = true;
        }
        i = i + 1;
    }
    let mut body = String::new();
    if mention {
        body.append("<!channel>\n");
    }
    let mut k: usize = 0;
    proof {
        assert(spec_lines(survivors@.take(0)) =~= Seq::<char>::empty());
        assert(body@ =~= (if spec_mention(survivors@) {
            "<!channel>\n"@
        } else {
            Seq::<char>::empty()
        }) + spec_lines(survivors@.take(0)));
    }
    while k < survivors.len()
        invariant
            k <= survivors@.len(),
            body@ == (if spec_mention(survivors@) {
                "<!channel>\n"@
            } else {
                Seq::<char>::empty()
            }) + spec_lines(survivors@.take(k as int)),
        decreases survivors@.len() - k,
    {
        let line = format_line(&survivors[k]);
        body.append(line.as_str());
        k = k + 1;
        proof {
            assert(survivors@.take(k as int).drop_last() =~= survivors@.take(k - 1));
            assert(survivors@.take(k as int).last() == survivors@[k - 1]);
        }
    }
    proof {
        assert(survivors@.take(survivors@.len() as int) =~= survivors@);
    }
    body
}

} // verus!
