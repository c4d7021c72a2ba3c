//! The registry: the mapping from URL to persisted record and live probe
//! task. Inserts are idempotent upserts that never clobber the probe's
//! status, probes never clobber the user's data, and a task is spawned only
//! by the branch that sees the key go from absent to present.

use vstd::prelude::*;
use crate::record::UrlValue;
use crate::status::Status;

verus! {

/// Ghost image of a persisted record: each field as its abstract value.
pub struct RecordV {
    pub url: Option<Seq<char>>,
    pub status: Status,
    pub reason: Seq<char>,
    pub data: Seq<char>,
}

impl View for UrlValue {
    type V = RecordV;

    open spec fn view(&self) -> RecordV {
        RecordV {
            url: match self.url {
                Some(u) => Some(u@),
                None => None,
            },
            status: self.status,
            reason: self.reason@,
            data: self.data@,
        }
    }
}

/// Ghost image of one registry entry: the key, the record, and whether a
/// health-checker task is running for it.
pub struct EntryV {
    pub url: Seq<char>,
    pub value: RecordV,
    pub task: bool,
}

/// The record a fresh insert installs, as a ghost image.
pub open spec fn fresh_v(data: Seq<char>) -> RecordV {
    RecordV { url: None, status: Status::Healthy, reason: Seq::<char>::empty(), data }
}

/// Index of the entry for `u`, or -1 when no entry has that key.
pub open spec fn find_idx(s: Seq<EntryV>, u: Seq<char>) -> int
    decreases s.len(),
{
    if s.len() == 0 {
        -1
    } else if s[0].url == u {
        0
    } else {
        let r = find_idx(s.drop_first(), u);
        if r == -1 {
            -1
        } else {
            r + 1
        }
    }
}

pub broadcast proof fn lemma_find_idx(s: Seq<EntryV>, u: Seq<char>)
    ensures
        -1 <= #[trigger] find_idx(s, u) < s.len(),
        find_idx(s, u) >= 0 ==> s[find_idx(s, u)].url == u,
        forall|j: int| 0 <= j < find_idx(s, u) ==> s[j].url != u,
        find_idx(s, u) == -1 ==> forall|j: int| 0 <= j < s.len() ==> s[j].url != u,
    decreases s.len(),
{
    if s.len() > 0 && s[0].url != u {
        lemma_find_idx(s.drop_first(), u);
        assert forall|j: int| 1 <= j < s.len() implies s[j] == s.drop_first()[j - 1] by {}
    }
}

/// A user insert as a model transition: install a fresh healthy record and
/// start a task when the key is absent; otherwise overwrite only `data`,
/// preserving the probe's `status` and `reason` and the running task.
pub open spec fn insert_model(s: Seq<EntryV>, u: Seq<char>, d: Seq<char>) -> Seq<EntryV> {
    let i = find_idx(s, u);
    if i == -1 {
        s.push(EntryV { url: u, value: fresh_v(d), task: true })
    } else {
        s.update(
            i,
            EntryV { url: u, value: RecordV { data: d, ..s[i].value }, task: s[i].task },
        )
    }
}

/// A probe patch as a model transition: overwrite `status` and `reason` of
/// an existing record, preserving the user's `data`; absent keys are left
/// absent.
pub open spec fn probe_model(
    s: Seq<EntryV>,
    u: Seq<char>,
    status: Status,
    reason: Seq<char>,
) -> Seq<EntryV> {
    let i = find_idx(s, u);
    if i == -1 {
        s
    } else {
        s.update(
            i,
            EntryV { url: u, value: RecordV { status, reason, ..s[i].value }, task: s[i].task },
        )
    }
}

/// A delete as a model transition: remove the entry if present.
pub open spec fn delete_model(s: Seq<EntryV>, u: Seq<char>) -> Seq<EntryV> {
    let i = find_idx(s, u);
    if i == -1 {
        s
    } else {
        s.remove(i)
    }
}

/// No two entries share a key.
pub open spec fn distinct_urls(s: Seq<EntryV>) -> bool {
    forall|i: int, j: int| 0 <= i < j < s.len() ==> s[i].url != s[j].url
}

struct RegEntry {
    url: String,
    value: UrlValue,
    task: bool,
}

impl RegEntry {
    spec fn view_entry(&self) -> EntryV {
        EntryV { url: self.url@, value: self.value@, task: self.task }
    }
}

/// The in-memory registry of monitored URLs.
pub struct Registry {
    entries: Vec<RegEntry>,
}

impl Registry {
    /// The registry's contents, in entry order.
    pub closed spec fn model(self) -> Seq<EntryV> {
        self.entries@.map(|i: int, e: RegEntry| e.view_entry())
    }

    pub open spec fn wf(self) -> bool {
        distinct_urls(self.model())
    }

    /// An empty registry.
    pub fn new() -> (r: Registry)
        ensures
            r.model() == Seq::<EntryV>::empty(),
            r.wf(),
    {
        let r = Registry { entries: Vec::new() };
        proof {
            assert(r.model() =~= Seq::<EntryV>::empty());
        }
        r
    }

    /// Index of the entry for `url`, scanning in entry order.
    fn find(&self, url: &String) -> (r: Option<usize>)
        ensures
            match r {
                Some(i) => i == find_idx(self.model(), url@),
                None => find_idx(self.model(), url@) == -1,
            },
    {
        proof {
            lemma_find_idx(self.model(), url@);
        }
        let mut i: usize = 0;
        while i < self.entries.len()
            invariant
                i <= self.entries@.len(),
                self.model().len() == self.entries@.len(),
                forall|j: int| 0 <= j < i ==> self.model()[j].url != url@,
                -1 <= find_idx(self.model(), url@) < self.model().len(),
                find_idx(self.model(), url@) >= 0 ==> self.model()[find_idx(
                    self.model(),
                    url@,
                )].url == url@,
                find_idx(self.model(), url@) == -1 ==> forall|j: int|
                    0 <= j < self.model().len() ==> self.model()[j].url != url@,
                forall|j: int| 0 <= j < find_idx(self.model(), url@) ==> self.model()[j].url
                    != url@,
            decreases self.entries@.len() - i,
        {
            proof {
                assert(self.model()[i as int] == self.entries@[i as int].view_entry());
            }
            if self.entries[i].url == *url {
                proof {
                    assert(self.model()[i as int].url == url@);
                }
                return Some(i);
            }
            proof {
                assert(self.model()[i as int].url != url@);
            }
            i = i + 1;
        }
        None
    }

    /// Insert or update: when the key is absent, install a fresh healthy
    /// record carrying the user's data and spawn a task (second result
    /// true); when present, overwrite only `data`. Returns the resulting
    /// stored record.
    pub fn insert(&mut self, url: &String, data: String) -> (r: (UrlValue, bool))
        requires
            old(self).wf(),
        ensures
            final(self).model() == insert_model(old(self).model(), url@, data@),
            final(self).wf(),
            r.1 == (find_idx(old(self).model(), url@) == -1),
            ({
                let i = find_idx(final(self).model(), url@);
                &&& i >= 0
                &&& r.0@ == final(self).model()[i].value
            }),
    {
        proof {
            lemma_find_idx(self.model(), url@);
        }
        match self.find(url) {
            None => {
                let value = UrlValue::fresh(data);
                let result = value.clone();
                self.entries.push(RegEntry { url: url.clone(), value, task: true });
                proof {
                    assert(self.model() =~= insert_model(old(self).model(), url@, result.data@));
                    lemma_find_idx(self.model(), url@);
                    lemma_find_idx_last(self.model(), url@);
                }
                (result, true)
            },
            Some(i) => {
                let e = &self.entries[i];
                let value = e.value.user_patch(&data);
                let task = e.task;
                let result = value.clone();
                self.entries[i] = RegEntry { url: url.clone(), value, task };
                proof {
                    assert(self.model() =~= insert_model(old(self).model(), url@, data@));
                    lemma_find_idx_update(old(self).model(), url@, i as int);
                }
                (result, false)
            },
        }
    }

    /// The probe loop's atomic patch: overwrite `status` and `reason`,
    /// preserve `data`; `None` when the key is absent (the URL was removed
    /// and the caller's task must exit).
    pub fn probe_update(&mut self, url: &String, status: Status, reason: &String) -> (r: Option<
        UrlValue,
    >)
        requires
            old(self).wf(),
        ensures
            final(self).model() == probe_model(old(self).model(), url@, status, reason@),
            final(self).wf(),
            r is Some <==> find_idx(old(self).model(), url@) >= 0,
            r matches Some(v) ==> v@ == final(self).model()[find_idx(old(self).model(), url@)].value,
    {
        proof {
            lemma_find_idx(self.model(), url@);
        }
        match self.find(url) {
            None => None,
            Some(i) => {
                let e = &self.entries[i];
                let value = e.value.probe_patch(status, reason);
                let task = e.task;
                let result = value.clone();
                self.entries[i] = RegEntry { url: url.clone(), value, task };
                proof {
                    assert(self.model() =~= probe_model(old(self).model(), url@, status, reason@));
                    lemma_find_idx_update(old(self).model(), url@, i as int);
                }
                Some(result)
            },
        }
    }

    /// The persisted record for `url`, or `None` when it is not registered.
    pub fn read(&self, url: &String) -> (r: Option<UrlValue>)
        ensures
            r is Some <==> find_idx(self.model(), url@) >= 0,
            r matches Some(v) ==> v@ == self.model()[find_idx(self.model(), url@)].value,
    {
        proof {
            lemma_find_idx(self.model(), url@);
        }
        match self.find(url) {
            None => None,
            Some(i) => Some(self.entries[i].value.clone()),
        }
    }

    /// Remove `url`'s entry, returning the removed record; its task will
    /// observe the absence and exit.
    pub fn delete(&mut self, url: &String) -> (r: Option<UrlValue>)
        requires
            old(self).wf(),
        ensures
            final(self).model() == delete_model(old(self).model(), url@),
            final(self).wf(),
            r is Some <==> find_idx(old(self).model(), url@) >= 0,
            r matches Some(v) ==> v@ == old(self).model()[find_idx(old(self).model(), url@)].value,
    {
        proof {
            lemma_find_idx(self.model(), url@);
        }
        match self.find(url) {
            None => None,
            Some(i) => {
                let e = self.entries.remove(i);
                proof {
                    assert(self.model() =~= delete_model(old(self).model(), url@));
                    lemma_distinct_remove(old(self).model(), i as int);
                }
                Some(e.value)
            },
        }
    }

    /// All records in entry order, each with its URL attached so the emitted
    /// collection identifies its subjects.
    pub fn list(&self) -> (r: Vec<UrlValue>)
        ensures
            r@.len() == self.model().len(),
            forall|i: int| 0 <= i < r@.len() ==> #[trigger] r@[i]@ == (RecordV {
                url: Some(self.model()[i].url),
                ..self.model()[i].value
            }),
    {
        let mut out: Vec<UrlValue> = Vec::new();
        let mut i: usize = 0;
        while i < self.entries.len()
            invariant
                i <= self.entries@.len(),
                self.model().len() == self.entries@.len(),
                out@.len() == i,
                forall|j: int| 0 <= j < i ==> #[trigger] out@[j]@ == (RecordV {
                    url: Some(self.model()[j].url),
                    ..self.model()[j].value
                }),
            decreases self.entries@.len() - i,
        {
            let e = &self.entries[i];
            out.push(e.value.with_url(&e.url));
            i = i + 1;
        }
        out
    }

    /// Boot-time rehydration: adopt the pairs loaded from the store, one
    /// entry per key, and mark a task running for each. No events are
    /// emitted when rebuilding from the store.
    pub fn rehydrate(pairs: Vec<(String, UrlValue)>) -> (r: Registry)
        requires
            forall|i: int, j: int| 0 <= i < j < pairs@.len() ==> pairs@[i].0@ != pairs@[j].0@,
        ensures
            r.model().len() == pairs@.len(),
            forall|i: int| 0 <= i < pairs@.len() ==> #[trigger] r.model()[i] == (EntryV {
                url: pairs@[i].0@,
                value: pairs@[i].1@,
                task: true,
            }),
            r.wf(),
    {
        let ghost gpairs = pairs@;
        let n = pairs.len();
        let mut entries: Vec<RegEntry> = Vec::new();
        let mut rest = pairs;
        let mut i: usize = 0;
        while rest.len() > 0
            invariant
                gpairs.len() == n,
                gpairs.len() == i + rest@.len(),
                rest@ =~= gpairs.skip(i as int),
                entries@.len() == i,
                forall|j: int| 0 <= j < i ==> #[trigger] entries@[j].view_entry() == (EntryV {
                    url: gpairs[j].0@,
                    value: gpairs[j].1@,
                    task: true,
                }),
            decreases rest@.len(),
        {
            let (url, value) = rest.remove(0);
            entries.push(RegEntry { url, value, task: true });
            i = i + 1;
            proof {
                assert(rest@ =~= gpairs.skip(i as int));
            }
        }
        let r = Registry { entries };
        proof {
            assert(forall|j: int| 0 <= j < gpairs.len() ==> #[trigger] r.model()[j] == (EntryV {
                url: gpairs[j].0@,
                value: gpairs[j].1@,
                task: true,
            }));
        }
        r
    }
}

proof fn lemma_find_idx_last(s: Seq<EntryV>, u: Seq<char>)
    requires
        s.len() > 0,
        s.last().url == u,
        forall|j: int| 0 <= j < s.len() - 1 ==> s[j].url != u,
    ensures
        find_idx(s, u) == s.len() - 1,
    decreases s.len(),
{
    if s.len() > 1 {
        lemma_find_idx_last(s.drop_first(), u);
    }
}

proof fn lemma_find_idx_update(s: Seq<EntryV>, u: Seq<char>, i: int)
    requires
        0 <= i < s.len(),
        find_idx(s, u) == i,
    ensures
        forall|e: EntryV| e.url == u ==> find_idx(s.update(i, e), u) == i,
    decreases s.len(),
{
    lemma_find_idx(s, u);
    assert forall|e: EntryV| e.url == u implies find_idx(s.update(i, e), u) == i by {
        lemma_find_idx_frame(s.update(i, e), u, i);
    }
}

/// When position `i` holds `u` and nothing before it does, `find_idx` is `i`.
proof fn lemma_find_idx_frame(s: Seq<EntryV>, u: Seq<char>, i: int)
    requires
        0 <= i < s.len(),
        s[i].url == u,
        forall|j: int| 0 <= j < i ==> s[j].url != u,
    ensures
        find_idx(s, u) == i,
    decreases s.len(),
{
    if i > 0 {
        lemma_find_idx_frame(s.drop_first(), u, i - 1);
    }
}

proof fn lemma_distinct_remove(s: Seq<EntryV>, i: int)
    requires
        0 <= i < s.len(),
        distinct_urls(s),
    ensures
        distinct_urls(s.remove(i)),
{
}

/// A sequence of user inserts for the same key, applied in order.
pub open spec fn insert_all(s: Seq<EntryV>, u: Seq<char>, ds: Seq<Seq<char>>) -> Seq<EntryV>
    decreases ds.len(),
{
    if ds.len() == 0 {
        s
    } else {
        insert_all(insert_model(s, u, ds[0]), u, ds.drop_first())
    }
}

/// A fresh insert installs a healthy record carrying the user's data: when
/// the key was absent, inserting and then reading it back finds `data`
/// equal to what was inserted and `status` healthy.
pub proof fn lemma_fresh_insert_read(s: Seq<EntryV>, u: Seq<char>, d: Seq<char>)
    requires
        find_idx(s, u) == -1,
    ensures
        ({
            let s1 = insert_model(s, u, d);
            let i = find_idx(s1, u);
            &&& 0 <= i < s1.len()
            &&& s1[i].value.data == d
            &&& s1[i].value.status == Status::Healthy
            &&& s1[i].value.reason == Seq::<char>::empty()
            &&& s1[i].task
        }),
{
    lemma_find_idx(s, u);
    let s1 = insert_model(s, u, d);
    lemma_find_idx_last(s1, u);
}

/// User inserts leave the probe's last word in place: after a probe patch
/// sets `status` and `reason` for a registered key, any sequence of user
/// inserts for that key keeps that `status` and that `reason`.
pub proof fn lemma_inserts_keep_probe_fields(
    s: Seq<EntryV>,
    u: Seq<char>,
    status: Status,
    reason: Seq<char>,
    ds: Seq<Seq<char>>,
)
    requires
        find_idx(s, u) >= 0,
    ensures
        ({
            let s2 = insert_all(probe_model(s, u, status, reason), u, ds);
            let i = find_idx(s, u);
            &&& find_idx(s2, u) == i
            &&& s2[i].value.status == status
            &&& s2[i].value.reason == reason
        }),
{
    lemma_find_idx(s, u);
    let i = find_idx(s, u);
    let s1 = probe_model(s, u, status, reason);
    lemma_find_idx_update(s, u, i);
    lemma_inserts_keep(s1, u, ds);
}

/// Helper for the law above: inserts for a present key keep its index,
/// status and reason.
proof fn lemma_inserts_keep(s: Seq<EntryV>, u: Seq<char>, ds: Seq<Seq<char>>)
    requires
        find_idx(s, u) >= 0,
    ensures
        ({
            let s2 = insert_all(s, u, ds);
            let i = find_idx(s, u);
            &&& find_idx(s2, u) == i
            &&& s2[i].value.status == s[i].value.status
            &&& s2[i].value.reason == s[i].value.reason
        }),
    decreases ds.len(),
{
    lemma_find_idx(s, u);
    let i = find_idx(s, u);
    if ds.len() > 0 {
        let s1 = insert_model(s, u, ds[0]);
        lemma_find_idx_update(s, u, i);
        lemma_inserts_keep(s1, u, ds.drop_first());
    }
}

/// Inserting a key and then deleting it leaves it unregistered: a read
/// after `insert(u, d); delete(u)` finds nothing.
pub proof fn lemma_insert_delete_read(s: Seq<EntryV>, u: Seq<char>, d: Seq<char>)
    requires
        distinct_urls(s),
    ensures
        find_idx(delete_model(insert_model(s, u, d), u), u) == -1,
{
    lemma_find_idx(s, u);
    let i = find_idx(s, u);
    let s1 = insert_model(s, u, d);
    let s2 = delete_model(s1, u);
    if i == -1 {
        lemma_find_idx_last(s1, u);
        assert(s2 =~= s);
    } else {
        lemma_find_idx_update(s, u, i);
        assert(forall|j: int| 0 <= j < s2.len() ==> s2[j].url != u) by {
            assert(forall|j: int| 0 <= j < i ==> s2[j] == s1[j]);
            assert(forall|j: int| i <= j < s2.len() ==> s2[j] == s1[j + 1]);
        }
        lemma_find_idx(s2, u);
        if find_idx(s2, u) >= 0 {
            assert(s2[find_idx(s2, u)].url == u);
        }
    }
}

/// How many entries for `u` have a running task.
pub open spec fn task_count(s: Seq<EntryV>, u: Seq<char>) -> int
    decreases s.len(),
{
    if s.len() == 0 {
        0
    } else {
        task_count(s.drop_last(), u) + (if s.last().url == u && s.last().task {
            1int
        } else {
            0int
        })
    }
}

/// Every URL in a well-formed registry has at most one running
/// health-checker task.
pub proof fn lemma_at_most_one_task(s: Seq<EntryV>, u: Seq<char>)
    requires
        distinct_urls(s),
    ensures
        task_count(s, u) <= 1,
    decreases s.len(),
{
    if s.len() > 0 {
        if s.last().url == u {
            lemma_task_count_absent(s.drop_last(), u);
        } else {
            lemma_at_most_one_task(s.drop_last(), u);
        }
    }
}

proof fn lemma_task_count_absent(s: Seq<EntryV>, u: Seq<char>)
    requires
        forall|j: int| 0 <= j < s.len() ==> s[j].url != u,
    ensures
        task_count(s, u) == 0,
    decreases s.len(),
{
    if s.len() > 0 {
        lemma_task_count_absent(s.drop_last(), u);
    }
}

} // verus!
