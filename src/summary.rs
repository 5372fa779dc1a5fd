use vstd::prelude::*;
use vstd::string::*;

use crate::shorten::{last_segment, opt_view, short_image, short_image_of, task_version};
use crate::timestamp::{
    all_wf, any_present, is_newest, lemma_ms_injective, newest_time_or, now_seconds, Timestamp,
    HOUR_MILLIS,
};

verus! {

/// One container of a task, as the cluster reports it.
pub struct ContainerRecord {
    pub image: Option<String>,
}

/// One task, as the cluster reports it: every field may be absent.
pub struct TaskRecord {
    pub connectivity_at: Option<Timestamp>,
    pub created_at: Option<Timestamp>,
    pub execution_stopped_at: Option<Timestamp>,
    pub pull_started_at: Option<Timestamp>,
    pub pull_stopped_at: Option<Timestamp>,
    pub started_at: Option<Timestamp>,
    pub task_definition_arn: Option<String>,
    pub last_status: Option<String>,
    pub containers: Option<Vec<ContainerRecord>>,
}

impl TaskRecord {
    /// The lifecycle event times of the task, in a fixed order.
    pub open spec fn event_times(self) -> Seq<Option<Timestamp>> {
        seq![
            self.connectivity_at,
            self.created_at,
            self.execution_stopped_at,
            self.pull_started_at,
            self.pull_stopped_at,
            self.started_at,
        ]
    }

    pub open spec fn wf(self) -> bool {
        all_wf(self.event_times())
    }
}

/// One task's monitored state.
#[derive(Debug)]
pub struct TaskSummary {
    pub timestamp: Timestamp,
    pub last_status: String,
    pub task_version: String,
    pub images: Vec<String>,
}

/// What a `TaskSummary` holds, as mathematical values.
pub struct SummaryView {
    pub timestamp: Timestamp,
    pub last_status: Seq<char>,
    pub task_version: Seq<char>,
    pub images: Seq<Seq<char>>,
}

pub open spec fn strings_view(v: Seq<String>) -> Seq<Seq<char>> {
    v.map_values(|s: String| s@)
}

impl View for TaskSummary {
    type V = SummaryView;

    open spec fn view(&self) -> SummaryView {
        SummaryView {
            timestamp: self.timestamp,
            last_status: self.last_status@,
            task_version: self.task_version@,
            images: strings_view(self.images@),
        }
    }
}

/// A snapshot as a sequence of summary views.
pub open spec fn snapshot_view(s: Seq<TaskSummary>) -> Seq<SummaryView> {
    s.map_values(|t: TaskSummary| t@)
}

/// The short image names of a task's containers, in the order given.
pub open spec fn images_of(containers: Option<Vec<ContainerRecord>>) -> Seq<Seq<char>> {
    match containers {
        Some(v) => v@.map_values(|c: ContainerRecord| short_image_of(c.image)),
        None => Seq::empty(),
    }
}

/// The representative time of a task: its newest event time, or `now`.
pub open spec fn representative_time(rec: TaskRecord, now: Timestamp) -> Timestamp {
    if any_present(rec.event_times()) {
        choose|t: Timestamp| t.wf() && is_newest(rec.event_times(), t)
    } else {
        now
    }
}

/// The summary of one task record.
pub open spec fn summary_of(rec: TaskRecord, now: Timestamp) -> SummaryView {
    SummaryView {
        timestamp: representative_time(rec, now),
        last_status: opt_view(rec.last_status),
        task_version: last_segment(opt_view(rec.task_definition_arn)),
        images: images_of(rec.containers),
    }
}

/// Where a summary at time `t` goes in `s`: after every element from the end
/// backwards that is later than `t`.
pub open spec fn insertion_point(s: Seq<SummaryView>, t: int) -> int
    decreases s.len(),
{
    if s.len() == 0 {
        0
    } else if s.last().timestamp.ms() <= t {
        s.len() as int
    } else {
        insertion_point(s.drop_last(), t)
    }
}

/// `s` ordered by time, ascending; summaries at the same time keep their order.
pub open spec fn sorted_stable(s: Seq<SummaryView>) -> Seq<SummaryView>
    decreases s.len(),
{
    if s.len() == 0 {
        s
    } else {
        let r = sorted_stable(s.drop_last());
        r.insert(insertion_point(r, s.last().timestamp.ms()), s.last())
    }
}

/// The snapshot that a list of task records gives.
pub open spec fn snapshot_of(recs: Seq<TaskRecord>, now: Timestamp) -> Seq<SummaryView> {
    sorted_stable(recs.map_values(|r: TaskRecord| summary_of(r, now)))
}

pub open spec fn is_sorted(s: Seq<SummaryView>) -> bool {
    forall|i: int, j: int|
        0 <= i < j < s.len() ==> (#[trigger] s[i]).timestamp.ms() <= (#[trigger] s[j]).timestamp.ms()
}

pub open spec fn all_records_wf(recs: Seq<TaskRecord>) -> bool {
    forall|i: int| 0 <= i < recs.len() ==> (#[trigger] recs[i]).wf()
}

/// The short image names of a task's containers.
pub fn images(containers: &Option<Vec<ContainerRecord>>) -> (r: Vec<String>)
    ensures
        strings_view(r@) == images_of(*containers),
{
    let mut out: Vec<String> = Vec::new();
    match containers {
        Some(v) => {
            let mut i: usize = 0;
            while i < v.len()
                invariant
                    i <= v@.len(),
                    strings_view(out@) =~= v@.take(i as int).map_values(
                        |c: ContainerRecord| short_image_of(c.image),
                    ),
                decreases v@.len() - i,
            {
                let s = short_image(&v[i].image);
                let ghost before = out@;
                out.push(s);
                proof {
                    assert(v@.take(i + 1) =~= v@.take(i as int).push(v@[i as int]));
                    assert(strings_view(out@) =~= strings_view(before).push(s@));
                    assert(v@.take(i + 1).map_values(|c: ContainerRecord| short_image_of(c.image))
                        =~= v@.take(i as int).map_values(
                        |c: ContainerRecord| short_image_of(c.image),
                    ).push(short_image_of(v@[i as int].image)));
                }
                i = i + 1;
            }
            proof {
                assert(v@.take(v@.len() as int) =~= v@);
            }
        },
        None => {},
    }
    out
}

/// The summary of one task record; `now` stands in where it has no event time.
pub fn task_summary_of(rec: &TaskRecord, now: Timestamp) -> (r: TaskSummary)
    requires
        rec.wf(),
    ensures
        r@ == summary_of(*rec, now),
{
    let times = [
        rec.connectivity_at,
        rec.created_at,
        rec.execution_stopped_at,
        rec.pull_started_at,
        rec.pull_stopped_at,
        rec.started_at,
    ];
    proof {
        assert(times@ =~= rec.event_times());
    }
    let t = newest_time_or(&times, now);
    proof {
        if any_present(rec.event_times()) {
            let k = choose|i: int| 0 <= i < times@.len() && times@[i] == Some(t);
            assert(times@[k] is Some);
            assert(t.wf());
            let c = representative_time(*rec, now);
            assert(c.wf() && is_newest(rec.event_times(), c));
            let kc = choose|i: int| 0 <= i < times@.len() && times@[i] == Some(c);
            assert(times@[kc] is Some);
            lemma_ms_injective(t, c);
        }
    }
    let last_status = match &rec.last_status {
        Some(s) => s.clone(),
        None => String::new(),
    };
    TaskSummary {
        timestamp: t,
        last_status,
        task_version: task_version(&rec.task_definition_arn),
        images: images(&rec.containers),
    }
}

/// Elements after position `j` that are all later than `t` do not move the insertion point.
proof fn lemma_insertion_point_prefix(s: Seq<SummaryView>, t: int, j: int)
    requires
        0 <= j <= s.len(),
        forall|k: int| j <= k < s.len() ==> (#[trigger] s[k]).timestamp.ms() > t,
    ensures
        insertion_point(s, t) == insertion_point(s.take(j), t),
    decreases s.len() - j,
{
    if j < s.len() {
        assert(s.drop_last().take(j) =~= s.take(j));
        lemma_insertion_point_prefix(s.drop_last(), t, j);
    } else {
        assert(s.take(j) =~= s);
    }
}

/// In a sorted sequence the insertion point splits the elements at or before `t`
/// from those after it.
proof fn lemma_insertion_point_splits(s: Seq<SummaryView>, t: int)
    requires
        is_sorted(s),
    ensures
        0 <= insertion_point(s, t) <= s.len(),
        forall|k: int| 0 <= k < insertion_point(s, t) ==> (#[trigger] s[k]).timestamp.ms() <= t,
        forall|k: int|
            insertion_point(s, t) <= k < s.len() ==> (#[trigger] s[k]).timestamp.ms() > t,
    decreases s.len(),
{
    if s.len() > 0 {
        let d = s.drop_last();
        assert(is_sorted(d)) by {
            assert forall|i: int, j: int| 0 <= i < j < d.len() implies (#[trigger] d[i]).timestamp.ms()
                <= (#[trigger] d[j]).timestamp.ms() by {
                assert(d[i] == s[i] && d[j] == s[j]);
            }
        }
        lemma_insertion_point_splits(d, t);
        if s.last().timestamp.ms() <= t {
            assert forall|k: int| 0 <= k < s.len() implies (#[trigger] s[k]).timestamp.ms() <= t by {
                if k < s.len() - 1 {
                    assert(s[k].timestamp.ms() <= s[s.len() - 1].timestamp.ms());
                }
            }
        } else {
            assert forall|k: int| insertion_point(s, t) <= k < s.len() implies (#[trigger] s[
                k
            ]).timestamp.ms() > t by {
                if k < s.len() - 1 {
                    assert(d[k] == s[k]);
                }
            }
            assert forall|k: int| 0 <= k < insertion_point(s, t) implies (#[trigger] s[
                k
            ]).timestamp.ms() <= t by {
                assert(d[k] == s[k]);
            }
        }
    }
}

/// The snapshot is ordered by time, ascending, and holds exactly the given
/// summaries.
pub proof fn lemma_sorted_stable_sorted(s: Seq<SummaryView>)
    ensures
        is_sorted(sorted_stable(s)),
        sorted_stable(s).to_multiset() == s.to_multiset(),
    decreases s.len(),
{
    if s.len() > 0 {
        let r = sorted_stable(s.drop_last());
        let x = s.last();
        let t = x.timestamp.ms();
        lemma_sorted_stable_sorted(s.drop_last());
        lemma_insertion_point_splits(r, t);
        let p = insertion_point(r, t);
        let out = r.insert(p, x);
        assert forall|i: int, j: int| 0 <= i < j < out.len() implies (#[trigger] out[i]).timestamp.ms()
            <= (#[trigger] out[j]).timestamp.ms() by {
            if i < p && j < p {
                assert(out[i] == r[i] && out[j] == r[j]);
            } else if i < p && j == p {
                assert(out[i] == r[i]);
            } else if i < p {
                assert(out[i] == r[i] && out[j] == r[j - 1]);
            } else if i == p {
                assert(out[j] == r[j - 1]);
            } else {
                assert(out[i] == r[i - 1] && out[j] == r[j - 1]);
            }
        }
        vstd::seq_lib::to_multiset_insert(r, p, x);
        vstd::seq_lib::to_multiset_build(s.drop_last(), x);
        assert(s =~= s.drop_last().push(x));
    }
}

/// Whether a summary is at the instant `t`, in milliseconds.
pub open spec fn at_time(t: int) -> spec_fn(SummaryView) -> bool {
    |v: SummaryView| v.timestamp.ms() == t
}

/// Ordering keeps the relative order of the summaries at any one instant.
pub proof fn lemma_sorted_stable_keeps_ties(s: Seq<SummaryView>, t: int)
    ensures
        sorted_stable(s).filter(at_time(t)) == s.filter(at_time(t)),
    decreases s.len(),
{
    reveal_with_fuel(Seq::filter, 2);
    if s.len() > 0 {
        let d = s.drop_last();
        let r = sorted_stable(d);
        let x = s.last();
        let f = at_time(t);
        lemma_sorted_stable_keeps_ties(d, t);
        lemma_sorted_stable_sorted(d);
        lemma_insertion_point_splits(r, x.timestamp.ms());
        let p = insertion_point(r, x.timestamp.ms());
        let lo = r.subrange(0, p);
        let hi = r.subrange(p, r.len() as int);
        assert(r =~= lo + hi);
        assert(r.insert(p, x) =~= lo + seq![x] + hi);
        Seq::filter_distributes_over_add(lo, hi, f);
        Seq::filter_distributes_over_add(lo, seq![x], f);
        Seq::filter_distributes_over_add(lo + seq![x], hi, f);
        assert(seq![x].drop_last() =~= Seq::<SummaryView>::empty());
        assert(s.filter(f) == if f(x) {
            d.filter(f).push(x)
        } else {
            d.filter(f)
        });
        if f(x) {
            assert forall|k: int| 0 <= k < hi.len() implies !f(#[trigger] hi[k]) by {
                assert(hi[k] == r[p + k]);
            }
            assert(hi.all(|y: SummaryView| !f(y)));
            hi.lemma_all_neg_filter_empty(f);
            assert(hi.filter(f) =~= Seq::<SummaryView>::empty());
            assert(seq![x].filter(f) =~= seq![x]);
            assert(lo.filter(f) + Seq::<SummaryView>::empty() =~= lo.filter(f));
            assert((lo.filter(f) + seq![x]) + Seq::<SummaryView>::empty() =~= lo.filter(f).push(
                x,
            ));
        } else {
            assert(seq![x].filter(f) =~= Seq::<SummaryView>::empty());
            assert(lo.filter(f) + Seq::<SummaryView>::empty() =~= lo.filter(f));
        }
    }
}

/// Every summary of the ordered snapshot is one of the given summaries.
proof fn lemma_sorted_stable_from(s: Seq<SummaryView>)
    ensures
        sorted_stable(s).len() == s.len(),
        forall|k: int|
            0 <= k < s.len() ==> exists|i: int| 0 <= i < s.len() && #[trigger] sorted_stable(s)[k] == s[i],
    decreases s.len(),
{
    if s.len() > 0 {
        let d = s.drop_last();
        let r = sorted_stable(d);
        lemma_sorted_stable_from(d);
        lemma_sorted_stable_sorted(d);
        lemma_insertion_point_splits(r, s.last().timestamp.ms());
        let p = insertion_point(r, s.last().timestamp.ms());
        let out = r.insert(p, s.last());
        assert forall|k: int| 0 <= k < s.len() implies exists|i: int|
            0 <= i < s.len() && #[trigger] out[k] == s[i] by {
            if k == p {
                assert(out[k] == s[s.len() - 1]);
            } else {
                let kk = if k < p { k } else { k - 1 };
                assert(out[k] == r[kk]);
                let i = choose|i: int| 0 <= i < d.len() && r[kk] == d[i];
                assert(d[i] == s[i]);
            }
        }
    }
}

/// Where the given summaries are at pairwise different instants, the snapshot
/// is strictly increasing in time.
pub proof fn lemma_sorted_stable_strict(s: Seq<SummaryView>)
    requires
        forall|i: int, j: int|
            0 <= i < j < s.len() ==> (#[trigger] s[i]).timestamp.ms() != (#[trigger] s[j]).timestamp.ms(),
    ensures
        forall|i: int, j: int|
            0 <= i < j < sorted_stable(s).len() ==> (#[trigger] sorted_stable(s)[i]).timestamp.ms()
                < (#[trigger] sorted_stable(s)[j]).timestamp.ms(),
    decreases s.len(),
{
    if s.len() > 0 {
        let d = s.drop_last();
        let r = sorted_stable(d);
        let x = s.last();
        assert forall|i: int, j: int| 0 <= i < j < d.len() implies (#[trigger] d[i]).timestamp.ms()
            != (#[trigger] d[j]).timestamp.ms() by {
            assert(d[i] == s[i] && d[j] == s[j]);
        }
        lemma_sorted_stable_strict(d);
        lemma_sorted_stable_from(d);
        lemma_sorted_stable_sorted(d);
        lemma_insertion_point_splits(r, x.timestamp.ms());
        let p = insertion_point(r, x.timestamp.ms());
        let out = r.insert(p, x);
        assert forall|k: int| 0 <= k < r.len() implies (#[trigger] r[k]).timestamp.ms()
            != x.timestamp.ms() by {
            let i = choose|i: int| 0 <= i < d.len() && r[k] == d[i];
            assert(d[i] == s[i]);
            assert(s[i].timestamp.ms() != s[s.len() - 1].timestamp.ms());
        }
        assert forall|i: int, j: int| 0 <= i < j < out.len() implies (#[trigger] out[i]).timestamp.ms()
            < (#[trigger] out[j]).timestamp.ms() by {
            if i < p && j < p {
                assert(out[i] == r[i] && out[j] == r[j]);
            } else if i < p && j == p {
                assert(out[i] == r[i]);
            } else if i < p {
                assert(out[i] == r[i] && out[j] == r[j - 1]);
            } else if i == p {
                assert(out[j] == r[j - 1]);
            } else {
                assert(out[i] == r[i - 1] && out[j] == r[j - 1]);
            }
        }
    }
}

/// Where `x` goes in the ordered snapshot `out`: after every summary at or
/// before its time.
fn insert_position(out: &Vec<TaskSummary>, x: &TaskSummary) -> (j: usize)
    ensures
        j == insertion_point(snapshot_view(out@), x.timestamp.ms()),
        j <= out@.len(),
{
    let xms = x.timestamp.as_millis();
    let mut j: usize = out.len();
    while j > 0 && out[j - 1].timestamp.as_millis() > xms
        invariant
            j <= out@.len(),
            forall|k: int|
                j <= k < out@.len() ==> (#[trigger] snapshot_view(out@)[k]).timestamp.ms() > xms,
        decreases j,
    {
        j = j - 1;
    }
    proof {
        let sv = snapshot_view(out@);
        lemma_insertion_point_prefix(sv, xms as int, j as int);
        if j > 0 {
            assert(sv.take(j as int).drop_last() =~= sv.take(j - 1));
        }
    }
    j
}

/// The summaries of a list of task records, ordered by time, ascending; records
/// at the same time keep their order. `now` stands in for a record without
/// event times.
pub fn summarize(records: &Vec<TaskRecord>, now: Timestamp) -> (r: Vec<TaskSummary>)
    requires
        all_records_wf(records@),
    ensures
        snapshot_view(r@) == snapshot_of(records@, now),
{
    let ghost mapped = records@.map_values(|r: TaskRecord| summary_of(r, now));
    let mut out: Vec<TaskSummary> = Vec::new();
    let mut i: usize = 0;
    while i < records.len()
        invariant
            i <= records@.len(),
            all_records_wf(records@),
            mapped == records@.map_values(|r: TaskRecord| summary_of(r, now)),
            snapshot_view(out@) == sorted_stable(mapped.take(i as int)),
        decreases records@.len() - i,
    {
        let x = task_summary_of(&records[i], now);
        let j = insert_position(&out, &x);
        let ghost before = out@;
        proof {
            assert(mapped.take(i + 1).drop_last() =~= mapped.take(i as int));
        }
        out.insert(j, x);
        proof {
            assert(snapshot_view(out@) =~= snapshot_view(before).insert(j as int, x@));
        }
        i = i + 1;
    }
    proof {
        assert(mapped.take(records@.len() as int) =~= mapped);
    }
    out
}

/// The summaries of a list of task records, ordered by time, ascending; the
/// current time, in whole seconds, stands in for a record without event times.
pub fn task_summary(records: &Vec<TaskRecord>) -> (r: Vec<TaskSummary>)
    requires
        all_records_wf(records@),
    ensures
        exists|now: Timestamp| now.millis == 0 && snapshot_view(r@) == snapshot_of(records@, now),
{
    let now = Timestamp { seconds: now_seconds(), millis: 0 };
    let r = summarize(records, now);
    assert(now.millis == 0 && snapshot_view(r@) == snapshot_of(records@, now));
    r
}

/// Running the summarizer twice over the same records gives the same snapshot,
/// whatever the time, where each record has an event time of its own.
pub proof fn lemma_summary_repeatable(recs: Seq<TaskRecord>, now1: Timestamp, now2: Timestamp)
    requires
        forall|i: int| 0 <= i < recs.len() ==> any_present(#[trigger] recs[i].event_times()),
    ensures
        snapshot_of(recs, now1) == snapshot_of(recs, now2),
{
    assert(recs.map_values(|r: TaskRecord| summary_of(r, now1)) =~= recs.map_values(
        |r: TaskRecord| summary_of(r, now2),
    ));
}

fn strings_equal(a: &Vec<String>, b: &Vec<String>) -> (r: bool)
    ensures
        r == (strings_view(a@) == strings_view(b@)),
{
    if a.len() != b.len() {
        return false;
    }
    let mut i: usize = 0;
    while i < a.len()
        invariant
            i <= a@.len() == b@.len(),
            forall|k: int| 0 <= k < i ==> (#[trigger] a@[k])@ == b@[k]@,
        decreases a@.len() - i,
    {
        if a[i] != b[i] {
            assert(strings_view(a@)[i as int] != strings_view(b@)[i as int]);
            return false;
        }
        i = i + 1;
    }
    assert(strings_view(a@) =~= strings_view(b@));
    true
}

fn summaries_equal(a: &TaskSummary, b: &TaskSummary) -> (r: bool)
    ensures
        r == (a@ == b@),
{
    a.timestamp == b.timestamp && a.last_status == b.last_status && a.task_version
        == b.task_version && strings_equal(&a.images, &b.images)
}

impl PartialEq for TaskSummary {
    fn eq(&self, other: &TaskSummary) -> (r: bool)
        ensures
            r == (self@ == other@),
    {
        summaries_equal(self, other)
    }
}

impl vstd::std_specs::cmp::PartialEqSpecImpl for TaskSummary {
    open spec fn obeys_eq_spec() -> bool {
        true
    }

    open spec fn eq_spec(&self, other: &TaskSummary) -> bool {
        self@ == other@
    }
}

/// Whether two snapshots are the same: equal summaries, field by field, in the
/// same order.
pub fn snapshots_equal(a: &Vec<TaskSummary>, b: &Vec<TaskSummary>) -> (r: bool)
    ensures
        r == (snapshot_view(a@) == snapshot_view(b@)),
{
    if a.len() != b.len() {
        assert(snapshot_view(a@).len() != snapshot_view(b@).len());
        return false;
    }
    let mut i: usize = 0;
    while i < a.len()
        invariant
            i <= a@.len() == b@.len(),
            forall|k: int| 0 <= k < i ==> (#[trigger] a@[k])@ == b@[k]@,
        decreases a@.len() - i,
    {
        if !summaries_equal(&a[i], &b[i]) {
            assert(snapshot_view(a@)[i as int] != snapshot_view(b@)[i as int]);
            return false;
        }
        i = i + 1;
    }
    assert(snapshot_view(a@) =~= snapshot_view(b@));
    true
}

/// Changing one summary's status, version or images gives a different snapshot.
pub proof fn lemma_changed_task_differs(a: Seq<SummaryView>, i: int, v: SummaryView)
    requires
        0 <= i < a.len(),
        v.last_status != a[i].last_status || v.task_version != a[i].task_version || v.images
            != a[i].images,
    ensures
        a.update(i, v) != a,
{
    assert(a.update(i, v)[i] != a[i]);
}

/// Swapping two different summaries gives a different snapshot.
pub proof fn lemma_reordered_differs(a: Seq<SummaryView>, i: int, j: int)
    requires
        0 <= i < a.len(),
        0 <= j < a.len(),
        a[i] != a[j],
    ensures
        a.update(i, a[j]).update(j, a[i]) != a,
{
    assert(a.update(i, a[j]).update(j, a[i])[j] != a[j]);
}

/// Whether the summary at `i` is the last before a gap of an hour or more.
pub open spec fn before_gap(s: Seq<SummaryView>, i: int) -> bool {
    i + 1 < s.len() && s[i + 1].timestamp.ms() - s[i].timestamp.ms() >= HOUR_MILLIS
}

/// For each summary, whether it is followed by one at least an hour later.
pub fn emphasized(summary: &Vec<TaskSummary>) -> (r: Vec<bool>)
    ensures
        r@.len() == summary@.len(),
        forall|i: int| 0 <= i < r@.len() ==> r@[i] == before_gap(snapshot_view(summary@), i),
{
    let mut out: Vec<bool> = Vec::new();
    let mut i: usize = 0;
    while i < summary.len()
        invariant
            i <= summary@.len(),
            out@.len() == i,
            forall|k: int|
                0 <= k < i ==> out@[k] == before_gap(snapshot_view(summary@), k),
        decreases summary@.len() - i,
    {
        let gap = i + 1 < summary.len() && summary[i + 1].timestamp.as_millis()
            - summary[i].timestamp.as_millis() >= HOUR_MILLIS;
        out.push(gap);
        i = i + 1;
    }
    out
}

/// Why a cycle failed.
#[derive(Debug)]
pub enum WatchError {
    /// Listing the cluster's tasks failed.
    TaskListLookup { cluster_name: String, message: String },
    /// Describing the cluster's tasks failed.
    TaskDescribe { cluster_name: String, message: String },
    /// The cluster reported no task list: it does not exist.
    ClusterNotFound { cluster_name: String },
}

/// The task identifiers of a listing; a listing without any list means that the
/// cluster does not exist.
pub fn task_ids(cluster_name: &str, task_arns: Option<Vec<String>>) -> (r: Result<
    Vec<String>,
    WatchError,
>)
    ensures
        task_arns is None <==> r is Err,
        task_arns is Some ==> r == Ok::<Vec<String>, WatchError>(task_arns->0),
        r matches Err(WatchError::ClusterNotFound { cluster_name: c }) ==> c@ == cluster_name@,
        r is Err ==> r matches Err(WatchError::ClusterNotFound { .. }),
{
    match task_arns {
        Some(ids) => Ok(ids),
        None => Err(WatchError::ClusterNotFound { cluster_name: String::from_str(cluster_name) }),
    }
}

} // verus!
