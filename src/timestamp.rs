use vstd::prelude::*;

verus! {

/// A point in time: whole seconds since the Unix epoch, plus milliseconds.
#[derive(Clone, Copy, Debug, PartialEq, Eq, Structural)]
pub struct Timestamp {
    pub seconds: i64,
    pub millis: u32,
}

/// One hour, in milliseconds.
pub const HOUR_MILLIS: i128 = 3_600_000;

impl Timestamp {
    /// The milliseconds part stays below one second.
    pub open spec fn wf(self) -> bool {
        self.millis < 1000
    }

    /// Milliseconds since the Unix epoch.
    pub open spec fn ms(self) -> int {
        self.seconds * 1000 + self.millis
    }

    pub fn as_millis(&self) -> (r: i128)
        ensures
            r == self.ms(),
    {
        self.seconds as i128 * 1000 + self.millis as i128
    }
}

/// Two well-formed timestamps at the same instant are the same value.
pub proof fn lemma_ms_injective(a: Timestamp, b: Timestamp)
    requires
        a.wf(),
        b.wf(),
        a.ms() == b.ms(),
    ensures
        a == b,
{
    assert(a.seconds == b.seconds) by (nonlinear_arith)
        requires
            a.seconds * 1000 + a.millis == b.seconds * 1000 + b.millis,
            a.millis < 1000,
            b.millis < 1000,
    ;
}

/// Every timestamp present in `times` is well formed.
pub open spec fn all_wf(times: Seq<Option<Timestamp>>) -> bool {
    forall|i: int| 0 <= i < times.len() && (#[trigger] times[i]) is Some ==> times[i]->0.wf()
}

/// `t` is present in `times` and no present timestamp is later.
pub open spec fn is_newest(times: Seq<Option<Timestamp>>, t: Timestamp) -> bool {
    &&& exists|i: int| 0 <= i < times.len() && times[i] == Some(t)
    &&& forall|i: int|
        0 <= i < times.len() && (#[trigger] times[i]) is Some ==> times[i]->0.ms() <= t.ms()
}

pub open spec fn any_present(times: Seq<Option<Timestamp>>) -> bool {
    exists|i: int| 0 <= i < times.len() && (#[trigger] times[i]) is Some
}

/// The most recent of the present timestamps; `now` where none is present.
pub fn newest_time_or(times: &[Option<Timestamp>], now: Timestamp) -> (r: Timestamp)
    requires
        all_wf(times@),
    ensures
        any_present(times@) ==> is_newest(times@, r),
        !any_present(times@) ==> r == now,
        now.wf() ==> r.wf(),
{
    let mut best: Option<Timestamp> = None;
    let mut i: usize = 0;
    while i < times.len()
        invariant
            i <= times@.len(),
            all_wf(times@),
            match best {
                Some(b) => {
                    &&& b.wf()
                    &&& exists|k: int| 0 <= k < i && times@[k] == Some(b)
                    &&& forall|k: int|
                        0 <= k < i && (#[trigger] times@[k]) is Some ==> times@[k]->0.ms()
                            <= b.ms()
                },
                None => forall|k: int| 0 <= k < i ==> (#[trigger] times@[k]) is None,
            },
        decreases times@.len() - i,
    {
        if let Some(t) = times[i] {
            match best {
                Some(b) => {
                    if t.as_millis() > b.as_millis() {
                        best = Some(t);
                    }
                },
                None => {
                    best = Some(t);
                },
            }
        }
        i = i + 1;
    }
    match best {
        Some(b) => b,
        None => now,
    }
}

/// Relies on chrono's `Utc::now` and `DateTime::timestamp`: the whole seconds of
/// the current time.
#[verifier::external_body]
pub(crate) fn now_seconds() -> (r: i64) {
    chrono::Utc::now().timestamp()
}

/// Relies on chrono's `Utc::now` and `DateTime::timestamp_subsec_millis`: the
/// milliseconds past the current second. `Utc::now` takes them from the system
/// clock's sub-second nanoseconds, so they stay below one second.
#[verifier::external_body]
fn now_subsec_millis() -> (r: u32)
    ensures
        r < 1000,
{
    chrono::Utc::now().timestamp_subsec_millis()
}

/// The most recent of the present timestamps; the current time, in whole
/// seconds, where none is present.
pub fn newest_time(times: &[Option<Timestamp>]) -> (r: Timestamp)
    requires
        all_wf(times@),
    ensures
        any_present(times@) ==> is_newest(times@, r),
        !any_present(times@) ==> r.millis == 0,
        r.wf(),
{
    let mut i: usize = 0;
    while i < times.len()
        invariant
            i <= times@.len(),
            all_wf(times@),
            forall|k: int| 0 <= k < i ==> (#[trigger] times@[k]) is None,
        decreases times@.len() - i,
    {
        if times[i].is_some() {
            return newest_time_or(times, Timestamp { seconds: 0, millis: 0 });
        }
        i = i + 1;
    }
    newest_time_or(times, Timestamp { seconds: now_seconds(), millis: 0 })
}

/// Milliseconds to wait for the next cycle: the cadence less the part of the
/// current second already gone (none where that part is the larger).
pub fn sleep_millis(cadence_seconds: u64, subsec_millis: u32) -> (r: u64)
    requires
        cadence_seconds <= u64::MAX / 1000,
    ensures
        r == if 1000 * cadence_seconds >= subsec_millis {
            1000 * cadence_seconds - subsec_millis
        } else {
            0
        },
{
    let whole = 1000 * cadence_seconds;
    if whole >= subsec_millis as u64 {
        whole - subsec_millis as u64
    } else {
        0
    }
}

/// Milliseconds to wait so that the next cycle lands near a whole second.
pub fn sleep_duration(seconds: u64) -> (r: u64)
    requires
        seconds <= u64::MAX / 1000,
    ensures
        r <= 1000 * seconds,
        seconds >= 1 ==> 1000 * seconds - 1000 < r,
{
    sleep_millis(seconds, now_subsec_millis())
}

} // verus!
