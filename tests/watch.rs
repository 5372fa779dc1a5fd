use ecs_watch::poll::{Decision, Next, Watcher};
use ecs_watch::shorten::{short_image, task_version};
use ecs_watch::summary::{
    emphasized, images, snapshots_equal, summarize, task_ids, task_summary, ContainerRecord,
    TaskRecord, TaskSummary, WatchError,
};
use ecs_watch::timestamp::{newest_time, newest_time_or, sleep_duration, sleep_millis, Timestamp};
use ecs_watch::Args;

fn ts(seconds: i64, millis: u32) -> Timestamp {
    Timestamp { seconds, millis }
}

fn record(started: Option<Timestamp>, status: &str, arn: &str, image_refs: &[&str]) -> TaskRecord {
    TaskRecord {
        connectivity_at: None,
        created_at: None,
        execution_stopped_at: None,
        pull_started_at: None,
        pull_stopped_at: None,
        started_at: started,
        task_definition_arn: Some(arn.to_string()),
        last_status: Some(status.to_string()),
        containers: Some(
            image_refs
                .iter()
                .map(|i| ContainerRecord { image: Some(i.to_string()) })
                .collect(),
        ),
    }
}

// 10:00 on some day, in seconds since the epoch.
const TEN: i64 = 1_600_000_000 - 1_600_000_000 % 86_400 + 10 * 3600;

#[test]
fn newest_time_picks_maximum() {
    let times = [Some(ts(100, 250)), None, Some(ts(300, 5)), Some(ts(300, 4)), None, Some(ts(7, 999))];
    assert_eq!(newest_time(&times), ts(300, 5));
    assert_eq!(newest_time_or(&times, ts(1, 0)), ts(300, 5));
}

#[test]
fn newest_time_keeps_milliseconds() {
    let times = [None, Some(ts(1_589_000_000, 123)), None, None, None, None];
    assert_eq!(newest_time(&times), ts(1_589_000_000, 123));
}

#[test]
fn newest_time_without_events_is_now() {
    let times = [None, None, None, None, None, None];
    assert_eq!(newest_time_or(&times, ts(42, 0)), ts(42, 0));
    let before = std::time::SystemTime::now()
        .duration_since(std::time::UNIX_EPOCH)
        .unwrap()
        .as_secs() as i64;
    let r = newest_time(&times);
    let after = std::time::SystemTime::now()
        .duration_since(std::time::UNIX_EPOCH)
        .unwrap()
        .as_secs() as i64;
    assert!(before <= r.seconds && r.seconds <= after);
    assert_eq!(r.millis, 0);
}

#[test]
fn task_version_examples() {
    assert_eq!(task_version(&Some("arn:aws:ecs:.../family:7".to_string())), "family:7");
    assert_eq!(
        task_version(&Some("arn:aws:ecs:us-east-1:123:task-definition/web:12".to_string())),
        "web:12"
    );
    assert_eq!(task_version(&Some(String::new())), "");
    assert_eq!(task_version(&None), "");
    assert_eq!(task_version(&Some("plain".to_string())), "plain");
    assert_eq!(task_version(&Some("a/b/".to_string())), "");
}

#[test]
fn short_image_examples() {
    assert_eq!(short_image(&Some("docker.io/lib/nginx:1".to_string())), "lib/nginx:1");
    assert_eq!(short_image(&Some("nginx:1".to_string())), "nginx:1");
    assert_eq!(short_image(&None), "");
    assert_eq!(short_image(&Some("host/x".to_string())), "x");
    assert_eq!(short_image(&Some("/lead".to_string())), "lead");
}

#[test]
fn images_in_container_order() {
    let containers = Some(vec![
        ContainerRecord { image: Some("reg.io/a/app:2".to_string()) },
        ContainerRecord { image: None },
        ContainerRecord { image: Some("sidecar".to_string()) },
    ]);
    assert_eq!(images(&containers), vec!["a/app:2".to_string(), String::new(), "sidecar".to_string()]);
    assert!(images(&None).is_empty());
}

#[test]
fn summary_fields_default_when_absent() {
    let rec = TaskRecord {
        connectivity_at: None,
        created_at: Some(ts(5, 0)),
        execution_stopped_at: None,
        pull_started_at: None,
        pull_stopped_at: None,
        started_at: None,
        task_definition_arn: None,
        last_status: None,
        containers: None,
    };
    let s = summarize(&vec![rec], ts(0, 0));
    assert_eq!(s.len(), 1);
    assert_eq!(s[0].timestamp, ts(5, 0));
    assert_eq!(s[0].last_status, "");
    assert_eq!(s[0].task_version, "");
    assert!(s[0].images.is_empty());
}

#[test]
fn summarize_sorts_ascending() {
    let recs = vec![
        record(Some(ts(30, 0)), "RUNNING", "x/c:1", &["r/c"]),
        record(Some(ts(10, 0)), "RUNNING", "x/a:1", &["r/a"]),
        record(Some(ts(20, 0)), "STOPPED", "x/b:1", &["r/b"]),
    ];
    let s = summarize(&recs, ts(0, 0));
    let versions: Vec<&str> = s.iter().map(|t| t.task_version.as_str()).collect();
    assert_eq!(versions, vec!["a:1", "b:1", "c:1"]);
    assert_eq!(s[1].last_status, "STOPPED");
}

#[test]
fn summarize_is_stable_on_ties() {
    let recs = vec![
        record(Some(ts(20, 0)), "RUNNING", "x/first:1", &[]),
        record(Some(ts(10, 0)), "RUNNING", "x/early:1", &[]),
        record(Some(ts(20, 0)), "RUNNING", "x/second:1", &[]),
        record(Some(ts(20, 0)), "RUNNING", "x/third:1", &[]),
    ];
    let s = summarize(&recs, ts(0, 0));
    let versions: Vec<&str> = s.iter().map(|t| t.task_version.as_str()).collect();
    assert_eq!(versions, vec!["early:1", "first:1", "second:1", "third:1"]);
}

#[test]
fn summarize_empty_cluster() {
    assert!(summarize(&Vec::new(), ts(0, 0)).is_empty());
    assert!(task_summary(&Vec::new()).is_empty());
}

fn sample() -> Vec<TaskRecord> {
    vec![
        record(Some(ts(TEN, 0)), "RUNNING", "x/a:1", &["r/a"]),
        record(Some(ts(TEN + 300, 0)), "RUNNING", "x/b:1", &["r/b", "r/c"]),
    ]
}

#[test]
fn snapshots_from_same_data_are_equal() {
    let a = summarize(&sample(), ts(0, 0));
    let b = summarize(&sample(), ts(0, 0));
    assert!(snapshots_equal(&a, &b));
    assert_eq!(a, b);
    let c = task_summary(&sample());
    let d = task_summary(&sample());
    assert!(snapshots_equal(&c, &d));
}

#[test]
fn snapshots_differ_on_any_change() {
    let base = summarize(&sample(), ts(0, 0));

    let mut status = summarize(&sample(), ts(0, 0));
    status[0].last_status = "STOPPED".to_string();
    assert!(!snapshots_equal(&base, &status));

    let mut version = summarize(&sample(), ts(0, 0));
    version[1].task_version = "b:2".to_string();
    assert!(!snapshots_equal(&base, &version));

    let mut imgs = summarize(&sample(), ts(0, 0));
    imgs[1].images.pop();
    assert!(!snapshots_equal(&base, &imgs));

    let mut reordered = summarize(&sample(), ts(0, 0));
    reordered.swap(0, 1);
    assert!(!snapshots_equal(&base, &reordered));

    let mut shorter = summarize(&sample(), ts(0, 0));
    shorter.pop();
    assert!(!snapshots_equal(&base, &shorter));
}

#[test]
fn continuous_mode_scenario() {
    let mut w = Watcher::new(false);
    let d1 = w.on_snapshot(summarize(&sample(), ts(0, 0)));
    assert_eq!(d1, Decision { render: true, next: Next::SleepThenFetch });
    let d2 = w.on_snapshot(summarize(&sample(), ts(0, 0)));
    assert_eq!(d2, Decision { render: false, next: Next::SleepThenFetch });

    let mut third = sample();
    third.push(record(Some(ts(TEN + 70 * 60, 0)), "PENDING", "x/c:1", &["r/c"]));
    let d3 = w.on_snapshot(summarize(&third, ts(0, 0)));
    assert_eq!(d3, Decision { render: true, next: Next::SleepThenFetch });
    let shown = w.rendered().unwrap();
    assert_eq!(shown.len(), 3);
    assert_eq!(emphasized(shown), vec![false, true, false]);
}

#[test]
fn one_shot_scenario() {
    let mut w = Watcher::new(true);
    assert!(w.one_shot());
    assert!(w.rendered().is_none());
    let d = w.on_snapshot(summarize(&sample(), ts(0, 0)));
    assert_eq!(d, Decision { render: true, next: Next::Stop });
    assert_eq!(w.rendered().unwrap().len(), 2);
}

#[test]
fn emphasis_threshold_is_one_hour() {
    let recs = vec![
        record(Some(ts(0, 0)), "RUNNING", "x/a:1", &[]),
        record(Some(ts(3600, 0)), "RUNNING", "x/b:1", &[]),
        record(Some(ts(7199, 999)), "RUNNING", "x/c:1", &[]),
    ];
    let s = summarize(&recs, ts(0, 0));
    assert_eq!(emphasized(&s), vec![true, false, false]);
    assert!(emphasized(&Vec::<TaskSummary>::new()).is_empty());
}

#[test]
fn cluster_not_found_when_no_list() {
    match task_ids("prod", None) {
        Err(WatchError::ClusterNotFound { cluster_name }) => assert_eq!(cluster_name, "prod"),
        other => panic!("unexpected {:?}", other),
    }
    match task_ids("prod", Some(Vec::new())) {
        Ok(ids) => assert!(ids.is_empty()),
        other => panic!("unexpected {:?}", other),
    }
    match task_ids("prod", Some(vec!["t1".to_string()])) {
        Ok(ids) => assert_eq!(ids, vec!["t1".to_string()]),
        other => panic!("unexpected {:?}", other),
    }
}

#[test]
fn sleep_aligns_to_seconds() {
    assert_eq!(sleep_millis(2, 0), 2000);
    assert_eq!(sleep_millis(2, 250), 1750);
    assert_eq!(sleep_millis(1, 1500), 0);
    assert_eq!(sleep_millis(1, 999), 1);
    let d = sleep_duration(2);
    assert!(d > 1000 && d <= 2000);
    let one = sleep_duration(1);
    assert!(one > 0 && one <= 1000);
}

#[test]
fn args_pick_the_mode() {
    let args = Args {
        aws_profile: "p".to_string(),
        aws_region: "us-east-1".to_string(),
        cluster: "c".to_string(),
        detail: false,
        one_shot: true,
    };
    assert!(args.watcher().one_shot());
}
