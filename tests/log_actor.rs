use xs::actor::{plan_read, Actor};
use xs::frame::{Frame, TTL};
use xs::gateway::{route, Route};
use xs::options::{FollowOption, ReadOptions};
use xs::replay::{compact, head_of, select_after, ByTopic};

fn append(actor: &mut Actor, log: &mut Vec<Frame>, topic: &str) -> Frame {
    let plan = actor.append(topic.to_string(), None, None, TTL::Forever).unwrap();
    if plan.persist {
        log.push(plan.frame.clone());
    }
    plan.frame
}

fn following() -> ReadOptions {
    ReadOptions { follow: FollowOption::On, tail: false, last_id: None }
}

#[test]
fn ids_strictly_increase() {
    let mut actor = Actor::new(None);
    let mut last = 0u128;
    for n in 0..100 {
        let id = actor.take_id(7).unwrap();
        if n > 0 {
            assert!(id > last);
        }
        last = id;
    }
    let mut full = Actor::new(Some(u128::MAX));
    assert_eq!(full.take_id(1), None);
    assert!(full.append("a".to_string(), None, None, TTL::Forever).is_none());
}

#[test]
fn take_id_prefers_greater_candidate() {
    let mut actor = Actor::new(Some(10));
    assert_eq!(actor.take_id(50), Some(50));
    assert_eq!(actor.take_id(20), Some(51));
    assert_eq!(actor.last_id, Some(51));
}

#[test]
fn no_gap_subscription() {
    let mut actor = Actor::new(None);
    let mut log = Vec::new();
    let a = append(&mut actor, &mut log, "stream");
    let b = append(&mut actor, &mut log, "stream");
    let plan = plan_read(&following(), None::<&ByTopic>, &log, 99);
    assert!(plan.subscribe);
    assert_eq!(plan.frames.len(), 3);
    assert_eq!(plan.frames[0], a);
    assert_eq!(plan.frames[1], b);
    assert_eq!(plan.frames[2], Frame::threshold(99));
    assert_eq!(plan.frames[2].topic, "xs.threshold");
    actor.register(7);
    let mut delivered = Vec::new();
    for _ in 0..2 {
        let p = actor.append("stream".to_string(), None, None, TTL::Forever).unwrap();
        assert_eq!(p.recipients, vec![7]);
        delivered.push(p.frame.clone());
        actor.retain_open(&vec![true]);
    }
    assert_eq!(actor.subscribers, vec![7]);
    assert!(delivered[0].id > b.id && delivered[1].id > delivered[0].id);
}

#[test]
fn tail_skips_history() {
    let mut actor = Actor::new(None);
    let mut log = Vec::new();
    append(&mut actor, &mut log, "stream");
    append(&mut actor, &mut log, "stream");
    let options = ReadOptions { follow: FollowOption::On, tail: true, last_id: None };
    let plan = actor.read(&options, None::<&ByTopic>, &log);
    assert!(plan.frames.is_empty());
    assert!(plan.subscribe);
    actor.register(1);
    let c = actor.append("stream".to_string(), None, None, TTL::Forever).unwrap();
    assert_eq!(c.recipients, vec![1]);
}

#[test]
fn resume_point() {
    let mut actor = Actor::new(None);
    let mut log = Vec::new();
    let f1 = append(&mut actor, &mut log, "/stream");
    let f2 = append(&mut actor, &mut log, "/stream");
    let options = ReadOptions { follow: FollowOption::Off, tail: false, last_id: Some(f1.id) };
    let plan = plan_read(&options, None::<&ByTopic>, &log, 0);
    assert_eq!(plan.frames, vec![f2.clone()]);
    assert!(!plan.subscribe);
    assert_eq!(select_after(&log, Some(f2.id)), Vec::<Frame>::new());
}

#[test]
fn compaction_keeps_latest_per_topic() {
    let mut actor = Actor::new(None);
    let mut log = Vec::new();
    let _a1 = append(&mut actor, &mut log, "a");
    let b = append(&mut actor, &mut log, "b");
    let a2 = append(&mut actor, &mut log, "a");
    let out = compact(&ByTopic, &log);
    assert_eq!(out, vec![a2.clone(), b.clone()]);
    let plan = plan_read(&following(), Some(&ByTopic), &log, 5);
    assert_eq!(plan.frames, vec![a2, b]);
    assert!(plan.subscribe);
}

#[test]
fn test_stream_basics() {
    let mut actor = Actor::new(None);
    let mut log = Vec::new();
    let f1 = append(&mut actor, &mut log, "/stream");
    let f2 = append(&mut actor, &mut log, "/stream");
    assert_eq!(head_of(&log, "/stream"), Some(f2.clone()));
    let all = plan_read(&ReadOptions::default(), None::<&ByTopic>, &log, 0);
    assert_eq!(all.frames, vec![f1.clone(), f2.clone()]);
    let after = plan_read(
        &ReadOptions { follow: FollowOption::Off, tail: false, last_id: Some(f1.id) },
        None::<&ByTopic>,
        &log,
        0,
    );
    assert_eq!(after.frames, vec![f2]);
}

#[test]
fn test_follow() {
    let mut actor = Actor::new(None);
    let mut log = Vec::new();
    let f1 = append(&mut actor, &mut log, "stream");
    let f2 = append(&mut actor, &mut log, "stream");
    let options = ReadOptions { follow: FollowOption::WithHeartbeat(5), tail: false, last_id: None };
    let plan = actor.read(&options, None::<&ByTopic>, &log);
    assert_eq!(plan.frames[0], f1);
    assert_eq!(plan.frames[1], f2);
    assert_eq!("xs.threshold".to_string(), plan.frames[2].topic);
    actor.register(1);
    let f3 = append(&mut actor, &mut log, "stream");
    let f4 = append(&mut actor, &mut log, "stream");
    assert!(f3.id < f4.id);
    assert_eq!("xs.pulse".to_string(), Frame::pulse(3).topic);
    let compacted = actor.read(&options, Some(&ByTopic), &log);
    assert_eq!(compacted.frames, vec![f4]);
    assert!(compacted.subscribe);
}

#[test]
fn ephemeral_frames_are_not_persisted() {
    let mut actor = Actor::new(None);
    actor.register(3);
    let p = actor.append("tick".to_string(), None, Some("{}".to_string()), TTL::Ephemeral).unwrap();
    assert!(!p.persist);
    assert_eq!(p.recipients, vec![3]);
    assert_eq!(p.frame.meta, Some("{}".to_string()));
    let q = actor.append("tick".to_string(), Some("sha256-x".to_string()), None, TTL::Time(5)).unwrap();
    assert!(q.persist);
    assert_eq!(q.frame.hash, Some("sha256-x".to_string()));
}

#[test]
fn closed_subscribers_are_dropped() {
    let mut actor = Actor::new(None);
    actor.register(1);
    actor.register(2);
    actor.register(3);
    actor.retain_open(&vec![true, false, true]);
    assert_eq!(actor.subscribers, vec![1, 3]);
    actor.retain_open(&vec![false, false]);
    assert!(actor.subscribers.is_empty());
}

#[test]
fn head_missing_topic() {
    let mut actor = Actor::new(None);
    let mut log = Vec::new();
    append(&mut actor, &mut log, "a");
    assert_eq!(head_of(&log, "b"), None);
    assert_eq!(head_of(&Vec::new(), "a"), None);
}

#[test]
fn gateway_routes() {
    assert_eq!(route("GET"), Route::Fetch);
    assert_eq!(route("POST"), Route::Store);
    assert_eq!(route("PUT"), Route::NotFound);
    assert_eq!(route("get"), Route::NotFound);
}

#[test]
fn reader_gone_during_replay_is_not_registered() {
    let mut actor = Actor::new(None);
    let mut log = Vec::new();
    append(&mut actor, &mut log, "stream");
    let plan = plan_read(&following(), None::<&ByTopic>, &log, 1);
    assert!(!actor.finish_read(&plan, false, 4));
    assert!(actor.subscribers.is_empty());
    assert!(actor.finish_read(&plan, true, 4));
    assert_eq!(actor.subscribers, vec![4]);
    let once = plan_read(&ReadOptions::default(), None::<&ByTopic>, &log, 1);
    assert!(!actor.finish_read(&once, true, 5));
    assert_eq!(actor.subscribers, vec![4]);
}
