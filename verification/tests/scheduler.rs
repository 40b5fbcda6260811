use metoks::scheduler::{concerns, poll_interval, BROADCAST_EVERY, MIN_POLL};

#[test]
fn polls_are_five_seconds_apart_at_least() {
    assert_eq!((poll_interval(0), poll_interval(4), poll_interval(5), poll_interval(60)), (5, 5, 5, 60));
    assert_eq!((MIN_POLL, BROADCAST_EVERY), (5, 5));
}

#[test]
fn changed_files_concern_their_collectors() {
    assert_eq!(concerns("/a/b.jsonl"), (true, false));
    assert_eq!(concerns("/a/rollout-1.jsonl"), (true, true));
    assert_eq!(concerns("/a/rollout-1.json"), (false, false));
    assert_eq!(concerns("/a/.jsonl"), (false, false));
    assert_eq!(concerns("/rollout-1.jsonl/x"), (false, false));
}
