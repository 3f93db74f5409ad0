use screener::utils::fetch::{fetch_step, FetchStep};

#[test]
fn fetch_steps_follow_the_attempt() {
    assert_eq!(fetch_step(true, true, Some(10)), FetchStep::Done);
    assert_eq!(fetch_step(true, false, Some(10)), FetchStep::RetryNow);
    assert_eq!(fetch_step(false, false, Some(10)), FetchStep::RetryAfter(10));
    assert_eq!(fetch_step(false, true, Some(5)), FetchStep::RetryAfter(5));
    assert_eq!(fetch_step(false, false, None), FetchStep::RetryNow);
}
