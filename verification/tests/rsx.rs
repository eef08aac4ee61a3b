use jesse_rust::rsx::{rsx_steps, RsxStep};

fn step(restart: bool, ready: bool) -> RsxStep {
    RsxStep { restart, ready }
}

#[test]
fn rsx_becomes_ready_past_the_limit() {
    // period 3: the limit is 5
    let changed = vec![false, true, true, true, true, true, true];
    let steps = rsx_steps(&changed, 3);
    assert_eq!(
        steps,
        vec![
            step(true, false),
            step(false, false),
            step(false, false),
            step(false, false),
            step(false, false),
            step(false, true),
            step(false, true),
        ]
    );
}

#[test]
fn rsx_restarts_when_the_price_never_moved() {
    let changed = vec![false; 8];
    let steps = rsx_steps(&changed, 2);
    let restarts: Vec<usize> = (0..8).filter(|&k| steps[k].restart).collect();
    assert_eq!(restarts, vec![0, 5]);
    assert!(steps.iter().all(|s| !s.ready));
}

#[test]
fn rsx_limit_follows_a_long_period() {
    // period 8: the limit is 7, ready from the eighth step after a move
    let mut changed = vec![false; 10];
    changed[1] = true;
    let steps = rsx_steps(&changed, 8);
    let first_ready = steps.iter().position(|s| s.ready);
    assert_eq!(first_ready, Some(7));
    assert!(steps[7..].iter().all(|s| s.ready && !s.restart));
}

#[test]
fn rsx_of_no_step_is_empty() {
    assert!(rsx_steps(&Vec::new(), 14).is_empty());
}
