use dag_stitch::adaptive::{AdaptiveEngine, BASELINE_RATE, ORPHAN_WINDOW, SCALE, SUS_THRESHOLD};
use dag_stitch::block::BlockInfo;
use dag_stitch::config::Config;

fn config(adaptive: bool) -> Config {
    Config {
        rpc_url: "ws://127.0.0.1:17110".to_string(),
        p2p_port: 16111,
        p2p_bootstrap_peers: vec![],
        adaptive,
        base_min_delta: 200,
        base_rate_limit: 60,
        base_reward_sompi: 1000,
        max_reward_sompi: 5000,
        min_rate_limit: 10,
        dag_window: 100,
    }
}

fn any_block() -> BlockInfo {
    BlockInfo { hash: "b".to_string(), blue_score: 1, parents: vec![], timestamp: 0 }
}

fn feed(engine: &mut AdaptiveEngine, orphans: usize, others: usize) {
    let b = any_block();
    for _ in 0..orphans {
        engine.update_block(&b, true);
    }
    for _ in 0..others {
        engine.update_block(&b, false);
    }
}

#[test]
fn constants_are_as_documented() {
    assert_eq!(SCALE, 1_000_000);
    assert_eq!(ORPHAN_WINDOW, 100);
    assert_eq!(BASELINE_RATE, 1_000);
    assert_eq!(SUS_THRESHOLD, 250_000);
}

#[test]
fn orphan_rate_is_zero_before_any_block() {
    let engine = AdaptiveEngine::new(&config(true));
    assert_eq!(engine.orphan_rate(), 0);
}

#[test]
fn orphan_rate_is_the_share_of_orphans() {
    let mut engine = AdaptiveEngine::new(&config(true));
    feed(&mut engine, 1, 3);
    assert_eq!(engine.orphan_rate(), 250_000);
    feed(&mut engine, 0, 4);
    assert_eq!(engine.orphan_rate(), 125_000);
    let mut third = AdaptiveEngine::new(&config(true));
    feed(&mut third, 1, 2);
    assert_eq!(third.orphan_rate(), 333_333);
    let mut all = AdaptiveEngine::new(&config(true));
    feed(&mut all, 7, 0);
    assert_eq!(all.orphan_rate(), 1_000_000);
}

#[test]
fn orphan_rate_forgets_what_is_older_than_its_window() {
    let mut engine = AdaptiveEngine::new(&config(true));
    feed(&mut engine, 100, 50);
    assert_eq!(engine.orphan_rate(), 500_000);
    feed(&mut engine, 0, 50);
    assert_eq!(engine.orphan_rate(), 0);
    feed(&mut engine, 1, 0);
    assert_eq!(engine.orphan_rate(), 10_000);
}

#[test]
fn sus_has_the_documented_values() {
    let engine = AdaptiveEngine::new(&config(true));
    assert_eq!(engine.sus(200, 1000), 250_000);
    assert_eq!(engine.sus(600, 2000), 500_000);
    assert_eq!(engine.sus(0, 500), 125_000);
    assert_eq!(engine.sus(0, 1000), 0);
    assert_eq!(engine.sus(0, 0), 250_000);
    assert_eq!(engine.sus(u64::MAX, u64::MAX), 749_999);
}

#[test]
fn sus_takes_the_orphans_in() {
    let mut engine = AdaptiveEngine::new(&config(true));
    feed(&mut engine, 1, 1);
    // (2 * 500_000 + 0 + 500_000) / 4
    assert_eq!(engine.sus(200, 1000), 375_000);
}

#[test]
fn sus_stays_within_zero_and_one() {
    let mut engine = AdaptiveEngine::new(&config(true));
    feed(&mut engine, 100, 0);
    for delta in [0u64, 1, 199, 200, 201, 10_000, u64::MAX] {
        for bps in [0u64, 1, 999, 1000, 1001, 50_000, u64::MAX] {
            assert!(engine.sus(delta, bps) <= SCALE);
        }
    }
    assert_eq!(engine.sus(u64::MAX, 0), 999_999);
}

#[test]
fn sus_grows_with_delta() {
    let engine = AdaptiveEngine::new(&config(true));
    let mut last = 0;
    for delta in [0u64, 1, 10, 100, 200, 400, 1000, 1_000_000, u64::MAX] {
        let s = engine.sus(delta, 1500);
        assert!(s >= last);
        last = s;
    }
}

#[test]
fn sus_with_zero_baseline() {
    let mut cfg = config(true);
    cfg.base_min_delta = 0;
    let engine = AdaptiveEngine::new(&cfg);
    assert_eq!(engine.sus(0, 1000), 0);
    assert_eq!(engine.sus(1, 1000), 500_000);
}

#[test]
fn thresholds_follow_the_orphan_rate() {
    let mut engine = AdaptiveEngine::new(&config(true));
    assert_eq!(engine.min_delta(), 200);
    assert_eq!(engine.cooldown(), 60);
    feed(&mut engine, 1, 1);
    assert_eq!(engine.min_delta(), 150);
    assert_eq!(engine.cooldown(), 30);
    feed(&mut engine, 100, 0);
    assert_eq!(engine.min_delta(), 100);
    // never below the minimum
    assert_eq!(engine.cooldown(), 10);
}

#[test]
fn fixed_thresholds_ignore_the_orphan_rate() {
    let mut engine = AdaptiveEngine::new(&config(false));
    feed(&mut engine, 100, 0);
    assert_eq!(engine.orphan_rate(), 1_000_000);
    assert_eq!(engine.min_delta(), 200);
    assert_eq!(engine.cooldown(), 60);
}

#[test]
fn cooldown_is_at_least_the_minimum_when_fixed() {
    let mut cfg = config(false);
    cfg.base_rate_limit = 5;
    let engine = AdaptiveEngine::new(&cfg);
    assert_eq!(engine.cooldown(), 10);
}

#[test]
fn reward_runs_from_base_to_maximum() {
    let engine = AdaptiveEngine::new(&config(true));
    assert_eq!(engine.reward(0), 1000);
    assert_eq!(engine.reward(1), 1000);
    assert_eq!(engine.reward(250), 1001);
    assert_eq!(engine.reward(250_000), 2000);
    assert_eq!(engine.reward(500_000), 3000);
    assert_eq!(engine.reward(999_999), 4999);
    assert_eq!(engine.reward(1_000_000), 5000);
    assert_eq!(engine.reward(2_000_000), 5000);
    assert_eq!(engine.reward(u64::MAX), 5000);
}

#[test]
fn reward_stays_within_its_bounds() {
    let mut cfg = config(true);
    cfg.base_reward_sompi = 7;
    cfg.max_reward_sompi = u64::MAX;
    let engine = AdaptiveEngine::new(&cfg);
    for sus in [0u64, 1, 333_333, 999_999, 1_000_000, 1_000_001, u64::MAX] {
        let r = engine.reward(sus);
        assert!(7 <= r);
    }
    assert_eq!(engine.reward(0), 7);
    assert_eq!(engine.reward(1_000_000), u64::MAX);
}

#[test]
fn reward_is_between_base_and_maximum_for_every_score() {
    let engine = AdaptiveEngine::new(&config(true));
    let mut last = 0;
    for step in 0..=2000u64 {
        let r = engine.reward(step * 1000);
        assert!((1000..=5000).contains(&r));
        assert!(r >= last);
        last = r;
    }
    let fixed = AdaptiveEngine::new(&config(false));
    for step in 0..=2000u64 {
        assert_eq!(fixed.reward(step * 1000), 1000);
    }
}

#[test]
fn reward_does_not_depend_on_history() {
    let mut engine = AdaptiveEngine::new(&config(true));
    let before = engine.reward(400_000);
    feed(&mut engine, 30, 12);
    engine.record_stitch(77);
    assert_eq!(engine.reward(400_000), before);
    assert_eq!(before, 2600);
}

#[test]
fn reward_with_maximum_below_base_is_the_base() {
    let mut cfg = config(true);
    cfg.base_reward_sompi = 5000;
    cfg.max_reward_sompi = 1000;
    let engine = AdaptiveEngine::new(&cfg);
    assert_eq!(engine.reward(0), 5000);
    assert_eq!(engine.reward(1_000_000), 5000);
}

#[test]
fn adaptive_controller_stitches_from_its_thresholds_on() {
    let engine = AdaptiveEngine::new(&config(true));
    assert!(engine.should_stitch(200, 1000, 0));
    assert!(!engine.should_stitch(199, 1000, 0));
    assert!(engine.should_stitch(u64::MAX, 1000, i64::MIN));
}

#[test]
fn adaptive_controller_asks_for_enough_suspicion() {
    let mut cfg = config(true);
    cfg.base_min_delta = 0;
    let engine = AdaptiveEngine::new(&cfg);
    // the delta clears the threshold of zero, but nothing is suspicious
    assert!(!engine.should_stitch(0, 1000, 0));
    // a network at a standstill is
    assert!(engine.should_stitch(0, 0, 0));
}

#[test]
fn no_stitch_right_after_a_stitch() {
    for adaptive in [true, false] {
        let mut engine = AdaptiveEngine::new(&config(adaptive));
        assert!(engine.should_stitch(10_000, 5000, 100));
        engine.record_stitch(100);
        assert!(!engine.should_stitch(10_000, 5000, 100));
        assert!(!engine.should_stitch(u64::MAX, 0, 100));
        assert!(!engine.should_stitch(10_000, 5000, 101));
        assert!(!engine.should_stitch(10_000, 5000, 160));
        assert!(engine.should_stitch(10_000, 5000, 161));
        // a clock that went back does not end the wait
        assert!(!engine.should_stitch(10_000, 5000, 0));
    }
}

#[test]
fn no_stitch_right_after_a_stitch_without_any_cooldown() {
    let mut cfg = config(false);
    cfg.base_rate_limit = 0;
    cfg.min_rate_limit = 0;
    let mut engine = AdaptiveEngine::new(&cfg);
    engine.record_stitch(100);
    assert!(!engine.should_stitch(10_000, 1000, 100));
    assert!(engine.should_stitch(10_000, 1000, 101));
}

#[test]
fn cooldown_holds_at_the_ends_of_time() {
    let mut engine = AdaptiveEngine::new(&config(false));
    engine.record_stitch(i64::MIN);
    assert!(engine.should_stitch(200, 1000, i64::MAX));
    engine.record_stitch(i64::MAX);
    assert!(!engine.should_stitch(200, 1000, i64::MIN));
}

#[test]
fn fixed_controller_goes_by_delta_and_cooldown_alone() {
    let mut engine = AdaptiveEngine::new(&config(false));
    for bps in [0u64, 1000, 1_000_000] {
        assert!(engine.should_stitch(200, bps, 0));
        assert!(engine.should_stitch(201, bps, 0));
        assert!(!engine.should_stitch(199, bps, 0));
        assert!(!engine.should_stitch(0, bps, 0));
    }
    for sus in [0u64, 1, 500_000, 1_000_000, u64::MAX] {
        assert_eq!(engine.reward(sus), 1000);
    }
    engine.record_stitch(1000);
    assert!(!engine.should_stitch(200, 1000, 1060));
    assert!(engine.should_stitch(200, 1000, 1061));
    assert!(!engine.should_stitch(199, 1000, 1061));
    feed(&mut engine, 50, 0);
    assert!(!engine.should_stitch(199, 1000, 5000));
    assert!(engine.should_stitch(200, 1000, 5000));
}
