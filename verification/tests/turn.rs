use dag_stitch::block::BlockInfo;
use dag_stitch::config::Config;
use dag_stitch::orchestrator::{bootstrap_targets, largest_lead, Orchestrator};

fn config(adaptive: bool, window: usize) -> Config {
    Config {
        rpc_url: "ws://127.0.0.1:17110".to_string(),
        p2p_port: 16111,
        p2p_bootstrap_peers: vec!["10.0.0.1:16111".to_string()],
        adaptive,
        base_min_delta: 50,
        base_rate_limit: 60,
        base_reward_sompi: 1000,
        max_reward_sompi: 5000,
        min_rate_limit: 10,
        dag_window: window,
    }
}

fn block(hash: &str, blue_score: u64, parents: &[&str]) -> BlockInfo {
    BlockInfo {
        hash: hash.to_string(),
        blue_score,
        parents: parents.iter().map(|p| p.to_string()).collect(),
        timestamp: 0,
    }
}

fn ids(names: &[&str]) -> Vec<String> {
    names.iter().map(|n| n.to_string()).collect()
}

#[test]
fn new_orchestrator_is_empty() {
    let o = Orchestrator::new(&config(true, 7));
    assert_eq!(o.dag.len(), 0);
    assert_eq!(o.dag.capacity(), 7);
    assert_eq!(o.engine.orphan_rate(), 0);
    assert_eq!(o.engine.min_delta(), 50);
    assert_eq!(o.engine.cooldown(), 60);
    assert_eq!(o.meter.bps(), 1000);
}

#[test]
fn largest_lead_is_over_heavier_tips() {
    assert_eq!(largest_lead(100, &vec![]), 0);
    assert_eq!(largest_lead(100, &vec![150, 400]), 300);
    assert_eq!(largest_lead(100, &vec![400, 150]), 300);
    assert_eq!(largest_lead(100, &vec![90, 100]), 0);
    assert_eq!(largest_lead(100, &vec![90, 101, 0]), 1);
    assert_eq!(largest_lead(0, &vec![u64::MAX]), u64::MAX);
}

#[test]
fn bootstrap_takes_the_last_tips_last_first() {
    let tips = ids(&["t1", "t2", "t3"]);
    assert_eq!(bootstrap_targets(&tips, 2), ids(&["t3", "t2"]));
    assert_eq!(bootstrap_targets(&tips, 3), ids(&["t3", "t2", "t1"]));
    assert_eq!(bootstrap_targets(&tips, 5), ids(&["t3", "t2", "t1"]));
    assert_eq!(bootstrap_targets(&tips, 0), ids(&[]));
    assert_eq!(bootstrap_targets(&ids(&[]), 4), ids(&[]));
}

#[test]
fn fixed_controller_stitches_the_first_fracture_and_then_waits() {
    let mut o = Orchestrator::new(&config(false, 10));

    let c = o.on_block(block("A", 100, &[]), 0, 0);
    assert!(c.added);
    assert!(!c.is_orphan);
    assert_eq!(c.bps, 1000);
    assert!(c.fracture.is_none());

    let c = o.on_block(block("B", 150, &["A"]), 500, 0);
    assert!(c.added);
    assert!(!c.is_orphan);
    assert_eq!(c.bps, 2000);
    assert!(c.fracture.is_none());

    let c = o.on_block(block("C", 400, &["A"]), 1000, 1);
    assert!(c.added);
    assert!(!c.is_orphan);
    assert_eq!(c.bps, 2000);
    let f = c.fracture.unwrap();
    assert_eq!(f.weak_slot, 0);
    assert_eq!(f.tip_slots, vec![2, 1]);
    assert_eq!(f.weak, "A");
    assert_eq!(f.tips, ids(&["C", "B"]));
    assert_eq!(f.delta, 300);
    assert_eq!(f.reward, 1000);
    assert!(f.stitch);

    // the fracture is still there, but the stitch was a second ago
    let c = o.on_block(block("E", 120, &["A"]), 2000, 2);
    assert!(c.added);
    // the chain runs from C to A
    assert!(c.is_orphan);
    assert_eq!(c.bps, 1500);
    // E is only 20 away from A: A is no candidate any more
    assert!(c.fracture.is_none());
    assert_eq!(o.engine.orphan_rate(), 250_000);

    // the same block again changes nothing in the window
    let c = o.on_block(block("E", 120, &["A"]), 3000, 3);
    assert!(!c.added);
    assert!(c.is_orphan);
    assert_eq!(o.dag.len(), 4);
}

#[test]
fn stitch_waits_for_the_cooldown() {
    let mut o = Orchestrator::new(&config(false, 10));
    o.on_block(block("A", 100, &[]), 0, 0);
    o.on_block(block("B", 200, &["A"]), 1000, 1);
    let c = o.on_block(block("C", 400, &["A"]), 2000, 2);
    assert!(c.fracture.unwrap().stitch);
    let c = o.on_block(block("D", 500, &["C"]), 3000, 3);
    let f = c.fracture.unwrap();
    assert_eq!(f.weak, "A");
    assert!(!f.stitch);
    assert_eq!(f.reward, 1000);
    let c = o.on_block(block("F", 600, &["D"]), 62_000, 62);
    assert!(!c.fracture.unwrap().stitch);
    let c = o.on_block(block("G", 700, &["F"]), 63_000, 63);
    let f = c.fracture.unwrap();
    assert!(f.stitch);
    assert_eq!(f.delta, 300);
    assert_eq!(f.tips, ids(&["C", "B"]));
}

#[test]
fn adaptive_controller_scales_the_reward() {
    let mut o = Orchestrator::new(&config(true, 10));
    o.on_block(block("A", 100, &[]), 0, 0);
    o.on_block(block("B", 150, &["A"]), 1000, 1);
    let c = o.on_block(block("C", 250, &["A"]), 2000, 2);
    assert_eq!(c.bps, 1000);
    let f = c.fracture.unwrap();
    assert_eq!(f.delta, 150);
    // the delta term is 150 / 200, the rate is normal, no orphans
    assert_eq!(f.sus, 375_000);
    assert_eq!(f.reward, 2500);
    assert!(f.stitch);
}

#[test]
fn window_of_the_orchestrator_evicts() {
    let mut o = Orchestrator::new(&config(false, 2));
    o.on_block(block("A", 100, &[]), 0, 0);
    o.on_block(block("B", 150, &["A"]), 1, 0);
    let c = o.on_block(block("C", 400, &["A"]), 2, 0);
    // A left when C came: no fracture
    assert!(c.added);
    assert!(c.fracture.is_none());
    assert_eq!(o.dag.len(), 2);
}
