use dag_stitch::block::BlockInfo;
use dag_stitch::dag::RollingDag;

fn block(hash: &str, blue_score: u64, parents: &[&str]) -> BlockInfo {
    BlockInfo {
        hash: hash.to_string(),
        blue_score,
        parents: parents.iter().map(|p| p.to_string()).collect(),
        timestamp: 0,
    }
}

fn id(s: &str) -> String {
    s.to_string()
}

#[test]
fn new_window_is_empty() {
    let dag = RollingDag::new(3);
    assert_eq!(dag.len(), 0);
    assert_eq!(dag.capacity(), 3);
    assert!(dag.block(0).is_none());
    assert!(dag.children(0).is_none());
    assert!(!dag.contains(&id("a")));
    assert_eq!(dag.slot_of(&id("a")), None);
    assert!(dag.centrality().is_empty());
}

#[test]
fn add_block_twice_is_idempotent() {
    let mut dag = RollingDag::new(3);
    assert!(dag.add_block(block("a", 1, &[])));
    assert!(!dag.add_block(block("a", 1, &[])));
    assert_eq!(dag.len(), 1);
    // a second copy with other contents is still the same block
    assert!(!dag.add_block(block("a", 99, &["x"])));
    assert_eq!(dag.len(), 1);
    assert_eq!(dag.block(0).unwrap().blue_score, 1);
}

#[test]
fn node_count_never_exceeds_capacity() {
    let mut dag = RollingDag::new(4);
    for i in 0..50u64 {
        let parent = format!("b{}", i.wrapping_sub(1));
        assert!(dag.add_block(BlockInfo {
            hash: format!("b{}", i),
            blue_score: i,
            parents: vec![parent],
            timestamp: i,
        }));
        assert!(dag.len() <= 4);
        assert_eq!(dag.len() as u64, (i + 1).min(4));
    }
}

#[test]
fn capacity_plus_one_evicts_the_first_block() {
    // the first block is the heaviest: weight plays no part
    let mut dag = RollingDag::new(3);
    assert!(dag.add_block(block("a", 1_000_000, &[])));
    assert!(dag.add_block(block("b", 2, &[])));
    assert!(dag.add_block(block("c", 3, &[])));
    assert!(dag.add_block(block("d", 4, &[])));
    assert_eq!(dag.len(), 3);
    assert!(!dag.contains(&id("a")));
    assert!(dag.contains(&id("b")));
    assert!(dag.contains(&id("c")));
    assert!(dag.contains(&id("d")));
    // the next to go is b
    assert!(dag.add_block(block("e", 5, &[])));
    assert!(!dag.contains(&id("b")));
    assert!(dag.contains(&id("c")));
}

#[test]
fn evicted_block_can_come_back() {
    let mut dag = RollingDag::new(2);
    assert!(dag.add_block(block("a", 1, &[])));
    assert!(dag.add_block(block("b", 2, &[])));
    assert!(dag.add_block(block("c", 3, &[])));
    assert!(!dag.contains(&id("a")));
    assert!(dag.add_block(block("a", 1, &[])));
    assert!(dag.contains(&id("a")));
    assert!(!dag.contains(&id("b")));
}

#[test]
fn capacity_one_holds_the_latest_block() {
    let mut dag = RollingDag::new(1);
    assert!(dag.add_block(block("a", 1, &[])));
    assert!(dag.add_block(block("b", 2, &["a"])));
    assert_eq!(dag.len(), 1);
    assert_eq!(dag.block(0).unwrap().hash, "b");
    // a had left before b came: no edge
    assert_eq!(dag.children(0).unwrap(), Vec::<usize>::new());
    assert_eq!(dag.find_fracture(0), None);
}

#[test]
fn capacity_zero_holds_the_latest_block() {
    let mut dag = RollingDag::new(0);
    assert!(dag.add_block(block("a", 1, &[])));
    assert_eq!(dag.len(), 1);
    assert!(dag.add_block(block("b", 2, &[])));
    assert_eq!(dag.len(), 1);
    assert!(dag.contains(&id("b")));
    assert!(!dag.contains(&id("a")));
}

#[test]
fn edges_go_from_resident_parents_to_the_new_block() {
    let mut dag = RollingDag::new(5);
    dag.add_block(block("a", 1, &[]));
    dag.add_block(block("b", 2, &["a"]));
    dag.add_block(block("c", 3, &["a", "b"]));
    let a = dag.slot_of(&id("a")).unwrap();
    let b = dag.slot_of(&id("b")).unwrap();
    let c = dag.slot_of(&id("c")).unwrap();
    assert_eq!((a, b, c), (0, 1, 2));
    // the most recent edge comes first
    assert_eq!(dag.children(a).unwrap(), vec![c, b]);
    assert_eq!(dag.children(b).unwrap(), vec![c]);
    assert_eq!(dag.children(c).unwrap(), Vec::<usize>::new());
}

#[test]
fn parent_that_never_came_gets_no_edge() {
    let mut dag = RollingDag::new(5);
    assert!(dag.add_block(block("a", 1, &["ghost"])));
    assert!(dag.add_block(block("b", 2, &["ghost", "a", "phantom"])));
    assert_eq!(dag.len(), 2);
    assert_eq!(dag.children(0).unwrap(), vec![1]);
    assert_eq!(dag.children(1).unwrap(), Vec::<usize>::new());
    assert!(!dag.contains(&id("ghost")));
}

#[test]
fn parent_that_was_evicted_gets_no_edge() {
    let mut dag = RollingDag::new(2);
    dag.add_block(block("a", 1, &[]));
    dag.add_block(block("b", 2, &["a"]));
    // c pushes a out and names it as a parent
    assert!(dag.add_block(block("c", 3, &["a", "b"])));
    assert_eq!(dag.len(), 2);
    let b = dag.slot_of(&id("b")).unwrap();
    let c = dag.slot_of(&id("c")).unwrap();
    assert_eq!(dag.children(b).unwrap(), vec![c]);
    assert_eq!(dag.children(c).unwrap(), Vec::<usize>::new());
}

#[test]
fn parent_that_comes_later_gets_no_edge() {
    let mut dag = RollingDag::new(5);
    dag.add_block(block("child", 2, &["late"]));
    dag.add_block(block("late", 1, &[]));
    assert_eq!(dag.children(0).unwrap(), Vec::<usize>::new());
    assert_eq!(dag.children(1).unwrap(), Vec::<usize>::new());
}

#[test]
fn parent_named_twice_gets_two_edges() {
    let mut dag = RollingDag::new(5);
    dag.add_block(block("a", 1, &[]));
    dag.add_block(block("b", 2, &["a", "a"]));
    assert_eq!(dag.children(0).unwrap(), vec![1, 1]);
}

#[test]
fn block_that_names_itself_gets_a_loop() {
    let mut dag = RollingDag::new(5);
    dag.add_block(block("a", 1, &["a"]));
    assert_eq!(dag.children(0).unwrap(), vec![0]);
}

#[test]
fn eviction_moves_the_last_block_into_the_freed_index() {
    let mut dag = RollingDag::new(3);
    dag.add_block(block("a", 1, &[]));
    dag.add_block(block("b", 2, &["a"]));
    dag.add_block(block("c", 3, &["b"]));
    dag.add_block(block("d", 4, &["c", "a"]));
    // a has left; c has taken index 0; d is new at index 2
    assert_eq!(dag.slot_of(&id("a")), None);
    assert_eq!(dag.slot_of(&id("c")), Some(0));
    assert_eq!(dag.slot_of(&id("b")), Some(1));
    assert_eq!(dag.slot_of(&id("d")), Some(2));
    assert_eq!(dag.block(0).unwrap().hash, "c");
    assert_eq!(dag.block(0).unwrap().blue_score, 3);
    assert_eq!(dag.block(0).unwrap().parents, vec![id("b")]);
    assert_eq!(dag.children(1).unwrap(), vec![0]);
    assert_eq!(dag.children(0).unwrap(), vec![2]);
    assert_eq!(dag.children(2).unwrap(), Vec::<usize>::new());
    assert!(dag.block(3).is_none());
}

#[test]
fn eviction_takes_the_edges_of_the_block_along() {
    let mut dag = RollingDag::new(3);
    dag.add_block(block("a", 1, &["a"]));
    dag.add_block(block("b", 2, &["a"]));
    dag.add_block(block("c", 3, &["a", "b"]));
    assert_eq!(dag.children(0).unwrap(), vec![2, 1, 0]);
    dag.add_block(block("d", 4, &["b"]));
    // nodes are now c, b, d
    assert_eq!(dag.children(0).unwrap(), Vec::<usize>::new());
    assert_eq!(dag.children(1).unwrap(), vec![2, 0]);
    assert_eq!(dag.children(2).unwrap(), Vec::<usize>::new());
}

/// The window as a plain list of blocks and edges, kept in step with the
/// real one.
struct Model {
    capacity: usize,
    nodes: Vec<BlockInfo>,
    children: Vec<Vec<usize>>,
    order: Vec<String>,
}

impl Model {
    fn slot_of(&self, id: &str) -> Option<usize> {
        self.nodes.iter().position(|b| b.hash == id)
    }

    fn add_block(&mut self, b: BlockInfo) -> bool {
        if self.slot_of(&b.hash).is_some() {
            return false;
        }
        if !self.order.is_empty() && self.order.len() >= self.capacity {
            let oldest = self.order.remove(0);
            let a = self.slot_of(&oldest).unwrap();
            let last = self.nodes.len() - 1;
            self.nodes.swap_remove(a);
            self.children.swap_remove(a);
            for list in self.children.iter_mut() {
                list.retain(|&t| t != a);
                for t in list.iter_mut() {
                    if *t == last {
                        *t = a;
                    }
                }
            }
        }
        let child = self.nodes.len();
        self.order.push(b.hash.clone());
        self.nodes.push(b.clone());
        self.children.push(Vec::new());
        for p in &b.parents {
            if let Some(s) = self.slot_of(p) {
                self.children[s].insert(0, child);
            }
        }
        true
    }
}

#[test]
fn window_follows_its_model_over_many_blocks() {
    for capacity in [1usize, 2, 3, 5, 8] {
        let mut dag = RollingDag::new(capacity);
        let mut model = Model { capacity, nodes: vec![], children: vec![], order: vec![] };
        let mut seed: u64 = 0x2545_f491_4f6c_dd1d ^ (capacity as u64);
        let mut next = move || {
            seed = seed.wrapping_mul(6364136223846793005).wrapping_add(1442695040888963407);
            (seed >> 33) as usize
        };
        for step in 0..400usize {
            // identifiers repeat, so that some blocks are resident already
            let name = next() % 17;
            let mut parents = Vec::new();
            for _ in 0..(next() % 4) {
                parents.push(format!("n{}", next() % 17));
            }
            let b = BlockInfo {
                hash: format!("n{}", name),
                blue_score: (next() % 1000) as u64,
                parents,
                timestamp: step as u64,
            };
            let expected = model.add_block(b.clone());
            assert_eq!(dag.add_block(b), expected);
            assert_eq!(dag.len(), model.nodes.len());
            assert!(dag.len() <= capacity);
            for s in 0..model.nodes.len() {
                let got = dag.block(s).unwrap();
                assert_eq!(got.hash, model.nodes[s].hash);
                assert_eq!(got.blue_score, model.nodes[s].blue_score);
                assert_eq!(got.parents, model.nodes[s].parents);
                assert_eq!(dag.children(s).unwrap(), model.children[s]);
                assert_eq!(dag.slot_of(&model.nodes[s].hash), Some(s));
            }
            assert!(dag.block(model.nodes.len()).is_none());
        }
    }
}

#[test]
fn clone_of_a_block_has_the_same_contents() {
    let b = block("a", 7, &["p", "q"]);
    let c = b.clone();
    assert_eq!(c.hash, "a");
    assert_eq!(c.blue_score, 7);
    assert_eq!(c.parents, vec![id("p"), id("q")]);
    assert_eq!(c.timestamp, 0);
}
