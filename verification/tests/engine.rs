use graph_life::engine::{Engine, EngineError};
use graph_life::graph::{Cell, CellGraph};
use graph_life::rules::RuleConfig;

fn cell(x: usize, y: usize, alive: bool, neighbors: Vec<usize>) -> Cell {
    Cell { x, y, alive, neighbors }
}

fn default_rules() -> RuleConfig {
    RuleConfig::default()
}

#[test]
fn default_thresholds() {
    let cfg = RuleConfig::default();
    assert_eq!(cfg.survive_min, 2);
    assert_eq!(cfg.survive_max, 3);
    assert_eq!(cfg.birth_min, 3);
    assert_eq!(cfg.birth_max, 3);
    assert!(!cfg.proportional);
}

#[test]
fn scenario_line_stays_dead() {
    // 3-cell line A-B-C, all dead, default thresholds: nothing reaches
    // birth_min = 3, so everything stays dead
    let g = CellGraph {
        width: 3,
        height: 1,
        wrap: false,
        cells: vec![
            cell(0, 0, false, vec![1]),
            cell(1, 0, false, vec![0, 2]),
            cell(2, 0, false, vec![1]),
        ],
    };
    let mut engine = Engine::new(g, default_rules()).unwrap();
    engine.step();
    for i in 0..3 {
        assert!(!engine.is_alive(i));
    }
}

#[test]
fn scenario_cycle_golden() {
    // 4-cell cycle A-B-C-D-A with A and C live, default thresholds.
    // Influence (plain counts): A and C see two dead neighbors (score 0);
    // B and D see A and C (score 2). A and C die (0 outside [2,3]); B and
    // D stay dead (2 outside [3,3]).
    let g = CellGraph {
        width: 2,
        height: 2,
        wrap: false,
        cells: vec![
            cell(0, 0, true, vec![1, 3]),  // A
            cell(1, 0, false, vec![0, 2]), // B
            cell(1, 1, true, vec![1, 3]),  // C
            cell(0, 1, false, vec![0, 2]), // D
        ],
    };
    let engine = Engine::new(g, default_rules()).unwrap();
    assert_eq!(engine.influence_score(0), 0);
    assert_eq!(engine.influence_score(1), 2);
    assert_eq!(engine.influence_score(2), 0);
    assert_eq!(engine.influence_score(3), 2);
    let mut engine = engine;
    engine.step();
    for i in 0..4 {
        assert!(!engine.is_alive(i));
    }
}

fn star_with_leaf_ring(hub_alive: bool) -> CellGraph {
    // hub 0 joined to 4 leaves; the leaves also form a ring 1-2-3-4-1
    CellGraph {
        width: 3,
        height: 3,
        wrap: false,
        cells: vec![
            cell(1, 1, hub_alive, vec![1, 2, 3, 4]),
            cell(0, 0, true, vec![0, 2, 4]),
            cell(2, 0, true, vec![0, 1, 3]),
            cell(2, 2, true, vec![0, 2, 4]),
            cell(0, 2, true, vec![0, 1, 3]),
        ],
    }
}

#[test]
fn scenario_star_proportional() {
    // Proportional scoring on the hub sums each live leaf's own
    // live-neighbor count (2, from the ring) instead of counting the
    // leaves (4).
    let mut cfg = RuleConfig::default();
    cfg.proportional = true;
    let engine = Engine::new(star_with_leaf_ring(false), cfg).unwrap();
    assert_eq!(engine.count_live_neighbors(0), 4);
    assert_eq!(engine.influence_score(0), 8);

    let plain = Engine::new(star_with_leaf_ring(false), default_rules()).unwrap();
    assert_eq!(plain.influence_score(0), 4);
}

fn star_after_step(live_leaves: usize, center_alive: bool, cfg: RuleConfig) -> bool {
    // center 0 with `live_leaves` live neighbors, leaves only know the center
    let mut cells = vec![cell(0, 0, center_alive, (1..=live_leaves).collect())];
    for k in 0..live_leaves {
        cells.push(cell(k + 1, 1, true, vec![0]));
    }
    let g = CellGraph { width: 8, height: 2, wrap: false, cells };
    let mut engine = Engine::new(g, cfg).unwrap();
    engine.step();
    engine.is_alive(0)
}

#[test]
fn survival_interval_is_closed() {
    // live-neighbor counts exactly at survive_min or survive_max keep the
    // cell alive; counts just outside the interval kill it
    let cfg = default_rules();
    assert!(!star_after_step(0, true, cfg));
    assert!(!star_after_step(1, true, cfg));
    assert!(star_after_step(2, true, cfg));
    assert!(star_after_step(3, true, cfg));
    assert!(!star_after_step(4, true, cfg));
    assert!(!star_after_step(5, true, cfg));
}

#[test]
fn birth_interval_is_closed() {
    let cfg = default_rules();
    assert!(!star_after_step(2, false, cfg));
    assert!(star_after_step(3, false, cfg));
    assert!(!star_after_step(4, false, cfg));
}

#[test]
fn step_uses_previous_generation_only() {
    // Line A-B-C with A and C live, thresholds (2,3,2,3): under the
    // simultaneous-update semantics B sees both A and C live and is born,
    // while A and C die. An in-place sequential update would kill A first
    // and rob B of its birth.
    let g = CellGraph {
        width: 3,
        height: 1,
        wrap: false,
        cells: vec![
            cell(0, 0, true, vec![1]),
            cell(1, 0, false, vec![0, 2]),
            cell(2, 0, true, vec![1]),
        ],
    };
    let cfg = RuleConfig {
        survive_min: 2,
        survive_max: 3,
        birth_min: 2,
        birth_max: 3,
        proportional: false,
    };
    let mut engine = Engine::new(g, cfg).unwrap();
    engine.step();
    assert!(!engine.is_alive(0));
    assert!(engine.is_alive(1));
    assert!(!engine.is_alive(2));
}

#[test]
fn rejects_self_loop() {
    let g = CellGraph {
        width: 2,
        height: 1,
        wrap: false,
        cells: vec![cell(0, 0, false, vec![0, 1]), cell(1, 0, false, vec![0])],
    };
    assert!(matches!(Engine::new(g, default_rules()), Err(EngineError::InvalidGraph)));
}

#[test]
fn rejects_asymmetric_adjacency() {
    let g = CellGraph {
        width: 2,
        height: 1,
        wrap: false,
        cells: vec![cell(0, 0, false, vec![1]), cell(1, 0, false, vec![])],
    };
    assert!(matches!(Engine::new(g, default_rules()), Err(EngineError::InvalidGraph)));
}

#[test]
fn rejects_dangling_neighbor() {
    let g = CellGraph {
        width: 2,
        height: 1,
        wrap: false,
        cells: vec![cell(0, 0, false, vec![5]), cell(1, 0, false, vec![])],
    };
    assert!(matches!(Engine::new(g, default_rules()), Err(EngineError::InvalidGraph)));
}

#[test]
fn rejects_shared_position() {
    let g = CellGraph {
        width: 2,
        height: 1,
        wrap: false,
        cells: vec![cell(0, 0, false, vec![]), cell(0, 0, false, vec![])],
    };
    assert!(matches!(Engine::new(g, default_rules()), Err(EngineError::InvalidGraph)));
}

#[test]
fn accepts_valid_graph() {
    let g = CellGraph {
        width: 2,
        height: 1,
        wrap: false,
        cells: vec![cell(0, 0, true, vec![1]), cell(1, 0, false, vec![0])],
    };
    let engine = Engine::new(g, default_rules()).unwrap();
    assert_eq!(engine.num_cells(), 2);
    assert!(engine.is_alive(0));
    assert!(!engine.is_alive(1));
}

#[test]
fn render_paints_positions() {
    let g = CellGraph {
        width: 3,
        height: 1,
        wrap: false,
        cells: vec![cell(0, 0, true, vec![1]), cell(1, 0, false, vec![0])],
    };
    let engine = Engine::new(g, default_rules()).unwrap();
    let out = engine.render();
    assert_eq!(out.pixels, vec![2, 1, 0]);
}
