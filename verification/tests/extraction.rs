use graph_life::canvas::Canvas;
use graph_life::engine::Engine;
use graph_life::extract::{extract, ExtractError};
use graph_life::rules::RuleConfig;

fn plus_canvas() -> Canvas {
    // 3x3 plus shape: center live, arms dead, corners background
    Canvas {
        width: 3,
        height: 3,
        pixels: vec![
            0, 1, 0, //
            1, 2, 1, //
            0, 1, 0,
        ],
    }
}

#[test]
fn extract_symmetry_concrete() {
    let g = extract(&plus_canvas(), false).unwrap();
    let n = g.cells.len();
    for i in 0..n {
        for j in 0..n {
            assert_eq!(
                g.cells[i].neighbors.contains(&j),
                g.cells[j].neighbors.contains(&i)
            );
        }
    }
}

#[test]
fn extract_no_self_loops() {
    let g = extract(&plus_canvas(), false).unwrap();
    for i in 0..g.cells.len() {
        assert!(!g.cells[i].neighbors.contains(&i));
    }
}

#[test]
fn extract_deterministic() {
    let g1 = extract(&plus_canvas(), false).unwrap();
    let g2 = extract(&plus_canvas(), false).unwrap();
    assert_eq!(g1, g2);
    let g3 = extract(&plus_canvas(), true).unwrap();
    let g4 = extract(&plus_canvas(), true).unwrap();
    assert_eq!(g3, g4);
}

#[test]
fn extract_empty_graph() {
    let c = Canvas { width: 2, height: 2, pixels: vec![0, 0, 0, 0] };
    assert_eq!(extract(&c, false), Err(ExtractError::EmptyGraph));
}

#[test]
fn extract_malformed_code() {
    let c = Canvas { width: 2, height: 2, pixels: vec![0, 7, 0, 0] };
    assert_eq!(extract(&c, false), Err(ExtractError::MalformedTopology));
}

#[test]
fn extract_malformed_shape() {
    let c = Canvas { width: 2, height: 2, pixels: vec![0, 1, 1] };
    assert_eq!(extract(&c, false), Err(ExtractError::MalformedTopology));
}

#[test]
fn extract_adjacency_is_4_connected() {
    // 2x2 block of dead cells: each cell touches its row and column
    // neighbor but not the diagonal one
    let c = Canvas { width: 2, height: 2, pixels: vec![1, 1, 1, 1] };
    let g = extract(&c, false).unwrap();
    assert_eq!(g.cells.len(), 4);
    // row-major order: 0=(0,0), 1=(1,0), 2=(0,1), 3=(1,1)
    assert!(g.cells[0].neighbors.contains(&1));
    assert!(g.cells[0].neighbors.contains(&2));
    assert!(!g.cells[0].neighbors.contains(&3));
    assert!(g.cells[3].neighbors.contains(&1));
    assert!(g.cells[3].neighbors.contains(&2));
    assert!(!g.cells[3].neighbors.contains(&0));
}

#[test]
fn extract_wrap_connects_borders() {
    let c = Canvas { width: 3, height: 1, pixels: vec![1, 1, 1] };
    let flat = extract(&c, false).unwrap();
    assert!(!flat.cells[0].neighbors.contains(&2));
    assert_eq!(flat.cells[0].neighbors, vec![1]);
    let torus = extract(&c, true).unwrap();
    assert!(torus.cells[0].neighbors.contains(&2));
    assert!(torus.cells[2].neighbors.contains(&0));
}

#[test]
fn extract_initial_liveness_from_colors() {
    let c = Canvas { width: 2, height: 1, pixels: vec![1, 2] };
    let g = extract(&c, false).unwrap();
    assert_eq!(g.cells.len(), 2);
    assert!(!g.cells[0].alive);
    assert!(g.cells[1].alive);
    assert_eq!((g.cells[0].x, g.cells[0].y), (0, 0));
    assert_eq!((g.cells[1].x, g.cells[1].y), (1, 0));
}

#[test]
fn render_round_trip() {
    // rendering straight after construction reproduces the source canvas
    let c = plus_canvas();
    let g = extract(&c, false).unwrap();
    let engine = Engine::new(g, RuleConfig::default()).unwrap();
    let out = engine.render();
    assert_eq!(out.width, c.width);
    assert_eq!(out.height, c.height);
    assert_eq!(out.pixels, c.pixels);
}

#[test]
fn canvas_new_checks_dimensions() {
    assert!(Canvas::new(2, 2, vec![0, 0, 0, 0]).is_some());
    assert!(Canvas::new(2, 2, vec![0, 0, 0]).is_none());
    let c = Canvas::new(2, 1, vec![1, 2]).unwrap();
    assert_eq!(c.get(0, 0), 1);
    assert_eq!(c.get(1, 0), 2);
}
