use whoot::axial::Axial;
use whoot::board_data::{offsets, BoardData, BoardError};
use whoot::edge::{EdgeCoords, EdgeType};
use whoot::hex::{BuildType, Hex, Resource};
use whoot::pickable_pos::PickablePos;
use whoot::vertex::Vertex;

fn single_hex_board() -> BoardData {
    let seeds = vec![Hex { resource_type: Resource::Desert, number: 0, pos: Axial::new(0, 0) }];
    BoardData::from_seeds(seeds).unwrap()
}

fn vertex_record(b: &BoardData, pos: Axial) -> Vertex {
    *b.vertices.iter().find(|v| v.pos == pos).unwrap()
}

fn positions(vs: &[Vertex]) -> Vec<Axial> {
    let mut p: Vec<Axial> = vs.iter().map(|v| v.pos).collect();
    p.sort();
    p
}

#[test]
fn edge_key_canonicalization() {
    let a = Axial::new(1, 0);
    let b = Axial::new(0, 1);
    let k1 = EdgeCoords::new(a, b);
    let k2 = EdgeCoords::new(b, a);
    assert_eq!(k1, k2);
    assert_eq!(k1.a, Axial::new(0, 1));
    assert_eq!(k1.b, Axial::new(1, 0));
    assert!(k1.contains(a));
    assert!(k1.contains(b));
    assert!(!k1.contains(Axial::new(2, 2)));
}

#[test]
fn single_hex_scenario() {
    let b = single_hex_board();
    assert_eq!(b.hexes.len(), 1);
    assert_eq!(b.vertices.len(), 6);
    assert_eq!(b.edges.len(), 6);
    assert_eq!(b.robber, Axial::new(0, 0));

    // The six vertices are exactly the six offsets from the origin.
    let mut expected: Vec<Axial> = offsets();
    expected.sort();
    assert_eq!(positions(&b.vertices), expected);

    // Each edge connects two offset-adjacent vertices, and each pair has
    // exactly one entry.
    for e in b.edges.iter() {
        let d = (e.path_coords.b.q - e.path_coords.a.q, e.path_coords.b.r - e.path_coords.a.r);
        assert!(offsets().iter().any(|o| (o.q, o.r) == d));
        let n = b
            .edges
            .iter()
            .filter(|f| {
                f.path_coords == EdgeCoords::new(e.path_coords.b, e.path_coords.a)
            })
            .count();
        assert_eq!(n, 1);
    }

    // Initially every vertex is a valid settlement position.
    let valid = b.get_valid_settlement_coords();
    assert_eq!(positions(&valid), expected);
}

#[test]
fn single_hex_scenario_after_owning_one_vertex() {
    let mut b = single_hex_board();
    b.set_building(Axial::new(1, 0), BuildType::Settlement, Some(1)).unwrap();

    // The owned vertex and its two graph-neighbors among the six corners
    // ((0,1) and (1,-1)) drop out; the other three corners stay valid.
    let valid = b.get_valid_settlement_coords();
    let mut expected = vec![Axial::new(-1, 1), Axial::new(-1, 0), Axial::new(0, -1)];
    expected.sort();
    assert_eq!(positions(&valid), expected);
}

#[test]
fn duplicate_seed_rejected() {
    let seeds = vec![
        Hex { resource_type: Resource::Wood, number: 3, pos: Axial::new(0, 0) },
        Hex { resource_type: Resource::Ore, number: 5, pos: Axial::new(0, 0) },
    ];
    match BoardData::from_seeds(seeds) {
        Err(e) => assert_eq!(e, BoardError::DuplicateHexPosition),
        Ok(_) => panic!("duplicate seed positions must be rejected"),
    }
}

#[test]
fn default_board_shape() {
    let b = BoardData::new();
    assert_eq!(b.hexes.len(), 19);
    assert_eq!(b.vertices.len(), 54);
    assert_eq!(b.edges.len(), 72);
    assert_eq!(b.robber, Axial::new(0, 0));
    let desert = b.hexes.iter().find(|h| h.pos == Axial::new(0, 0)).unwrap();
    assert_eq!(desert.resource_type, Resource::Desert);
    assert_eq!(desert.number, 0);
    // Freshly built: nothing is owned, no roads.
    assert!(b.vertices.iter().all(|v| v.build_type == BuildType::Empty && v.owner.is_none()));
    assert!(b.edges.iter().all(|e| e.path_type == EdgeType::Empty));
}

#[test]
fn vertex_completeness_on_default_board() {
    let b = BoardData::new();
    for h in b.hexes.iter() {
        for o in offsets().iter() {
            let corner = h.pos.add(o);
            assert!(b.vertices.iter().any(|v| v.pos == corner));
        }
    }
}

#[test]
fn neighbor_symmetry_on_default_board() {
    let b = BoardData::new();
    for e in b.edges.iter() {
        let va = vertex_record(&b, e.path_coords.a);
        let vb = vertex_record(&b, e.path_coords.b);
        assert!(b.get_adjacent_vertices(&va).iter().any(|w| w.pos == vb.pos));
        assert!(b.get_adjacent_vertices(&vb).iter().any(|w| w.pos == va.pos));
    }
}

#[test]
fn settlement_distance_rule_with_one_owner() {
    let mut b = BoardData::new();
    let v0 = Axial::new(1, 0);
    b.set_building(v0, BuildType::Settlement, Some(0)).unwrap();
    let owned = vertex_record(&b, v0);
    let neighbors: Vec<Axial> =
        b.get_adjacent_vertices(&owned).iter().map(|v| v.pos).collect();
    for v in b.vertices.iter() {
        let expected = v.pos != v0 && !neighbors.contains(&v.pos);
        assert_eq!(b.is_valid_settlement_coords(v), expected);
    }
}

#[test]
fn adjacent_vertices_in_offset_table_order() {
    let b = single_hex_board();
    let v = vertex_record(&b, Axial::new(1, 0));
    let adj = b.get_adjacent_vertices(&v);
    // (1,0)'s neighbors among the six corners, in offset-table order:
    // (0,1) through offset (-1,1), then (1,-1) through offset (0,-1).
    assert_eq!(positions_in_order(&adj), vec![Axial::new(0, 1), Axial::new(1, -1)]);
}

fn positions_in_order(vs: &[Vertex]) -> Vec<Axial> {
    vs.iter().map(|v| v.pos).collect()
}

#[test]
fn set_building_on_unknown_position_is_rejected() {
    let mut b = single_hex_board();
    let before: Vec<Vertex> = b.vertices.clone();
    let r = b.set_building(Axial::new(7, 7), BuildType::City, Some(2));
    assert_eq!(r, Err(BoardError::UnknownPosition));
    assert_eq!(b.vertices, before);
}

#[test]
fn set_road_updates_the_canonical_entry() {
    let mut b = single_hex_board();
    b.set_road(Axial::new(1, 0), Axial::new(0, 1), EdgeType::Road).unwrap();
    let key = EdgeCoords::new(Axial::new(0, 1), Axial::new(1, 0));
    let e = b.edges.iter().find(|e| e.path_coords == key).unwrap();
    assert_eq!(e.path_type, EdgeType::Road);
    // Only that one edge gained a road.
    assert_eq!(b.edges.iter().filter(|e| e.path_type == EdgeType::Road).count(), 1);
}

#[test]
fn set_road_on_unknown_pair_is_rejected() {
    let mut b = single_hex_board();
    // Both endpoints are vertices, but they are not graph-neighbors.
    let r = b.set_road(Axial::new(1, 0), Axial::new(-1, 0), EdgeType::Road);
    assert_eq!(r, Err(BoardError::UnknownPosition));
}

#[test]
fn robber_moves_only_to_existing_hexes() {
    let mut b = BoardData::new();
    b.move_robber(Axial::new(3, 0)).unwrap();
    assert_eq!(b.robber, Axial::new(3, 0));
    let r = b.move_robber(Axial::new(9, 9));
    assert_eq!(r, Err(BoardError::UnknownPosition));
    assert_eq!(b.robber, Axial::new(3, 0));
}

#[test]
fn pickable_pos_starts_unselected() {
    let p = PickablePos::new(Axial::new(2, -1));
    assert_eq!(p.a, Axial::new(2, -1));
    assert!(!p.selected);
}

#[test]
fn offsets_sum_to_zero_and_negate_pairwise() {
    let o = offsets();
    let sum_q: i32 = o.iter().map(|a| a.q).sum();
    let sum_r: i32 = o.iter().map(|a| a.r).sum();
    assert_eq!((sum_q, sum_r), (0, 0));
    for k in 0..6 {
        let m = (k + 3) % 6;
        assert_eq!((o[k].q + o[m].q, o[k].r + o[m].r), (0, 0));
    }
}

#[test]
fn queries_are_total_at_extreme_coordinates() {
    let b = single_hex_board();
    let far = Vertex::new(Axial::new(i32::MAX, i32::MIN), BuildType::Empty, None);
    assert!(b.get_adjacent_vertices(&far).is_empty());
    // An unowned record with no owned neighbors in the map passes the rule.
    assert!(b.is_valid_settlement_coords(&far));
}
