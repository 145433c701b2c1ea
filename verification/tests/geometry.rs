use pav_ecs_game::geometry::{is_hex_pos, rotate, Direction, EntityId, IVec2};
use pav_ecs_game::line::line_clear;
use pav_ecs_game::vision::{ring_points, RingCache};

#[test]
fn open_ground_is_clear_both_ways() {
    let from = IVec2::new(0, 0);
    let to = IVec2::new(5, 2);
    assert!(line_clear(from, to, |_| false));
    assert!(line_clear(to, from, |_| false));
}

#[test]
fn a_wall_between_blocks_but_one_at_the_end_does_not() {
    let wall = IVec2::new(2, 0);
    assert!(!line_clear(IVec2::zero(), IVec2::new(4, 0), |p| p == wall));
    assert!(line_clear(IVec2::zero(), wall, |p| p == wall));
}

#[test]
fn the_start_cell_is_never_tested() {
    let start = IVec2::new(3, 3);
    assert!(line_clear(start, IVec2::new(6, 7), |p| p == start));
    assert!(line_clear(start, start, |_| true));
}

#[test]
fn a_diagonal_wall_blocks() {
    let wall = IVec2::new(2, 2);
    assert!(!line_clear(IVec2::zero(), IVec2::new(4, 4), |p| p == wall));
    assert!(line_clear(IVec2::zero(), IVec2::new(4, 4), |p| p == IVec2::new(2, 1)));
}

#[test]
fn ring_order_and_count_match_original() {
    let ring = ring_points(1);
    assert_eq!(ring.len(), 8);
    assert_eq!(
        ring,
        vec![
            IVec2::new(-1, -1),
            IVec2::new(0, -1),
            IVec2::new(1, -1),
            IVec2::new(1, 0),
            IVec2::new(1, 1),
            IVec2::new(0, 1),
            IVec2::new(-1, 1),
            IVec2::new(-1, 0),
        ]
    );
    assert_eq!(ring_points(2).len(), 16);
}

#[test]
fn every_ring_point_lies_on_its_ring() {
    for r in 1..6 {
        let ring = ring_points(r);
        assert_eq!(ring.len() as i32, 8 * r);
        for p in &ring {
            assert_eq!(p.x.abs().max(p.y.abs()), r);
        }
    }
}

#[test]
fn the_ring_cache_hands_out_the_same_rings() {
    let mut cache = RingCache::new();
    assert_eq!(cache.ring(3), ring_points(3));
    assert_eq!(cache.ring(1), ring_points(1));
    assert_eq!(cache.ring(3), ring_points(3));
}

#[test]
fn rotation_follows_the_facing() {
    let v = IVec2::new(2, 1);
    assert_eq!(rotate(v, IVec2::new(1, 0)), IVec2::new(2, -1));
    assert_eq!(rotate(v, IVec2::new(0, 0)), v);
    assert_eq!(rotate(v, IVec2::new(0, 1)), IVec2::new(1, 2));
    assert_eq!(rotate(v, IVec2::new(-1, 0)), IVec2::new(-2, 1));
    assert_eq!(rotate(v, IVec2::new(0, -1)), IVec2::new(-1, -2));
}

#[test]
fn directions_follow_the_dominant_axis() {
    assert_eq!(Direction::of(IVec2::zero()), Direction::Still);
    assert_eq!(Direction::of(IVec2::new(3, 1)), Direction::Right);
    assert_eq!(Direction::of(IVec2::new(-3, 2)), Direction::Left);
    assert_eq!(Direction::of(IVec2::new(1, 1)), Direction::Up);
    assert_eq!(Direction::of(IVec2::new(0, -1)), Direction::Down);
    assert_eq!(Direction::Down.index(), 4);
    assert_eq!(Direction::Still.index(), 0);
}

#[test]
fn hex_cells_form_a_checkerboard() {
    assert!(is_hex_pos(IVec2::new(0, 0)));
    assert!(!is_hex_pos(IVec2::new(1, 0)));
    assert!(!is_hex_pos(IVec2::new(0, 1)));
    assert!(is_hex_pos(IVec2::new(1, 1)));
    assert!(is_hex_pos(IVec2::new(2, 0)));
    // Truncating remainder: -1 % 2 == -1, so (1, -1) sums to 0.
    assert!(is_hex_pos(IVec2::new(1, -1)));
    assert!(!is_hex_pos(IVec2::new(-1, 0)));
}

#[test]
fn creation_order_is_index_then_generation() {
    let a = EntityId { index: 1, generation: 5 };
    let b = EntityId { index: 2, generation: 0 };
    let c = EntityId { index: 1, generation: 6 };
    assert!(a.precedes(&b));
    assert!(!b.precedes(&a));
    assert!(a.precedes(&c));
    assert!(a.precedes(&a));
}
