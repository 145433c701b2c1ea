use pav_ecs_game::frame::Vis;
use pav_ecs_game::geometry::{EntityId, IVec2};
use pav_ecs_game::grid::MapGrid;
use pav_ecs_game::vision::{
    fov_obstacle, fov_radius, fov_sample_index, player_visibility, static_light_needs_rebuild, FovCache,
    VisibilityMap,
};

/// One sensor pass: the cached field is recomputed only when stale.
fn sense(cache: &mut FovCache, grid: &MapGrid, pos: IVec2, radius: i32) {
    if cache.needs_refresh(pos, radius, grid.blocker_revision) {
        cache.refreshed(pos, radius, grid.blocker_revision);
    }
}

#[test]
fn obstacle_move_invalidates_cache() {
    let mut grid = MapGrid::new(8, 8);
    let mut cache = FovCache::stale();
    let player = IVec2::new(1, 1);
    sense(&mut cache, &grid, player, 4);
    let rev1 = cache.revision;
    sense(&mut cache, &grid, player, 4);
    let rev2 = cache.revision;
    assert_eq!(rev1, rev2);
    grid.set(IVec2::new(2, 1), EntityId { index: 3, generation: 1 });
    sense(&mut cache, &grid, player, 4);
    let rev3 = cache.revision;
    assert!(rev3 > rev2, "stale FOV must refresh on obstacle change");
}

#[test]
fn moving_or_resizing_the_sensor_refreshes() {
    let grid = MapGrid::new(8, 8);
    let mut cache = FovCache::stale();
    assert!(cache.needs_refresh(IVec2::new(1, 1), 4, 0));
    cache.refreshed(IVec2::new(1, 1), 4, 0);
    assert_eq!(cache.revision, 1);
    assert!(!cache.needs_refresh(IVec2::new(1, 1), 4, grid.blocker_revision));
    assert!(cache.needs_refresh(IVec2::new(2, 1), 4, 0));
    assert!(cache.needs_refresh(IVec2::new(1, 1), 5, 0));
}

#[test]
fn the_refresh_revision_wraps() {
    let mut cache = FovCache { revision: u64::MAX, obstacle_revision: 0, pos: IVec2::new(0, 0), radius: 1 };
    cache.refreshed(IVec2::new(0, 0), 1, 0);
    assert_eq!(cache.revision, 0);
}

#[test]
fn off_grid_and_walls_stop_sight() {
    let mut grid = MapGrid::new(4, 4);
    grid.set(IVec2::new(2, 1), EntityId { index: 1, generation: 0 });
    grid.set_with_blocking(IVec2::new(1, 2), EntityId { index: 2, generation: 0 }, false);
    let origin = IVec2::new(1, 1);
    assert!(fov_obstacle(&grid, origin, IVec2::new(1, 0)));
    assert!(!fov_obstacle(&grid, origin, IVec2::new(0, 1)));
    assert!(!fov_obstacle(&grid, origin, IVec2::new(0, 0)));
    assert!(fov_obstacle(&grid, origin, IVec2::new(-2, 0)));
    assert!(fov_obstacle(&grid, origin, IVec2::new(0, 3)));
}

#[test]
fn samples_land_within_the_round_radius() {
    let grid = MapGrid::new(8, 8);
    let origin = IVec2::new(4, 4);
    assert_eq!(fov_sample_index(&grid, origin, IVec2::new(0, 0), 2), Some(36));
    assert_eq!(fov_sample_index(&grid, origin, IVec2::new(2, 0), 2), Some(38));
    assert_eq!(fov_sample_index(&grid, origin, IVec2::new(2, 1), 2), None);
    assert_eq!(fov_sample_index(&grid, origin, IVec2::new(-5, 0), 9), None);
}

#[test]
fn the_sensor_radius_wins_over_the_light() {
    assert_eq!(fov_radius(Some(4), Some(7)), 4);
    assert_eq!(fov_radius(None, Some(7)), 7);
    assert_eq!(fov_radius(None, None), 0);
}

#[test]
fn known_cells_persist_after_the_player_looks_away() {
    let mut vis = VisibilityMap::new(4);
    player_visibility(&mut vis, 1, &vec![true, true, false, false], 4);
    assert_eq!(vis.revision, 1);
    assert_eq!(vis.data[0], Vis::visible_and_known());
    assert_eq!(vis.data[2], Vis::empty());
    // The same field revision changes nothing.
    player_visibility(&mut vis, 1, &vec![false, false, true, true], 4);
    assert_eq!(vis.data[0], Vis::visible_and_known());
    // A new field: cells no longer seen stay known only.
    player_visibility(&mut vis, 2, &vec![false, false, true, false], 4);
    assert_eq!(vis.data[0], Vis::known_only());
    assert_eq!(vis.data[1], Vis::known_only());
    assert_eq!(vis.data[2], Vis::visible_and_known());
    assert_eq!(vis.data[3], Vis::empty());
}

#[test]
fn the_visibility_layer_follows_the_grid_size() {
    let mut vis = VisibilityMap::new(2);
    player_visibility(&mut vis, 5, &vec![true], 6);
    assert_eq!(vis.data.len(), 6);
    assert_eq!(vis.data[0], Vis::visible_and_known());
    assert_eq!(vis.data[5], Vis::empty());
}

#[test]
fn static_light_rebuild_decision() {
    let lamp = EntityId { index: 4, generation: 1 };
    let built = vec![(lamp, 0u64)];
    assert!(static_light_needs_rebuild(true, &built, &built, false));
    assert!(!static_light_needs_rebuild(false, &built, &built, false));
    assert!(static_light_needs_rebuild(false, &vec![(lamp, 7)], &built, false));
    assert!(static_light_needs_rebuild(false, &built, &built, true));
    assert!(static_light_needs_rebuild(false, &vec![], &built, false));
}
