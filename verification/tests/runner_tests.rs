use minigames::runner::{
    GameState, Obstacle, Player, TouchEvent, World, OBSTACLE_DESPAWN_Z, OBSTACLE_START_Z,
    TRACK_HALF_X,
};

fn start_playing(w: &mut World) {
    w.menu_start(false, false, true);
    w.apply_transition();
    assert!(w.state == GameState::Playing);
}

#[test]
fn menu_waits_for_primary_input() {
    let mut w = World::new();
    w.menu_start(false, false, false);
    w.apply_transition();
    assert!(w.state == GameState::Menu);
    w.menu_start(true, false, false);
    w.apply_transition();
    assert!(w.state == GameState::Playing);
    assert_eq!(w.player, Some(Player { x: 0, target_x: 0 }));
    assert_eq!(w.score.value, 0);
}

#[test]
fn key_steps_move_target_by_fixed_step() {
    let mut w = World::new();
    start_playing(&mut w);
    let no_touches: Vec<TouchEvent> = Vec::new();
    w.player_input(false, true, &no_touches);
    assert_eq!(w.player.unwrap().target_x, 900);
    w.player_input(true, false, &no_touches);
    assert_eq!(w.player.unwrap().target_x, 0);
}

#[test]
fn player_target_never_leaves_track_under_keys() {
    let mut w = World::new();
    start_playing(&mut w);
    let no_touches: Vec<TouchEvent> = Vec::new();
    for _ in 0..20 {
        w.player_input(true, false, &no_touches);
        let t = w.player.unwrap().target_x;
        assert!(-TRACK_HALF_X <= t && t <= TRACK_HALF_X);
    }
    assert_eq!(w.player.unwrap().target_x, -TRACK_HALF_X);
}

#[test]
fn player_target_never_leaves_track_under_huge_drag() {
    let mut w = World::new();
    start_playing(&mut w);
    let mut touches: Vec<TouchEvent> = Vec::new();
    touches.push(TouchEvent::Started { id: 7, x: 0 });
    touches.push(TouchEvent::Moved { id: 7, x: 1_000_000_000 });
    w.player_input(false, false, &touches);
    assert_eq!(w.player.unwrap().target_x, TRACK_HALF_X);
    let mut back: Vec<TouchEvent> = Vec::new();
    back.push(TouchEvent::Moved { id: 7, x: -1_000_000_000 });
    w.player_input(false, false, &back);
    assert_eq!(w.player.unwrap().target_x, -TRACK_HALF_X);
}

#[test]
fn drag_delta_is_incremental_and_scaled() {
    let mut w = World::new();
    start_playing(&mut w);
    let mut touches: Vec<TouchEvent> = Vec::new();
    touches.push(TouchEvent::Started { id: 1, x: 10_000 });
    // A move of 50 pixels (50_000 milli-pixels) maps to 1000 milli-units.
    touches.push(TouchEvent::Moved { id: 1, x: 60_000 });
    // The anchor follows, so a second identical position adds nothing.
    touches.push(TouchEvent::Moved { id: 1, x: 60_000 });
    w.player_input(false, false, &touches);
    assert_eq!(w.player.unwrap().target_x, 1000);
}

#[test]
fn second_touch_is_ignored_until_first_ends() {
    let mut w = World::new();
    start_playing(&mut w);
    let mut touches: Vec<TouchEvent> = Vec::new();
    touches.push(TouchEvent::Started { id: 1, x: 0 });
    touches.push(TouchEvent::Started { id: 2, x: 500_000 });
    touches.push(TouchEvent::Moved { id: 2, x: 600_000 });
    w.player_input(false, false, &touches);
    assert_eq!(w.player.unwrap().target_x, 0);
    let mut more: Vec<TouchEvent> = Vec::new();
    more.push(TouchEvent::Ended { id: 1 });
    more.push(TouchEvent::Started { id: 2, x: 0 });
    more.push(TouchEvent::Moved { id: 2, x: 50_000 });
    w.player_input(false, false, &more);
    assert_eq!(w.player.unwrap().target_x, 1000);
}

#[test]
fn player_position_eases_toward_target() {
    let mut w = World::new();
    start_playing(&mut w);
    w.player = Some(Player { x: 0, target_x: 900 });
    // 50 ms at 12000 milli-units per second is a step of 600.
    w.update_player_transform(50);
    assert_eq!(w.player.unwrap().x, 600);
    // The remaining 300 is within the next step, so the player snaps.
    w.update_player_transform(50);
    assert_eq!(w.player.unwrap().x, 900);
}

#[test]
fn spawner_fires_when_the_interval_elapses() {
    let mut w = World::new();
    start_playing(&mut w);
    w.spawn_obstacles(899);
    assert_eq!(w.obstacles.len(), 0);
    assert_eq!(w.spawn_timer.elapsed_ms, 899);
    w.spawn_obstacles(1);
    assert_eq!(w.obstacles.len(), 1);
    assert_eq!(w.spawn_timer.elapsed_ms, 0);
    let o = w.obstacles[0];
    assert_eq!(o.z, OBSTACLE_START_Z);
    assert!(-TRACK_HALF_X <= o.x && o.x <= TRACK_HALF_X);
}

#[test]
fn obstacles_advance_at_constant_speed() {
    let mut w = World::new();
    start_playing(&mut w);
    w.obstacles.push(Obstacle { x: 100, z: OBSTACLE_START_Z });
    // 250 ms at 8000 milli-units per second is 2000 forward.
    w.move_obstacles(250);
    assert_eq!(w.obstacles.len(), 1);
    assert_eq!(w.obstacles[0], Obstacle { x: 100, z: OBSTACLE_START_Z + 2000 });
}

#[test]
fn obstacle_past_despawn_plane_is_removed_within_one_tick() {
    let mut w = World::new();
    start_playing(&mut w);
    w.obstacles.push(Obstacle { x: 0, z: OBSTACLE_DESPAWN_Z - 100 });
    w.obstacles.push(Obstacle { x: 500, z: -5000 });
    w.move_obstacles(1000);
    // The first obstacle moved 8000 past the plane and is gone; the other
    // stays, order kept.
    assert_eq!(w.obstacles.len(), 1);
    assert_eq!(w.obstacles[0], Obstacle { x: 500, z: 3000 });
    for o in w.obstacles.iter() {
        assert!(o.z <= OBSTACLE_DESPAWN_Z);
    }
}

#[test]
fn collision_needs_overlap_on_both_axes() {
    let mut w = World::new();
    start_playing(&mut w);
    // Lateral overlap only: obstacle far away in depth.
    w.obstacles.push(Obstacle { x: 0, z: 2000 });
    w.collision_system();
    assert!(w.next_state.is_none());
    // Depth overlap only: obstacle in another lane.
    w.obstacles.push(Obstacle { x: 2000, z: 0 });
    w.collision_system();
    assert!(w.next_state.is_none());
    // Overlap on both axes, strictly within 640 on each.
    w.obstacles.push(Obstacle { x: 500, z: -500 });
    w.collision_system();
    assert!(w.next_state == Some(GameState::GameOver));
}

#[test]
fn boundary_distance_does_not_collide() {
    let mut w = World::new();
    start_playing(&mut w);
    // The overlap test is strict: a distance of exactly 640 is no hit.
    w.obstacles.push(Obstacle { x: 640, z: 0 });
    w.collision_system();
    assert!(w.next_state.is_none());
    w.obstacles.push(Obstacle { x: 639, z: 0 });
    w.collision_system();
    assert!(w.next_state == Some(GameState::GameOver));
}

#[test]
fn score_grows_with_time_and_prints_whole_points() {
    let mut w = World::new();
    start_playing(&mut w);
    // 100 ms at 10 milli-points per ms is one point.
    w.score_system(100);
    assert_eq!(w.score.value, 1000);
    assert_eq!(w.update_score_text(), "Score: 1");
    w.score_system(150);
    assert_eq!(w.update_score_text(), "Score: 2");
}

#[test]
fn best_score_never_decreases_across_game_over() {
    let mut w = World::new();
    start_playing(&mut w);
    w.score_system(1000);
    assert_eq!(w.score.value, 10_000);
    w.obstacles.push(Obstacle { x: 0, z: 0 });
    w.collision_system();
    assert_eq!(w.score.best, 10_000);
    w.apply_transition();
    assert!(w.state == GameState::GameOver);
    assert_eq!(w.score.best, 10_000);
    assert!(w.player.is_none());
    assert_eq!(w.obstacles.len(), 0);
    // Restart, score a smaller run, and crash again: the best stays.
    w.game_over_restart(false, true, false);
    w.apply_transition();
    assert!(w.state == GameState::Playing);
    assert_eq!(w.score.value, 0);
    w.score_system(200);
    w.obstacles.push(Obstacle { x: 0, z: 0 });
    w.collision_system();
    assert_eq!(w.score.best, 10_000);
    w.apply_transition();
    assert_eq!(w.score.best, 10_000);
}

#[test]
fn game_over_message_shows_score_and_best() {
    let mut w = World::new();
    start_playing(&mut w);
    w.score_system(1234);
    w.obstacles.push(Obstacle { x: 0, z: 0 });
    w.collision_system();
    w.apply_transition();
    assert_eq!(
        w.game_over_message(),
        "Game Over\nScore: 12  Best: 12\nTap to Restart"
    );
}

#[test]
fn score_keeps_growing_after_collision_until_frame_end() {
    // The collision is noticed mid-frame; the score system still runs in
    // the same frame, so the shown score can exceed the recorded best.
    let mut w = World::new();
    start_playing(&mut w);
    w.score_system(1000);
    w.obstacles.push(Obstacle { x: 0, z: 0 });
    w.collision_system();
    w.score_system(500);
    assert_eq!(w.score.value, 15_000);
    assert_eq!(w.score.best, 10_000);
    w.apply_transition();
    assert!(w.state == GameState::GameOver);
}

#[test]
fn cancelled_touch_releases_the_tracker() {
    let mut w = World::new();
    start_playing(&mut w);
    let mut touches: Vec<TouchEvent> = Vec::new();
    touches.push(TouchEvent::Started { id: 3, x: 0 });
    touches.push(TouchEvent::Canceled { id: 3 });
    // A move of the cancelled touch drags nothing.
    touches.push(TouchEvent::Moved { id: 3, x: 500_000 });
    w.player_input(false, false, &touches);
    assert_eq!(w.player.unwrap().target_x, 0);
    assert!(w.touch.active_id.is_none());
    assert!(w.touch.anchor_x.is_none());
}

#[test]
fn game_over_ignores_movement_systems_state() {
    let mut w = World::new();
    start_playing(&mut w);
    w.obstacles.push(Obstacle { x: 0, z: 0 });
    w.collision_system();
    w.apply_transition();
    assert!(w.state == GameState::GameOver);
    // Nothing happens without primary input.
    w.game_over_restart(false, false, false);
    w.apply_transition();
    assert!(w.state == GameState::GameOver);
}
