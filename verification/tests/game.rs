use snake_game::{Direction, GameStatus, World};

fn body_indices(world: &World) -> Vec<usize> {
    world.snake_cells().iter().map(|c| c.0).collect()
}

/// Steers one tick toward the current reward: first match its column moving
/// Right, then close in on its row moving Down. Both wrap, so this always
/// makes progress on an 8-wide grid with a short snake.
fn chase_reward_tick(world: &mut World, width: usize) {
    let reward = world.reward_cell().expect("reward present while playing");
    let head = world.snake_head_idx();
    if head % width != reward % width {
        world.change_snake_dir(Direction::Right);
    } else {
        world.change_snake_dir(Direction::Down);
    }
    world.step();
}

fn grow_to_points(world: &mut World, width: usize, points: usize) {
    for _ in 0..2000 {
        if world.points() == points {
            return;
        }
        assert_eq!(world.game_status(), Some(GameStatus::Played));
        chase_reward_tick(world, width);
    }
    panic!("snake never reached {} points", points);
}

#[test]
fn new_world_spawns_length_three_snake() {
    let world = World::new(8, 10);
    assert_eq!(world.width(), 8);
    assert_eq!(world.points(), 0);
    assert_eq!(world.snake_length(), 3);
    assert_eq!(world.snake_head_idx(), 10);
    assert_eq!(body_indices(&world), vec![10, 9, 8]);
    assert_eq!(world.game_status(), None);
    assert_eq!(world.game_status_text(), "No Status");
    let reward = world.reward_cell().expect("a fresh world places a reward");
    assert!(reward < 64);
    assert!(!body_indices(&world).contains(&reward));
}

#[test]
fn first_tick_moves_head_right() {
    for _ in 0..100 {
        let mut world = World::new(8, 10);
        if world.reward_cell() == Some(11) {
            // the random reward sits exactly where the head will move;
            // take a fresh world so the example stays growth-free
            continue;
        }
        world.start_game();
        assert_eq!(world.game_status_text(), "Playing");
        world.step();
        assert_eq!(world.snake_head_idx(), 11);
        assert_eq!(body_indices(&world), vec![11, 10, 9]);
        return;
    }
    panic!("the reward kept landing on the example cell");
}

#[test]
fn tick_before_start_changes_nothing() {
    let mut world = World::new(8, 10);
    world.step();
    assert_eq!(world.game_status(), None);
    assert_eq!(body_indices(&world), vec![10, 9, 8]);
    assert_eq!(world.points(), 0);
}

#[test]
fn right_edge_wraps_to_row_start() {
    let mut world = World::new(4, 3);
    world.start_game();
    world.step();
    assert_eq!(world.snake_head_idx(), 0);
}

#[test]
fn left_edge_wraps_to_row_end() {
    let mut world = World::new(4, 8);
    world.start_game();
    world.change_snake_dir(Direction::Up);
    world.step();
    assert_eq!(world.snake_head_idx(), 4);
    world.step();
    assert_eq!(world.snake_head_idx(), 0);
    world.change_snake_dir(Direction::Left);
    world.step();
    assert_eq!(world.snake_head_idx(), 3);
}

#[test]
fn top_edge_wraps_to_bottom_row() {
    let mut world = World::new(4, 2);
    world.start_game();
    world.change_snake_dir(Direction::Up);
    world.step();
    assert_eq!(world.snake_head_idx(), 14);
}

#[test]
fn bottom_edge_wraps_to_top_row() {
    let mut world = World::new(4, 13);
    world.start_game();
    world.change_snake_dir(Direction::Down);
    world.step();
    assert_eq!(world.snake_head_idx(), 1);
}

#[test]
fn reversal_is_rejected() {
    let mut world = World::new(8, 10);
    world.start_game();
    // heading Right with the second cell directly behind the head: the
    // opposite direction must be ignored
    world.change_snake_dir(Direction::Left);
    world.step();
    assert_eq!(world.snake_head_idx(), 11);
    world.change_snake_dir(Direction::Left);
    world.step();
    assert_eq!(world.snake_head_idx(), 12);
}

#[test]
fn direction_change_is_staged_and_consumed() {
    let mut world = World::new(8, 10);
    world.start_game();
    world.change_snake_dir(Direction::Down);
    world.step();
    assert_eq!(world.snake_head_idx(), 18);
    let body = body_indices(&world);
    assert_eq!(&body[0..3], &[18, 10, 9]);
}

#[test]
fn consuming_a_reward_grows_snake_and_score_by_one() {
    let mut world = World::new(8, 10);
    world.start_game();
    grow_to_points(&mut world, 8, 1);
    assert_eq!(world.points(), 1);
    assert_eq!(world.snake_length(), 4);
    let reward = world.reward_cell().expect("a fresh reward is placed after growth");
    assert!(reward < 64);
    assert!(!body_indices(&world).contains(&reward));
    assert_eq!(world.game_status(), Some(GameStatus::Played));
}

#[test]
fn lost_game_freezes_body_points_and_status() {
    let mut world = World::new(8, 10);
    world.start_game();
    grow_to_points(&mut world, 8, 2);
    assert_eq!(world.snake_length(), 5);
    // drive a tight square: a length-5 snake on a 4-cycle must bite itself
    let square = [Direction::Down, Direction::Left, Direction::Up, Direction::Right];
    let mut k = 0;
    while world.game_status() == Some(GameStatus::Played) && k < 40 {
        world.change_snake_dir(square[k % 4]);
        world.step();
        k += 1;
    }
    assert_eq!(world.game_status(), Some(GameStatus::Lost));
    assert_eq!(world.game_status_text(), "You have lost");
    let body = body_indices(&world);
    let points = world.points();
    for _ in 0..3 {
        world.step();
    }
    world.start_game();
    assert_eq!(world.game_status(), Some(GameStatus::Lost));
    assert_eq!(body_indices(&world), body);
    assert_eq!(world.points(), points);
}

/// The direction that moves a head cell to its successor on a fixed
/// Hamiltonian cycle of the 3x3 torus: 0 1 2 5 8 7 4 3 6 and back to 0.
fn hamiltonian_direction(head: usize) -> Direction {
    match head {
        0 => Direction::Right,
        1 => Direction::Right,
        2 => Direction::Down,
        5 => Direction::Down,
        8 => Direction::Left,
        7 => Direction::Up,
        4 => Direction::Left,
        3 => Direction::Down,
        6 => Direction::Down,
        _ => unreachable!("not a cell of the 3x3 grid"),
    }
}

#[test]
fn filling_the_grid_wins_and_clears_the_reward() {
    let mut world = World::new(3, 2);
    world.start_game();
    let mut ticks = 0;
    while world.game_status() == Some(GameStatus::Played) && ticks < 10000 {
        world.change_snake_dir(hamiltonian_direction(world.snake_head_idx()));
        world.step();
        ticks += 1;
    }
    assert_eq!(world.game_status(), Some(GameStatus::Won));
    assert_eq!(world.game_status_text(), "You have won");
    assert_eq!(world.reward_cell(), None);
    assert_eq!(world.snake_length(), 9);
    assert_eq!(world.points(), 6);
    // terminal state: further ticks and a restart attempt change nothing
    let body = body_indices(&world);
    world.step();
    world.start_game();
    assert_eq!(world.game_status(), Some(GameStatus::Won));
    assert_eq!(world.reward_cell(), None);
    assert_eq!(body_indices(&world), body);
    assert_eq!(world.points(), 6);
}

#[test]
fn reward_lands_in_the_only_free_cell() {
    // a 2x2 grid with the snake on 2, 1, 0 leaves exactly one free cell
    let world = World::new(2, 2);
    assert_eq!(world.reward_cell(), Some(3));
}

#[test]
fn large_grid_wraps_exactly() {
    let mut world = World::new(1000, 2);
    world.start_game();
    world.change_snake_dir(Direction::Up);
    world.step();
    assert_eq!(world.snake_head_idx(), 999002);
}

#[test]
fn status_text_names_every_state() {
    let mut world = World::new(8, 10);
    assert_eq!(world.game_status_text(), "No Status");
    world.start_game();
    assert_eq!(world.game_status_text(), "Playing");
    world.start_game();
    assert_eq!(world.game_status(), Some(GameStatus::Played));
}
