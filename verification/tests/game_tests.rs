use sokoban::game::Game;
use sokoban::grid::{floor_div, Direction, Location};

fn loc(x: i32, y: i32) -> Location {
    Location { x, y }
}

#[test]
fn parse_single_row() {
    let g = Game::from_string("O.pxO".to_string());
    assert_eq!(g.walls, vec![loc(0, 0), loc(4, 0)]);
    assert_eq!(g.goals, vec![loc(1, 0)]);
    assert_eq!(g.blocks, vec![loc(3, 0)]);
    assert_eq!(g.player, loc(2, 0));
}

#[test]
fn parse_multirow_legend() {
    let g = Game::from_string("X P\n x.".to_string());
    assert_eq!(g.walls, Vec::new());
    assert_eq!(g.blocks, vec![loc(0, 0), loc(1, 1)]);
    assert_eq!(g.goals, vec![loc(0, 0), loc(2, 0), loc(2, 1)]);
    assert_eq!(g.player, loc(2, 0));
}

#[test]
fn parse_unknown_chars_are_floor() {
    let g = Game::from_string("a?Ob".to_string());
    assert_eq!(g.walls, vec![loc(2, 0)]);
    assert_eq!(g.blocks, Vec::new());
    assert_eq!(g.goals, Vec::new());
    assert_eq!(g.player, loc(0, 0));
}

#[test]
fn parse_empty_text() {
    let g = Game::from_string(String::new());
    assert_eq!(g.walls, Vec::new());
    assert_eq!(g.blocks, Vec::new());
    assert_eq!(g.goals, Vec::new());
    assert_eq!(g.player, loc(0, 0));
}

#[test]
fn push_single_block() {
    let mut g = Game::from_string("px ".to_string());
    assert!(g.try_move(Direction::Right));
    g.apply_move(Direction::Right);
    assert_eq!(g.player, loc(1, 0));
    assert_eq!(g.blocks, vec![loc(2, 0)]);
}

#[test]
fn push_two_blocks_rejected() {
    let mut g = Game::from_string("pxx ".to_string());
    assert!(!g.try_move(Direction::Right));
    g.apply_move(Direction::Right);
    assert_eq!(g.player, loc(0, 0));
    assert_eq!(g.blocks, vec![loc(1, 0), loc(2, 0)]);
}

#[test]
fn push_into_wall_rejected() {
    let mut g = Game::from_string("pxO".to_string());
    assert!(!g.try_move(Direction::Right));
    g.apply_move(Direction::Right);
    assert_eq!(g.player, loc(0, 0));
    assert_eq!(g.blocks, vec![loc(1, 0)]);
}

#[test]
fn move_into_wall_rejected() {
    let mut g = Game::from_string("pO".to_string());
    assert!(!g.try_move(Direction::Right));
    g.apply_move(Direction::Right);
    assert_eq!(g.player, loc(0, 0));
}

#[test]
fn try_then_apply_is_deterministic() {
    let mut g = Game::from_string("Op ".to_string());
    assert!(!g.try_move(Direction::Left));
    g.apply_move(Direction::Left);
    assert_eq!(g.player, loc(1, 0));

    assert!(g.try_move(Direction::Right));
    g.apply_move(Direction::Right);
    assert_eq!(g.player, loc(2, 0));
}

#[test]
fn boxed_in_player_has_no_moves() {
    let mut g = Game::from_string("OOO\nOpO\nOOO".to_string());
    assert_eq!(g.player, loc(1, 1));
    assert!(g.valid_moves().is_empty());
    // clicks anywhere cause no movement
    g.handle_click(150, 50, 100); // cell (1, 0): adjacent but a wall
    g.handle_click(50, 50, 100); // cell (0, 0): diagonal
    g.handle_click(150, 150, 100); // cell (1, 1): the player's own cell
    g.handle_click(950, 150, 100); // cell (9, 1): far away
    assert_eq!(g.player, loc(1, 1));
    assert_eq!(g.walls.len(), 8);
}

#[test]
fn valid_moves_in_fixed_order() {
    let g = Game::from_string("   \n p \n   ".to_string());
    assert_eq!(g.player, loc(1, 1));
    let moves = g.valid_moves();
    assert_eq!(moves, vec![loc(1, 0), loc(1, 2), loc(0, 1), loc(2, 1)]);
}

#[test]
fn click_adjacent_cell_moves() {
    let mut g = Game::from_string("   \n p \n   ".to_string());
    g.handle_click(150, 50, 100); // cell (1, 0), one step up
    assert_eq!(g.player, loc(1, 0));
}

#[test]
fn click_diagonal_ignored() {
    let mut g = Game::from_string("   \n p \n   ".to_string());
    g.handle_click(50, 50, 100); // cell (0, 0)
    assert_eq!(g.player, loc(1, 1));
}

#[test]
fn click_own_cell_ignored() {
    let mut g = Game::from_string("   \n p \n   ".to_string());
    g.handle_click(199, 101, 100); // still cell (1, 1)
    assert_eq!(g.player, loc(1, 1));
}

#[test]
fn click_maps_by_floor_division() {
    // a click left of the board floors to cell (-1, 0), one step left
    // of the player; truncating division would map it to cell (0, 0)
    let mut g = Game::from_string("p".to_string());
    g.handle_click(-50, 10, 100);
    assert_eq!(g.player, loc(-1, 0));
}

#[test]
fn floor_div_rounds_down() {
    assert_eq!(floor_div(250, 100), 2);
    assert_eq!(floor_div(0, 100), 0);
    assert_eq!(floor_div(-1, 100), -1);
    assert_eq!(floor_div(-100, 100), -1);
    assert_eq!(floor_div(-101, 100), -2);
    assert_eq!(floor_div(i32::MIN, 1), i32::MIN);
    assert_eq!(floor_div(i32::MAX, 1), i32::MAX);
    assert_eq!(floor_div(i32::MIN, 3), -715827883);
}

#[test]
fn example_level_layout() {
    let g = Game::example();
    assert_eq!(g.player, loc(2, 2));
    assert_eq!(g.blocks.len(), 7);
    assert_eq!(g.goals.len(), 7);
    assert!(g.walls.contains(&loc(2, 0)));
    assert!(g.blocks.contains(&loc(3, 2)));
    assert!(g.goals.contains(&loc(1, 2)));
}

#[test]
fn direction_to_adjacent_cells() {
    let p = loc(3, 3);
    assert_eq!(p.direction_to(&loc(3, 2)), Some(Direction::Up));
    assert_eq!(p.direction_to(&loc(3, 4)), Some(Direction::Down));
    assert_eq!(p.direction_to(&loc(2, 3)), Some(Direction::Left));
    assert_eq!(p.direction_to(&loc(4, 3)), Some(Direction::Right));
    assert_eq!(p.direction_to(&loc(3, 3)), None);
    assert_eq!(p.direction_to(&loc(4, 4)), None);
    assert_eq!(p.direction_to(&loc(3, 5)), None);
}

#[test]
fn move_to_steps_one_cell() {
    let p = loc(3, 3);
    assert_eq!(p.move_to(Direction::Up), loc(3, 2));
    assert_eq!(p.move_to(Direction::Down), loc(3, 4));
    assert_eq!(p.move_to(Direction::Left), loc(2, 3));
    assert_eq!(p.move_to(Direction::Right), loc(4, 3));
    assert_eq!(Direction::Up.as_diff(), (0, -1));
    assert_eq!(Direction::Right.as_diff(), (1, 0));
}

#[test]
fn invariant_holds_after_move_sequence() {
    let mut g = Game::example();
    let dirs = [
        Direction::Right,
        Direction::Right,
        Direction::Down,
        Direction::Left,
        Direction::Up,
        Direction::Down,
        Direction::Right,
        Direction::Down,
    ];
    for d in dirs {
        g.apply_move(d);
        // no two blocks share a cell
        for i in 0..g.blocks.len() {
            for j in 0..i {
                assert_ne!(g.blocks[i], g.blocks[j]);
            }
        }
        // the player is on neither a wall nor a block
        assert!(!g.walls.contains(&g.player));
        assert!(!g.blocks.contains(&g.player));
    }
}
