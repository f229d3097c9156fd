use sokoban::constants::{CELL_SIZE, FRAME_LENGTH_US, SIZE};
use sokoban::engine::events::{Event, EventProcessor};
use sokoban::engine::Engine;
use sokoban::game::Game;
use sokoban::grid::Location;

fn open_room() -> Game {
    // a 3x3 floor with the player in the middle; every move is legal
    Game::from_string("   \n p \n   ".to_string())
}

#[test]
fn constants_match_reference_numbers() {
    assert_eq!(FRAME_LENGTH_US, 33333); // 1/30 s in whole microseconds
    assert_eq!(SIZE, 800);
    assert_eq!(CELL_SIZE, 100);
}

#[test]
fn catchup_runs_three_ticks_for_a_tenth_second() {
    let mut eng = Engine::new(open_room(), 0, FRAME_LENGTH_US);
    let ticks = eng.on_frame(100_000); // 0.1 s later
    assert_eq!(ticks, 3);
    assert_eq!(eng.accumulated, 100_000 - 3 * FRAME_LENGTH_US); // 1 us left over
    assert_eq!(eng.last_frame, 100_000);
}

#[test]
fn short_frame_runs_no_tick() {
    let mut eng = Engine::new(open_room(), 0, FRAME_LENGTH_US);
    let ticks = eng.on_frame(10_000); // 0.01 s later
    assert_eq!(ticks, 0);
    assert_eq!(eng.accumulated, 10_000);
    assert_eq!(eng.last_frame, 10_000);
}

#[test]
fn backlog_carries_across_frames() {
    let mut eng = Engine::new(open_room(), 0, FRAME_LENGTH_US);
    assert_eq!(eng.on_frame(33_334), 1);
    assert_eq!(eng.accumulated, 1);
    assert_eq!(eng.on_frame(66_667), 1);
    assert_eq!(eng.accumulated, 1);
}

#[test]
fn latest_click_wins_within_a_tick() {
    let mut eng = Engine::new(open_room(), 0, FRAME_LENGTH_US);
    eng.push_event(Event::Click { x: 150, y: 50 }); // cell (1, 0): up
    eng.push_event(Event::Click { x: 50, y: 150 }); // cell (0, 1): left
    let ticks = eng.on_frame(40_000);
    assert_eq!(ticks, 1);
    // only the later click was delivered
    assert_eq!(eng.runnable.player, Location { x: 0, y: 1 });
}

#[test]
fn event_is_consumed_by_one_tick_only() {
    let mut eng = Engine::new(open_room(), 0, FRAME_LENGTH_US);
    eng.push_event(Event::Click { x: 150, y: 50 }); // up
    let ticks = eng.on_frame(100_000); // three ticks
    assert_eq!(ticks, 3);
    // the first tick moved the player; the later ticks saw no event
    assert_eq!(eng.runnable.player, Location { x: 1, y: 0 });
    assert_eq!(eng.events.pending, None);
}

#[test]
fn pending_event_survives_a_tickless_frame() {
    let mut eng = Engine::new(open_room(), 0, FRAME_LENGTH_US);
    eng.push_event(Event::Click { x: 150, y: 50 });
    assert_eq!(eng.on_frame(1_000), 0);
    assert_eq!(eng.events.pending, Some(Event::Click { x: 150, y: 50 }));
    assert_eq!(eng.runnable.player, Location { x: 1, y: 1 });
}

#[test]
fn event_slot_keeps_latest_only() {
    let mut ep = EventProcessor::new();
    assert_eq!(ep.pending, None);
    ep.push(Event::Click { x: 1, y: 2 });
    ep.push(Event::Click { x: 3, y: 4 });
    assert_eq!(ep.process(), Some(Event::Click { x: 3, y: 4 }));
    assert_eq!(ep.process(), None);
}
