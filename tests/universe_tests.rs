use sokowasm::elements::{BackgroundElementType, ForegroundElement, ForegroundElementType};
use sokowasm::level::Level;
use sokowasm::universe::Universe;

const SMALL: &str = "#####\n#@$.#\n#####";

fn entity(x: i32, y: i32, element_type: ForegroundElementType) -> ForegroundElement {
    ForegroundElement { x, y, element_type }
}

fn snapshot(u: &Universe) -> (Vec<ForegroundElement>, i32) {
    let fg = (0..u.foreground_size()).map(|i| u.get_foreground_elem(i)).collect();
    (fg, u.number_crates_ok())
}

fn player(u: &Universe) -> ForegroundElement {
    (0..u.foreground_size())
        .map(|i| u.get_foreground_elem(i))
        .find(|e| e.element_type() == ForegroundElementType::Player)
        .unwrap()
}

#[test]
fn parse_small_level() {
    let u = Universe::from_level(SMALL);
    assert_eq!(u.width(), 5);
    assert_eq!(u.height(), 3);
    assert_eq!(u.foreground_size(), 2);
    assert_eq!(u.get_foreground_elem(0), entity(1, 1, ForegroundElementType::Player));
    assert_eq!(u.get_foreground_elem(1), entity(2, 1, ForegroundElementType::Crate));
    for y in 0..3 {
        for x in 0..5 {
            let expected = if x == 0 || x == 4 || y == 0 || y == 2 {
                BackgroundElementType::Wall
            } else if (x, y) == (3, 1) {
                BackgroundElementType::Goal
            } else {
                BackgroundElementType::Nothing
            };
            assert_eq!(u.get_background_2D(x, y), expected);
            assert_eq!(u.background()[(y * 5 + x) as usize], expected);
        }
    }
    assert_eq!(u.background().len(), 15);
    assert_eq!(u.number_crates_ok(), 0);
    assert!(!u.has_won());
}

#[test]
fn move_into_wall_is_no_op() {
    let mut u = Universe::from_level(SMALL);
    let before = snapshot(&u);
    u.move_player(0, -1);
    assert_eq!(snapshot(&u), before);
    u.move_player(-1, 0);
    assert_eq!(snapshot(&u), before);
    u.move_player(0, 1);
    assert_eq!(snapshot(&u), before);
}

#[test]
fn push_onto_goal_increments_counter() {
    let mut u = Universe::from_level(SMALL);
    u.move_player(1, 0);
    assert_eq!(u.get_foreground_elem(1), entity(3, 1, ForegroundElementType::Crate));
    assert_eq!(u.get_foreground_elem(0), entity(2, 1, ForegroundElementType::Player));
    assert_eq!(u.number_crates_ok(), 1);
    assert!(u.has_won());
}

#[test]
fn push_off_goal_decrements_counter() {
    let mut u = Universe::from_level("######\n#@$. #\n######");
    u.move_player(1, 0);
    assert_eq!(u.number_crates_ok(), 1);
    assert!(u.has_won());
    u.move_player(1, 0);
    assert_eq!(u.get_foreground_elem(1), entity(4, 1, ForegroundElementType::Crate));
    assert_eq!(u.get_foreground_elem(0), entity(3, 1, ForegroundElementType::Player));
    assert_eq!(u.number_crates_ok(), 0);
    assert!(!u.has_won());
}

#[test]
fn double_push_is_blocked() {
    let mut u = Universe::from_level("######\n#@$$ #\n######");
    let before = snapshot(&u);
    u.move_player(1, 0);
    assert_eq!(snapshot(&u), before);
    assert_eq!(u.get_foreground_elem(0), entity(1, 1, ForegroundElementType::Player));
    assert_eq!(u.get_foreground_elem(1), entity(2, 1, ForegroundElementType::Crate));
    assert_eq!(u.get_foreground_elem(2), entity(3, 1, ForegroundElementType::Crate));
}

#[test]
fn rejected_move_repeated_changes_nothing() {
    let mut u = Universe::from_level("######\n#@$$ #\n######");
    let before = snapshot(&u);
    for _ in 0..10 {
        u.move_player(1, 0);
        assert_eq!(snapshot(&u), before);
    }
}

#[test]
fn push_against_wall_or_edge_is_blocked() {
    let mut u = Universe::from_level(" @$#");
    let before = snapshot(&u);
    u.move_player(1, 0);
    assert_eq!(snapshot(&u), before);
    let mut v = Universe::from_level(" @$");
    let before = snapshot(&v);
    v.move_player(1, 0);
    assert_eq!(snapshot(&v), before);
    v.move_player(-1, 0);
    assert_eq!(v.get_foreground_elem(0), entity(0, 0, ForegroundElementType::Player));
    v.move_player(-1, 0);
    assert_eq!(v.get_foreground_elem(0), entity(0, 0, ForegroundElementType::Player));
}

#[test]
fn huge_deltas_leave_the_grid_unchanged() {
    let mut u = Universe::from_level(SMALL);
    let before = snapshot(&u);
    u.move_player(i32::MAX, 0);
    u.move_player(i32::MIN, i32::MIN);
    u.move_player(0, i32::MAX);
    assert_eq!(snapshot(&u), before);
}

#[test]
fn zero_move_is_no_op() {
    let mut u = Universe::from_level(SMALL);
    let before = snapshot(&u);
    u.move_player(0, 0);
    assert_eq!(snapshot(&u), before);
}

#[test]
fn longer_delta_moves_when_target_is_free() {
    let mut u = Universe::from_level("@  ");
    u.move_player(2, 0);
    assert_eq!(u.get_foreground_elem(0), entity(2, 0, ForegroundElementType::Player));
}

#[test]
fn built_in_level() {
    let u = Universe::from_level_const();
    assert_eq!(u.width(), 9);
    assert_eq!(u.height(), 6);
    assert_eq!(u.foreground_size(), 5);
    assert_eq!(player(&u), entity(2, 4, ForegroundElementType::Player));
    assert_eq!(u.get_background_2D(1, 2), BackgroundElementType::Goal);
    assert_eq!(u.get_background_2D(2, 3), BackgroundElementType::Wall);
    assert_eq!(u.get_background_2D(2, 4), BackgroundElementType::Nothing);
    assert!(!u.has_won());
}

#[test]
fn entities_stay_on_grid_and_counter_stays_in_range() {
    let mut u = Universe::from_level_const();
    let crates = (u.foreground_size() - 1) as i32;
    let moves = [(1, 0), (1, 0), (0, -1), (-1, 0), (-1, 0), (0, -1), (1, 0), (0, 1), (0, 1), (1, 0), (1, 0), (1, 0), (-1, 0), (0, -1), (0, -1), (-1, 0), (1, 0), (0, 1)];
    for round in 0..3 {
        for &(dx, dy) in moves.iter() {
            u.move_player(dx * (round % 2 * 2 - 1), dy);
            for i in 0..u.foreground_size() {
                let e = u.get_foreground_elem(i);
                assert!(e.x() >= 0 && e.x() < u.width());
                assert!(e.y() >= 0 && e.y() < u.height());
            }
            assert!(u.number_crates_ok() >= 0 && u.number_crates_ok() <= crates);
            let on_goals = (0..u.foreground_size())
                .map(|i| u.get_foreground_elem(i))
                .filter(|e| e.element_type() == ForegroundElementType::Crate)
                .filter(|e| u.get_background_2D(e.x(), e.y()) == BackgroundElementType::Goal)
                .count() as i32;
            assert_eq!(u.number_crates_ok(), on_goals);
        }
    }
}

#[test]
fn empty_level_has_no_entities() {
    let mut u = Universe::from_level("");
    assert_eq!(u.width(), 0);
    assert_eq!(u.height(), 1);
    assert_eq!(u.foreground_size(), 0);
    assert_eq!(u.background().len(), 0);
    u.move_player(1, 0);
    assert_eq!(u.foreground_size(), 0);
}

#[test]
fn short_rows_are_padded_with_empty_cells() {
    let u = Universe::from_level("#####\n#@\n#####");
    assert_eq!(u.width(), 5);
    assert_eq!(u.height(), 3);
    assert_eq!(u.get_background_2D(3, 1), BackgroundElementType::Nothing);
    assert_eq!(u.get_background_2D(4, 1), BackgroundElementType::Nothing);
    assert_eq!(u.foreground_size(), 1);
}

#[test]
fn unknown_characters_are_empty_background() {
    let u = Universe::from_level("x@$é");
    assert_eq!(u.get_background_2D(0, 0), BackgroundElementType::Nothing);
    assert_eq!(u.get_background_2D(1, 0), BackgroundElementType::Nothing);
    assert_eq!(u.get_background_2D(2, 0), BackgroundElementType::Nothing);
    assert_eq!(u.width(), 5);
}

#[test]
fn last_player_marker_is_the_player_slot() {
    let mut u = Universe::from_level(" .@@");
    u.move_player(-1, 0);
    assert_eq!(u.get_foreground_elem(1), entity(2, 0, ForegroundElementType::Player));
    assert_eq!(u.get_foreground_elem(0), entity(1, 0, ForegroundElementType::Player));
    assert_eq!(u.number_crates_ok(), 1);
}

#[test]
fn level_without_player_uses_first_entity() {
    let mut u = Universe::from_level("$ $");
    u.move_player(1, 0);
    assert_eq!(u.get_foreground_elem(0), entity(1, 0, ForegroundElementType::Crate));
    assert_eq!(u.get_foreground_elem(1), entity(2, 0, ForegroundElementType::Crate));
}

#[test]
fn level_parts() {
    let mut level = Level::new(SMALL);
    assert!(level.fits());
    assert_eq!(level.width, 5);
    assert_eq!(level.height, 3);
    assert_eq!(level.content[1], b"#@$.#".to_vec());
    let bg = level.get_background();
    assert_eq!(bg.len(), 15);
    assert_eq!(bg[8], BackgroundElementType::Goal);
    assert_eq!(bg[6], BackgroundElementType::Nothing);
    let fg = level.get_foreground();
    assert_eq!(fg, vec![entity(1, 1, ForegroundElementType::Player), entity(2, 1, ForegroundElementType::Crate)]);
    assert_eq!(level.player_id, 0);
    let mut other = Level::new("$@");
    other.get_foreground();
    assert_eq!(other.player_id, 1);
}

#[test]
fn element_accessors() {
    let e = entity(3, 7, ForegroundElementType::Crate);
    assert_eq!(e.x(), 3);
    assert_eq!(e.y(), 7);
    assert_eq!(e.element_type(), ForegroundElementType::Crate);
}
