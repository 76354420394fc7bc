use quell::cell_data::{cell_data, ENEMY, GENERATOR, MOVER, PUSH, SLIDE, TRASH, WALL};
use quell::cells::{Cell, Grid};
use quell::direction::Direction;
use quell::manipulation::{can_generate, can_move, can_rotate, is_trash, push, rotate_by};
use quell::manipulation::{MoveForce, PushResult};

#[test]
fn direction_flip() {
    assert_eq!(Direction::Right.flip(), Direction::Left);
    assert_eq!(Direction::Left.flip(), Direction::Right);
    assert_eq!(Direction::Up.flip(), Direction::Down);
    assert_eq!(Direction::Down.flip(), Direction::Up);
}

#[test]
fn direction_vectors() {
    assert_eq!(Direction::Right.to_vector(), (1, 0));
    assert_eq!(Direction::Left.to_vector(), (-1, 0));
    assert_eq!(Direction::Up.to_vector(), (0, 1));
    assert_eq!(Direction::Down.to_vector(), (0, -1));
}

#[test]
fn direction_quarter_turns() {
    assert_eq!(Direction::Right.rotated_by(Direction::Down), Direction::Down);
    assert_eq!(Direction::Down.rotated_by(Direction::Down), Direction::Left);
    assert_eq!(Direction::Left.rotated_by(Direction::Down), Direction::Up);
    assert_eq!(Direction::Up.rotated_by(Direction::Down), Direction::Right);
    assert_eq!(Direction::Right.rotated_by(Direction::Up), Direction::Up);
    assert_eq!(Direction::Up.rotated_by(Direction::Up), Direction::Left);
    assert_eq!(Direction::Right.rotated_by(Direction::Right), Direction::Right);
}

#[test]
fn direction_axes() {
    assert!(Direction::Right.same_axis(Direction::Left));
    assert!(Direction::Up.same_axis(Direction::Down));
    assert!(!Direction::Right.same_axis(Direction::Up));
    assert!(!Direction::Down.same_axis(Direction::Left));
}

#[test]
fn cell_construction_rejects_unknown_tags() {
    assert!(Cell::try_new(0, Direction::Right).is_none());
    assert!(Cell::try_new(10, Direction::Right).is_none());
    for id in 1..=9u8 {
        let c = Cell::try_new(id, Direction::Up).unwrap();
        assert_eq!(c.id, id);
        assert_eq!(c.direction, Direction::Up);
        assert!(!c.updated);
    }
}

#[test]
fn cell_data_table() {
    assert!(cell_data(0).is_none());
    assert!(cell_data(10).is_none());
    let wall = cell_data(WALL).unwrap();
    assert_eq!(wall.sides, 1);
    assert_eq!(wall.name, "Wall");
    assert_eq!(cell_data(MOVER).unwrap().sides, 4);
    assert_eq!(cell_data(GENERATOR).unwrap().sides, 4);
    assert_eq!(cell_data(SLIDE).unwrap().sides, 2);
    assert_eq!(cell_data(ENEMY).unwrap().id, ENEMY);
}

#[test]
fn grid_bounds_are_safe() {
    let mut g = Grid::new(3, 2);
    assert!(g.is_in_bounds(0, 0));
    assert!(g.is_in_bounds(2, 1));
    assert!(!g.is_in_bounds(3, 0));
    assert!(!g.is_in_bounds(0, 2));
    assert!(!g.is_in_bounds(-1, 0));
    assert!(g.get(-1, 0).is_none());
    assert!(g.get(3, 5).is_none());
    g.set(7, 7, Cell::new(WALL, Direction::Right));
    assert!(g.get(7, 7).is_none());
    assert_eq!(g.width, 3);
    assert_eq!(g.height, 2);
}

#[test]
fn grid_set_get_take_delete() {
    let mut g = Grid::new(2, 2);
    let c = Cell::new(PUSH, Direction::Left);
    g.set(1, 1, c);
    assert_eq!(g.get(1, 1), Some(c));
    let taken = g.take(1, 1);
    assert_eq!(taken, Some(c));
    assert!(g.get(1, 1).is_none());
    g.set_cell(0, 0, Some(c));
    g.delete(0, 0);
    assert!(g.get(0, 0).is_none());
}

#[test]
fn grid_clone_is_deep() {
    let mut g = Grid::new(2, 1);
    g.set(0, 0, Cell::new(WALL, Direction::Right));
    let snapshot = g.clone();
    g.set(0, 0, Cell::new(MOVER, Direction::Left));
    g.set(1, 0, Cell::new(PUSH, Direction::Up));
    assert_eq!(snapshot.get(0, 0).unwrap().id, WALL);
    assert!(snapshot.get(1, 0).is_none());
}

#[test]
fn movability_predicates() {
    let wall = Cell::new(WALL, Direction::Right);
    let slide = Cell::new(SLIDE, Direction::Right);
    let mover = Cell::new(MOVER, Direction::Down);
    assert!(!can_move(&wall, Direction::Right, MoveForce::Push));
    assert!(!can_move(&wall, Direction::Up, MoveForce::Push));
    assert!(can_move(&slide, Direction::Right, MoveForce::Push));
    assert!(can_move(&slide, Direction::Left, MoveForce::Push));
    assert!(!can_move(&slide, Direction::Up, MoveForce::Push));
    assert!(!can_move(&slide, Direction::Down, MoveForce::Push));
    assert!(can_move(&mover, Direction::Up, MoveForce::Push));
}

#[test]
fn trash_and_rotation_predicates() {
    assert!(is_trash(&Cell::new(TRASH, Direction::Right), Direction::Left));
    assert!(is_trash(&Cell::new(ENEMY, Direction::Right), Direction::Up));
    assert!(!is_trash(&Cell::new(PUSH, Direction::Right), Direction::Up));
    assert!(!can_rotate(&Cell::new(WALL, Direction::Right), Direction::Up));
    assert!(can_rotate(&Cell::new(TRASH, Direction::Right), Direction::Up));
    assert!(can_generate(&Cell::new(WALL, Direction::Right)));
}

#[test]
fn push_wall_blocks_chain() {
    let mut g = Grid::new(3, 1);
    let p = Cell::new(PUSH, Direction::Right);
    let w = Cell::new(WALL, Direction::Right);
    g.set(0, 0, p);
    g.set(1, 0, w);
    let r = push(&mut g, 0, 0, Direction::Right, 1, None, false);
    assert_eq!(r, PushResult::NotMoved);
    assert_eq!(g.get(0, 0), Some(p));
    assert_eq!(g.get(1, 0), Some(w));
    assert!(g.get(2, 0).is_none());
}

#[test]
fn push_into_boundary_not_moved() {
    let mut g = Grid::new(2, 2);
    let r = push(&mut g, -1, 0, Direction::Right, 1, None, false);
    assert_eq!(r, PushResult::NotMoved);
    let p = Cell::new(PUSH, Direction::Right);
    g.set(1, 1, p);
    let r2 = push(&mut g, 1, 1, Direction::Up, 1, None, false);
    assert_eq!(r2, PushResult::NotMoved);
    assert_eq!(g.get(1, 1), Some(p));
}

#[test]
fn push_slide_perpendicular_not_moved() {
    let mut g = Grid::new(3, 3);
    let s = Cell::new(SLIDE, Direction::Right);
    g.set(1, 1, s);
    let r = push(&mut g, 1, 1, Direction::Up, 1, None, false);
    assert_eq!(r, PushResult::NotMoved);
    assert_eq!(g.get(1, 1), Some(s));
    let r2 = push(&mut g, 1, 1, Direction::Down, 1, None, false);
    assert_eq!(r2, PushResult::NotMoved);
    assert_eq!(g.get(1, 1), Some(s));
}

#[test]
fn push_slide_along_its_axis_moves() {
    let mut g = Grid::new(3, 1);
    let s = Cell::new(SLIDE, Direction::Right);
    g.set(0, 0, s);
    let r = push(&mut g, 0, 0, Direction::Right, 1, None, false);
    assert_eq!(r, PushResult::Moved);
    assert!(g.get(0, 0).is_none());
    assert_eq!(g.get(1, 0), Some(s));
    let r2 = push(&mut g, 1, 0, Direction::Left, 1, None, false);
    assert_eq!(r2, PushResult::Moved);
    assert_eq!(g.get(0, 0), Some(s));
}

#[test]
fn push_payload_into_empty_slot() {
    let mut g = Grid::new(2, 1);
    let p = Cell::new(PUSH, Direction::Up);
    let r = push(&mut g, 0, 0, Direction::Right, 1, Some(p), false);
    assert_eq!(r, PushResult::Moved);
    assert_eq!(g.get(0, 0), Some(p));
}

#[test]
fn push_payload_into_trash_is_trashed() {
    let mut g = Grid::new(2, 1);
    let t = Cell::new(TRASH, Direction::Right);
    g.set(0, 0, t);
    let p = Cell::new(PUSH, Direction::Up);
    let r = push(&mut g, 0, 0, Direction::Right, 1, Some(p), false);
    assert_eq!(r, PushResult::Trashed);
    assert_eq!(g.get(0, 0), Some(t));
    assert!(g.get(1, 0).is_none());
}

#[test]
fn push_payload_into_enemy_destroys_both() {
    let mut g = Grid::new(2, 1);
    g.set(0, 0, Cell::new(ENEMY, Direction::Right));
    let p = Cell::new(PUSH, Direction::Up);
    let r = push(&mut g, 0, 0, Direction::Right, 1, Some(p), false);
    assert_eq!(r, PushResult::Trashed);
    assert!(g.get(0, 0).is_none());
    assert!(g.get(1, 0).is_none());
}

#[test]
fn push_chain_end_consumed_by_trash() {
    let mut g = Grid::new(3, 1);
    let p = Cell::new(PUSH, Direction::Up);
    let t = Cell::new(TRASH, Direction::Right);
    g.set(0, 0, p);
    g.set(1, 0, t);
    let r = push(&mut g, 0, 0, Direction::Right, 1, None, false);
    assert_eq!(r, PushResult::Moved);
    assert!(g.get(0, 0).is_none());
    assert_eq!(g.get(1, 0), Some(t));
    assert!(g.get(2, 0).is_none());
}

#[test]
fn push_with_zero_force_fails_without_mover() {
    let mut g = Grid::new(3, 1);
    let p = Cell::new(PUSH, Direction::Up);
    g.set(0, 0, p);
    let r = push(&mut g, 0, 0, Direction::Right, 0, None, false);
    assert_eq!(r, PushResult::NotMoved);
    assert_eq!(g.get(0, 0), Some(p));
}

#[test]
fn rotate_by_turns_cell() {
    let mut g = Grid::new(2, 1);
    g.set(0, 0, Cell::new(PUSH, Direction::Right));
    let turned = rotate_by(&mut g, 0, 0, Direction::Down, Direction::Left);
    assert!(turned);
    assert_eq!(g.get(0, 0).unwrap().direction, Direction::Down);
    let turned_again = rotate_by(&mut g, 0, 0, Direction::Up, Direction::Left);
    assert!(turned_again);
    assert_eq!(g.get(0, 0).unwrap().direction, Direction::Right);
}

#[test]
fn rotate_by_leaves_wall_and_empty_alone() {
    let mut g = Grid::new(2, 1);
    let w = Cell::new(WALL, Direction::Right);
    g.set(0, 0, w);
    assert!(!rotate_by(&mut g, 0, 0, Direction::Down, Direction::Left));
    assert_eq!(g.get(0, 0), Some(w));
    assert!(!rotate_by(&mut g, 1, 0, Direction::Down, Direction::Left));
    assert!(g.get(1, 0).is_none());
}
