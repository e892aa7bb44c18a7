use minesweeper::board::{Minesweeper, OpenResult, Position};

fn board_with_mines(width: usize, height: usize, mines: Vec<Position>) -> Minesweeper {
    Minesweeper::with_mines(width, height, mines).expect("placement should be accepted")
}

#[test]
fn test() {
    let mut ms = Minesweeper::new(10, 10, 10);

    ms.open((5, 5));
    ms.toggle_flag((6, 6));
    ms.open((6, 6));

    println!("Minesweeper Board: \n{}", ms.render());
}

#[test]
fn mine_count_matches_request() {
    let ms = Minesweeper::new(4, 3, 5);
    assert_eq!(ms.mine_count(), 5);

    let mut counted = 0;
    for x in 0..4 {
        for y in 0..3 {
            if ms.is_mine((x, y)) {
                counted += 1;
            }
        }
    }
    assert_eq!(counted, 5);
}

#[test]
fn mine_count_can_fill_the_board() {
    let ms = Minesweeper::new(2, 2, 4);
    assert_eq!(ms.mine_count(), 4);
    for x in 0..2 {
        for y in 0..2 {
            assert!(ms.is_mine((x, y)));
        }
    }
}

#[test]
fn flagged_and_open_stay_disjoint() {
    let mut ms = Minesweeper::new(5, 5, 3);
    ms.toggle_flag((1, 1));
    ms.open((1, 1));
    ms.open((2, 2));
    ms.toggle_flag((2, 2));
    ms.toggle_flag((3, 3));
    ms.open((3, 3));
    ms.toggle_flag((3, 3));
    for x in 0..5 {
        for y in 0..5 {
            assert!(!(ms.is_flagged((x, y)) && ms.is_open((x, y))));
        }
    }
}

#[test]
fn open_fields_never_shrink() {
    let mut ms = Minesweeper::new(4, 4, 2);
    let mut opened: Vec<Position> = Vec::new();
    let moves: Vec<Position> = vec![(0, 0), (1, 2), (3, 3), (1, 2), (2, 1)];
    for p in moves {
        ms.toggle_flag((3, 0));
        ms.open(p);
        ms.toggle_flag((3, 0));
        for q in &opened {
            assert!(ms.is_open(*q));
        }
        if ms.is_open(p) {
            opened.push(p);
        }
    }
    assert!(ms.is_open((0, 0)));
    assert!(ms.is_open((1, 2)));
    assert!(ms.is_open((3, 3)));
    assert!(ms.is_open((2, 1)));
}

#[test]
fn toggle_flag_twice_restores_state() {
    let mut ms = Minesweeper::new(4, 4, 2);
    assert!(!ms.is_flagged((1, 1)));
    ms.toggle_flag((1, 1));
    assert!(ms.is_flagged((1, 1)));
    ms.toggle_flag((1, 1));
    assert!(!ms.is_flagged((1, 1)));

    ms.toggle_flag((2, 3));
    ms.toggle_flag((0, 0));
    ms.toggle_flag((0, 0));
    assert!(ms.is_flagged((2, 3)));
    assert!(!ms.is_flagged((0, 0)));
}

#[test]
fn mines_nearby_counts_adjacent_mines() {
    let ms = board_with_mines(3, 3, vec![(0, 0), (2, 1)]);
    assert_eq!(ms.mines_nearby((0, 0)), 0);
    assert_eq!(ms.mines_nearby((1, 0)), 2);
    assert_eq!(ms.mines_nearby((2, 0)), 1);
    assert_eq!(ms.mines_nearby((0, 1)), 1);
    assert_eq!(ms.mines_nearby((1, 1)), 2);
    assert_eq!(ms.mines_nearby((2, 1)), 0);
    assert_eq!(ms.mines_nearby((0, 2)), 0);
    assert_eq!(ms.mines_nearby((1, 2)), 1);
    assert_eq!(ms.mines_nearby((2, 2)), 1);
}

#[test]
fn mines_nearby_ignores_open_and_flag_state() {
    let mut ms = board_with_mines(3, 3, vec![(0, 0)]);
    let before = ms.mines_nearby((1, 1));
    ms.toggle_flag((0, 0));
    assert_eq!(ms.mines_nearby((1, 1)), before);
    ms.open((2, 2));
    assert_eq!(ms.mines_nearby((1, 1)), before);
}

#[test]
fn opening_flagged_cell_probes_without_state_change() {
    let mut ms = board_with_mines(3, 3, vec![(0, 0)]);
    ms.toggle_flag((1, 1));
    let r = ms.open((1, 1));
    assert_eq!(r, OpenResult::NoMine(1));
    assert!(!ms.is_open((1, 1)));
    assert!(ms.is_flagged((1, 1)));
}

#[test]
fn opening_mined_cell_reports_mine_and_opens_it() {
    let mut ms = board_with_mines(3, 3, vec![(0, 0)]);
    let r = ms.open((0, 0));
    assert_eq!(r, OpenResult::Mine);
    assert!(ms.is_open((0, 0)));
}

#[test]
fn corner_neighbors_and_count() {
    let ms = board_with_mines(3, 3, vec![(0, 0)]);
    let mut ns = ms.neighbors((0, 0));
    ns.sort();
    assert_eq!(ns, vec![(0, 1), (1, 0), (1, 1)]);
    assert_eq!(ms.mines_nearby((1, 1)), 1);
}

#[test]
fn center_and_edge_neighbor_counts() {
    let ms = board_with_mines(3, 3, vec![]);
    assert_eq!(ms.neighbors((1, 1)).len(), 8);
    assert_eq!(ms.neighbors((1, 0)).len(), 5);
    assert_eq!(ms.neighbors((2, 2)).len(), 3);
}

#[test]
fn single_cell_board_is_all_mine() {
    let mut ms = Minesweeper::new(1, 1, 1);
    assert!(ms.is_mine((0, 0)));
    let r = ms.open((0, 0));
    assert_eq!(r, OpenResult::Mine);
}

#[test]
fn flag_then_open_keeps_cell_hidden() {
    let mut ms = Minesweeper::new(5, 5, 4);
    ms.toggle_flag((2, 2));
    let expected = ms.mines_nearby((2, 2));
    let r = ms.open((2, 2));
    assert_eq!(r, OpenResult::NoMine(expected));
    assert!(!ms.is_open((2, 2)));
    assert!(ms.is_flagged((2, 2)));
}

#[test]
fn open_then_flag_is_a_no_op() {
    let mut ms = Minesweeper::new(5, 5, 4);
    ms.open((2, 2));
    let was_open = ms.is_open((2, 2));
    ms.toggle_flag((2, 2));
    assert!(!ms.is_flagged((2, 2)));
    assert_eq!(ms.is_open((2, 2)), was_open);
}

#[test]
fn with_mines_rejects_bad_placements() {
    assert!(Minesweeper::with_mines(0, 3, vec![]).is_none());
    assert!(Minesweeper::with_mines(3, 0, vec![]).is_none());
    assert!(Minesweeper::with_mines(3, 3, vec![(3, 0)]).is_none());
    assert!(Minesweeper::with_mines(3, 3, vec![(0, 3)]).is_none());
    assert!(Minesweeper::with_mines(3, 3, vec![(1, 1), (1, 1)]).is_none());
    assert!(Minesweeper::with_mines(3, 3, vec![(1, 1), (2, 2)]).is_some());
}

#[test]
fn render_shows_hidden_flagged_counted_and_mined_cells() {
    let mut ms = board_with_mines(2, 2, vec![(0, 0)]);
    assert_eq!(ms.render(), "⬛⬛\n⬛⬛\n");
    ms.open((1, 1));
    assert_eq!(ms.render(), "⬛⬛\n⬛1 \n");
    ms.toggle_flag((1, 0));
    assert_eq!(ms.render(), "⬛🚩\n⬛1 \n");
    ms.open((0, 0));
    assert_eq!(ms.render(), "💣🚩\n⬛1 \n");
}

#[test]
fn render_of_fully_open_safe_board() {
    let mut ms = board_with_mines(3, 1, vec![(0, 0)]);
    ms.open((1, 0));
    ms.open((2, 0));
    assert_eq!(ms.render(), "⬛1 0 \n");
}
