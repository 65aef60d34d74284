use rust_pearl_stasis_bot::pathing::{column_blocked, ground_step, room_path, scan_room, walkable_y};

/// A room from rows of text: '.' open, '#' shut.
fn room(rows: &[&str]) -> (usize, Vec<bool>) {
    let w = rows.len();
    let mut pass = Vec::new();
    for r in rows {
        assert_eq!(r.len(), w);
        for c in r.chars() {
            pass.push(c == '.');
        }
    }
    (w, pass)
}

#[test]
fn scan_reaches_only_the_connected_cells() {
    let (w, pass) = room(&["...", "##.", "#.."]);
    let scan = scan_room(w, &pass, (0, 0));
    let mut cells = scan.cells.clone();
    cells.sort();
    assert_eq!(cells, vec![(0, 0), (0, 1), (0, 2), (1, 2), (2, 1), (2, 2)]);
    assert_eq!(scan.cells[0], (0, 0));
    for i in 1..scan.cells.len() {
        assert!(scan.parent[i] < i);
    }
}

#[test]
fn scan_from_a_shut_cell_still_spreads() {
    let (w, pass) = room(&["#.", ".."]);
    let scan = scan_room(w, &pass, (0, 0));
    assert_eq!(scan.cells.len(), 4);
}

#[test]
fn walled_in_start_reaches_nothing_else() {
    let (w, pass) = room(&["...", ".#.", "..."]);
    let scan = scan_room(w, &pass, (1, 1));
    let (w2, pass2) = room(&["#.#", "#.#", "###"]);
    let scan2 = scan_room(w2, &pass2, (2, 2));
    assert_eq!(scan.cells.len(), 9);
    assert_eq!(scan2.cells, vec![(2, 2)]);
}

#[test]
fn path_walks_back_to_the_start() {
    let (w, pass) = room(&["...", "##.", "#.."]);
    let scan = scan_room(w, &pass, (0, 0));
    let target = scan.cells.iter().position(|c| *c == (2, 1)).unwrap();
    let path = room_path(w, &pass, (0, 0), &scan, target, 14);
    assert_eq!(path, vec![(0, 0), (0, 1), (0, 2), (1, 2), (2, 2), (2, 1)]);
    let cut = room_path(w, &pass, (0, 0), &scan, target, 3);
    assert_eq!(cut, vec![(0, 0), (0, 1), (0, 2)]);
}

#[test]
fn blocked_columns_shut_their_neighbours() {
    let blocked = vec![(10, 20, 64)];
    assert!(column_blocked(10, 20, &blocked));
    assert!(column_blocked(11, 19, &blocked));
    assert!(!column_blocked(12, 20, &blocked));
    assert!(!column_blocked(0, 0, &Vec::new()));
}

#[test]
fn walkable_height_prefers_level_then_up_then_down() {
    let none = Vec::new();
    let mut levels = vec![Some(false); 9];
    assert_eq!(walkable_y(0, 0, (0, 0), &none, 64, &levels), None);
    levels[3] = Some(true);
    levels[5] = Some(true);
    assert_eq!(walkable_y(0, 0, (0, 0), &none, 64, &levels), Some(65));
    levels[4] = Some(true);
    assert_eq!(walkable_y(0, 0, (0, 0), &none, 64, &levels), Some(64));
    levels[8] = None;
    assert_eq!(walkable_y(0, 0, (0, 0), &none, 64, &levels), None);
    let only_down = vec![Some(false), Some(true), Some(false), Some(true), Some(false), Some(false), Some(false), Some(false), Some(false)];
    assert_eq!(walkable_y(0, 0, (0, 0), &none, 64, &only_down), Some(63));
}

#[test]
fn blocked_columns_are_not_walked_except_the_start() {
    let blocked = vec![(5, 5, 70)];
    let levels = vec![Some(true); 9];
    assert_eq!(walkable_y(5, 6, (0, 0), &blocked, 70, &levels), None);
    assert_eq!(walkable_y(5, 6, (5, 6), &blocked, 70, &levels), Some(70));
}

#[test]
fn steps_climb_at_most_one_block() {
    assert_eq!(ground_step(64, Some(65), false, None, None), Some(65));
    assert_eq!(ground_step(64, Some(66), false, None, None), None);
    assert_eq!(ground_step(64, None, false, None, None), None);
    assert_eq!(ground_step(64, Some(63), true, Some(64), None), None);
    assert_eq!(ground_step(64, Some(63), true, Some(64), Some(63)), Some(63));
}

#[test]
fn ways_are_shortest_in_an_open_room() {
    let (w, pass) = room(&["....", "....", "....", "...."]);
    let scan = scan_room(w, &pass, (0, 0));
    for (i, &(a, b)) in scan.cells.iter().enumerate() {
        let way = room_path(w, &pass, (0, 0), &scan, i, 64);
        assert_eq!(way.len(), a + b + 1);
        assert_eq!(*way.last().unwrap(), (a, b));
    }
}

#[test]
fn scan_takes_sides_in_order_and_keeps_the_first_parent() {
    let (w, pass) = room(&["...", "...", "..."]);
    let scan = scan_room(w, &pass, (1, 1));
    assert_eq!(
        scan.cells,
        vec![(1, 1), (2, 1), (0, 1), (1, 2), (1, 0), (2, 2), (2, 0), (0, 2), (0, 0)]
    );
    assert_eq!(scan.parent, vec![0, 0, 0, 0, 0, 1, 1, 2, 2]);
}
