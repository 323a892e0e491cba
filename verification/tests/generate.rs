use boards::{all_boards, Board, BoardMethods, EMPTY, O, X};

fn count_marks(b: &Board) -> usize {
    b.iter().map(|row| row.iter().filter(|c| **c != EMPTY).count()).sum()
}

#[test]
fn whole_game_tree_has_known_size() {
    let boards = all_boards([[EMPTY; 3]; 3], X);
    assert_eq!(boards.len(), 549945);
    let finals = boards.iter().filter(|b| b.is_terminal()).count();
    assert_eq!(finals, 255168);
}

#[test]
fn whole_game_tree_by_number_of_marks() {
    let boards = all_boards([[EMPTY; 3]; 3], X);
    let mut by_marks = [0usize; 10];
    for b in &boards {
        by_marks[count_marks(b)] += 1;
    }
    assert_eq!(by_marks, [0, 9, 72, 504, 3024, 15120, 54720, 148176, 200448, 127872]);
}

#[test]
fn first_boards_come_depth_first() {
    let boards = all_boards([[EMPTY; 3]; 3], X);
    assert_eq!(boards[0], [[X, EMPTY, EMPTY], [EMPTY, EMPTY, EMPTY], [EMPTY, EMPTY, EMPTY]]);
    assert_eq!(boards[1], [[X, O, EMPTY], [EMPTY, EMPTY, EMPTY], [EMPTY, EMPTY, EMPTY]]);
    assert_eq!(boards[2], [[X, O, X], [EMPTY, EMPTY, EMPTY], [EMPTY, EMPTY, EMPTY]]);
    assert_eq!(boards[3], [[X, O, X], [O, EMPTY, EMPTY], [EMPTY, EMPTY, EMPTY]]);
    assert_eq!(boards[4], [[X, O, X], [O, X, EMPTY], [EMPTY, EMPTY, EMPTY]]);
    assert_eq!(boards[5], [[X, O, X], [O, X, O], [EMPTY, EMPTY, EMPTY]]);
    assert_eq!(boards[6], [[X, O, X], [O, X, O], [X, EMPTY, EMPTY]]);
    assert_eq!(boards[7], [[X, O, X], [O, X, O], [EMPTY, X, EMPTY]]);
    assert_eq!(
        boards[boards.len() - 1],
        [[EMPTY, EMPTY, X], [O, X, O], [X, O, X]]
    );
}

#[test]
fn each_board_follows_its_parent() {
    let boards = all_boards([[EMPTY; 3]; 3], X);
    let mut path: Vec<Board> = vec![[[EMPTY; 3]; 3]];
    for b in &boards {
        let marks = count_marks(b);
        assert!(marks >= 1 && marks <= path.len());
        path.truncate(marks);
        let parent = path[marks - 1];
        assert!(!parent.is_terminal());
        assert_eq!(count_marks(&parent) + 1, marks);
        let mover = if marks % 2 == 1 { X } else { O };
        let mut changed = 0;
        for x in 0..3 {
            for y in 0..3 {
                if parent[x][y] != b[x][y] {
                    assert_eq!(parent[x][y], EMPTY);
                    assert_eq!(b[x][y], mover);
                    changed += 1;
                }
            }
        }
        assert_eq!(changed, 1);
        path.push(*b);
    }
}

#[test]
fn every_way_to_end_is_reached() {
    let boards = all_boards([[EMPTY; 3]; 3], X);
    let finals: Vec<&Board> = boards.iter().filter(|b| b.is_terminal()).collect();
    let same = |b: &Board, cells: [(usize, usize); 3]| {
        let first = b[cells[0].0][cells[0].1];
        first != EMPTY && first == b[cells[1].0][cells[1].1] && first == b[cells[2].0][cells[2].1]
    };
    let lines = [
        [(0, 0), (0, 1), (0, 2)],
        [(1, 0), (1, 1), (1, 2)],
        [(2, 0), (2, 1), (2, 2)],
        [(0, 0), (1, 0), (2, 0)],
        [(0, 1), (1, 1), (2, 1)],
        [(0, 2), (1, 2), (2, 2)],
        [(0, 0), (1, 1), (2, 2)],
        [(0, 2), (1, 1), (2, 0)],
    ];
    for line in lines {
        for mark in [X, O] {
            assert!(finals.iter().any(|b| same(b, line) && b[line[0].0][line[0].1] == mark));
        }
    }
    assert!(finals.iter().any(|b| count_marks(b) == 9 && !lines.iter().any(|l| same(b, *l))));
}

#[test]
fn nothing_follows_a_finished_game() {
    let won = [[X, X, X], [O, O, EMPTY], [EMPTY, EMPTY, EMPTY]];
    assert!(all_boards(won, O).is_empty());
    let drawn = [[X, O, X], [X, O, O], [O, X, X]];
    assert!(all_boards(drawn, X).is_empty());
    assert!(all_boards(drawn, O).is_empty());
}

#[test]
fn last_move_gives_one_board() {
    let b = [[X, O, X], [X, O, O], [O, X, EMPTY]];
    assert_eq!(all_boards(b, X), vec![[[X, O, X], [X, O, O], [O, X, X]]]);
    assert_eq!(all_boards(b, O), vec![[[X, O, X], [X, O, O], [O, X, O]]]);
}

#[test]
fn two_cells_left() {
    let b = [[X, O, X], [X, O, O], [O, EMPTY, EMPTY]];
    assert_eq!(
        all_boards(b, X),
        vec![
            [[X, O, X], [X, O, O], [O, X, EMPTY]],
            [[X, O, X], [X, O, O], [O, X, O]],
            [[X, O, X], [X, O, O], [O, EMPTY, X]],
            [[X, O, X], [X, O, O], [O, O, X]],
        ]
    );
}

#[test]
fn a_winning_move_ends_its_branch() {
    let b = [[X, X, EMPTY], [O, O, EMPTY], [EMPTY, EMPTY, EMPTY]];
    let boards = all_boards(b, X);
    assert_eq!(boards[0], [[X, X, X], [O, O, EMPTY], [EMPTY, EMPTY, EMPTY]]);
    assert_eq!(boards[1], [[X, X, EMPTY], [O, O, X], [EMPTY, EMPTY, EMPTY]]);
    assert_eq!(boards[2], [[X, X, O], [O, O, X], [EMPTY, EMPTY, EMPTY]]);
}

#[test]
fn the_second_player_may_start() {
    let boards = all_boards([[EMPTY; 3]; 3], O);
    assert_eq!(boards.len(), 549945);
    assert_eq!(boards[0], [[O, EMPTY, EMPTY], [EMPTY, EMPTY, EMPTY], [EMPTY, EMPTY, EMPTY]]);
    assert_eq!(boards[1], [[O, X, EMPTY], [EMPTY, EMPTY, EMPTY], [EMPTY, EMPTY, EMPTY]]);
}

#[test]
fn any_other_mark_is_followed_by_x() {
    let b = [[X, O, X], [X, O, O], [O, EMPTY, EMPTY]];
    assert_eq!(
        all_boards(b, 'Z'),
        vec![
            [[X, O, X], [X, O, O], [O, 'Z', EMPTY]],
            [[X, O, X], [X, O, O], [O, 'Z', X]],
            [[X, O, X], [X, O, O], [O, EMPTY, 'Z']],
            [[X, O, X], [X, O, O], [O, X, 'Z']],
        ]
    );
}

#[test]
fn an_empty_mark_leaves_the_board_and_passes_to_x() {
    let b = [[X, O, X], [X, O, O], [O, X, EMPTY]];
    assert_eq!(all_boards(b, EMPTY), vec![b, [[X, O, X], [X, O, O], [O, X, X]]]);
}
