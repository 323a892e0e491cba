use boards::{Board, BoardMethods, EMPTY, O, X};

fn line_cells() -> Vec<[(usize, usize); 3]> {
    vec![
        [(0, 0), (0, 1), (0, 2)],
        [(1, 0), (1, 1), (1, 2)],
        [(2, 0), (2, 1), (2, 2)],
        [(0, 0), (1, 0), (2, 0)],
        [(0, 1), (1, 1), (2, 1)],
        [(0, 2), (1, 2), (2, 2)],
        [(0, 0), (1, 1), (2, 2)],
        [(0, 2), (1, 1), (2, 0)],
    ]
}

#[test]
fn each_line_alone_ends_the_game() {
    for mark in [X, O] {
        for line in line_cells() {
            let mut b: Board = [[EMPTY; 3]; 3];
            for (x, y) in line {
                b[x][y] = mark;
            }
            assert!(b.is_terminal());
        }
    }
}

#[test]
fn two_of_a_line_do_not_end_the_game() {
    for line in line_cells() {
        for skip in 0..3 {
            let mut b: Board = [[EMPTY; 3]; 3];
            for (n, (x, y)) in line.iter().enumerate() {
                if n != skip {
                    b[*x][*y] = X;
                }
            }
            assert!(!b.is_terminal());
        }
    }
}

#[test]
fn a_line_of_two_marks_does_not_end_the_game() {
    for line in line_cells() {
        let mut b: Board = [[EMPTY; 3]; 3];
        b[line[0].0][line[0].1] = X;
        b[line[1].0][line[1].1] = O;
        b[line[2].0][line[2].1] = X;
        assert!(!b.is_terminal());
    }
}

#[test]
fn empty_board_is_in_play() {
    let b: Board = [[EMPTY; 3]; 3];
    assert!(!b.is_terminal());
}

#[test]
fn full_board_without_a_line_is_terminal() {
    let b = [[X, O, X], [X, O, O], [O, X, X]];
    assert!(b.is_terminal());
    let c = [[X, O, X], [O, X, X], [O, X, O]];
    assert!(c.is_terminal());
}

#[test]
fn full_board_with_a_line_is_terminal() {
    let b = [[X, X, X], [O, O, X], [X, O, O]];
    assert!(b.is_terminal());
}

#[test]
fn one_empty_cell_and_no_line_is_in_play() {
    let b = [[X, O, X], [X, O, O], [O, X, EMPTY]];
    assert!(!b.is_terminal());
    let c = [[EMPTY, O, X], [X, O, O], [O, X, X]];
    assert!(!c.is_terminal());
}

#[test]
fn several_lines_at_once_are_terminal() {
    let b = [[X, X, X], [X, O, O], [X, O, O]];
    assert!(b.is_terminal());
    let c = [[X, O, X], [O, X, O], [X, O, X]];
    assert!(c.is_terminal());
    let d = [[X, X, X], [O, O, O], [EMPTY, EMPTY, EMPTY]];
    assert!(d.is_terminal());
}

#[test]
fn a_line_wins_with_cells_left() {
    let b = [[O, EMPTY, X], [EMPTY, O, X], [EMPTY, EMPTY, O]];
    assert!(b.is_terminal());
    let c = [[EMPTY, X, O], [EMPTY, X, EMPTY], [O, X, EMPTY]];
    assert!(c.is_terminal());
}

#[test]
fn is_terminal_agrees_with_a_count_of_lines() {
    let marks = [EMPTY, X, O];
    for code in 0..19683usize {
        let mut b: Board = [[EMPTY; 3]; 3];
        let mut rest = code;
        for k in 0..9 {
            b[k / 3][k % 3] = marks[rest % 3];
            rest /= 3;
        }
        let mut line = false;
        for cells in line_cells() {
            let first = b[cells[0].0][cells[0].1];
            if first != EMPTY
                && first == b[cells[1].0][cells[1].1]
                && first == b[cells[2].0][cells[2].1]
            {
                line = true;
            }
        }
        let full = b.iter().all(|row| row.iter().all(|c| *c != EMPTY));
        assert_eq!(b.is_terminal(), line || full);
    }
}
