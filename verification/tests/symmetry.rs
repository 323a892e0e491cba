use boards::{Board, BoardMethods, EMPTY, O, X};

#[test]
fn test_rotate() {
    // |X|X|X|      | |O|X|
    // |O|O|O|  =>  | |O|X|
    // | | | |      | |O|X|
    let b = [[X, X, X], [O, O, O], [EMPTY, EMPTY, EMPTY]];
    let rotated = b.rotate();
    assert_eq!(rotated[0], [EMPTY, O, X]);
    assert_eq!(rotated[1], [EMPTY, O, X]);
    assert_eq!(rotated[2], [EMPTY, O, X]);
}

#[test]
fn test_transpose() {
    // |X| |O|      |X|O| |
    // |O|X| |  =>  | |X| |
    // | | |X|      |O| |X|
    let b = [[X, EMPTY, O], [O, X, EMPTY], [EMPTY, EMPTY, X]];
    let transposed = b.transpose();
    assert_eq!(transposed, [[X, O, EMPTY], [EMPTY, X, EMPTY], [O, EMPTY, X]]);
}

#[test]
fn test_representation() {
    let b = [[X, X, X], [X, X, X], [X, X, X]];
    let expected = "XXXXXXXXX";
    for actual in b.all_representations() {
        assert_eq!(expected, actual);
    }
}

fn sample_boards() -> Vec<Board> {
    vec![
        [[EMPTY, EMPTY, EMPTY], [EMPTY, EMPTY, EMPTY], [EMPTY, EMPTY, EMPTY]],
        [[X, EMPTY, EMPTY], [EMPTY, EMPTY, EMPTY], [EMPTY, EMPTY, EMPTY]],
        [[X, O, EMPTY], [EMPTY, EMPTY, EMPTY], [EMPTY, EMPTY, EMPTY]],
        [[X, O, X], [O, X, O], [O, X, O]],
        [[X, X, X], [O, O, O], [EMPTY, EMPTY, EMPTY]],
        [['a', 'b', 'c'], ['d', 'e', 'f'], ['g', 'h', 'i']],
    ]
}

#[test]
fn rotate_moves_each_cell() {
    let b = [['a', 'b', 'c'], ['d', 'e', 'f'], ['g', 'h', 'i']];
    assert_eq!(b.rotate(), [['g', 'd', 'a'], ['h', 'e', 'b'], ['i', 'f', 'c']]);
    let r = b.rotate();
    for x in 0..3 {
        for y in 0..3 {
            assert_eq!(r[x][y], b[2 - y][x]);
        }
    }
}

#[test]
fn transpose_moves_each_cell() {
    let b = [['a', 'b', 'c'], ['d', 'e', 'f'], ['g', 'h', 'i']];
    assert_eq!(b.transpose(), [['a', 'd', 'g'], ['b', 'e', 'h'], ['c', 'f', 'i']]);
    let t = b.transpose();
    for x in 0..3 {
        for y in 0..3 {
            assert_eq!(t[y][x], b[x][y]);
        }
    }
}

#[test]
fn four_rotations_give_the_board_back() {
    for b in sample_boards() {
        assert_eq!(b.rotate().rotate().rotate().rotate(), b);
    }
}

#[test]
fn one_to_three_rotations_change_an_asymmetric_board() {
    let b = [['a', 'b', 'c'], ['d', 'e', 'f'], ['g', 'h', 'i']];
    assert_ne!(b.rotate(), b);
    assert_ne!(b.rotate().rotate(), b);
    assert_ne!(b.rotate().rotate().rotate(), b);
}

#[test]
fn two_transpositions_give_the_board_back() {
    for b in sample_boards() {
        assert_eq!(b.transpose().transpose(), b);
    }
}

#[test]
fn rotate_and_transpose_leave_the_input_alone() {
    let b = [[X, O, EMPTY], [EMPTY, X, EMPTY], [O, EMPTY, EMPTY]];
    let copy = b;
    let _ = b.rotate();
    let _ = b.transpose();
    assert_eq!(b, copy);
}

#[test]
fn representation_is_row_major() {
    let b = [[X, EMPTY, O], [O, X, EMPTY], [EMPTY, EMPTY, X]];
    assert_eq!(b.representation(), "X OOX   X");
    let c = [['a', 'b', 'c'], ['d', 'e', 'f'], ['g', 'h', 'i']];
    assert_eq!(c.representation(), "abcdefghi");
    let e = [[EMPTY; 3]; 3];
    assert_eq!(e.representation(), "         ");
}

#[test]
fn representation_tells_boards_apart() {
    let boards = sample_boards();
    for i in 0..boards.len() {
        for j in 0..boards.len() {
            assert_eq!(
                boards[i].representation() == boards[j].representation(),
                boards[i] == boards[j]
            );
        }
    }
}

#[test]
fn all_representations_in_order() {
    let b = [['a', 'b', 'c'], ['d', 'e', 'f'], ['g', 'h', 'i']];
    let r = b.all_representations();
    assert_eq!(r.len(), 8);
    assert_eq!(r[0], "abcdefghi");
    assert_eq!(r[1], "adgbehcfi");
    assert_eq!(r[2], "gdahebifc");
    assert_eq!(r[3], "ghidefabc");
    assert_eq!(r[4], "ihgfedcba");
    assert_eq!(r[5], "ifchebgda");
    assert_eq!(r[6], "cfibehadg");
    assert_eq!(r[7], "cbafedihg");
}

#[test]
fn all_representations_follow_rotate_and_transpose() {
    for b in sample_boards() {
        let r = b.all_representations();
        let mut turned = b;
        for n in 0..4 {
            assert_eq!(r[2 * n], turned.representation());
            assert_eq!(r[2 * n + 1], turned.transpose().representation());
            turned = turned.rotate();
        }
    }
}

#[test]
fn asymmetric_board_has_eight_keys() {
    let b = [[X, O, EMPTY], [EMPTY, EMPTY, EMPTY], [EMPTY, EMPTY, EMPTY]];
    let r = b.all_representations();
    for i in 0..8 {
        for j in 0..8 {
            if i != j {
                assert_ne!(r[i], r[j]);
            }
        }
    }
}

#[test]
fn symmetric_forms_share_their_keys() {
    let b = [[X, O, EMPTY], [EMPTY, X, EMPTY], [EMPTY, EMPTY, O]];
    let mut keys = b.all_representations().to_vec();
    keys.sort();
    let forms = [b.rotate(), b.transpose(), b.rotate().rotate().transpose()];
    for f in forms {
        let mut other = f.all_representations().to_vec();
        other.sort();
        assert_eq!(keys, other);
    }
}

#[test]
fn display_draws_three_rows() {
    let b = [[X, EMPTY, O], [O, X, EMPTY], [EMPTY, EMPTY, X]];
    assert_eq!(b.display(), "|X| |O|\n|O|X| |\n| | |X|\n");
    let e = [[EMPTY; 3]; 3];
    assert_eq!(e.display(), "| | | |\n| | | |\n| | | |\n");
}
