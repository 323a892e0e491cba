use boards::{all_boards, terminal_boards, Board, BoardMethods, Boards, BoardsMethods, EMPTY, O, X};

#[test]
fn test_terminal_boards() {
    let tbs = terminal_boards();
    assert_eq!(138, tbs.len());
}

#[test]
fn final_boards_are_terminal() {
    for b in terminal_boards() {
        assert!(b.is_terminal());
    }
}

#[test]
fn no_two_final_boards_are_symmetric() {
    let tbs = terminal_boards();
    for i in 0..tbs.len() {
        let keys = tbs[i].all_representations();
        for j in 0..tbs.len() {
            if i != j {
                assert!(!keys.contains(&tbs[j].representation()));
            }
        }
    }
}

#[test]
fn every_finished_game_has_its_board() {
    let tbs = terminal_boards();
    let mut kept = std::collections::HashSet::new();
    for b in &tbs {
        kept.insert(b.representation());
    }
    for b in all_boards([[EMPTY; 3]; 3], X) {
        if b.is_terminal() {
            assert!(b.all_representations().iter().any(|k| kept.contains(k)));
        }
    }
}

#[test]
fn final_boards_come_in_order_of_discovery() {
    let tbs = terminal_boards();
    assert_eq!(tbs[0], [[X, O, X], [O, X, O], [X, EMPTY, EMPTY]]);
    let all = all_boards([[EMPTY; 3]; 3], X);
    let mut next = 0;
    for b in &all {
        if next < tbs.len() && *b == tbs[next] {
            next += 1;
        }
    }
    assert_eq!(next, tbs.len());
}

#[test]
fn final_boards_by_outcome() {
    let tbs = terminal_boards();
    let full = |b: &Board| b.iter().all(|row| row.iter().all(|c| *c != EMPTY));
    let wins = |b: &Board, m: char| {
        (0..3).any(|i| b[i][0] == m && b[i][1] == m && b[i][2] == m)
            || (0..3).any(|i| b[0][i] == m && b[1][i] == m && b[2][i] == m)
            || (b[0][0] == m && b[1][1] == m && b[2][2] == m)
            || (b[0][2] == m && b[1][1] == m && b[2][0] == m)
    };
    let x_wins = tbs.iter().filter(|b| wins(b, X)).count();
    let o_wins = tbs.iter().filter(|b| wins(b, O)).count();
    let draws = tbs.iter().filter(|b| full(b) && !wins(b, X) && !wins(b, O)).count();
    assert_eq!(x_wins, 91);
    assert_eq!(o_wins, 44);
    assert_eq!(draws, 3);
}

#[test]
fn terminal_boards_gives_the_same_list_each_time() {
    assert_eq!(terminal_boards(), terminal_boards());
}

#[test]
fn empty_registry_contains_nothing() {
    let reg = Boards::new();
    assert!(!reg.contains([[EMPTY; 3]; 3]));
    assert!(!reg.contains([[X, X, X], [O, O, EMPTY], [EMPTY, EMPTY, EMPTY]]));
    assert_eq!(reg.len(), 0);
}

#[test]
fn registry_contains_every_symmetric_form() {
    let b = [[X, X, X], [O, O, EMPTY], [EMPTY, EMPTY, EMPTY]];
    let mut reg = Boards::new();
    reg.insert_board(b);
    assert!(reg.contains(b));
    let mut turned = b;
    for _ in 0..4 {
        assert!(reg.contains(turned));
        assert!(reg.contains(turned.transpose()));
        turned = turned.rotate();
    }
    assert!(!reg.contains([[X, X, X], [O, EMPTY, O], [EMPTY, EMPTY, EMPTY]]));
    assert!(!reg.contains([[O, O, O], [X, X, EMPTY], [EMPTY, EMPTY, EMPTY]]));
}

#[test]
fn registry_stores_a_board_under_its_own_key() {
    let b = [[X, X, X], [O, O, EMPTY], [EMPTY, EMPTY, EMPTY]];
    let mut reg = Boards::new();
    reg.insert_board(b.rotate());
    assert_eq!(reg.len(), 1);
    assert_eq!(reg.get(" OX OX  X"), Some(&b.rotate()));
    assert_eq!(reg.get("XXXOO    "), None);
    assert!(reg.contains_key(b.rotate().representation().as_str()));
    assert!(!reg.contains_key(b.representation().as_str()));
}

#[test]
fn inserting_a_board_twice_keeps_one() {
    let b = [[X, X, X], [O, O, EMPTY], [EMPTY, EMPTY, EMPTY]];
    let mut reg = Boards::new();
    reg.insert_board(b);
    reg.insert_board(b);
    assert_eq!(reg.len(), 1);
}

#[test]
fn inserting_without_asking_keeps_both_forms() {
    let b = [[X, X, X], [O, O, EMPTY], [EMPTY, EMPTY, EMPTY]];
    let mut reg = Boards::new();
    reg.insert_board(b);
    reg.insert_board(b.rotate());
    assert_eq!(reg.len(), 2);
}

#[test]
fn asking_first_keeps_one_board_of_each_class() {
    let b = [[X, X, X], [O, O, EMPTY], [EMPTY, EMPTY, EMPTY]];
    let c = [[X, X, X], [O, EMPTY, O], [EMPTY, EMPTY, EMPTY]];
    let candidates = [b, b.rotate(), c, b.transpose(), c.rotate().rotate(), b];
    let mut reg = Boards::new();
    for board in candidates {
        if !reg.contains(board) {
            reg.insert_board(board);
        }
    }
    assert_eq!(reg.len(), 2);
    assert_eq!(reg.get("XXXOO    "), Some(&b));
    assert_eq!(reg.get("XXXO O   "), Some(&c));
}

#[test]
fn final_boards_have_their_own_least_keys() {
    let mut least = std::collections::BTreeSet::new();
    for b in terminal_boards() {
        let keys = b.all_representations();
        least.insert(keys.iter().min().unwrap().clone());
    }
    assert_eq!(least.len(), 138);
    assert_eq!(least.iter().next().unwrap(), "    OOXXX");
    assert_eq!(least.iter().next_back().unwrap(), "XOXOXOXOX");
}
