use amazons::{Board, GameState, Move, Player, Pos, Slot};

fn p(x: u8, y: u8) -> Pos {
    Pos { x, y }
}

#[test]
fn enemy_is_an_involution() {
    assert_eq!(Player::White.enemy(), Player::Black);
    assert_eq!(Player::Black.enemy(), Player::White);
    assert_eq!(Player::White.enemy().enemy(), Player::White);
}

#[test]
fn distance_is_chebyshev() {
    assert_eq!(p(0, 0).distance_to(p(3, 3)), 3);
    assert_eq!(p(0, 0).distance_to(p(2, 7)), 7);
    assert_eq!(p(5, 5).distance_to(p(5, 5)), 0);
    assert_eq!(p(9, 0).distance_to(p(0, 0)), 9);
}

#[test]
fn reachability_is_queen_alignment() {
    assert!(p(0, 0).is_reachable(p(0, 9)));
    assert!(p(0, 0).is_reachable(p(7, 0)));
    assert!(p(0, 0).is_reachable(p(4, 4)));
    assert!(p(6, 2).is_reachable(p(2, 6)));
    assert!(!p(0, 0).is_reachable(p(1, 2)));
    assert!(!p(3, 4).is_reachable(p(5, 5)));
}

#[test]
fn stepping_path_reaches_goal() {
    let path = p(0, 0).to(p(0, 3));
    assert_eq!(path, vec![p(0, 1), p(0, 2), p(0, 3)]);
    let diag = p(2, 2).to(p(5, 5));
    assert_eq!(diag, vec![p(3, 3), p(4, 4), p(5, 5)]);
    assert!(p(4, 4).to(p(4, 4)).is_empty());
    assert_eq!(p(0, 6).towards(p(0, 3)), p(0, 5));
}

#[test]
fn corner_has_three_neighbors() {
    let nbs = p(0, 0).neighbors();
    assert_eq!(nbs.len(), 3);
    assert!(nbs.contains(&p(0, 1)));
    assert!(nbs.contains(&p(1, 0)));
    assert!(nbs.contains(&p(1, 1)));
    assert_eq!(p(5, 5).neighbors().len(), 8);
    assert_eq!(p(0, 5).neighbors().len(), 5);
}

#[test]
fn trapped_piece_in_corner() {
    let mut board = Board::new_empty();
    board.set(p(0, 0), Slot::Amazon(Player::White));
    board.set(p(0, 1), Slot::Arrow);
    board.set(p(1, 0), Slot::Arrow);
    board.set(p(1, 1), Slot::Arrow);
    assert!(board.is_trapped(p(0, 0)));
    board.set(p(1, 1), Slot::Empty);
    assert!(!board.is_trapped(p(0, 0)));
}

#[test]
fn initial_layout_and_turn() {
    let s = GameState::new();
    assert_eq!(s.turn, Player::White);
    assert_eq!(s.board.at(p(0, 6)), Slot::Amazon(Player::White));
    assert_eq!(s.board.at(p(3, 9)), Slot::Amazon(Player::White));
    assert_eq!(s.board.at(p(6, 9)), Slot::Amazon(Player::White));
    assert_eq!(s.board.at(p(9, 6)), Slot::Amazon(Player::White));
    assert_eq!(s.board.at(p(0, 3)), Slot::Amazon(Player::Black));
    assert_eq!(s.board.at(p(3, 0)), Slot::Amazon(Player::Black));
    assert_eq!(s.board.at(p(6, 0)), Slot::Amazon(Player::Black));
    assert_eq!(s.board.at(p(9, 3)), Slot::Amazon(Player::Black));
    assert_eq!(s.board.at(p(4, 4)), Slot::Empty);
    assert_eq!(s.find_amazons(), vec![p(0, 6), p(3, 9), p(6, 9), p(9, 6)]);
}

#[test]
fn opening_move_is_legal_and_applies() {
    let mut s = GameState::new();
    let mov = Move {
        from: p(0, 6),
        to: p(0, 5),
        arrow: p(1, 5),
    };
    assert!(s.legal_move(mov));
    s.do_move(mov);
    assert_eq!(s.board.at(p(0, 6)), Slot::Empty);
    assert_eq!(s.board.at(p(0, 5)), Slot::Amazon(Player::White));
    assert_eq!(s.board.at(p(1, 5)), Slot::Arrow);
    assert_eq!(s.turn, Player::Black);
}

#[test]
fn non_line_move_is_rejected() {
    let s = GameState::new();
    let mov = Move {
        from: p(0, 6),
        to: p(1, 4),
        arrow: p(1, 5),
    };
    assert!(!s.legal_move(mov));
}

#[test]
fn move_from_foreign_square_is_rejected() {
    let s = GameState::new();
    // empty origin square
    assert!(!s.legal_move(Move {
        from: p(4, 4),
        to: p(4, 5),
        arrow: p(4, 4),
    }));
    // enemy piece on the origin square
    assert!(!s.legal_move(Move {
        from: p(0, 3),
        to: p(0, 2),
        arrow: p(0, 3),
    }));
}

#[test]
fn blocked_line_is_rejected() {
    let mov = Move {
        from: p(0, 6),
        to: p(0, 4),
        arrow: p(1, 5),
    };
    let open = GameState::new();
    assert!(open.legal_move(mov));

    let mut blocked = GameState::new();
    // a White move that drops an arrow between (0,6) and (0,4) ...
    blocked.do_move(Move {
        from: p(9, 6),
        to: p(9, 5),
        arrow: p(0, 5),
    });
    // ... and a Black reply to hand the turn back
    blocked.do_move(Move {
        from: p(0, 3),
        to: p(1, 2),
        arrow: p(0, 2),
    });
    assert_eq!(blocked.turn, Player::White);
    assert!(!blocked.legal_move(mov));
}

#[test]
fn null_relocation_with_arrow_is_legal() {
    let mut s = GameState::new();
    let mov = Move {
        from: p(0, 6),
        to: p(0, 6),
        arrow: p(0, 5),
    };
    assert!(s.legal_move(mov));
    s.do_move(mov);
    assert_eq!(s.board.at(p(0, 6)), Slot::Amazon(Player::White));
    assert_eq!(s.board.at(p(0, 5)), Slot::Arrow);
    assert_eq!(s.turn, Player::Black);
}

#[test]
fn arrow_may_cross_the_vacated_square() {
    let s = GameState::new();
    // the arrow leg runs back through the square the amazon just left
    let mov = Move {
        from: p(0, 6),
        to: p(2, 6),
        arrow: p(0, 6),
    };
    assert!(s.legal_move(mov));
}

#[test]
fn do_then_undo_restores_the_state() {
    let s = GameState::new();
    let mut t = s.clone();
    let mov = Move {
        from: p(0, 6),
        to: p(0, 5),
        arrow: p(1, 5),
    };
    t.do_move(mov);
    assert!(t != s);
    t.undo_move(mov);
    assert!(t == s);
}

#[test]
fn undo_restores_degenerate_moves_too() {
    let s = GameState::new();

    // arrow fired back into the vacated origin square
    let mut t = s.clone();
    let back = Move {
        from: p(0, 6),
        to: p(1, 5),
        arrow: p(0, 6),
    };
    t.do_move(back);
    t.undo_move(back);
    assert!(t == s);

    // null relocation
    let mut u = s.clone();
    let stay = Move {
        from: p(0, 6),
        to: p(0, 6),
        arrow: p(0, 5),
    };
    u.do_move(stay);
    u.undo_move(stay);
    assert!(u == s);
}

#[test]
fn reach_count_equals_sum_of_distances() {
    let s = GameState::new();
    let from = p(0, 6);
    let far = s.board.reachable_from(from);
    let mut total: usize = 0;
    for q in &far {
        total += from.distance_to(*q) as usize;
    }
    assert_eq!(total, s.board.reach_count(from));
    assert_eq!(s.board.reach_count(from), 20);
}

#[test]
fn fresh_game_is_not_finished() {
    let s = GameState::new();
    assert!(!s.is_finished());
    assert_eq!(s.winner(), None);
    assert_eq!(s.find_movable_amazons().len(), 4);
}

#[test]
fn all_trapped_means_finished() {
    let mut board = Board::new_empty();
    board.set(p(0, 0), Slot::Amazon(Player::White));
    board.set(p(0, 1), Slot::Arrow);
    board.set(p(1, 0), Slot::Arrow);
    board.set(p(1, 1), Slot::Arrow);
    board.set(p(9, 9), Slot::Amazon(Player::Black));
    let s = GameState {
        board,
        turn: Player::White,
    };
    assert!(s.is_finished());
    assert_eq!(s.winner(), Some(Player::Black));
    assert!(s.find_movable_amazons().is_empty());
}
