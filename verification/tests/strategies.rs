use amazons::{
    Board, DeepIdiot, Game, GameState, LookAhead, Minimax, Player, Pos, Random, RandomSnail,
    Reachability, Slot, Snail, Strategy, MAX_VAL, MIN_VAL,
};

fn p(x: u8, y: u8) -> Pos {
    Pos { x, y }
}

#[test]
fn initial_evaluation_is_balanced() {
    let s = GameState::new();
    assert_eq!(Reachability.eval(Player::White, &s.board), 0);
    assert_eq!(Reachability.eval(Player::Black, &s.board), 0);
}

#[test]
fn immobile_side_gets_the_sentinels() {
    let mut board = Board::new_empty();
    board.set(p(0, 0), Slot::Amazon(Player::White));
    board.set(p(0, 1), Slot::Arrow);
    board.set(p(1, 0), Slot::Arrow);
    board.set(p(1, 1), Slot::Arrow);
    board.set(p(9, 9), Slot::Amazon(Player::Black));
    assert_eq!(Reachability.eval(Player::White, &board), MIN_VAL);
    assert_eq!(Reachability.eval(Player::Black, &board), MAX_VAL);
}

#[test]
fn evaluation_counts_mobility_difference() {
    let mut board = Board::new_empty();
    board.set(p(0, 0), Slot::Amazon(Player::White));
    board.set(p(9, 9), Slot::Amazon(Player::Black));
    board.set(p(0, 1), Slot::Arrow);
    board.set(p(1, 0), Slot::Arrow);
    // White reaches 8 squares on its one open diagonal; Black reaches 26
    assert_eq!(board.reach_count(p(0, 0)), 8);
    assert_eq!(board.reach_count(p(9, 9)), 26);
    assert_eq!(Reachability.eval(Player::White, &board), -18);
    assert_eq!(Reachability.eval(Player::Black, &board), 18);
}

#[test]
fn random_moves_are_legal() {
    let s = GameState::new();
    let mut sampler = Random;
    for _ in 0..50 {
        let mov = sampler.find_move(&s);
        assert!(s.legal_move(mov));
    }
}

#[test]
fn snail_steps_and_shoots_back() {
    let s = GameState::new();
    let mut snail = Snail;
    let mov = snail.find_move(&s);
    assert!(s.legal_move(mov));
    assert_eq!(mov.from, p(0, 6));
    assert_eq!(mov.to, p(0, 5));
    assert_eq!(mov.arrow, p(0, 6));
}

#[test]
fn snail_is_deterministic() {
    let s = GameState::new();
    let mut first = Snail;
    let mut second = Snail;
    assert_eq!(first.find_move(&s), second.find_move(&s));
}

#[test]
fn random_snail_moves_are_legal_single_steps() {
    let s = GameState::new();
    let mut snail = RandomSnail;
    for _ in 0..20 {
        let mov = snail.find_move(&s);
        assert!(s.legal_move(mov));
        assert_eq!(mov.from.distance_to(mov.to), 1);
        assert_eq!(mov.arrow, mov.from);
    }
}

#[test]
fn look_ahead_move_is_legal() {
    let s = GameState::new();
    let mut strat = LookAhead;
    let mov = strat.find_move(&s);
    assert!(s.legal_move(mov));
}

#[test]
fn minimax_move_is_legal() {
    let s = GameState::new();
    let mut strat = Minimax::with_depth(1);
    let mov = strat.find_move(&s);
    assert!(s.legal_move(mov));
}

#[test]
fn deep_idiot_move_is_legal() {
    let s = GameState::new();
    let mut strat = DeepIdiot::with_depth(2);
    let mov = strat.find_move(&s);
    assert!(s.legal_move(mov));
}

#[test]
fn strategy_names() {
    assert_eq!(Random.name(), "True Random");
    assert_eq!(Snail.name(), "Snail");
    assert_eq!(RandomSnail.name(), "RandomSnail");
    assert_eq!(LookAhead.name(), "LookAhead");
    assert_eq!(Minimax::with_depth(12).name(), "Minimax(12)");
    assert_eq!(DeepIdiot::with_depth(5).name(), "DeepIdiot(5, 1000, 20)");
    assert_eq!(Reachability.name(), "Reachability");
    assert_eq!(Strategy::Snail(Snail).name(), "Snail");
}

#[test]
fn full_random_game_terminates_with_a_winner() {
    let mut game = Game::new(Strategy::Random(Random), Strategy::Random(Random));
    let winner = game.finish();
    assert!(matches!(winner, Player::White | Player::Black));
}

#[test]
fn repeated_next_move_reaches_the_end() {
    let mut game = Game::new(Strategy::Random(Random), Strategy::Random(Random));
    let mut moves: usize = 0;
    while !game.is_finished() {
        game.next_move();
        moves += 1;
        // the board has 100 squares and every move fills at least one
        assert!(moves <= 100);
    }
    assert!(moves >= 1);
}

#[test]
fn logged_game_replays_to_the_same_end() {
    let mut game = Game::new(Strategy::RandomSnail(RandomSnail), Strategy::Random(Random));
    game.enable_log();
    let winner = game.finish();

    let mut replay = GameState::new();
    for mov in game.log() {
        assert!(replay.legal_move(*mov));
        replay.do_move(*mov);
    }
    assert!(replay.is_finished());
    assert_eq!(replay.winner(), Some(winner));
}

#[test]
fn duplicated_strategies_play_both_sides() {
    let strat = Strategy::Snail(Snail);
    let mut game = Game::new(strat.dup(), strat.dup());
    let winner = game.finish();
    assert!(matches!(winner, Player::White | Player::Black));
}
