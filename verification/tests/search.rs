use socha_client_2023::deepening::{Action, Deepening, Event, Phase, SearchError};
use socha_client_2023::game::{Board, Doubled, Move, State, Team, Vec2};
use socha_client_2023::minimax::{dyn_max, minimax, minimax2, new_minimax, QUICK_PLIES};
use socha_client_2023::scoring_funcs::{get_fish_dif, get_turn, Evaluator, FishLead, Score, DRAW, LOSS, WIN};

const FIXTURE: &str = "00000000\n0000000R\n00000B00\n0B000000\n10R0R102\n00010000\n001000B0\n1R0100B0\n";

const OPEN: &str = "11211311\n1R121B11\n11111111\n31B11R12\n11111111\n1R111B12\n21111111\n11B13R11\n";

fn state_of(text: &str, turn: usize, fish: [usize; 2]) -> State {
    State::new(text.parse::<Board>().unwrap(), turn, fish, None, Team::One).unwrap()
}

fn at(x: i32, y: i32) -> Vec2<Doubled> {
    Vec2::<Doubled>::new(x, y)
}

fn terminal(state: &State, me: Team) -> Score {
    match state.winner() {
        None => DRAW,
        Some(team) => {
            if team == me {
                WIN
            } else {
                LOSS
            }
        }
    }
}

fn brute(state: &State, me: Team, depth: i32) -> Score {
    if state.is_over() {
        return terminal(state, me);
    }
    let mine = state.current_team() == me;
    let moves = state.possible_moves();
    if depth <= 0 || moves.is_empty() {
        return FishLead.evaluate(state, if mine { 1 } else { -1 });
    }
    let values = moves.iter().map(|m| brute(&state.child(*m).unwrap(), me, depth - 1));
    if mine {
        values.max().unwrap().max(LOSS)
    } else {
        values.min().unwrap().min(WIN)
    }
}

#[test]
fn fish_lead_follows_the_perspective() {
    let state = state_of(FIXTURE, 57, [10, 20]);
    assert_eq!(state.current_team(), Team::One);
    assert_eq!(get_fish_dif(&state, 1), -10);
    assert_eq!(get_fish_dif(&state, -1), 10);
    assert_eq!(FishLead.evaluate(&state, 1), -10);
    assert_eq!(get_turn(&state), 57);
    let extreme = state_of(FIXTURE, 0, [usize::MAX - 9, 0]);
    assert_eq!(get_fish_dif(&extreme, 1), (usize::MAX - 9) as i128);
}

#[test]
fn depth_one_takes_the_first_of_equal_moves() {
    let mut state = state_of(FIXTURE, 57, [10, 20]);
    let before = state;
    let (best, value, order) = minimax(&mut state, Team::One, LOSS, WIN, 1, vec![], &FishLead).unwrap();
    assert_eq!(state, before);
    assert_eq!(best, Some(Move::between(at(8, 4), at(10, 4))));
    assert_eq!(value, -9);
    assert_eq!(order, vec![3, 2, 1, 0]);
}

#[test]
fn the_hint_decides_between_equal_moves() {
    let mut state = state_of(FIXTURE, 57, [10, 20]);
    let (best, value, order) =
        minimax(&mut state, Team::One, LOSS, WIN, 1, vec![2, 0, 3, 1], &FishLead).unwrap();
    assert_eq!(best, Some(Move::between(at(3, 7), at(4, 6))));
    assert_eq!(value, -9);
    assert_eq!(order, vec![1, 3, 0, 2]);
}

#[test]
fn a_hint_that_does_not_order_all_moves_is_ignored() {
    let plain = minimax(&mut state_of(FIXTURE, 57, [10, 20]), Team::One, LOSS, WIN, 2, vec![], &FishLead);
    assert!(plain.is_ok());
    for hint in [vec![0, 1, 2], vec![0, 1, 2, 2], vec![0, 1, 2, 4], vec![0, 1, 2, 3, 0]] {
        let found = minimax(&mut state_of(FIXTURE, 57, [10, 20]), Team::One, LOSS, WIN, 2, hint, &FishLead);
        assert_eq!(found, plain);
    }
}

#[test]
fn search_goes_no_deeper_at_a_leaf() {
    let mut state = state_of(FIXTURE, 57, [10, 20]);
    assert_eq!(minimax(&mut state, Team::One, LOSS, WIN, 0, vec![], &FishLead), Ok((None, -10, vec![])));
    assert_eq!(minimax(&mut state, Team::Two, LOSS, WIN, -3, vec![], &FishLead), Ok((None, 10, vec![])));
    assert_eq!(new_minimax(&mut state, Team::One, LOSS, WIN, 0, 0, &FishLead), Ok((None, -10)));

    let over = "RRRR0000\n00000000\n00000000\n00000000\n00000000\n00000000\n00000000\nBBBB0000\n";
    let mut draw = state_of(over, 8, [7, 7]);
    assert_eq!(minimax(&mut draw, Team::One, LOSS, WIN, 3, vec![], &FishLead), Ok((None, DRAW, vec![])));
    let mut won = state_of(over, 8, [9, 7]);
    assert_eq!(minimax(&mut won, Team::One, LOSS, WIN, 3, vec![], &FishLead), Ok((None, WIN, vec![])));
    assert_eq!(minimax(&mut won, Team::Two, LOSS, WIN, 3, vec![], &FishLead), Ok((None, LOSS, vec![])));
    assert_eq!(new_minimax(&mut won, Team::Two, LOSS, WIN, 3, 0, &FishLead), Ok((None, LOSS)));
}

#[test]
fn full_window_search_finds_the_minimax_value() {
    for (text, turn, fish) in [(FIXTURE, 57, [10, 20]), (OPEN, 8, [4, 4]), (OPEN, 9, [4, 4])] {
        let start = state_of(text, turn, fish);
        for me in [Team::One, Team::Two] {
            for depth in 1..=3 {
                let exact = brute(&start, me, depth);
                let mut state = start;
                let (best, value, order) = minimax(&mut state, me, LOSS, WIN, depth, vec![], &FishLead).unwrap();
                assert_eq!(state, start);
                assert_eq!(value, exact);
                let best = best.unwrap();
                assert!(start.possible_moves().contains(&best));
                assert_eq!(brute(&start.child(best).unwrap(), me, depth - 1), exact);
                let mut sorted = order.clone();
                sorted.sort();
                assert_eq!(sorted, (0..start.possible_moves().len()).collect::<Vec<usize>>());
                let (inner_best, inner_value) = new_minimax(&mut state, me, LOSS, WIN, depth, 0, &FishLead).unwrap();
                assert_eq!(inner_value, exact);
                assert_eq!(inner_best, Some(best));
                let (again, again_value, _) = minimax(&mut state, me, LOSS, WIN, depth, order, &FishLead).unwrap();
                assert_eq!(again_value, exact);
                assert_eq!(brute(&start.child(again.unwrap()).unwrap(), me, depth - 1), exact);
                for depth2 in [1, 2, 5] {
                    let (ranked, ranked_value, ranking) =
                        minimax2(&mut state, me, LOSS, WIN, depth, depth2, vec![], &FishLead).unwrap();
                    assert_eq!(state, start);
                    assert_eq!(ranked_value, exact);
                    assert_eq!(ranking.len(), start.possible_moves().len());
                    assert_eq!(brute(&start.child(ranked.unwrap()).unwrap(), me, depth - 1), exact);
                    let (quick, quick_value) = new_minimax(&mut state, me, LOSS, WIN, depth, depth2, &FishLead).unwrap();
                    assert_eq!(quick_value, exact);
                    assert_eq!(brute(&start.child(quick.unwrap()).unwrap(), me, depth - 1), exact);
                }
            }
        }
    }
}

#[test]
fn narrow_windows_bound_the_minimax_value() {
    let start = state_of(OPEN, 8, [4, 4]);
    let exact = brute(&start, Team::One, 2);
    for (alpha, beta) in [(exact - 5, exact + 5), (exact, exact + 1), (exact - 1, exact), (exact + 2, exact + 9), (exact - 9, exact - 2)] {
        let mut state = start;
        let (_, found) = new_minimax(&mut state, Team::One, alpha, beta, 2, 0, &FishLead).unwrap();
        if found <= alpha {
            assert!(exact <= found);
        } else if found >= beta {
            assert!(exact >= found);
        } else {
            assert_eq!(exact, found);
        }
        let (_, at_root, _) = minimax(&mut state, Team::One, alpha, beta, 2, vec![], &FishLead).unwrap();
        assert_eq!(at_root, found);
    }
}

#[test]
fn ranking_is_best_first_for_the_side_that_moves() {
    let start = state_of(OPEN, 8, [4, 4]);
    let mut state = start;
    let (_, _, order) = minimax(&mut state, Team::One, LOSS, WIN, 1, vec![], &FishLead).unwrap();
    let values: Vec<Score> =
        order.iter().map(|&k| brute(&start.child(start.possible_moves()[k]).unwrap(), Team::One, 0)).collect();
    assert!(values.windows(2).all(|w| w[0] >= w[1]));
    let (_, _, order) = minimax(&mut state, Team::Two, LOSS, WIN, 1, vec![], &FishLead).unwrap();
    let values: Vec<Score> =
        order.iter().map(|&k| brute(&start.child(start.possible_moves()[k]).unwrap(), Team::Two, 0)).collect();
    assert!(values.windows(2).all(|w| w[0] <= w[1]));
}

#[test]
fn search_converges() {
    let start = state_of(OPEN, 8, [4, 4]);
    let first = dyn_max(start, Team::One, 3, &FishLead);
    let second = dyn_max(start, Team::One, 3, &FishLead);
    assert_eq!(first, second);
    let best = first.unwrap();
    assert!(start.possible_moves().contains(&best));
    assert_eq!(brute(&start.child(best).unwrap(), Team::One, 2), brute(&start, Team::One, 3));
    assert_eq!(dyn_max(start, Team::One, 0, &FishLead), dyn_max(start, Team::One, 1, &FishLead));
    assert_eq!(dyn_max(start, Team::One, -7, &FishLead), dyn_max(start, Team::One, 1, &FishLead));
}

#[test]
fn search_without_a_move_fails_loudly() {
    let over = "RRRR0000\n00000000\n00000000\n00000000\n00000000\n00000000\n00000000\nBBBB0000\n";
    assert_eq!(dyn_max(state_of(over, 8, [7, 7]), Team::One, 3, &FishLead), Err(SearchError::GameOver));
    let stuck = "RRR00000\n00000000\n00020000\n00000000\n00000000\n00000000\n00000000\nBBBB0000\n";
    let state = state_of(stuck, 7, [3, 4]);
    assert!(!state.is_over());
    assert!(state.possible_moves().is_empty());
    assert_eq!(dyn_max(state, Team::One, 3, &FishLead), Err(SearchError::NoLegalMove));
}

#[test]
fn deepening_goes_depth_by_depth() {
    let mut deepening = Deepening::new(3);
    assert_eq!(deepening.phase(), Phase::Idle);
    assert_eq!(deepening.step(Event::Deadline), Action::Wait);
    assert_eq!(deepening.step(Event::Begin), Action::Start { depth: 1, order: vec![] });
    assert_eq!(deepening.phase(), Phase::Iterating(1));
    let first = Move::placing(at(0, 0));
    let second = Move::placing(at(2, 0));
    assert_eq!(
        deepening.step(Event::Finished { best: first, order: vec![1, 0] }),
        Action::Start { depth: 2, order: vec![1, 0] }
    );
    assert_eq!(deepening.best(), Some(first));
    assert_eq!(
        deepening.step(Event::Finished { best: second, order: vec![0, 1] }),
        Action::Start { depth: 3, order: vec![0, 1] }
    );
    assert_eq!(
        deepening.step(Event::Finished { best: first, order: vec![1, 0] }),
        Action::Return(Ok(first))
    );
    assert_eq!(deepening.phase(), Phase::Converged);
    assert_eq!(deepening.step(Event::Deadline), Action::Return(Ok(first)));
    assert_eq!(
        deepening.step(Event::Finished { best: second, order: vec![] }),
        Action::Return(Ok(first))
    );
}

#[test]
fn deadline_returns_the_last_finished_depth() {
    let mut deepening = Deepening::new(30);
    let first = Move::placing(at(0, 0));
    let second = Move::placing(at(2, 0));
    deepening.step(Event::Begin);
    deepening.step(Event::Finished { best: first, order: vec![0] });
    assert_eq!(deepening.phase(), Phase::Iterating(2));
    assert_eq!(deepening.step(Event::Deadline), Action::Return(Ok(first)));
    assert_eq!(deepening.phase(), Phase::TimedOut);
    assert_eq!(
        deepening.step(Event::Finished { best: second, order: vec![0] }),
        Action::Return(Ok(first))
    );
}

#[test]
fn anytime_waits_for_depth_one() {
    let mut deepening = Deepening::new(30);
    let only = Move::placing(at(4, 2));
    deepening.step(Event::Begin);
    assert_eq!(deepening.step(Event::Deadline), Action::Wait);
    assert_eq!(deepening.phase(), Phase::Overdue);
    assert_eq!(deepening.step(Event::Deadline), Action::Wait);
    assert_eq!(
        deepening.step(Event::Finished { best: only, order: vec![0] }),
        Action::Return(Ok(only))
    );
    assert_eq!(deepening.phase(), Phase::TimedOut);

    let mut empty = Deepening::new(0);
    assert_eq!(empty.step(Event::Begin), Action::Start { depth: 1, order: vec![] });
    assert_eq!(
        empty.step(Event::Failed),
        Action::Return(Err(SearchError::NoLegalMove))
    );
}

#[test]
fn deepening_driven_by_the_search_returns_a_legal_move() {
    let start = state_of(OPEN, 8, [4, 4]);
    let mut deepening = Deepening::new(2);
    let mut action = deepening.step(Event::Begin);
    let mut searches = 0;
    let result = loop {
        match action {
            Action::Start { depth, order } => {
                let mut state = start;
                let (best, _, order) =
                    minimax2(&mut state, Team::One, LOSS, WIN, depth, QUICK_PLIES, order, &FishLead).unwrap();
                searches += 1;
                action = deepening.step(Event::Finished { best: best.unwrap(), order });
            }
            Action::Wait => panic!("nothing to wait for"),
            Action::Return(result) => break result,
        }
    };
    assert_eq!(searches, 2);
    assert_eq!(result, dyn_max(start, Team::One, 2, &FishLead));
    assert!(start.possible_moves().contains(&result.unwrap()));
}

#[test]
fn quick_ranking_takes_the_best_looking_move_first() {
    let text = "00000000\n00000000\n00000000\n00000000\n1R300000\n00000000\n00000001\nRRR0BBBB\n";
    let start = state_of(text, 8, [0, 0]);
    assert_eq!(start.current_team(), Team::One);
    let moves = start.possible_moves();
    assert_eq!(moves, vec![Move::between(at(2, 4), at(4, 4)), Move::between(at(2, 4), at(0, 4))]);
    let mut state = start;
    let natural = new_minimax(&mut state, Team::One, LOSS, WIN, 1, 0, &FishLead).unwrap();
    let ranked = new_minimax(&mut state, Team::One, LOSS, WIN, 1, 1, &FishLead).unwrap();
    assert_eq!(natural, ranked);
    assert_eq!(natural, (Some(moves[0]), 3));

    let even = "00000000\n00000000\n00000000\n00000000\n2R200000\n00000000\n00000001\nRRR0BBBB\n";
    let start = state_of(even, 8, [0, 0]);
    let moves = start.possible_moves();
    let mut state = start;
    let natural = new_minimax(&mut state, Team::One, LOSS, WIN, 1, 0, &FishLead).unwrap();
    let ranked = new_minimax(&mut state, Team::One, LOSS, WIN, 1, 1, &FishLead).unwrap();
    assert_eq!(natural, (Some(moves[0]), 2));
    assert_eq!(ranked, (Some(moves[1]), 2));
    assert_eq!(QUICK_PLIES, 2);
}

const STUCK: &str = "RRR00000\n00000000\n00020000\n00000000\n00000000\n00000000\n00000000\nBBBB0000\n";

#[test]
fn search_of_a_state_without_a_move_fails() {
    let start = State::new(Board::empty(), 1, [1, 0], Some(Move::placing(at(13, 5))), Team::One).unwrap();
    assert!(!start.is_over());
    assert!(start.possible_moves().is_empty());
    let mut state = start;
    for depth in 1..4 {
        assert_eq!(minimax(&mut state, Team::One, LOSS, WIN, depth, vec![], &FishLead), Err(SearchError::NoLegalMove));
        assert_eq!(minimax2(&mut state, Team::Two, LOSS, WIN, depth, 2, vec![], &FishLead), Err(SearchError::NoLegalMove));
        assert_eq!(new_minimax(&mut state, Team::One, LOSS, WIN, depth, 0, &FishLead), Err(SearchError::NoLegalMove));
        assert_eq!(new_minimax(&mut state, Team::One, LOSS, WIN, depth, 1, &FishLead), Err(SearchError::NoLegalMove));
        assert_eq!(state, start);
    }
    assert_eq!(minimax(&mut state, Team::One, LOSS, WIN, 0, vec![], &FishLead), Ok((None, 1, vec![])));
    let mut stuck = state_of(STUCK, 7, [3, 4]);
    assert_eq!(minimax(&mut stuck, Team::One, LOSS, WIN, 2, vec![], &FishLead), Err(SearchError::NoLegalMove));
}

#[test]
fn search_fails_where_it_comes_to_a_state_without_a_move() {
    let text = "RRR00000\n00000000\n00010000\n00000000\n00000000\n00000000\n00000000\nBBB00000\n";
    let start = state_of(text, 6, [3, 3]);
    assert_eq!(start.possible_moves(), vec![Move::placing(at(6, 2))]);
    let after = start.child(Move::placing(at(6, 2))).unwrap();
    assert!(!after.is_over());
    assert!(after.possible_moves().is_empty());
    let mut state = start;
    let one = minimax(&mut state, Team::One, LOSS, WIN, 1, vec![], &FishLead).unwrap();
    assert_eq!(one.0, Some(Move::placing(at(6, 2))));
    assert_eq!(minimax(&mut state, Team::One, LOSS, WIN, 2, vec![], &FishLead), Err(SearchError::NoLegalMove));
    assert_eq!(new_minimax(&mut state, Team::One, LOSS, WIN, 2, 0, &FishLead), Err(SearchError::NoLegalMove));
    assert_eq!(minimax2(&mut state, Team::One, LOSS, WIN, 3, 2, vec![], &FishLead), Err(SearchError::NoLegalMove));
    assert_eq!(state, start);
    assert_eq!(dyn_max(start, Team::One, 1, &FishLead), Ok(Move::placing(at(6, 2))));
    assert_eq!(dyn_max(start, Team::One, 5, &FishLead), Ok(Move::placing(at(6, 2))));
}

#[test]
fn a_failed_search_ends_the_deepening_with_the_move_before() {
    let first = Move::placing(at(0, 0));
    let mut deepening = Deepening::new(30);
    deepening.step(Event::Begin);
    assert_eq!(deepening.step(Event::Finished { best: first, order: vec![0] }), Action::Start { depth: 2, order: vec![0] });
    assert_eq!(deepening.step(Event::Failed), Action::Return(Ok(first)));
    assert_eq!(deepening.phase(), Phase::Converged);
    assert_eq!(deepening.step(Event::Deadline), Action::Return(Ok(first)));

    let mut none = Deepening::new(30);
    none.step(Event::Begin);
    assert_eq!(none.step(Event::Failed), Action::Return(Err(SearchError::NoLegalMove)));

    let mut late = Deepening::new(30);
    late.step(Event::Begin);
    assert_eq!(late.step(Event::Deadline), Action::Wait);
    assert_eq!(late.step(Event::Failed), Action::Return(Err(SearchError::NoLegalMove)));
    assert_eq!(late.phase(), Phase::TimedOut);
}
