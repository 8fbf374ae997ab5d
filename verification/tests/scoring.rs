use socha_client_2023::game::{Board, Doubled, State, Team, Vec2};
use socha_client_2023::game::Move;
use socha_client_2023::minimax::{dyn_max, evaluate_move, minimax};
use socha_client_2023::randmax::{get_game_sim, outcome_of, play_on, randmax};
use socha_client_2023::scoring_funcs::{
    get_controlled_fields, get_controlled_fields_of, get_field_control, evaluate, get_fish_dif, get_fish_left, get_move_num, get_moveable_peguins, get_pengu, Evaluator,
    FishLead, Territory, Weighted, LOSS, WIN,
};
use socha_client_2023::spots::{get_spot_name, own_is_valid};
use socha_client_2023::territory::{claim_of, steps_of, UNREACHED};

const FIXTURE: &str = "00000000\n0000000R\n00000B00\n0B000000\n10R0R102\n00010000\n001000B0\n1R0100B0\n";

fn state_of(text: &str, turn: usize, fish: [usize; 2]) -> State {
    State::new(text.parse::<Board>().unwrap(), turn, fish, None, Team::One).unwrap()
}

fn at(x: i32, y: i32) -> Vec2<Doubled> {
    Vec2::<Doubled>::new(x, y)
}

#[test]
fn counts_of_moves_and_penguins() {
    let state = state_of(FIXTURE, 57, [10, 20]);
    assert_eq!(state.possible_moves().len(), 4);
    assert_eq!(state.opponent_moves().len(), 0);
    assert_eq!(get_move_num(&state, 1), 4);
    assert_eq!(get_move_num(&state, -1), -4);
    assert_eq!(get_moveable_peguins(&state, Team::One), 2);
    assert_eq!(get_moveable_peguins(&state, Team::Two), 0);
    assert_eq!(get_pengu(&state, 1), 2);
    assert_eq!(get_pengu(&state, -1), -2);
    assert_eq!(get_fish_left(&state), 8);
    assert_eq!(state.get_fish_left(), 8);
    assert_eq!(state.pieces_of(Team::Two).len(), 4);
    assert_eq!(state.current_pieces().iter().map(|(p, _)| (p.x, p.y)).collect::<Vec<_>>(), vec![(15, 1), (4, 4), (8, 4), (3, 7)]);
}

#[test]
fn opponent_moves_are_placements_while_it_places() {
    let text = "12300000\n00000000\n00100000\n00000000\n000R0000\n00000000\n0000000B\n00000001\n";
    let state = state_of(text, 2, [1, 1]);
    assert_eq!(state.current_team(), Team::One);
    assert_eq!(state.opponent_moves(), state.possible_moves());
}

#[test]
fn steps_grow_wave_by_wave() {
    let text = "R1110000\n00010000\n00000000\n00000000\n00000000\n00000000\n00000000\n0000011B\n";
    let board = text.parse::<Board>().unwrap();
    let one = steps_of(&board, Team::One);
    assert_eq!(one[0], UNREACHED);
    assert_eq!(one[1], 2);
    assert_eq!(one[2], 2);
    assert_eq!(one[3], 2);
    assert_eq!(one[11], 3);
    assert_eq!(one[12], UNREACHED);
    assert_eq!(one[61], UNREACHED);
    let two = steps_of(&board, Team::Two);
    assert_eq!(two[62], 2);
    assert_eq!(two[61], 2);
    assert_eq!(two[63], UNREACHED);
    assert_eq!(two[1], UNREACHED);
    assert_eq!(claim_of(&board, Team::One), 4 - 2);
    assert_eq!(claim_of(&board, Team::Two), 2 - 4);
}

#[test]
fn territory_counts_the_fish_that_a_team_is_nearer_to() {
    let text = "R1110000\n00010000\n00000000\n00000000\n00000000\n00000000\n00000000\n0000011B\n";
    let state = state_of(text, 0, [5, 3]);
    assert_eq!(state.current_team(), Team::One);
    assert_eq!(evaluate(&state, 1), 2 * (5 - 3 + 4 - 2) - 1);
    assert_eq!(evaluate(&state, -1), 2 * (3 - 5 + 2 - 4) - 1);
    assert_eq!(Territory.evaluate(&state, 1), 7);
    assert_eq!(Territory.evaluate(&state, -1), -9);
}

#[test]
fn fields_that_both_reach_alike_fall_to_neither() {
    let text = "R3B00000\n00000000\n00000000\n00000000\n00000000\n00000000\n00000000\n00000000\n";
    let board = text.parse::<Board>().unwrap();
    assert_eq!(steps_of(&board, Team::One)[1], 2);
    assert_eq!(steps_of(&board, Team::Two)[1], 2);
    assert_eq!(claim_of(&board, Team::One), 0);
    let nearer = "R30B0001\n00000000\n00000000\n00000000\n00000000\n00000000\n00000000\n00000000\n";
    let board = nearer.parse::<Board>().unwrap();
    assert_eq!(steps_of(&board, Team::Two)[1], UNREACHED);
    assert_eq!(claim_of(&board, Team::One), 3);
    assert_eq!(claim_of(&board, Team::Two), -3);
}

#[test]
fn search_with_the_territory_evaluator() {
    let start = state_of(FIXTURE, 57, [10, 20]);
    let mut state = start;
    let (best, value, order) = minimax(&mut state, Team::One, LOSS, WIN, 2, vec![], &Territory).unwrap();
    assert_eq!(state, start);
    let best = best.unwrap();
    assert!(start.possible_moves().contains(&best));
    assert_eq!(order.len(), 4);
    assert!(LOSS <= value && value <= WIN);
    assert_eq!(dyn_max(start, Team::One, 2, &Territory), dyn_max(start, Team::One, 2, &Territory));
    assert!(dyn_max(start, Team::One, 4, &Territory).is_ok());
}

#[test]
fn spot_names() {
    assert!(own_is_valid(at(7, 7)));
    assert!(own_is_valid(at(0, 0)));
    assert!(!own_is_valid(at(8, 0)));
    assert!(!own_is_valid(at(0, 8)));
    assert!(!own_is_valid(at(-1, 3)));

    let name = |text: &str, x: i32, y: i32| get_spot_name(&state_of(text, 0, [0, 0]), at(x, y));
    let none = "00000000\n00000000\n00000000\n00000000\n00000000\n00000000\n00000000\n00000000\n";
    assert_eq!(name(none, 4, 2), 'w');
    let single = "00000000\n00000000\n00R10000\n00000000\n00000000\n00000000\n00000000\n00000000\n";
    assert_eq!(name(single, 4, 2), 'y');
    let opposite = "00000000\n00000000\n01R10000\n00000000\n00000000\n00000000\n00000000\n00000000\n";
    assert_eq!(name(opposite, 4, 2), 'r');
    let pair = "00000000\n00100000\n00R10000\n00000000\n00000000\n00000000\n00000000\n00000000\n";
    assert_eq!(name(pair, 4, 2), 'w');
    let apart = "00000000\n00100000\n00R00000\n00100000\n00000000\n00000000\n00000000\n00000000\n";
    assert_eq!(name(apart, 4, 2), 'b');
    let all = "00000000\n01100000\n01R10000\n01100000\n00000000\n00000000\n00000000\n00000000\n";
    assert_eq!(name(all, 4, 2), 'w');
    let far = "00000000\n00000000\n00000R10\n00000000\n00000000\n00000000\n00000000\n00000000\n";
    assert_eq!(name(far, 10, 2), 'w');
}

#[test]
fn evaluate_move_scores_the_state_after_the_move() {
    let start = state_of(FIXTURE, 57, [10, 20]);
    let mut state = start;
    for m in start.possible_moves() {
        let after = start.child(m).unwrap();
        assert_eq!(evaluate_move(&mut state, m, 1), Some(evaluate(&after, 1)));
        assert_eq!(evaluate_move(&mut state, m, -1), Some(evaluate(&after, -1)));
        assert_eq!(state, start);
    }
    assert_eq!(evaluate_move(&mut state, Move::placing(at(0, 4)), 1), None);
    assert_eq!(state, start);
}

#[test]
fn playouts_end_with_the_outcome_of_the_game() {
    let start = state_of(FIXTURE, 57, [10, 20]);
    let mut state = start;
    for _ in 0..20 {
        assert_eq!(randmax(&mut state, Team::One), -1);
        assert_eq!(randmax(&mut state, Team::Two), 1);
        assert_eq!(state, start);
    }
    for m in start.possible_moves() {
        assert_eq!(play_on(&mut state, Team::One, m), -1);
        assert_eq!(state, start);
    }
    assert_eq!(get_game_sim(&start, 1), -10);
    assert_eq!(get_game_sim(&start, -1), 10);
    assert_eq!(get_game_sim(&start, 3), -30);

    let over = "RRRR0000\n00000000\n00000000\n00000000\n00000000\n00000000\n00000000\nBBBB0000\n";
    let mut draw = state_of(over, 8, [7, 7]);
    assert_eq!(outcome_of(&draw, Team::One), 0);
    assert_eq!(randmax(&mut draw, Team::One), 0);
    let won = state_of(over, 8, [9, 7]);
    assert_eq!(outcome_of(&won, Team::One), 1);
    assert_eq!(outcome_of(&won, Team::Two), -1);
    assert_eq!(won.current_team(), Team::Two);
    assert_eq!(get_game_sim(&won, 1), -10);

    let stuck = "RRR00000\n00000000\n00020000\n00000000\n00000000\n00000000\n00000000\nBBBB0000\n";
    let mut state = state_of(stuck, 7, [3, 4]);
    assert_eq!(randmax(&mut state, Team::One), 0);
}

#[test]
fn playouts_of_an_open_game_stay_within_bounds() {
    let open = "11211311\n1R121B11\n11111111\n31B11R12\n11111111\n1R111B12\n21111111\n11B13R11\n";
    let start = state_of(open, 8, [4, 4]);
    let mut state = start;
    for _ in 0..10 {
        let r = randmax(&mut state, Team::One);
        assert!((-1..=1).contains(&r));
        assert_eq!(state, start);
    }
    assert!((-10..=10).contains(&get_game_sim(&start, 1)));
}

#[test]
fn weighted_sum_of_features() {
    let state = state_of(FIXTURE, 57, [10, 20]);
    let only_fish = Weighted { fish: 1, moves: 0, penguins: 0, territory: 0 };
    assert_eq!(only_fish.evaluate(&state, 1), FishLead.evaluate(&state, 1));
    let only_land = Weighted { fish: 0, moves: 0, penguins: 0, territory: 1 };
    assert_eq!(only_land.evaluate(&state, -1), Territory.evaluate(&state, -1));
    let mixed = Weighted { fish: 3, moves: -2, penguins: 5, territory: 7 };
    for perspective in [1, -1] {
        assert_eq!(
            mixed.evaluate(&state, perspective),
            3 * get_fish_dif(&state, perspective) - 2 * get_move_num(&state, perspective)
                + 5 * get_pengu(&state, perspective)
                + 7 * evaluate(&state, perspective)
        );
    }
    assert_eq!(mixed.evaluate(&state, 1), 3 * -10 - 2 * 4 + 5 * 2 + 7 * evaluate(&state, 1));
    let extreme = Weighted { fish: i32::MIN, moves: i32::MAX, penguins: i32::MIN, territory: i32::MAX };
    let rich = state_of(FIXTURE, 0, [usize::MAX - 8, 0]);
    assert_eq!(
        extreme.evaluate(&rich, 1),
        i32::MIN as i128 * get_fish_dif(&rich, 1) + i32::MAX as i128 * get_move_num(&rich, 1)
            + i32::MIN as i128 * get_pengu(&rich, 1)
            + i32::MAX as i128 * evaluate(&rich, 1)
    );
    assert!(LOSS < extreme.evaluate(&rich, 1) && extreme.evaluate(&rich, 1) < WIN);
    let start = state_of(FIXTURE, 57, [10, 20]);
    assert!(dyn_max(start, Team::One, 3, &mixed).is_ok());
}

#[test]
fn controlled_fields() {
    let text = "R1110000\n00000000\n00000000\n00000000\n00000000\n00000000\n00000000\n0000011B\n";
    let state = state_of(text, 0, [0, 0]);
    assert_eq!(get_controlled_fields_of(&state, Team::One, Team::Two), 3);
    assert_eq!(get_controlled_fields_of(&state, Team::Two, Team::One), 5);
    assert_eq!(state.current_team(), Team::One);
    assert_eq!(get_controlled_fields(&state, 1), 3);
    assert_eq!(get_controlled_fields(&state, -1), -3);

    let lonely = "R0000000\n00000000\n00000000\n00000000\n00000000\n00000000\n00000000\n0000003B\n";
    let state = state_of(lonely, 0, [0, 0]);
    assert_eq!(get_controlled_fields_of(&state, Team::One, Team::Two), -3);
    assert_eq!(get_controlled_fields_of(&state, Team::Two, Team::One), 3);

    let shared = "R2B00000\n00000000\n00000000\n00000000\n00000000\n00000000\n00000000\n00000000\n";
    let state = state_of(shared, 0, [0, 0]);
    assert_eq!(get_controlled_fields_of(&state, Team::One, Team::Two), 2);
    assert_eq!(get_controlled_fields_of(&state, Team::Two, Team::One), 2);
}

#[test]
fn field_control_counts_the_slides_from_a_field() {
    let text = "R1110000\n00000000\n00000000\n00000000\n00000000\n00000000\n00000000\n0000011B\n";
    let state = state_of(text, 0, [0, 0]);
    let mut counts = vec![0usize; 64];
    get_field_control(&state, at(0, 0), &mut counts);
    assert_eq!(&counts[0..5], &[0, 1, 1, 1, 0]);
    get_field_control(&state, at(4, 0), &mut counts);
    assert_eq!(&counts[0..5], &[0, 2, 1, 2, 0]);
    get_field_control(&state, at(15, 7), &mut counts);
    assert_eq!(&counts[60..64], &[0, 1, 1, 0]);
    assert_eq!(counts.iter().sum::<usize>(), 7);
}
