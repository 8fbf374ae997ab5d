use socha_client_2023::game::{
    Board, Direct, Doubled, Field, Move, MoveError, ParseError, State, Team, Vec2,
};

const FIXTURE: &str = "00000000\n0000000R\n00000B00\n0B000000\n10R0R102\n00010000\n001000B0\n1R0100B0\n";

fn fixture_state() -> State {
    let board = FIXTURE.parse::<Board>().unwrap();
    State::new(board, 57, [10, 20], None, Team::One).unwrap()
}

fn at(x: i32, y: i32) -> Vec2<Doubled> {
    Vec2::<Doubled>::new(x, y)
}

fn total(state: &State) -> usize {
    let on_board: usize = state.board().fields().iter().map(|(_, f)| f.fish()).sum();
    on_board + state.fish(Team::One) + state.fish(Team::Two)
}

#[test]
fn test_display_roundtrip() {
    let mut board = Board::empty();
    board.set(Vec2::<Direct>::new(2, 2).doubled(), Field::with_fish(3));
    board.set(Vec2::<Direct>::new(1, 0).doubled(), Field::with_penguin(Team::One));
    board.set(Vec2::<Direct>::new(1, 1).doubled(), Field::with_penguin(Team::Two));

    assert_eq!(
        board.format(),
        "0R000000\n0B000000\n00300000\n00000000\n00000000\n00000000\n00000000\n00000000\n"
    );

    assert_eq!(board.format().parse::<Board>().unwrap(), board);
}

#[test]
fn test_possible_moves() {
    let board = FIXTURE.parse::<Board>().unwrap();
    let state = State::new(board, 57, [10, 20], None, Team::One).unwrap();
    assert_eq!(
        state.possible_moves(),
        vec![
            Move::between(Vec2::<Doubled>::new(8, 4), Vec2::<Doubled>::new(10, 4)),
            Move::between(Vec2::<Doubled>::new(8, 4), Vec2::<Doubled>::new(7, 5)),
            Move::between(Vec2::<Doubled>::new(3, 7), Vec2::<Doubled>::new(4, 6)),
            Move::between(Vec2::<Doubled>::new(3, 7), Vec2::<Doubled>::new(1, 7)),
        ]
    );
}

#[test]
fn team_basics() {
    assert_eq!(Team::One.opponent(), Team::Two);
    assert_eq!(Team::Two.opponent(), Team::One);
    assert_eq!(Team::One.index(), 0);
    assert_eq!(Team::Two.index(), 1);
    assert_eq!(Team::One.letter(), 'R');
    assert_eq!(Team::Two.letter(), 'B');
    assert_eq!(Team::with_letter('R'), Some(Team::One));
    assert_eq!(Team::with_letter('B'), Some(Team::Two));
    assert_eq!(Team::with_letter('x'), None);
    assert_eq!(Team::One.opponent_if(true), Team::Two);
    assert_eq!(Team::One.opponent_if(false), Team::One);
}

#[test]
fn coordinates_convert_both_ways() {
    for y in 0..8 {
        for x in 0..8 {
            let direct = Vec2::<Direct>::new(x, y);
            let doubled = direct.doubled();
            assert_eq!(doubled, at(2 * x + y % 2, y));
            assert_eq!(doubled.direct(), direct);
            assert!(Board::in_bounds(doubled));
            assert_eq!(Board::index_for(doubled), (y * 8 + x) as usize);
            assert_eq!(Board::coords_for((y * 8 + x) as usize), direct);
        }
    }
}

#[test]
fn in_bounds_rejects_negative_x_before_halving() {
    assert_eq!(at(-1, 0).direct(), Vec2::<Direct>::new(0, 0));
    assert!(!Board::in_bounds(at(-1, 0)));
    assert!(!Board::in_bounds(at(-1, 1)));
    assert!(!Board::in_bounds(at(-2, 0)));
    assert!(!Board::in_bounds(at(16, 0)));
    assert!(!Board::in_bounds(at(0, -1)));
    assert!(!Board::in_bounds(at(0, 8)));
    assert!(Board::in_bounds(at(15, 7)));
    assert!(Board::in_bounds(at(0, 0)));
}

#[test]
fn directions_and_neighbors() {
    let expected = [(1, -1), (2, 0), (1, 1), (-1, 1), (-2, 0), (-1, -1)];
    let neighbors = at(8, 4).hex_neighbors();
    for i in 0..6 {
        assert_eq!(Vec2::<Doubled>::direction(i), at(expected[i].0, expected[i].1));
        assert_eq!(neighbors[i], at(8 + expected[i].0, 4 + expected[i].1));
    }
    assert_eq!(at(8, 4).sliding(1, 3), at(14, 4));
    assert_eq!(at(8, 4).sliding(3, 2), at(6, 6));
}

#[test]
fn straight_displacements() {
    assert!(at(2, 0).straight());
    assert!(at(-6, 0).straight());
    assert!(at(3, 3).straight());
    assert!(at(-3, 3).straight());
    assert!(at(2, -2).straight());
    assert!(!at(0, 0).straight());
    assert!(!at(1, 0).straight());
    assert!(!at(3, 1).straight());
    assert!(!at(0, 2).straight());
    assert!(!at(i32::MIN, i32::MIN + 1).straight());
    assert!(at(i32::MIN, i32::MIN).straight());
}

#[test]
fn field_place_returns_the_catch() {
    let mut field = Field::with_fish(3);
    assert_eq!(field.fish(), 3);
    assert!(!field.is_occupied());
    assert!(!field.is_empty());
    assert_eq!(field.place(Team::Two), 3);
    assert_eq!(field.fish(), 0);
    assert_eq!(field.penguin(), Some(Team::Two));
    assert!(field.is_occupied());
    assert!(!field.is_empty());
    assert!(Field::empty().is_empty());
    assert_eq!(Field::default(), Field::empty());
    assert_eq!(Field::from(2usize), Field::with_fish(2));
    assert_eq!(Field::from(Team::One), Field::with_penguin(Team::One));
}

#[test]
fn field_text_forms() {
    assert_eq!(Field::with_fish(0).to_text(), "0");
    assert_eq!(Field::with_fish(7).to_text(), "7");
    assert_eq!(Field::with_fish(120).to_text(), "120");
    assert_eq!(Field::with_penguin(Team::One).to_text(), "R");
    assert_eq!(Field::with_penguin(Team::Two).to_text(), "B");
    assert_eq!(Field::from_char('4'), Ok(Field::with_fish(4)));
    assert_eq!(Field::from_char('B'), Ok(Field::with_penguin(Team::Two)));
    assert_eq!(Field::from_char('x'), Err(ParseError::InvalidField('x')));
    assert_eq!(Field::from_char(' '), Err(ParseError::InvalidField(' ')));
}

#[test]
fn move_constructors() {
    let slide = Move::between(at(8, 4), at(10, 4));
    assert_eq!(slide.from(), Some(at(8, 4)));
    assert_eq!(slide.to(), at(10, 4));
    assert_eq!(Move::sliding(at(8, 4), at(2, 0)), slide);
    assert_eq!(Move::new(Some(at(8, 4)), at(10, 4)), slide);
    let placement = Move::placing(at(3, 1));
    assert_eq!(placement.from(), None);
    assert_eq!(placement.to(), at(3, 1));
    assert_ne!(placement, Move::between(at(3, 1), at(3, 1)));
}

#[test]
fn board_get_and_set() {
    let mut board = Board::empty();
    assert_eq!(board.get(at(4, 2)), Some(Field::empty()));
    assert_eq!(board.get(at(-1, 2)), None);
    assert_eq!(board.get(at(4, 8)), None);
    board.set(at(4, 2), Field::with_fish(2));
    assert_eq!(board.get(at(4, 2)), Some(Field::with_fish(2)));
    assert_eq!(board.at(at(4, 2)), Field::with_fish(2));
    assert_eq!(board.nth(18), Field::with_fish(2));
    assert!(board.landable(at(4, 2)));
    assert!(!board.landable(at(6, 2)));
    assert!(!board.landable(at(-2, 2)));
    assert_eq!(Board::default(), Board::empty());
}

#[test]
fn board_fields_in_row_major_order() {
    let board = FIXTURE.parse::<Board>().unwrap();
    let fields = board.fields();
    assert_eq!(fields.len(), 64);
    assert_eq!(fields[0], (at(0, 0), Field::with_fish(0)));
    assert_eq!(fields[15], (at(15, 1), Field::with_penguin(Team::One)));
    assert_eq!(fields[32], (at(0, 4), Field::with_fish(1)));
    assert_eq!(fields[39], (at(14, 4), Field::with_fish(2)));
    let penguins = board.penguins();
    assert_eq!(
        penguins,
        vec![
            (at(15, 1), Team::One),
            (at(10, 2), Team::Two),
            (at(3, 3), Team::Two),
            (at(4, 4), Team::One),
            (at(8, 4), Team::One),
            (at(12, 6), Team::Two),
            (at(3, 7), Team::One),
            (at(13, 7), Team::Two),
        ]
    );
    assert_eq!(board.penguin_count(None), 8);
    assert_eq!(board.penguin_count(Some(Team::One)), 4);
}

#[test]
fn rays_stop_at_fields_without_fish() {
    let text = "11111111\n11111111\n11111111\n11101111\n1111R111\n11111111\n1111B111\n11111111\n";
    let board = text.parse::<Board>().unwrap();
    let moves = board.possible_moves_from(at(8, 4));
    let targets: Vec<(i32, i32)> = moves.iter().map(|m| (m.to().x, m.to().y)).collect();
    assert_eq!(
        targets,
        vec![
            (9, 3), (10, 2), (11, 1), (12, 0),
            (10, 4), (12, 4), (14, 4),
            (9, 5), (10, 6), (11, 7),
            (7, 5), (6, 6), (5, 7),
            (6, 4), (4, 4), (2, 4), (0, 4),
        ]
    );
    assert!(moves.iter().all(|m| m.from() == Some(at(8, 4))));
    assert!(!board.boxed_in(at(8, 4)));
    assert!(Board::empty().boxed_in(at(8, 4)));
}

#[test]
fn parse_rejects_malformed_text() {
    assert_eq!("".parse::<Board>(), Err(ParseError::WrongRowCount));
    assert_eq!("0000".parse::<Board>(), Err(ParseError::WrongFieldCount));
    assert_eq!("0000\n".parse::<Board>(), Err(ParseError::WrongFieldCount));
    let long = "0".repeat(65);
    assert_eq!(long.parse::<Board>(), Err(ParseError::WrongFieldCount));
    let flat = FIXTURE.replace('\n', "");
    assert_eq!(flat.parse::<Board>(), Err(ParseError::WrongFieldCount));
    let seven = "00000000\n".repeat(7);
    assert_eq!(seven.parse::<Board>(), Err(ParseError::WrongRowCount));
    let nine = "00000000\n".repeat(9);
    assert_eq!(nine.parse::<Board>(), Err(ParseError::WrongRowCount));
    let wide = format!("000000000\n{}", "00000000\n".repeat(7));
    assert_eq!(wide.parse::<Board>(), Err(ParseError::WrongFieldCount));
    let narrow = format!("0000000\n{}", "00000000\n".repeat(7));
    assert_eq!(narrow.parse::<Board>(), Err(ParseError::WrongFieldCount));
    let bad = FIXTURE.replace('2', "x");
    assert_eq!(bad.parse::<Board>(), Err(ParseError::InvalidField('x')));
    let early = format!("{}{}", "?", FIXTURE);
    assert_eq!(early.parse::<Board>(), Err(ParseError::InvalidField('?')));
    let late = format!("{}{}", FIXTURE, "?");
    assert_eq!(late.parse::<Board>(), Err(ParseError::InvalidField('?')));
    let lone = FIXTURE.replacen('\n', "\r", 1);
    assert_eq!(lone.parse::<Board>(), Err(ParseError::InvalidField('\r')));
    let trailing = format!("{}\r", FIXTURE);
    assert_eq!(trailing.parse::<Board>(), Err(ParseError::InvalidField('\r')));
}

#[test]
fn parse_takes_both_line_endings_and_skips_empty_lines() {
    let unix = FIXTURE.parse::<Board>().unwrap();
    let dos = FIXTURE.replace('\n', "\r\n").parse::<Board>().unwrap();
    let open_end = FIXTURE.trim_end().parse::<Board>().unwrap();
    let spaced = format!("\n\n{}", FIXTURE.replace('\n', "\n\n")).parse::<Board>().unwrap();
    assert_eq!(unix, dos);
    assert_eq!(unix, open_end);
    assert_eq!(unix, spaced);
    assert_eq!(Board::parse(FIXTURE), Ok(unix));
    assert_eq!(unix.format(), FIXTURE);
}

#[test]
fn format_of_many_fish_does_not_read_back() {
    let mut board = Board::empty();
    board.set(at(0, 0), Field::with_fish(12));
    assert!(board.format().starts_with("120000000\n"));
    assert_eq!(board.format().parse::<Board>(), Err(ParseError::WrongFieldCount));
}

#[test]
fn state_getters() {
    let state = fixture_state();
    assert_eq!(state.turn(), 57);
    assert_eq!(state.fish(Team::One), 10);
    assert_eq!(state.fish(Team::Two), 20);
    assert_eq!(state.last_move(), None);
    assert_eq!(state.start_team(), Team::One);
    assert_eq!(state.board().format(), FIXTURE);
}

#[test]
fn state_new_refuses_invalid_parts() {
    assert!(State::new(Board::empty(), 0, [0, 0], None, Team::One).is_ok());
    let crowded = format!("RRRRR000\n{}", "00000000\n".repeat(7)).parse::<Board>().unwrap();
    assert_eq!(
        State::new(crowded, 0, [0, 0], None, Team::One),
        Err(ParseError::TooManyPenguins)
    );
    let fishy = format!("10000000\n{}", "00000000\n".repeat(7)).parse::<Board>().unwrap();
    assert_eq!(
        State::new(fishy, 0, [usize::MAX, 0], None, Team::One),
        Err(ParseError::TooManyFish)
    );
    assert!(State::new(fishy, 0, [usize::MAX - 1, 0], None, Team::One).is_ok());
    assert_eq!(
        State::new(fishy, usize::MAX, [0, 0], None, Team::One),
        Err(ParseError::TurnTooLarge)
    );
    assert!(State::new(fishy, usize::MAX - 1, [0, 0], None, Team::One).is_ok());
}

#[test]
fn skip_if_immovable() {
    let state = fixture_state();
    assert_eq!(state.current_team_from_turn(), Team::Two);
    assert!(state.immovable(Some(Team::Two)));
    assert!(!state.immovable(Some(Team::One)));
    assert!(!state.immovable(None));
    assert_eq!(state.current_team(), Team::One);
    assert!(state.penguins_placed());
    assert!(!state.is_over());
    assert_eq!(state.winner(), None);
}

#[test]
fn immovable_is_false_before_full_placement() {
    let text = format!("R0000000\n{}", "00000000\n".repeat(7));
    let state = State::new(text.parse().unwrap(), 0, [0, 0], None, Team::One).unwrap();
    assert!(!state.immovable(Some(Team::One)));
    assert!(!state.immovable(None));
    assert_eq!(state.current_team(), Team::One);
    assert!(!state.penguins_placed());
}

#[test]
fn placement_gating() {
    let text = "12300000\n00000000\n00100000\n00000000\n000R0000\n00000000\n0000000B\n00000001\n";
    let state = State::new(text.parse().unwrap(), 2, [1, 1], None, Team::One).unwrap();
    assert_eq!(state.current_team(), Team::One);
    assert_eq!(
        state.possible_moves(),
        vec![Move::placing(at(0, 0)), Move::placing(at(4, 2)), Move::placing(at(15, 7))]
    );
    assert!(state.possible_moves().iter().all(|m| m.from().is_none()));
}

#[test]
fn draw_has_no_winner() {
    let text = "RRRR0000\n00000000\n00000000\n00000000\n00000000\n00000000\n00000000\nBBBB0000\n";
    let board: Board = text.parse().unwrap();
    let draw = State::new(board, 8, [7, 7], None, Team::One).unwrap();
    assert!(draw.is_over());
    assert_eq!(draw.winner(), None);
    let one = State::new(board, 8, [8, 7], None, Team::One).unwrap();
    assert_eq!(one.winner(), Some(Team::One));
    let two = State::new(board, 8, [7, 9], None, Team::One).unwrap();
    assert_eq!(two.winner(), Some(Team::Two));
    assert!(draw.possible_moves().is_empty());
}

#[test]
fn perform_and_undo_restore_the_state() {
    let state = fixture_state();
    for m in state.possible_moves() {
        let mut next = state;
        let team = next.current_team();
        let captured = next.perform(m).unwrap();
        assert_eq!(next.turn(), 58);
        assert_eq!(next.last_move(), Some(m));
        assert_eq!(total(&next), total(&state));
        assert_eq!(next.board().at(m.to()), Field::with_penguin(Team::One));
        assert_eq!(next.board().at(m.from().unwrap()), Field::empty());
        assert_eq!(Ok(next), state.child(m));
        next.undo_move(m, captured, team);
        assert_eq!(next, state);
    }
}

#[test]
fn perform_adds_the_catch_to_the_score() {
    let mut state = fixture_state();
    let captured = state.perform(Move::between(at(8, 4), at(10, 4))).unwrap();
    assert_eq!(captured.catch(), 1);
    assert_eq!(state.fish(Team::One), 11);
    assert_eq!(state.fish(Team::Two), 20);
    assert_eq!(
        state.board().format(),
        "00000000\n0000000R\n00000B00\n0B000000\n10R00R02\n00010000\n001000B0\n1R0100B0\n"
    );
}

#[test]
fn perform_refuses_illegal_moves() {
    let state = fixture_state();
    let refused = |m: Move| {
        let mut copy = state;
        let result = copy.perform(m);
        assert_eq!(copy, state);
        result.unwrap_err()
    };
    assert_eq!(refused(Move::between(at(8, 4), at(16, 4))), MoveError::OutOfBounds);
    assert_eq!(refused(Move::between(at(-2, 4), at(0, 4))), MoveError::OutOfBounds);
    assert_eq!(refused(Move::between(at(10, 2), at(12, 2))), MoveError::NotOwnPenguin);
    assert_eq!(refused(Move::between(at(0, 4), at(2, 4))), MoveError::NotOwnPenguin);
    assert_eq!(refused(Move::between(at(8, 4), at(7, 7))), MoveError::NotStraight);
    assert_eq!(refused(Move::between(at(8, 4), at(8, 4))), MoveError::NotStraight);
    assert_eq!(refused(Move::between(at(8, 4), at(14, 4))), MoveError::Blocked);
    assert_eq!(refused(Move::between(at(8, 4), at(6, 4))), MoveError::Blocked);
    assert_eq!(refused(Move::between(at(8, 4), at(4, 4))), MoveError::Blocked);
    assert_eq!(refused(Move::placing(at(0, 4))), MoveError::AlreadyPlaced);
    assert_eq!(refused(Move::placing(at(0, 8))), MoveError::AlreadyPlaced);
    assert_eq!(refused(Move::between(at(10, 2), at(16, 2))), MoveError::NotOwnPenguin);
    assert_eq!(refused(Move::between(at(0, 4), at(-2, 4))), MoveError::NotOwnPenguin);
    assert_eq!(refused(Move::between(at(8, 4), at(11, -1))), MoveError::NotStraight);
    assert_eq!(refused(Move::between(at(8, 4), at(8, 9))), MoveError::NotStraight);
    assert_eq!(refused(Move::between(at(8, 4), at(3, 9))), MoveError::OutOfBounds);
    assert_eq!(refused(Move::between(at(8, 4), at(i32::MIN, i32::MAX))), MoveError::NotStraight);

    let text = "12300000\n00000000\n00100000\n00000000\n000R0000\n00000000\n0000000B\n00000001\n";
    let placing = State::new(text.parse().unwrap(), 2, [1, 1], None, Team::One).unwrap();
    let mut copy = placing;
    assert_eq!(copy.perform(Move::placing(at(2, 0))), Err(MoveError::NotOneFish));
    assert_eq!(copy.perform(Move::placing(at(6, 0))), Err(MoveError::NotOneFish));
    assert_eq!(copy.perform(Move::between(at(7, 4), at(9, 4))), Err(MoveError::StillPlacing));
    assert_eq!(copy.perform(Move::between(at(7, 4), at(17, 4))), Err(MoveError::StillPlacing));
    assert_eq!(copy.perform(Move::between(at(7, 4), at(7, 9))), Err(MoveError::StillPlacing));
    assert_eq!(copy.perform(Move::between(at(15, 6), at(17, 6))), Err(MoveError::NotOwnPenguin));
    assert_eq!(copy.perform(Move::placing(at(0, 8))), Err(MoveError::OutOfBounds));
    assert_eq!(copy, placing);
    assert!(copy.perform(Move::placing(at(0, 0))).is_ok());
    assert_eq!(copy.fish(Team::One), 2);
    assert_eq!(copy.turn(), 3);
}

#[test]
fn fish_are_conserved_over_a_game() {
    let text = "11111111\n12321232\n11111111\n23212321\n11111111\n12321232\n11111111\n23212321\n";
    let mut state = State::new(text.parse().unwrap(), 0, [0, 0], None, Team::One).unwrap();
    let before = total(&state);
    let mut turns = 0;
    while !state.is_over() {
        let moves = state.possible_moves();
        assert!(!moves.is_empty());
        let m = moves[(turns * 7) % moves.len()];
        state.perform(m).unwrap();
        turns += 1;
        assert_eq!(state.turn(), turns);
        assert_eq!(total(&state), before);
        assert!(turns <= 64);
    }
    assert!(turns >= 8);
}

#[test]
fn state_from_parts() {
    let state = State::from_parts(FIXTURE, 57, &vec![10, 20], None, Team::One).unwrap();
    assert_eq!(state, fixture_state());
    let last = Some(Move::placing(at(13, 5)));
    let empty = "00000000\n".repeat(8);
    let built = State::from_parts(&empty, 1, &vec![1, 0], last, Team::One).unwrap();
    assert_eq!(built, State::new(Board::empty(), 1, [1, 0], last, Team::One).unwrap());
    assert_eq!(built.last_move(), last);
    assert_eq!(
        State::from_parts("000", 0, &vec![0, 0], None, Team::One),
        Err(ParseError::WrongFieldCount)
    );
    assert_eq!(
        State::from_parts(&FIXTURE.replace('1', "?"), 0, &vec![0], None, Team::One),
        Err(ParseError::InvalidField('?'))
    );
    assert_eq!(
        State::from_parts(FIXTURE, 0, &vec![0], None, Team::One),
        Err(ParseError::WrongTeamCount)
    );
    assert_eq!(
        State::from_parts(FIXTURE, 0, &vec![0, 1, 2], None, Team::One),
        Err(ParseError::WrongTeamCount)
    );
    assert_eq!(
        State::from_parts(&FIXTURE.replace('1', "R"), 0, &vec![0, 0], None, Team::One),
        Err(ParseError::TooManyPenguins)
    );
    assert_eq!(
        State::from_parts(FIXTURE, 0, &vec![usize::MAX, 0], None, Team::One),
        Err(ParseError::TooManyFish)
    );
    assert_eq!(
        State::from_parts(FIXTURE, usize::MAX - 3, &vec![0, 0], None, Team::One),
        Err(ParseError::TurnTooLarge)
    );
}
