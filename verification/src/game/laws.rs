//! What holds of the rules: facts about boards and rays, and the laws that
//! relate the moves of a state to its successor states.

use super::field::FieldView;
use super::moves::Move;
use super::rules::{
    board_fish, coords_of, fishy_fields, in_bounds, index_of, landable, moves_from, penguin_count,
    placements, ray, run_length, selected, slides, BoardView, StateView,
};
use super::team::Team;
use super::vec2::{direction_delta, steps_delta, straight_delta, Doubled, Vec2};
use vstd::prelude::*;

verus! {

/// The point of a field lies on the board and leads back to the field's index.
pub proof fn lemma_coords_of(k: int)
    requires
        0 <= k < 64,
    ensures
        in_bounds(coords_of(k)),
        index_of(coords_of(k)) == k,
        coords_of(k).roomy(),
{
}

/// A point on the board has an index below 64 and room around it.
pub proof fn lemma_in_bounds(p: Vec2<Doubled>)
    requires
        in_bounds(p),
    ensures
        0 <= index_of(p) < 64,
        p.roomy(),
{
}

/// A step of at most seven fields from a point with room moves by exactly
/// the displacement of the steps.
pub proof fn lemma_sliding(from: Vec2<Doubled>, i: int, n: int)
    requires
        from.roomy(),
        0 <= i < 6,
        0 <= n <= 7,
    ensures
        from.spec_sliding(i, n).x == from.x + steps_delta(i, n).0,
        from.spec_sliding(i, n).y == from.y + steps_delta(i, n).1,
        -14 <= steps_delta(i, n).0 <= 14,
        -7 <= steps_delta(i, n).1 <= 7,
{
    let d = direction_delta(i);
    assert(-14 <= n * d.0 <= 14 && -7 <= n * d.1 <= 7) by (nonlinear_arith)
        requires
            0 <= n <= 7,
            -2 <= d.0 <= 2,
            -1 <= d.1 <= 1,
    ;
}

/// Replacing one field changes the fish on the board by the difference of
/// the two fields.
pub proof fn lemma_board_fish_update(b: BoardView, i: int, f: FieldView, n: int)
    requires
        0 <= i < b.len(),
        0 <= n <= b.len(),
    ensures
        board_fish(b.update(i, f), n) + (if i < n {
            b[i].fish
        } else {
            0
        }) == board_fish(b, n) + (if i < n {
            f.fish
        } else {
            0
        }),
    decreases n,
{
    if n > 0 {
        lemma_board_fish_update(b, i, f, n - 1);
    }
}

/// Replacing one field changes the number of fields with fish by at most one.
pub proof fn lemma_fishy_fields_update(b: BoardView, i: int, f: FieldView, n: int)
    requires
        0 <= i < b.len(),
        0 <= n <= b.len(),
    ensures
        fishy_fields(b.update(i, f), n) + (if i < n && b[i].fish > 0 {
            1nat
        } else {
            0nat
        }) == fishy_fields(b, n) + (if i < n && f.fish > 0 {
            1nat
        } else {
            0nat
        }),
    decreases n,
{
    if n > 0 {
        lemma_fishy_fields_update(b, i, f, n - 1);
    }
}

/// Replacing one field changes the number of selected penguins by at most one.
pub proof fn lemma_penguin_count_update(
    b: BoardView,
    filter: Option<Team>,
    i: int,
    f: FieldView,
    n: int,
)
    requires
        0 <= i < b.len(),
        0 <= n <= b.len(),
    ensures
        penguin_count(b.update(i, f), filter, n) + (if i < n && selected(filter, b[i]) {
            1nat
        } else {
            0nat
        }) == penguin_count(b, filter, n) + (if i < n && selected(filter, f) {
            1nat
        } else {
            0nat
        }),
    decreases n,
{
    if n > 0 {
        lemma_penguin_count_update(b, filter, i, f, n - 1);
    }
}

/// The first fields hold no more fish than the first and some more.
pub proof fn lemma_board_fish_grows(b: BoardView, i: int, n: int)
    requires
        0 <= i <= n,
    ensures
        board_fish(b, i) <= board_fish(b, n),
    decreases n - i,
{
    if i < n {
        lemma_board_fish_grows(b, i, n - 1);
    }
}

/// A single field holds no more fish than the whole board, and a field with
/// fish counts among the fields with fish.
pub proof fn lemma_field_within_totals(b: BoardView, i: int, n: int)
    requires
        0 <= i < n <= b.len(),
    ensures
        b[i].fish <= board_fish(b, n),
        b[i].fish > 0 ==> fishy_fields(b, n) >= 1,
    decreases n,
{
    if i < n - 1 {
        lemma_field_within_totals(b, i, n - 1);
    }
}

/// A run of landable points is at most as long as the steps that remain.
pub proof fn lemma_run_length_bound(b: BoardView, from: Vec2<Doubled>, i: int, n: int)
    requires
        1 <= n <= 8,
    ensures
        run_length(b, from, i, n) <= 8 - n,
    decreases 8 - n,
{
    if n <= 7 && landable(b, from.spec_sliding(i, n)) {
        lemma_run_length_bound(b, from, i, n + 1);
    }
}

/// Every point within a run is landable.
pub proof fn lemma_run_landable(b: BoardView, from: Vec2<Doubled>, i: int, n: int, k: int)
    requires
        1 <= n <= 8,
        n <= k < n + run_length(b, from, i, n),
    ensures
        landable(b, from.spec_sliding(i, k)),
    decreases 8 - n,
{
    if k > n {
        lemma_run_landable(b, from, i, n + 1, k);
    }
}

/// A run ends before the first point that is not landable.
pub proof fn lemma_run_stops(b: BoardView, from: Vec2<Doubled>, i: int, n: int, k: int)
    requires
        1 <= n <= k <= 7,
        !landable(b, from.spec_sliding(i, k)),
    ensures
        run_length(b, from, i, n) <= k - n,
    decreases 8 - n,
{
    if n < k && landable(b, from.spec_sliding(i, n)) {
        lemma_run_stops(b, from, i, n + 1, k);
    }
}

/// The slides from a point are exactly the slides to the points of its six
/// runs: each leaves the point in a straight line and lands on a field with
/// fish.
pub proof fn lemma_moves_from(b: BoardView, from: Vec2<Doubled>, m: Move)
    ensures
        moves_from(b, from).contains(m) <==> exists|i: int, n: int|
            0 <= i < 6 && 1 <= n <= run_length(b, from, i, 1) && m == Move::slide(
                from,
                #[trigger] from.spec_sliding(i, n),
            ),
{
    reveal(moves_from);
    let all = moves_from(b, from);
    let found = exists|i: int, n: int|
        0 <= i < 6 && 1 <= n <= run_length(b, from, i, 1) && m == Move::slide(
            from,
            #[trigger] from.spec_sliding(i, n),
        );
    let r0 = ray(b, from, 0);
    let r1 = ray(b, from, 1);
    let r2 = ray(b, from, 2);
    let r3 = ray(b, from, 3);
    let r4 = ray(b, from, 4);
    let r5 = ray(b, from, 5);
    if all.contains(m) {
        let j = choose|j: int| 0 <= j < all.len() && all[j] == m;
        if j < r0.len() {
            assert(m == Move::slide(from, from.spec_sliding(0, j + 1)));
        } else if j < r0.len() + r1.len() {
            assert(m == Move::slide(from, from.spec_sliding(1, j - r0.len() + 1)));
        } else if j < r0.len() + r1.len() + r2.len() {
            assert(m == Move::slide(from, from.spec_sliding(2, j - r0.len() - r1.len() + 1)));
        } else if j < r0.len() + r1.len() + r2.len() + r3.len() {
            assert(m == Move::slide(
                from,
                from.spec_sliding(3, j - r0.len() - r1.len() - r2.len() + 1),
            ));
        } else if j < r0.len() + r1.len() + r2.len() + r3.len() + r4.len() {
            assert(m == Move::slide(
                from,
                from.spec_sliding(4, j - r0.len() - r1.len() - r2.len() - r3.len() + 1),
            ));
        } else {
            assert(m == Move::slide(
                from,
                from.spec_sliding(
                    5,
                    j - r0.len() - r1.len() - r2.len() - r3.len() - r4.len() + 1,
                ),
            ));
        }
        assert(found);
    }
    if found {
        let (i, n) = choose|i: int, n: int|
            0 <= i < 6 && 1 <= n <= run_length(b, from, i, 1) && m == Move::slide(
                from,
                #[trigger] from.spec_sliding(i, n),
            );
        assert(ray(b, from, i)[n - 1] == m);
        let offset = if i == 0 {
            0
        } else if i == 1 {
            r0.len()
        } else if i == 2 {
            r0.len() + r1.len()
        } else if i == 3 {
            r0.len() + r1.len() + r2.len()
        } else if i == 4 {
            r0.len() + r1.len() + r2.len() + r3.len()
        } else {
            r0.len() + r1.len() + r2.len() + r3.len() + r4.len()
        };
        assert(all[offset + n - 1] == m);
    }
}

/// A slide from a point on the board, found among the slides from it, lands
/// on the board on a field with fish, in a straight line.
pub proof fn lemma_slide_lands(b: BoardView, from: Vec2<Doubled>, m: Move)
    requires
        from.roomy(),
        moves_from(b, from).contains(m),
    ensures
        m.from == Some(from),
        landable(b, m.to),
        in_bounds(m.to),
        straight_delta(m.to.x - from.x, m.to.y - from.y),
{
    lemma_moves_from(b, from, m);
    let (i, n) = choose|i: int, n: int|
        0 <= i < 6 && 1 <= n <= run_length(b, from, i, 1) && m == Move::slide(
            from,
            #[trigger] from.spec_sliding(i, n),
        );
    lemma_run_length_bound(b, from, i, 1);
    lemma_run_landable(b, from, i, 1, n);
    lemma_sliding(from, i, n);
    assert(steps_delta(i, n) == (m.to.x - from.x, m.to.y - from.y));
}

/// An element of a concatenation is an element of one of its parts.
pub proof fn lemma_concat_contains<A>(a: Seq<A>, b: Seq<A>, x: A)
    ensures
        (a + b).contains(x) <==> a.contains(x) || b.contains(x),
{
    if (a + b).contains(x) {
        let j = choose|j: int| 0 <= j < (a + b).len() && (a + b)[j] == x;
        if j < a.len() {
            assert(a[j] == x);
        } else {
            assert(b[j - a.len()] == x);
        }
    }
    if a.contains(x) {
        let j = choose|j: int| 0 <= j < a.len() && a[j] == x;
        assert((a + b)[j] == x);
    }
    if b.contains(x) {
        let j = choose|j: int| 0 <= j < b.len() && b[j] == x;
        assert((a + b)[a.len() + j] == x);
    }
}

/// The placements among the first `n` fields are exactly the placements on
/// the fields with one fish.
pub proof fn lemma_placements(b: BoardView, n: int, m: Move)
    requires
        0 <= n,
    ensures
        placements(b, n).contains(m) <==> exists|k: int|
            0 <= k < n && (#[trigger] b[k]).fish == 1 && m == Move::put(coords_of(k)),
    decreases n,
{
    let found = |n: int|
        exists|k: int| 0 <= k < n && (#[trigger] b[k]).fish == 1 && m == Move::put(coords_of(k));
    if n > 0 {
        lemma_placements(b, n - 1, m);
        let prev = placements(b, n - 1);
        if b[n - 1].fish == 1 {
            let last = Move::put(coords_of(n - 1));
            if placements(b, n).contains(m) {
                let j = choose|j: int| 0 <= j < placements(b, n).len() && placements(b, n)[j] == m;
                if j < prev.len() {
                    assert(prev[j] == m);
                    assert(found(n - 1));
                    let k = choose|k: int|
                        0 <= k < n - 1 && (#[trigger] b[k]).fish == 1 && m == Move::put(
                            coords_of(k),
                        );
                    assert(b[k].fish == 1);
                } else {
                    assert(b[n - 1].fish == 1 && m == last);
                }
                assert(found(n));
            }
            if found(n) {
                let k = choose|k: int|
                    0 <= k < n && (#[trigger] b[k]).fish == 1 && m == Move::put(coords_of(k));
                if k < n - 1 {
                    assert(b[k].fish == 1);
                    assert(found(n - 1));
                    let j = choose|j: int| 0 <= j < prev.len() && prev[j] == m;
                    assert(placements(b, n)[j] == m);
                } else {
                    assert(placements(b, n)[prev.len() as int] == m);
                }
            }
        } else {
            if found(n) {
                let k = choose|k: int|
                    0 <= k < n && (#[trigger] b[k]).fish == 1 && m == Move::put(coords_of(k));
                assert(k < n - 1);
                assert(b[k].fish == 1);
                assert(found(n - 1));
            }
            if found(n - 1) {
                let k = choose|k: int|
                    0 <= k < n - 1 && (#[trigger] b[k]).fish == 1 && m == Move::put(coords_of(k));
                assert(b[k].fish == 1);
                assert(found(n));
            }
        }
    }
}

/// The slides of a team among the first `n` fields are exactly the slides
/// from the fields on which its penguins stand.
pub proof fn lemma_slides(b: BoardView, team: Team, n: int, m: Move)
    requires
        0 <= n,
    ensures
        slides(b, team, n).contains(m) <==> exists|k: int|
            0 <= k < n && (#[trigger] b[k]).penguin == Some(team) && moves_from(
                b,
                coords_of(k),
            ).contains(m),
    decreases n,
{
    let found = |n: int|
        exists|k: int|
            0 <= k < n && (#[trigger] b[k]).penguin == Some(team) && moves_from(
                b,
                coords_of(k),
            ).contains(m);
    if n > 0 {
        lemma_slides(b, team, n - 1, m);
        let prev = slides(b, team, n - 1);
        let here = moves_from(b, coords_of(n - 1));
        if b[n - 1].penguin == Some(team) {
            lemma_concat_contains(prev, here, m);
        }
        if found(n) {
            let k = choose|k: int|
                0 <= k < n && (#[trigger] b[k]).penguin == Some(team) && moves_from(
                    b,
                    coords_of(k),
                ).contains(m);
            if k < n - 1 {
                assert(b[k].penguin == Some(team));
                assert(found(n - 1));
            }
        }
        if found(n - 1) {
            let k = choose|k: int|
                0 <= k < n - 1 && (#[trigger] b[k]).penguin == Some(team) && moves_from(
                    b,
                    coords_of(k),
                ).contains(m);
            assert(b[k].penguin == Some(team));
            assert(found(n));
        }
        if b[n - 1].penguin == Some(team) && here.contains(m) {
            assert(found(n));
        }
    }
}

/// While the current team has penguins left to place, its moves are exactly
/// the placements on the fields with one fish, and none of them is a slide.
pub proof fn lemma_placement_gating(s: StateView, m: Move)
    requires
        !s.placed(),
    ensures
        s.possible_moves().contains(m) <==> m.from is None && exists|k: int|
            0 <= k < 64 && (#[trigger] s.board[k]).fish == 1 && m.to == coords_of(k),
{
    lemma_placements(s.board, 64, m);
    if s.possible_moves().contains(m) {
        let k = choose|k: int|
            0 <= k < 64 && (#[trigger] s.board[k]).fish == 1 && m == Move::put(coords_of(k));
        assert(s.board[k].fish == 1 && m.to == coords_of(k));
    }
    if m.from is None && exists|k: int|
        0 <= k < 64 && (#[trigger] s.board[k]).fish == 1 && m.to == coords_of(k) {
        let k = choose|k: int|
            0 <= k < 64 && (#[trigger] s.board[k]).fish == 1 && m.to == coords_of(k);
        assert(s.board[k].fish == 1 && m == Move::put(coords_of(k)));
    }
}

/// Once the current team has placed its penguins, each of its moves is a
/// slide of one of its penguins.
pub proof fn lemma_slides_only(s: StateView, m: Move)
    requires
        s.placed(),
        s.possible_moves().contains(m),
    ensures
        m.from is Some,
        in_bounds(m.from->0),
        s.board[index_of(m.from->0)].penguin == Some(s.current_team()),
        moves_from(s.board, m.from->0).contains(m),
{
    lemma_slides(s.board, s.current_team(), 64, m);
    let k = choose|k: int|
        0 <= k < 64 && (#[trigger] s.board[k]).penguin == Some(s.current_team()) && moves_from(
            s.board,
            coords_of(k),
        ).contains(m);
    lemma_coords_of(k);
    lemma_slide_lands(s.board, coords_of(k), m);
}

/// Every move that a state offers is legal in it.
pub proof fn lemma_possible_moves_legal(s: StateView, m: Move)
    requires
        s.possible_moves().contains(m),
    ensures
        s.legal(m),
{
    if s.placed() {
        lemma_slides_only(s, m);
        lemma_in_bounds(m.from->0);
        lemma_slide_lands(s.board, m.from->0, m);
    } else {
        lemma_placements(s.board, 64, m);
        let k = choose|k: int|
            0 <= k < 64 && (#[trigger] s.board[k]).fish == 1 && m == Move::put(coords_of(k));
        lemma_coords_of(k);
    }
}

/// A legal move lands on a field of the board that has fish and no penguin,
/// and a slide starts on another field, which has no fish.
pub proof fn lemma_legal_target(s: StateView, m: Move)
    requires
        s.wf(),
        s.legal(m),
    ensures
        0 <= index_of(m.to) < 64,
        s.board[index_of(m.to)].fish > 0,
        s.board[index_of(m.to)].penguin is None,
        m.from is Some ==> 0 <= index_of(m.from->0) < 64 && index_of(m.from->0) != index_of(m.to)
            && s.board[index_of(m.from->0)].fish == 0,
        s.vacated_board(m)[index_of(m.to)] == s.board[index_of(m.to)],
{
    lemma_in_bounds(m.to);
    assert(s.board[index_of(m.to)].wf());
    if m.from is Some {
        let from = m.from->0;
        lemma_in_bounds(from);
        lemma_slide_lands(s.board, from, m);
        assert(s.board[index_of(from)].wf());
    }
}

/// A legal move leaves a valid state, with the same fish in all, one turn
/// later and with one field with fish fewer.
pub proof fn lemma_perform(s: StateView, m: Move)
    requires
        s.wf(),
        s.legal(m),
    ensures
        s.perform(m).wf(),
        s.perform(m).total_fish() == s.total_fish(),
        s.perform(m).turn == s.turn + 1,
        fishy_fields(s.perform(m).board, 64) + 1 == fishy_fields(s.board, 64),
{
    lemma_legal_target(s, m);
    let team = s.current_team();
    let to = index_of(m.to);
    let b0 = s.board;
    let b1 = s.vacated_board(m);
    let b2 = s.perform(m).board;
    let put = FieldView::placed(team);
    assert forall|k: int| 0 <= k < 64 implies (#[trigger] b2[k]).wf() by {
        assert(b0[k].wf());
    }
    if m.from is Some {
        let from = index_of(m.from->0);
        lemma_board_fish_update(b0, from, FieldView::empty(), 64);
        lemma_fishy_fields_update(b0, from, FieldView::empty(), 64);
        lemma_penguin_count_update(b0, Some(Team::One), from, FieldView::empty(), 64);
        lemma_penguin_count_update(b0, Some(Team::Two), from, FieldView::empty(), 64);
    }
    lemma_board_fish_update(b1, to, put, 64);
    lemma_fishy_fields_update(b1, to, put, 64);
    lemma_penguin_count_update(b1, Some(Team::One), to, put, 64);
    lemma_penguin_count_update(b1, Some(Team::Two), to, put, 64);
}

/// Taking a legal move back with what was recorded of it restores the state
/// exactly: board, turn, fish and last move.
pub proof fn lemma_undo_perform(s: StateView, m: Move)
    requires
        s.wf(),
        s.legal(m),
    ensures
        s.perform(m).can_undo(m, s.captured(m), s.current_team()),
        s.perform(m).undo(m, s.captured(m), s.current_team()) == s,
{
    lemma_legal_target(s, m);
    let team = s.current_team();
    let back = s.perform(m).undo(m, s.captured(m), team);
    assert(back.board =~= s.board);
    assert(back.fish =~= s.fish);
}

/// The state after a sequence of moves, each made by the team then current.
pub open spec fn play(s: StateView, moves: Seq<Move>) -> StateView
    decreases moves.len(),
{
    if moves.len() == 0 {
        s
    } else {
        play(s.perform(moves[0]), moves.drop_first())
    }
}

/// Whether each move of the sequence is legal in the state in which it is made.
pub open spec fn playable(s: StateView, moves: Seq<Move>) -> bool
    decreases moves.len(),
{
    moves.len() == 0 || (s.legal(moves[0]) && playable(s.perform(moves[0]), moves.drop_first()))
}

/// Fish are conserved: over any sequence of legal moves the fish that the
/// teams have caught and the fish on the board add up to the same number, and
/// the turn advances by one for each move.
pub proof fn lemma_conservation(s: StateView, moves: Seq<Move>)
    requires
        s.wf(),
        playable(s, moves),
    ensures
        play(s, moves).wf(),
        play(s, moves).total_fish() == s.total_fish(),
        play(s, moves).turn == s.turn + moves.len(),
    decreases moves.len(),
{
    if moves.len() > 0 {
        lemma_perform(s, moves[0]);
        lemma_conservation(s.perform(moves[0]), moves.drop_first());
    }
}

/// A game that is over with equal scores has no winner.
pub proof fn lemma_draw(s: StateView)
    requires
        s.is_over(),
        s.fish[0] == s.fish[1],
    ensures
        s.winner() is None,
{
}

/// A point has at most 42 slides, seven along each direction.
pub proof fn lemma_moves_from_bound(b: BoardView, from: Vec2<Doubled>)
    ensures
        moves_from(b, from).len() <= 42,
{
    reveal(moves_from);
    lemma_run_length_bound(b, from, 0, 1);
    lemma_run_length_bound(b, from, 1, 1);
    lemma_run_length_bound(b, from, 2, 1);
    lemma_run_length_bound(b, from, 3, 1);
    lemma_run_length_bound(b, from, 4, 1);
    lemma_run_length_bound(b, from, 5, 1);
}

/// The first `n` fields offer at most `n` placements and at most 42 slides
/// each.
pub proof fn lemma_moves_bound(b: BoardView, team: Team, n: int)
    requires
        0 <= n,
    ensures
        placements(b, n).len() <= n,
        slides(b, team, n).len() <= 42 * n,
    decreases n,
{
    if n > 0 {
        lemma_moves_bound(b, team, n - 1);
        lemma_moves_from_bound(b, coords_of(n - 1));
    }
}

/// A state offers at most 2688 moves.
pub proof fn lemma_possible_moves_bound(s: StateView)
    ensures
        s.possible_moves().len() <= 2688,
{
    lemma_moves_bound(s.board, s.current_team(), 64);
}

} // verus!
