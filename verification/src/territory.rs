//! How many slides each team needs to reach each field, and to which team
//! the fish on the board fall by that measure.

use crate::game::laws::{lemma_coords_of, lemma_slide_lands};
use crate::game::rules::{board_fish, coords_of, index_of, moves_from, BoardView};
use crate::game::{Board, Move, Team};
use vstd::prelude::*;

verus! {

/// The mark of a field that a team cannot reach.
pub const UNREACHED: u8 = 255;

/// Whether a penguin on the field `f` has a slide to the field `t`.
pub open spec fn slides_to(b: BoardView, f: int, t: int) -> bool {
    exists|j: int|
        0 <= j < moves_from(b, coords_of(f)).len() && index_of(
            #[trigger] moves_from(b, coords_of(f))[j].to,
        ) == t
}

/// Whether the field `t` belongs to the `k`-th wave of a team: the fields
/// that its penguins reach with `k` slides and not with fewer. The wave
/// zero is the fields on which its penguins stand.
pub open spec fn in_wave(b: BoardView, team: Team, k: nat, t: int) -> bool
    decreases k, 0nat,
{
    if k == 0 {
        b[t].penguin == Some(team)
    } else {
        !covered(b, team, (k - 1) as nat, t) && exists|f: int|
            0 <= f < 64 && in_wave(b, team, (k - 1) as nat, f) && #[trigger] slides_to(b, f, t)
    }
}

/// Whether the field `t` belongs to one of the waves from the first to the
/// `k`-th.
pub open spec fn covered(b: BoardView, team: Team, k: nat, t: int) -> bool
    decreases k, 1nat,
{
    k > 0 && (covered(b, team, (k - 1) as nat, t) || in_wave(b, team, k, t))
}

/// The steps of a team to the field `t` within `k` waves: one more than the
/// number of the wave to which the field belongs, or the mark of a field
/// that is not reached.
pub open spec fn steps_within(b: BoardView, team: Team, k: nat, t: int) -> int
    decreases k,
{
    if k == 0 {
        UNREACHED as int
    } else if in_wave(b, team, k, t) {
        k as int + 1
    } else {
        steps_within(b, team, (k - 1) as nat, t)
    }
}

/// The steps of a team to the field `t`.
pub open spec fn steps_to(b: BoardView, team: Team, t: int) -> int {
    steps_within(b, team, 64, t)
}

/// Whether one of the first `n` fields of a list has a slide to `t`.
pub open spec fn hit(b: BoardView, queue: Seq<usize>, n: int, t: int) -> bool {
    exists|j: int| 0 <= j < n && slides_to(b, #[trigger] queue[j] as int, t)
}

/// Whether one of the first `n` moves of a list lands on `t`.
pub open spec fn lands(moves: Seq<Move>, n: int, t: int) -> bool {
    exists|j: int| 0 <= j < n && index_of(#[trigger] moves[j].to) == t
}

/// Marks the fields to which a penguin on the field `f` slides and which no
/// earlier wave has covered: each is noted as visited, gets its steps, and
/// joins the next wave.
fn spread(
    board: &Board,
    f: usize,
    steps: u8,
    visited: &mut [bool; 64],
    reached: &mut [u8; 64],
    next: &mut Vec<usize>,
)
    requires
        f < 64,
        forall|j: int| 0 <= j < old(next)@.len() ==> (#[trigger] old(next)@[j]) < 64,
    ensures
        forall|j: int| 0 <= j < final(next)@.len() ==> (#[trigger] final(next)@[j]) < 64,
        forall|t: int|
            0 <= t < 64 ==> (#[trigger] final(visited)@[t] <==> old(visited)@[t] || slides_to(
                board@,
                f as int,
                t,
            )),
        forall|t: int|
            0 <= t < 64 ==> #[trigger] final(reached)@[t] == (if !old(visited)@[t] && slides_to(
                board@,
                f as int,
                t,
            ) {
                steps
            } else {
                old(reached)@[t]
            }),
        forall|t: usize|
            #[trigger] final(next)@.contains(t) <==> old(next)@.contains(t) || (t < 64 && !old(
                visited,
            )@[t as int] && slides_to(board@, f as int, t as int)),
{
    proof {
        lemma_coords_of(f as int);
    }
    let moves = board.possible_moves_from(Board::doubled_for(f));
    let mut i: usize = 0;
    while i < moves.len()
        invariant
            i <= moves@.len(),
            f < 64,
            moves@ == moves_from(board@, coords_of(f as int)),
            forall|j: int| 0 <= j < next@.len() ==> (#[trigger] next@[j]) < 64,
            forall|t: int|
                0 <= t < 64 ==> (#[trigger] visited@[t] <==> old(visited)@[t] || lands(
                    moves@,
                    i as int,
                    t,
                )),
            forall|t: int|
                0 <= t < 64 ==> #[trigger] reached@[t] == (if !old(visited)@[t] && lands(
                    moves@,
                    i as int,
                    t,
                ) {
                    steps
                } else {
                    old(reached)@[t]
                }),
            forall|t: usize|
                #[trigger] next@.contains(t) <==> old(next)@.contains(t) || (t < 64 && !old(
                    visited,
                )@[t as int] && lands(moves@, i as int, t as int)),
        decreases moves@.len() - i,
    {
        let m = moves[i];
        proof {
            assert(moves@.contains(m));
            lemma_coords_of(f as int);
            lemma_slide_lands(board@, coords_of(f as int), m);
        }
        let t = Board::index_for(m.to());
        let ghost before = next@;
        let ghost seen = visited@;
        let fresh = !visited[t];
        if fresh {
            visited[t] = true;
            reached[t] = steps;
            next.push(t);
        }
        proof {
            assert forall|u: int| 0 <= u < 64 implies (lands(moves@, i as int + 1, u) <==> lands(
                moves@,
                i as int,
                u,
            ) || u == t) by {
                if lands(moves@, i as int + 1, u) {
                    let j = choose|j: int|
                        0 <= j < i + 1 && index_of(#[trigger] moves@[j].to) == u;
                    if j < i {
                        assert(lands(moves@, i as int, u));
                    }
                }
                if lands(moves@, i as int, u) {
                    let j = choose|j: int| 0 <= j < i && index_of(#[trigger] moves@[j].to) == u;
                    assert(0 <= j < i + 1 && index_of(moves@[j].to) == u);
                }
                if u == t {
                    assert(index_of(moves@[i as int].to) == u);
                }
            }
            assert forall|u: usize| #[trigger]
                next@.contains(u) <==> old(next)@.contains(u) || (u < 64 && !old(
                    visited,
                )@[u as int] && lands(moves@, i as int + 1, u as int)) by {
                if fresh {
                    assert(next@ == before.push(t));
                    if next@.contains(u) {
                        let j = choose|j: int| 0 <= j < next@.len() && next@[j] == u;
                        if j < before.len() {
                            assert(before[j] == u);
                            assert(before.contains(u));
                        }
                    }
                    if before.contains(u) {
                        let j = choose|j: int| 0 <= j < before.len() && before[j] == u;
                        assert(next@[j] == u);
                    }
                    assert(next@[before.len() as int] == t);
                }
            }
        }
        i = i + 1;
    }
    proof {
        assert forall|t: int| 0 <= t < 64 implies (lands(moves@, moves@.len() as int, t)
            <==> slides_to(board@, f as int, t)) by {
            if lands(moves@, moves@.len() as int, t) {
                let j = choose|j: int|
                    0 <= j < moves@.len() && index_of(#[trigger] moves@[j].to) == t;
                assert(index_of(moves_from(board@, coords_of(f as int))[j].to) == t);
            }
            if slides_to(board@, f as int, t) {
                let j = choose|j: int|
                    0 <= j < moves_from(board@, coords_of(f as int)).len() && index_of(
                        #[trigger] moves_from(board@, coords_of(f as int))[j].to,
                    ) == t;
                assert(index_of(moves@[j].to) == t);
            }
        }
    }
}

/// Once a wave is empty, every later wave is empty too, and the steps stay
/// as they are.
pub proof fn lemma_waves_end(b: BoardView, team: Team, k: nat, later: nat)
    requires
        forall|f: int| 0 <= f < 64 ==> !#[trigger] in_wave(b, team, k, f),
        k <= later,
    ensures
        forall|t: int| 0 <= t < 64 ==> !#[trigger] in_wave(b, team, later, t),
        forall|t: int|
            0 <= t < 64 ==> #[trigger] steps_within(b, team, later, t) == steps_within(
                b,
                team,
                k,
                t,
            ),
    decreases later - k,
{
    if k < later {
        let before = (later - 1) as nat;
        lemma_waves_end(b, team, k, before);
        assert forall|t: int| 0 <= t < 64 implies !#[trigger] in_wave(b, team, later, t) by {
            if in_wave(b, team, later, t) {
                let f = choose|f: int|
                    0 <= f < 64 && in_wave(b, team, before, f) && #[trigger] slides_to(b, f, t);
                assert(!in_wave(b, team, before, f));
            }
        }
        assert forall|t: int| 0 <= t < 64 implies #[trigger] steps_within(b, team, later, t)
            == steps_within(b, team, k, t) by {
            assert(!in_wave(b, team, later, t));
            assert(steps_within(b, team, later, t) == steps_within(b, team, before, t));
        }
    }
}

/// The steps of a team to each field of the board: two for the fields to
/// which one of its penguins slides, three for those that take a second
/// slide from there, and so on; the mark of a field that is not reached
/// for all others.
pub fn steps_of(board: &Board, team: Team) -> (r: [u8; 64])
    ensures
        forall|t: int| 0 <= t < 64 ==> #[trigger] r@[t] == steps_to(board@, team, t),
{
    let ghost b = board@;
    let mut reached: [u8; 64] = [UNREACHED;64];
    let mut visited: [bool; 64] = [false;64];
    proof {
        board.lemma_size();
    }
    let mut c: usize = 0;
    while c < 64
        invariant
            c <= 64,
            forall|t: int| 0 <= t < c ==> #[trigger] reached@[t] == UNREACHED,
            forall|t: int| 0 <= t < c ==> !#[trigger] visited@[t],
        decreases 64 - c,
    {
        reached[c] = UNREACHED;
        visited[c] = false;
        c = c + 1;
    }
    let mut queue: Vec<usize> = Vec::new();
    let mut i: usize = 0;
    while i < 64
        invariant
            i <= 64,
            b == board@,
            forall|t: int| 0 <= t < 64 ==> #[trigger] reached@[t] == UNREACHED,
            forall|t: int| 0 <= t < 64 ==> !#[trigger] visited@[t],
            forall|j: int| 0 <= j < queue@.len() ==> (#[trigger] queue@[j]) < 64,
            forall|f: usize|
                #[trigger] queue@.contains(f) <==> f < i && b[f as int].penguin == Some(team),
        decreases 64 - i,
    {
        let ghost before = queue@;
        if board.nth(i).penguin() == Some(team) {
            queue.push(i);
            proof {
                assert forall|f: usize| #[trigger]
                    queue@.contains(f) <==> f < i + 1 && b[f as int].penguin == Some(team) by {
                    if queue@.contains(f) {
                        let j = choose|j: int| 0 <= j < queue@.len() && queue@[j] == f;
                        if j < before.len() {
                            assert(before[j] == f);
                            assert(before.contains(f));
                        }
                    }
                    if before.contains(f) {
                        let j = choose|j: int| 0 <= j < before.len() && before[j] == f;
                        assert(queue@[j] == f);
                    }
                    assert(queue@[before.len() as int] == i);
                }
            }
        }
        i = i + 1;
    }
    let mut round: u8 = 1;
    while queue.len() > 0 && round <= 64
        invariant
            1 <= round <= 65,
            b == board@,
            forall|j: int| 0 <= j < queue@.len() ==> (#[trigger] queue@[j]) < 64,
            forall|f: usize|
                #[trigger] queue@.contains(f) <==> f < 64 && in_wave(
                    b,
                    team,
                    (round - 1) as nat,
                    f as int,
                ),
            forall|t: int|
                0 <= t < 64 ==> (#[trigger] visited@[t] <==> covered(b, team, (round - 1) as nat, t)),
            forall|t: int|
                0 <= t < 64 ==> #[trigger] reached@[t] == steps_within(
                    b,
                    team,
                    (round - 1) as nat,
                    t,
                ),
        decreases 65 - round,
    {
        let ghost k = (round - 1) as nat;
        let mut next: Vec<usize> = Vec::new();
        let mut qi: usize = 0;
        while qi < queue.len()
            invariant
                qi <= queue@.len(),
                1 <= round <= 64,
                k == (round - 1) as nat,
                b == board@,
                forall|j: int| 0 <= j < queue@.len() ==> (#[trigger] queue@[j]) < 64,
                forall|j: int| 0 <= j < next@.len() ==> (#[trigger] next@[j]) < 64,
                forall|t: int|
                    0 <= t < 64 ==> (#[trigger] visited@[t] <==> covered(b, team, k, t) || hit(
                        b,
                        queue@,
                        qi as int,
                        t,
                    )),
                forall|t: int|
                    0 <= t < 64 ==> #[trigger] reached@[t] == (if !covered(b, team, k, t) && hit(
                        b,
                        queue@,
                        qi as int,
                        t,
                    ) {
                        round + 1
                    } else {
                        steps_within(b, team, k, t)
                    }),
                forall|t: usize|
                    #[trigger] next@.contains(t) <==> t < 64 && !covered(b, team, k, t as int)
                        && hit(b, queue@, qi as int, t as int),
            decreases queue@.len() - qi,
        {
            let ghost seen = visited@;
            let ghost marks = reached@;
            let ghost listed = next@;
            spread(board, queue[qi], round + 1, &mut visited, &mut reached, &mut next);
            proof {
                assert forall|t: int| 0 <= t < 64 implies (hit(b, queue@, qi as int + 1, t) <==> hit(
                    b,
                    queue@,
                    qi as int,
                    t,
                ) || slides_to(b, queue@[qi as int] as int, t)) by {
                    if hit(b, queue@, qi as int + 1, t) {
                        let j = choose|j: int|
                            0 <= j < qi + 1 && slides_to(b, #[trigger] queue@[j] as int, t);
                        if j < qi {
                            assert(hit(b, queue@, qi as int, t));
                        }
                    }
                    if hit(b, queue@, qi as int, t) {
                        let j = choose|j: int|
                            0 <= j < qi && slides_to(b, #[trigger] queue@[j] as int, t);
                        assert(0 <= j < qi + 1 && slides_to(b, queue@[j] as int, t));
                    }
                }
                assert forall|t: usize| #[trigger]
                    next@.contains(t) <==> t < 64 && !covered(b, team, k, t as int) && hit(
                        b,
                        queue@,
                        qi as int + 1,
                        t as int,
                    ) by {
                    if t < 64 {
                        assert(seen[t as int] <==> covered(b, team, k, t as int) || hit(
                            b,
                            queue@,
                            qi as int,
                            t as int,
                        ));
                    }
                    assert(listed.contains(t) <==> t < 64 && !covered(b, team, k, t as int)
                        && hit(b, queue@, qi as int, t as int));
                }
                assert forall|t: int| 0 <= t < 64 implies #[trigger] reached@[t] == (if !covered(
                    b,
                    team,
                    k,
                    t,
                ) && hit(b, queue@, qi as int + 1, t) {
                    round + 1
                } else {
                    steps_within(b, team, k, t)
                }) by {
                    assert(seen[t] <==> covered(b, team, k, t) || hit(b, queue@, qi as int, t));
                    assert(marks[t] == (if !covered(b, team, k, t) && hit(
                        b,
                        queue@,
                        qi as int,
                        t,
                    ) {
                        round + 1
                    } else {
                        steps_within(b, team, k, t)
                    }));
                }
            }
            qi = qi + 1;
        }
        proof {
            assert forall|t: int| 0 <= t < 64 implies (hit(b, queue@, queue@.len() as int, t)
                <==> exists|f: int|
                0 <= f < 64 && in_wave(b, team, k, f) && #[trigger] slides_to(b, f, t)) by {
                if hit(b, queue@, queue@.len() as int, t) {
                    let j = choose|j: int|
                        0 <= j < queue@.len() && slides_to(b, #[trigger] queue@[j] as int, t);
                    assert(queue@.contains(queue@[j]));
                    assert(in_wave(b, team, k, queue@[j] as int) && slides_to(
                        b,
                        queue@[j] as int,
                        t,
                    ));
                }
                if exists|f: int|
                    0 <= f < 64 && in_wave(b, team, k, f) && #[trigger] slides_to(b, f, t) {
                    let f = choose|f: int|
                        0 <= f < 64 && in_wave(b, team, k, f) && #[trigger] slides_to(b, f, t);
                    assert(queue@.contains(f as usize));
                    let j = choose|j: int| 0 <= j < queue@.len() && queue@[j] == f as usize;
                    assert(slides_to(b, queue@[j] as int, t));
                }
            }
            assert forall|t: int| 0 <= t < 64 implies (in_wave(b, team, k + 1, t) <==> !covered(
                b,
                team,
                k,
                t,
            ) && hit(b, queue@, queue@.len() as int, t)) by {}
            assert forall|t: int| 0 <= t < 64 implies #[trigger] reached@[t] == steps_within(
                b,
                team,
                k + 1,
                t,
            ) by {}
            assert forall|t: int| 0 <= t < 64 implies (#[trigger] visited@[t] <==> covered(
                b,
                team,
                k + 1,
                t,
            )) by {
                assert(in_wave(b, team, k + 1, t) <==> !covered(b, team, k, t) && hit(
                    b,
                    queue@,
                    queue@.len() as int,
                    t,
                ));
            }
        }
        queue = next;
        round = round + 1;
    }
    proof {
        if round <= 64 {
            let k = (round - 1) as nat;
            assert forall|f: int| 0 <= f < 64 implies !#[trigger] in_wave(b, team, k, f) by {
                if in_wave(b, team, k, f) {
                    assert(queue@.contains(f as usize));
                }
            }
            lemma_waves_end(b, team, k, 64);
        }
    }
    reached
}

/// The fish on the first `n` fields that fall to the team `us`, less those
/// that fall to its opponent. The fish of a field fall to the team that
/// needs fewer steps to it, and to neither where both need as many.
pub open spec fn claim(b: BoardView, us: Team, n: int) -> int
    decreases n,
{
    if n <= 0 {
        0
    } else {
        let ours = steps_to(b, us, n - 1);
        let theirs = steps_to(b, us.spec_opponent(), n - 1);
        claim(b, us, n - 1) + (if ours < theirs {
            b[n - 1].fish as int
        } else if ours > theirs {
            -(b[n - 1].fish as int)
        } else {
            0
        })
    }
}

/// The claim of a team is no more than the fish on the board, to either side.
pub proof fn lemma_claim_bound(b: BoardView, us: Team, n: int)
    requires
        0 <= n,
    ensures
        -board_fish(b, n) <= claim(b, us, n) <= board_fish(b, n),
    decreases n,
{
    if n > 0 {
        lemma_claim_bound(b, us, n - 1);
    }
}

/// The fish on the board that fall to the team `us`, less those that fall
/// to its opponent.
pub fn claim_of(board: &Board, us: Team) -> (r: i128)
    ensures
        r == claim(board@, us, 64),
{
    let ours = steps_of(board, us);
    let theirs = steps_of(board, us.opponent());
    let mut net: i128 = 0;
    let mut i: usize = 0;
    while i < 64
        invariant
            i <= 64,
            net == claim(board@, us, i as int),
            -(i * usize::MAX) <= net <= i * usize::MAX,
            forall|t: int| 0 <= t < 64 ==> #[trigger] ours@[t] == steps_to(board@, us, t),
            forall|t: int|
                0 <= t < 64 ==> #[trigger] theirs@[t] == steps_to(board@, us.spec_opponent(), t),
        decreases 64 - i,
    {
        let field = board.nth(i);
        proof {
            field.lemma_fish_bounded();
            board.lemma_size();
            assert(ours@[i as int] == steps_to(board@, us, i as int));
            assert(theirs@[i as int] == steps_to(board@, us.spec_opponent(), i as int));
        }
        if ours[i] < theirs[i] {
            net = net + field.fish() as i128;
        } else if ours[i] > theirs[i] {
            net = net - field.fish() as i128;
        }
        i = i + 1;
    }
    net
}

} // verus!
