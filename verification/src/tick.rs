//! The per-tick state transition: intent application and movement,
//! simultaneous-collision resolution, death and respawn, and food
//! replenishment.
//!
//! The whole deterministic part of a tick is specified as pure functions
//! of the pre-tick state (`proposed_head`, `eats_pre`, `killed_in_tick`),
//! so the contract of `State::tick` pins down, for every player, whether
//! it moved, grew or died, and what its snake looks like afterwards.
//! Phase 1 computes every proposed head against the pre-tick snapshot
//! before phase 2 commits any cell, which keeps head-to-head collisions
//! order-independent.

use vstd::prelude::*;
use crate::rng::{notify_send, random_direction};
use crate::state::{food_find, lemma_claimed_bounded, lemma_occ_contains_iff_maps,
    lemma_occ_without, lemma_saturated, min2, occ_contains, occ_find, occ_keys_unique, occ_maps,
    PlayerData, State};
use crate::types::{Config, Direction, PlayerId, Point, Score};

verus! {

/// The direction a player moves this tick: the pending intent when one
/// exists, otherwise the current facing direction.
pub open spec fn applied_direction(p: PlayerData) -> Direction {
    match p.last_move {
        Some(d) => d,
        None => p.snake.direction,
    }
}

/// The head cell a player proposes this tick.
pub open spec fn proposed_head(p: PlayerData) -> Point {
    p.snake.head().spec_step(applied_direction(p))
}

/// The food cells still present after the first `k` players moved:
/// each player in order removes its proposed head from the set when the
/// cell still holds food (and thereby eats).
pub open spec fn food_remaining(players: Seq<PlayerData>, f0: Set<Point>, k: int) -> Set<Point>
    decreases k,
{
    if k <= 0 {
        f0
    } else {
        let f = food_remaining(players, f0, k - 1);
        let c = proposed_head(players[k - 1]);
        if f.contains(c) {
            f.remove(c)
        } else {
            f
        }
    }
}

/// Whether player `i` eats this tick: its proposed head still holds food
/// when its turn in phase 1 comes.
pub open spec fn eats_pre(pre: State, i: int) -> bool {
    food_remaining(pre.players@, pre.food@.to_set(), i).contains(proposed_head(pre.players@[i]))
}

/// Whether cell `c` is the tail of a non-eater among the first `k`
/// players, and so has been vacated once phase 1 processed them.
pub open spec fn tail_vacated_upto(pre: State, c: Point, k: int) -> bool {
    exists|i: int|
        0 <= i < k && !eats_pre(pre, i) && (#[trigger] pre.players@[i]).snake.tail() == c
}

/// Whether cell `c` is a tail that phase 1 vacates: the tail of some
/// player that does not eat this tick.
pub open spec fn tail_vacated(pre: State, c: Point) -> bool {
    tail_vacated_upto(pre, c, pre.players@.len() as int)
}

/// Whether two or more players propose the same head cell as player `i`.
pub open spec fn duplicate_proposal(pre: State, i: int) -> bool {
    exists|j: int|
        0 <= j < pre.players@.len() && j != i && proposed_head(#[trigger] pre.players@[j])
            == proposed_head(pre.players@[i])
}

/// Whether player `i` dies this tick: its proposed head is out of
/// bounds, or lands on a cell still occupied after every tail was
/// vacated, or collides head-to-head with another proposal.
pub open spec fn killed_in_tick(pre: State, i: int) -> bool {
    ||| !pre.config.in_bounds(proposed_head(pre.players@[i]))
    ||| (occ_contains(pre.map_state@, proposed_head(pre.players@[i])) && !tail_vacated(
        pre,
        proposed_head(pre.players@[i]),
    ))
    ||| duplicate_proposal(pre, i)
}

/// How many of the first `k` players die this tick.
pub open spec fn killed_count(pre: State, k: int) -> int
    decreases k,
{
    if k <= 0 {
        0
    } else {
        killed_count(pre, k - 1) + if killed_in_tick(pre, k - 1) {
            1int
        } else {
            0int
        }
    }
}

/// A score bumped by one, saturating at the top of its type.
pub open spec fn inc_score(s: Score) -> Score {
    if s < usize::MAX {
        (s + 1) as usize
    } else {
        s
    }
}

/// How a surviving player relates to its pre-tick self: identity, name,
/// channel and colour kept; facing direction is the applied intent and
/// the pending intent is cleared; the body advances by its proposed
/// head, keeping the tail exactly when it ate (so its length grows by
/// one then); the score grows by one exactly when it ate.
pub open spec fn moved_ok(prep: PlayerData, postp: PlayerData, did_eat: bool) -> bool {
    &&& postp.id == prep.id
    &&& postp.name == prep.name
    &&& postp.tx == prep.tx
    &&& postp.snake.colour == prep.snake.colour
    &&& postp.snake.direction == applied_direction(prep)
    &&& postp.last_move is None
    &&& postp.score == if did_eat {
        inc_score(prep.score)
    } else {
        prep.score
    }
    &&& postp.snake.parts@ == if did_eat {
        seq![proposed_head(prep)] + prep.snake.parts@
    } else {
        seq![proposed_head(prep)] + prep.snake.parts@.drop_last()
    }
}

/// How a killed-and-respawned player relates to its pre-tick self:
/// identity, name, channel, colour and (eat-adjusted) score kept; the
/// snake is reset to a single in-bounds segment and the pending intent
/// is cleared.
pub open spec fn respawn_ok(prep: PlayerData, postp: PlayerData, did_eat: bool, cfg: Config) -> bool {
    &&& postp.id == prep.id
    &&& postp.name == prep.name
    &&& postp.tx == prep.tx
    &&& postp.snake.colour == prep.snake.colour
    &&& postp.last_move is None
    &&& postp.score == if did_eat {
        inc_score(prep.score)
    } else {
        prep.score
    }
    &&& postp.snake.parts@.len() == 1
    &&& cfg.in_bounds(postp.snake.parts@[0])
}

/// What removing element `fi` by a swap with the last element does to a
/// duplicate-free sequence: exactly that element leaves.
proof fn lemma_swap_remove_set(s: Seq<Point>, fi: int)
    requires
        s.no_duplicates(),
        0 <= fi < s.len(),
    ensures
        ({
            let r = s.update(fi, s.last()).drop_last();
            &&& r.len() == s.len() - 1
            &&& r.no_duplicates()
            &&& forall|x: Point| #[trigger] r.contains(x) <==> s.contains(x) && x != s[fi]
            &&& r.to_set() == s.to_set().remove(s[fi])
        }),
{
    let r = s.update(fi, s.last()).drop_last();
    assert forall|x: Point| #[trigger] r.contains(x) implies s.contains(x) && x != s[fi] by {
        let i = choose|i: int| 0 <= i < r.len() && r[i] == x;
        if i == fi {
            assert(s[s.len() - 1] == x);
            assert(fi != s.len() - 1);
        } else {
            assert(s[i] == x);
            if x == s[fi] {
                assert(s[i] == s[fi] && i != fi);
            }
        }
    }
    assert forall|x: Point| s.contains(x) && x != s[fi] implies #[trigger] r.contains(x) by {
        let i = choose|i: int| 0 <= i < s.len() && s[i] == x;
        if i == s.len() - 1 {
            if fi == s.len() - 1 {
                assert(x == s[fi]);
            } else {
                assert(r[fi] == x);
            }
        } else {
            if i == fi {
                assert(x == s[fi]);
            } else {
                assert(r[i] == x);
            }
        }
    }
    assert forall|i: int, j: int| 0 <= i < j < r.len() implies r[i] != r[j] by {
        if i == fi {
            assert(r[i] == s[s.len() - 1] && r[j] == s[j]);
        } else if j == fi {
            assert(r[j] == s[s.len() - 1] && r[i] == s[i]);
        } else {
            assert(r[i] == s[i] && r[j] == s[j]);
        }
    }
    assert(r.to_set() =~= s.to_set().remove(s[fi]));
}

/// The same, for occupancy entries keyed by cell.
proof fn lemma_swap_remove_occ(s: Seq<(Point, PlayerId)>, fi: int)
    requires
        occ_keys_unique(s),
        0 <= fi < s.len(),
    ensures
        ({
            let r = s.update(fi, s.last()).drop_last();
            &&& r.len() == s.len() - 1
            &&& occ_keys_unique(r)
            &&& forall|x: (Point, PlayerId)| #[trigger]
                r.contains(x) <==> s.contains(x) && x.0 != s[fi].0
        }),
{
    let r = s.update(fi, s.last()).drop_last();
    assert forall|x: (Point, PlayerId)| #[trigger] r.contains(x) implies s.contains(x) && x.0
        != s[fi].0 by {
        let i = choose|i: int| 0 <= i < r.len() && r[i] == x;
        if i == fi {
            assert(s[s.len() - 1] == x);
            assert(fi != s.len() - 1);
        } else {
            assert(s[i] == x);
            if x.0 == s[fi].0 {
                assert(s[i].0 == s[fi].0 && i != fi);
            }
        }
    }
    assert forall|x: (Point, PlayerId)| s.contains(x) && x.0 != s[fi].0 implies #[trigger]
        r.contains(x) by {
        let i = choose|i: int| 0 <= i < s.len() && s[i] == x;
        if i == s.len() - 1 {
            if fi == s.len() - 1 {
                assert(x == s[fi]);
            } else {
                assert(r[fi] == x);
            }
        } else {
            if i == fi {
                assert(x == s[fi]);
            } else {
                assert(r[i] == x);
            }
        }
    }
    assert forall|i: int, j: int| 0 <= i < j < r.len() implies r[i].0 != r[j].0 by {
        if i == fi {
            assert(r[i] == s[s.len() - 1] && r[j] == s[j]);
        } else if j == fi {
            assert(r[j] == s[s.len() - 1] && r[i] == s[i]);
        } else {
            assert(r[i] == s[i] && r[j] == s[j]);
        }
    }
}

/// A duplicate-free sequence drawn from another sequence is no longer
/// than its source.
proof fn lemma_subset_len(sub: Seq<Point>, sup: Seq<Point>)
    requires
        sub.no_duplicates(),
        forall|j: int| 0 <= j < sub.len() ==> sup.contains(#[trigger] sub[j]),
    ensures
        sub.len() <= sup.len(),
{
    broadcast use vstd::seq_lib::seq_to_set_is_finite;

    sub.unique_seq_to_set();
    sup.lemma_cardinality_of_set();
    assert forall|x: Point| sub.to_set().contains(x) implies sup.to_set().contains(x) by {
        assert(sub.contains(x));
        let j = choose|j: int| 0 <= j < sub.len() && sub[j] == x;
    }
    vstd::set_lib::lemma_len_subset(sub.to_set(), sup.to_set());
}

/// In a well-formed consistent world, the bodies of two distinct players
/// never share a cell.
pub proof fn lemma_bodies_disjoint(s: State, i: int, j: int, a: int, b: int)
    requires
        s.wf(),
        s.consistent(),
        0 <= i < s.players@.len(),
        0 <= j < s.players@.len(),
        i != j,
        0 <= a < s.players@[i].snake.parts@.len(),
        0 <= b < s.players@[j].snake.parts@.len(),
    ensures
        s.players@[i].snake.parts@[a] != s.players@[j].snake.parts@[b],
{
    let ca = s.players@[i].snake.parts@[a];
    let cb = s.players@[j].snake.parts@[b];
    if ca == cb {
        assert(occ_maps(s.map_state@, ca, s.players@[i].id));
        assert(occ_maps(s.map_state@, cb, s.players@[j].id));
        let ia = choose|k: int|
            0 <= k < s.map_state@.len() && s.map_state@[k] == (ca, s.players@[i].id);
        let ib = choose|k: int|
            0 <= k < s.map_state@.len() && s.map_state@[k] == (cb, s.players@[j].id);
        if ia != ib {
            assert(s.map_state@[ia].0 != s.map_state@[ib].0);
        }
        assert(s.players@[i].id == s.players@[j].id);
        assert(false);
    }
}

/// Food only ever leaves the set as phase 1 proceeds.
proof fn lemma_food_remaining_mono(players: Seq<PlayerData>, f0: Set<Point>, j: int, k: int)
    requires
        0 <= j <= k,
    ensures
        forall|c: Point|
            food_remaining(players, f0, k).contains(c) ==> food_remaining(
                players,
                f0,
                j,
            ).contains(c),
    decreases k - j,
{
    if j < k {
        lemma_food_remaining_mono(players, f0, j, k - 1);
    }
}

/// A cell eaten by player `q` holds no food for the rest of the tick.
proof fn lemma_eaten_gone(players: Seq<PlayerData>, f0: Set<Point>, q: int, k: int)
    requires
        0 <= q < k,
        food_remaining(players, f0, q).contains(proposed_head(players[q])),
    ensures
        !food_remaining(players, f0, k).contains(proposed_head(players[q])),
{
    assert(!food_remaining(players, f0, q + 1).contains(proposed_head(players[q])));
    lemma_food_remaining_mono(players, f0, q + 1, k);
}

/// The death count over any prefix is non-negative.
proof fn lemma_killed_count_nonneg(pre: State, j: int)
    requires
        0 <= j,
    ensures
        killed_count(pre, j) >= 0,
    decreases j,
{
    if j > 0 {
        lemma_killed_count_nonneg(pre, j - 1);
    }
}

/// Deaths accumulate: the count over a prefix never exceeds the count
/// over a longer prefix.
proof fn lemma_killed_count_mono(pre: State, j: int, k: int)
    requires
        0 <= j <= k,
    ensures
        killed_count(pre, j) <= killed_count(pre, k),
    decreases k - j,
{
    if j < k {
        lemma_killed_count_mono(pre, j, k - 1);
    }
}

/// A body cell that phase 1 retains (anything but a non-eater's tail)
/// is still recorded for its owner after every tail was vacated.
proof fn lemma_retained_cell_stays(pre: State, k: int, a: int)
    requires
        pre.wf(),
        pre.consistent(),
        0 <= k < pre.players@.len(),
        0 <= a < pre.players@[k].snake.parts@.len(),
        eats_pre(pre, k) || a < pre.players@[k].snake.parts@.len() - 1,
    ensures
        occ_maps(pre.map_state@, pre.players@[k].snake.parts@[a], pre.players@[k].id),
        !tail_vacated(pre, pre.players@[k].snake.parts@[a]),
{
    let c = pre.players@[k].snake.parts@[a];
    assert(occ_maps(pre.map_state@, pre.players@[k].snake.parts@[a], pre.players@[k].id));
    if tail_vacated(pre, c) {
        let j = choose|j: int|
            0 <= j < pre.players@.len() && !eats_pre(pre, j) && (
            #[trigger] pre.players@[j]).snake.tail() == c;
        let tl = pre.players@[j].snake.parts@.len() - 1;
        if j == k {
            assert(!eats_pre(pre, k));
            assert(pre.players@[k].snake.parts@[tl] == c);
            assert(a < tl);
            assert(pre.players@[k].snake.parts@.no_duplicates());
            assert(false);
        } else {
            lemma_bodies_disjoint(pre, j, k, tl, a);
            assert(pre.players@[j].snake.parts@[tl] == c);
            assert(false);
        }
    }
}

/// A surviving player's proposed head is a brand-new cell for it: it
/// coincides with none of the body cells that phase 1 keeps.
proof fn lemma_survivor_head_fresh(pre: State, k: int, a: int)
    requires
        pre.wf(),
        pre.consistent(),
        0 <= k < pre.players@.len(),
        !killed_in_tick(pre, k),
        0 <= a < pre.players@[k].snake.parts@.len(),
        eats_pre(pre, k) || a < pre.players@[k].snake.parts@.len() - 1,
    ensures
        pre.players@[k].snake.parts@[a] != proposed_head(pre.players@[k]),
{
    let c = pre.players@[k].snake.parts@[a];
    if c == proposed_head(pre.players@[k]) {
        lemma_retained_cell_stays(pre, k, a);
        let id = pre.players@[k].id;
        let iz = choose|iz: int| 0 <= iz < pre.map_state@.len() && pre.map_state@[iz] == (c, id);
        assert((#[trigger] pre.map_state@[iz]).0 == c);
        assert(occ_contains(pre.map_state@, c));
        assert(killed_in_tick(pre, k));
        assert(false);
    }
}

/// After phase 2 the food set is still disjoint from occupancy: the
/// remnants sat apart before the tick, and a surviving head can claim a
/// food cell only by eating it first.
proof fn lemma_phase2_food_disjoint(pre: State, mid: State, killed: Seq<bool>)
    requires
        pre.wf(),
        pre.consistent(),
        phase2_post(pre, mid, killed),
    ensures
        forall|j: int|
            0 <= j < mid.food@.len() ==> !occ_contains(
                mid.map_state@,
                #[trigger] mid.food@[j],
            ),
{
    let n = pre.players@.len() as int;
    let f0 = pre.food@.to_set();
    assert forall|j: int|
        0 <= j < mid.food@.len() implies !occ_contains(
        mid.map_state@,
        #[trigger] mid.food@[j],
    ) by {
        let f = mid.food@[j];
        assert(mid.food@.contains(f));
        assert(mid.food@.to_set().contains(f));
        assert(food_remaining(pre.players@, f0, n).contains(f));
        if occ_contains(mid.map_state@, f) {
            lemma_occ_contains_iff_maps(mid.map_state@, f);
            let id = choose|id: PlayerId| occ_maps(mid.map_state@, f, id);
            if occ_maps(pre.map_state@, f, id) && !tail_vacated(pre, f) {
                let iz = choose|iz: int|
                    0 <= iz < pre.map_state@.len() && pre.map_state@[iz] == (f, id);
                assert((#[trigger] pre.map_state@[iz]).0 == f);
                assert(occ_contains(pre.map_state@, f));
                assert(pre.food@.contains(f));
                let jf = choose|jf: int| 0 <= jf < pre.food@.len() && pre.food@[jf] == f;
                assert(!occ_contains(pre.map_state@, #[trigger] pre.food@[jf]));
                assert(false);
            } else {
                assert(committed(pre, f, id));
                let q = choose|q: int|
                    0 <= q < n && !killed_in_tick(pre, q) && proposed_head(
                        #[trigger] pre.players@[q],
                    ) == f && pre.players@[q].id == id;
                if eats_pre(pre, q) {
                    lemma_eaten_gone(pre.players@, f0, q, n);
                    assert(false);
                } else {
                    lemma_food_remaining_mono(pre.players@, f0, q, n);
                    assert(food_remaining(pre.players@, f0, q).contains(f));
                    assert(false);
                }
            }
        }
    }
}

/// What phase 1 guarantees: every player advanced against the pre-tick
/// snapshot, each eaten food cell removed, every non-eater's tail
/// vacated, and the proposed heads recorded in player order.
pub open spec fn phase1_post(pre: State, cur: State, proposals: Seq<Point>) -> bool {
    let n = pre.players@.len() as int;
    &&& cur.config == pre.config
    &&& cur.is_running == pre.is_running
    &&& cur.players@.len() == n
    &&& proposals.len() == n
    &&& forall|i: int|
        0 <= i < n ==> #[trigger] proposals[i] == proposed_head(pre.players@[i])
    &&& forall|i: int|
        0 <= i < n ==> moved_ok(pre.players@[i], #[trigger] cur.players@[i], eats_pre(pre, i))
    &&& cur.food@.to_set() == food_remaining(pre.players@, pre.food@.to_set(), n)
    &&& cur.food@.no_duplicates()
    &&& forall|j: int| 0 <= j < cur.food@.len() ==> pre.food@.contains(#[trigger] cur.food@[j])
    &&& occ_keys_unique(cur.map_state@)
    &&& forall|c: Point, id: PlayerId|
        #![trigger occ_maps(cur.map_state@, c, id)]
        #![trigger occ_maps(pre.map_state@, c, id)]
        occ_maps(cur.map_state@, c, id) <==> occ_maps(pre.map_state@, c, id) && !tail_vacated(
            pre,
            c,
        )
    &&& forall|j: int|
        0 <= j < cur.map_state@.len() ==> cur.config.in_bounds(
            (#[trigger] cur.map_state@[j]).0,
        )
    &&& cur.map_state@.len() + cur.food@.len() == pre.map_state@.len() + pre.food@.len() - n
}

/// Whether phase 2 commits cell `c` to player `id` among the first `k`
/// players: a sole, in-bounds, unobstructed proposal.
pub open spec fn committed_upto(pre: State, c: Point, id: PlayerId, k: int) -> bool {
    exists|i: int|
        0 <= i < k && !killed_in_tick(pre, i) && proposed_head(#[trigger] pre.players@[i]) == c
            && pre.players@[i].id == id
}

/// Whether phase 2 commits cell `c` to player `id`.
pub open spec fn committed(pre: State, c: Point, id: PlayerId) -> bool {
    committed_upto(pre, c, id, pre.players@.len() as int)
}

/// What phase 2 guarantees on top of phase 1: the killed flags match the
/// pre-state collision rule, and occupancy additionally records every
/// surviving proposal.
pub open spec fn phase2_post(pre: State, cur: State, killed: Seq<bool>) -> bool {
    let n = pre.players@.len() as int;
    &&& cur.config == pre.config
    &&& cur.is_running == pre.is_running
    &&& cur.players@.len() == n
    &&& forall|i: int|
        0 <= i < n ==> moved_ok(pre.players@[i], #[trigger] cur.players@[i], eats_pre(pre, i))
    &&& killed.len() == n
    &&& forall|i: int| 0 <= i < n ==> #[trigger] killed[i] == killed_in_tick(pre, i)
    &&& cur.food@.to_set() == food_remaining(pre.players@, pre.food@.to_set(), n)
    &&& cur.food@.no_duplicates()
    &&& forall|j: int| 0 <= j < cur.food@.len() ==> pre.food@.contains(#[trigger] cur.food@[j])
    &&& occ_keys_unique(cur.map_state@)
    &&& forall|c: Point, id: PlayerId|
        #![trigger occ_maps(cur.map_state@, c, id)]
        #![trigger occ_maps(pre.map_state@, c, id)]
        occ_maps(cur.map_state@, c, id) <==> (occ_maps(pre.map_state@, c, id) && !tail_vacated(
            pre,
            c,
        )) || committed(pre, c, id)
    &&& forall|j: int|
        0 <= j < cur.map_state@.len() ==> cur.config.in_bounds(
            (#[trigger] cur.map_state@[j]).0,
        )
    &&& cur.map_state@.len() + cur.food@.len() == pre.map_state@.len() + pre.food@.len()
        - killed_count(pre, n)
}

impl State {
    /// Phase 1 of a tick: for every player in order, applies the pending
    /// intent, computes the proposed head against the pre-tick snapshot,
    /// eats (grow, no tail drop) when the head lands on food still
    /// present, and otherwise advances and vacates the tail.
    #[verifier::loop_isolation(false)]
    fn phase_one(&mut self, Ghost(pre): Ghost<State>) -> (proposals: Vec<Point>)
        requires
            *old(self) == pre,
            pre.wf(),
            pre.consistent(),
        ensures
            phase1_post(pre, *final(self), proposals@),
    {
        let ghost n = pre.players@.len() as int;
        let mut proposals: Vec<Point> = Vec::new();
        let mut new_players: Vec<PlayerData> = Vec::new();
        let ghost mut done: int = 0;
        while self.players.len() > 0
            invariant
                0 <= done <= n,
                self.players@ == pre.players@.skip(done),
                self.config == pre.config,
                self.is_running == pre.is_running,
                new_players@.len() == done,
                proposals@.len() == done,
                forall|i: int|
                    0 <= i < done ==> #[trigger] proposals@[i] == proposed_head(pre.players@[i]),
                forall|i: int|
                    0 <= i < done ==> moved_ok(
                        pre.players@[i],
                        #[trigger] new_players@[i],
                        eats_pre(pre, i),
                    ),
                self.food@.to_set() == food_remaining(pre.players@, pre.food@.to_set(), done),
                self.food@.no_duplicates(),
                forall|j: int|
                    0 <= j < self.food@.len() ==> pre.food@.contains(#[trigger] self.food@[j]),
                occ_keys_unique(self.map_state@),
                forall|c: Point, id: PlayerId|
                    #![trigger occ_maps(self.map_state@, c, id)]
                    #![trigger occ_maps(pre.map_state@, c, id)]
                    occ_maps(self.map_state@, c, id) <==> occ_maps(pre.map_state@, c, id)
                        && !tail_vacated_upto(pre, c, done),
                self.map_state@.len() + self.food@.len() == pre.map_state@.len()
                    + pre.food@.len() - done,
            decreases self.players@.len(),
        {
            let mut pd = self.players.remove(0);
            let ghost prep = pre.players@[done];
            proof {
                assert(pd == prep);
            }
            match pd.last_move {
                Some(d) => {
                    pd.snake.set_direction(d);
                    pd.last_move = None;
                },
                None => {},
            }
            proof {
                assert(pd.snake.direction == applied_direction(prep));
                assert(pd.snake.parts@ == prep.snake.parts@);
                assert(pre.config.in_bounds(prep.snake.parts@[0]));
            }
            let head: Point = *(&pd.snake.parts[0]);
            let nh = head.step(pd.snake.direction);
            proof {
                assert(nh == proposed_head(prep));
            }
            match food_find(&self.food, &nh) {
                Some(fi) => {
                    let ghost fseq = self.food@;
                    let _eaten = self.food.swap_remove(fi);
                    proof {
                        lemma_swap_remove_set(fseq, fi as int);
                        assert(fseq.contains(nh));
                        assert(eats_pre(pre, done));
                        assert(self.food@.to_set() =~= food_remaining(
                            pre.players@,
                            pre.food@.to_set(),
                            done + 1,
                        ));
                        assert forall|c: Point|
                            tail_vacated_upto(pre, c, done + 1) <==> tail_vacated_upto(
                            pre,
                            c,
                            done,
                        ) by {
                            if tail_vacated_upto(pre, c, done + 1) {
                                let k = choose|k: int|
                                    0 <= k < done + 1 && !eats_pre(pre, k) && (
                                    #[trigger] pre.players@[k]).snake.tail() == c;
                                assert(k != done);
                            }
                        }
                    }
                    if pd.score < usize::MAX {
                        pd.score = pd.score + 1;
                    }
                    pd.snake.grow(nh);
                },
                None => {
                    proof {
                        assert(!self.food@.contains(nh));
                        assert(!eats_pre(pre, done));
                        assert(food_remaining(pre.players@, pre.food@.to_set(), done + 1)
                            =~= food_remaining(pre.players@, pre.food@.to_set(), done));
                    }
                    let r = pd.snake.do_move();
                    let last = r.1;
                    proof {
                        let tl = prep.snake.parts@.len() - 1;
                        assert(last == prep.snake.parts@[tl]);
                        assert(occ_maps(pre.map_state@, prep.snake.parts@[tl], prep.id));
                        assert(!tail_vacated_upto(pre, last, done)) by {
                            if tail_vacated_upto(pre, last, done) {
                                let k = choose|k: int|
                                    0 <= k < done && !eats_pre(pre, k) && (
                                    #[trigger] pre.players@[k]).snake.tail() == last;
                                lemma_bodies_disjoint(
                                    pre,
                                    k,
                                    done,
                                    pre.players@[k].snake.parts@.len() - 1,
                                    tl,
                                );
                            }
                        }
                        assert(occ_maps(self.map_state@, last, prep.id));
                        let iz = choose|iz: int|
                            0 <= iz < self.map_state@.len() && self.map_state@[iz] == (
                            last,
                            prep.id,
                            );
                        assert((#[trigger] self.map_state@[iz]).0 == last);
                        assert(occ_contains(self.map_state@, last));
                    }
                    match occ_find(&self.map_state, &last) {
                        Some(oi) => {
                            let ghost oseq = self.map_state@;
                            let _removed = self.map_state.swap_remove(oi);
                            proof {
                                lemma_swap_remove_occ(oseq, oi as int);
                                assert(oseq[oi as int].0 == last);
                                assert forall|c: Point|
                                    tail_vacated_upto(pre, c, done + 1) <==> (tail_vacated_upto(
                                    pre,
                                    c,
                                    done,
                                ) || c == last) by {
                                    if tail_vacated_upto(pre, c, done + 1) {
                                        let k = choose|k: int|
                                            0 <= k < done + 1 && !eats_pre(pre, k) && (
                                            #[trigger] pre.players@[k]).snake.tail() == c;
                                    }
                                    if c == last {
                                        assert(!eats_pre(pre, done) && (
                                        #[trigger] pre.players@[done]).snake.tail() == c);
                                    }
                                    if tail_vacated_upto(pre, c, done) {
                                        let k = choose|k: int|
                                            0 <= k < done && !eats_pre(pre, k) && (
                                            #[trigger] pre.players@[k]).snake.tail() == c;
                                    }
                                }
                                assert forall|c: Point, id: PlayerId|
                                    #![trigger occ_maps(self.map_state@, c, id)]
                                    #![trigger occ_maps(pre.map_state@, c, id)]
                                    occ_maps(self.map_state@, c, id) <==> occ_maps(
                                    pre.map_state@,
                                    c,
                                    id,
                                ) && !tail_vacated_upto(pre, c, done + 1) by {
                                    assert(occ_maps(self.map_state@, c, id)
                                        <==> occ_maps(oseq, c, id) && c != last);
                                }
                            }
                        },
                        None => {
                            proof {
                                assert(false);
                            }
                        },
                    }
                },
            }
            proposals.push(nh);
            new_players.push(pd);
            proof {
                assert(moved_ok(prep, pd, eats_pre(pre, done)));
                done = done + 1;
                assert(self.players@ =~= pre.players@.skip(done));
            }
        }
        proof {
            assert(done == n);
            assert forall|c: Point|
                tail_vacated(pre, c) <==> tail_vacated_upto(pre, c, done) by {}
            assert forall|j: int|
                0 <= j < self.map_state@.len() implies self.config.in_bounds(
                (#[trigger] self.map_state@[j]).0,
            ) by {
                let x = self.map_state@[j];
                assert(self.map_state@.contains(x));
                assert(occ_maps(self.map_state@, x.0, x.1));
                assert(occ_maps(pre.map_state@, x.0, x.1));
                let k = choose|k: int|
                    0 <= k < pre.map_state@.len() && pre.map_state@[k] == (x.0, x.1);
                assert(pre.config.in_bounds((#[trigger] pre.map_state@[k]).0));
            }
        }
        self.players = new_players;
        proposals
    }

    /// Phase 2 of a tick: decides every player's fate against the
    /// phase-1 snapshot first, then commits the surviving heads.  A
    /// proposal dies when it leaves the field, lands on a cell still
    /// occupied after the tails were vacated, or collides with another
    /// proposal; committing after all decisions keeps the outcome
    /// independent of player order.
    #[verifier::loop_isolation(false)]
    #[verifier::rlimit(100)]
    #[verifier::spinoff_prover]
    fn phase_two(&mut self, proposals: &Vec<Point>, Ghost(pre): Ghost<State>) -> (killed: Vec<
        bool,
    >)
        requires
            pre.wf(),
            pre.consistent(),
            phase1_post(pre, *old(self), proposals@),
        ensures
            phase2_post(pre, *final(self), killed@),
    {
        let ghost n = pre.players@.len() as int;
        let ghost mid = *old(self);
        let np = proposals.len();
        let mut killed: Vec<bool> = Vec::new();
        let mut i: usize = 0;
        while i < np
            invariant
                i <= np,
                killed@.len() == i,
                forall|k: int| 0 <= k < i ==> #[trigger] killed@[k] == killed_in_tick(pre, k),
            decreases np - i,
        {
            let ph: Point = proposals[i];
            proof {
                assert(ph == proposed_head(pre.players@[i as int]));
            }
            let in_b = self.config.is_in_map(&ph);
            let occupied = occ_find(&self.map_state, &ph).is_some();
            proof {
                lemma_occ_contains_iff_maps(self.map_state@, ph);
                lemma_occ_contains_iff_maps(pre.map_state@, ph);
                if occupied {
                    let id = choose|id: PlayerId| occ_maps(self.map_state@, ph, id);
                    assert(occ_maps(pre.map_state@, ph, id) && !tail_vacated(pre, ph));
                }
                if occ_contains(pre.map_state@, ph) && !tail_vacated(pre, ph) {
                    let id = choose|id: PlayerId| occ_maps(pre.map_state@, ph, id);
                    assert(occ_maps(self.map_state@, ph, id));
                    assert(occ_contains(self.map_state@, ph));
                }
            }
            let mut dup = false;
            let mut j: usize = 0;
            while j < np
                invariant
                    j <= np,
                    i < np,
                    dup <==> exists|q: int|
                        0 <= q < j && q != i as int && proposed_head(#[trigger] pre.players@[q])
                            == proposed_head(pre.players@[i as int]),
                decreases np - j,
            {
                if j != i {
                    let pj: Point = proposals[j];
                    let pi: Point = proposals[i];
                    if pj == pi {
                        dup = true;
                        proof {
                            assert(proposed_head(#[trigger] pre.players@[j as int])
                                == proposed_head(pre.players@[i as int]));
                        }
                    }
                }
                j = j + 1;
            }
            proof {
                assert(dup == duplicate_proposal(pre, i as int));
            }
            killed.push(!in_b || occupied || dup);
            i = i + 1;
        }
        let mut i2: usize = 0;
        while i2 < np
            invariant
                i2 <= np,
                self.players == mid.players,
                self.food == mid.food,
                self.config == mid.config,
                self.is_running == mid.is_running,
                occ_keys_unique(self.map_state@),
                forall|c: Point, id: PlayerId|
                    #![trigger occ_maps(self.map_state@, c, id)]
                    #![trigger occ_maps(pre.map_state@, c, id)]
                    occ_maps(self.map_state@, c, id) <==> (occ_maps(pre.map_state@, c, id)
                        && !tail_vacated(pre, c)) || committed_upto(pre, c, id, i2 as int),
                forall|j: int|
                    0 <= j < self.map_state@.len() ==> self.config.in_bounds(
                        (#[trigger] self.map_state@[j]).0,
                    ),
                self.map_state@.len() == mid.map_state@.len() + i2 - killed_count(
                    pre,
                    i2 as int,
                ),
            decreases np - i2,
        {
            let kflag: bool = killed[i2];
            if !kflag {
                let ph: Point = proposals[i2];
                let pid = self.players[i2].id;
                proof {
                    assert(moved_ok(pre.players@[i2 as int], mid.players@[i2 as int], eats_pre(
                        pre,
                        i2 as int,
                    )));
                    assert(pid == pre.players@[i2 as int].id);
                    assert(ph == proposed_head(pre.players@[i2 as int]));
                    assert(!killed_in_tick(pre, i2 as int));
                    assert(pre.config.in_bounds(ph));
                    assert forall|id: PlayerId| !occ_maps(self.map_state@, ph, id) by {
                        if occ_maps(self.map_state@, ph, id) {
                            if occ_maps(pre.map_state@, ph, id) && !tail_vacated(pre, ph) {
                                let iz = choose|iz: int|
                                    0 <= iz < pre.map_state@.len() && pre.map_state@[iz] == (
                                    ph,
                                    id,
                                    );
                                assert((#[trigger] pre.map_state@[iz]).0 == ph);
                                assert(occ_contains(pre.map_state@, ph));
                                assert(killed_in_tick(pre, i2 as int));
                            } else {
                                let q = choose|q: int|
                                    0 <= q < i2 as int && !killed_in_tick(pre, q)
                                        && proposed_head(#[trigger] pre.players@[q]) == ph
                                        && pre.players@[q].id == id;
                                assert(duplicate_proposal(pre, i2 as int));
                            }
                        }
                    }
                }
                let ghost oseq = self.map_state@;
                self.map_state.push((ph, pid));
                proof {
                    assert forall|a: int, b: int|
                        0 <= a < b < self.map_state@.len() implies (
                    #[trigger] self.map_state@[a]).0 != (#[trigger] self.map_state@[b]).0 by {
                        if b == oseq.len() {
                            let x = oseq[a];
                            assert(oseq.contains(x));
                            assert(occ_maps(oseq, x.0, x.1));
                            assert(!occ_maps(oseq, ph, x.1));
                        }
                    }
                    assert forall|c: Point, id: PlayerId|
                        #![trigger occ_maps(self.map_state@, c, id)]
                        #![trigger occ_maps(pre.map_state@, c, id)]
                        occ_maps(self.map_state@, c, id) <==> (occ_maps(pre.map_state@, c, id)
                            && !tail_vacated(pre, c)) || committed_upto(
                            pre,
                            c,
                            id,
                            i2 as int + 1,
                        ) by {
                        assert(occ_maps(self.map_state@, c, id) <==> occ_maps(oseq, c, id) || (c
                            == ph && id == pid)) by {
                            if occ_maps(self.map_state@, c, id) {
                                let iz = choose|iz: int|
                                    0 <= iz < self.map_state@.len() && self.map_state@[iz] == (
                                    c,
                                    id,
                                    );
                                if iz < oseq.len() {
                                    assert(oseq[iz] == (c, id));
                                }
                            }
                            if occ_maps(oseq, c, id) {
                                let iz = choose|iz: int|
                                    0 <= iz < oseq.len() && oseq[iz] == (c, id);
                                assert(self.map_state@[iz] == (c, id));
                            }
                            if c == ph && id == pid {
                                assert(self.map_state@[oseq.len() as int] == (c, id));
                            }
                        }
                        if committed_upto(pre, c, id, i2 as int + 1) && !committed_upto(
                            pre,
                            c,
                            id,
                            i2 as int,
                        ) {
                            let q = choose|q: int|
                                0 <= q < i2 as int + 1 && !killed_in_tick(pre, q)
                                    && proposed_head(#[trigger] pre.players@[q]) == c
                                    && pre.players@[q].id == id;
                            assert(q == i2 as int);
                        }
                        if c == ph && id == pid {
                            assert(!killed_in_tick(pre, i2 as int) && proposed_head(
                                #[trigger] pre.players@[i2 as int],
                            ) == c && pre.players@[i2 as int].id == id);
                            assert(committed_upto(pre, c, id, i2 as int + 1));
                        }
                        if committed_upto(pre, c, id, i2 as int) {
                            let q = choose|q: int|
                                0 <= q < i2 as int && !killed_in_tick(pre, q) && proposed_head(
                                    #[trigger] pre.players@[q],
                                ) == c && pre.players@[q].id == id;
                            assert(committed_upto(pre, c, id, i2 as int + 1));
                        }
                    }
                }
            } else {
                proof {
                    assert(killed_in_tick(pre, i2 as int));
                    assert forall|c: Point, id: PlayerId|
                        committed_upto(pre, c, id, i2 as int + 1) <==> committed_upto(
                        pre,
                        c,
                        id,
                        i2 as int,
                    ) by {
                        if committed_upto(pre, c, id, i2 as int + 1) {
                            let q = choose|q: int|
                                0 <= q < i2 as int + 1 && !killed_in_tick(pre, q)
                                    && proposed_head(#[trigger] pre.players@[q]) == c
                                    && pre.players@[q].id == id;
                            assert(q != i2 as int);
                        }
                        if committed_upto(pre, c, id, i2 as int) {
                            let q = choose|q: int|
                                0 <= q < i2 as int && !killed_in_tick(pre, q) && proposed_head(
                                    #[trigger] pre.players@[q],
                                ) == c && pre.players@[q].id == id;
                            assert(committed_upto(pre, c, id, i2 as int + 1));
                        }
                    }
                }
            }
            i2 = i2 + 1;
        }
        proof {
            assert(i2 as int == n);
            assert forall|c: Point, id: PlayerId|
                committed(pre, c, id) <==> committed_upto(pre, c, id, n) by {}
        }
        killed
    }
}

/// Whether some player among the first `k` both dies this tick and
/// carries this id.
pub open spec fn killed_id_upto(pre: State, id: PlayerId, k: int) -> bool {
    exists|q: int|
        0 <= q < k && killed_in_tick(pre, q) && (#[trigger] pre.players@[q]).id == id
}

/// What phase 3 guarantees: every survivor keeps its advanced body,
/// every killed player is reborn as a single segment on a cell that was
/// free at the moment of placement, and the resting invariants hold
/// again.
pub open spec fn phase3_post(pre: State, cur: State) -> bool {
    let n = pre.players@.len() as int;
    &&& cur.config == pre.config
    &&& cur.is_running == pre.is_running
    &&& cur.players@.len() == n
    &&& forall|i: int|
        0 <= i < n && !killed_in_tick(pre, i) ==> moved_ok(
            pre.players@[i],
            #[trigger] cur.players@[i],
            eats_pre(pre, i),
        )
    &&& forall|i: int|
        0 <= i < n && killed_in_tick(pre, i) ==> respawn_ok(
            pre.players@[i],
            #[trigger] cur.players@[i],
            eats_pre(pre, i),
            pre.config,
        )
    &&& cur.food@.to_set() == food_remaining(pre.players@, pre.food@.to_set(), n)
    &&& cur.wf()
    &&& cur.consistent()
}

/// The facts that phase 3's rebuild loop leaves behind: survivors kept
/// from phase 2, killed players reborn, and occupancy rewritten
/// accordingly.
pub open spec fn phase3_loop_exit(pre: State, mid: State, cur: State) -> bool {
    &&& cur.config == pre.config
    &&& cur.is_running == pre.is_running
    &&& cur.food == mid.food
    &&& cur.players@.len() == pre.players@.len()
    &&& forall|k: int|
        0 <= k < pre.players@.len() && !killed_in_tick(pre, k) ==> #[trigger] cur.players@[k]
            == mid.players@[k]
    &&& forall|k: int|
        0 <= k < pre.players@.len() && killed_in_tick(pre, k) ==> respawn_ok(
            pre.players@[k],
            #[trigger] cur.players@[k],
            eats_pre(pre, k),
            pre.config,
        )
    &&& occ_keys_unique(cur.map_state@)
    &&& forall|j: int|
        0 <= j < cur.map_state@.len() ==> cur.config.in_bounds(
            (#[trigger] cur.map_state@[j]).0,
        )
    &&& forall|j: int|
        0 <= j < cur.food@.len() ==> !occ_contains(cur.map_state@, #[trigger] cur.food@[j])
    &&& forall|c: Point, id: PlayerId|
        #![trigger occ_maps(cur.map_state@, c, id)]
        #![trigger occ_maps(mid.map_state@, c, id)]
        occ_maps(cur.map_state@, c, id) <==> (occ_maps(mid.map_state@, c, id)
            && !killed_id_upto(pre, id, pre.players@.len() as int)) || (exists|k: int|
            #![trigger cur.players@[k]]
            0 <= k < pre.players@.len() && killed_in_tick(pre, k) && pre.players@[k].id == id
                && cur.players@[k].snake.parts@[0] == c)
}

/// A surviving player's advanced body is duplicate-free, in bounds, and
/// non-empty.
proof fn lemma_survivor_body_ok(pre: State, i: int)
    requires
        pre.wf(),
        pre.consistent(),
        0 <= i < pre.players@.len(),
        !killed_in_tick(pre, i),
    ensures
        ({
            let prep = pre.players@[i];
            let body = if eats_pre(pre, i) {
                seq![proposed_head(prep)] + prep.snake.parts@
            } else {
                seq![proposed_head(prep)] + prep.snake.parts@.drop_last()
            };
            &&& body.no_duplicates()
            &&& forall|k: int|
                0 <= k < body.len() ==> pre.config.in_bounds(#[trigger] body[k])
            &&& body.len() >= 1
        }),
{
    let prep = pre.players@[i];
    let ph = proposed_head(prep);
    assert(pre.config.in_bounds(ph));
    let body = if eats_pre(pre, i) {
        seq![ph] + prep.snake.parts@
    } else {
        seq![ph] + prep.snake.parts@.drop_last()
    };
    let retained = if eats_pre(pre, i) {
        prep.snake.parts@
    } else {
        prep.snake.parts@.drop_last()
    };
    assert(body == seq![ph] + retained);
    assert forall|a: int| 0 <= a < retained.len() implies retained[a] != ph
        && pre.config.in_bounds(#[trigger] retained[a]) by {
        assert(retained[a] == prep.snake.parts@[a]);
        assert(pre.config.in_bounds(prep.snake.parts@[a]));
        lemma_survivor_head_fresh(pre, i, a);
    }
    assert forall|a: int, b: int| 0 <= a < b < body.len() implies body[a] != body[b] by {
        if a == 0 {
            assert(body[b] == retained[b - 1]);
        } else {
            assert(body[a] == prep.snake.parts@[a - 1]);
            assert(body[b] == prep.snake.parts@[b - 1]);
        }
    }
    assert forall|k: int|
        0 <= k < body.len() implies pre.config.in_bounds(#[trigger] body[k]) by {
        if k > 0 {
            assert(body[k] == retained[k - 1]);
        }
    }
}

/// After phase 3 the world is well-formed again.
proof fn lemma_phase3_wf(pre: State, mid: State, cur: State, killed: Seq<bool>)
    requires
        pre.wf(),
        pre.consistent(),
        phase2_post(pre, mid, killed),
        phase3_loop_exit(pre, mid, cur),
    ensures
        cur.wf(),
{
    let n = pre.players@.len() as int;
    assert(cur.food@.len() <= cur.config.food_count) by {
        lemma_subset_len(cur.food@, pre.food@);
    }
    assert forall|i: int|
        0 <= i < n implies (#[trigger] cur.players@[i]).id == pre.players@[i].id by {
        if !killed_in_tick(pre, i) {
            assert(moved_ok(pre.players@[i], mid.players@[i], eats_pre(pre, i)));
        }
    }
    assert forall|a: int, b: int|
        0 <= a < b < cur.players@.len() implies (#[trigger] cur.players@[a]).id != (
    #[trigger] cur.players@[b]).id by {
        assert(pre.players@[a].id != pre.players@[b].id);
    }
    assert forall|i: int|
        0 <= i < n implies {
        let p = #[trigger] cur.players@[i];
        &&& p.snake.wf()
        &&& p.snake.parts@.no_duplicates()
        &&& forall|k: int|
            0 <= k < p.snake.parts@.len() ==> cur.config.in_bounds(#[trigger] p.snake.parts@[k])
    } by {
        let p = cur.players@[i];
        if killed_in_tick(pre, i) {
            assert(p.snake.parts@.len() == 1);
        } else {
            assert(moved_ok(pre.players@[i], mid.players@[i], eats_pre(pre, i)));
            lemma_survivor_body_ok(pre, i);
        }
    }
}

/// After phase 3 every body cell is recorded in occupancy for its owner.
proof fn lemma_phase3_consistent_fwd(pre: State, mid: State, cur: State, killed: Seq<bool>)
    requires
        pre.wf(),
        pre.consistent(),
        phase2_post(pre, mid, killed),
        phase3_loop_exit(pre, mid, cur),
    ensures
        forall|i: int, k: int|
            0 <= i < cur.players@.len() && 0 <= k < cur.players@[i].snake.parts@.len()
                ==> occ_maps(
                    cur.map_state@,
                    #[trigger] cur.players@[i].snake.parts@[k],
                    cur.players@[i].id,
                ),
{
    let n = pre.players@.len() as int;
    assert forall|i: int, k: int|
        0 <= i < cur.players@.len() && 0 <= k
            < cur.players@[i].snake.parts@.len() implies occ_maps(
        cur.map_state@,
        #[trigger] cur.players@[i].snake.parts@[k],
        cur.players@[i].id,
    ) by {
        let p = cur.players@[i];
        let c = p.snake.parts@[k];
        if killed_in_tick(pre, i) {
            assert(cur.players@[i].snake.parts@[0] == c);
            assert(occ_maps(cur.map_state@, c, p.id));
        } else {
            assert(moved_ok(pre.players@[i], mid.players@[i], eats_pre(pre, i)));
            let prep = pre.players@[i];
            assert(!killed_id_upto(pre, p.id, n)) by {
                if killed_id_upto(pre, p.id, n) {
                    let q = choose|q: int|
                        0 <= q < n && killed_in_tick(pre, q) && (#[trigger] pre.players@[q]).id
                            == p.id;
                    if q != i {
                        assert(pre.players@[q].id != pre.players@[i].id);
                    }
                }
            }
            if k == 0 {
                assert(committed_upto(pre, c, p.id, n)) by {
                    assert(!killed_in_tick(pre, i) && proposed_head(#[trigger] pre.players@[i])
                        == c && pre.players@[i].id == p.id);
                }
                assert(occ_maps(mid.map_state@, c, p.id));
            } else {
                assert(c == prep.snake.parts@[k - 1]);
                lemma_retained_cell_stays(pre, i, k - 1);
                assert(occ_maps(pre.map_state@, c, p.id) && !tail_vacated(pre, c));
                assert(occ_maps(mid.map_state@, c, p.id));
            }
            assert(occ_maps(cur.map_state@, c, p.id));
        }
    }
}

/// After phase 3 every occupancy record names a player whose body covers
/// the cell.
proof fn lemma_phase3_consistent_bwd(pre: State, mid: State, cur: State, killed: Seq<bool>)
    requires
        pre.wf(),
        pre.consistent(),
        phase2_post(pre, mid, killed),
        phase3_loop_exit(pre, mid, cur),
    ensures
        forall|j: int| 0 <= j < cur.map_state@.len() ==> cur.occ_entry_owned(j),
{
    let n = pre.players@.len() as int;
    assert forall|j: int| 0 <= j < cur.map_state@.len() implies cur.occ_entry_owned(j) by {
        let e = cur.map_state@[j];
        let c = e.0;
        let id = e.1;
        assert(cur.map_state@.contains(e));
        assert(occ_maps(cur.map_state@, c, id));
        if exists|k: int|
            #![trigger cur.players@[k]]
            0 <= k < n && killed_in_tick(pre, k) && pre.players@[k].id == id
                && cur.players@[k].snake.parts@[0] == c {
            let k = choose|k: int|
                #![trigger cur.players@[k]]
                0 <= k < n && killed_in_tick(pre, k) && pre.players@[k].id == id
                    && cur.players@[k].snake.parts@[0] == c;
            assert(cur.players@[k].id == id && cur.players@[k].snake.parts@.contains(c));
        } else {
            assert(occ_maps(mid.map_state@, c, id) && !killed_id_upto(pre, id, n));
            if committed(pre, c, id) {
                let q = choose|q: int|
                    0 <= q < n && !killed_in_tick(pre, q) && proposed_head(
                        #[trigger] pre.players@[q],
                    ) == c && pre.players@[q].id == id;
                assert(moved_ok(pre.players@[q], mid.players@[q], eats_pre(pre, q)));
                assert(cur.players@[q].snake.parts@[0] == c);
                assert(cur.players@[q].id == id && cur.players@[q].snake.parts@.contains(c));
            } else {
                assert(occ_maps(pre.map_state@, c, id) && !tail_vacated(pre, c));
                let jz = choose|jz: int|
                    0 <= jz < pre.map_state@.len() && pre.map_state@[jz] == (c, id);
                assert(pre.occ_entry_owned(jz));
                let q = choose|q: int|
                    0 <= q < pre.players@.len() && (#[trigger] pre.players@[q]).id
                        == pre.map_state@[jz].1 && pre.players@[q].snake.parts@.contains(
                        pre.map_state@[jz].0,
                    );
                let prep = pre.players@[q];
                assert(!killed_in_tick(pre, q)) by {
                    if killed_in_tick(pre, q) {
                        assert(killed_id_upto(pre, id, n)) by {
                            assert(killed_in_tick(pre, q) && (#[trigger] pre.players@[q]).id
                                == id);
                        }
                    }
                }
                assert(moved_ok(prep, mid.players@[q], eats_pre(pre, q)));
                let a = choose|a: int| 0 <= a < prep.snake.parts@.len() && prep.snake.parts@[a] == c;
                let body = cur.players@[q].snake.parts@;
                if !eats_pre(pre, q) && a == prep.snake.parts@.len() - 1 {
                    assert(tail_vacated(pre, c)) by {
                        assert(!eats_pre(pre, q) && (#[trigger] pre.players@[q]).snake.tail()
                            == c);
                    }
                    assert(false);
                } else {
                    assert(body[a + 1] == c);
                    assert(cur.players@[q].snake.parts@.contains(c));
                }
                assert(cur.players@[q].id == id);
            }
        }
    }
}

/// The state that phase 3's loop leaves behind satisfies the resting
/// invariants: survivors' advanced bodies and the respawn cells tile
/// occupancy exactly.
proof fn lemma_phase3_shape(pre: State, mid: State, cur: State, killed: Seq<bool>)
    requires
        pre.wf(),
        pre.consistent(),
        phase2_post(pre, mid, killed),
        phase3_loop_exit(pre, mid, cur),
    ensures
        cur.wf(),
        cur.consistent(),
{
    lemma_phase3_wf(pre, mid, cur, killed);
    lemma_phase3_consistent_fwd(pre, mid, cur, killed);
    lemma_phase3_consistent_bwd(pre, mid, cur, killed);
}

impl State {
    /// Phase 3 of a tick: each killed player's remaining cells are
    /// vacated, then the player is reborn as a single segment on a
    /// freshly drawn free cell with a fresh random direction.  Because
    /// phase 1 freed one net cell per player processed, a free cell
    /// always exists at the moment of placement.
    #[verifier::loop_isolation(false)]
    #[verifier::rlimit(100)]
    #[verifier::spinoff_prover]
    fn phase_three(&mut self, killed: &Vec<bool>, Ghost(pre): Ghost<State>)
        requires
            pre.wf(),
            pre.consistent(),
            phase2_post(pre, *old(self), killed@),
        ensures
            phase3_post(pre, *final(self)),
    {
        let ghost n = pre.players@.len() as int;
        let ghost mid = *old(self);
        proof {
            lemma_claimed_bounded(pre);
            lemma_phase2_food_disjoint(pre, mid, killed@);
            lemma_killed_count_nonneg(pre, n);
            assert forall|j: int|
                0 <= j < mid.food@.len() implies pre.config.in_bounds(
                #[trigger] mid.food@[j],
            ) by {
                assert(pre.food@.contains(mid.food@[j]));
                let jf = choose|jf: int|
                    0 <= jf < pre.food@.len() && pre.food@[jf] == mid.food@[j];
                assert(pre.config.in_bounds(#[trigger] pre.food@[jf]));
            }
        }
        let np = killed.len();
        let mut new_players: Vec<PlayerData> = Vec::new();
        let mut iu: usize = 0;
        while iu < np
            invariant
                iu <= np,
                self.players@ == mid.players@.skip(iu as int),
                new_players@.len() == iu,
                self.food == mid.food,
                self.config == pre.config,
                self.is_running == pre.is_running,
                forall|k: int|
                    0 <= k < iu && !killed_in_tick(pre, k) ==> #[trigger] new_players@[k]
                        == mid.players@[k],
                forall|k: int|
                    0 <= k < iu && killed_in_tick(pre, k) ==> respawn_ok(
                        pre.players@[k],
                        #[trigger] new_players@[k],
                        eats_pre(pre, k),
                        pre.config,
                    ),
                occ_keys_unique(self.map_state@),
                forall|j: int|
                    0 <= j < self.map_state@.len() ==> self.config.in_bounds(
                        (#[trigger] self.map_state@[j]).0,
                    ),
                forall|j: int|
                    0 <= j < self.food@.len() ==> !occ_contains(
                        self.map_state@,
                        #[trigger] self.food@[j],
                    ),
                forall|c: Point, id: PlayerId|
                    #![trigger occ_maps(self.map_state@, c, id)]
                    #![trigger occ_maps(mid.map_state@, c, id)]
                    occ_maps(self.map_state@, c, id) <==> (occ_maps(mid.map_state@, c, id)
                        && !killed_id_upto(pre, id, iu as int)) || (exists|k: int|
                        #![trigger new_players@[k]]
                        0 <= k < iu && killed_in_tick(pre, k) && pre.players@[k].id == id
                            && new_players@[k].snake.parts@[0] == c),
                self.map_state@.len() + self.food@.len() <= pre.config.area() - (killed_count(
                    pre,
                    n,
                ) - killed_count(pre, iu as int)),
            decreases np - iu,
        {
            let mut pd = self.players.remove(0);
            proof {
                assert(pd == mid.players@[iu as int]);
                assert(moved_ok(pre.players@[iu as int], mid.players@[iu as int], eats_pre(
                    pre,
                    iu as int,
                )));
            }
            let kflag: bool = killed[iu];
            if kflag {
                let id = pd.id;
                proof {
                    assert(id == pre.players@[iu as int].id);
                }
                let ghost before_clear = self.map_state@;
                self.clear_player_parts(id);
                proof {
                    lemma_occ_without(before_clear, id);
                    assert forall|j: int|
                        0 <= j < self.food@.len() implies !occ_contains(
                        self.map_state@,
                        #[trigger] self.food@[j],
                    ) by {
                        if occ_contains(self.map_state@, self.food@[j]) {
                            let jz = choose|jz: int|
                                0 <= jz < self.map_state@.len() && (
                                #[trigger] self.map_state@[jz]).0 == self.food@[j];
                            let x = self.map_state@[jz];
                            assert(self.map_state@.contains(x));
                            assert(before_clear.contains(x));
                            let jy = choose|jy: int|
                                0 <= jy < before_clear.len() && before_clear[jy] == x;
                            assert((#[trigger] before_clear[jy]).0 == self.food@[j]);
                            assert(occ_contains(before_clear, self.food@[j]));
                        }
                    }
                    assert forall|j: int|
                        0 <= j < self.map_state@.len() implies self.config.in_bounds(
                        (#[trigger] self.map_state@[j]).0,
                    ) by {
                        let x = self.map_state@[j];
                        assert(self.map_state@.contains(x));
                        assert(before_clear.contains(x));
                        let jy = choose|jy: int|
                            0 <= jy < before_clear.len() && before_clear[jy] == x;
                        assert(self.config.in_bounds((#[trigger] before_clear[jy]).0));
                    }
                }
                let sp_opt = self.random_free_point();
                let sp = match sp_opt {
                    Some(p) => p,
                    None => {
                        proof {
                            lemma_saturated(*self);
                            assert(killed_count(pre, iu as int + 1) == killed_count(
                                pre,
                                iu as int,
                            ) + 1);
                            lemma_killed_count_mono(pre, iu as int + 1, n);
                            assert(false);
                        }
                        Point { x: 0, y: 0 }
                    },
                };
                let dir = random_direction();
                pd.killed_restart(sp, dir);
                let ghost before_push = self.map_state@;
                self.map_state.push((sp, id));
                let ghost old_new = new_players@;
                new_players.push(pd);
                proof {
                    assert forall|a: int, b: int|
                        0 <= a < b < self.map_state@.len() implies (
                    #[trigger] self.map_state@[a]).0 != (#[trigger] self.map_state@[b]).0 by {
                        if b == before_push.len() {
                            if before_push[a].0 == sp {
                                assert((#[trigger] before_push[a]).0 == sp);
                                assert(occ_contains(before_push, sp));
                            }
                        }
                    }
                    assert forall|j: int|
                        0 <= j < self.food@.len() implies !occ_contains(
                        self.map_state@,
                        #[trigger] self.food@[j],
                    ) by {
                        if occ_contains(self.map_state@, self.food@[j]) {
                            let jz = choose|jz: int|
                                0 <= jz < self.map_state@.len() && (
                                #[trigger] self.map_state@[jz]).0 == self.food@[j];
                            if jz < before_push.len() {
                                assert((#[trigger] before_push[jz]).0 == self.food@[j]);
                                assert(occ_contains(before_push, self.food@[j]));
                            } else {
                                assert(self.food@[j] == sp);
                                assert(self.food@.contains(sp));
                            }
                        }
                    }
                    assert forall|id2: PlayerId|
                        killed_id_upto(pre, id2, iu as int + 1) <==> (killed_id_upto(
                        pre,
                        id2,
                        iu as int,
                    ) || id2 == id) by {
                        if killed_id_upto(pre, id2, iu as int + 1) {
                            let q = choose|q: int|
                                0 <= q < iu as int + 1 && killed_in_tick(pre, q) && (
                                #[trigger] pre.players@[q]).id == id2;
                        }
                        if id2 == id {
                            assert(killed_in_tick(pre, iu as int) && (
                            #[trigger] pre.players@[iu as int]).id == id2);
                        }
                        if killed_id_upto(pre, id2, iu as int) {
                            let q = choose|q: int|
                                0 <= q < iu as int && killed_in_tick(pre, q) && (
                                #[trigger] pre.players@[q]).id == id2;
                            assert(killed_id_upto(pre, id2, iu as int + 1));
                        }
                    }
                    assert forall|c: Point, id2: PlayerId|
                        #![trigger occ_maps(self.map_state@, c, id2)]
                        #![trigger occ_maps(mid.map_state@, c, id2)]
                        occ_maps(self.map_state@, c, id2) <==> (occ_maps(mid.map_state@, c, id2)
                            && !killed_id_upto(pre, id2, iu as int + 1)) || (exists|k: int|
                            #![trigger new_players@[k]]
                            0 <= k < iu as int + 1 && killed_in_tick(pre, k)
                                && pre.players@[k].id == id2 && new_players@[k].snake.parts@[0]
                                == c) by {
                        assert(occ_maps(self.map_state@, c, id2) <==> occ_maps(
                            before_push,
                            c,
                            id2,
                        ) || (c == sp && id2 == id)) by {
                            if occ_maps(self.map_state@, c, id2) {
                                let jz = choose|jz: int|
                                    0 <= jz < self.map_state@.len() && self.map_state@[jz] == (
                                    c,
                                    id2,
                                    );
                                if jz < before_push.len() {
                                    assert(before_push[jz] == (c, id2));
                                }
                            }
                            if occ_maps(before_push, c, id2) {
                                let jz = choose|jz: int|
                                    0 <= jz < before_push.len() && before_push[jz] == (c, id2);
                                assert(self.map_state@[jz] == (c, id2));
                            }
                            if c == sp && id2 == id {
                                assert(self.map_state@[before_push.len() as int] == (c, id2));
                            }
                        }
                        assert(occ_maps(before_push, c, id2) <==> occ_maps(before_clear, c, id2)
                            && id2 != id);
                        if exists|k: int|
                            #![trigger old_new[k]]
                            0 <= k < iu as int && killed_in_tick(pre, k) && pre.players@[k].id
                                == id2 && old_new[k].snake.parts@[0] == c {
                            let k = choose|k: int|
                                #![trigger old_new[k]]
                                0 <= k < iu as int && killed_in_tick(pre, k)
                                    && pre.players@[k].id == id2 && old_new[k].snake.parts@[0]
                                    == c;
                            assert(new_players@[k] == old_new[k]);
                            assert(id2 != id) by {
                                if id2 == id {
                                    assert(pre.players@[k].id == pre.players@[iu as int].id);
                                }
                            }
                        }
                        if exists|k: int|
                            #![trigger new_players@[k]]
                            0 <= k < iu as int + 1 && killed_in_tick(pre, k)
                                && pre.players@[k].id == id2 && new_players@[k].snake.parts@[0]
                                == c {
                            let k = choose|k: int|
                                #![trigger new_players@[k]]
                                0 <= k < iu as int + 1 && killed_in_tick(pre, k)
                                    && pre.players@[k].id == id2
                                    && new_players@[k].snake.parts@[0] == c;
                            if k < iu as int {
                                assert(old_new[k] == new_players@[k]);
                                assert(old_new[k].snake.parts@[0] == c);
                            } else {
                                assert(new_players@[iu as int].snake.parts@[0] == sp);
                            }
                        }
                        if c == sp && id2 == id {
                            assert(killed_in_tick(pre, iu as int) && pre.players@[iu as int].id
                                == id2 && (#[trigger] new_players@[iu as int]).snake.parts@[0]
                                == c);
                        }
                        if occ_maps(before_clear, c, id2) && id2 != id && !killed_id_upto(
                            pre,
                            id2,
                            iu as int,
                        ) {
                            assert(occ_maps(mid.map_state@, c, id2));
                        }
                        if occ_maps(mid.map_state@, c, id2) && !killed_id_upto(
                            pre,
                            id2,
                            iu as int + 1,
                        ) {
                            assert(occ_maps(before_clear, c, id2) && id2 != id);
                        }
                    }
                    assert(respawn_ok(
                        pre.players@[iu as int],
                        new_players@[iu as int],
                        eats_pre(pre, iu as int),
                        pre.config,
                    ));
                }
            } else {
                let ghost old_new = new_players@;
                new_players.push(pd);
                proof {
                    assert forall|id2: PlayerId|
                        killed_id_upto(pre, id2, iu as int + 1) <==> killed_id_upto(
                        pre,
                        id2,
                        iu as int,
                    ) by {
                        if killed_id_upto(pre, id2, iu as int + 1) {
                            let q = choose|q: int|
                                0 <= q < iu as int + 1 && killed_in_tick(pre, q) && (
                                #[trigger] pre.players@[q]).id == id2;
                            assert(q != iu as int);
                        }
                        if killed_id_upto(pre, id2, iu as int) {
                            let q = choose|q: int|
                                0 <= q < iu as int && killed_in_tick(pre, q) && (
                                #[trigger] pre.players@[q]).id == id2;
                            assert(killed_id_upto(pre, id2, iu as int + 1));
                        }
                    }
                    assert forall|c: Point, id2: PlayerId|
                        #![trigger occ_maps(self.map_state@, c, id2)]
                        #![trigger occ_maps(mid.map_state@, c, id2)]
                        occ_maps(self.map_state@, c, id2) <==> (occ_maps(mid.map_state@, c, id2)
                            && !killed_id_upto(pre, id2, iu as int + 1)) || (exists|k: int|
                            #![trigger new_players@[k]]
                            0 <= k < iu as int + 1 && killed_in_tick(pre, k)
                                && pre.players@[k].id == id2 && new_players@[k].snake.parts@[0]
                                == c) by {
                        if exists|k: int|
                            #![trigger old_new[k]]
                            0 <= k < iu as int && killed_in_tick(pre, k) && pre.players@[k].id
                                == id2 && old_new[k].snake.parts@[0] == c {
                            let k = choose|k: int|
                                #![trigger old_new[k]]
                                0 <= k < iu as int && killed_in_tick(pre, k)
                                    && pre.players@[k].id == id2 && old_new[k].snake.parts@[0]
                                    == c;
                            assert((#[trigger] new_players@[k]) == old_new[k]);
                        }
                        if exists|k: int|
                            #![trigger new_players@[k]]
                            0 <= k < iu as int + 1 && killed_in_tick(pre, k)
                                && pre.players@[k].id == id2 && new_players@[k].snake.parts@[0]
                                == c {
                            let k = choose|k: int|
                                #![trigger new_players@[k]]
                                0 <= k < iu as int + 1 && killed_in_tick(pre, k)
                                    && pre.players@[k].id == id2
                                    && new_players@[k].snake.parts@[0] == c;
                            assert(k != iu as int);
                            assert((#[trigger] old_new[k]) == new_players@[k]);
                        }
                    }
                }
            }
            iu = iu + 1;
            proof {
                assert(self.players@ =~= mid.players@.skip(iu as int));
            }
        }
        self.players = new_players;
        proof {
            assert(iu as int == n);
            assert forall|id2: PlayerId|
                killed_id_upto(pre, id2, iu as int) <==> killed_id_upto(pre, id2, n) by {}
            assert(phase3_loop_exit(pre, mid, *self));
            lemma_phase3_shape(pre, mid, *self, killed@);
        }
    }

    /// One full simulation tick: intent application and movement against
    /// the pre-tick snapshot, order-independent collision resolution,
    /// death and respawn, food replenishment up to the target, and a
    /// best-effort wake-up for every player.
    ///
    /// The contract pins the outcome down as a function of the pre-tick
    /// state: a player whose proposed head leaves the field, lands on a
    /// still-occupied cell, or ties with another proposal is killed and
    /// reborn; every other player advances, growing exactly when it ate.
    #[verifier::loop_isolation(false)]
    pub fn tick(&mut self)
        requires
            old(self).wf(),
            old(self).consistent(),
        ensures
            final(self).wf(),
            final(self).consistent(),
            final(self).config == old(self).config,
            final(self).is_running == old(self).is_running,
            final(self).players@.len() == old(self).players@.len(),
            forall|i: int|
                0 <= i < old(self).players@.len() && !killed_in_tick(*old(self), i)
                    ==> moved_ok(
                        old(self).players@[i],
                        #[trigger] final(self).players@[i],
                        eats_pre(*old(self), i),
                    ),
            forall|i: int|
                0 <= i < old(self).players@.len() && killed_in_tick(*old(self), i)
                    ==> respawn_ok(
                        old(self).players@[i],
                        #[trigger] final(self).players@[i],
                        eats_pre(*old(self), i),
                        old(self).config,
                    ),
            forall|i: int|
                0 <= i < old(self).players@.len() && !old(self).config.in_bounds(
                    proposed_head(#[trigger] old(self).players@[i]),
                ) ==> killed_in_tick(*old(self), i),
            final(self).food@.len() == min2(
                final(self).config.food_count as int,
                final(self).config.area() - final(self).map_state@.len(),
            ),
            forall|c: Point|
                food_remaining(
                    old(self).players@,
                    old(self).food@.to_set(),
                    old(self).players@.len() as int,
                ).contains(c) ==> final(self).food@.contains(c),
    {
        let ghost pre = *self;
        let proposals = self.phase_one(Ghost(pre));
        let killed = self.phase_two(&proposals, Ghost(pre));
        self.phase_three(&killed, Ghost(pre));
        let ghost after_deaths = *self;
        self.refill_food();
        proof {
            assert forall|c: Point|
                food_remaining(
                    pre.players@,
                    pre.food@.to_set(),
                    pre.players@.len() as int,
                ).contains(c) implies self.food@.contains(c) by {
                assert(after_deaths.food@.to_set().contains(c));
                assert(after_deaths.food@.contains(c));
                let j = choose|j: int|
                    0 <= j < after_deaths.food@.len() && after_deaths.food@[j] == c;
                assert(self.food@[j] == c);
            }
        }
        let n = self.players.len();
        let mut i: usize = 0;
        while i < n
            invariant
                i <= n,
            decreases n - i,
        {
            let _delivered = notify_send(&self.players[i].tx);
            i = i + 1;
        }
    }
}

/// A surviving player's length after the tick equals its pre-tick
/// length, plus one exactly when it consumed a food cell this tick.
pub proof fn lemma_moved_length(prep: PlayerData, postp: PlayerData, did_eat: bool)
    requires
        prep.snake.wf(),
        moved_ok(prep, postp, did_eat),
    ensures
        did_eat ==> postp.snake.parts@.len() == prep.snake.parts@.len() + 1,
        !did_eat ==> postp.snake.parts@.len() == prep.snake.parts@.len(),
{
}

/// At rest no snake segment sits on a food cell: every body cell is
/// recorded in occupancy, and food is disjoint from occupancy.  In
/// particular a respawned player's cell holds no food.
pub proof fn lemma_body_cell_not_food(s: State, i: int, k: int)
    requires
        s.wf(),
        s.consistent(),
        0 <= i < s.players@.len(),
        0 <= k < s.players@[i].snake.parts@.len(),
    ensures
        !s.food@.contains(s.players@[i].snake.parts@[k]),
{
    let c = s.players@[i].snake.parts@[k];
    assert(occ_maps(s.map_state@, c, s.players@[i].id));
    if s.food@.contains(c) {
        let jz = choose|jz: int| 0 <= jz < s.map_state@.len() && s.map_state@[jz] == (
        c,
        s.players@[i].id,
        );
        assert((#[trigger] s.map_state@[jz]).0 == c);
        assert(occ_contains(s.map_state@, c));
        let jf = choose|jf: int| 0 <= jf < s.food@.len() && s.food@[jf] == c;
        assert(!occ_contains(s.map_state@, #[trigger] s.food@[jf]));
        assert(false);
    }
}

} // verus!
