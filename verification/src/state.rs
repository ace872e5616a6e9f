//! The shared world state: the player registry, the occupancy index, the
//! food set and the run flag, with atomic single-key operations.
//!
//! At rest (between ticks) the state satisfies `wf` and `consistent`:
//! every coordinate is in bounds, occupancy keys are unique, food cells
//! are free of snakes, and occupancy records exactly the cells of the
//! live snake bodies, each mapped to its owner.

use vstd::prelude::*;
use std::collections::VecDeque;
use crate::rng::{new_notify_channel, random_colour, random_direction, random_id, random_point};
use crate::snake::Snake;
use crate::types::{Colour, Config, Direction, Name, PlayerId, Point, Score};

verus! {

/// How many random draws to attempt before falling back to an exhaustive
/// scan when placing a snake or a food item.
pub const SAMPLE_TRIES: usize = 32;

/// A registered player: identity, display name, owned snake, the latest
/// client intent (cleared when applied), the outbound wake-up channel and
/// the score.
#[derive(Debug)]
pub struct PlayerData {
    pub id: PlayerId,
    pub name: Name,
    pub snake: Snake,
    pub last_move: Option<Direction>,
    pub tx: tokio::sync::mpsc::Sender<()>,
    pub score: Score,
}

impl PlayerData {
    /// A fresh player: a one-segment snake at `starting_point` and a
    /// score of 1.
    pub fn new(
        id: PlayerId,
        name: Name,
        starting_point: Point,
        colour: Colour,
        direction: Direction,
        tx: tokio::sync::mpsc::Sender<()>,
    ) -> (p: PlayerData)
        ensures
            p.id == id,
            p.name == name,
            p.snake.parts@ == seq![starting_point],
            p.snake.colour == colour,
            p.snake.direction == direction,
            p.last_move is None,
            p.tx == tx,
            p.score == 1,
    {
        let mut parts: VecDeque<Point> = VecDeque::new();
        parts.push_front(starting_point);
        PlayerData {
            id,
            name,
            snake: Snake::new(parts, colour, direction),
            last_move: None,
            tx,
            score: 1,
        }
    }

    /// Resets the player after death: a one-segment snake at
    /// `starting_point` facing `direction`, pending intent cleared.
    /// Identity, name, colour, channel and score are kept.
    pub fn killed_restart(&mut self, starting_point: Point, direction: Direction)
        ensures
            final(self).snake.parts@ == seq![starting_point],
            final(self).snake.direction == direction,
            final(self).snake.colour == old(self).snake.colour,
            final(self).last_move is None,
            final(self).id == old(self).id,
            final(self).name == old(self).name,
            final(self).tx == old(self).tx,
            final(self).score == old(self).score,
    {
        self.snake.killed_restart(starting_point, direction);
        self.last_move = None;
    }
}

/// Whether some occupancy entry claims cell `c`.
pub open spec fn occ_contains(occ: Seq<(Point, PlayerId)>, c: Point) -> bool {
    exists|i: int| 0 <= i < occ.len() && (#[trigger] occ[i]).0 == c
}

/// Whether occupancy records cell `c` as owned by player `id`.
pub open spec fn occ_maps(occ: Seq<(Point, PlayerId)>, c: Point, id: PlayerId) -> bool {
    occ.contains((c, id))
}

/// Each cell appears at most once in the occupancy index.
pub open spec fn occ_keys_unique(occ: Seq<(Point, PlayerId)>) -> bool {
    forall|i: int, j: int|
        0 <= i < j < occ.len() ==> (#[trigger] occ[i]).0 != (#[trigger] occ[j]).0
}

/// Each player id appears at most once in the registry.
pub open spec fn player_ids_unique(players: Seq<PlayerData>) -> bool {
    forall|i: int, j: int|
        0 <= i < j < players.len()
            ==> (#[trigger] players[i]).id != (#[trigger] players[j]).id
}

/// The shared world state.
pub struct State {
    pub config: Config,
    pub players: Vec<PlayerData>,
    pub map_state: Vec<(Point, PlayerId)>,
    pub is_running: bool,
    pub food: Vec<Point>,
}

impl State {
    /// The cell-level part of well-formedness: a valid configuration,
    /// unique in-bounds occupancy keys, and a duplicate-free in-bounds
    /// food set disjoint from occupancy.  This part holds even in the
    /// middle of a tick's resolution window.
    pub open spec fn cells_ok(self) -> bool {
        &&& self.config.valid()
        &&& occ_keys_unique(self.map_state@)
        &&& forall|i: int|
            0 <= i < self.map_state@.len()
                ==> self.config.in_bounds((#[trigger] self.map_state@[i]).0)
        &&& self.food@.no_duplicates()
        &&& forall|i: int|
            0 <= i < self.food@.len() ==> self.config.in_bounds(#[trigger] self.food@[i])
        &&& forall|i: int|
            0 <= i < self.food@.len()
                ==> !occ_contains(self.map_state@, #[trigger] self.food@[i])
    }

    /// The resting well-formedness of the world: the cell-level part,
    /// food never above its target, unique player ids, and every snake
    /// non-empty, in bounds, with distinct segments.
    pub open spec fn wf(self) -> bool {
        &&& self.cells_ok()
        &&& self.food@.len() <= self.config.food_count
        &&& player_ids_unique(self.players@)
        &&& forall|i: int|
            0 <= i < self.players@.len() ==> (#[trigger] self.players@[i]).snake.wf()
        &&& forall|i: int|
            0 <= i < self.players@.len()
                ==> (#[trigger] self.players@[i]).snake.parts@.no_duplicates()
        &&& forall|i: int, k: int|
            0 <= i < self.players@.len() && 0 <= k < self.players@[i].snake.parts@.len()
                ==> self.config.in_bounds(#[trigger] self.players@[i].snake.parts@[k])
    }

    /// The occupancy entry at index `j` names a registered player whose
    /// body really covers that cell.
    pub open spec fn occ_entry_owned(self, j: int) -> bool {
        exists|i: int|
            0 <= i < self.players@.len() && (#[trigger] self.players@[i]).id
                == self.map_state@[j].1 && self.players@[i].snake.parts@.contains(
                self.map_state@[j].0,
            )
    }

    /// Occupancy and the live bodies agree: every body segment is
    /// recorded in occupancy under its owner, and every occupancy entry
    /// belongs to the body of the player it names.
    pub open spec fn consistent(self) -> bool {
        &&& forall|i: int, k: int|
            0 <= i < self.players@.len() && 0 <= k < self.players@[i].snake.parts@.len()
                ==> occ_maps(
                    self.map_state@,
                    #[trigger] self.players@[i].snake.parts@[k],
                    self.players@[i].id,
                )
        &&& forall|j: int| 0 <= j < self.map_state@.len() ==> self.occ_entry_owned(j)
    }

    /// Whether the registry holds a player with this id.
    pub open spec fn has_player(self, id: PlayerId) -> bool {
        exists|i: int| 0 <= i < self.players@.len() && (#[trigger] self.players@[i]).id == id
    }

    /// Whether cell `p` is in bounds and claimed by neither a snake body
    /// nor a food item.
    pub open spec fn cell_free(self, p: Point) -> bool {
        &&& self.config.in_bounds(p)
        &&& !occ_contains(self.map_state@, p)
        &&& !self.food@.contains(p)
    }

    /// An idle world for the given configuration: no players, no
    /// occupancy, no food, not running.
    pub fn new(config: Config) -> (s: State)
        ensures
            s.config == config,
            s.players@.len() == 0,
            s.map_state@.len() == 0,
            s.food@.len() == 0,
            s.is_running == false,
            config.valid() ==> s.wf() && s.consistent(),
    {
        State {
            config,
            players: Vec::new(),
            map_state: Vec::new(),
            is_running: false,
            food: Vec::new(),
        }
    }

    /// Whether the world has drained to zero players; the simulation
    /// loop stops at the first tick boundary where this holds.
    pub fn no_players(&self) -> (r: bool)
        ensures
            r <==> self.players@.len() == 0,
    {
        self.players.len() == 0
    }

    /// Capacity admission control: a new connection may register only
    /// while the player count is below the configured maximum.
    pub fn can_accept(&self) -> (r: bool)
        ensures
            r <==> self.players@.len() < self.config.max_players_count,
    {
        self.players.len() < self.config.max_players_count
    }

    /// Atomic compare-and-set of the run flag: returns whether this call
    /// flipped it from idle to running, and so must start the one
    /// simulation loop.
    pub fn try_start_loop(&mut self) -> (started: bool)
        ensures
            final(self).is_running == true,
            started == !old(self).is_running,
            final(self).config == old(self).config,
            final(self).players == old(self).players,
            final(self).map_state == old(self).map_state,
            final(self).food == old(self).food,
    {
        let started = !self.is_running;
        self.is_running = true;
        started
    }

    /// Clears the run flag once the world has drained to zero players.
    pub fn mark_stopped(&mut self)
        ensures
            final(self).is_running == false,
            final(self).config == old(self).config,
            final(self).players == old(self).players,
            final(self).map_state == old(self).map_state,
            final(self).food == old(self).food,
    {
        self.is_running = false;
    }

    /// Whether `p` is currently free, per `cell_free`.
    pub fn is_free(&self, p: &Point) -> (r: bool)
        ensures
            r == self.cell_free(*p),
    {
        if !self.config.is_in_map(p) {
            return false;
        }
        if occ_find(&self.map_state, p).is_some() {
            return false;
        }
        if food_find(&self.food, p).is_some() {
            return false;
        }
        true
    }

    /// Draws a free cell: first by bounded rejection sampling of random
    /// cells, then, should every draw land on a claimed cell, by an
    /// exhaustive scan.  Returns `None` exactly when no in-bounds cell is
    /// free.
    #[verifier::loop_isolation(false)]
    pub fn random_free_point(&self) -> (r: Option<Point>)
        requires
            self.config.valid(),
        ensures
            match r {
                Some(p) => self.cell_free(p),
                None => forall|p: Point|
                    self.config.in_bounds(p)
                        ==> occ_contains(self.map_state@, p) || self.food@.contains(p),
            },
    {
        let mut tries: usize = 0;
        while tries < SAMPLE_TRIES
            invariant
                tries <= SAMPLE_TRIES,
            decreases SAMPLE_TRIES - tries,
        {
            let p = random_point(&self.config);
            if self.is_free(&p) {
                return Some(p);
            }
            tries = tries + 1;
        }
        let w = self.config.field_width;
        let h = self.config.field_height;
        let mut x: isize = 0;
        while x < w
            invariant
                0 <= x <= w,
                forall|p: Point|
                    #![auto]
                    self.config.in_bounds(p) && p.x < x
                        ==> occ_contains(self.map_state@, p) || self.food@.contains(p),
            decreases w - x,
        {
            let mut y: isize = 0;
            while y < h
                invariant
                    0 <= y <= h,
                    0 <= x < w,
                    forall|p: Point|
                        #![auto]
                        self.config.in_bounds(p) && p.x < x
                            ==> occ_contains(self.map_state@, p) || self.food@.contains(p),
                    forall|p: Point|
                        #![auto]
                        self.config.in_bounds(p) && p.x == x && p.y < y
                            ==> occ_contains(self.map_state@, p) || self.food@.contains(p),
                decreases h - y,
            {
                let p = Point { x, y };
                if self.is_free(&p) {
                    return Some(p);
                }
                y = y + 1;
            }
            x = x + 1;
        }
        None
    }
}

/// The occupancy entries not owned by `id`, in order.
pub open spec fn occ_without(occ: Seq<(Point, PlayerId)>, id: PlayerId) -> Seq<(Point, PlayerId)> {
    occ.filter(|e: (Point, PlayerId)| e.1 != id)
}

/// The players whose id is not `id`, in order.
pub open spec fn players_without(players: Seq<PlayerData>, id: PlayerId) -> Seq<PlayerData> {
    players.filter(|p: PlayerData| p.id != id)
}

/// What dropping one owner from the occupancy index keeps: exactly the
/// entries of other owners, with unique keys intact.
pub proof fn lemma_occ_without(occ: Seq<(Point, PlayerId)>, id: PlayerId)
    ensures
        occ_without(occ, id).len() <= occ.len(),
        forall|x: (Point, PlayerId)|
            #[trigger] occ_without(occ, id).contains(x) <==> occ.contains(x) && x.1 != id,
        occ_keys_unique(occ) ==> occ_keys_unique(occ_without(occ, id)),
    decreases occ.len(),
{
    reveal(Seq::filter);
    if occ.len() == 0 {
        assert forall|x: (Point, PlayerId)| !occ.contains(x) && !occ_without(occ, id).contains(
            x,
        ) by {}
    } else {
        let last = occ.last();
        let rest = occ.drop_last();
        lemma_occ_without(rest, id);
        let f = occ_without(occ, id);
        let fr = occ_without(rest, id);
        assert forall|x: (Point, PlayerId)| #[trigger]
            f.contains(x) implies occ.contains(x) && x.1 != id by {
            let i = choose|i: int| 0 <= i < f.len() && f[i] == x;
            if last.1 != id {
                if i < fr.len() {
                    assert(fr.contains(x));
                    let j = choose|j: int| 0 <= j < rest.len() && rest[j] == x;
                    assert(occ[j] == x);
                } else {
                    assert(x == last);
                    assert(occ[occ.len() - 1] == x);
                }
            } else {
                assert(fr.contains(x));
                let j = choose|j: int| 0 <= j < rest.len() && rest[j] == x;
                assert(occ[j] == x);
            }
        }
        assert forall|x: (Point, PlayerId)| occ.contains(x) && x.1
            != id implies #[trigger] f.contains(x) by {
            let i = choose|i: int| 0 <= i < occ.len() && occ[i] == x;
            if i < occ.len() - 1 {
                assert(rest[i] == x);
                assert(fr.contains(x));
                let j = choose|j: int| 0 <= j < fr.len() && fr[j] == x;
                assert(f[j] == x);
            } else {
                assert(x == last);
                assert(f[f.len() - 1] == x);
            }
        }
        if occ_keys_unique(occ) {
            assert forall|i: int, j: int|
                0 <= i < j < f.len() implies (#[trigger] f[i]).0 != (#[trigger] f[j]).0 by {
                if last.1 != id && j == f.len() - 1 {
                    assert(f[j] == last);
                    assert(fr.contains(f[i]));
                    let k = choose|k: int| 0 <= k < rest.len() && rest[k] == f[i];
                    assert(occ[k] == f[i] && occ[occ.len() - 1] == last);
                } else {
                    assert(fr[i] == f[i] && fr[j] == f[j]);
                }
            }
        }
    }
}

/// What dropping one id from the registry keeps: exactly the other
/// players, with unique ids intact.
pub proof fn lemma_players_without(players: Seq<PlayerData>, id: PlayerId)
    ensures
        players_without(players, id).len() <= players.len(),
        forall|x: PlayerData|
            #[trigger] players_without(players, id).contains(x) <==> players.contains(x) && x.id
                != id,
        player_ids_unique(players) ==> player_ids_unique(players_without(players, id)),
    decreases players.len(),
{
    reveal(Seq::filter);
    if players.len() == 0 {
        assert forall|x: PlayerData| !players.contains(x) && !players_without(
            players,
            id,
        ).contains(x) by {}
    } else {
        let last = players.last();
        let rest = players.drop_last();
        lemma_players_without(rest, id);
        let f = players_without(players, id);
        let fr = players_without(rest, id);
        assert forall|x: PlayerData| #[trigger] f.contains(x) implies players.contains(x) && x.id
            != id by {
            let i = choose|i: int| 0 <= i < f.len() && f[i] == x;
            if last.id != id && i == f.len() - 1 {
                assert(x == last);
                assert(players[players.len() - 1] == x);
            } else {
                assert(fr.contains(x));
                let j = choose|j: int| 0 <= j < rest.len() && rest[j] == x;
                assert(players[j] == x);
            }
        }
        assert forall|x: PlayerData| players.contains(x) && x.id
            != id implies #[trigger] f.contains(x) by {
            let i = choose|i: int| 0 <= i < players.len() && players[i] == x;
            if i < players.len() - 1 {
                assert(rest[i] == x);
                assert(fr.contains(x));
                let j = choose|j: int| 0 <= j < fr.len() && fr[j] == x;
                assert(f[j] == x);
            } else {
                assert(x == last);
                assert(f[f.len() - 1] == x);
            }
        }
        if player_ids_unique(players) {
            assert forall|i: int, j: int|
                0 <= i < j < f.len() implies (#[trigger] f[i]).id != (#[trigger] f[j]).id by {
                if last.id != id && j == f.len() - 1 {
                    assert(f[j] == last);
                    assert(fr.contains(f[i]));
                    let k = choose|k: int| 0 <= k < rest.len() && rest[k] == f[i];
                    assert(players[k] == f[i] && players[players.len() - 1] == last);
                } else {
                    assert(fr[i] == f[i] && fr[j] == f[j]);
                }
            }
        }
    }
}

/// A cell is claimed exactly when some owner is recorded for it.
pub proof fn lemma_occ_contains_iff_maps(occ: Seq<(Point, PlayerId)>, c: Point)
    ensures
        occ_contains(occ, c) <==> exists|pid: PlayerId| occ_maps(occ, c, pid),
{
    if occ_contains(occ, c) {
        let i = choose|i: int| 0 <= i < occ.len() && occ[i].0 == c;
        assert(occ[i] == (c, occ[i].1));
        assert(occ_maps(occ, c, occ[i].1));
    }
    if exists|pid: PlayerId| occ_maps(occ, c, pid) {
        let pid = choose|pid: PlayerId| occ_maps(occ, c, pid);
        let i = choose|i: int| 0 <= i < occ.len() && occ[i] == (c, pid);
        assert(occ[i].0 == c);
    }
}

impl State {
    /// Vacates every occupancy entry owned by `id`; nothing else moves.
    #[verifier::loop_isolation(false)]
    pub fn clear_player_parts(&mut self, id: PlayerId)
        ensures
            final(self).map_state@ == occ_without(old(self).map_state@, id),
            final(self).config == old(self).config,
            final(self).players == old(self).players,
            final(self).food == old(self).food,
            final(self).is_running == old(self).is_running,
    {
        let ghost orig = self.map_state@;
        let n = self.map_state.len();
        let mut kept: Vec<(Point, PlayerId)> = Vec::new();
        let mut i: usize = 0;
        while i < n
            invariant
                i <= n,
                kept@ == occ_without(orig.take(i as int), id),
            decreases n - i,
        {
            let e: (Point, PlayerId) = self.map_state[i];
            if !(e.1 == id) {
                kept.push(e);
            }
            proof {
                reveal(Seq::filter);
                assert(orig.take(i + 1).drop_last() =~= orig.take(i as int));
                assert(orig.take(i + 1).last() == e);
            }
            i = i + 1;
        }
        proof {
            assert(orig.take(n as int) =~= orig);
        }
        self.map_state = kept;
    }

    /// Removes the player with this id: vacates every cell of its snake,
    /// then drops the registry entry.  Idempotent: removing an absent id
    /// changes nothing.
    #[verifier::loop_isolation(false)]
    pub fn remove_player(&mut self, id: PlayerId)
        requires
            old(self).wf(),
        ensures
            final(self).wf(),
            final(self).players@ == players_without(old(self).players@, id),
            final(self).map_state@ == occ_without(old(self).map_state@, id),
            final(self).food == old(self).food,
            final(self).config == old(self).config,
            final(self).is_running == old(self).is_running,
            !final(self).has_player(id),
            old(self).consistent() ==> final(self).consistent(),
    {
        self.clear_player_parts(id);
        let ghost mid = *self;
        let ghost pre_players = self.players@;
        let mut kept: Vec<PlayerData> = Vec::new();
        let ghost mut done: int = 0;
        while self.players.len() > 0
            invariant
                0 <= done <= pre_players.len(),
                self.players@ == pre_players.skip(done),
                kept@ == players_without(pre_players.take(done), id),
                self.map_state == mid.map_state,
                self.config == mid.config,
                self.food == mid.food,
                self.is_running == mid.is_running,
            decreases self.players@.len(),
        {
            let pd = self.players.remove(0);
            proof {
                assert(pd == pre_players[done]);
            }
            let keep = !(pd.id == id);
            if keep {
                kept.push(pd);
            }
            proof {
                reveal(Seq::filter);
                assert(pre_players.take(done + 1).drop_last() =~= pre_players.take(done));
                assert(pre_players.take(done + 1).last() == pre_players[done]);
                done = done + 1;
                assert(self.players@ =~= pre_players.skip(done));
            }
        }
        proof {
            assert(pre_players.take(done) =~= pre_players);
        }
        self.players = kept;
        proof {
            lemma_remove_shape(*old(self), *self, id);
        }
    }
}

/// Removing one player's entries and registry row preserves the resting
/// invariants, and leaves no trace of the id.
proof fn lemma_remove_shape(pre: State, post: State, id: PlayerId)
    requires
        pre.wf(),
        post.config == pre.config,
        post.food == pre.food,
        post.players@ == players_without(pre.players@, id),
        post.map_state@ == occ_without(pre.map_state@, id),
    ensures
        post.wf(),
        !post.has_player(id),
        pre.consistent() ==> post.consistent(),
{
    lemma_occ_without(pre.map_state@, id);
    lemma_players_without(pre.players@, id);
    assert forall|j: int| 0 <= j < post.map_state@.len() implies pre.map_state@.contains(
        #[trigger] post.map_state@[j],
    ) && post.map_state@[j].1 != id by {
        assert(post.map_state@.contains(post.map_state@[j]));
    }
    assert forall|i: int| 0 <= i < post.players@.len() implies pre.players@.contains(
        #[trigger] post.players@[i],
    ) && post.players@[i].id != id by {
        assert(post.players@.contains(post.players@[i]));
    }
    assert(post.wf()) by {
        assert forall|j: int|
            0 <= j < post.map_state@.len() implies post.config.in_bounds(
            (#[trigger] post.map_state@[j]).0,
        ) by {
            let x = post.map_state@[j];
            let k = choose|k: int| 0 <= k < pre.map_state@.len() && pre.map_state@[k] == x;
        }
        assert forall|i: int|
            0 <= i < post.food@.len() implies !occ_contains(
            post.map_state@,
            #[trigger] post.food@[i],
        ) by {
            if occ_contains(post.map_state@, post.food@[i]) {
                let j = choose|j: int|
                    0 <= j < post.map_state@.len() && post.map_state@[j].0 == post.food@[i];
                let x = post.map_state@[j];
                let k = choose|k: int| 0 <= k < pre.map_state@.len() && pre.map_state@[k] == x;
                assert(occ_contains(pre.map_state@, post.food@[i]));
            }
        }
        assert forall|i: int|
            0 <= i < post.players@.len() implies {
            let p = #[trigger] post.players@[i];
            &&& p.snake.wf()
            &&& p.snake.parts@.no_duplicates()
            &&& forall|k: int|
                0 <= k < p.snake.parts@.len() ==> post.config.in_bounds(
                    #[trigger] p.snake.parts@[k],
                )
        } by {
            let p = post.players@[i];
            let j = choose|j: int| 0 <= j < pre.players@.len() && pre.players@[j] == p;
        }
    }
    if pre.consistent() {
        assert forall|i: int, k: int|
            0 <= i < post.players@.len() && 0 <= k
                < post.players@[i].snake.parts@.len() implies occ_maps(
            post.map_state@,
            #[trigger] post.players@[i].snake.parts@[k],
            post.players@[i].id,
        ) by {
            let p = post.players@[i];
            let j = choose|j: int| 0 <= j < pre.players@.len() && pre.players@[j] == p;
            assert(occ_maps(
                pre.map_state@,
                pre.players@[j].snake.parts@[k],
                pre.players@[j].id,
            ));
            assert(pre.map_state@.contains((p.snake.parts@[k], p.id)));
            assert(occ_without(pre.map_state@, id).contains((p.snake.parts@[k], p.id)));
        }
        assert forall|j: int| 0 <= j < post.map_state@.len() implies post.occ_entry_owned(j) by {
            let e = post.map_state@[j];
            assert(post.map_state@.contains(e));
            assert(pre.map_state@.contains(e) && e.1 != id);
            let jp = choose|jp: int| 0 <= jp < pre.map_state@.len() && pre.map_state@[jp] == e;
            assert(pre.occ_entry_owned(jp));
            let i = choose|i: int|
                0 <= i < pre.players@.len() && (#[trigger] pre.players@[i]).id
                    == pre.map_state@[jp].1 && pre.players@[i].snake.parts@.contains(
                    pre.map_state@[jp].0,
                );
            assert(pre.players@.contains(pre.players@[i]));
            assert(pre.players@[i].id == e.1 && e.1 != id);
            assert(post.players@.contains(pre.players@[i]));
            let i2 = choose|i2: int|
                0 <= i2 < post.players@.len() && post.players@[i2] == pre.players@[i];
            assert(post.players@[i2].id == e.1 && post.players@[i2].snake.parts@.contains(e.0));
        }
    }
}

/// Replacing one player's entry by another with the same id and snake
/// (only intent, name or score may differ) preserves the resting
/// invariants.
proof fn lemma_player_tweak(pre: State, post: State, i: int)
    requires
        pre.wf(),
        post.config == pre.config,
        post.map_state == pre.map_state,
        post.food == pre.food,
        post.players@.len() == pre.players@.len(),
        0 <= i < pre.players@.len(),
        forall|k: int|
            0 <= k < pre.players@.len() && k != i ==> post.players@[k] == pre.players@[k],
        post.players@[i].id == pre.players@[i].id,
        post.players@[i].snake == pre.players@[i].snake,
    ensures
        post.wf(),
        pre.consistent() ==> post.consistent(),
{
    assert forall|a: int, b: int| 0 <= a < b < post.players@.len() implies (
    #[trigger] post.players@[a]).id != (#[trigger] post.players@[b]).id by {
        assert(post.players@[a].id == pre.players@[a].id);
        assert(post.players@[b].id == pre.players@[b].id);
    }
    assert forall|a: int|
        0 <= a < post.players@.len() implies {
        let p = #[trigger] post.players@[a];
        &&& p.snake.wf()
        &&& p.snake.parts@.no_duplicates()
        &&& forall|k: int|
            0 <= k < p.snake.parts@.len() ==> post.config.in_bounds(#[trigger] p.snake.parts@[k])
    } by {
        assert(post.players@[a].snake == pre.players@[a].snake);
    }
    if pre.consistent() {
        assert forall|a: int, k: int|
            0 <= a < post.players@.len() && 0 <= k
                < post.players@[a].snake.parts@.len() implies occ_maps(
            post.map_state@,
            #[trigger] post.players@[a].snake.parts@[k],
            post.players@[a].id,
        ) by {
            assert(post.players@[a].snake == pre.players@[a].snake);
            assert(occ_maps(
                pre.map_state@,
                pre.players@[a].snake.parts@[k],
                pre.players@[a].id,
            ));
        }
        assert forall|j: int| 0 <= j < post.map_state@.len() implies post.occ_entry_owned(
            j,
        ) by {
            assert(pre.occ_entry_owned(j));
            let a = choose|a: int|
                0 <= a < pre.players@.len() && (#[trigger] pre.players@[a]).id
                    == pre.map_state@[j].1 && pre.players@[a].snake.parts@.contains(
                    pre.map_state@[j].0,
                );
            assert(post.players@[a].id == post.map_state@[j].1
                && post.players@[a].snake.parts@.contains(post.map_state@[j].0));
        }
    }
}

/// Index of the registry entry for player `id`, when one exists.
pub fn player_find(players: &Vec<PlayerData>, id: PlayerId) -> (r: Option<usize>)
    ensures
        match r {
            Some(i) => i < players@.len() && players@[i as int].id == id,
            None => forall|k: int| 0 <= k < players@.len() ==> (#[trigger] players@[k]).id != id,
        },
{
    let n = players.len();
    let mut i: usize = 0;
    while i < n
        invariant
            i <= n,
            n == players@.len(),
            forall|k: int| 0 <= k < i ==> (#[trigger] players@[k]).id != id,
        decreases n - i,
    {
        let pid = players[i].id;
        if pid == id {
            return Some(i);
        }
        i = i + 1;
    }
    None
}

impl State {
    /// Records the player's latest intent: the pending direction that the
    /// next tick will apply.  Fails, leaving the world untouched, exactly
    /// when no player with this id is registered.
    #[verifier::loop_isolation(false)]
    pub fn set_intent(&mut self, id: PlayerId, direction: Direction) -> (r: Result<
        (),
        crate::errors::GameError,
    >)
        requires
            old(self).wf(),
        ensures
            final(self).wf(),
            r is Ok <==> old(self).has_player(id),
            old(self).consistent() ==> final(self).consistent(),
            final(self).config == old(self).config,
            final(self).is_running == old(self).is_running,
            final(self).map_state == old(self).map_state,
            final(self).food == old(self).food,
            final(self).players@.len() == old(self).players@.len(),
            r is Err ==> final(self).players == old(self).players,
            forall|i: int|
                0 <= i < old(self).players@.len() && (#[trigger] old(self).players@[i]).id != id
                    ==> final(self).players@[i] == old(self).players@[i],
            forall|i: int|
                0 <= i < old(self).players@.len() && (#[trigger] old(self).players@[i]).id == id
                    ==> {
                    let p = final(self).players@[i];
                    &&& p.id == id
                    &&& p.last_move == Some(direction)
                    &&& p.snake == old(self).players@[i].snake
                    &&& p.name == old(self).players@[i].name
                    &&& p.tx == old(self).players@[i].tx
                    &&& p.score == old(self).players@[i].score
                },
    {
        match player_find(&self.players, id) {
            Some(i) => {
                let mut pd = self.players.remove(i);
                pd.last_move = Some(direction);
                let ghost pdg = pd;
                self.players.insert(i, pd);
                proof {
                    assert(self.players@ =~= old(self).players@.update(i as int, pdg));
                    assert(old(self).players@[i as int].id == id);
                    lemma_player_tweak(*old(self), *self, i as int);
                    assert forall|k: int|
                        0 <= k < old(self).players@.len() && (#[trigger] old(
                            self,
                        ).players@[k]).id == id implies k == i as int by {
                        if k != i as int {
                            assert(old(self).players@[k].id != old(self).players@[i as int].id);
                        }
                    }
                }
                Ok(())
            },
            None => {
                proof {
                    if old(self).has_player(id) {
                        let k = choose|k: int|
                            0 <= k < old(self).players@.len() && (#[trigger] old(
                                self,
                            ).players@[k]).id == id;
                        assert(false);
                    }
                }
                Err(crate::errors::GameError)
            },
        }
    }

    /// Inserts a fresh player with the given identity and placement,
    /// claiming the starting cell in occupancy.  The id must be unused
    /// and the cell free.
    pub fn add_player(
        &mut self,
        id: PlayerId,
        name: Name,
        starting_point: Point,
        colour: Colour,
        direction: Direction,
        tx: tokio::sync::mpsc::Sender<()>,
    )
        requires
            old(self).wf(),
            old(self).consistent(),
            !old(self).has_player(id),
            old(self).cell_free(starting_point),
        ensures
            final(self).wf(),
            final(self).consistent(),
            final(self).has_player(id),
            final(self).players@.len() == old(self).players@.len() + 1,
            forall|i: int|
                0 <= i < old(self).players@.len() ==> final(self).players@[i] == old(
                    self,
                ).players@[i],
            final(self).players@.last().id == id,
            final(self).players@.last().name == name,
            final(self).players@.last().snake.parts@ == seq![starting_point],
            final(self).players@.last().snake.colour == colour,
            final(self).players@.last().snake.direction == direction,
            final(self).players@.last().last_move is None,
            final(self).players@.last().tx == tx,
            final(self).players@.last().score == 1,
            final(self).map_state@ == old(self).map_state@.push((starting_point, id)),
            final(self).food == old(self).food,
            final(self).config == old(self).config,
            final(self).is_running == old(self).is_running,
    {
        let pd = PlayerData::new(id, name, starting_point, colour, direction, tx);
        self.players.push(pd);
        self.map_state.push((starting_point, id));
        proof {
            let pre = *old(self);
            let post = *self;
            let n = pre.players@.len() as int;
            assert(post.players@[n].id == id);
            assert forall|a: int, b: int|
                0 <= a < b < post.players@.len() implies (#[trigger] post.players@[a]).id != (
            #[trigger] post.players@[b]).id by {
                if b == n {
                    assert(pre.players@.contains(pre.players@[a]));
                }
            }
            assert forall|j: int|
                0 <= j < post.map_state@.len() implies post.config.in_bounds(
                (#[trigger] post.map_state@[j]).0,
            ) && occ_keys_unique(post.map_state@) by {
                assert forall|a: int, b: int|
                    0 <= a < b < post.map_state@.len() implies (#[trigger] post.map_state@[a]).0
                    != (#[trigger] post.map_state@[b]).0 by {
                    if b == pre.map_state@.len() {
                        assert(!occ_contains(pre.map_state@, starting_point));
                    }
                }
            }
            assert forall|i: int|
                0 <= i < post.food@.len() implies !occ_contains(
                post.map_state@,
                #[trigger] post.food@[i],
            ) by {
                if occ_contains(post.map_state@, post.food@[i]) {
                    let j = choose|j: int|
                        0 <= j < post.map_state@.len() && (#[trigger] post.map_state@[j]).0
                            == post.food@[i];
                    if j < pre.map_state@.len() {
                        assert(occ_contains(pre.map_state@, post.food@[i]));
                    } else {
                        assert(post.food@[i] == starting_point);
                        assert(!pre.food@.contains(starting_point));
                    }
                }
            }
            assert(post.wf());
            assert forall|i: int, k: int|
                0 <= i < post.players@.len() && 0 <= k
                    < post.players@[i].snake.parts@.len() implies occ_maps(
                post.map_state@,
                #[trigger] post.players@[i].snake.parts@[k],
                post.players@[i].id,
            ) by {
                if i < n {
                    assert(occ_maps(
                        pre.map_state@,
                        pre.players@[i].snake.parts@[k],
                        pre.players@[i].id,
                    ));
                    let j = choose|j: int|
                        0 <= j < pre.map_state@.len() && pre.map_state@[j] == (
                        pre.players@[i].snake.parts@[k],
                        pre.players@[i].id,
                        );
                    assert(post.map_state@[j] == (
                        post.players@[i].snake.parts@[k],
                        post.players@[i].id,
                    ));
                } else {
                    assert(post.map_state@[pre.map_state@.len() as int] == (starting_point, id));
                }
            }
            assert forall|j: int| 0 <= j < post.map_state@.len() implies post.occ_entry_owned(
                j,
            ) by {
                if j < pre.map_state@.len() {
                    assert(pre.occ_entry_owned(j));
                    let a = choose|a: int|
                        0 <= a < pre.players@.len() && (#[trigger] pre.players@[a]).id
                            == pre.map_state@[j].1 && pre.players@[a].snake.parts@.contains(
                            pre.map_state@[j].0,
                        );
                    assert(post.players@[a].id == post.map_state@[j].1
                        && post.players@[a].snake.parts@.contains(post.map_state@[j].0));
                } else {
                    assert(post.players@[n].snake.parts@[0] == starting_point);
                    assert(post.players@[n].id == post.map_state@[j].1
                        && post.players@[n].snake.parts@.contains(post.map_state@[j].0));
                }
            }
        }
    }

    /// Registers a brand-new player: draws an identity, colour and
    /// direction at random, places the snake on a free cell, and creates
    /// the single-slot wake-up channel.  Fails, leaving the world
    /// untouched, only when the drawn identity collides with a
    /// registered one (possible only while players exist) or when no
    /// free cell exists; in particular, registration into an empty world
    /// with a free cell always succeeds.
    pub fn spawn_player(&mut self, name: Name) -> (r: Result<
        (PlayerId, tokio::sync::mpsc::Receiver<()>),
        crate::errors::GameError,
    >)
        requires
            old(self).wf(),
            old(self).consistent(),
        ensures
            final(self).wf(),
            final(self).consistent(),
            final(self).config == old(self).config,
            final(self).is_running == old(self).is_running,
            final(self).food == old(self).food,
            old(self).players@.len() == 0 && (exists|p: Point| old(self).cell_free(p))
                ==> r is Ok,
            (forall|p: Point| !old(self).cell_free(p)) ==> r is Err,
            r is Err ==> old(self).players@.len() > 0 || (forall|p: Point|
                !old(self).cell_free(p)),
            match r {
                Ok((id, _)) => {
                    &&& !old(self).has_player(id)
                    &&& final(self).has_player(id)
                    &&& final(self).players@.len() == old(self).players@.len() + 1
                    &&& forall|i: int|
                        0 <= i < old(self).players@.len() ==> final(self).players@[i] == old(
                            self,
                        ).players@[i]
                    &&& final(self).players@.last().id == id
                    &&& final(self).players@.last().name == name
                    &&& final(self).players@.last().snake.parts@.len() == 1
                    &&& old(self).cell_free(final(self).players@.last().snake.parts@[0])
                    &&& final(self).players@.last().score == 1
                    &&& final(self).players@.last().last_move is None
                    &&& final(self).map_state@ == old(self).map_state@.push(
                        (final(self).players@.last().snake.parts@[0], id),
                    )
                },
                Err(_) => {
                    &&& final(self).players == old(self).players
                    &&& final(self).map_state == old(self).map_state
                },
            },
    {
        let id = random_id();
        match player_find(&self.players, id) {
            Some(_) => {
                proof {
                    assert(old(self).players@.len() > 0);
                }
                return Err(crate::errors::GameError);
            },
            None => {},
        }
        let colour = random_colour();
        let direction = random_direction();
        let sp = match self.random_free_point() {
            Some(p) => p,
            None => {
                proof {
                    assert forall|p: Point| !old(self).cell_free(p) by {
                        if old(self).cell_free(p) {
                            assert(occ_contains(old(self).map_state@, p) || old(
                                self,
                            ).food@.contains(p));
                        }
                    }
                }
                return Err(crate::errors::GameError);
            },
        };
        let (tx, rx) = new_notify_channel(1);
        self.add_player(id, name, sp, colour, direction, tx);
        proof {
            assert(old(self).cell_free(sp));
        }
        Ok((id, rx))
    }

    /// The one-time configuration reply sent on registration: the field
    /// dimensions.
    pub fn register_message(&self) -> (msg: crate::messages::ServerMessage)
        ensures
            msg matches crate::messages::ServerMessage::Register { field_width, field_height }
                && field_width == self.config.field_width && field_height
                == self.config.field_height,
    {
        crate::messages::ServerMessage::Register {
            field_width: self.config.field_width,
            field_height: self.config.field_height,
        }
    }
}

/// The smaller of two integers.
pub open spec fn min2(a: int, b: int) -> int {
    if a <= b {
        a
    } else {
        b
    }
}

/// The cells of the occupancy index, in entry order.
pub open spec fn occ_cells(occ: Seq<(Point, PlayerId)>) -> Seq<Point> {
    occ.map_values(|e: (Point, PlayerId)| e.0)
}

/// The cell sequence mirrors the occupancy entries one for one.
pub proof fn lemma_occ_cells(occ: Seq<(Point, PlayerId)>)
    ensures
        occ_cells(occ).len() == occ.len(),
        forall|i: int| 0 <= i < occ.len() ==> occ_cells(occ)[i] == (#[trigger] occ[i]).0,
        occ_keys_unique(occ) ==> occ_cells(occ).no_duplicates(),
        forall|c: Point| #[trigger] occ_cells(occ).contains(c) <==> occ_contains(occ, c),
{
    assert forall|c: Point| #[trigger]
        occ_cells(occ).contains(c) implies occ_contains(occ, c) by {
        let i = choose|i: int| 0 <= i < occ_cells(occ).len() && occ_cells(occ)[i] == c;
        assert(occ[i].0 == c);
    }
    assert forall|c: Point| occ_contains(occ, c) implies #[trigger] occ_cells(occ).contains(
        c,
    ) by {
        let i = choose|i: int| 0 <= i < occ.len() && (#[trigger] occ[i]).0 == c;
        assert(occ_cells(occ)[i] == c);
    }
}

/// At rest, the cells claimed by snakes and by food together never
/// outnumber the field.
pub proof fn lemma_claimed_bounded(s: State)
    requires
        s.cells_ok(),
    ensures
        s.map_state@.len() + s.food@.len() <= s.config.area(),
{
    let cells = occ_cells(s.map_state@) + s.food@;
    let w = s.config.field_width as int;
    let h = s.config.field_height as int;
    lemma_occ_cells(s.map_state@);
    assert forall|i: int, j: int|
        0 <= i < occ_cells(s.map_state@).len() && 0 <= j < s.food@.len() implies occ_cells(
        s.map_state@,
    )[i] != s.food@[j] by {
        assert(occ_cells(s.map_state@)[i] == s.map_state@[i].0);
        if s.map_state@[i].0 == s.food@[j] {
            assert(occ_contains(s.map_state@, s.food@[j]));
        }
    }
    vstd::seq_lib::lemma_no_dup_in_concat(occ_cells(s.map_state@), s.food@);
    assert forall|i: int| 0 <= i < cells.len() implies crate::grid::cell_in(
        #[trigger] cells[i],
        w,
        h,
    ) by {
        if i < s.map_state@.len() {
            assert(cells[i] == s.map_state@[i].0);
            assert(s.config.in_bounds(s.map_state@[i].0));
        } else {
            assert(cells[i] == s.food@[i - s.map_state@.len()]);
        }
    }
    crate::grid::lemma_occupied_bounded(cells, w, h);
}

/// When every in-bounds cell is claimed by a snake or a food item, the
/// claims tile the field exactly.
pub proof fn lemma_saturated(s: State)
    requires
        s.cells_ok(),
        forall|p: Point|
            s.config.in_bounds(p) ==> occ_contains(s.map_state@, p) || s.food@.contains(p),
    ensures
        s.map_state@.len() + s.food@.len() == s.config.area(),
{
    let cells = occ_cells(s.map_state@) + s.food@;
    let w = s.config.field_width as int;
    let h = s.config.field_height as int;
    lemma_claimed_bounded(s);
    lemma_occ_cells(s.map_state@);
    assert forall|i: int, j: int|
        0 <= i < occ_cells(s.map_state@).len() && 0 <= j < s.food@.len() implies occ_cells(
        s.map_state@,
    )[i] != s.food@[j] by {
        assert(occ_cells(s.map_state@)[i] == s.map_state@[i].0);
        if s.map_state@[i].0 == s.food@[j] {
            assert(occ_contains(s.map_state@, s.food@[j]));
        }
    }
    vstd::seq_lib::lemma_no_dup_in_concat(occ_cells(s.map_state@), s.food@);
    assert forall|p: Point| crate::grid::cell_in(p, w, h) implies cells.contains(p) by {
        assert(s.config.in_bounds(p));
        if occ_contains(s.map_state@, p) {
            let i = choose|i: int| 0 <= i < s.map_state@.len() && (#[trigger] s.map_state@[i]).0 == p;
            assert(cells[i] == p);
        } else {
            let j = choose|j: int| 0 <= j < s.food@.len() && s.food@[j] == p;
            assert(cells[s.map_state@.len() + j] == p);
        }
    }
    crate::grid::lemma_grid_covered(cells, w, h);
}

/// Consistency concerns only the registry and the occupancy index: a
/// world with the same players and occupancy is just as consistent.
pub proof fn lemma_consistent_same_core(a: State, b: State)
    requires
        a.consistent(),
        b.players == a.players,
        b.map_state == a.map_state,
    ensures
        b.consistent(),
{
    assert forall|i: int, k: int|
        0 <= i < b.players@.len() && 0 <= k < b.players@[i].snake.parts@.len() implies occ_maps(
        b.map_state@,
        #[trigger] b.players@[i].snake.parts@[k],
        b.players@[i].id,
    ) by {
        assert(occ_maps(a.map_state@, a.players@[i].snake.parts@[k], a.players@[i].id));
    }
    assert forall|j: int| 0 <= j < b.map_state@.len() implies b.occ_entry_owned(j) by {
        assert(a.occ_entry_owned(j));
        let i = choose|i: int|
            0 <= i < a.players@.len() && (#[trigger] a.players@[i]).id == a.map_state@[j].1
                && a.players@[i].snake.parts@.contains(a.map_state@[j].0);
        assert(b.players@[i].id == b.map_state@[j].1 && b.players@[i].snake.parts@.contains(
            b.map_state@[j].0,
        ));
    }
}

impl State {
    /// Replenishes the food set up to the configured target by repeated
    /// free-cell sampling.  Afterwards the food count equals the target,
    /// unless fewer free cells exist, in which case food fills every
    /// remaining free cell.
    #[verifier::loop_isolation(false)]
    pub fn refill_food(&mut self)
        requires
            old(self).wf(),
        ensures
            final(self).wf(),
            final(self).config == old(self).config,
            final(self).players == old(self).players,
            final(self).map_state == old(self).map_state,
            final(self).is_running == old(self).is_running,
            old(self).food@.is_prefix_of(final(self).food@),
            final(self).food@.len() == min2(
                final(self).config.food_count as int,
                final(self).config.area() - final(self).map_state@.len(),
            ),
            old(self).consistent() ==> final(self).consistent(),
    {
        let ghost orig = *old(self);
        let mut saturated = false;
        while !saturated && self.food.len() < self.config.food_count
            invariant
                self.wf(),
                self.config == orig.config,
                self.players == orig.players,
                self.map_state == orig.map_state,
                self.is_running == orig.is_running,
                orig.food@.is_prefix_of(self.food@),
                saturated ==> self.map_state@.len() + self.food@.len() == self.config.area(),
            decreases
                    self.config.food_count - self.food@.len(),
                    (if saturated {
                        0int
                    } else {
                        1int
                    }),
        {
            match self.random_free_point() {
                Some(p) => {
                    self.food.push(p);
                },
                None => {
                    proof {
                        lemma_saturated(*self);
                    }
                    saturated = true;
                },
            }
        }
        proof {
            lemma_claimed_bounded(*self);
            if self.food@.len() == self.config.food_count {
            } else {
                assert(saturated);
            }
            if orig.consistent() {
                lemma_consistent_same_core(orig, *self);
            }
        }
    }

    /// The full world snapshot sent to every client once per tick: each
    /// player's snake, id, name and score, and every food cell.
    #[verifier::loop_isolation(false)]
    pub fn snapshot(&self) -> (msg: crate::messages::ServerMessage)
        ensures
            msg matches crate::messages::ServerMessage::Turn { players, food }
                && food@ == self.food@ && players@.len() == self.players@.len() && (forall|i: int|
                0 <= i < self.players@.len() ==> {
                    let info = #[trigger] players@[i];
                    &&& info.0.parts@ == self.players@[i].snake.parts@
                    &&& info.0.colour == self.players@[i].snake.colour
                    &&& info.0.direction == self.players@[i].snake.direction
                    &&& info.1 == self.players@[i].id
                    &&& info.2 == self.players@[i].name
                    &&& info.3 == self.players@[i].score
                }),
    {
        let n = self.players.len();
        let mut players: Vec<crate::messages::PlayerInfo> = Vec::new();
        let mut i: usize = 0;
        while i < n
            invariant
                i <= n,
                players@.len() == i,
                forall|k: int|
                    0 <= k < i ==> {
                        let info = #[trigger] players@[k];
                        &&& info.0.parts@ == self.players@[k].snake.parts@
                        &&& info.0.colour == self.players@[k].snake.colour
                        &&& info.0.direction == self.players@[k].snake.direction
                        &&& info.1 == self.players@[k].id
                        &&& info.2 == self.players@[k].name
                        &&& info.3 == self.players@[k].score
                    },
            decreases n - i,
        {
            let p = &self.players[i];
            let snake = p.snake.duplicate();
            let name = p.name.clone();
            players.push((snake, p.id, name, p.score));
            i = i + 1;
        }
        let m = self.food.len();
        let mut food: Vec<Point> = Vec::new();
        let mut j: usize = 0;
        while j < m
            invariant
                j <= m,
                food@ == self.food@.take(j as int),
            decreases m - j,
        {
            let c: Point = self.food[j];
            food.push(c);
            proof {
                assert(food@ =~= self.food@.take(j + 1 as int));
            }
            j = j + 1;
        }
        proof {
            assert(food@ =~= self.food@);
        }
        crate::messages::ServerMessage::Turn { players, food }
    }
}

/// Index of the occupancy entry claiming cell `c`, when one exists.
pub fn occ_find(occ: &Vec<(Point, PlayerId)>, c: &Point) -> (r: Option<usize>)
    ensures
        match r {
            Some(i) => i < occ@.len() && occ@[i as int].0 == *c,
            None => !occ_contains(occ@, *c),
        },
        r is Some <==> occ_contains(occ@, *c),
{
    let n = occ.len();
    let mut i: usize = 0;
    while i < n
        invariant
            i <= n,
            n == occ@.len(),
            forall|k: int| 0 <= k < i ==> (#[trigger] occ@[k]).0 != *c,
        decreases n - i,
    {
        let e: (Point, PlayerId) = occ[i];
        if e.0 == *c {
            return Some(i);
        }
        i = i + 1;
    }
    None
}

/// Index of the food item at cell `c`, when one exists.
pub fn food_find(food: &Vec<Point>, c: &Point) -> (r: Option<usize>)
    ensures
        match r {
            Some(i) => i < food@.len() && food@[i as int] == *c,
            None => !food@.contains(*c),
        },
        r is Some <==> food@.contains(*c),
{
    let n = food.len();
    let mut i: usize = 0;
    while i < n
        invariant
            i <= n,
            n == food@.len(),
            forall|k: int| 0 <= k < i ==> food@[k] != *c,
        decreases n - i,
    {
        let e: Point = food[i];
        if e == *c {
            return Some(i);
        }
        i = i + 1;
    }
    None
}

} // verus!
