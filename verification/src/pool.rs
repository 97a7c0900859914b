//! The pool: one game per community, created lazily, all ticked together.
//!
//! The host process holds the pool behind its own lock; `get_game` hands
//! out exclusive access to one community's game for the duration of one
//! command, and `tick` drives every game by the same time step.

use vstd::prelude::*;

use crate::game::{game_tick_spec, wf_game, Game, GameModel, PhaseModel};
use crate::output::{OutputPipe, PipeModel};
use crate::team::{TeamModel, TeamRegistry};

verus! {

struct PoolEntry {
    community: u64,
    game: Game,
}

/// The registry of games, keyed by community identifier.
pub struct Pool {
    games: Vec<PoolEntry>,
}

impl View for Pool {
    type V = Seq<(u64, GameModel)>;

    closed spec fn view(&self) -> Seq<(u64, GameModel)> {
        self.games@.map_values(|e: PoolEntry| (e.community, e.game@))
    }
}

/// A game for this community is registered.
pub open spec fn pool_has(ps: Seq<(u64, GameModel)>, community: u64) -> bool {
    exists|i: int| 0 <= i < ps.len() && (#[trigger] ps[i]).0 == community
}

/// The index of this community's game (meaningful under `pool_has`).
pub open spec fn pool_index(ps: Seq<(u64, GameModel)>, community: u64) -> int {
    choose|i: int| 0 <= i < ps.len() && (#[trigger] ps[i]).0 == community
}

/// Well-formedness of the pool: one game per community, each well-formed.
pub open spec fn wf_pool(ps: Seq<(u64, GameModel)>) -> bool {
    &&& forall|i: int, j: int|
        #![trigger ps[i].0, ps[j].0]
        0 <= i < ps.len() && 0 <= j < ps.len() && i != j ==> ps[i].0 != ps[j].0
    &&& forall|i: int| 0 <= i < ps.len() ==> wf_game((#[trigger] ps[i]).1)
}

/// The game a community starts with: in setup, unpaused, with no teams, no
/// pending notifications, and its output bound to the home channel.
pub open spec fn fresh_game(community: u64, channel: u64) -> GameModel {
    GameModel {
        phase: PhaseModel::Setup,
        teams: Seq::<TeamModel>::empty(),
        out: PipeModel {
            community,
            channel,
            msgs: Seq::empty(),
            channels: Seq::empty(),
        },
        paused: false,
    }
}

/// Handing a well-formed game back to the slot it came from keeps the pool
/// well-formed.
pub proof fn lemma_pool_update_wf(ps: Seq<(u64, GameModel)>, i: int, gm: GameModel)
    requires
        wf_pool(ps),
        0 <= i < ps.len(),
        wf_game(gm),
    ensures
        wf_pool(ps.update(i, (ps[i].0, gm))),
{
}

/// Registering a well-formed game for a community that had none keeps the
/// pool well-formed.
pub proof fn lemma_pool_push_wf(ps: Seq<(u64, GameModel)>, community: u64, gm: GameModel)
    requires
        wf_pool(ps),
        !pool_has(ps, community),
        wf_game(gm),
    ensures
        wf_pool(ps.push((community, gm))),
{
    let r = ps.push((community, gm));
    assert forall|i: int, j: int|
        0 <= i < r.len() && 0 <= j < r.len() && i != j implies #[trigger] r[i].0
        != #[trigger] r[j].0 by {
        if i < ps.len() && j < ps.len() {
            assert(ps[i].0 != ps[j].0);
        } else if i < ps.len() {
            assert(!((#[trigger] ps[i]).0 == community));
        } else {
            assert(!((#[trigger] ps[j]).0 == community));
        }
    }
}

impl Default for Pool {
    fn default() -> (r: Pool)
        ensures
            r@ == Seq::<(u64, GameModel)>::empty(),
            wf_pool(r@),
    {
        Pool::new()
    }
}

impl Pool {
    /// An empty pool.
    pub fn new() -> (r: Pool)
        ensures
            r@ == Seq::<(u64, GameModel)>::empty(),
            wf_pool(r@),
    {
        let r = Pool { games: Vec::new() };
        proof {
            assert(r@ =~= Seq::<(u64, GameModel)>::empty());
        }
        r
    }

    /// Exclusive access to the community's game, creating it on first
    /// contact with its output bound to the given home channel. Nothing
    /// else in the pool is touched.
    pub fn get_game(&mut self, community: u64, channel: u64) -> (g: &mut Game)
        requires
            wf_pool(old(self)@),
        ensures
            wf_game((*g)@),
            pool_has(old(self)@, community) ==> ({
                let i = pool_index(old(self)@, community);
                &&& (*g)@ == old(self)@[i].1
                &&& final(self)@.len() == old(self)@.len()
                &&& final(self)@[i] == (community, final(g)@)
                &&& forall|k: int|
                    0 <= k < old(self)@.len() && k != i ==> final(self)@[k] == old(self)@[k]
            }),
            !pool_has(old(self)@, community) ==> ({
                &&& (*g)@ == fresh_game(community, channel)
                &&& final(self)@.len() == old(self)@.len() + 1
                &&& final(self)@[old(self)@.len() as int] == (community, final(g)@)
                &&& forall|k: int|
                    0 <= k < old(self)@.len() ==> final(self)@[k] == old(self)@[k]
            }),
    {
        let n = self.games.len();
        let mut i: usize = 0;
        while i < n
            invariant
                n == self@.len(),
                i <= n,
                self@ == old(self)@,
                wf_pool(old(self)@),
                forall|k: int| 0 <= k < i ==> (#[trigger] self@[k]).0 != community,
            decreases n - i,
        {
            if self.games[i].community == community {
                proof {
                    assert((old(self)@[i as int]).0 == community);
                    assert(pool_has(old(self)@, community));
                    let ci = pool_index(old(self)@, community);
                    assert((old(self)@[ci]).0 == community);
                    if ci != i as int {
                        assert(old(self)@[ci].0 != old(self)@[i as int].0);
                    }
                    assert(wf_game(old(self)@[i as int].1));
                }
                return &mut self.games[i].game;
            }
            i += 1;
        }
        proof {
            assert(!pool_has(self@, community));
        }
        let pipe = OutputPipe::new(community, channel);
        let teams = TeamRegistry::new();
        let game = Game::new(pipe, teams);
        self.games.push(PoolEntry { community, game });
        let last = self.games.len() - 1;
        &mut self.games[last].game
    }

    /// One global time step: every registered game ticks by `dt`. Order
    /// across communities is immaterial: the games are independent.
    pub fn tick(&mut self, dt: u64)
        requires
            wf_pool(old(self)@),
        ensures
            final(self)@.len() == old(self)@.len(),
            forall|k: int|
                0 <= k < old(self)@.len() ==> final(self)@[k] == (
                old(self)@[k].0,
                game_tick_spec(old(self)@[k].1, dt),
            ),
            wf_pool(final(self)@),
    {
        let mut i: usize = 0;
        while i < self.games.len()
            invariant
                self@.len() == old(self)@.len(),
                i <= self@.len(),
                wf_pool(old(self)@),
                forall|k: int|
                    0 <= k < i ==> self@[k] == (
                    old(self)@[k].0,
                    game_tick_spec(old(self)@[k].1, dt),
                ),
                forall|k: int| i <= k < self@.len() ==> self@[k] == old(self)@[k],
            decreases self@.len() - i,
        {
            let ghost pre = self@;
            let mut e = self.games.remove(i);
            e.game.tick(dt);
            self.games.insert(i, e);
            proof {
                assert(self@ =~= pre.update(
                    i as int,
                    (pre[i as int].0, game_tick_spec(pre[i as int].1, dt)),
                ));
            }
            i += 1;
        }
        assert forall|k: int| 0 <= k < final(self)@.len() implies wf_game(
            (#[trigger] final(self)@[k]).1,
        ) by {}
    }
}

} // verus!
