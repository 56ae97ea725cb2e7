//! Game snapshots, state interests, and the TTL'd snapshot cache.
//!
//! A snapshot is refetched when the cached one is stale (older than the
//! cache TTL) or when a new interest is *additive* over the last one: it
//! asks for a field the last request did not cover.

use vstd::prelude::*;

use crate::pos::{BlockPos, Dimension};

verus! {

/// How long a cached snapshot stays fresh, in milliseconds.
pub const CACHE_TIME_MS: u64 = 500;

/// One live entity: its id and whether it is a living kind.
#[derive(Clone, Copy, Debug, PartialEq, Eq, Structural)]
pub struct EntityDetails {
    pub id: i32,
    pub living: bool,
}

/// Details of the block a snapshot was asked about.
#[derive(Clone, Copy, Debug, PartialEq, Eq, Structural)]
pub struct BlockDetails {
    pub pos: BlockPos,
    pub has_color: bool,
}

/// A decoded state snapshot from the game.
#[derive(Clone, Debug)]
pub struct GameState {
    pub player_entity_id: Option<i32>,
    pub player_world: Option<Dimension>,
    pub entities: Vec<EntityDetails>,
    pub block: Option<BlockDetails>,
}

impl GameState {
    pub fn new() -> (r: Self)
        ensures
            r.player_entity_id is None,
            r.player_world is None,
            r.entities@ == Seq::<EntityDetails>::empty(),
            r.block is None,
    {
        let r = GameState {
            player_entity_id: None,
            player_world: None,
            entities: Vec::new(),
            block: None,
        };
        proof {
            assert(r.entities@ =~= Seq::<EntityDetails>::empty());
        }
        r
    }

    /// Whether the player is currently in a game.
    pub fn is_in_game(&self) -> (r: bool)
        ensures
            r == self.player_entity_id is Some,
    {
        self.player_entity_id.is_some()
    }
}

/// The set of snapshot fields a request asks to be populated.
#[derive(Clone, Copy, Debug, PartialEq, Eq, Structural)]
pub struct GameStateInterest {
    pub entities_by_id: bool,
    pub target_world: Option<Dimension>,
    pub target_block: Option<BlockPos>,
}

impl Default for GameStateInterest {
    /// The empty interest: no fields requested.
    fn default() -> (r: Self)
        ensures
            !r.entities_by_id,
            r.target_world is None,
            r.target_block is None,
    {
        GameStateInterest { entities_by_id: false, target_world: None, target_block: None }
    }
}

/// Whether `newer` asks for something `older` did not cover: it turns on
/// `entities_by_id`, or names a target block that differs from the old one.
pub open spec fn is_additive_spec(older: GameStateInterest, newer: GameStateInterest) -> bool {
    ||| (!older.entities_by_id && newer.entities_by_id)
    ||| (newer.target_block is Some && older.target_block != newer.target_block)
}

impl GameStateInterest {
    /// Whether `newer` is additive over `self`.
    pub fn is_additive(&self, newer: &GameStateInterest) -> (r: bool)
        ensures
            r == is_additive_spec(*self, *newer),
    {
        if !self.entities_by_id && newer.entities_by_id {
            return true;
        }
        if newer.target_block.is_some() {
            // only bother checking when the target block now matters
            if self.target_block != newer.target_block {
                return true;
            }
        }
        false
    }
}

/// The last snapshot, with when and for which interest it was fetched.
pub struct CachedGameState {
    last_query: u64,
    last_interest: GameStateInterest,
    state: GameState,
}

/// Whether the cache must refetch at `now_ms` for `interest`: the cached
/// snapshot is stale (or time ran backwards), or the interest is additive.
pub open spec fn needs_fetch_spec(
    c: CachedGameState,
    now_ms: u64,
    interest: GameStateInterest,
) -> bool {
    ||| now_ms < c.spec_last_query()
    ||| now_ms - c.spec_last_query() > CACHE_TIME_MS
    ||| is_additive_spec(c.spec_last_interest(), interest)
}

impl CachedGameState {
    pub closed spec fn spec_last_query(self) -> u64 {
        self.last_query
    }

    pub closed spec fn spec_last_interest(self) -> GameStateInterest {
        self.last_interest
    }

    pub closed spec fn spec_state(self) -> GameState {
        self.state
    }

    /// An empty cache, created as if queried at `now_ms` with no interest.
    pub fn new(now_ms: u64) -> (r: Self)
        ensures
            r.spec_last_query() == now_ms,
            r.spec_last_interest() == (GameStateInterest {
                entities_by_id: false,
                target_world: None,
                target_block: None,
            }),
    {
        CachedGameState {
            last_query: now_ms,
            last_interest: GameStateInterest::default(),
            state: GameState::new(),
        }
    }

    /// Whether serving `interest` at `now_ms` requires a fresh snapshot.
    pub fn needs_fetch(&self, now_ms: u64, interest: &GameStateInterest) -> (r: bool)
        ensures
            r == needs_fetch_spec(*self, now_ms, *interest),
    {
        let stale = now_ms < self.last_query || now_ms - self.last_query > CACHE_TIME_MS;
        let additive = self.last_interest.is_additive(interest);
        stale || additive
    }

    /// Store a snapshot freshly fetched at `now_ms` for `interest`.
    pub fn store(&mut self, now_ms: u64, interest: GameStateInterest, state: GameState)
        ensures
            final(self).spec_last_query() == now_ms,
            final(self).spec_last_interest() == interest,
            final(self).spec_state() == state,
    {
        self.last_query = now_ms;
        self.last_interest = interest;
        self.state = state;
    }

    /// The cached snapshot.
    pub fn cached(&self) -> (r: &GameState)
        ensures
            *r == self.spec_state(),
    {
        &self.state
    }
}

/// Within the TTL, a second request with the same interest is served from
/// the cache: after a store at `t0`, no fetch is needed at any `t1` within
/// the TTL for any interest that is not additive over the stored one — in
/// particular not for the same interest — and the cached snapshot is the
/// stored one.
pub proof fn lemma_cache_hit_within_ttl(
    c: CachedGameState,
    t0: u64,
    interest: GameStateInterest,
    state: GameState,
    after: CachedGameState,
    t1: u64,
)
    requires
        after.spec_last_query() == t0,
        after.spec_last_interest() == interest,
        after.spec_state() == state,
        t0 <= t1 <= t0 + CACHE_TIME_MS,
    ensures
        !needs_fetch_spec(after, t1, interest),
        after.spec_state() == state,
{
    assert(!is_additive_spec(interest, interest));
}

/// An additive interest forces a fetch no matter how fresh the cache is: if
/// the new interest turns on `entities_by_id`, or names a target block the
/// last interest did not name, the cache refetches at every instant.
pub proof fn lemma_additive_interest_always_fetches(
    c: CachedGameState,
    now_ms: u64,
    interest: GameStateInterest,
)
    requires
        (!c.spec_last_interest().entities_by_id && interest.entities_by_id) || (
        interest.target_block is Some && c.spec_last_interest().target_block
            != interest.target_block),
    ensures
        needs_fetch_spec(c, now_ms, interest),
{
}

} // verus!
