use vstd::prelude::*;

use crate::ids::{fresh_id, is_v4};
use crate::mapper::{issued, outcome, rebuild, MapperError, TickToTileMapper, TileToTickMapper};
use crate::room::{admits, ForgeRoom};
use crate::types::{ForgeTick, KindView, Tile, TileView};

verus! {

/// Settings of a bridge.
#[derive(Debug, Clone)]
pub struct BridgeConfig {
    /// The 128 bits of the pipeline's UUID.
    pub pipeline_id: u128,
    /// Max ticks to buffer before the oldest are dropped
    pub buffer_capacity: usize,
    /// If true, rejected ticks are kept in a dead-letter buffer
    pub keep_rejected: bool,
}

impl Default for BridgeConfig {
    /// A fresh random pipeline, a buffer of 1024 ticks, and a dead-letter buffer.
    fn default() -> (c: Self)
        ensures
            is_v4(c.pipeline_id),
            c.buffer_capacity == 1024,
            c.keep_rejected,
    {
        BridgeConfig { pipeline_id: fresh_id(), buffer_capacity: 1024, keep_rejected: true }
    }
}

/// Counters of what a bridge has done.
#[derive(Debug, Clone)]
pub struct BridgeStats {
    pub ticks_ingested: u64,
    pub ticks_assembled: u64,
    pub ticks_rejected: u64,
    pub tiles_routed: u64,
}

/// All counters at zero.
pub open spec fn no_traffic() -> BridgeStats {
    BridgeStats { ticks_ingested: 0, ticks_assembled: 0, ticks_rejected: 0, tiles_routed: 0 }
}

impl Default for BridgeStats {
    fn default() -> (s: Self)
        ensures
            s == no_traffic(),
    {
        BridgeStats { ticks_ingested: 0, ticks_assembled: 0, ticks_rejected: 0, tiles_routed: 0 }
    }
}

/// The buffer after appending `t` to `s` under capacity `cap`: when the buffer
/// is full, its oldest tick is dropped first.
pub open spec fn bounded_push(s: Seq<ForgeTick>, t: ForgeTick, cap: usize) -> Seq<ForgeTick> {
    if s.len() >= cap {
        s.drop_first().push(t)
    } else {
        s.push(t)
    }
}

/// How many of the rooms accept the domain.
pub open spec fn accepting(rooms: Seq<ForgeRoom>, domain: Seq<char>) -> nat
    decreases rooms.len(),
{
    if rooms.len() == 0 {
        0
    } else {
        accepting(rooms.drop_last(), domain) + if admits(rooms.last().filter(), domain) {
            1nat
        } else {
            0nat
        }
    }
}

/// Room `after` is room `before` once `tile` was routed: it received a copy of
/// the tile if its filter admits the tile's domain, and is otherwise unchanged.
pub open spec fn room_routed(before: ForgeRoom, after: ForgeRoom, tile: TileView) -> bool {
    &&& after.label() == before.label()
    &&& after.filter() == before.filter()
    &&& after.logged() == before.logged()
    &&& if admits(before.filter(), tile.domain) {
        &&& after.stored().len() == before.stored().len() + 1
        &&& after.stored().drop_last() == before.stored()
        &&& after.stored().last()@ == tile
    } else {
        after.stored() == before.stored()
    }
}

/// The rooms `after` are the rooms `before` once `tile` was routed to each.
pub open spec fn routed(before: Seq<ForgeRoom>, after: Seq<ForgeRoom>, tile: TileView) -> bool {
    &&& after.len() == before.len()
    &&& forall|i: int| 0 <= i < before.len() ==> room_routed(before[i], after[i], tile)
}

/// The ticks of `s`, in order, other than those with tick id `id`.
pub open spec fn without_tick(s: Seq<ForgeTick>, id: u128) -> Seq<ForgeTick>
    decreases s.len(),
{
    if s.len() == 0 {
        Seq::empty()
    } else {
        let rest = without_tick(s.drop_last(), id);
        if s.last().tick_id == id {
            rest
        } else {
            rest.push(s.last())
        }
    }
}

/// Whether a tick has a tick id other than `id`.
pub open spec fn other_than(id: u128) -> spec_fn(ForgeTick) -> bool {
    |t: ForgeTick| t.tick_id != id
}

/// Rejecting a tick takes exactly the ticks with its id out of the buffer:
/// what is left is the buffer filtered by "tick id differs", in buffer order;
/// every tick with another id stays, and no tick with that id is left.
pub proof fn law_reject_removes_only_that_tick(s: Seq<ForgeTick>, id: u128)
    ensures
        without_tick(s, id) == s.filter(other_than(id)),
        forall|j: int| 0 <= j < s.len() && s[j].tick_id != id ==> without_tick(s, id).contains(
            #[trigger] s[j],
        ),
        forall|i: int| 0 <= i < without_tick(s, id).len() ==> #[trigger] without_tick(s, id)[i].tick_id
            != id,
    decreases s.len(),
{
    reveal(Seq::filter);
    if s.len() > 0 {
        law_reject_removes_only_that_tick(s.drop_last(), id);
    }
    assert(without_tick(s, id) == s.filter(other_than(id)));
    broadcast use vstd::seq_lib::group_filter_ensures;
    assert forall|j: int| 0 <= j < s.len() && s[j].tick_id != id implies without_tick(s, id).contains(
        #[trigger] s[j],
    ) by {
        assert(other_than(id)(s[j]));
        s.lemma_filter_contains(other_than(id), j);
    }
    assert forall|i: int| 0 <= i < without_tick(s, id).len() implies #[trigger] without_tick(
        s,
        id,
    )[i].tick_id != id by {
        s.lemma_filter_pred(other_than(id), i);
    }
}

/// Takes the ticks with tick id `id` out of a buffer, keeping the others in order.
fn remove_tick(buffer: Vec<ForgeTick>, id: u128) -> (kept: Vec<ForgeTick>)
    ensures
        kept@ == without_tick(buffer@, id),
{
    let ghost all = buffer@;
    let mut rest = buffer;
    let mut kept: Vec<ForgeTick> = Vec::new();
    let ghost mut k: int = 0;
    while rest.len() > 0
        invariant
            0 <= k <= all.len(),
            rest@ == all.skip(k),
            kept@ == without_tick(all.take(k), id),
        decreases rest@.len(),
    {
        let ghost before = kept@;
        assert(all.take(k + 1).drop_last() =~= all.take(k));
        assert(all.take(k + 1).last() == all[k]);
        let t = rest.remove(0);
        assert(t == all[k]);
        if t.tick_id != id {
            kept.push(t);
        }
        proof {
            k = k + 1;
        }
        assert(rest@ =~= all.skip(k));
    }
    assert(all.take(k) =~= all);
    kept
}

/// Whether the ticks are in strictly increasing sequence order.
pub open spec fn seq_ordered(s: Seq<ForgeTick>) -> bool {
    forall|i: int, j: int| 0 <= i < j < s.len() ==> s[i].seq < s[j].seq
}

/// Whether a buffered tick belongs to pipeline `pipeline`, is numbered below
/// `next`, and is not a rejected tick.
pub open spec fn tick_fits(t: ForgeTick, pipeline: u128, next: u64) -> bool {
    &&& t.seq < next
    &&& t.pipeline_id == pipeline
    &&& !(t.kind is Rejected)
}

/// Whether a buffer holds at most `cap` ticks, in strictly increasing sequence
/// order, each of which fits pipeline `pipeline` and next number `next`.
pub open spec fn well_buffered(s: Seq<ForgeTick>, cap: usize, pipeline: u128, next: u64) -> bool {
    &&& s.len() <= cap
    &&& seq_ordered(s)
    &&& forall|i: int| 0 <= i < s.len() ==> tick_fits(#[trigger] s[i], pipeline, next)
}

/// Pushing the next tick of the pipeline onto a well-ordered buffer of positive
/// capacity keeps it well ordered, with the next number one higher.
pub proof fn law_push_in_order(s: Seq<ForgeTick>, t: ForgeTick, cap: usize, pipeline: u128, next: u64)
    requires
        well_buffered(s, cap, pipeline, next),
        cap > 0,
        next < u64::MAX,
        t.seq == next,
        t.pipeline_id == pipeline,
        !(t.kind is Rejected),
    ensures
        well_buffered(bounded_push(s, t, cap), cap, pipeline, (next + 1) as u64),
{
    let r = bounded_push(s, t, cap);
    let base = if s.len() >= cap { s.drop_first() } else { s };
    assert(r == base.push(t));
    assert forall|i: int| 0 <= i < base.len() implies #[trigger] base[i] == s[i + s.len() - base.len()] by {}
    assert forall|i: int| 0 <= i < r.len() implies tick_fits(#[trigger] r[i], pipeline, (next + 1) as u64) by {
        if i < base.len() {
            assert(r[i] == s[i + s.len() - base.len()]);
        }
    }
    assert forall|i: int, j: int| 0 <= i < j < r.len() implies r[i].seq < r[j].seq by {
        assert(r[i] == s[i + s.len() - base.len()]);
        if j < base.len() {
            assert(r[j] == s[j + s.len() - base.len()]);
        }
    }
}

/// Taking the ticks with one id out of a well-ordered buffer leaves it well
/// ordered, also for any later next number; what is left came from the buffer.
pub proof fn law_remove_in_order(s: Seq<ForgeTick>, id: u128, cap: usize, pipeline: u128, next: u64, later: u64)
    requires
        well_buffered(s, cap, pipeline, next),
        next <= later,
    ensures
        well_buffered(without_tick(s, id), cap, pipeline, later),
        without_tick(s, id).len() <= s.len(),
        forall|i: int| 0 <= i < without_tick(s, id).len() ==> s.contains(#[trigger] without_tick(s, id)[i]),
        forall|i: int| 0 <= i < without_tick(s, id).len() ==> #[trigger] without_tick(s, id)[i].tick_id != id,
    decreases s.len(),
{
    if s.len() > 0 {
        let front = s.drop_last();
        assert forall|i: int| 0 <= i < front.len() implies tick_fits(#[trigger] front[i], pipeline, next) by {
            assert(front[i] == s[i]);
        }
        assert forall|i: int, j: int| 0 <= i < j < front.len() implies front[i].seq < front[j].seq by {
            assert(front[i] == s[i]);
            assert(front[j] == s[j]);
        }
        law_remove_in_order(front, id, cap, pipeline, next, later);
        let rest = without_tick(front, id);
        let r = without_tick(s, id);
        assert forall|i: int| 0 <= i < rest.len() implies s.contains(#[trigger] rest[i]) by {
            assert(front.contains(rest[i]));
            let k = choose|k: int| 0 <= k < front.len() && front[k] == rest[i];
            assert(s[k] == front[k]);
        }
        assert(tick_fits(s[s.len() - 1], pipeline, next));
        if s.last().tick_id != id {
            assert(r == rest.push(s.last()));
            assert forall|i: int| 0 <= i < rest.len() implies #[trigger] rest[i].seq < s.last().seq by {
                let k = choose|k: int| 0 <= k < front.len() && front[k] == rest[i];
                assert(s[k] == front[k]);
                assert(s[k].seq < s[s.len() - 1].seq);
            }
            assert forall|i: int| 0 <= i < r.len() implies s.contains(#[trigger] r[i]) by {
                if i < rest.len() {
                    assert(r[i] == rest[i]);
                } else {
                    assert(s[s.len() - 1] == r[i]);
                }
            }
            assert forall|i: int| 0 <= i < r.len() implies tick_fits(#[trigger] r[i], pipeline, later) by {
                if i < rest.len() {
                    assert(r[i] == rest[i]);
                }
            }
            assert forall|i: int, j: int| 0 <= i < j < r.len() implies r[i].seq < r[j].seq by {
                assert(r[i] == rest[i]);
                if j < rest.len() {
                    assert(r[j] == rest[j]);
                }
            }
            assert forall|i: int| 0 <= i < r.len() implies #[trigger] r[i].tick_id != id by {
                if i < rest.len() {
                    assert(r[i] == rest[i]);
                }
            }
        }
    }
}

/// How many tiles the rooms hold in all.
pub open spec fn total_stored(rooms: Seq<ForgeRoom>) -> nat
    decreases rooms.len(),
{
    if rooms.len() == 0 {
        0
    } else {
        total_stored(rooms.drop_last()) + rooms.last().stored().len()
    }
}

/// The buffer never holds more ticks than its capacity: pushing onto a buffer
/// within a positive capacity keeps it within, puts the new tick last, keeps the
/// newest of the old ticks in order, and drops the oldest only when full.
pub proof fn law_buffer_bounded(s: Seq<ForgeTick>, t: ForgeTick, cap: usize)
    requires
        cap > 0,
        s.len() <= cap,
    ensures
        bounded_push(s, t, cap).len() <= cap,
        bounded_push(s, t, cap).last() == t,
        s.len() < cap ==> bounded_push(s, t, cap) == s.push(t),
        s.len() == cap ==> bounded_push(s, t, cap) == s.subrange(1, s.len() as int).push(t),
{
    if s.len() == cap {
        assert(s.drop_first() =~= s.subrange(1, s.len() as int));
    }
}

/// No more rooms accept a domain than there are rooms.
pub proof fn law_accepting_bounded(rooms: Seq<ForgeRoom>, domain: Seq<char>)
    ensures
        accepting(rooms, domain) <= rooms.len(),
    decreases rooms.len(),
{
    if rooms.len() > 0 {
        law_accepting_bounded(rooms.drop_last(), domain);
    }
}

/// Routing delivers exactly `accepting` tiles: the rooms hold, in all, as many
/// more tiles as there are rooms that accept the tile's domain.
pub proof fn law_routing_delivers_count(before: Seq<ForgeRoom>, after: Seq<ForgeRoom>, tile: TileView)
    requires
        routed(before, after, tile),
    ensures
        total_stored(after) == total_stored(before) + accepting(before, tile.domain),
    decreases before.len(),
{
    if before.len() > 0 {
        let n: int = before.len() - 1;
        assert(routed(before.drop_last(), after.drop_last(), tile)) by {
            assert forall|i: int| 0 <= i < before.drop_last().len() implies room_routed(
                before.drop_last()[i],
                after.drop_last()[i],
                tile,
            ) by {
                assert(room_routed(before[i], after[i], tile));
            }
        }
        law_routing_delivers_count(before.drop_last(), after.drop_last(), tile);
        assert(room_routed(before[n], after[n], tile));
    }
}

/// Every room whose filter admits the tile's domain receives the routed tile
/// itself, unchanged, as its newest tile after the tiles it held; a room that
/// accepts every domain receives every routed tile, and a room whose filter
/// does not hold the tile's domain receives nothing.
pub proof fn law_routing_respects_filters(before: Seq<ForgeRoom>, after: Seq<ForgeRoom>, tile: TileView, i: int)
    requires
        routed(before, after, tile),
        0 <= i < before.len(),
    ensures
        admits(before[i].filter(), tile.domain) ==> {
            &&& after[i].stored().len() == before[i].stored().len() + 1
            &&& after[i].stored().last()@ == tile
            &&& forall|j: int| 0 <= j < before[i].stored().len() ==> after[i].stored()[j]
                == #[trigger] before[i].stored()[j]
        },
        after[i].label() == before[i].label(),
        after[i].filter() == before[i].filter(),
        before[i].filter().len() == 0 ==> after[i].stored().len() == before[i].stored().len() + 1
            && after[i].stored().last()@ == tile,
        !admits(before[i].filter(), tile.domain) ==> after[i].stored() == before[i].stored(),
{
    assert(room_routed(before[i], after[i], tile));
    if admits(before[i].filter(), tile.domain) {
        assert forall|j: int| 0 <= j < before[i].stored().len() implies after[i].stored()[j]
            == #[trigger] before[i].stored()[j] by {
            assert(after[i].stored().drop_last()[j] == after[i].stored()[j]);
        }
    }
}

/// The bridge: owns the tick buffer and routes assembled tiles to rooms.
///
/// Lifecycle: `ingest(tile)` emits an Ingest tick; `transform(tick, agent, f)`
/// lets an agent rewrite the tile and emits a Transform tick; `assemble(tick)`
/// emits the terminal tick and stores the tile in every room that accepts it.
pub struct ForgeBridge {
    pub config: BridgeConfig,
    pub stats: BridgeStats,
    to_tick: TileToTickMapper,
    from_tick: TickToTileMapper,
    buffer: Vec<ForgeTick>,
    rejected: Vec<ForgeTick>,
    rooms: Vec<ForgeRoom>,
}

impl ForgeBridge {
    /// The buffer holds at most `buffer_capacity` ticks, in strictly increasing
    /// sequence order, all of this bridge's pipeline, numbered below the next
    /// sequence number, and none of them rejected. A new bridge has this
    /// property and every operation keeps it.
    pub open spec fn buffer_in_order(&self) -> bool {
        well_buffered(
            self.buffered(),
            self.settings().buffer_capacity,
            self.mapper().pipeline(),
            self.mapper().next_seq(),
        )
    }

    /// The settings.
    pub closed spec fn settings(&self) -> BridgeConfig {
        self.config
    }

    /// The counters.
    pub closed spec fn counters(&self) -> BridgeStats {
        self.stats
    }

    /// The mapper that numbers the bridge's ticks.
    pub closed spec fn mapper(&self) -> TileToTickMapper {
        self.to_tick
    }

    /// The buffered ticks, oldest first.
    pub closed spec fn buffered(&self) -> Seq<ForgeTick> {
        self.buffer@
    }

    /// The dead-letter ticks, oldest first.
    pub closed spec fn dead_letters(&self) -> Seq<ForgeTick> {
        self.rejected@
    }

    /// The registered rooms, in order of registration.
    pub closed spec fn room_list(&self) -> Seq<ForgeRoom> {
        self.rooms@
    }

    pub fn new(config: BridgeConfig) -> (b: Self)
        ensures
            b.settings() == config,
            b.counters() == no_traffic(),
            b.mapper().pipeline() == config.pipeline_id,
            b.mapper().next_seq() == 0,
            b.buffered() == Seq::<ForgeTick>::empty(),
            b.dead_letters() == Seq::<ForgeTick>::empty(),
            b.room_list() == Seq::<ForgeRoom>::empty(),
            b.buffer_in_order(),
    {
        let pipeline_id: u128 = config.pipeline_id;
        ForgeBridge {
            to_tick: TileToTickMapper::new(pipeline_id),
            from_tick: TickToTileMapper::new(),
            config,
            stats: BridgeStats::default(),
            buffer: Vec::new(),
            rejected: Vec::new(),
            rooms: Vec::new(),
        }
    }

    /// Register a room to receive assembled tiles for a given domain.
    pub fn register_room(&mut self, room: ForgeRoom)
        ensures
            final(self).room_list() == old(self).room_list().push(room),
            final(self).settings() == old(self).settings(),
            final(self).counters() == old(self).counters(),
            final(self).mapper() == old(self).mapper(),
            final(self).buffered() == old(self).buffered(),
            final(self).dead_letters() == old(self).dead_letters(),
            old(self).buffer_in_order() ==> final(self).buffer_in_order(),
    {
        self.rooms.push(room);
    }

    /// Ingest a tile: map it into an Ingest tick and push that to the buffer.
    pub fn ingest(&mut self, tile: &Tile) -> (r: Result<&ForgeTick, MapperError>)
        requires
            old(self).mapper().next_seq() < u64::MAX,
            old(self).counters().ticks_ingested < u64::MAX,
            old(self).settings().buffer_capacity > 0 || old(self).buffered().len() > 0,
        ensures
            r matches Ok(t) && issued(
                t@,
                old(self).mapper().pipeline(),
                old(self).mapper().next_seq(),
                KindView::Ingest,
                tile@,
                Seq::empty(),
            ) && final(self).buffered() == bounded_push(
                old(self).buffered(),
                *t,
                old(self).settings().buffer_capacity,
            ),
            final(self).counters() == (BridgeStats {
                ticks_ingested: (old(self).counters().ticks_ingested + 1) as u64,
                ..old(self).counters()
            }),
            final(self).mapper().pipeline() == old(self).mapper().pipeline(),
            final(self).mapper().next_seq() == old(self).mapper().next_seq() + 1,
            final(self).settings() == old(self).settings(),
            final(self).dead_letters() == old(self).dead_letters(),
            final(self).room_list() == old(self).room_list(),
            old(self).buffer_in_order() ==> final(self).buffer_in_order(),
    {
        let tick = self.to_tick.ingest(tile)?;
        proof {
            if old(self).buffer_in_order() {
                law_push_in_order(
                    old(self).buffer@,
                    tick,
                    old(self).config.buffer_capacity,
                    old(self).to_tick.pipeline(),
                    old(self).to_tick.next_seq(),
                );
            }
        }
        self.push_to_buffer(tick);
        self.stats.ticks_ingested = self.stats.ticks_ingested + 1;
        let n: usize = self.buffer.len();
        Ok(&self.buffer[n - 1])
    }

    /// Apply an agent transform to a tick: the tile is reconstructed, the agent
    /// rewrites it, and a Transform tick of the result is buffered.
    pub fn transform<F: FnOnce(Tile) -> Tile>(&mut self, tick: &ForgeTick, agent: &str, f: F) -> (r:
        Result<&ForgeTick, MapperError>)
        requires
            forall|t: Tile| #[trigger] call_requires(f, (t,)),
            rebuild(tick@) is Ok ==> {
                &&& old(self).mapper().next_seq() < u64::MAX
                &&& old(self).settings().buffer_capacity > 0 || old(self).buffered().len() > 0
            },
        ensures
            final(self).counters() == old(self).counters(),
            final(self).mapper().pipeline() == old(self).mapper().pipeline(),
            final(self).settings() == old(self).settings(),
            final(self).dead_letters() == old(self).dead_letters(),
            final(self).room_list() == old(self).room_list(),
            old(self).buffer_in_order() ==> final(self).buffer_in_order(),
            match rebuild(tick@) {
                Err(e) => {
                    &&& r matches Err(x) && x@ == e
                    &&& final(self).buffered() == old(self).buffered()
                    &&& final(self).mapper().next_seq() == old(self).mapper().next_seq()
                },
                Ok(v) => {
                    &&& r matches Ok(t) && final(self).buffered() == bounded_push(
                        old(self).buffered(),
                        *t,
                        old(self).settings().buffer_capacity,
                    ) && exists|a: Tile, b: Tile|
                        #![trigger call_ensures(f, (a,), b)]
                        a@ == v && call_ensures(f, (a,), b) && issued(
                            t@,
                            old(self).mapper().pipeline(),
                            old(self).mapper().next_seq(),
                            KindView::Transform,
                            b@,
                            seq![agent@],
                        )
                    &&& final(self).mapper().next_seq() == old(self).mapper().next_seq() + 1
                },
            },
    {
        let tile = match self.from_tick.from_tick(tick) {
            Ok(t) => t,
            Err(e) => return Err(e),
        };
        let ghost before = tile;
        let transformed = f(tile);
        let ghost after = transformed;
        let new_tick = self.to_tick.transform(&transformed, agent)?;
        proof {
            if old(self).buffer_in_order() {
                law_push_in_order(
                    old(self).buffer@,
                    new_tick,
                    old(self).config.buffer_capacity,
                    old(self).to_tick.pipeline(),
                    old(self).to_tick.next_seq(),
                );
            }
        }
        self.push_to_buffer(new_tick);
        let n: usize = self.buffer.len();
        let r = &self.buffer[n - 1];
        assert(call_ensures(f, (before,), after));
        Ok(r)
    }

    /// Assemble the final tick: reconstruct the tile, route it to the rooms that
    /// accept it and buffer the Assembled tick.
    pub fn assemble(&mut self, tick: &ForgeTick) -> (r: Result<Tile, MapperError>)
        requires
            rebuild(tick@) matches Ok(v) ==> {
                &&& old(self).mapper().next_seq() < u64::MAX
                &&& old(self).counters().ticks_assembled < u64::MAX
                &&& old(self).counters().tiles_routed + accepting(old(self).room_list(), v.domain)
                    <= u64::MAX
                &&& old(self).settings().buffer_capacity > 0 || old(self).buffered().len() > 0
            },
        ensures
            outcome(r) == rebuild(tick@),
            final(self).mapper().pipeline() == old(self).mapper().pipeline(),
            final(self).settings() == old(self).settings(),
            final(self).dead_letters() == old(self).dead_letters(),
            old(self).buffer_in_order() ==> final(self).buffer_in_order(),
            r is Err ==> {
                &&& final(self).counters() == old(self).counters()
                &&& final(self).mapper().next_seq() == old(self).mapper().next_seq()
                &&& final(self).buffered() == old(self).buffered()
                &&& final(self).room_list() == old(self).room_list()
            },
            r matches Ok(tile) ==> {
                &&& final(self).buffered() == bounded_push(
                    old(self).buffered(),
                    final(self).buffered().last(),
                    old(self).settings().buffer_capacity,
                )
                &&& issued(
                    final(self).buffered().last()@,
                    old(self).mapper().pipeline(),
                    old(self).mapper().next_seq(),
                    KindView::Assembled,
                    tile@,
                    Seq::empty(),
                )
                &&& final(self).mapper().next_seq() == old(self).mapper().next_seq() + 1
                &&& final(self).counters() == (BridgeStats {
                    ticks_assembled: (old(self).counters().ticks_assembled + 1) as u64,
                    tiles_routed: (old(self).counters().tiles_routed + accepting(
                        old(self).room_list(),
                        tile.domain@,
                    )) as u64,
                    ..old(self).counters()
                })
                &&& routed(old(self).room_list(), final(self).room_list(), tile@)
            },
    {
        let tile = match self.from_tick.from_tick(tick) {
            Ok(t) => t,
            Err(e) => return Err(e),
        };
        let assembled_tick = match self.to_tick.assemble(&tile) {
            Ok(t) => t,
            Err(e) => return Err(e),
        };
        self.stats.ticks_assembled = self.stats.ticks_assembled + 1;
        let count: usize = self.route_to_rooms(&tile);
        self.stats.tiles_routed = self.stats.tiles_routed + count as u64;
        proof {
            if old(self).buffer_in_order() {
                law_push_in_order(
                    old(self).buffer@,
                    assembled_tick,
                    old(self).config.buffer_capacity,
                    old(self).to_tick.pipeline(),
                    old(self).to_tick.next_seq(),
                );
            }
        }
        self.push_to_buffer(assembled_tick);
        Ok(tile)
    }

    /// Reject a tick with a reason; moves it to the dead-letter buffer: the
    /// tick leaves the pipeline buffer, and its Rejected tick is kept in the
    /// dead-letter buffer when the bridge keeps rejected ticks.
    pub fn reject(&mut self, tick: &ForgeTick, reason: &str) -> (r: Result<(), MapperError>)
        requires
            rebuild(tick@) is Ok ==> {
                &&& old(self).mapper().next_seq() < u64::MAX
                &&& old(self).counters().ticks_rejected < u64::MAX
            },
        ensures
            final(self).mapper().pipeline() == old(self).mapper().pipeline(),
            final(self).settings() == old(self).settings(),
            final(self).room_list() == old(self).room_list(),
            old(self).buffer_in_order() ==> final(self).buffer_in_order(),
            match rebuild(tick@) {
                Err(e) => {
                    &&& r matches Err(x) && x@ == e
                    &&& final(self).buffered() == old(self).buffered()
                    &&& final(self).counters() == old(self).counters()
                    &&& final(self).mapper().next_seq() == old(self).mapper().next_seq()
                    &&& final(self).dead_letters() == old(self).dead_letters()
                },
                Ok(v) => {
                    &&& r is Ok
                    &&& final(self).buffered() == without_tick(old(self).buffered(), tick.tick_id)
                    &&& final(self).counters() == (BridgeStats {
                        ticks_rejected: (old(self).counters().ticks_rejected + 1) as u64,
                        ..old(self).counters()
                    })
                    &&& final(self).mapper().next_seq() == old(self).mapper().next_seq() + 1
                    &&& if old(self).settings().keep_rejected {
                        &&& final(self).dead_letters().len() == old(self).dead_letters().len() + 1
                        &&& final(self).dead_letters().drop_last() == old(self).dead_letters()
                        &&& issued(
                            final(self).dead_letters().last()@,
                            old(self).mapper().pipeline(),
                            old(self).mapper().next_seq(),
                            KindView::Rejected(reason@),
                            v,
                            Seq::empty(),
                        )
                    } else {
                        final(self).dead_letters() == old(self).dead_letters()
                    }
                },
            },
    {
        let tile = match self.from_tick.from_tick(tick) {
            Ok(t) => t,
            Err(e) => return Err(e),
        };
        let rejected_tick = match self.to_tick.reject(&tile, reason) {
            Ok(t) => t,
            Err(e) => return Err(e),
        };
        self.stats.ticks_rejected = self.stats.ticks_rejected + 1;
        if self.config.keep_rejected {
            self.rejected.push(rejected_tick);
        }
        let mut pending: Vec<ForgeTick> = Vec::new();
        std::mem::swap(&mut pending, &mut self.buffer);
        self.buffer = remove_tick(pending, tick.tick_id);
        proof {
            if old(self).buffer_in_order() {
                law_remove_in_order(
                    old(self).buffer@,
                    tick.tick_id,
                    old(self).config.buffer_capacity,
                    old(self).to_tick.pipeline(),
                    old(self).to_tick.next_seq(),
                    self.to_tick.next_seq(),
                );
            }
        }
        Ok(())
    }

    /// Return all ticks currently in the pipeline buffer (excluding rejected).
    pub fn buffer(&self) -> (r: &[ForgeTick])
        ensures
            r@ == self.buffered(),
    {
        self.buffer.as_slice()
    }

    /// Return all rejected ticks in the dead-letter buffer.
    pub fn rejected(&self) -> (r: &[ForgeTick])
        ensures
            r@ == self.dead_letters(),
    {
        self.rejected.as_slice()
    }

    /// Return all registered rooms.
    pub fn rooms(&self) -> (r: &[ForgeRoom])
        ensures
            r@ == self.room_list(),
    {
        self.rooms.as_slice()
    }

    fn push_to_buffer(&mut self, tick: ForgeTick)
        requires
            old(self).config.buffer_capacity > 0 || old(self).buffer@.len() > 0,
        ensures
            final(self).buffer@ == bounded_push(
                old(self).buffer@,
                tick,
                old(self).config.buffer_capacity,
            ),
            final(self).config == old(self).config,
            final(self).stats == old(self).stats,
            final(self).to_tick == old(self).to_tick,
            final(self).rejected == old(self).rejected,
            final(self).rooms == old(self).rooms,
    {
        if self.buffer.len() >= self.config.buffer_capacity {
            self.buffer.remove(0);
            assert(self.buffer@ =~= old(self).buffer@.drop_first());
        }
        self.buffer.push(tick);
    }

    fn route_to_rooms(&mut self, tile: &Tile) -> (count: usize)
        ensures
            count == accepting(old(self).rooms@, tile.domain@),
            routed(old(self).rooms@, final(self).rooms@, tile@),
            final(self).config == old(self).config,
            final(self).stats == old(self).stats,
            final(self).to_tick == old(self).to_tick,
            final(self).buffer == old(self).buffer,
            final(self).rejected == old(self).rejected,
    {
        let ghost start = self.rooms@;
        let mut count: usize = 0;
        let mut i: usize = 0;
        while i < self.rooms.len()
            invariant
                i <= self.rooms@.len(),
                self.rooms@.len() == start.len(),
                count <= i,
                count == accepting(start.take(i as int), tile.domain@),
                forall|j: int| 0 <= j < i ==> room_routed(start[j], #[trigger] self.rooms@[j], tile@),
                forall|j: int| i <= j < start.len() ==> #[trigger] self.rooms@[j] == start[j],
                self.config == old(self).config,
                self.stats == old(self).stats,
                self.to_tick == old(self).to_tick,
                self.buffer == old(self).buffer,
                self.rejected == old(self).rejected,
                start == old(self).rooms@,
            decreases start.len() - i,
        {
            assert(start.take(i + 1).drop_last() =~= start.take(i as int));
            assert(start.take(i + 1).last() == start[i as int]);
            if self.rooms[i].accepts(tile) {
                let copy = tile.copy();
                self.rooms[i].receive(copy);
                assert(self.rooms@[i as int].stored().drop_last() =~= start[i as int].stored());
                count = count + 1;
            }
            assert(room_routed(start[i as int], self.rooms@[i as int], tile@));
            i += 1;
        }
        assert(start.take(start.len() as int) =~= start);
        count
    }
}

} // verus!
