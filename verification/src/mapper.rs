use vstd::prelude::*;

use crate::ids::{fresh_id, format_id, id_text, is_v4};
use crate::types::{
    kind_is_terminal, confidence_is_finite, contains_text, copy_texts, texts, ForgeTick, ForgeTickKind, KindView,
    MetadataView, Tile, TileMetadata, TileView, TickView,
};
use std::time::{Duration, SystemTime, SystemTimeError};

verus! {

/// What deserializing a payload whose confidence is not a finite number reports:
/// such a confidence is serialized as `null`.
pub const NULL_CONFIDENCE: &'static str = "invalid type: null, expected f32";

/// Why a tick could not be mapped to a tile.
#[derive(Debug, Clone, PartialEq)]
pub enum MapperError {
    /// The payload could not be read back as a tile.
    Serialize(String),
    /// The payload lacks a field.
    MissingField(String),
    /// The tick was rejected, with this reason; it cannot produce a tile.
    NonAssemblable(String),
}

/// Mathematical model of [`MapperError`].
pub enum ErrorView {
    Serialize(Seq<char>),
    MissingField(Seq<char>),
    NonAssemblable(Seq<char>),
}

impl View for MapperError {
    type V = ErrorView;

    open spec fn view(&self) -> ErrorView {
        match self {
            MapperError::Serialize(s) => ErrorView::Serialize(s@),
            MapperError::MissingField(s) => ErrorView::MissingField(s@),
            MapperError::NonAssemblable(s) => ErrorView::NonAssemblable(s@),
        }
    }
}

/// The model of a mapping outcome.
pub open spec fn outcome(r: Result<Tile, MapperError>) -> Result<TileView, ErrorView> {
    match r {
        Ok(t) => Ok(t@),
        Err(e) => Err(e@),
    }
}

/// Provenance `prov` after each agent of `path`, in order, that it does not
/// hold yet has been appended to it.
pub open spec fn stamp(prov: Seq<Seq<char>>, path: Seq<Seq<char>>) -> Seq<Seq<char>>
    decreases path.len(),
{
    if path.len() == 0 {
        prov
    } else {
        let p = stamp(prov, path.drop_last());
        if p.contains(path.last()) {
            p
        } else {
            p.push(path.last())
        }
    }
}

/// The tile that a readable tick gives back: its payload, with the agent path
/// stamped into the provenance and the tick's pipeline recorded in the metadata.
pub open spec fn restored(t: TickView) -> TileView {
    TileView {
        provenance: stamp(t.payload.provenance, t.agent_path),
        metadata: MetadataView { pipeline_id: Some(t.pipeline_id), ..t.payload.metadata },
        ..t.payload
    }
}

/// What reconstructing a tile from a tick gives: a rejected tick is refused with
/// its reason, a payload whose confidence is not finite cannot be read back, and
/// any other tick gives its restored tile.
pub open spec fn rebuild(t: TickView) -> Result<TileView, ErrorView> {
    match t.kind {
        KindView::Rejected(reason) => Err(ErrorView::NonAssemblable(reason)),
        _ => if confidence_is_finite(t.payload.confidence) {
            Ok(restored(t))
        } else {
            Err(ErrorView::Serialize(NULL_CONFIDENCE@))
        },
    }
}

/// Whether `t` is the tick that mapping `tile` with `kind` and agent path `path`
/// gives in pipeline `pipeline` at sequence number `seq`. The emission time is
/// the clock's and is not constrained.
pub open spec fn issued(
    t: TickView,
    pipeline: u128,
    seq: u64,
    kind: KindView,
    tile: TileView,
    path: Seq<Seq<char>>,
) -> bool {
    &&& is_v4(t.tick_id)
    &&& t.tile_id == tile.id
    &&& t.pipeline_id == pipeline
    &&& t.kind == kind
    &&& t.payload == tile
    &&& t.agent_path == path
    &&& t.seq == seq
}

/// Makes `std::time::SystemTime` known to the verifier, as an opaque type.
#[verifier::external_type_specification]
#[verifier::external_body]
pub struct ExSystemTime(SystemTime);

/// Makes `std::time::SystemTimeError` known to the verifier, as an opaque type.
#[verifier::external_type_specification]
#[verifier::external_body]
pub struct ExSystemTimeError(SystemTimeError);

/// Reads the system clock with `std::time::SystemTime::now`. Nothing is claimed of the result.
#[verifier::external_body]
fn system_now() -> SystemTime {
    SystemTime::now()
}

/// `SystemTime::duration_since` the Unix epoch. Nothing is claimed of the result.
#[verifier::external_body]
fn since_unix_epoch(t: &SystemTime) -> Result<Duration, SystemTimeError> {
    t.duration_since(std::time::UNIX_EPOCH)
}

/// `Duration::as_millis`. Nothing is claimed of the result, a duration being opaque here.
#[verifier::external_body]
fn whole_millis(d: &Duration) -> u128 {
    d.as_millis()
}

/// The millisecond timestamp that a clock reading gives: the elapsed
/// milliseconds since the epoch truncated to 64 bits, or 0 when the clock
/// reads before the epoch (`None`).
pub fn millis_to_timestamp(elapsed: Option<u128>) -> (ms: u64)
    ensures
        ms == match elapsed {
            Some(m) => (m % 0x1_0000_0000_0000_0000u128) as u64,
            None => 0u64,
        },
{
    match elapsed {
        Some(m) => {
            assert(m as u64 == (m % 0x1_0000_0000_0000_0000u128) as u64) by (bit_vector);
            m as u64
        },
        None => 0,
    }
}

/// Milliseconds since the Unix epoch by the system clock, or 0 if the clock
/// reads before the epoch.
pub fn now_ms() -> u64 {
    let now = system_now();
    match since_unix_epoch(&now) {
        Ok(d) => millis_to_timestamp(Some(whole_millis(&d))),
        Err(_) => millis_to_timestamp(None),
    }
}

/// Converts tiles into ticks of one pipeline, numbering them in order.
pub struct TileToTickMapper {
    pipeline_id: u128,
    seq_counter: u64,
}

impl TileToTickMapper {
    /// The pipeline whose ticks this mapper emits.
    pub closed spec fn pipeline(&self) -> u128 {
        self.pipeline_id
    }

    /// The sequence number of the next tick.
    pub closed spec fn next_seq(&self) -> u64 {
        self.seq_counter
    }

    pub fn new(pipeline_id: u128) -> (m: Self)
        ensures
            m.pipeline() == pipeline_id,
            m.next_seq() == 0,
    {
        TileToTickMapper { pipeline_id, seq_counter: 0 }
    }

    /// An `Ingest` tick carrying the tile.
    pub fn ingest(&mut self, tile: &Tile) -> (r: Result<ForgeTick, MapperError>)
        requires
            old(self).next_seq() < u64::MAX,
        ensures
            final(self).pipeline() == old(self).pipeline(),
            final(self).next_seq() == old(self).next_seq() + 1,
            r matches Ok(t) && mapper_step(*old(self), *final(self), t@) && issued(
                t@,
                old(self).pipeline(),
                old(self).next_seq(),
                KindView::Ingest,
                tile@,
                Seq::empty(),
            ),
    {
        self.map_with_kind(tile, ForgeTickKind::Ingest)
    }

    /// A `Transform` tick carrying the tile, with the agent as its path.
    pub fn transform(&mut self, tile: &Tile, agent: &str) -> (r: Result<ForgeTick, MapperError>)
        requires
            old(self).next_seq() < u64::MAX,
        ensures
            final(self).pipeline() == old(self).pipeline(),
            final(self).next_seq() == old(self).next_seq() + 1,
            r matches Ok(t) && mapper_step(*old(self), *final(self), t@) && issued(
                t@,
                old(self).pipeline(),
                old(self).next_seq(),
                KindView::Transform,
                tile@,
                seq![agent@],
            ),
    {
        let mut tick = self.map_with_kind(tile, ForgeTickKind::Transform)?;
        tick.agent_path.push(agent.to_owned());
        assert(texts(tick.agent_path@) =~= seq![agent@]);
        Ok(tick)
    }

    /// A `Verified` tick carrying the tile, with the agent as its path.
    pub fn verify(&mut self, tile: &Tile, agent: &str) -> (r: Result<ForgeTick, MapperError>)
        requires
            old(self).next_seq() < u64::MAX,
        ensures
            final(self).pipeline() == old(self).pipeline(),
            final(self).next_seq() == old(self).next_seq() + 1,
            r matches Ok(t) && mapper_step(*old(self), *final(self), t@) && issued(
                t@,
                old(self).pipeline(),
                old(self).next_seq(),
                KindView::Verified,
                tile@,
                seq![agent@],
            ),
    {
        let mut tick = self.map_with_kind(tile, ForgeTickKind::Verified)?;
        tick.agent_path.push(agent.to_owned());
        assert(texts(tick.agent_path@) =~= seq![agent@]);
        Ok(tick)
    }

    /// An `Assembled` tick carrying the tile.
    pub fn assemble(&mut self, tile: &Tile) -> (r: Result<ForgeTick, MapperError>)
        requires
            old(self).next_seq() < u64::MAX,
        ensures
            final(self).pipeline() == old(self).pipeline(),
            final(self).next_seq() == old(self).next_seq() + 1,
            r matches Ok(t) && mapper_step(*old(self), *final(self), t@) && issued(
                t@,
                old(self).pipeline(),
                old(self).next_seq(),
                KindView::Assembled,
                tile@,
                Seq::empty(),
            ),
    {
        self.map_with_kind(tile, ForgeTickKind::Assembled)
    }

    /// A `Rejected` tick carrying the tile and the reason.
    pub fn reject(&mut self, tile: &Tile, reason: &str) -> (r: Result<ForgeTick, MapperError>)
        requires
            old(self).next_seq() < u64::MAX,
        ensures
            final(self).pipeline() == old(self).pipeline(),
            final(self).next_seq() == old(self).next_seq() + 1,
            r matches Ok(t) && mapper_step(*old(self), *final(self), t@) && issued(
                t@,
                old(self).pipeline(),
                old(self).next_seq(),
                KindView::Rejected(reason@),
                tile@,
                Seq::empty(),
            ),
    {
        self.map_with_kind(tile, ForgeTickKind::Rejected { reason: reason.to_owned() })
    }

    fn map_with_kind(&mut self, tile: &Tile, kind: ForgeTickKind) -> (r: Result<
        ForgeTick,
        MapperError,
    >)
        requires
            old(self).next_seq() < u64::MAX,
        ensures
            final(self).pipeline() == old(self).pipeline(),
            final(self).next_seq() == old(self).next_seq() + 1,
            r matches Ok(t) && mapper_step(*old(self), *final(self), t@) && issued(
                t@,
                old(self).pipeline(),
                old(self).next_seq(),
                kind@,
                tile@,
                Seq::empty(),
            ),
    {
        let seq: u64 = self.seq_counter;
        self.seq_counter = self.seq_counter + 1;
        let tick_id: u128 = fresh_id();
        let emitted_at_ms: u64 = now_ms();
        Ok(tick_of(tick_id, emitted_at_ms, self.pipeline_id, seq, tile, kind))
    }
}

/// The tick with the given id, emission time, pipeline and sequence number that
/// carries a copy of the tile, of the given kind, with an empty agent path.
fn tick_of(
    tick_id: u128,
    emitted_at_ms: u64,
    pipeline_id: u128,
    seq: u64,
    tile: &Tile,
    kind: ForgeTickKind,
) -> (t: ForgeTick)
    ensures
        t@ == (TickView {
            tick_id,
            tile_id: tile.id,
            pipeline_id,
            kind: kind@,
            payload: tile@,
            agent_path: Seq::empty(),
            seq,
            emitted_at_ms,
        }),
{
    let t = ForgeTick {
        tick_id,
        tile_id: tile.id,
        pipeline_id,
        kind,
        payload: tile.copy(),
        agent_path: Vec::new(),
        seq,
        emitted_at_ms,
    };
    assert(texts(t.agent_path@) =~= Seq::<Seq<char>>::empty());
    t
}

/// Appends to `prov` each agent of `path`, in order, that it does not hold yet.
fn stamp_provenance(prov: &mut Vec<String>, path: &Vec<String>)
    ensures
        texts(final(prov)@) == stamp(texts(old(prov)@), texts(path@)),
{
    let ghost start = texts(prov@);
    let mut i: usize = 0;
    while i < path.len()
        invariant
            i <= path@.len(),
            texts(prov@) == stamp(start, texts(path@).take(i as int)),
        decreases path@.len() - i,
    {
        let ghost before = texts(prov@);
        assert(texts(path@).take(i + 1).drop_last() =~= texts(path@).take(i as int));
        assert(texts(path@).take(i + 1).last() == path@[i as int]@);
        if !contains_text(prov, &path[i]) {
            prov.push(path[i].clone());
            assert(texts(prov@) =~= before.push(path@[i as int]@));
        }
        i += 1;
    }
    assert(texts(path@).take(path@.len() as int) =~= texts(path@));
}

/// A value in a tick's payload, as the payload's JSON form holds it.
#[derive(Debug, Clone, PartialEq)]
pub enum PayloadValue {
    Null,
    Text(String),
    /// An `f32` number, by its bit pattern.
    Number(u32),
    List(Vec<String>),
    Object(TileMetadata),
}

/// Mathematical model of [`PayloadValue`].
pub enum PayloadView {
    Null,
    Text(Seq<char>),
    Number(u32),
    List(Seq<Seq<char>>),
    Object(MetadataView),
}

impl View for PayloadValue {
    type V = PayloadView;

    open spec fn view(&self) -> PayloadView {
        match self {
            PayloadValue::Null => PayloadView::Null,
            PayloadValue::Text(s) => PayloadView::Text(s@),
            PayloadValue::Number(b) => PayloadView::Number(*b),
            PayloadValue::List(v) => PayloadView::List(texts(v@)),
            PayloadValue::Object(m) => PayloadView::Object(m@),
        }
    }
}

impl PayloadValue {
    /// The text of a text value.
    pub fn as_str(&self) -> (r: Option<&str>)
        ensures
            match self {
                PayloadValue::Text(s) => r matches Some(x) && x@ == s@,
                _ => r is None,
            },
    {
        match self {
            PayloadValue::Text(s) => Some(s.as_str()),
            _ => None,
        }
    }
}

/// The value under `key` in the JSON form of a tile, if the tile has that field.
pub open spec fn field_of(t: TileView, key: Seq<char>) -> Option<PayloadView> {
    if key == "id"@ {
        Some(PayloadView::Text(id_text(t.id)))
    } else if key == "domain"@ {
        Some(PayloadView::Text(t.domain))
    } else if key == "question"@ {
        Some(PayloadView::Text(t.question))
    } else if key == "answer"@ {
        Some(PayloadView::Text(t.answer))
    } else if key == "source"@ {
        Some(PayloadView::Text(t.source))
    } else if key == "confidence"@ {
        Some(
            if confidence_is_finite(t.confidence) {
                PayloadView::Number(t.confidence)
            } else {
                PayloadView::Null
            },
        )
    } else if key == "tags"@ {
        Some(PayloadView::List(t.tags))
    } else if key == "provenance"@ {
        Some(PayloadView::List(t.provenance))
    } else if key == "metadata"@ {
        Some(PayloadView::Object(t.metadata))
    } else {
        None
    }
}

/// Each key of the payload reads its own field of the tile: the id's text,
/// the domain, question, answer and source texts, the confidence (as `null`
/// when it is not finite), the tags, the provenance and the metadata.
pub proof fn law_field_reads_own_field(t: TileView)
    ensures
        field_of(t, "id"@) == Some(PayloadView::Text(id_text(t.id))),
        field_of(t, "domain"@) == Some(PayloadView::Text(t.domain)),
        field_of(t, "question"@) == Some(PayloadView::Text(t.question)),
        field_of(t, "answer"@) == Some(PayloadView::Text(t.answer)),
        field_of(t, "source"@) == Some(PayloadView::Text(t.source)),
        confidence_is_finite(t.confidence) ==> field_of(t, "confidence"@) == Some(
            PayloadView::Number(t.confidence),
        ),
        !confidence_is_finite(t.confidence) ==> field_of(t, "confidence"@) == Some(PayloadView::Null),
        field_of(t, "tags"@) == Some(PayloadView::List(t.tags)),
        field_of(t, "provenance"@) == Some(PayloadView::List(t.provenance)),
        field_of(t, "metadata"@) == Some(PayloadView::Object(t.metadata)),
{
    reveal_strlit("id");
    reveal_strlit("domain");
    reveal_strlit("question");
    reveal_strlit("answer");
    reveal_strlit("source");
    reveal_strlit("confidence");
    reveal_strlit("tags");
    reveal_strlit("provenance");
    reveal_strlit("metadata");
    assert("id"@.len() == 2);
    assert("domain"@.len() == 6);
    assert("question"@.len() == 8);
    assert("answer"@.len() == 6);
    assert("source"@.len() == 6);
    assert("confidence"@.len() == 10);
    assert("tags"@.len() == 4);
    assert("provenance"@.len() == 10);
    assert("metadata"@.len() == 8);
    assert("answer"@ != "domain"@) by {
        assert("answer"@[0] != "domain"@[0]);
    }
    assert("source"@ != "domain"@) by {
        assert("source"@[0] != "domain"@[0]);
    }
    assert("source"@ != "answer"@) by {
        assert("source"@[0] != "answer"@[0]);
    }
    assert("provenance"@ != "confidence"@) by {
        assert("provenance"@[0] != "confidence"@[0]);
    }
    assert("metadata"@ != "question"@) by {
        assert("metadata"@[0] != "question"@[0]);
    }
}

fn names(key: &String, name: &str) -> (b: bool)
    ensures
        b == (key@ == name@),
{
    let n = name.to_owned();
    key.eq(&n)
}

/// Stamping a path into a provenance puts every agent of the path into it.
pub proof fn law_stamp_covers_path(prov: Seq<Seq<char>>, path: Seq<Seq<char>>)
    ensures
        forall|i: int| 0 <= i < path.len() ==> #[trigger] stamp(prov, path).contains(path[i]),
    decreases path.len(),
{
    if path.len() > 0 {
        let front = path.drop_last();
        law_stamp_covers_path(prov, front);
        let p = stamp(prov, front);
        let q = stamp(prov, path);
        assert forall|i: int| 0 <= i < path.len() implies #[trigger] stamp(prov, path).contains(
            path[i],
        ) by {
            if i < path.len() - 1 {
                assert(front[i] == path[i]);
                assert(p.contains(front[i]));
                let k = choose|k: int| 0 <= k < p.len() && p[k] == front[i];
                if !p.contains(path.last()) {
                    assert(q[k] == p[k]);
                }
                assert(q[k] == path[i]);
            } else if !p.contains(path.last()) {
                assert(q[q.len() - 1] == path.last());
            }
        }
    }
}

/// Stamping only appends: the old provenance is a prefix of the stamped one.
pub proof fn law_stamp_extends(prov: Seq<Seq<char>>, path: Seq<Seq<char>>)
    ensures
        stamp(prov, path).len() >= prov.len(),
        stamp(prov, path).subrange(0, prov.len() as int) == prov,
    decreases path.len(),
{
    if path.len() > 0 {
        let front = path.drop_last();
        law_stamp_extends(prov, front);
        let p = stamp(prov, front);
        if !p.contains(path.last()) {
            assert(p.push(path.last()).subrange(0, prov.len() as int) =~= p.subrange(
                0,
                prov.len() as int,
            ));
        }
    }
}

/// Every agent in a stamped provenance was in the old provenance or on the path.
pub proof fn law_stamp_adds_only_path(prov: Seq<Seq<char>>, path: Seq<Seq<char>>, x: Seq<char>)
    requires
        stamp(prov, path).contains(x),
    ensures
        prov.contains(x) || path.contains(x),
    decreases path.len(),
{
    if path.len() > 0 {
        let front = path.drop_last();
        let p = stamp(prov, front);
        if p.contains(x) {
            law_stamp_adds_only_path(prov, front, x);
            if front.contains(x) {
                let k = choose|k: int| 0 <= k < front.len() && front[k] == x;
                assert(path[k] == x);
            }
        } else {
            assert(x == path.last());
            assert(path[path.len() - 1] == x);
        }
    }
}

/// Stamping never duplicates an agent: a provenance without repeats keeps none.
pub proof fn law_stamp_no_duplicates(prov: Seq<Seq<char>>, path: Seq<Seq<char>>)
    requires
        prov.no_duplicates(),
    ensures
        stamp(prov, path).no_duplicates(),
    decreases path.len(),
{
    if path.len() > 0 {
        let front = path.drop_last();
        law_stamp_no_duplicates(prov, front);
        let p = stamp(prov, front);
        if !p.contains(path.last()) {
            let q = p.push(path.last());
            assert forall|i: int, j: int| 0 <= i < q.len() && 0 <= j < q.len() && i != j implies q[i]
                != q[j] by {
                if i == q.len() - 1 {
                    assert(p[j] == q[j]);
                } else if j == q.len() - 1 {
                    assert(p[i] == q[i]);
                }
            }
        }
    }
}

/// A path whose agents are all in the provenance already leaves it unchanged.
pub proof fn law_stamp_known_agents(prov: Seq<Seq<char>>, path: Seq<Seq<char>>)
    requires
        forall|i: int| 0 <= i < path.len() ==> prov.contains(#[trigger] path[i]),
    ensures
        stamp(prov, path) == prov,
    decreases path.len(),
{
    if path.len() > 0 {
        let front = path.drop_last();
        assert forall|i: int| 0 <= i < front.len() implies prov.contains(#[trigger] front[i]) by {
            assert(front[i] == path[i]);
        }
        law_stamp_known_agents(prov, front);
        assert(prov.contains(path[path.len() - 1]));
    }
}

/// Stamping is idempotent: stamping the same path twice is stamping it once.
pub proof fn law_stamp_idempotent(prov: Seq<Seq<char>>, path: Seq<Seq<char>>)
    ensures
        stamp(stamp(prov, path), path) == stamp(prov, path),
{
    law_stamp_covers_path(prov, path);
    law_stamp_known_agents(stamp(prov, path), path);
}

/// Stamping one path and then another is stamping the two paths one after the other.
pub proof fn law_stamp_chain(prov: Seq<Seq<char>>, first: Seq<Seq<char>>, second: Seq<Seq<char>>)
    ensures
        stamp(stamp(prov, first), second) == stamp(prov, first + second),
    decreases second.len(),
{
    if second.len() == 0 {
        assert(first + second =~= first);
    } else {
        law_stamp_chain(prov, first, second.drop_last());
        assert((first + second).drop_last() =~= first + second.drop_last());
        assert((first + second).last() == second.last());
    }
}

/// One tile maps to one tick and back: a tick issued for a tile whose
/// confidence is finite, of any kind but `Rejected`, gives the tile back with
/// the tick's agent path stamped into its provenance and its pipeline recorded;
/// every other field comes back as it went in.
pub proof fn law_tile_tick_roundtrip(
    t: TickView,
    pipeline: u128,
    seq: u64,
    kind: KindView,
    tile: TileView,
    path: Seq<Seq<char>>,
)
    requires
        issued(t, pipeline, seq, kind, tile, path),
        !(kind is Rejected),
        confidence_is_finite(tile.confidence),
    ensures
        rebuild(t) == Ok::<TileView, ErrorView>(
            TileView {
                provenance: stamp(tile.provenance, path),
                metadata: MetadataView { pipeline_id: Some(pipeline), ..tile.metadata },
                ..tile
            },
        ),
        path.len() == 0 ==> rebuild(t) == Ok::<TileView, ErrorView>(
            TileView {
                metadata: MetadataView { pipeline_id: Some(pipeline), ..tile.metadata },
                ..tile
            },
        ),
{
}

/// A rejected tick is terminal and never gives a tile back; it reports its reason.
pub proof fn law_rejected_is_final(t: TickView, reason: Seq<char>)
    requires
        t.kind == KindView::Rejected(reason),
    ensures
        kind_is_terminal(t.kind),
        rebuild(t) == Err::<TileView, ErrorView>(ErrorView::NonAssemblable(reason)),
{
}

/// A tick that an agent transformed or verified names that agent in its path,
/// and the tile rebuilt from it lists the agent in its provenance.
pub proof fn law_agent_recorded(
    t: TickView,
    pipeline: u128,
    seq: u64,
    kind: KindView,
    tile: TileView,
    agent: Seq<char>,
)
    requires
        issued(t, pipeline, seq, kind, tile, seq![agent]),
        !(kind is Rejected),
        confidence_is_finite(tile.confidence),
    ensures
        t.agent_path.contains(agent),
        rebuild(t) matches Ok(v) && v.provenance.contains(agent),
{
    assert(t.agent_path[0] == agent);
    law_stamp_covers_path(tile.provenance, seq![agent]);
    assert(seq![agent][0] == agent);
}

/// One step of a mapper: the tick is of the mapper's pipeline and carries its
/// next sequence number, which then rises by one, the pipeline staying.
pub open spec fn mapper_step(before: TileToTickMapper, after: TileToTickMapper, t: TickView) -> bool {
    &&& after.pipeline() == before.pipeline()
    &&& after.next_seq() == before.next_seq() + 1
    &&& t.pipeline_id == before.pipeline()
    &&& t.seq == before.next_seq()
}

/// The mapper's states after `k` steps of a run from a new mapper.
proof fn lemma_run_prefix(states: Seq<TileToTickMapper>, ticks: Seq<TickView>, pipeline: u128, k: int)
    requires
        states.len() == ticks.len() + 1,
        states[0].pipeline() == pipeline,
        states[0].next_seq() == 0,
        forall|i: int| #![trigger ticks[i]] 0 <= i < ticks.len() ==> mapper_step(states[i], states[i + 1], ticks[i]),
        0 <= k <= ticks.len(),
    ensures
        states[k].next_seq() == k,
        states[k].pipeline() == pipeline,
    decreases k,
{
    if k > 0 {
        lemma_run_prefix(states, ticks, pipeline, k - 1);
        assert(mapper_step(states[k - 1], states[k], ticks[k - 1]));
    }
}

/// Over any run of a new mapper of pipeline `pipeline`, whatever the kinds of
/// the ticks it emits, the `i`-th tick is numbered `i` and is of that pipeline,
/// and the mapper's next number is the count of ticks emitted.
pub proof fn law_mapper_run(states: Seq<TileToTickMapper>, ticks: Seq<TickView>, pipeline: u128)
    requires
        states.len() == ticks.len() + 1,
        states[0].pipeline() == pipeline,
        states[0].next_seq() == 0,
        forall|i: int| #![trigger ticks[i]] 0 <= i < ticks.len() ==> mapper_step(states[i], states[i + 1], ticks[i]),
    ensures
        forall|i: int| 0 <= i < ticks.len() ==> #[trigger] ticks[i].seq == i && ticks[i].pipeline_id == pipeline,
        states.last().next_seq() == ticks.len(),
        states.last().pipeline() == pipeline,
{
    assert forall|i: int| 0 <= i < ticks.len() implies #[trigger] ticks[i].seq == i && ticks[i].pipeline_id == pipeline by {
        lemma_run_prefix(states, ticks, pipeline, i);
    }
    lemma_run_prefix(states, ticks, pipeline, ticks.len() as int);
}

/// Reconstructs tiles from tick payloads.
pub struct TickToTileMapper;

impl TickToTileMapper {
    pub fn new() -> (m: Self)
        ensures
            m == TickToTileMapper,
    {
        TickToTileMapper
    }

    /// The tile that the tick carries, with the agent path stamped into its
    /// provenance and the tick's pipeline recorded; a rejected tick is refused.
    pub fn from_tick(&self, tick: &ForgeTick) -> (r: Result<Tile, MapperError>)
        ensures
            outcome(r) == rebuild(tick@),
    {
        match &tick.kind {
            ForgeTickKind::Rejected { reason } => Err(MapperError::NonAssemblable(reason.clone())),
            _ => {
                let bits: u32 = tick.payload.confidence;
                if (bits / 0x80_0000) % 0x100 == 0xff {
                    return Err(MapperError::Serialize(NULL_CONFIDENCE.to_owned()));
                }
                let mut tile = tick.payload.copy();
                stamp_provenance(&mut tile.provenance, &tick.agent_path);
                tile.metadata.pipeline_id = Some(tick.pipeline_id);
                Ok(tile)
            },
        }
    }

    /// The value of one field of the tick's payload, without reconstructing the tile.
    pub fn field(&self, tick: &ForgeTick, key: &str) -> (r: Option<PayloadValue>)
        ensures
            match r {
                Some(v) => field_of(tick.payload@, key@) == Some(v@),
                None => field_of(tick.payload@, key@) is None,
            },
    {
        let k = key.to_owned();
        let t = &tick.payload;
        if names(&k, "id") {
            Some(PayloadValue::Text(format_id(t.id)))
        } else if names(&k, "domain") {
            Some(PayloadValue::Text(t.domain.clone()))
        } else if names(&k, "question") {
            Some(PayloadValue::Text(t.question.clone()))
        } else if names(&k, "answer") {
            Some(PayloadValue::Text(t.answer.clone()))
        } else if names(&k, "source") {
            Some(PayloadValue::Text(t.source.clone()))
        } else if names(&k, "confidence") {
            if (t.confidence / 0x80_0000) % 0x100 == 0xff {
                Some(PayloadValue::Null)
            } else {
                Some(PayloadValue::Number(t.confidence))
            }
        } else if names(&k, "tags") {
            Some(PayloadValue::List(copy_texts(&t.tags)))
        } else if names(&k, "provenance") {
            Some(PayloadValue::List(copy_texts(&t.provenance)))
        } else if names(&k, "metadata") {
            Some(PayloadValue::Object(t.metadata.copy()))
        } else {
            None
        }
    }
}

impl Default for TickToTileMapper {
    fn default() -> (m: Self)
        ensures
            m == TickToTileMapper,
    {
        Self::new()
    }
}

} // verus!
