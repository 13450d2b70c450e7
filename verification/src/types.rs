use vstd::prelude::*;

use crate::ids::{fresh_id, is_v4};

verus! {

/// IEEE-754 bit pattern of the confidence `1.0` that a new tile starts with.
pub const FULL_CONFIDENCE: u32 = 0x3f80_0000u32;

/// The texts of a list of strings.
pub open spec fn texts(v: Seq<String>) -> Seq<Seq<char>> {
    v.map_values(|s: String| s@)
}

/// The texts of a list of string slices.
pub open spec fn str_texts(v: Seq<&str>) -> Seq<Seq<char>> {
    v.map_values(|s: &str| s@)
}

/// The text of an optional string.
pub open spec fn opt_text(o: Option<String>) -> Option<Seq<char>> {
    match o {
        Some(s) => Some(s@),
        None => None,
    }
}

/// Whether a confidence bit pattern denotes a finite number: its eight exponent
/// bits (above the 23 fraction bits) are not all ones.
pub open spec fn confidence_is_finite(bits: u32) -> bool {
    (bits / 0x80_0000) % 0x100 != 0xff
}

/// Mathematical model of [`TileMetadata`].
pub struct MetadataView {
    pub created_at_ms: u64,
    pub version: u32,
    pub room: Option<Seq<char>>,
    pub pipeline_id: Option<u128>,
}

/// Mathematical model of [`Tile`].
pub struct TileView {
    pub id: u128,
    pub domain: Seq<char>,
    pub question: Seq<char>,
    pub answer: Seq<char>,
    pub source: Seq<char>,
    pub confidence: u32,
    pub tags: Seq<Seq<char>>,
    pub provenance: Seq<Seq<char>>,
    pub metadata: MetadataView,
}

/// Mathematical model of [`ForgeTickKind`].
pub enum KindView {
    Ingest,
    Transform,
    Verified,
    Rejected(Seq<char>),
    Assembled,
}

/// Mathematical model of [`ForgeTick`].
pub struct TickView {
    pub tick_id: u128,
    pub tile_id: u128,
    pub pipeline_id: u128,
    pub kind: KindView,
    pub payload: TileView,
    pub agent_path: Seq<Seq<char>>,
    pub seq: u64,
    pub emitted_at_ms: u64,
}

/// The metadata of a fresh tile: all zero, no room, no pipeline.
pub open spec fn empty_metadata() -> MetadataView {
    MetadataView { created_at_ms: 0, version: 0, room: None, pipeline_id: None }
}

/// Bookkeeping that travels with a tile.
#[derive(Debug, Clone, PartialEq)]
pub struct TileMetadata {
    pub created_at_ms: u64,
    pub version: u32,
    pub room: Option<String>,
    /// The pipeline that last reconstructed this tile, as the 128 bits of its UUID.
    pub pipeline_id: Option<u128>,
}

impl View for TileMetadata {
    type V = MetadataView;

    open spec fn view(&self) -> MetadataView {
        MetadataView {
            created_at_ms: self.created_at_ms,
            version: self.version,
            room: opt_text(self.room),
            pipeline_id: self.pipeline_id,
        }
    }
}

impl Default for TileMetadata {
    fn default() -> (m: Self)
        ensures
            m@ == empty_metadata(),
    {
        TileMetadata { created_at_ms: 0, version: 0, room: None, pipeline_id: None }
    }
}

/// Copies a list of strings, text for text.
pub(crate) fn copy_texts(v: &Vec<String>) -> (r: Vec<String>)
    ensures
        texts(r@) == texts(v@),
{
    let mut r: Vec<String> = Vec::new();
    let mut i: usize = 0;
    while i < v.len()
        invariant
            i <= v@.len(),
            r@.len() == i,
            forall|j: int| 0 <= j < i ==> #[trigger] r@[j]@ == v@[j]@,
        decreases v@.len() - i,
    {
        r.push(v[i].clone());
        i += 1;
    }
    assert(texts(r@) =~= texts(v@));
    r
}

/// Copies a list of string slices into owned strings.
pub(crate) fn own_texts(v: &[&str]) -> (r: Vec<String>)
    ensures
        texts(r@) == str_texts(v@),
{
    let mut r: Vec<String> = Vec::new();
    let mut i: usize = 0;
    while i < v.len()
        invariant
            i <= v@.len(),
            r@.len() == i,
            forall|j: int| 0 <= j < i ==> #[trigger] r@[j]@ == v@[j]@,
        decreases v@.len() - i,
    {
        r.push(v[i].to_owned());
        i += 1;
    }
    assert(texts(r@) =~= str_texts(v@));
    r
}

impl TileMetadata {
    /// A copy with the same model.
    pub(crate) fn copy(&self) -> (m: TileMetadata)
        ensures
            m@ == self@,
    {
        let room = match &self.room {
            Some(s) => Some(s.clone()),
            None => None,
        };
        TileMetadata {
            created_at_ms: self.created_at_ms,
            version: self.version,
            room,
            pipeline_id: self.pipeline_id,
        }
    }
}

/// A tile with the given id and texts, an empty source, full confidence, no
/// tags, no provenance and empty metadata.
fn tile_with_id(id: u128, domain: &str, question: &str, answer: &str) -> (t: Tile)
    ensures
        t.id == id,
        t.domain@ == domain@,
        t.question@ == question@,
        t.answer@ == answer@,
        t.source@ == Seq::<char>::empty(),
        t.confidence == FULL_CONFIDENCE,
        t@.tags == Seq::<Seq<char>>::empty(),
        t@.provenance == Seq::<Seq<char>>::empty(),
        t.metadata@ == empty_metadata(),
{
    let t = Tile {
        id,
        domain: domain.to_owned(),
        question: question.to_owned(),
        answer: answer.to_owned(),
        source: String::new(),
        confidence: FULL_CONFIDENCE,
        tags: Vec::new(),
        provenance: Vec::new(),
        metadata: TileMetadata::default(),
    };
    assert(t@.tags =~= Seq::<Seq<char>>::empty());
    assert(t@.provenance =~= Seq::<Seq<char>>::empty());
    t
}

/// A knowledge tile. Transforms produce new tiles rather than editing one in place.
#[derive(Debug, Clone, PartialEq)]
pub struct Tile {
    /// The 128 bits of the tile's UUID.
    pub id: u128,
    pub domain: String,
    pub question: String,
    pub answer: String,
    pub source: String,
    /// The IEEE-754 bit pattern of the tile's confidence score (an `f32`).
    pub confidence: u32,
    pub tags: Vec<String>,
    pub provenance: Vec<String>,
    pub metadata: TileMetadata,
}

impl View for Tile {
    type V = TileView;

    open spec fn view(&self) -> TileView {
        TileView {
            id: self.id,
            domain: self.domain@,
            question: self.question@,
            answer: self.answer@,
            source: self.source@,
            confidence: self.confidence,
            tags: texts(self.tags@),
            provenance: texts(self.provenance@),
            metadata: self.metadata@,
        }
    }
}

impl Tile {
    /// A tile with a fresh random id, the given texts, an empty source, full
    /// confidence, no tags, no provenance and empty metadata.
    pub fn new(domain: &str, question: &str, answer: &str) -> (t: Tile)
        ensures
            is_v4(t.id),
            t.domain@ == domain@,
            t.question@ == question@,
            t.answer@ == answer@,
            t.source@ == Seq::<char>::empty(),
            t.confidence == FULL_CONFIDENCE,
            t@.tags == Seq::<Seq<char>>::empty(),
            t@.provenance == Seq::<Seq<char>>::empty(),
            t.metadata@ == empty_metadata(),
    {
        let id: u128 = fresh_id();
        tile_with_id(id, domain, question, answer)
    }

    /// The same tile with its confidence set to the given bit pattern, as is.
    pub fn with_confidence_bits(self, bits: u32) -> (t: Tile)
        ensures
            t@ == (TileView { confidence: bits, ..self@ }),
    {
        let mut t = self;
        t.confidence = bits;
        t
    }

    /// The same tile with its tags replaced by the given ones, in order.
    pub fn with_tags<const N: usize>(self, tags: [&str; N]) -> (t: Tile)
        ensures
            t@ == (TileView { tags: str_texts(tags@), ..self@ }),
    {
        let mut t = self;
        t.tags = own_texts(tags.as_slice());
        t
    }

    /// The same tile with the given source.
    pub fn with_source(self, source: &str) -> (t: Tile)
        ensures
            t@ == (TileView { source: source@, ..self@ }),
    {
        let mut t = self;
        t.source = source.to_owned();
        t
    }

    /// A copy with the same model.
    pub(crate) fn copy(&self) -> (t: Tile)
        ensures
            t@ == self@,
    {
        Tile {
            id: self.id,
            domain: self.domain.clone(),
            question: self.question.clone(),
            answer: self.answer.clone(),
            source: self.source.clone(),
            confidence: self.confidence,
            tags: copy_texts(&self.tags),
            provenance: copy_texts(&self.provenance),
            metadata: self.metadata.copy(),
        }
    }
}

/// What happened to the tile that a tick carries.
#[derive(Debug, Clone, PartialEq)]
pub enum ForgeTickKind {
    /// Fresh tile entering the pipeline
    Ingest,
    /// Tile mid-transform by an agent
    Transform,
    /// Tile has been verified/validated
    Verified,
    /// Tile rejected by policy or agent
    Rejected { reason: String },
    /// Final assembled output tile
    Assembled,
}

impl View for ForgeTickKind {
    type V = KindView;

    open spec fn view(&self) -> KindView {
        match self {
            ForgeTickKind::Ingest => KindView::Ingest,
            ForgeTickKind::Transform => KindView::Transform,
            ForgeTickKind::Verified => KindView::Verified,
            ForgeTickKind::Rejected { reason } => KindView::Rejected(reason@),
            ForgeTickKind::Assembled => KindView::Assembled,
        }
    }
}

impl ForgeTickKind {
    /// A copy with the same model.
    pub(crate) fn copy(&self) -> (k: ForgeTickKind)
        ensures
            k@ == self@,
    {
        match self {
            ForgeTickKind::Ingest => ForgeTickKind::Ingest,
            ForgeTickKind::Transform => ForgeTickKind::Transform,
            ForgeTickKind::Verified => ForgeTickKind::Verified,
            ForgeTickKind::Rejected { reason } => ForgeTickKind::Rejected { reason: reason.clone() },
            ForgeTickKind::Assembled => ForgeTickKind::Assembled,
        }
    }
}

/// Whether a tick of this kind ends its tile's run through the pipeline.
pub open spec fn kind_is_terminal(k: KindView) -> bool {
    k is Assembled || k is Rejected
}

/// Exactly the assembled and rejected ticks are terminal: ingested,
/// transformed and verified ticks are still in the pipeline.
pub proof fn law_terminal_kinds(reason: Seq<char>)
    ensures
        !kind_is_terminal(KindView::Ingest),
        !kind_is_terminal(KindView::Transform),
        !kind_is_terminal(KindView::Verified),
        kind_is_terminal(KindView::Assembled),
        kind_is_terminal(KindView::Rejected(reason)),
{
}

/// An inter-agent message carrying a tile through the pipeline.
#[derive(Debug, Clone, PartialEq)]
pub struct ForgeTick {
    /// The 128 bits of this tick's UUID.
    pub tick_id: u128,
    /// Identity of the originating tile.
    pub tile_id: u128,
    /// Which pipeline this tick belongs to.
    pub pipeline_id: u128,
    pub kind: ForgeTickKind,
    /// The tile as it was serialized into the tick.
    pub payload: Tile,
    /// Agents that have touched this tick, in order.
    pub agent_path: Vec<String>,
    /// Monotonic sequence number within the pipeline.
    pub seq: u64,
    pub emitted_at_ms: u64,
}

impl View for ForgeTick {
    type V = TickView;

    open spec fn view(&self) -> TickView {
        TickView {
            tick_id: self.tick_id,
            tile_id: self.tile_id,
            pipeline_id: self.pipeline_id,
            kind: self.kind@,
            payload: self.payload@,
            agent_path: texts(self.agent_path@),
            seq: self.seq,
            emitted_at_ms: self.emitted_at_ms,
        }
    }
}

impl ForgeTick {
    /// Whether the tick is assembled or rejected.
    pub fn is_terminal(&self) -> (b: bool)
        ensures
            b == kind_is_terminal(self.kind@),
    {
        match &self.kind {
            ForgeTickKind::Assembled => true,
            ForgeTickKind::Rejected { .. } => true,
            _ => false,
        }
    }

    /// Whether the named agent occurs in the tick's agent path.
    pub fn was_touched_by(&self, agent: &str) -> (b: bool)
        ensures
            b == self@.agent_path.contains(agent@),
    {
        let name = agent.to_owned();
        contains_text(&self.agent_path, &name)
    }

    /// A copy with the same model.
    pub(crate) fn copy(&self) -> (t: ForgeTick)
        ensures
            t@ == self@,
    {
        ForgeTick {
            tick_id: self.tick_id,
            tile_id: self.tile_id,
            pipeline_id: self.pipeline_id,
            kind: self.kind.copy(),
            payload: self.payload.copy(),
            agent_path: copy_texts(&self.agent_path),
            seq: self.seq,
            emitted_at_ms: self.emitted_at_ms,
        }
    }
}

/// Whether a list of strings holds the given text.
pub(crate) fn contains_text(v: &Vec<String>, s: &String) -> (b: bool)
    ensures
        b == texts(v@).contains(s@),
{
    let mut i: usize = 0;
    while i < v.len()
        invariant
            i <= v@.len(),
            forall|j: int| 0 <= j < i ==> #[trigger] v@[j]@ != s@,
        decreases v@.len() - i,
    {
        if v[i] == *s {
            assert(texts(v@)[i as int] == s@);
            return true;
        }
        i += 1;
    }
    assert forall|j: int| 0 <= j < texts(v@).len() implies texts(v@)[j] != s@ by {
        assert(texts(v@)[j] == v@[j]@);
    }
    false
}

} // verus!
