use vstd::prelude::*;

use crate::types::{contains_text, texts, ForgeTick, Tile, TileView};

verus! {

/// Whether a room with this domain filter takes a tile of this domain:
/// an empty filter takes every domain.
pub open spec fn admits(filter: Seq<Seq<char>>, domain: Seq<char>) -> bool {
    filter.len() == 0 || filter.contains(domain)
}

/// Whether a tile carries the tag.
pub open spec fn has_tag(t: TileView, tag: Seq<char>) -> bool {
    t.tags.contains(tag)
}

/// The tiles of `s`, in order, that carry the tag.
pub open spec fn tagged(s: Seq<Tile>, tag: Seq<char>) -> Seq<Tile>
    decreases s.len(),
{
    if s.len() == 0 {
        Seq::empty()
    } else {
        let rest = tagged(s.drop_last(), tag);
        if has_tag(s.last()@, tag) {
            rest.push(s.last())
        } else {
            rest
        }
    }
}

/// The tiles that a list of references points to.
pub open spec fn referents(s: Seq<&Tile>) -> Seq<Tile> {
    s.map_values(|t: &Tile| *t)
}

/// A room with no domain filter accepts a tile of any domain.
pub proof fn law_open_room_accepts_all(domain: Seq<char>)
    ensures
        admits(Seq::empty(), domain),
{
}

/// Adding a domain to a filter makes the room accept that domain, and it keeps
/// accepting every domain it accepted before unless its filter was empty.
pub proof fn law_added_domain_accepted(filter: Seq<Seq<char>>, domain: Seq<char>, other: Seq<char>)
    ensures
        admits(filter.push(domain), domain),
        filter.len() > 0 && admits(filter, other) ==> admits(filter.push(domain), other),
        admits(filter.push(domain), other) ==> other == domain || filter.contains(other),
{
    assert(filter.push(domain)[filter.len() as int] == domain);
    if filter.len() > 0 && admits(filter, other) {
        let k = choose|k: int| 0 <= k < filter.len() && filter[k] == other;
        assert(filter.push(domain)[k] == other);
    }
    if admits(filter.push(domain), other) && other != domain {
        let k = choose|k: int| 0 <= k < filter.len() + 1 && filter.push(domain)[k] == other;
        assert(filter[k] == other);
    }
}

/// Finding tiles by tag keeps exactly the tiles that carry the tag, in order:
/// each found tile carries the tag, and each tile that carries it is found.
pub proof fn law_tagged_exact(s: Seq<Tile>, tag: Seq<char>)
    ensures
        tagged(s, tag).len() <= s.len(),
        forall|i: int| 0 <= i < tagged(s, tag).len() ==> has_tag(#[trigger] tagged(s, tag)[i]@, tag),
        forall|i: int| 0 <= i < tagged(s, tag).len() ==> s.contains(#[trigger] tagged(s, tag)[i]),
        forall|i: int| 0 <= i < s.len() && has_tag(#[trigger] s[i]@, tag) ==> tagged(s, tag).contains(s[i]),
    decreases s.len(),
{
    if s.len() > 0 {
        let front = s.drop_last();
        law_tagged_exact(front, tag);
        let rest = tagged(front, tag);
        let r = tagged(s, tag);
        assert forall|i: int| 0 <= i < r.len() implies s.contains(#[trigger] r[i]) by {
            if i < rest.len() {
                assert(r[i] == rest[i]);
                assert(front.contains(rest[i]));
                let k = choose|k: int| 0 <= k < front.len() && front[k] == rest[i];
                assert(s[k] == front[k]);
            } else {
                assert(r[i] == s.last());
                assert(s[s.len() - 1] == s.last());
            }
        }
        assert forall|i: int| 0 <= i < r.len() implies has_tag(#[trigger] r[i]@, tag) by {
            if i < rest.len() {
                assert(r[i] == rest[i]);
            }
        }
        assert forall|i: int| 0 <= i < s.len() && has_tag(#[trigger] s[i]@, tag) implies r.contains(
            s[i],
        ) by {
            if i < s.len() - 1 {
                assert(front[i] == s[i]);
                assert(rest.contains(front[i]));
                let k = choose|k: int| 0 <= k < rest.len() && rest[k] == front[i];
                assert(r[k] == rest[k]);
            } else {
                assert(r[r.len() - 1] == s.last());
            }
        }
    }
}

/// Whether a tile's tags hold the tag.
pub open spec fn carries(tag: Seq<char>) -> spec_fn(Tile) -> bool {
    |t: Tile| t@.tags.contains(tag)
}

/// Finding tiles by tag is filtering the room's tiles by "its tags hold the
/// tag": each stored tile that carries the tag is found exactly once, in room
/// order, and nothing else is.
pub proof fn law_tagged_is_filter(s: Seq<Tile>, tag: Seq<char>)
    ensures
        tagged(s, tag) == s.filter(carries(tag)),
    decreases s.len(),
{
    reveal(Seq::filter);
    if s.len() > 0 {
        law_tagged_is_filter(s.drop_last(), tag);
    }
}

/// A room at the output of a pipeline. Assembled tiles land here when their
/// domain passes the room's filter.
#[derive(Debug, Clone)]
pub struct ForgeRoom {
    pub name: String,
    /// Accepted domains. Empty = accept all.
    pub domain_filter: Vec<String>,
    tiles: Vec<Tile>,
    /// Log of ticks that passed through this room's pipeline stage.
    tick_log: Vec<ForgeTick>,
}

impl ForgeRoom {
    /// The room's name.
    pub closed spec fn label(&self) -> Seq<char> {
        self.name@
    }

    /// The accepted domains.
    pub closed spec fn filter(&self) -> Seq<Seq<char>> {
        texts(self.domain_filter@)
    }

    /// The tiles the room holds, oldest first.
    pub closed spec fn stored(&self) -> Seq<Tile> {
        self.tiles@
    }

    /// The ticks logged in the room, oldest first.
    pub closed spec fn logged(&self) -> Seq<ForgeTick> {
        self.tick_log@
    }

    /// An empty room that accepts every domain.
    pub fn new(name: &str) -> (r: Self)
        ensures
            r.label() == name@,
            r.filter() == Seq::<Seq<char>>::empty(),
            r.stored() == Seq::<Tile>::empty(),
            r.logged() == Seq::<ForgeTick>::empty(),
    {
        let r = ForgeRoom {
            name: name.to_owned(),
            domain_filter: Vec::new(),
            tiles: Vec::new(),
            tick_log: Vec::new(),
        };
        assert(r.filter() =~= Seq::<Seq<char>>::empty());
        r
    }

    /// The same room, also accepting the domain.
    pub fn with_domain(self, domain: &str) -> (r: Self)
        ensures
            r.label() == self.label(),
            r.filter() == self.filter().push(domain@),
            r.stored() == self.stored(),
            r.logged() == self.logged(),
    {
        let mut r = self;
        let ghost before = r.filter();
        r.domain_filter.push(domain.to_owned());
        assert(r.filter() =~= before.push(domain@));
        r
    }

    /// Whether this room accepts tiles from the given tile's domain.
    pub fn accepts(&self, tile: &Tile) -> (b: bool)
        ensures
            b == admits(self.filter(), tile.domain@),
    {
        self.domain_filter.len() == 0 || contains_text(&self.domain_filter, &tile.domain)
    }

    /// Receive an assembled tile into this room.
    pub fn receive(&mut self, tile: Tile)
        ensures
            final(self).label() == old(self).label(),
            final(self).filter() == old(self).filter(),
            final(self).stored() == old(self).stored().push(tile),
            final(self).logged() == old(self).logged(),
    {
        self.tiles.push(tile);
    }

    /// Record a tick that transited this room.
    pub fn log_tick(&mut self, tick: ForgeTick)
        ensures
            final(self).label() == old(self).label(),
            final(self).filter() == old(self).filter(),
            final(self).stored() == old(self).stored(),
            final(self).logged() == old(self).logged().push(tick),
    {
        self.tick_log.push(tick);
    }

    pub fn tiles(&self) -> (r: &[Tile])
        ensures
            r@ == self.stored(),
    {
        self.tiles.as_slice()
    }

    pub fn tick_log(&self) -> (r: &[ForgeTick])
        ensures
            r@ == self.logged(),
    {
        self.tick_log.as_slice()
    }

    pub fn tile_count(&self) -> (n: usize)
        ensures
            n == self.stored().len(),
    {
        self.tiles.len()
    }

    /// Drain tiles from the room (agent consumes them).
    pub fn drain(&mut self) -> (r: Vec<Tile>)
        ensures
            r@ == old(self).stored(),
            final(self).stored() == Seq::<Tile>::empty(),
            final(self).label() == old(self).label(),
            final(self).filter() == old(self).filter(),
            final(self).logged() == old(self).logged(),
    {
        let mut r: Vec<Tile> = Vec::new();
        std::mem::swap(&mut r, &mut self.tiles);
        r
    }

    /// Find tiles by tag.
    pub fn tiles_with_tag(&self, tag: &str) -> (r: Vec<&Tile>)
        ensures
            referents(r@) == tagged(self.stored(), tag@),
    {
        let wanted = tag.to_owned();
        let mut r: Vec<&Tile> = Vec::new();
        let mut i: usize = 0;
        while i < self.tiles.len()
            invariant
                i <= self.tiles@.len(),
                wanted@ == tag@,
                referents(r@) == tagged(self.tiles@.take(i as int), tag@),
            decreases self.tiles@.len() - i,
        {
            let ghost before = referents(r@);
            assert(self.tiles@.take(i + 1).drop_last() =~= self.tiles@.take(i as int));
            assert(self.tiles@.take(i + 1).last() == self.tiles@[i as int]);
            let t = &self.tiles[i];
            if contains_text(&t.tags, &wanted) {
                r.push(t);
                assert(referents(r@) =~= before.push(self.tiles@[i as int]));
            }
            i += 1;
        }
        assert(self.tiles@.take(self.tiles@.len() as int) =~= self.tiles@);
        r
    }
}

} // verus!
