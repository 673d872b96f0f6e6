//! A map consisting of tiles.

use self::chunk::{ChunkId, Chunks, WorldRect};
use vstd::prelude::*;

pub mod array;
pub mod chunk;
pub mod cleanup;
pub mod generate;
pub mod neighbors;

verus! {

/// The sqrt of the number of tiles within a chunk.
pub const CHUNK_TILES_SQ: usize = 50;

/// The total number of tiles within a chunk.
pub const CHUNK_TILES: usize = CHUNK_TILES_SQ * CHUNK_TILES_SQ;

/// The side of a tile in world units.
pub const TILE_SIZE: i64 = 8;

/// The sqrt of the size of a chunk in world units.
pub const CHUNK_SIZE_SQ: i64 = 400;

/// How many chunks beyond the edge of a view are kept alive, on every side.
pub const VIEW_MARGIN: i32 = 4;

/// A rectangle of chunk coordinates: `min` is its first chunk on each axis
/// and `max` its last. Where `max` lies before `min` on an axis, the
/// rectangle holds no chunk.
#[derive(Clone, Copy, Debug, PartialEq, Eq, Hash, Structural)]
pub struct ChunkRect {
    pub min: ChunkId,
    pub max: ChunkId,
}

/// `a - b`, held at the least `i32` where the difference would pass it.
pub open spec fn spec_saturating_sub(a: i32, b: i32) -> i32 {
    if a - b < i32::MIN {
        i32::MIN
    } else if a - b > i32::MAX {
        i32::MAX
    } else {
        (a - b) as i32
    }
}

/// `a + b`, held at the greatest `i32` where the sum would pass it.
pub open spec fn spec_saturating_add(a: i32, b: i32) -> i32 {
    if a + b < i32::MIN {
        i32::MIN
    } else if a + b > i32::MAX {
        i32::MAX
    } else {
        (a + b) as i32
    }
}

fn saturating_sub(a: i32, b: i32) -> (r: i32)
    ensures
        r == spec_saturating_sub(a, b),
{
    let wide: i64 = a as i64 - b as i64;
    if wide < i32::MIN as i64 {
        i32::MIN
    } else if wide > i32::MAX as i64 {
        i32::MAX
    } else {
        wide as i32
    }
}

fn saturating_add(a: i32, b: i32) -> (r: i32)
    ensures
        r == spec_saturating_add(a, b),
{
    let wide: i64 = a as i64 + b as i64;
    if wide < i32::MIN as i64 {
        i32::MIN
    } else if wide > i32::MAX as i64 {
        i32::MAX
    } else {
        wide as i32
    }
}

impl ChunkRect {
    /// Whether chunk `id` lies in the rectangle.
    pub open spec fn spec_contains(&self, id: ChunkId) -> bool {
        self.min.x <= id.x <= self.max.x && self.min.y <= id.y <= self.max.y
    }

    /// The rectangle of chunks to keep alive for a view whose corners lie in
    /// the chunks `min` and `max`: it runs from `min` less the margin up to
    /// and including `max` plus the margin, as far as chunk coordinates go.
    pub open spec fn spec_around(min: ChunkId, max: ChunkId) -> ChunkRect {
        ChunkRect {
            min: ChunkId {
                x: spec_saturating_sub(min.x, VIEW_MARGIN),
                y: spec_saturating_sub(min.y, VIEW_MARGIN),
            },
            max: ChunkId {
                x: spec_saturating_add(max.x, VIEW_MARGIN),
                y: spec_saturating_add(max.y, VIEW_MARGIN),
            },
        }
    }

    /// Whether chunk `id` lies in the rectangle.
    #[verifier::when_used_as_spec(spec_contains)]
    pub fn contains(&self, id: ChunkId) -> (r: bool)
        ensures
            r == self.spec_contains(id),
    {
        self.min.x <= id.x && id.x <= self.max.x && self.min.y <= id.y && id.y <= self.max.y
    }

    /// The rectangle of chunks to keep alive for a view whose corners lie in
    /// the chunks `min` and `max`: every chunk that lies, on each axis, no
    /// more than the margin before `min` and no more than the margin after `max`.
    #[verifier::when_used_as_spec(spec_around)]
    pub fn around(min: ChunkId, max: ChunkId) -> (rect: ChunkRect)
        ensures
            rect == Self::spec_around(min, max),
            forall|id: ChunkId|
                #[trigger] rect.spec_contains(id) <==> {
                    &&& min.x - VIEW_MARGIN <= id.x <= max.x + VIEW_MARGIN
                    &&& min.y - VIEW_MARGIN <= id.y <= max.y + VIEW_MARGIN
                },
    {
        ChunkRect {
            min: ChunkId {
                x: saturating_sub(min.x, VIEW_MARGIN),
                y: saturating_sub(min.y, VIEW_MARGIN),
            },
            max: ChunkId {
                x: saturating_add(max.x, VIEW_MARGIN),
                y: saturating_add(max.y, VIEW_MARGIN),
            },
        }
    }

    /// The rectangle of chunks to keep alive for the part of the world that
    /// a view shows: every chunk from the chunk of the view's least corner
    /// less the margin up to and including the chunk of its greatest corner
    /// plus the margin, on each axis.
    pub fn of_view(view: WorldRect) -> (rect: ChunkRect)
        ensures
            rect == Self::spec_around(
                ChunkId {
                    x: chunk::chunk_of(view.min.x as int) as i32,
                    y: chunk::chunk_of(view.min.y as int) as i32,
                },
                ChunkId {
                    x: chunk::chunk_of(view.max.x as int) as i32,
                    y: chunk::chunk_of(view.max.y as int) as i32,
                },
            ),
            forall|id: ChunkId|
                #[trigger] rect.spec_contains(id) <==> {
                    &&& chunk::chunk_of(view.min.x as int) - VIEW_MARGIN <= id.x <= chunk::chunk_of(
                        view.max.x as int,
                    ) + VIEW_MARGIN
                    &&& chunk::chunk_of(view.min.y as int) - VIEW_MARGIN <= id.y <= chunk::chunk_of(
                        view.max.y as int,
                    ) + VIEW_MARGIN
                },
    {
        Self::around(ChunkId::from_world(view.min), ChunkId::from_world(view.max))
    }
}

/// Whether chunk `id` is to be alive: it lies in the rectangle of at least one view.
pub open spec fn in_view(views: Seq<ChunkRect>, id: ChunkId) -> bool {
    exists|i: int| 0 <= i < views.len() && (#[trigger] views[i]).spec_contains(id)
}

/// Whether chunk `id` lies in one of the first `upto` rectangles of `views`.
fn in_first_views(views: &Vec<ChunkRect>, upto: usize, id: ChunkId) -> (r: bool)
    requires
        upto <= views.len(),
    ensures
        r == in_view(views@.take(upto as int), id),
{
    let mut i: usize = 0;
    while i < upto
        invariant
            i <= upto <= views.len(),
            !in_view(views@.take(i as int), id),
        decreases upto - i,
    {
        if views[i].contains(id) {
            assert(views@.take(upto as int)[i as int].spec_contains(id));
            return true;
        }
        proof {
            let before = views@.take(i as int);
            let after = views@.take(i + 1);
            assert forall|k: int| 0 <= k < after.len() implies !(#[trigger] after[k]).spec_contains(
                id,
            ) by {
                if k < i {
                    assert(before[k] == after[k]);
                }
            }
        }
        i += 1;
    }
    false
}

/// Whether chunk `id` is to be alive under `views`.
pub fn is_in_view(views: &Vec<ChunkRect>, id: ChunkId) -> (r: bool)
    ensures
        r == in_view(views@, id),
{
    assert(views@.take(views@.len() as int) == views@);
    in_first_views(views, views.len(), id)
}

/// What `missing` has listed when it stands at column `x`, row `y` of the
/// `upto`-th view: every absent chunk of the views before, and of this
/// view every absent chunk that comes before that place.
spec fn reached(
    live: Map<ChunkId, u64>,
    views: Seq<ChunkRect>,
    upto: int,
    x: int,
    y: int,
    id: ChunkId,
) -> bool {
    &&& !live.contains_key(id)
    &&& (in_view(views.take(upto), id) || (0 <= upto < views.len() && views[upto].spec_contains(id)
        && (id.x < x || (id.x == x && id.y < y))))
}

/// What is listed once a view is done with is what is listed at the
/// start of the next: every absent chunk of the views so far.
proof fn lemma_reached_next_view(live: Map<ChunkId, u64>, views: Seq<ChunkRect>, upto: int, id: ChunkId)
    requires
        0 <= upto < views.len(),
    ensures
        reached(live, views, upto, views[upto].max.x + 1, i32::MIN as int, id) <==> reached(
            live,
            views,
            upto + 1,
            i32::MIN as int,
            i32::MIN as int,
            id,
        ),
{
    let before = views.take(upto);
    let after = views.take(upto + 1);
    if views[upto].spec_contains(id) {
        assert(after[upto] == views[upto]);
    }
    if in_view(before, id) {
        let k = choose|k: int| 0 <= k < before.len() && (#[trigger] before[k]).spec_contains(id);
        assert(after[k] == before[k]);
    }
    if in_view(after, id) {
        let k = choose|k: int| 0 <= k < after.len() && (#[trigger] after[k]).spec_contains(id);
        if k < upto {
            assert(before[k] == after[k]);
        }
    }
}

/// Whether view `v` is the first of `views` that shows chunk `id`.
pub open spec fn first_shown_by(views: Seq<ChunkRect>, id: ChunkId, v: int) -> bool {
    0 <= v < views.len() && views[v].spec_contains(id) && !in_view(views.take(v), id)
}

/// Whether chunk `id` has its place in the listing before the place
/// (`x`, `y`) of view `v`: an earlier view is the first to show it, or
/// view `v` is and `id` comes before (`x`, `y`), columns first.
pub open spec fn listed_by(views: Seq<ChunkRect>, id: ChunkId, v: int, x: int, y: int) -> bool {
    exists|first: int| #[trigger]
        first_shown_by(views, id, first) && (first < v || (first == v && (id.x < x || (id.x == x
            && id.y < y))))
}

/// Whether chunk `a` has its place in the listing before chunk `b`.
pub open spec fn listed_before(views: Seq<ChunkRect>, a: ChunkId, b: ChunkId) -> bool {
    exists|first: int| #[trigger]
        first_shown_by(views, b, first) && listed_by(views, a, first, b.x as int, b.y as int)
}

proof fn lemma_reached_start(live: Map<ChunkId, u64>, views: Seq<ChunkRect>, upto: int, id: ChunkId)
    ensures
        reached(live, views, upto, i32::MIN as int, i32::MIN as int, id) <==> (!live.contains_key(id)
            && in_view(views.take(upto), id)),
{
}

/// What is listed before one place is listed before every later place.
proof fn lemma_listed_on(
    views: Seq<ChunkRect>,
    id: ChunkId,
    v: int,
    x: int,
    y: int,
    later_v: int,
    later_x: int,
    later_y: int,
)
    requires
        listed_by(views, id, v, x, y),
        v < later_v || (v == later_v && (x < later_x || (x == later_x && y <= later_y))),
    ensures
        listed_by(views, id, later_v, later_x, later_y),
{
    let first = choose|first: int| #[trigger]
        first_shown_by(views, id, first) && (first < v || (first == v && (id.x < x || (id.x == x
            && id.y < y))));
    assert(first_shown_by(views, id, first));
}

/// The chunks that are to be alive under `views` and are not: each once,
/// view by view, and within a view column by column. A chunk that several
/// views show is listed with the first of them.
pub fn missing(chunks: &Chunks, views: &Vec<ChunkRect>) -> (ids: Vec<ChunkId>)
    ensures
        ids@.no_duplicates(),
        forall|id: ChunkId| ids@.contains(id) <==> in_view(views@, id) && !chunks@.contains_key(id),
        forall|i: int, j: int|
            0 <= i < j < ids@.len() ==> listed_before(views@, #[trigger] ids@[i], #[trigger] ids@[j]),
{
    let mut ids: Vec<ChunkId> = Vec::new();
    let mut v: usize = 0;
    while v < views.len()
        invariant
            v <= views.len(),
            ids@.no_duplicates(),
            forall|id: ChunkId|
                ids@.contains(id) <==> reached(
                    chunks@,
                    views@,
                    v as int,
                    i32::MIN as int,
                    i32::MIN as int,
                    id,
                ),
            forall|k: int|
                0 <= k < ids@.len() ==> listed_by(
                    views@,
                    #[trigger] ids@[k],
                    v as int,
                    i32::MIN as int,
                    i32::MIN as int,
                ),
            forall|i: int, j: int|
                0 <= i < j < ids@.len() ==> listed_before(
                    views@,
                    #[trigger] ids@[i],
                    #[trigger] ids@[j],
                ),
        decreases views.len() - v,
    {
        let rect = views[v];
        let mut x: i64 = rect.min.x as i64;
        while x <= rect.max.x as i64
            invariant
                v < views.len(),
                rect == views@[v as int],
                rect.min.x <= x,
                x <= rect.max.x + 1 || rect.max.x < rect.min.x,
                ids@.no_duplicates(),
                forall|id: ChunkId|
                    ids@.contains(id) <==> reached(
                        chunks@,
                        views@,
                        v as int,
                        x as int,
                        i32::MIN as int,
                        id,
                    ),
                forall|k: int|
                    0 <= k < ids@.len() ==> listed_by(
                        views@,
                        #[trigger] ids@[k],
                        v as int,
                        x as int,
                        i32::MIN as int,
                    ),
                forall|i: int, j: int|
                    0 <= i < j < ids@.len() ==> listed_before(
                        views@,
                        #[trigger] ids@[i],
                        #[trigger] ids@[j],
                    ),
            decreases rect.max.x + 1 - x,
        {
            let mut y: i64 = rect.min.y as i64;
            while y <= rect.max.y as i64
                invariant
                    v < views.len(),
                    rect == views@[v as int],
                    rect.min.x <= x <= rect.max.x,
                    rect.min.y <= y,
                    ids@.no_duplicates(),
                    forall|id: ChunkId|
                        ids@.contains(id) <==> reached(chunks@, views@, v as int, x as int, y as int, id),
                    forall|k: int|
                        0 <= k < ids@.len() ==> listed_by(
                            views@,
                            #[trigger] ids@[k],
                            v as int,
                            x as int,
                            y as int,
                        ),
                    forall|i: int, j: int|
                        0 <= i < j < ids@.len() ==> listed_before(
                            views@,
                            #[trigger] ids@[i],
                            #[trigger] ids@[j],
                        ),
                decreases rect.max.y + 1 - y,
            {
                let id = ChunkId { x: x as i32, y: y as i32 };
                let ghost before = ids@;
                let absent = !chunks.contains_key(&id);
                let fresh = absent && !in_first_views(views, v, id);
                if fresh {
                    ids.push(id);
                    assert(!before.contains(id));
                    assert(ids@ == before.push(id));
                    assert(first_shown_by(views@, id, v as int));
                    assert forall|i: int, j: int| 0 <= i < j < ids@.len() implies listed_before(
                        views@,
                        #[trigger] ids@[i],
                        #[trigger] ids@[j],
                    ) by {
                        if j == before.len() {
                            assert(listed_by(views@, before[i], v as int, x as int, y as int));
                        } else {
                            assert(listed_before(views@, before[i], before[j]));
                        }
                    }
                }
                assert forall|k: int| 0 <= k < ids@.len() implies listed_by(
                    views@,
                    #[trigger] ids@[k],
                    v as int,
                    x as int,
                    y + 1,
                ) by {
                    if k < before.len() {
                        lemma_listed_on(
                            views@,
                            before[k],
                            v as int,
                            x as int,
                            y as int,
                            v as int,
                            x as int,
                            y + 1,
                        );
                    } else {
                        assert(first_shown_by(views@, id, v as int));
                    }
                }
                assert forall|other: ChunkId|
                    ids@.contains(other) <==> reached(
                        chunks@,
                        views@,
                        v as int,
                        x as int,
                        y + 1,
                        other,
                    ) by {
                    let was = reached(chunks@, views@, v as int, x as int, y as int, other);
                    let now = reached(chunks@, views@, v as int, x as int, y + 1, other);
                    assert(before.contains(other) <==> was);
                    assert(now <==> was || (other == id && absent));
                    if fresh {
                        if before.contains(other) {
                            let k = choose|k: int| 0 <= k < before.len() && before[k] == other;
                            assert(ids@[k] == other);
                        }
                        if other == id {
                            assert(ids@[ids@.len() - 1] == other);
                        }
                        if ids@.contains(other) {
                            let k = choose|k: int| 0 <= k < ids@.len() && ids@[k] == other;
                            if k < before.len() {
                                assert(before[k] == other);
                            }
                        }
                    }
                }
                y += 1;
            }
            assert forall|k: int| 0 <= k < ids@.len() implies listed_by(
                views@,
                #[trigger] ids@[k],
                v as int,
                x + 1,
                i32::MIN as int,
            ) by {
                lemma_listed_on(
                    views@,
                    ids@[k],
                    v as int,
                    x as int,
                    y as int,
                    v as int,
                    x + 1,
                    i32::MIN as int,
                );
            }
            assert forall|other: ChunkId|
                ids@.contains(other) <==> reached(
                    chunks@,
                    views@,
                    v as int,
                    x + 1,
                    i32::MIN as int,
                    other,
                ) by {
                assert(reached(chunks@, views@, v as int, x + 1, i32::MIN as int, other) <==> reached(
                    chunks@,
                    views@,
                    v as int,
                    x as int,
                    y as int,
                    other,
                ));
            }
            x += 1;
        }
        proof {
            assert forall|k: int| 0 <= k < ids@.len() implies listed_by(
                views@,
                #[trigger] ids@[k],
                v + 1,
                i32::MIN as int,
                i32::MIN as int,
            ) by {
                lemma_listed_on(
                    views@,
                    ids@[k],
                    v as int,
                    x as int,
                    i32::MIN as int,
                    v + 1,
                    i32::MIN as int,
                    i32::MIN as int,
                );
            }
            assert forall|id: ChunkId|
                ids@.contains(id) <==> reached(
                    chunks@,
                    views@,
                    v + 1,
                    i32::MIN as int,
                    i32::MIN as int,
                    id,
                ) by {
                lemma_reached_next_view(chunks@, views@, v as int, id);
                lemma_reached_start(chunks@, views@, v + 1, id);
            }
        }
        v += 1;
    }
    proof {
        assert(views@.take(views@.len() as int) == views@);
        assert forall|id: ChunkId| ids@.contains(id) <==> in_view(views@, id) && !chunks@.contains_key(
            id,
        ) by {
            lemma_reached_start(chunks@, views@, v as int, id);
        }
    }
    ids
}

/// The chunks that are to be alive under `views`.
pub open spec fn visible(views: Seq<ChunkRect>) -> Set<ChunkId> {
    Set::new(|id: ChunkId| in_view(views, id))
}

/// The live set `live` without the chunks that `views` no longer show.
pub open spec fn kept(live: Map<ChunkId, u64>, views: Seq<ChunkRect>) -> Map<ChunkId, u64> {
    live.restrict(visible(views))
}

/// Whether one of the first `n` entries of `entries` is for chunk `id`.
spec fn names(entries: Seq<(ChunkId, u64)>, n: int, id: ChunkId) -> bool {
    exists|k: int| 0 <= k < n && k < entries.len() && (#[trigger] entries[k]).0 == id
}

/// Takes out of the live set every chunk that `views` no longer show, and
/// returns those chunks with their handles, each once.
pub fn evict(chunks: &mut Chunks, views: &Vec<ChunkRect>) -> (gone: Vec<(ChunkId, u64)>)
    ensures
        final(chunks)@ == kept(old(chunks)@, views@),
        gone@.no_duplicates(),
        forall|id: ChunkId, handle: u64|
            gone@.contains((id, handle)) <==> old(chunks)@.contains_pair(id, handle) && !in_view(
                views@,
                id,
            ),
{
    let all = chunks.entries();
    let mut gone: Vec<(ChunkId, u64)> = Vec::new();
    let mut i: usize = 0;
    while i < all.len()
        invariant
            i <= all.len(),
            all@.no_duplicates(),
            gone@.no_duplicates(),
            forall|e: (ChunkId, u64)|
                gone@.contains(e) <==> all@.take(i as int).contains(e) && !in_view(views@, e.0),
        decreases all.len() - i,
    {
        let entry = all[i];
        let ghost before = gone@;
        let stale = !is_in_view(views, entry.0);
        if stale {
            gone.push(entry);
            assert(!before.contains(entry)) by {
                if all@.take(i as int).contains(entry) {
                    let k = choose|k: int| 0 <= k < i && all@.take(i as int)[k] == entry;
                    assert(all@[k] == all@[i as int]);
                }
            }
            assert(gone@ == before.push(entry));
        }
        assert forall|e: (ChunkId, u64)|
            gone@.contains(e) <==> all@.take(i + 1).contains(e) && !in_view(views@, e.0) by {
            let short = all@.take(i as int);
            let long = all@.take(i + 1);
            assert(long == short.push(entry));
            if short.contains(e) {
                let k = choose|k: int| 0 <= k < short.len() && short[k] == e;
                assert(long[k] == e);
            }
            if e == entry {
                assert(long[i as int] == e);
            }
            if long.contains(e) {
                let k = choose|k: int| 0 <= k < long.len() && long[k] == e;
                if k < i {
                    assert(short[k] == e);
                }
            }
            if stale {
                if before.contains(e) {
                    let k = choose|k: int| 0 <= k < before.len() && before[k] == e;
                    assert(gone@[k] == e);
                }
                if e == entry {
                    assert(gone@[gone@.len() - 1] == e);
                }
                if gone@.contains(e) {
                    let k = choose|k: int| 0 <= k < gone@.len() && gone@[k] == e;
                    if k < before.len() {
                        assert(before[k] == e);
                    }
                }
            }
        }
        i += 1;
    }
    assert(all@.take(all@.len() as int) == all@);
    let mut j: usize = 0;
    while j < gone.len()
        invariant
            j <= gone.len(),
            forall|id: ChunkId|
                chunks@.contains_key(id) <==> old(chunks)@.contains_key(id) && !names(
                    gone@,
                    j as int,
                    id,
                ),
            forall|id: ChunkId| chunks@.contains_key(id) ==> chunks@[id] == old(chunks)@[id],
        decreases gone.len() - j,
    {
        let ghost live = chunks@;
        let _ = chunks.remove(&gone[j].0);
        assert forall|id: ChunkId|
            chunks@.contains_key(id) <==> old(chunks)@.contains_key(id) && !names(
                gone@,
                j + 1,
                id,
            ) by {
            if names(gone@, j + 1, id) {
                let k = choose|k: int| 0 <= k < j + 1 && k < gone@.len() && (#[trigger] gone@[k]).0 == id;
                if k < j {
                    assert(names(gone@, j as int, id));
                }
            }
            if names(gone@, j as int, id) {
                let k = choose|k: int| 0 <= k < j && k < gone@.len() && (#[trigger] gone@[k]).0 == id;
                assert(names(gone@, j + 1, id));
            }
            if id == gone@[j as int].0 {
                assert(names(gone@, j + 1, id));
            }
        }
        j += 1;
    }
    proof {
        let want = kept(old(chunks)@, views@);
        assert forall|id: ChunkId| chunks@.contains_key(id) <==> want.contains_key(id) by {
            if old(chunks)@.contains_key(id) {
                let handle = old(chunks)@[id];
                assert(old(chunks)@.contains_pair(id, handle));
                if !in_view(views@, id) {
                    assert(gone@.contains((id, handle)));
                    let k = choose|k: int| 0 <= k < gone@.len() && gone@[k] == (id, handle);
                    assert(gone@[k].0 == id);
                    assert(names(gone@, j as int, id));
                }
                if names(gone@, j as int, id) {
                    let k = choose|k: int|
                        0 <= k < j && k < gone@.len() && (#[trigger] gone@[k]).0 == id;
                    assert(gone@.contains(gone@[k]));
                }
            }
        }
        assert forall|id: ChunkId| chunks@.dom().contains(id) implies #[trigger] chunks@[id]
            == want[id] by {
            assert(chunks@.contains_key(id));
            assert(want.contains_key(id));
        }
        assert(chunks@ =~= want);
    }
    gone
}

/// Brings the live set in line with `views`: every chunk that the views show
/// and that is not alive is made alive with the handle that `spawn` gives for
/// it, and every live chunk that no view shows is taken out. Returns the
/// chunks taken out, with their handles, each once.
///
/// Afterwards the live chunks are exactly the chunks that the views show.
pub fn update_visibility<F: Fn(ChunkId) -> u64>(
    chunks: &mut Chunks,
    views: &Vec<ChunkRect>,
    spawn: F,
) -> (gone: Vec<(ChunkId, u64)>)
    requires
        forall|id: ChunkId|
            in_view(views@, id) && !old(chunks)@.contains_key(id) ==> call_requires(spawn, (id,)),
    ensures
        final(chunks)@.dom() == visible(views@),
        forall|id: ChunkId|
            in_view(views@, id) && old(chunks)@.contains_key(id) ==> final(chunks)@[id] == old(
                chunks,
            )@[id],
        forall|id: ChunkId|
            in_view(views@, id) && !old(chunks)@.contains_key(id) ==> call_ensures(
                spawn,
                (id,),
                final(chunks)@[id],
            ),
        gone@.no_duplicates(),
        forall|id: ChunkId, handle: u64|
            gone@.contains((id, handle)) <==> old(chunks)@.contains_pair(id, handle) && !in_view(
                views@,
                id,
            ),
{
    let ids = missing(chunks, views);
    let mut i: usize = 0;
    while i < ids.len()
        invariant
            i <= ids.len(),
            ids@.no_duplicates(),
            forall|id: ChunkId|
                ids@.contains(id) <==> in_view(views@, id) && !old(chunks)@.contains_key(id),
            forall|id: ChunkId|
                in_view(views@, id) && !old(chunks)@.contains_key(id) ==> call_requires(spawn, (id,)),
            forall|id: ChunkId|
                chunks@.contains_key(id) <==> old(chunks)@.contains_key(id) || ids@.take(
                    i as int,
                ).contains(id),
            forall|id: ChunkId|
                old(chunks)@.contains_key(id) ==> chunks@.contains_key(id) && chunks@[id] == old(
                    chunks,
                )@[id],
            forall|id: ChunkId|
                ids@.take(i as int).contains(id) ==> call_ensures(spawn, (id,), chunks@[id]),
        decreases ids.len() - i,
    {
        let id = ids[i];
        assert(ids@.contains(id));
        let handle = spawn(id);
        let _ = chunks.insert(id, handle);
        proof {
            let short = ids@.take(i as int);
            let long = ids@.take(i + 1);
            assert(long == short.push(id));
            assert forall|other: ChunkId| long.contains(other) <==> short.contains(other) || other
                == id by {
                if short.contains(other) {
                    let k = choose|k: int| 0 <= k < short.len() && short[k] == other;
                    assert(long[k] == other);
                }
                if other == id {
                    assert(long[i as int] == other);
                }
                if long.contains(other) {
                    let k = choose|k: int| 0 <= k < long.len() && long[k] == other;
                    if k < i {
                        assert(short[k] == other);
                    }
                }
            }
            assert(!short.contains(id)) by {
                if short.contains(id) {
                    let k = choose|k: int| 0 <= k < short.len() && short[k] == id;
                    assert(ids@[k] == ids@[i as int]);
                }
            }
        }
        i += 1;
    }
    assert(ids@.take(ids@.len() as int) == ids@);
    let ghost full = chunks@;
    let gone = evict(chunks, views);
    proof {
        assert(chunks@.dom() =~= visible(views@));
        assert forall|id: ChunkId, handle: u64|
            gone@.contains((id, handle)) <==> old(chunks)@.contains_pair(id, handle) && !in_view(
                views@,
                id,
            ) by {
            assert(full.contains_pair(id, handle) && !in_view(views@, id) <==> old(
                chunks,
            )@.contains_pair(id, handle) && !in_view(views@, id));
        }
    }
    gone
}

/// Creating the chunks that `missing` lists and then evicting leaves alive
/// exactly the chunks that the views show, whatever was alive before and
/// whatever handles the new chunks get.
pub proof fn lemma_streaming_exact(
    live: Map<ChunkId, u64>,
    views: Seq<ChunkRect>,
    created: Map<ChunkId, u64>,
)
    requires
        forall|id: ChunkId| created.contains_key(id) <==> in_view(views, id) && !live.contains_key(id),
    ensures
        kept(live.union_prefer_right(created), views).dom() == visible(views),
        forall|id: ChunkId|
            live.contains_key(id) && in_view(views, id) ==> kept(
                live.union_prefer_right(created),
                views,
            )[id] == live[id],
{
    assert(kept(live.union_prefer_right(created), views).dom() =~= visible(views));
}

} // verus!
