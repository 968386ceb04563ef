use vstd::prelude::*;

use crate::chunk::{in_chunk, Chunk, Grid};
use crate::gen::{generated_tile, has_inner_neighbor, is_generated, ColumnOffsets};
use crate::util::CHUNK_SIZE;
use crate::neighbor::{recorded, NeighborAware, NeighborMatrix, NeighborType};
use crate::pos::{
    chunk_in_range, lemma_step, lemma_step_back, lemma_step_into, ChunkPos, ChunkSubPos, WorldPos,
};
use crate::tile::Tile;
use crate::util::{lemma_flip_involution, Direction};
use crate::wall::Wall;

verus! {

/// The cell of kind `C` at `q` in the loaded chunks `m`.
pub open spec fn cell_in<C: NeighborAware>(m: Map<ChunkPos, Chunk>, q: WorldPos) -> C where
    Chunk: Grid<C>,
 {
    Grid::<C>::cell(&m[q.chunk_pos], q.chunk_sub_pos.x as int, q.chunk_sub_pos.y as int)
}

/// Whether the neighbour of `pos` in direction `d` exists and its chunk is loaded in `m`.
pub open spec fn neighbor_loaded(m: Map<ChunkPos, Chunk>, pos: WorldPos, d: Direction) -> bool {
    pos.can_step(d) && m.contains_key(pos.step(d).chunk_pos)
}

/// Position of a direction in the order `Top`, `Down`, `Left`, `Right`.
pub open spec fn dir_index(d: Direction) -> int {
    match d {
        Direction::Top => 0,
        Direction::Down => 1,
        Direction::Left => 2,
        Direction::Right => 3,
    }
}

/// Slot `d` of a cell placed at `pos` once the directions before index `i` were handled.
pub open spec fn placed_slot<C: NeighborAware>(
    m: Map<ChunkPos, Chunk>,
    pos: WorldPos,
    object: C,
    d: Direction,
    i: int,
) -> NeighborType where Chunk: Grid<C> {
    if dir_index(d) < i && neighbor_loaded(m, pos, d) {
        object.classify(&cell_in::<C>(m, pos.step(d)))
    } else {
        object.matrix().at(d)
    }
}

/// The matrix of a cell placed at `pos`: each slot facing a loaded neighbour holds how the
/// cell classifies that neighbour; the other slots are the cell's own.
pub open spec fn placed_matrix<C: NeighborAware>(
    m: Map<ChunkPos, Chunk>,
    pos: WorldPos,
    object: C,
) -> NeighborMatrix where Chunk: Grid<C> {
    NeighborMatrix {
        top: placed_slot(m, pos, object, Direction::Top, 4),
        down: placed_slot(m, pos, object, Direction::Down, 4),
        left: placed_slot(m, pos, object, Direction::Left, 4),
        right: placed_slot(m, pos, object, Direction::Right, 4),
    }
}

/// The cell of kind `C` at `q` once `object` is being placed at `pos` and the directions
/// before index `i` were handled: a handled loaded neighbour has recorded how it sees
/// `object`; every other cell is as it was.
pub open spec fn neighbor_after<C: NeighborAware>(
    m: Map<ChunkPos, Chunk>,
    pos: WorldPos,
    object: C,
    q: WorldPos,
    i: int,
) -> C where Chunk: Grid<C> {
    if 0 < i && neighbor_loaded(m, pos, Direction::Top) && q == pos.step(Direction::Top) {
        recorded(cell_in::<C>(m, q), object, Direction::Down)
    } else if 1 < i && neighbor_loaded(m, pos, Direction::Down) && q == pos.step(Direction::Down) {
        recorded(cell_in::<C>(m, q), object, Direction::Top)
    } else if 2 < i && neighbor_loaded(m, pos, Direction::Left) && q == pos.step(Direction::Left) {
        recorded(cell_in::<C>(m, q), object, Direction::Right)
    } else if 3 < i && neighbor_loaded(m, pos, Direction::Right) && q == pos.step(
        Direction::Right,
    ) {
        recorded(cell_in::<C>(m, q), object, Direction::Left)
    } else {
        cell_in::<C>(m, q)
    }
}

/// The cell of kind `C` at `q` after `object` was set at `pos`.
pub open spec fn cell_after_set<C: NeighborAware>(
    m: Map<ChunkPos, Chunk>,
    pos: WorldPos,
    object: C,
    q: WorldPos,
) -> C where Chunk: Grid<C> {
    if q == pos {
        object.with_matrix(placed_matrix(m, pos, object))
    } else {
        neighbor_after(m, pos, object, q, 4)
    }
}

/// The chunks of the loaded neighbours of `pos` among the directions before index `i`.
pub open spec fn neighbor_chunks(m: Map<ChunkPos, Chunk>, pos: WorldPos, i: int) -> Set<ChunkPos> {
    Set::new(
        |c: ChunkPos|
            exists|d: Direction|
                dir_index(d) < i && neighbor_loaded(m, pos, d) && #[trigger] pos.step(d).chunk_pos
                    == c,
    )
}

/// What holds of the world while `object0` is being placed at `pos` and the directions
/// before index `i` were handled: `mi` are the chunks, `oi` the cell being placed.
pub open spec fn set_progress<C: NeighborAware>(
    m: Map<ChunkPos, Chunk>,
    mi: Map<ChunkPos, Chunk>,
    pos: WorldPos,
    object0: C,
    oi: C,
    i: int,
) -> bool where Chunk: Grid<C> {
    &&& mi.dom() == m.dom()
    &&& forall|p: ChunkPos|
        m.contains_key(p) ==> Grid::<C>::rest(&#[trigger] mi[p]) == Grid::<C>::rest(&m[p])
    &&& forall|q: WorldPos|
        q.wf() && m.contains_key(q.chunk_pos) ==> #[trigger] cell_in::<C>(mi, q) == neighbor_after(
            m,
            pos,
            object0,
            q,
            i,
        )
    &&& oi == object0.with_matrix(oi.matrix())
    &&& forall|d: Direction| #[trigger] oi.matrix().at(d) == placed_slot(m, pos, object0, d, i)
}

pub(crate) proof fn lemma_set_skip<C: NeighborAware>(
    m: Map<ChunkPos, Chunk>,
    mi: Map<ChunkPos, Chunk>,
    pos: WorldPos,
    object0: C,
    oi: C,
    d: Direction,
    i: int,
) where Chunk: Grid<C>
    requires
        0 <= i < 4,
        dir_index(d) == i,
        !neighbor_loaded(m, pos, d),
        set_progress(m, mi, pos, object0, oi, i),
    ensures
        set_progress(m, mi, pos, object0, oi, i + 1),
{
    assert forall|q: WorldPos| q.wf() && m.contains_key(q.chunk_pos) implies #[trigger] cell_in::<C>(
        mi,
        q,
    ) == neighbor_after(m, pos, object0, q, i + 1) by {
        assert(cell_in::<C>(mi, q) == neighbor_after(m, pos, object0, q, i));
    }
    assert forall|e: Direction| #[trigger] oi.matrix().at(e) == placed_slot(
        m,
        pos,
        object0,
        e,
        i + 1,
    ) by {
        assert(oi.matrix().at(e) == placed_slot(m, pos, object0, e, i));
    }
}

pub(crate) proof fn lemma_set_step<C: NeighborAware>(
    m: Map<ChunkPos, Chunk>,
    mi: Map<ChunkPos, Chunk>,
    mnew: Map<ChunkPos, Chunk>,
    pos: WorldPos,
    object0: C,
    oi: C,
    onew: C,
    d: Direction,
    n: WorldPos,
    ch0: Chunk,
    ch1: Chunk,
    i: int,
) where Chunk: Grid<C>
    requires
        0 <= i < 4,
        dir_index(d) == i,
        pos.wf(),
        pos.can_step(d),
        n == pos.step(d),
        n.wf(),
        m.contains_key(pos.chunk_pos),
        mi.contains_key(n.chunk_pos),
        ch0 == mi[n.chunk_pos],
        set_progress(m, mi, pos, object0, oi, i),
        onew == recorded(
            oi,
            Grid::<C>::cell(&ch0, n.chunk_sub_pos.x as int, n.chunk_sub_pos.y as int),
            d,
        ),
        ch1 == Grid::<C>::with_cell(
            &ch0,
            n.chunk_sub_pos.x as int,
            n.chunk_sub_pos.y as int,
            recorded(
                Grid::<C>::cell(&ch0, n.chunk_sub_pos.x as int, n.chunk_sub_pos.y as int),
                oi,
                d.flip_spec(),
            ),
        ),
        mnew == mi.remove(n.chunk_pos).insert(n.chunk_pos, ch1),
    ensures
        neighbor_loaded(m, pos, d),
        set_progress(m, mnew, pos, object0, onew, i + 1),
{
    let (nx, ny) = (n.chunk_sub_pos.x as int, n.chunk_sub_pos.y as int);
    let cn = Grid::<C>::cell(&ch0, nx, ny);
    assert(neighbor_loaded(m, pos, d));
    // the neighbour was not touched by an earlier direction
    assert forall|e: Direction| dir_index(e) < i && pos.can_step(e) implies pos.step(e) != n by {
        lemma_step(pos, e, d);
    }
    assert(cell_in::<C>(mi, n) == neighbor_after(m, pos, object0, n, i));
    assert(cell_in::<C>(mi, n) == cn);
    assert(cn == cell_in::<C>(m, n));
    let mo = oi.matrix();
    object0.lemma_with_matrix(mo, &cn);
    cn.lemma_with_matrix(cn.matrix(), &oi);
    assert(cn.classify(&oi) == cn.classify(&object0));
    assert(oi.classify(&cn) == object0.classify(&cn));
    let m1 = mo.with(d, oi.classify(&cn));
    object0.lemma_with_matrix(mo, &object0);
    assert(onew == oi.with_matrix(m1));
    assert(onew == object0.with_matrix(m1));
    object0.lemma_with_matrix(m1, &object0);
    assert(onew.matrix() == m1);
    assert forall|e: Direction| #[trigger] onew.matrix().at(e) == placed_slot(
        m,
        pos,
        object0,
        e,
        i + 1,
    ) by {
        assert(mo.at(e) == placed_slot(m, pos, object0, e, i));
    }
    Grid::<C>::lemma_with_cell(&ch0, nx, ny, recorded(cn, oi, d.flip_spec()));
    Grid::<C>::lemma_rest_with_cell(&ch0, nx, ny, recorded(cn, oi, d.flip_spec()));
    assert(mnew.dom() =~= m.dom());
    assert forall|p: ChunkPos| m.contains_key(p) implies Grid::<C>::rest(&#[trigger] mnew[p])
        == Grid::<C>::rest(&m[p]) by {
        assert(Grid::<C>::rest(&mi[p]) == Grid::<C>::rest(&m[p]));
    }
    assert forall|q: WorldPos| q.wf() && m.contains_key(q.chunk_pos) implies #[trigger] cell_in::<C>(
        mnew,
        q,
    ) == neighbor_after(m, pos, object0, q, i + 1) by {
        assert(cell_in::<C>(mi, q) == neighbor_after(m, pos, object0, q, i));
        if q == n {
        } else {
            assert forall|e: Direction| dir_index(e) == i && pos.can_step(e) implies pos.step(e) != q by {
            }
            if q.chunk_pos == n.chunk_pos {
                assert(q.chunk_sub_pos != n.chunk_sub_pos);
            }
        }
    }
}

pub(crate) proof fn lemma_set_finish<C: NeighborAware>(
    m: Map<ChunkPos, Chunk>,
    m4: Map<ChunkPos, Chunk>,
    mnew: Map<ChunkPos, Chunk>,
    pos: WorldPos,
    object0: C,
    o4: C,
    ch: Chunk,
) where Chunk: Grid<C>
    requires
        pos.wf(),
        m.contains_key(pos.chunk_pos),
        set_progress(m, m4, pos, object0, o4, 4),
        ch == m4[pos.chunk_pos],
        mnew == m4.remove(pos.chunk_pos).insert(
            pos.chunk_pos,
            Grid::<C>::with_cell(&ch, pos.chunk_sub_pos.x as int, pos.chunk_sub_pos.y as int, o4),
        ),
    ensures
        mnew.dom() == m.dom(),
        forall|q: WorldPos|
            q.wf() && m.contains_key(q.chunk_pos) ==> #[trigger] cell_in::<C>(mnew, q)
                == cell_after_set(m, pos, object0, q),
        forall|p: ChunkPos|
            m.contains_key(p) ==> Grid::<C>::rest(&#[trigger] mnew[p]) == Grid::<C>::rest(&m[p]),
{
    let (px, py) = (pos.chunk_sub_pos.x as int, pos.chunk_sub_pos.y as int);
    assert(o4.matrix().at(Direction::Top) == placed_slot(m, pos, object0, Direction::Top, 4));
    assert(o4.matrix().at(Direction::Down) == placed_slot(m, pos, object0, Direction::Down, 4));
    assert(o4.matrix().at(Direction::Left) == placed_slot(m, pos, object0, Direction::Left, 4));
    assert(o4.matrix().at(Direction::Right) == placed_slot(m, pos, object0, Direction::Right, 4));
    assert(o4.matrix() == placed_matrix(m, pos, object0));
    Grid::<C>::lemma_with_cell(&ch, px, py, o4);
    Grid::<C>::lemma_rest_with_cell(&ch, px, py, o4);
    assert(mnew.dom() =~= m.dom());
    assert forall|p: ChunkPos| m.contains_key(p) implies Grid::<C>::rest(&#[trigger] mnew[p])
        == Grid::<C>::rest(&m[p]) by {
        assert(Grid::<C>::rest(&m4[p]) == Grid::<C>::rest(&m[p]));
    }
    assert forall|q: WorldPos| q.wf() && m.contains_key(q.chunk_pos) implies #[trigger] cell_in::<C>(
        mnew,
        q,
    ) == cell_after_set(m, pos, object0, q) by {
        assert(cell_in::<C>(m4, q) == neighbor_after(m, pos, object0, q, 4));
        if q != pos {
            if q.chunk_pos == pos.chunk_pos {
                assert(q.chunk_sub_pos != pos.chunk_sub_pos);
            }
        }
    }
}

/// Whether the edge from cell `q` in direction `e` runs between the chunk at `pos` and a
/// loaded neighbouring chunk, with both chunks loaded in `m`.
pub open spec fn crosses(m: Map<ChunkPos, Chunk>, pos: ChunkPos, q: WorldPos, e: Direction) -> bool {
    &&& m.contains_key(q.chunk_pos)
    &&& q.can_step(e)
    &&& q.chunk_sub_pos.is_border_spec(e)
    &&& m.contains_key(q.step(e).chunk_pos)
    &&& (q.chunk_pos == pos || q.step(e).chunk_pos == pos)
}

/// The direction, seen from the chunk at `pos`, of the border that the edge from `q` in
/// direction `e` lies on.
pub open spec fn border_dir(pos: ChunkPos, q: WorldPos, e: Direction) -> Direction {
    if q.chunk_pos == pos {
        e
    } else {
        e.flip_spec()
    }
}

/// Place of `q` along a border that faces direction `d`.
pub open spec fn along(d: Direction, q: WorldPos) -> int {
    if d.is_vertical_spec() {
        q.chunk_sub_pos.x as int
    } else {
        q.chunk_sub_pos.y as int
    }
}

/// Whether border reconciliation of `pos` has handled the edge from `q` in direction `e`
/// once the directions before index `i`, and the first `k` cells along direction `i`, are
/// done.
pub open spec fn border_done(pos: ChunkPos, q: WorldPos, e: Direction, i: int, k: int) -> bool {
    let d = border_dir(pos, q, e);
    dir_index(d) < i || (dir_index(d) == i && along(d, q) < k)
}

/// Slot `e` of the cell at `q` at that point of border reconciliation.
pub open spec fn border_slot<C: NeighborAware>(
    m: Map<ChunkPos, Chunk>,
    pos: ChunkPos,
    q: WorldPos,
    e: Direction,
    i: int,
    k: int,
) -> NeighborType where Chunk: Grid<C> {
    if crosses(m, pos, q, e) && border_done(pos, q, e, i, k) {
        cell_in::<C>(m, q).classify(&cell_in::<C>(m, q.step(e)))
    } else {
        cell_in::<C>(m, q).matrix().at(e)
    }
}

/// `mi` is `m` at that point of border reconciliation of `pos`.
pub open spec fn border_progress<C: NeighborAware>(
    m: Map<ChunkPos, Chunk>,
    mi: Map<ChunkPos, Chunk>,
    pos: ChunkPos,
    i: int,
    k: int,
) -> bool where Chunk: Grid<C> {
    &&& mi.dom() == m.dom()
    &&& forall|p: ChunkPos|
        m.contains_key(p) ==> Grid::<C>::rest(&#[trigger] mi[p]) == Grid::<C>::rest(&m[p])
    &&& forall|q: WorldPos|
        q.wf() && m.contains_key(q.chunk_pos) ==> #[trigger] cell_in::<C>(mi, q) == cell_in::<C>(
            m,
            q,
        ).with_matrix(cell_in::<C>(mi, q).matrix())
    &&& forall|q: WorldPos, e: Direction|
        q.wf() && m.contains_key(q.chunk_pos) ==> #[trigger] cell_in::<C>(mi, q).matrix().at(e)
            == border_slot::<C>(m, pos, q, e, i, k)
}

/// `m2` is `m` after border reconciliation of the chunk at `pos`, for cells of kind `C`:
/// each slot of an edge between that chunk and a loaded neighbouring chunk holds how its
/// cell classifies the cell across the edge; all else is kept.
pub open spec fn borders_updated<C: NeighborAware>(
    m: Map<ChunkPos, Chunk>,
    m2: Map<ChunkPos, Chunk>,
    pos: ChunkPos,
) -> bool where Chunk: Grid<C> {
    border_progress::<C>(m, m2, pos, 4, 0)
}

/// A step across the border of a chunk lands in the neighbouring chunk, on its facing
/// border, at the same place along it.
pub proof fn lemma_border_step(q: WorldPos, e: Direction)
    requires
        q.wf(),
        q.chunk_sub_pos.is_border_spec(e),
    ensures
        q.can_step(e) == chunk_in_range(q.chunk_pos.x + e.dx(), q.chunk_pos.y + e.dy()),
        q.can_step(e) ==> {
            &&& q.step(e).chunk_pos.x == q.chunk_pos.x + e.dx()
            &&& q.step(e).chunk_pos.y == q.chunk_pos.y + e.dy()
            &&& q.step(e).chunk_sub_pos.is_border_spec(e.flip_spec())
            &&& along(e, q.step(e)) == along(e, q)
            &&& q.step(e).step(e.flip_spec()) == q
            &&& q.step(e).can_step(e.flip_spec())
        },
{
}

pub(crate) proof fn lemma_border_next_dir<C: NeighborAware>(
    m: Map<ChunkPos, Chunk>,
    mi: Map<ChunkPos, Chunk>,
    pos: ChunkPos,
    i: int,
) where Chunk: Grid<C>
    requires
        border_progress::<C>(m, mi, pos, i, 24),
    ensures
        border_progress::<C>(m, mi, pos, i + 1, 0),
{
    assert forall|q: WorldPos, e: Direction| q.wf() && m.contains_key(q.chunk_pos) implies #[trigger] cell_in::<C>(
        mi,
        q,
    ).matrix().at(e) == border_slot::<C>(m, pos, q, e, i + 1, 0) by {
        assert(cell_in::<C>(mi, q).matrix().at(e) == border_slot::<C>(m, pos, q, e, i, 24));
    }
}

pub(crate) proof fn lemma_border_skip<C: NeighborAware>(
    m: Map<ChunkPos, Chunk>,
    mi: Map<ChunkPos, Chunk>,
    pos: ChunkPos,
    d: Direction,
    i: int,
) where Chunk: Grid<C>
    requires
        dir_index(d) == i,
        border_progress::<C>(m, mi, pos, i, 0),
        !chunk_in_range(pos.x + d.dx(), pos.y + d.dy()) || !m.contains_key(
            ChunkPos { x: (pos.x + d.dx()) as i16, y: (pos.y + d.dy()) as u16 },
        ),
    ensures
        border_progress::<C>(m, mi, pos, i + 1, 0),
{
    assert forall|q: WorldPos, e: Direction| q.wf() && m.contains_key(q.chunk_pos) implies #[trigger] cell_in::<C>(
        mi,
        q,
    ).matrix().at(e) == border_slot::<C>(m, pos, q, e, i + 1, 0) by {
        assert(cell_in::<C>(mi, q).matrix().at(e) == border_slot::<C>(m, pos, q, e, i, 0));
        if q.chunk_sub_pos.is_border_spec(e) {
            lemma_border_step(q, e);
        }
    }
}

#[verifier::spinoff_prover]
#[verifier::rlimit(60)]
pub(crate) proof fn lemma_border_pair_step<C: NeighborAware>(
    m: Map<ChunkPos, Chunk>,
    base: Map<ChunkPos, Chunk>,
    pos: ChunkPos,
    npos: ChunkPos,
    d: Direction,
    i: int,
    k: int,
    qa: WorldPos,
    qb: WorldPos,
    a: Chunk,
    b: Chunk,
    a2: Chunk,
    b2: Chunk,
) where Chunk: Grid<C>
    requires
        dir_index(d) == i,
        0 <= k < 24,
        m.contains_key(pos),
        m.contains_key(npos),
        npos.x == pos.x + d.dx(),
        npos.y == pos.y + d.dy(),
        qa.wf(),
        qa.chunk_pos == pos,
        qa.chunk_sub_pos.is_border_spec(d),
        along(d, qa) == k,
        qa.can_step(d),
        qb == qa.step(d),
        border_progress::<C>(m, base.insert(pos, a).insert(npos, b), pos, i, k),
        a2 == Grid::<C>::with_cell(
            &a,
            qa.chunk_sub_pos.x as int,
            qa.chunk_sub_pos.y as int,
            recorded(
                Grid::<C>::cell(&a, qa.chunk_sub_pos.x as int, qa.chunk_sub_pos.y as int),
                Grid::<C>::cell(&b, qb.chunk_sub_pos.x as int, qb.chunk_sub_pos.y as int),
                d,
            ),
        ),
        b2 == Grid::<C>::with_cell(
            &b,
            qb.chunk_sub_pos.x as int,
            qb.chunk_sub_pos.y as int,
            recorded(
                Grid::<C>::cell(&b, qb.chunk_sub_pos.x as int, qb.chunk_sub_pos.y as int),
                Grid::<C>::cell(&a, qa.chunk_sub_pos.x as int, qa.chunk_sub_pos.y as int),
                d.flip_spec(),
            ),
        ),
    ensures
        border_progress::<C>(m, base.insert(pos, a2).insert(npos, b2), pos, i, k + 1),
{
    let mv = base.insert(pos, a).insert(npos, b);
    let mv2 = base.insert(pos, a2).insert(npos, b2);
    lemma_border_step(qa, d);
    let (ax, ay) = (qa.chunk_sub_pos.x as int, qa.chunk_sub_pos.y as int);
    let (bx, by) = (qb.chunk_sub_pos.x as int, qb.chunk_sub_pos.y as int);
    assert(pos != npos);
    let ca = Grid::<C>::cell(&a, ax, ay);
    let cb = Grid::<C>::cell(&b, bx, by);
    assert(cell_in::<C>(mv, qa) == ca);
    assert(cell_in::<C>(mv, qb) == cb);
    let oa = cell_in::<C>(m, qa);
    let ob = cell_in::<C>(m, qb);
    assert(ca == oa.with_matrix(ca.matrix()));
    assert(cb == ob.with_matrix(cb.matrix()));
    oa.lemma_with_matrix(ca.matrix(), &cb);
    ob.lemma_with_matrix(cb.matrix(), &ca);
    oa.lemma_with_matrix(ca.matrix(), &ob);
    ob.lemma_with_matrix(cb.matrix(), &oa);
    assert(ca.classify(&cb) == oa.classify(&ob));
    assert(cb.classify(&ca) == ob.classify(&oa));
    let ma = ca.matrix().with(d, ca.classify(&cb));
    let mb = cb.matrix().with(d.flip_spec(), cb.classify(&ca));
    oa.lemma_with_matrix(ca.matrix(), &oa);
    ob.lemma_with_matrix(cb.matrix(), &ob);
    oa.lemma_with_matrix(ma, &oa);
    ob.lemma_with_matrix(mb, &ob);
    assert(recorded(ca, cb, d) == oa.with_matrix(ma));
    assert(recorded(cb, ca, d.flip_spec()) == ob.with_matrix(mb));
    Grid::<C>::lemma_with_cell(&a, ax, ay, recorded(ca, cb, d));
    Grid::<C>::lemma_with_cell(&b, bx, by, recorded(cb, ca, d.flip_spec()));
    Grid::<C>::lemma_rest_with_cell(&a, ax, ay, recorded(ca, cb, d));
    Grid::<C>::lemma_rest_with_cell(&b, bx, by, recorded(cb, ca, d.flip_spec()));
    assert(mv2.dom() =~= m.dom());
    assert forall|p: ChunkPos| m.contains_key(p) implies Grid::<C>::rest(&#[trigger] mv2[p])
        == Grid::<C>::rest(&m[p]) by {
        assert(Grid::<C>::rest(&mv[p]) == Grid::<C>::rest(&m[p]));
    }
    assert forall|q: WorldPos| q.wf() && m.contains_key(q.chunk_pos) implies #[trigger] cell_in::<C>(
        mv2,
        q,
    ) == cell_in::<C>(m, q).with_matrix(cell_in::<C>(mv2, q).matrix()) by {
        assert(cell_in::<C>(mv, q) == cell_in::<C>(m, q).with_matrix(cell_in::<C>(mv, q).matrix()));
        if q == qa {
        } else if q == qb {
        } else {
            if q.chunk_pos == pos {
                assert(q.chunk_sub_pos != qa.chunk_sub_pos);
            }
            if q.chunk_pos == npos {
                assert(q.chunk_sub_pos != qb.chunk_sub_pos);
            }
        }
    }
    assert forall|q: WorldPos, e: Direction| q.wf() && m.contains_key(q.chunk_pos) implies #[trigger] cell_in::<C>(
        mv2,
        q,
    ).matrix().at(e) == border_slot::<C>(m, pos, q, e, i, k + 1) by {
        assert(cell_in::<C>(mv, q).matrix().at(e) == border_slot::<C>(m, pos, q, e, i, k));
        if q.chunk_sub_pos.is_border_spec(e) {
            lemma_border_step(q, e);
        }
        if q == qa {
            assert(crosses(m, pos, qa, d));
        } else if q == qb {
            assert(qb.step(d.flip_spec()) == qa);
            assert(crosses(m, pos, qb, d.flip_spec()));
        } else {
            if q.chunk_pos == pos {
                assert(q.chunk_sub_pos != qa.chunk_sub_pos);
            }
            if q.chunk_pos == npos {
                assert(q.chunk_sub_pos != qb.chunk_sub_pos);
            }
        }
    }
}

/// Border reconciliation is idempotent: running it a second time on the chunks that the
/// first run produced changes nothing.
pub proof fn lemma_update_borders_idempotent<C: NeighborAware>(
    m0: Map<ChunkPos, Chunk>,
    m1: Map<ChunkPos, Chunk>,
    m2: Map<ChunkPos, Chunk>,
    pos: ChunkPos,
) where Chunk: Grid<C>
    requires
        borders_updated::<C>(m0, m1, pos),
        borders_updated::<C>(m1, m2, pos),
    ensures
        m2 == m1,
{
    assert forall|p: ChunkPos| #[trigger] m1.contains_key(p) implies m2[p] == m1[p] by {
        assert forall|x: int, y: int| crate::chunk::in_chunk(x, y) implies #[trigger] Grid::<C>::cell(
            &m2[p],
            x,
            y,
        ) == Grid::<C>::cell(&m1[p], x, y) by {
            let q = WorldPos { chunk_pos: p, chunk_sub_pos: ChunkSubPos { x: x as u8, y: y as u8 } };
            assert(q.wf());
            let c0 = cell_in::<C>(m0, q);
            let c1 = cell_in::<C>(m1, q);
            let c2 = cell_in::<C>(m2, q);
            assert(c1 == c0.with_matrix(c1.matrix()));
            assert(c2 == c1.with_matrix(c2.matrix()));
            assert forall|e: Direction| #[trigger] c2.matrix().at(e) == c1.matrix().at(e) by {
                assert(c2.matrix().at(e) == border_slot::<C>(m1, pos, q, e, 4, 0));
                assert(c1.matrix().at(e) == border_slot::<C>(m0, pos, q, e, 4, 0));
                if crosses(m1, pos, q, e) {
                    lemma_step(q, e, e);
                    let n = q.step(e);
                    let n0 = cell_in::<C>(m0, n);
                    let n1 = cell_in::<C>(m1, n);
                    assert(n1 == n0.with_matrix(n1.matrix()));
                    c0.lemma_with_matrix(c1.matrix(), &n0);
                    c0.lemma_with_matrix(c1.matrix(), &n1);
                    n0.lemma_with_matrix(n1.matrix(), &c0);
                    c0.lemma_with_matrix(c1.matrix(), &c0);
                    assert(c1.classify(&n1) == c0.classify(&n0));
                }
            }
            assert(c2.matrix().at(Direction::Top) == c1.matrix().at(Direction::Top));
            assert(c2.matrix().at(Direction::Down) == c1.matrix().at(Direction::Down));
            assert(c2.matrix().at(Direction::Left) == c1.matrix().at(Direction::Left));
            assert(c2.matrix().at(Direction::Right) == c1.matrix().at(Direction::Right));
            assert(c2.matrix() == c1.matrix());
            c1.lemma_with_matrix(c1.matrix(), &c1);
        }
        Grid::<C>::lemma_cells_ext(&m2[p], &m1[p]);
    }
    assert(m2 =~= m1);
}

/// The chunk coordinate one step from `pos` in direction `d`, where it exists.
pub open spec fn step_chunk(pos: ChunkPos, d: Direction) -> ChunkPos {
    ChunkPos { x: (pos.x + d.dx()) as i16, y: (pos.y + d.dy()) as u16 }
}

/// The loaded chunks that share a border with the chunk at `pos`.
pub open spec fn loaded_neighbors(m: Map<ChunkPos, Chunk>, pos: ChunkPos) -> Set<ChunkPos> {
    Set::new(
        |c: ChunkPos|
            m.contains_key(c) && exists|d: Direction|
                chunk_in_range(pos.x + d.dx(), pos.y + d.dy()) && #[trigger] step_chunk(pos, d)
                    == c,
    )
}


/// The loaded chunks that share a border with the chunk at `pos`, across the directions
/// before index `i`.
pub open spec fn neighbors_before(m: Map<ChunkPos, Chunk>, pos: ChunkPos, i: int) -> Set<ChunkPos> {
    Set::new(
        |c: ChunkPos|
            loaded_neighbors(m, pos).contains(c) && exists|e: Direction|
                dir_index(e) < i && chunk_in_range(pos.x + e.dx(), pos.y + e.dy())
                    && #[trigger] step_chunk(pos, e) == c,
    )
}

/// The chunks of the footprint of `center` that the scan has passed at `(dx, dy)` and that
/// are not loaded in `m`.
pub open spec fn scanned_missing(
    center: ChunkPos,
    m: Map<ChunkPos, Chunk>,
    dx: int,
    dy: int,
) -> Set<ChunkPos> {
    Set::new(|p: ChunkPos| scanned(center, p, dx, dy) && !m.contains_key(p))
}

/// The entries of `s` from index `from` on, as a set.
pub open spec fn tail_set(s: Seq<ChunkPos>, from: int) -> Set<ChunkPos> {
    Set::new(|c: ChunkPos| exists|k: int| from <= k < s.len() && #[trigger] s[k] == c)
}

/// Chunks within this many chunks of a player, per axis, are kept loaded.
pub const RENDER_DISTANCE: i32 = 16;

/// Whether the chunk at `p` lies in the square of chunks loaded around `center`:
/// offsets in `[-RENDER_DISTANCE, RENDER_DISTANCE)` on both axes.
pub open spec fn in_footprint(center: ChunkPos, p: ChunkPos) -> bool {
    &&& center.x - RENDER_DISTANCE <= p.x < center.x + RENDER_DISTANCE
    &&& center.y - RENDER_DISTANCE <= p.y < center.y + RENDER_DISTANCE
}

/// Whether the scan of the footprint of `center`, column offset by column offset and
/// within a column row offset by row offset, has passed `p` once it stands at `(dx, dy)`.
pub open spec fn scanned(center: ChunkPos, p: ChunkPos, dx: int, dy: int) -> bool {
    in_footprint(center, p) && (p.x - center.x < dx || (p.x - center.x == dx && p.y - center.y
        < dy))
}

/// Every slot of every loaded cell of kind `C` that faces a loaded cell holds how the cell
/// classifies that neighbour: both sides of every edge between loaded cells agree with the
/// cells they join.
pub open spec fn world_linked<C: NeighborAware>(m: Map<ChunkPos, Chunk>) -> bool where
    Chunk: Grid<C>,
 {
    forall|q: WorldPos, e: Direction|
        q.wf() && m.contains_key(q.chunk_pos) && q.can_step(e) && m.contains_key(
            q.step(e).chunk_pos,
        ) ==> #[trigger] cell_in::<C>(m, q).matrix().at(e) == cell_in::<C>(m, q).classify(
            &cell_in::<C>(m, q.step(e)),
        )
}

/// A cell other than `pos` keeps its identity through `set`: it classifies, and is
/// classified, as before.
proof fn lemma_set_identity<C: NeighborAware>(
    m: Map<ChunkPos, Chunk>,
    m2: Map<ChunkPos, Chunk>,
    pos: WorldPos,
    object: C,
    x: WorldPos,
    y: C,
) where Chunk: Grid<C>
    requires
        x.wf(),
        m.contains_key(x.chunk_pos),
        x != pos,
        cell_in::<C>(m2, x) == cell_after_set(m, pos, object, x),
    ensures
        cell_in::<C>(m2, x).classify(&y) == cell_in::<C>(m, x).classify(&y),
        y.classify(&cell_in::<C>(m2, x)) == y.classify(&cell_in::<C>(m, x)),
{
    let c = cell_in::<C>(m, x);
    let c2 = cell_in::<C>(m2, x);
    c.lemma_with_matrix(c.matrix(), &c);
    c.lemma_with_matrix(c.matrix().with(Direction::Top, c.classify(&object)), &c);
    c.lemma_with_matrix(c.matrix().with(Direction::Down, c.classify(&object)), &c);
    c.lemma_with_matrix(c.matrix().with(Direction::Left, c.classify(&object)), &c);
    c.lemma_with_matrix(c.matrix().with(Direction::Right, c.classify(&object)), &c);
    assert(c2 == c.with_matrix(c2.matrix()));
    c.lemma_with_matrix(c2.matrix(), &y);
}

#[verifier::spinoff_prover]
proof fn lemma_set_edge<C: NeighborAware>(
    m: Map<ChunkPos, Chunk>,
    m2: Map<ChunkPos, Chunk>,
    pos: WorldPos,
    object: C,
    q: WorldPos,
    e: Direction,
) where Chunk: Grid<C>
    requires
        pos.wf(),
        m.contains_key(pos.chunk_pos),
        world_linked::<C>(m),
        m2.dom() == m.dom(),
        forall|x: WorldPos|
            x.wf() && m.contains_key(x.chunk_pos) ==> #[trigger] cell_in::<C>(m2, x)
                == cell_after_set(m, pos, object, x),
        q.wf(),
        m.contains_key(q.chunk_pos),
        q.can_step(e),
        m.contains_key(q.step(e).chunk_pos),
    ensures
        cell_in::<C>(m2, q).matrix().at(e) == cell_in::<C>(m2, q).classify(
            &cell_in::<C>(m2, q.step(e)),
        ),
{
    let n = q.step(e);
    lemma_step(q, e, e);
    let placed = object.with_matrix(placed_matrix(m, pos, object));
    assert(cell_in::<C>(m, q).matrix().at(e) == cell_in::<C>(m, q).classify(&cell_in::<C>(m, n)));
    if q == pos {
        assert(neighbor_loaded(m, pos, e));
        lemma_set_identity(m, m2, pos, object, n, object);
        object.lemma_with_matrix(placed_matrix(m, pos, object), &cell_in::<C>(m2, n));
        object.lemma_with_matrix(placed_matrix(m, pos, object), &object);
        assert(cell_in::<C>(m2, q).matrix().at(e) == object.classify(&cell_in::<C>(m, n)));
    } else if n == pos {
        lemma_step_into(pos, q, e);
        lemma_flip_involution(e);
        assert(neighbor_loaded(m, pos, e.flip_spec()));
        let c = cell_in::<C>(m, q);
        let mc = c.matrix().with(e, c.classify(&object));
        assert(cell_in::<C>(m2, q) == c.with_matrix(mc));
        c.lemma_with_matrix(mc, &placed);
        c.lemma_with_matrix(mc, &c);
        object.lemma_with_matrix(placed_matrix(m, pos, object), &c);
        c.lemma_with_matrix(c.matrix(), &object);
        assert(c.classify(&placed) == c.classify(&object));
    } else {
        let c = cell_in::<C>(m, q);
        let c2 = cell_in::<C>(m2, q);
        lemma_set_identity(m, m2, pos, object, n, c2);
        lemma_set_identity(m, m2, pos, object, q, cell_in::<C>(m, n));
        assert forall|d: Direction| neighbor_loaded(m, pos, d) && q == #[trigger] pos.step(d)
            implies d != e.flip_spec() by {
            if d == e.flip_spec() {
                lemma_step_back(pos, d);
                lemma_flip_involution(e);
            }
        }
        c.lemma_with_matrix(c.matrix().with(Direction::Top, c.classify(&object)), &c);
        c.lemma_with_matrix(c.matrix().with(Direction::Down, c.classify(&object)), &c);
        c.lemma_with_matrix(c.matrix().with(Direction::Left, c.classify(&object)), &c);
        c.lemma_with_matrix(c.matrix().with(Direction::Right, c.classify(&object)), &c);
        assert(c2.matrix().at(e) == c.matrix().at(e));
    }
}

/// `set` keeps every edge between loaded cells in agreement: if all edges agree before,
/// they all agree after.
pub proof fn lemma_set_keeps_linked<C: NeighborAware>(
    m: Map<ChunkPos, Chunk>,
    m2: Map<ChunkPos, Chunk>,
    pos: WorldPos,
    object: C,
) where Chunk: Grid<C>
    requires
        pos.wf(),
        m.contains_key(pos.chunk_pos),
        world_linked::<C>(m),
        m2.dom() == m.dom(),
        forall|q: WorldPos|
            q.wf() && m.contains_key(q.chunk_pos) ==> #[trigger] cell_in::<C>(m2, q)
                == cell_after_set(m, pos, object, q),
    ensures
        world_linked::<C>(m2),
{
    assert forall|q: WorldPos, e: Direction|
        q.wf() && m2.contains_key(q.chunk_pos) && q.can_step(e) && m2.contains_key(
            q.step(e).chunk_pos,
        ) implies #[trigger] cell_in::<C>(m2, q).matrix().at(e) == cell_in::<C>(m2, q).classify(
        &cell_in::<C>(m2, q.step(e)),
    ) by {
        lemma_set_edge(m, m2, pos, object, q, e);
    }
}

/// Every slot of a cell of kind `C` of `chunk` that faces a cell of the same chunk holds
/// how the cell classifies that neighbour.
pub open spec fn chunk_linked<C: NeighborAware>(chunk: Chunk) -> bool where Chunk: Grid<C> {
    forall|i: int, j: int, d: Direction|
        in_chunk(i, j) && has_inner_neighbor(i, j, d) ==> #[trigger] Grid::<C>::cell(
            &chunk,
            i,
            j,
        ).matrix().at(d) == Grid::<C>::cell(&chunk, i, j).classify(
            &Grid::<C>::cell(&chunk, i + d.dx(), j + d.dy()),
        )
}

#[verifier::spinoff_prover]
proof fn lemma_borders_link_edge<C: NeighborAware>(
    m: Map<ChunkPos, Chunk>,
    m1: Map<ChunkPos, Chunk>,
    m2: Map<ChunkPos, Chunk>,
    pos: ChunkPos,
    q: WorldPos,
    e: Direction,
) where Chunk: Grid<C>
    requires
        !m.contains_key(pos),
        m1.dom() == m.dom().insert(pos),
        forall|x: WorldPos|
            x.wf() && m.contains_key(x.chunk_pos) ==> #[trigger] cell_in::<C>(m1, x) == cell_in::<
                C,
            >(m, x),
        world_linked::<C>(m),
        chunk_linked::<C>(m1[pos]),
        borders_updated::<C>(m1, m2, pos),
        q.wf(),
        m1.contains_key(q.chunk_pos),
        q.can_step(e),
        m1.contains_key(q.step(e).chunk_pos),
    ensures
        cell_in::<C>(m2, q).matrix().at(e) == cell_in::<C>(m2, q).classify(
            &cell_in::<C>(m2, q.step(e)),
        ),
{
    let n = q.step(e);
    lemma_step(q, e, e);
    let c1 = cell_in::<C>(m1, q);
    let n1 = cell_in::<C>(m1, n);
    let c2 = cell_in::<C>(m2, q);
    let n2 = cell_in::<C>(m2, n);
    assert(c2 == c1.with_matrix(c2.matrix()));
    assert(n2 == n1.with_matrix(n2.matrix()));
    c1.lemma_with_matrix(c2.matrix(), &n2);
    n1.lemma_with_matrix(n2.matrix(), &c1);
    assert(c2.classify(&n2) == c1.classify(&n1));
    assert(c2.matrix().at(e) == border_slot::<C>(m1, pos, q, e, 4, 0));
    if !crosses(m1, pos, q, e) {
        if q.chunk_sub_pos.is_border_spec(e) {
            assert(q.chunk_pos != pos && n.chunk_pos != pos);
            assert(cell_in::<C>(m, q).matrix().at(e) == cell_in::<C>(m, q).classify(&cell_in::<C>(m, n)));
        } else if q.chunk_pos == pos {
            let (i, j) = (q.chunk_sub_pos.x as int, q.chunk_sub_pos.y as int);
            assert(has_inner_neighbor(i, j, e));
            assert(n.chunk_pos == pos);
            assert(n.chunk_sub_pos.x == i + e.dx() && n.chunk_sub_pos.y == j + e.dy());
            assert(Grid::<C>::cell(&m1[pos], i, j).matrix().at(e) == Grid::<C>::cell(&m1[pos], i, j).classify(
                &Grid::<C>::cell(&m1[pos], i + e.dx(), j + e.dy())));
        } else {
            assert(n.chunk_pos == q.chunk_pos);
            assert(cell_in::<C>(m, q).matrix().at(e) == cell_in::<C>(m, q).classify(&cell_in::<C>(m, n)));
        }
    }
}

/// Border reconciliation of a chunk that has just been added completes the agreement of all
/// edges: when every edge between the cells already loaded agrees, and every edge inside
/// the new chunk agrees, every edge between loaded cells agrees after reconciliation.
pub proof fn lemma_borders_link<C: NeighborAware>(
    m: Map<ChunkPos, Chunk>,
    m1: Map<ChunkPos, Chunk>,
    m2: Map<ChunkPos, Chunk>,
    pos: ChunkPos,
) where Chunk: Grid<C>
    requires
        !m.contains_key(pos),
        m1.dom() == m.dom().insert(pos),
        forall|x: WorldPos|
            x.wf() && m.contains_key(x.chunk_pos) ==> #[trigger] cell_in::<C>(m1, x) == cell_in::<
                C,
            >(m, x),
        world_linked::<C>(m),
        chunk_linked::<C>(m1[pos]),
        borders_updated::<C>(m1, m2, pos),
    ensures
        world_linked::<C>(m2),
{
    assert forall|q: WorldPos, e: Direction|
        q.wf() && m2.contains_key(q.chunk_pos) && q.can_step(e) && m2.contains_key(
            q.step(e).chunk_pos,
        ) implies #[trigger] cell_in::<C>(m2, q).matrix().at(e) == cell_in::<C>(m2, q).classify(
        &cell_in::<C>(m2, q.step(e)),
    ) by {
        lemma_borders_link_edge(m, m1, m2, pos, q, e);
    }
}

/// Adding a chunk whose edges agree inside keeps every edge between loaded cells in
/// agreement, for tiles and for walls.
pub proof fn lemma_insert_keeps_linked(
    m: Map<ChunkPos, Chunk>,
    pos: ChunkPos,
    chunk: Chunk,
    mid: Map<ChunkPos, Chunk>,
    m2: Map<ChunkPos, Chunk>,
)
    requires
        !m.contains_key(pos),
        world_linked::<Tile>(m),
        world_linked::<Wall>(m),
        chunk_linked::<Tile>(chunk),
        chunk_linked::<Wall>(chunk),
        borders_updated::<Tile>(m.insert(pos, chunk), mid, pos),
        borders_updated::<Wall>(mid, m2, pos),
    ensures
        world_linked::<Tile>(m2),
        world_linked::<Wall>(m2),
{
    let m1 = m.insert(pos, chunk);
    assert(m1.dom() =~= m.dom().insert(pos));
    assert forall|x: WorldPos| x.wf() && m.contains_key(x.chunk_pos) implies #[trigger] cell_in::<Tile>(
        m1,
        x,
    ) == cell_in::<Tile>(m, x) by {
        assert(x.chunk_pos != pos);
    }
    lemma_borders_link::<Tile>(m, m1, mid, pos);
    assert forall|q: WorldPos, e: Direction|
        q.wf() && m2.contains_key(q.chunk_pos) && q.can_step(e) && m2.contains_key(
            q.step(e).chunk_pos,
        ) implies #[trigger] cell_in::<Tile>(m2, q).matrix().at(e) == cell_in::<Tile>(m2, q).classify(
        &cell_in::<Tile>(m2, q.step(e)),
    ) by {
        assert(Grid::<Wall>::rest(&m2[q.chunk_pos]) == Grid::<Wall>::rest(&mid[q.chunk_pos]));
        assert(Grid::<Wall>::rest(&m2[q.step(e).chunk_pos]) == Grid::<Wall>::rest(
            &mid[q.step(e).chunk_pos],
        ));
        assert(cell_in::<Tile>(mid, q).matrix().at(e) == cell_in::<Tile>(mid, q).classify(
            &cell_in::<Tile>(mid, q.step(e)),
        ));
    }
    assert forall|x: WorldPos| x.wf() && m.contains_key(x.chunk_pos) implies #[trigger] cell_in::<Wall>(
        mid,
        x,
    ) == cell_in::<Wall>(m, x) by {
        assert(x.chunk_pos != pos);
        assert(m1.contains_key(x.chunk_pos));
        assert(Grid::<Tile>::rest(&mid[x.chunk_pos]) == Grid::<Tile>::rest(&m1[x.chunk_pos]));
        assert(mid[x.chunk_pos].solid_walls == m1[x.chunk_pos].solid_walls);
    }
    assert(m1.contains_key(pos));
    assert(Grid::<Tile>::rest(&mid[pos]) == Grid::<Tile>::rest(&m1[pos]));
    assert(mid[pos].solid_walls == chunk.solid_walls);
    assert forall|i: int, j: int, d: Direction|
        in_chunk(i, j) && has_inner_neighbor(i, j, d) implies #[trigger] Grid::<Wall>::cell(
        &mid[pos],
        i,
        j,
    ).matrix().at(d) == Grid::<Wall>::cell(&mid[pos], i, j).classify(
        &Grid::<Wall>::cell(&mid[pos], i + d.dx(), j + d.dy()),
    ) by {
        assert(Grid::<Wall>::cell(&chunk, i, j).matrix().at(d) == Grid::<Wall>::cell(&chunk, i, j).classify(
            &Grid::<Wall>::cell(&chunk, i + d.dx(), j + d.dy())));
    }
    lemma_borders_link::<Wall>(m, mid, m2, pos);
}

/// A generated chunk agrees on every edge inside it, for tiles and for walls.
pub proof fn lemma_generated_linked(
    offsets: [ColumnOffsets; CHUNK_SIZE],
    pos: ChunkPos,
    chunk: Chunk,
)
    requires
        is_generated(offsets, pos, chunk),
    ensures
        chunk_linked::<Tile>(chunk),
        chunk_linked::<Wall>(chunk),
{
    assert forall|i: int, j: int, d: Direction|
        in_chunk(i, j) && has_inner_neighbor(i, j, d) implies #[trigger] Grid::<Tile>::cell(
        &chunk,
        i,
        j,
    ).matrix().at(d) == Grid::<Tile>::cell(&chunk, i, j).classify(
        &Grid::<Tile>::cell(&chunk, i + d.dx(), j + d.dy()),
    ) by {
        assert(chunk.solid_tiles[j][i] == generated_tile(offsets, pos.y, i, j));
        assert(chunk.solid_tiles[j + d.dy()][i + d.dx()] == generated_tile(
            offsets,
            pos.y,
            i + d.dx(),
            j + d.dy(),
        ));
    }
    assert forall|i: int, j: int, d: Direction|
        in_chunk(i, j) && has_inner_neighbor(i, j, d) implies #[trigger] Grid::<Wall>::cell(
        &chunk,
        i,
        j,
    ).matrix().at(d) == Grid::<Wall>::cell(&chunk, i, j).classify(
        &Grid::<Wall>::cell(&chunk, i + d.dx(), j + d.dy()),
    ) by {
        assert(chunk.solid_tiles[j][i] == generated_tile(offsets, pos.y, i, j));
        assert(chunk.solid_tiles[j + d.dy()][i + d.dx()] == generated_tile(
            offsets,
            pos.y,
            i + d.dx(),
            j + d.dy(),
        ));
        assert(chunk.solid_walls[j][i] == Wall::air_spec());
        assert(chunk.solid_walls[j + d.dy()][i + d.dx()] == Wall::air_spec());
    }
}

/// A world with no chunks loaded agrees on every edge, trivially.
pub proof fn lemma_empty_linked()
    ensures
        world_linked::<Tile>(Map::empty()),
        world_linked::<Wall>(Map::empty()),
{
}

/// Every cell of kind `C` of a chunk loaded in `m` is, in `m2`, the same cell with possibly
/// another matrix.
pub open spec fn same_cells<C: NeighborAware>(m: Map<ChunkPos, Chunk>, m2: Map<ChunkPos, Chunk>) -> bool where
    Chunk: Grid<C>,
 {
    forall|q: WorldPos|
        q.wf() && m.contains_key(q.chunk_pos) ==> #[trigger] cell_in::<C>(m2, q) == cell_in::<C>(
            m,
            q,
        ).with_matrix(cell_in::<C>(m2, q).matrix())
}

/// In `m`, the chunk at `p` holds the cells of kind `C` of `chunk`, with possibly other
/// matrices.
pub open spec fn holds_cells<C: NeighborAware>(m: Map<ChunkPos, Chunk>, p: ChunkPos, chunk: Chunk) -> bool where
    Chunk: Grid<C>,
 {
    forall|q: WorldPos|
        q.wf() && q.chunk_pos == p ==> #[trigger] cell_in::<C>(m, q) == Grid::<C>::cell(
            &chunk,
            q.chunk_sub_pos.x as int,
            q.chunk_sub_pos.y as int,
        ).with_matrix(cell_in::<C>(m, q).matrix())
}

/// The chunk coordinates that share a border with `pos`.
pub open spec fn adjacent_chunks(pos: ChunkPos) -> Set<ChunkPos> {
    Set::new(
        |c: ChunkPos|
            exists|d: Direction|
                chunk_in_range(pos.x + d.dx(), pos.y + d.dy()) && #[trigger] step_chunk(pos, d)
                    == c,
    )
}

pub proof fn lemma_same_cells_trans<C: NeighborAware>(
    m0: Map<ChunkPos, Chunk>,
    m1: Map<ChunkPos, Chunk>,
    m2: Map<ChunkPos, Chunk>,
) where Chunk: Grid<C>
    requires
        same_cells::<C>(m0, m1),
        same_cells::<C>(m1, m2),
        m0.dom().subset_of(m1.dom()),
    ensures
        same_cells::<C>(m0, m2),
{
    assert forall|q: WorldPos| q.wf() && m0.contains_key(q.chunk_pos) implies #[trigger] cell_in::<C>(
        m2,
        q,
    ) == cell_in::<C>(m0, q).with_matrix(cell_in::<C>(m2, q).matrix()) by {
        let c0 = cell_in::<C>(m0, q);
        let c1 = cell_in::<C>(m1, q);
        let c2 = cell_in::<C>(m2, q);
        assert(m1.contains_key(q.chunk_pos));
        assert(c1 == c0.with_matrix(c1.matrix()));
        assert(c2 == c1.with_matrix(c2.matrix()));
        c0.lemma_with_matrix(c1.matrix(), &c0);
    }
}

/// Adding a chunk and reconciling its borders, tiles then walls, keeps every cell but
/// its matrix.
pub proof fn lemma_insert_same_cells(
    m: Map<ChunkPos, Chunk>,
    pos: ChunkPos,
    chunk: Chunk,
    mid: Map<ChunkPos, Chunk>,
    m2: Map<ChunkPos, Chunk>,
)
    requires
        borders_updated::<Tile>(m.insert(pos, chunk), mid, pos),
        borders_updated::<Wall>(mid, m2, pos),
    ensures
        same_cells::<Tile>(m.insert(pos, chunk), m2),
        same_cells::<Wall>(m.insert(pos, chunk), m2),
{
    let m1 = m.insert(pos, chunk);
    assert forall|q: WorldPos| q.wf() && m1.contains_key(q.chunk_pos) implies #[trigger] cell_in::<Tile>(
        m2,
        q,
    ) == cell_in::<Tile>(m1, q).with_matrix(cell_in::<Tile>(m2, q).matrix()) by {
        assert(Grid::<Wall>::rest(&m2[q.chunk_pos]) == Grid::<Wall>::rest(&mid[q.chunk_pos]));
        assert(cell_in::<Tile>(mid, q) == cell_in::<Tile>(m1, q).with_matrix(
            cell_in::<Tile>(mid, q).matrix(),
        ));
    }
    assert forall|q: WorldPos| q.wf() && m1.contains_key(q.chunk_pos) implies #[trigger] cell_in::<Wall>(
        m2,
        q,
    ) == cell_in::<Wall>(m1, q).with_matrix(cell_in::<Wall>(m2, q).matrix()) by {
        assert(Grid::<Tile>::rest(&mid[q.chunk_pos]) == Grid::<Tile>::rest(&m1[q.chunk_pos]));
        assert(cell_in::<Wall>(mid, q) == cell_in::<Wall>(m1, q));
        assert(cell_in::<Wall>(m2, q) == cell_in::<Wall>(mid, q).with_matrix(
            cell_in::<Wall>(m2, q).matrix(),
        ));
    }
}

/// Adding a chunk at a coordinate that was not loaded keeps every loaded cell.
pub proof fn lemma_same_cells_insert<C: NeighborAware>(
    m: Map<ChunkPos, Chunk>,
    pos: ChunkPos,
    chunk: Chunk,
) where Chunk: Grid<C>
    requires
        !m.contains_key(pos),
    ensures
        same_cells::<C>(m, m.insert(pos, chunk)),
{
    assert forall|q: WorldPos| q.wf() && m.contains_key(q.chunk_pos) implies #[trigger] cell_in::<C>(
        m.insert(pos, chunk),
        q,
    ) == cell_in::<C>(m, q).with_matrix(cell_in::<C>(m.insert(pos, chunk), q).matrix()) by {
        let c = cell_in::<C>(m, q);
        c.lemma_with_matrix(c.matrix(), &c);
    }
}

/// A chunk whose cells are held in `m` keeps them in a map with the same cells.
pub proof fn lemma_holds_cells_keep<C: NeighborAware>(
    m: Map<ChunkPos, Chunk>,
    m2: Map<ChunkPos, Chunk>,
    p: ChunkPos,
    chunk: Chunk,
) where Chunk: Grid<C>
    requires
        m.contains_key(p),
        holds_cells::<C>(m, p, chunk),
        same_cells::<C>(m, m2),
    ensures
        holds_cells::<C>(m2, p, chunk),
{
    assert forall|q: WorldPos| q.wf() && q.chunk_pos == p implies #[trigger] cell_in::<C>(m2, q)
        == Grid::<C>::cell(&chunk, q.chunk_sub_pos.x as int, q.chunk_sub_pos.y as int).with_matrix(
        cell_in::<C>(m2, q).matrix(),
    ) by {
        let g = Grid::<C>::cell(&chunk, q.chunk_sub_pos.x as int, q.chunk_sub_pos.y as int);
        let c1 = cell_in::<C>(m, q);
        assert(c1 == g.with_matrix(c1.matrix()));
        assert(cell_in::<C>(m2, q) == c1.with_matrix(cell_in::<C>(m2, q).matrix()));
        g.lemma_with_matrix(c1.matrix(), &g);
    }
}

/// A chunk added at `pos` holds the cells it was added with.
pub proof fn lemma_holds_cells_new<C: NeighborAware>(
    m: Map<ChunkPos, Chunk>,
    m2: Map<ChunkPos, Chunk>,
    pos: ChunkPos,
    chunk: Chunk,
) where Chunk: Grid<C>
    requires
        same_cells::<C>(m.insert(pos, chunk), m2),
    ensures
        holds_cells::<C>(m2, pos, chunk),
{
    assert forall|q: WorldPos| q.wf() && q.chunk_pos == pos implies #[trigger] cell_in::<C>(m2, q)
        == Grid::<C>::cell(&chunk, q.chunk_sub_pos.x as int, q.chunk_sub_pos.y as int).with_matrix(
        cell_in::<C>(m2, q).matrix(),
    ) by {
        assert(cell_in::<C>(m.insert(pos, chunk), q) == Grid::<C>::cell(
            &chunk,
            q.chunk_sub_pos.x as int,
            q.chunk_sub_pos.y as int,
        ));
    }
}

/// The chunk coordinates that border one of the entries of `s` from index `from` on.
pub open spec fn tail_neighbors(s: Seq<ChunkPos>, from: int) -> Set<ChunkPos> {
    Set::new(
        |c: ChunkPos|
            exists|k: int| from <= k < s.len() && #[trigger] adjacent_chunks(s[k]).contains(c),
    )
}

pub proof fn lemma_same_cells_refl<C: NeighborAware>(m: Map<ChunkPos, Chunk>) where Chunk: Grid<C>
    ensures
        same_cells::<C>(m, m),
{
    assert forall|q: WorldPos| q.wf() && m.contains_key(q.chunk_pos) implies #[trigger] cell_in::<C>(
        m,
        q,
    ) == cell_in::<C>(m, q).with_matrix(cell_in::<C>(m, q).matrix()) by {
        let c = cell_in::<C>(m, q);
        c.lemma_with_matrix(c.matrix(), &c);
    }
}

/// Every edge of kind `C` between the chunk at `p` and a loaded neighbouring chunk agrees
/// on both sides with the cells it joins.
pub open spec fn border_linked<C: NeighborAware>(m: Map<ChunkPos, Chunk>, p: ChunkPos) -> bool where
    Chunk: Grid<C>,
 {
    forall|q: WorldPos, e: Direction|
        q.wf() && #[trigger] crosses(m, p, q, e) ==> cell_in::<C>(m, q).matrix().at(e)
            == cell_in::<C>(m, q).classify(&cell_in::<C>(m, q.step(e)))
}

/// As `border_linked`, for the edges that do not touch the chunk at `x`.
pub open spec fn linked_except<C: NeighborAware>(m: Map<ChunkPos, Chunk>, p: ChunkPos, x: ChunkPos) -> bool where
    Chunk: Grid<C>,
 {
    forall|q: WorldPos, e: Direction|
        q.wf() && #[trigger] crosses(m, p, q, e) && q.chunk_pos != x && q.step(e).chunk_pos != x
            ==> cell_in::<C>(m, q).matrix().at(e) == cell_in::<C>(m, q).classify(
            &cell_in::<C>(m, q.step(e)),
        )
}

/// Border reconciliation of `pos` links its own borders, and keeps linked the borders of
/// another chunk that were linked away from `pos`.
pub proof fn lemma_pass_links<C: NeighborAware>(
    m1: Map<ChunkPos, Chunk>,
    m2: Map<ChunkPos, Chunk>,
    pos: ChunkPos,
    p: ChunkPos,
) where Chunk: Grid<C>
    requires
        borders_updated::<C>(m1, m2, pos),
        p == pos || linked_except::<C>(m1, p, pos),
    ensures
        border_linked::<C>(m2, p),
{
    assert forall|q: WorldPos, e: Direction| q.wf() && #[trigger] crosses(m2, p, q, e) implies cell_in::<
        C,
    >(m2, q).matrix().at(e) == cell_in::<C>(m2, q).classify(&cell_in::<C>(m2, q.step(e))) by {
        let n = q.step(e);
        lemma_step(q, e, e);
        assert(crosses(m1, p, q, e));
        let c1 = cell_in::<C>(m1, q);
        let n1 = cell_in::<C>(m1, n);
        let c2 = cell_in::<C>(m2, q);
        let n2 = cell_in::<C>(m2, n);
        assert(c2 == c1.with_matrix(c2.matrix()));
        assert(n2 == n1.with_matrix(n2.matrix()));
        c1.lemma_with_matrix(c2.matrix(), &n2);
        n1.lemma_with_matrix(n2.matrix(), &c1);
        assert(c2.matrix().at(e) == border_slot::<C>(m1, pos, q, e, 4, 0));
        if !crosses(m1, pos, q, e) {
            assert(q.chunk_pos != pos && n.chunk_pos != pos);
        }
    }
}

/// Borders linked before a chunk is added stay linked away from it.
pub proof fn lemma_linked_except_insert<C: NeighborAware>(
    m: Map<ChunkPos, Chunk>,
    pos: ChunkPos,
    chunk: Chunk,
    p: ChunkPos,
) where Chunk: Grid<C>
    requires
        !m.contains_key(pos),
        border_linked::<C>(m, p),
    ensures
        linked_except::<C>(m.insert(pos, chunk), p, pos),
{
    let m1 = m.insert(pos, chunk);
    assert forall|q: WorldPos, e: Direction|
        q.wf() && #[trigger] crosses(m1, p, q, e) && q.chunk_pos != pos && q.step(e).chunk_pos
            != pos implies cell_in::<C>(m1, q).matrix().at(e) == cell_in::<C>(m1, q).classify(
        &cell_in::<C>(m1, q.step(e)),
    ) by {
        assert(crosses(m, p, q, e));
    }
}

/// Two maps with the same coordinates and the same cells of kind `C` link the same borders.
pub proof fn lemma_linked_same_cells<C: NeighborAware>(
    m: Map<ChunkPos, Chunk>,
    m2: Map<ChunkPos, Chunk>,
    p: ChunkPos,
    x: ChunkPos,
) where Chunk: Grid<C>
    requires
        m2.dom() == m.dom(),
        forall|q: WorldPos|
            q.wf() && m.contains_key(q.chunk_pos) ==> #[trigger] cell_in::<C>(m2, q) == cell_in::<
                C,
            >(m, q),
    ensures
        border_linked::<C>(m, p) ==> border_linked::<C>(m2, p),
        linked_except::<C>(m, p, x) ==> linked_except::<C>(m2, p, x),
{
    assert forall|q: WorldPos, e: Direction| q.wf() && #[trigger] crosses(m2, p, q, e) implies crosses(
        m,
        p,
        q,
        e,
    ) && cell_in::<C>(m2, q) == cell_in::<C>(m, q) && cell_in::<C>(m2, q.step(e)) == cell_in::<C>(
        m,
        q.step(e),
    ) by {
        lemma_step(q, e, e);
    }
}

/// Adding a chunk, tiles then walls reconciled, links its borders and keeps linked the
/// borders of the chunks whose borders were linked before.
pub proof fn lemma_insert_links(
    m: Map<ChunkPos, Chunk>,
    pos: ChunkPos,
    chunk: Chunk,
    mid: Map<ChunkPos, Chunk>,
    m2: Map<ChunkPos, Chunk>,
    p: ChunkPos,
)
    requires
        !m.contains_key(pos),
        borders_updated::<Tile>(m.insert(pos, chunk), mid, pos),
        borders_updated::<Wall>(mid, m2, pos),
        p == pos || (p != pos && border_linked::<Tile>(m, p) && border_linked::<Wall>(m, p)),
    ensures
        border_linked::<Tile>(m2, p),
        border_linked::<Wall>(m2, p),
{
    let m1 = m.insert(pos, chunk);
    if p != pos {
        lemma_linked_except_insert::<Tile>(m, pos, chunk, p);
        lemma_linked_except_insert::<Wall>(m, pos, chunk, p);
    }
    lemma_pass_links::<Tile>(m1, mid, pos, p);
    assert forall|q: WorldPos| q.wf() && mid.contains_key(q.chunk_pos) implies #[trigger] cell_in::<
        Tile,
    >(m2, q) == cell_in::<Tile>(mid, q) by {
        assert(Grid::<Wall>::rest(&m2[q.chunk_pos]) == Grid::<Wall>::rest(&mid[q.chunk_pos]));
    }
    lemma_linked_same_cells::<Tile>(mid, m2, p, pos);
    assert forall|q: WorldPos| q.wf() && m1.contains_key(q.chunk_pos) implies #[trigger] cell_in::<
        Wall,
    >(mid, q) == cell_in::<Wall>(m1, q) by {
        assert(Grid::<Tile>::rest(&mid[q.chunk_pos]) == Grid::<Tile>::rest(&m1[q.chunk_pos]));
    }
    lemma_linked_same_cells::<Wall>(m1, mid, p, pos);
    lemma_pass_links::<Wall>(mid, m2, pos, p);
}

} // verus!
