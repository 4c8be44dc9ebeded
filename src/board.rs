use vstd::prelude::*;
use crate::gem::GemType;
use crate::position::{
    Pos, on_board, cell_index, SLOT_COUNT, BOARD_WIDTH, BOARD_HEIGHT, lemma_cell_index_injective,
};

verus! {

/// A gem on the board: the handle the view knows it by, and its kind.
#[derive(Clone, Copy, Debug, PartialEq, Eq, Structural)]
pub struct Gem {
    pub id: u64,
    pub typ: GemType,
}

/// A gem moving from one cell to another.
#[derive(Clone, Copy, Debug, PartialEq, Eq, Structural)]
pub struct Move {
    pub from: Pos,
    pub to: Pos,
}

/// A new gem of kind `typ` appearing in cell `pos`.
#[derive(Clone, Copy, Debug, PartialEq, Eq, Structural)]
pub struct Spawn {
    pub pos: Pos,
    pub typ: GemType,
}

/// What the board reports after it has changed.
#[derive(Clone, Debug)]
pub enum BoardEvent {
    /// The gems of the two cells traded places.
    Swapped(Pos, Pos),
    /// A swap of the two cells was refused; nothing changed.
    FailedSwap(Pos, Pos),
    /// Gems fell, in the order given.
    Dropped(Vec<Move>),
    /// The gem of the cell was removed.
    Popped(Pos),
    /// New gems filled empty cells.
    Spawned(Vec<Spawn>),
    /// These cells form matches (a cell may be listed more than once).
    Matched(Vec<Pos>),
    /// Gems were rearranged: each gem of a `from` cell now sits in its `to`
    /// cell.
    Shuffled(Vec<Move>),
}

/// What the controller asks of the board.
#[derive(Clone, Debug, PartialEq, Eq)]
pub enum BoardCommand {
    Swap(Pos, Pos),
    Pop(Vec<Pos>),
    Shuffle,
}

/// How a gem travels between two cells.
#[derive(Clone, Copy, Debug, PartialEq, Eq, Structural)]
pub enum Motion {
    /// To the other cell of a swap.
    Swap,
    /// To the other cell of a refused swap and back.
    Bounce,
    /// Falling to a lower cell.
    Fall,
    /// To its new cell after a shuffle.
    Shuffle,
}

/// What the presentation has to do after the controller has handled an
/// event.
#[derive(Clone, Debug, PartialEq, Eq)]
pub enum Effect {
    /// Animate gem `gem` from cell `from` to cell `to`.
    Travel { gem: u64, from: Pos, to: Pos, motion: Motion },
    /// Create gem `gem` of kind `typ` in cell `at`; when `falling`, it drops
    /// in from one board height above the cell.
    Appear { gem: u64, typ: GemType, at: Pos, falling: bool },
    /// Remove gem `gem`.
    Vanish { gem: u64 },
    /// Hand the command to the board.
    Send(BoardCommand),
}

/// An event that does not fit the controller's view of the board.
#[derive(Clone, Copy, Debug, PartialEq, Eq, Structural)]
pub enum ViewError {
    /// The cell is not on the board.
    OffBoard(Pos),
    /// The event needs a gem in this cell and it holds none.
    Vacant(Pos),
    /// The event places a gem in this cell and it already holds one.
    Occupied(Pos),
    /// The moves of a shuffle do not rearrange a set of cells.
    BadShuffle,
    /// No handle is left for a new gem.
    HandlesExhausted,
}

/// Cell `p` is on the board and holds a gem.
pub open spec fn occupied(c: Seq<Option<Gem>>, p: Pos) -> bool {
    on_board(p) && c[cell_index(p)].is_some()
}

/// The gem in cell `p`.
pub open spec fn gem_at(c: Seq<Option<Gem>>, p: Pos) -> Gem {
    c[cell_index(p)].unwrap()
}

/// The cells with the contents of `a` and `b` exchanged.
pub open spec fn swap_cells(c: Seq<Option<Gem>>, a: Pos, b: Pos) -> Seq<Option<Gem>> {
    c.update(cell_index(a), c[cell_index(b)]).update(cell_index(b), c[cell_index(a)])
}

/// No gem handle is held by two cells.
pub open spec fn distinct_gems(c: Seq<Option<Gem>>) -> bool {
    forall|i: int, j: int|
        0 <= i < c.len() && 0 <= j < c.len() && i != j && (#[trigger] c[i]).is_some()
            && (#[trigger] c[j]).is_some() ==> c[i].unwrap().id != c[j].unwrap().id
}

/// Every handle on the board is below `n`.
pub open spec fn ids_below(c: Seq<Option<Gem>>, n: nat) -> bool {
    forall|i: int| 0 <= i < c.len() && (#[trigger] c[i]).is_some() ==> c[i].unwrap().id < n
}

/// A table of all cells with no handle held twice.
pub open spec fn cells_wf(c: Seq<Option<Gem>>, n: nat) -> bool {
    c.len() == SLOT_COUNT && distinct_gems(c) && ids_below(c, n)
}

/// The first thing wrong with a move whose source must hold a gem.
pub open spec fn move_error(c: Seq<Option<Gem>>, m: Move) -> ViewError {
    if !on_board(m.from) {
        ViewError::OffBoard(m.from)
    } else if !on_board(m.to) {
        ViewError::OffBoard(m.to)
    } else {
        ViewError::Vacant(m.from)
    }
}

/// A move whose source must hold a gem can be made.
pub open spec fn move_ok(c: Seq<Option<Gem>>, m: Move) -> bool {
    occupied(c, m.from) && on_board(m.to)
}

/// Cells after the falls `m`, made one after the other; a fall exchanges
/// the contents of its two cells.
pub open spec fn dropped(c: Seq<Option<Gem>>, m: Seq<Move>) -> Seq<Option<Gem>>
    decreases m.len(),
{
    if m.len() == 0 {
        c
    } else {
        swap_cells(dropped(c, m.drop_last()), m.last().from, m.last().to)
    }
}

/// Each fall of `m`, in turn, starts from a cell that holds a gem.
pub open spec fn drops_ok(c: Seq<Option<Gem>>, m: Seq<Move>) -> bool
    decreases m.len(),
{
    if m.len() == 0 {
        true
    } else {
        drops_ok(c, m.drop_last()) && move_ok(dropped(c, m.drop_last()), m.last())
    }
}

/// What is wrong with the first fall of `m` that cannot be made. (No falls
/// at all can always be made; that entry is never reported.)
pub open spec fn drops_error(c: Seq<Option<Gem>>, m: Seq<Move>) -> ViewError
    decreases m.len(),
{
    if m.len() == 0 {
        ViewError::BadShuffle
    } else if !drops_ok(c, m.drop_last()) {
        drops_error(c, m.drop_last())
    } else {
        move_error(dropped(c, m.drop_last()), m.last())
    }
}

/// One falling animation per fall of `m`, in order.
pub open spec fn drop_effects(c: Seq<Option<Gem>>, m: Seq<Move>) -> Seq<Effect>
    decreases m.len(),
{
    if m.len() == 0 {
        Seq::empty()
    } else {
        let before = dropped(c, m.drop_last());
        drop_effects(c, m.drop_last()).push(
            Effect::Travel {
                gem: gem_at(before, m.last().from).id,
                from: m.last().from,
                to: m.last().to,
                motion: Motion::Fall,
            },
        )
    }
}

/// Cells after the spawns `s`, the `k`-th of which gets handle `next + k`.
pub open spec fn spawned(c: Seq<Option<Gem>>, next: nat, s: Seq<Spawn>) -> Seq<Option<Gem>>
    decreases s.len(),
{
    if s.len() == 0 {
        c
    } else {
        spawned(c, next, s.drop_last()).update(
            cell_index(s.last().pos),
            Some(Gem { id: (next + s.len() - 1) as u64, typ: s.last().typ }),
        )
    }
}

/// Each spawn of `s`, in turn, fills an empty cell of the board.
pub open spec fn spawns_ok(c: Seq<Option<Gem>>, next: nat, s: Seq<Spawn>) -> bool
    decreases s.len(),
{
    if s.len() == 0 {
        true
    } else {
        spawns_ok(c, next, s.drop_last()) && on_board(s.last().pos) && !occupied(
            spawned(c, next, s.drop_last()),
            s.last().pos,
        )
    }
}

/// What is wrong with the first spawn of `s` that cannot be made. (No
/// spawns at all can always be made; that entry is never reported.)
pub open spec fn spawns_error(c: Seq<Option<Gem>>, next: nat, s: Seq<Spawn>) -> ViewError
    decreases s.len(),
{
    if s.len() == 0 {
        ViewError::BadShuffle
    } else if !spawns_ok(c, next, s.drop_last()) {
        spawns_error(c, next, s.drop_last())
    } else if !on_board(s.last().pos) {
        ViewError::OffBoard(s.last().pos)
    } else {
        ViewError::Occupied(s.last().pos)
    }
}

/// One new gem per spawn of `s`, in order.
pub open spec fn spawn_effects(next: nat, s: Seq<Spawn>, falling: bool) -> Seq<Effect> {
    Seq::new(
        s.len(),
        |k: int| Effect::Appear { gem: (next + k) as u64, typ: s[k].typ, at: s[k].pos, falling },
    )
}

/// The moves `m` rearrange a set of on-board cells: no two share a source,
/// no two share a target, and every source is also a target.
pub open spec fn shuffle_ok(m: Seq<Move>) -> bool {
    &&& forall|k: int| 0 <= k < m.len() ==> on_board((#[trigger] m[k]).from) && on_board(m[k].to)
    &&& forall|k: int, l: int|
        0 <= k < m.len() && 0 <= l < m.len() && k != l ==> (#[trigger] m[k]).to != (#[trigger] m[l]).to
            && m[k].from != m[l].from
    &&& forall|k: int| 0 <= k < m.len() ==> is_target(m, (#[trigger] m[k]).from)
}

/// Some move of `m` ends in cell `p`.
pub open spec fn is_target(m: Seq<Move>, p: Pos) -> bool {
    exists|l: int| 0 <= l < m.len() && #[trigger] m[l].to == p
}

/// Cells after the shuffle `m`: each target takes what its source held
/// before the shuffle; cells that are no target keep their gem.
pub open spec fn shuffled(c: Seq<Option<Gem>>, m: Seq<Move>) -> Seq<Option<Gem>>
    decreases m.len(),
{
    if m.len() == 0 {
        c
    } else {
        shuffled(c, m.drop_last()).update(cell_index(m.last().to), c[cell_index(m.last().from)])
    }
}

/// One animation for each move of `m` between two distinct cells that both
/// held a gem before the shuffle, in order.
pub open spec fn shuffle_effects(c: Seq<Option<Gem>>, m: Seq<Move>) -> Seq<Effect>
    decreases m.len(),
{
    if m.len() == 0 {
        Seq::empty()
    } else {
        let mv = m.last();
        let earlier = shuffle_effects(c, m.drop_last());
        if mv.from != mv.to && occupied(c, mv.from) && occupied(c, mv.to) {
            earlier.push(
                Effect::Travel {
                    gem: gem_at(c, mv.from).id,
                    from: mv.from,
                    to: mv.to,
                    motion: Motion::Shuffle,
                },
            )
        } else {
            earlier
        }
    }
}

/// `s` in order of first occurrence, each element once.
pub open spec fn dedup(s: Seq<Pos>) -> Seq<Pos>
    decreases s.len(),
{
    if s.len() == 0 {
        Seq::empty()
    } else {
        let d = dedup(s.drop_last());
        if d.contains(s.last()) {
            d
        } else {
            d.push(s.last())
        }
    }
}

/// The cell whose former contents cell `i` holds after `a` and `b` are
/// exchanged.
spec fn swap_source(a: Pos, b: Pos, i: int) -> int {
    if i == cell_index(b) {
        cell_index(a)
    } else if i == cell_index(a) {
        cell_index(b)
    } else {
        i
    }
}

/// Exchanging two on-board cells keeps every handle held at most once and
/// brings in no new handle.
pub proof fn lemma_swap_wf(c: Seq<Option<Gem>>, n: nat, a: Pos, b: Pos)
    requires
        cells_wf(c, n),
        on_board(a),
        on_board(b),
    ensures
        cells_wf(swap_cells(c, a, b), n),
{
    lemma_cell_index_injective(a, b);
    let d = swap_cells(c, a, b);
    assert forall|i: int| 0 <= i < d.len() implies d[i] == c[swap_source(a, b, i)] by {}
    assert forall|i: int, j: int|
        0 <= i < d.len() && 0 <= j < d.len() && i != j && (#[trigger] d[i]).is_some()
            && (#[trigger] d[j]).is_some() implies d[i].unwrap().id != d[j].unwrap().id by {
        assert(d[i] == c[swap_source(a, b, i)]);
        assert(d[j] == c[swap_source(a, b, j)]);
    }
    assert forall|i: int| 0 <= i < d.len() && (#[trigger] d[i]).is_some() implies d[i].unwrap().id
        < n by {
        assert(d[i] == c[swap_source(a, b, i)]);
    }
}

/// A swap of two on-board cells only rearranges the cells' contents: no gem
/// appears or disappears.
pub proof fn lemma_swap_permutes(c: Seq<Option<Gem>>, a: Pos, b: Pos)
    requires
        c.len() == SLOT_COUNT,
        on_board(a),
        on_board(b),
    ensures
        swap_cells(c, a, b).len() == c.len(),
        swap_cells(c, a, b).to_multiset() == c.to_multiset(),
{
    broadcast use vstd::seq_lib::group_to_multiset_ensures, vstd::seq_lib::to_multiset_update;
    lemma_cell_index_injective(a, b);
    let ia = cell_index(a);
    let ib = cell_index(b);
    let m = c.to_multiset();
    let c1 = c.update(ia, c[ib]);
    assert(c.contains(c[ia]));
    assert(c1.to_multiset() == m.insert(c[ib]).remove(c[ia]));
    assert(c1[ib] == c[ib]);
    assert(c1.update(ib, c[ia]).to_multiset() == c1.to_multiset().insert(c[ia]).remove(c[ib]));
    assert(m.count(c[ia]) > 0);
    assert(m.insert(c[ib]).remove(c[ia]).insert(c[ia]).remove(c[ib]) =~= m);
}

/// Once a prefix of the falls `m` cannot be made, neither can `m`, and the
/// error is the prefix's.
pub proof fn lemma_drops_prefix(c: Seq<Option<Gem>>, m: Seq<Move>, j: int)
    requires
        0 <= j <= m.len(),
        !drops_ok(c, m.take(j)),
    ensures
        !drops_ok(c, m),
        drops_error(c, m) == drops_error(c, m.take(j)),
    decreases m.len(),
{
    if j == m.len() {
        assert(m.take(j) =~= m);
    } else {
        assert(m.drop_last().take(j) =~= m.take(j));
        lemma_drops_prefix(c, m.drop_last(), j);
    }
}

/// Once a prefix of the spawns `s` cannot be made, neither can `s`, and
/// the error is the prefix's.
pub proof fn lemma_spawns_prefix(c: Seq<Option<Gem>>, next: nat, s: Seq<Spawn>, j: int)
    requires
        0 <= j <= s.len(),
        !spawns_ok(c, next, s.take(j)),
    ensures
        !spawns_ok(c, next, s),
        spawns_error(c, next, s) == spawns_error(c, next, s.take(j)),
    decreases s.len(),
{
    if j == s.len() {
        assert(s.take(j) =~= s);
    } else {
        assert(s.drop_last().take(j) =~= s.take(j));
        lemma_spawns_prefix(c, next, s.drop_last(), j);
    }
}

/// Putting a gem with the fresh handle `n` in an on-board cell keeps every
/// handle held at most once.
pub proof fn lemma_place_wf(c: Seq<Option<Gem>>, n: nat, p: Pos, t: GemType)
    requires
        cells_wf(c, n),
        on_board(p),
        n < u64::MAX,
    ensures
        cells_wf(c.update(cell_index(p), Some(Gem { id: n as u64, typ: t })), n + 1),
{
    lemma_cell_index_injective(p, p);
}

/// Emptying an on-board cell keeps every handle held at most once.
pub proof fn lemma_clear_wf(c: Seq<Option<Gem>>, n: nat, p: Pos)
    requires
        cells_wf(c, n),
        on_board(p),
    ensures
        cells_wf(c.update(cell_index(p), None), n),
{
    lemma_cell_index_injective(p, p);
}

/// Where a shuffle puts each gem: a target takes its source's gem, and any
/// other cell keeps its own.
pub proof fn lemma_shuffled_cells(c: Seq<Option<Gem>>, m: Seq<Move>)
    requires
        c.len() == SLOT_COUNT,
        forall|k: int| 0 <= k < m.len() ==> on_board((#[trigger] m[k]).from) && on_board(m[k].to),
        forall|k: int, l: int|
            0 <= k < m.len() && 0 <= l < m.len() && k != l ==> (#[trigger] m[k]).to != (#[trigger] m[l]).to,
    ensures
        shuffled(c, m).len() == c.len(),
        forall|k: int|
            0 <= k < m.len() ==> shuffled(c, m)[cell_index((#[trigger] m[k]).to)] == c[cell_index(
                m[k].from,
            )],
        forall|i: int|
            0 <= i < c.len() && (forall|k: int| 0 <= k < m.len() ==> cell_index((#[trigger] m[k]).to) != i)
                ==> #[trigger] shuffled(c, m)[i] == c[i],
    decreases m.len(),
{
    if m.len() > 0 {
        let w = m.drop_last();
        lemma_shuffled_cells(c, w);
        let last = m.last();
        assert(m[m.len() - 1] == last);
        assert forall|k: int| 0 <= k < m.len() implies shuffled(c, m)[cell_index(
            (#[trigger] m[k]).to,
        )] == c[cell_index(m[k].from)] by {
            if k < m.len() - 1 {
                assert(w[k] == m[k]);
                lemma_cell_index_injective(m[k].to, last.to);
            }
        }
        assert forall|i: int|
            0 <= i < c.len() && (forall|k: int| 0 <= k < m.len() ==> cell_index((#[trigger] m[k]).to) != i)
                implies #[trigger] shuffled(c, m)[i] == c[i] by {
            assert(cell_index(m[m.len() - 1].to) != i);
            assert forall|k: int| 0 <= k < w.len() implies cell_index((#[trigger] w[k]).to) != i by {
                assert(w[k] == m[k]);
            }
        }
    }
}

/// The cell whose contents cell `i` holds after the shuffle `m`.
spec fn shuffle_source(m: Seq<Move>, i: int) -> int {
    if exists|k: int| 0 <= k < m.len() && cell_index(#[trigger] m[k].to) == i {
        let k = choose|k: int| 0 <= k < m.len() && cell_index(#[trigger] m[k].to) == i;
        cell_index(m[k].from)
    } else {
        i
    }
}

proof fn lemma_shuffle_source(c: Seq<Option<Gem>>, m: Seq<Move>, i: int)
    requires
        c.len() == SLOT_COUNT,
        shuffle_ok(m),
        0 <= i < SLOT_COUNT,
    ensures
        shuffled(c, m)[i] == c[shuffle_source(m, i)],
        0 <= shuffle_source(m, i) < SLOT_COUNT,
{
    lemma_shuffled_cells(c, m);
    if exists|k: int| 0 <= k < m.len() && cell_index(#[trigger] m[k].to) == i {
        let k = choose|k: int| 0 <= k < m.len() && cell_index(#[trigger] m[k].to) == i;
        lemma_cell_index_injective(m[k].from, m[k].from);
    }
}

proof fn lemma_shuffle_source_injective(m: Seq<Move>, i: int, j: int)
    requires
        shuffle_ok(m),
        i != j,
    ensures
        shuffle_source(m, i) != shuffle_source(m, j),
{
    let ti = exists|k: int| 0 <= k < m.len() && cell_index(#[trigger] m[k].to) == i;
    let tj = exists|k: int| 0 <= k < m.len() && cell_index(#[trigger] m[k].to) == j;
    if ti && tj {
        let k = choose|k: int| 0 <= k < m.len() && cell_index(#[trigger] m[k].to) == i;
        let l = choose|k: int| 0 <= k < m.len() && cell_index(#[trigger] m[k].to) == j;
        assert(on_board(m[k].from) && on_board(m[l].from));
        lemma_cell_index_injective(m[k].from, m[l].from);
        assert(k != l);
    } else if ti {
        let k = choose|k: int| 0 <= k < m.len() && cell_index(#[trigger] m[k].to) == i;
        assert(0 <= k < m.len());
        let l = choose|l: int| 0 <= l < m.len() && #[trigger] m[l].to == m[k].from;
        assert(cell_index(m[l].to) == shuffle_source(m, i));
    } else if tj {
        let k = choose|k: int| 0 <= k < m.len() && cell_index(#[trigger] m[k].to) == j;
        assert(0 <= k < m.len());
        let l = choose|l: int| 0 <= l < m.len() && #[trigger] m[l].to == m[k].from;
        assert(cell_index(m[l].to) == shuffle_source(m, j));
    }
}

/// A valid shuffle keeps every handle held at most once and brings in no
/// new handle.
pub proof fn lemma_shuffled_wf(c: Seq<Option<Gem>>, n: nat, m: Seq<Move>)
    requires
        cells_wf(c, n),
        shuffle_ok(m),
    ensures
        cells_wf(shuffled(c, m), n),
{
    lemma_shuffled_cells(c, m);
    let d = shuffled(c, m);
    assert forall|i: int, j: int|
        0 <= i < d.len() && 0 <= j < d.len() && i != j && (#[trigger] d[i]).is_some()
            && (#[trigger] d[j]).is_some() implies d[i].unwrap().id != d[j].unwrap().id by {
        lemma_shuffle_source(c, m, i);
        lemma_shuffle_source(c, m, j);
        lemma_shuffle_source_injective(m, i, j);
    }
    assert forall|i: int| 0 <= i < d.len() && (#[trigger] d[i]).is_some() implies d[i].unwrap().id
        < n by {
        lemma_shuffle_source(c, m, i);
    }
}

/// `m` swaps an on-board cell with its right or its lower neighbour.
pub open spec fn is_neighbour_swap(m: Move) -> bool {
    &&& on_board(m.from)
    &&& on_board(m.to)
    &&& (m.to.y == m.from.y && m.to.x == m.from.x + 1) || (m.to.x == m.from.x && m.to.y
        == m.from.y + 1)
}

/// Every swap of two neighbouring cells, each once, in row-major order of
/// the upper or left cell.
pub fn neighbour_swaps() -> (r: Vec<Move>)
    ensures
        forall|k: int| 0 <= k < r@.len() ==> is_neighbour_swap(#[trigger] r@[k]),
        forall|m: Move| is_neighbour_swap(m) ==> r@.contains(m),
        r@.no_duplicates(),
{
    let mut r: Vec<Move> = Vec::new();
    let mut y: u32 = 0;
    while y < BOARD_HEIGHT
        invariant
            y <= BOARD_HEIGHT,
            forall|k: int| 0 <= k < r@.len() ==> is_neighbour_swap(#[trigger] r@[k]),
            forall|k: int| 0 <= k < r@.len() ==> (#[trigger] r@[k]).from.y < y,
            forall|m: Move| is_neighbour_swap(m) && m.from.y < y ==> r@.contains(m),
            r@.no_duplicates(),
        decreases BOARD_HEIGHT - y,
    {
        let mut x: u32 = 0;
        while x < BOARD_WIDTH
            invariant
                y < BOARD_HEIGHT,
                x <= BOARD_WIDTH,
                forall|k: int| 0 <= k < r@.len() ==> is_neighbour_swap(#[trigger] r@[k]),
                forall|k: int|
                    0 <= k < r@.len() ==> (#[trigger] r@[k]).from.y < y || (r@[k].from.y == y
                        && r@[k].from.x < x),
                forall|m: Move|
                    is_neighbour_swap(m) && (m.from.y < y || (m.from.y == y && m.from.x < x))
                        ==> r@.contains(m),
                r@.no_duplicates(),
            decreases BOARD_WIDTH - x,
        {
            let from = Pos { x, y };
            let ghost before = r@;
            if x + 1 < BOARD_WIDTH {
                let mv = Move { from, to: Pos { x: x + 1, y } };
                assert(!r@.contains(mv));
                r.push(mv);
                assert(r@.last() == mv);
            }
            let ghost mid = r@;
            if y + 1 < BOARD_HEIGHT {
                let mv = Move { from, to: Pos { x, y: y + 1 } };
                assert(!r@.contains(mv));
                r.push(mv);
                assert(r@.last() == mv);
            }
            assert forall|m: Move|
                is_neighbour_swap(m) && (m.from.y < y || (m.from.y == y && m.from.x < x + 1))
                    implies r@.contains(m) by {
                if m.from.y < y || m.from.x < x {
                    let k = choose|k: int| 0 <= k < before.len() && before[k] == m;
                    assert(r@[k] == m);
                } else if m.to.x == x + 1 {
                    let k = before.len() as int;
                    assert(r@[k] == m);
                } else {
                    let k = mid.len() as int;
                    assert(r@[k] == m);
                }
            }
            x = x + 1;
        }
        y = y + 1;
    }
    r
}

} // verus!
