//! Best-first search over one level of the chunk. The frontier is ordered by
//! the heuristic alone, so the search is greedy: it finds a route wherever
//! there is one, not always a shortest one. A search between two levels is
//! not attempted.

use crate::chunk::{in_bounds, Cell, Chunk, BLOCK_SIZE};
use crate::direction::{dir_to_offset, index_to_dir, spec_dir_to_offset, spec_index_to_dir};
use std::collections::HashMap;
use vstd::prelude::*;
use vstd::set_lib::*;

verus! {

broadcast use vstd::std_specs::hash::group_hash_axioms;

/// `a / 3`, rounded toward zero.
pub open spec fn spec_block_coord(a: int) -> int {
    if a >= 0 {
        a / 3
    } else {
        -((-a) / 3)
    }
}

/// The cell that holds a world position: each coordinate divided by the
/// block size, rounded toward zero.
pub open spec fn spec_to_cell(p: Cell) -> Cell {
    Cell {
        x: spec_block_coord(p.x as int) as i32,
        y: spec_block_coord(p.y as int) as i32,
        z: spec_block_coord(p.z as int) as i32,
    }
}

/// Whether `b` is one of the four cells next to `a` on its level.
pub open spec fn is_neighbor(a: Cell, b: Cell) -> bool {
    a.y == b.y && ((a.z == b.z && (b.x - a.x == 1 || a.x - b.x == 1)) || (a.x == b.x && (b.z
        - a.z == 1 || a.z - b.z == 1)))
}

/// Whether a cell can be entered.
pub open spec fn is_open(chunk: &Chunk, c: Cell) -> bool {
    !chunk.solid(c.x as int, c.y as int, c.z as int)
}

/// A walk over the grid: each cell after the first is next to the one before
/// it and can be entered.
pub open spec fn is_route(chunk: &Chunk, route: Seq<Cell>) -> bool {
    route.len() >= 1 && forall|i: int|
        1 <= i < route.len() ==> is_neighbor(route[i - 1], #[trigger] route[i]) && is_open(
            chunk,
            route[i],
        )
}

/// Whether some walk leads from `from` to `to`.
pub open spec fn reachable(chunk: &Chunk, from: Cell, to: Cell) -> bool {
    exists|route: Seq<Cell>| #[trigger]
        is_route(chunk, route) && route[0] == from && route.last() == to
}

/// Whether every cell that can be entered from `c` is in `seen`.
pub open spec fn expanded(chunk: &Chunk, seen: Set<Cell>, c: Cell) -> bool {
    forall|n: Cell| #[trigger] is_neighbor(c, n) && is_open(chunk, n) ==> seen.contains(n)
}

/// The Manhattan distance between two cells on the horizontal plane.
pub open spec fn spec_heuristic(a: Cell, b: Cell) -> int {
    (if a.x >= b.x { a.x - b.x } else { b.x - a.x }) + (if a.z >= b.z { a.z - b.z } else { b.z - a.z })
}

/// Whether `c` was reached properly: it can be entered, and the cell it was
/// reached from is next to it and was reached too.
pub open spec fn linked(chunk: &Chunk, m: Map<Cell, Cell>, c: Cell) -> bool {
    m.contains_key(m[c]) && is_neighbor(m[c], c) && is_open(chunk, c)
}

/// Whether `depth` falls along every link of `m` but the one of `s`: then the
/// links form a tree with `s` at its root.
pub open spec fn is_tree(m: Map<Cell, Cell>, s: Cell, depth: Map<Cell, nat>) -> bool {
    forall|c: Cell| #[trigger] m.contains_key(c) && c != s ==> depth[m[c]] < depth[c]
}

/// What a search from cell `s` for cell `g` leaves in the came-from map `m`.
/// Between two levels it leaves nothing. Else `s` stands for its own
/// predecessor, every other cell of the map can be entered and was reached
/// from a cell of the map next to it, `g` is in the map exactly where a
/// walk leads to it, and the links form a tree.
pub open spec fn search_outcome(chunk: &Chunk, s: Cell, g: Cell, m: Map<Cell, Cell>) -> bool {
    if s.y != g.y {
        m == Map::<Cell, Cell>::empty()
    } else {
        &&& m.contains_key(s) && m[s] == s
        &&& forall|c: Cell| m.contains_key(c) && c != s ==> #[trigger] linked(chunk, m, c)
        &&& m.contains_key(g) <==> reachable(chunk, s, g)
        &&& exists|depth: Map<Cell, nat>| is_tree(m, s, depth)
    }
}

/// The cells from `cur` back along the map until `s`, `s` left out. The walk
/// also ends where the map has no entry, and after `fuel` cells.
pub open spec fn walk_back(m: Map<Cell, Cell>, s: Cell, cur: Cell, fuel: nat) -> Seq<Cell>
    decreases fuel,
{
    if fuel == 0 || cur == s || !m.contains_key(cur) {
        Seq::empty()
    } else {
        seq![cur].add(walk_back(m, s, m[cur], (fuel - 1) as nat))
    }
}

/// The key under which a cell is filed: its three coordinates, each shifted
/// to be non-negative, side by side.
pub open spec fn spec_key(c: Cell) -> u128 {
    ((c.x + 2147483648) * 18446744073709551616 + (c.y + 2147483648) * 4294967296 + (c.z
        + 2147483648)) as u128
}

/// Two cells with one key are one cell.
pub proof fn lemma_key_injective(a: Cell, b: Cell)
    ensures
        spec_key(a) == spec_key(b) ==> a == b,
{
}

/// For each cell that a search has reached, the cell it was reached from.
pub struct CameFrom {
    links: HashMap<u128, Cell>,
}

impl CameFrom {
    /// The predecessor of each reached cell.
    pub closed spec fn view(&self) -> Map<Cell, Cell> {
        Map::new(
            |c: Cell| self.links@.contains_key(spec_key(c)),
            |c: Cell| self.links@[spec_key(c)],
        )
    }

    /// The number of entries.
    pub closed spec fn size(&self) -> nat {
        self.links@.len()
    }

    /// A map without entries.
    pub fn new() -> (m: Self)
        ensures
            m@ == Map::<Cell, Cell>::empty(),
    {
        let m = Self { links: HashMap::new() };
        assert(m@ =~= Map::<Cell, Cell>::empty());
        m
    }

    /// Removes every entry.
    pub fn clear(&mut self)
        ensures
            final(self)@ == Map::<Cell, Cell>::empty(),
    {
        self.links.clear();
        assert(self@ =~= Map::<Cell, Cell>::empty());
    }

    /// The number of entries.
    pub fn len(&self) -> (n: usize)
        ensures
            n == self.size(),
    {
        self.links.len()
    }

    /// The cell that `c` was reached from, if `c` was reached.
    pub fn get(&self, c: Cell) -> (from: Option<Cell>)
        ensures
            from is Some <==> self@.contains_key(c),
            from is Some ==> from->0 == self@[c],
    {
        let k = key(c);
        match self.links.get(&k) {
            Some(from) => Some(*from),
            None => None,
        }
    }

    /// Whether `c` was reached.
    pub fn contains_key(&self, c: Cell) -> (present: bool)
        ensures
            present == self@.contains_key(c),
    {
        let k = key(c);
        self.links.contains_key(&k)
    }

    /// Records that `c` was reached from `from`.
    pub fn insert(&mut self, c: Cell, from: Cell)
        ensures
            final(self)@ == old(self)@.insert(c, from),
    {
        let k = key(c);
        self.links.insert(k, from);
        proof {
            assert forall|d: Cell| spec_key(d) == spec_key(c) implies d == c by {
                lemma_key_injective(d, c);
            }
            assert(self@ =~= old(self)@.insert(c, from));
        }
    }
}

/// The key under which a cell is filed.
fn key(c: Cell) -> (k: u128)
    ensures
        k == spec_key(c),
{
    let x = (c.x as i64 + 2147483648) as u128;
    let y = (c.y as i64 + 2147483648) as u128;
    let z = (c.z as i64 + 2147483648) as u128;
    x * 18446744073709551616 + y * 4294967296 + z
}

/// A world coordinate in blocks: a third of it at most, in size.
fn block_coord(a: i32) -> (c: i32)
    ensures
        c as int == spec_block_coord(a as int),
        -715827883 < c < 715827883,
{
    a / BLOCK_SIZE
}

/// The cell that holds a world position.
pub fn to_cell(p: Cell) -> (c: Cell)
    ensures
        c == spec_to_cell(p),
        -715827883 < c.x < 715827883,
        -715827883 < c.y < 715827883,
        -715827883 < c.z < 715827883,
{
    Cell { x: block_coord(p.x), y: block_coord(p.y), z: block_coord(p.z) }
}

/// The Manhattan distance between two cells on the horizontal plane, for
/// cells so near that it fits the machine integer.
pub fn heuristic(a: Cell, b: Cell) -> (h: i32)
    requires
        spec_heuristic(a, b) <= i32::MAX,
    ensures
        h as int == spec_heuristic(a, b),
{
    let dx: i64 = if a.x >= b.x {
        a.x as i64 - b.x as i64
    } else {
        b.x as i64 - a.x as i64
    };
    let dz: i64 = if a.z >= b.z {
        a.z as i64 - b.z as i64
    } else {
        b.z as i64 - a.z as i64
    };
    (dx + dz) as i32
}

/// The cell one step from `p` toward the horizontal direction with ordinal
/// `i`.
pub open spec fn neighbor_toward(p: Cell, i: int) -> Cell {
    let o = spec_dir_to_offset(spec_index_to_dir(i));
    Cell { x: (p.x + o.0) as i32, y: (p.y + o.1) as i32, z: (p.z + o.2) as i32 }
}

/// The cells next to `p` that can be entered, among the first `n` horizontal
/// directions, in the order of the directions.
pub open spec fn open_neighbors(chunk: &Chunk, p: Cell, n: int) -> Seq<Cell>
    decreases n,
{
    if n <= 0 {
        Seq::empty()
    } else {
        let before = open_neighbors(chunk, p, n - 1);
        if is_open(chunk, neighbor_toward(p, n - 1)) {
            before.push(neighbor_toward(p, n - 1))
        } else {
            before
        }
    }
}

/// The open neighbours are exactly the cells next to `p` that can be
/// entered.
pub proof fn lemma_open_neighbors(chunk: &Chunk, p: Cell)
    requires
        i32::MIN < p.x < i32::MAX,
        i32::MIN < p.z < i32::MAX,
    ensures
        forall|n: Cell| #[trigger]
            is_neighbor(p, n) && is_open(chunk, n) ==> open_neighbors(chunk, p, 4).contains(n),
        forall|j: int|
            0 <= j < open_neighbors(chunk, p, 4).len() ==> is_neighbor(
                p,
                #[trigger] open_neighbors(chunk, p, 4)[j],
            ) && is_open(chunk, open_neighbors(chunk, p, 4)[j]),
{
    reveal_with_fuel(open_neighbors, 5);
    let all = open_neighbors(chunk, p, 4);
    let a = open_neighbors(chunk, p, 1);
    let b = open_neighbors(chunk, p, 2);
    let c = open_neighbors(chunk, p, 3);
    assert forall|n: Cell| #[trigger] is_neighbor(p, n) && is_open(chunk, n) implies all.contains(
        n,
    ) by {
        if n == neighbor_toward(p, 0) {
            assert(a[a.len() - 1] == n);
            assert(all[a.len() - 1] == n);
        } else if n == neighbor_toward(p, 1) {
            assert(b[b.len() - 1] == n);
            assert(all[b.len() - 1] == n);
        } else if n == neighbor_toward(p, 2) {
            assert(c[c.len() - 1] == n);
            assert(all[c.len() - 1] == n);
        } else {
            assert(n == neighbor_toward(p, 3));
            assert(all[all.len() - 1] == n);
        }
    }
}

/// Lists the cells next to `position` that can be entered: forward,
/// backward, right, left, those that are blocked left out.
pub fn get_neighbors(position: Cell, chunk: &Chunk, neighbors: &mut Vec<Cell>)
    requires
        chunk.wf(),
        i32::MIN < position.x < i32::MAX,
        i32::MIN < position.z < i32::MAX,
    ensures
        final(neighbors)@ == open_neighbors(chunk, position, 4),
{
    neighbors.clear();
    let mut dir_i: usize = 0;
    while dir_i < 4
        invariant
            chunk.wf(),
            dir_i <= 4,
            i32::MIN < position.x < i32::MAX,
            i32::MIN < position.z < i32::MAX,
            neighbors@ == open_neighbors(chunk, position, dir_i as int),
        decreases 4 - dir_i,
    {
        let dir = index_to_dir(dir_i);
        let dir_offset = dir_to_offset(dir);
        let neighbor_position = Cell {
            x: position.x + dir_offset.0,
            y: position.y + dir_offset.1,
            z: position.z + dir_offset.2,
        };
        proof {
            reveal_with_fuel(open_neighbors, 2);
        }
        if !chunk.get_block(neighbor_position.x, neighbor_position.y, neighbor_position.z) {
            neighbors.push(neighbor_position);
        }
        dir_i += 1;
    }
}

/// A reached cell that waits to be expanded, with its distance estimate.
#[derive(Copy, Clone, Debug)]
pub struct Node {
    pub priority: i32,
    pub position: Cell,
}

/// Whether `c` waits in the frontier.
pub open spec fn in_frontier(frontier: Seq<Node>, c: Cell) -> bool {
    exists|i: int| 0 <= i < frontier.len() && (#[trigger] frontier[i]).position == c
}

/// Whether index `i` holds the node that leaves the frontier next: the
/// lowest estimate, and among equals the one that has waited longest.
pub open spec fn is_next(frontier: Seq<Node>, i: int) -> bool {
    &&& 0 <= i < frontier.len()
    &&& forall|j: int| 0 <= j < frontier.len() ==> frontier[i].priority <= (#[trigger] frontier[j]).priority
    &&& forall|j: int| 0 <= j < i ==> frontier[i].priority < (#[trigger] frontier[j]).priority
}

/// At most one node leaves the frontier next.
pub proof fn lemma_next_unique(frontier: Seq<Node>, i: int, j: int)
    requires
        is_next(frontier, i),
        is_next(frontier, j),
    ensures
        i == j,
{
    if i < j {
        assert(frontier[j].priority < frontier[i].priority);
    } else if j < i {
        assert(frontier[i].priority < frontier[j].priority);
    }
}

/// The index of the node that leaves the frontier next.
pub open spec fn next_at(frontier: Seq<Node>) -> int {
    choose|i: int| is_next(frontier, i)
}

/// The map and the frontier after the first `n` of the neighbours of
/// `current` were looked at: each that the map did not hold is linked to
/// `current` and waits at the end of the frontier, with its distance to
/// `goal` as its estimate.
pub open spec fn visited(
    m: Map<Cell, Cell>,
    frontier: Seq<Node>,
    current: Cell,
    goal: Cell,
    neighbors: Seq<Cell>,
    n: int,
) -> (Map<Cell, Cell>, Seq<Node>)
    decreases n,
{
    if n <= 0 {
        (m, frontier)
    } else {
        let before = visited(m, frontier, current, goal, neighbors, n - 1);
        let next = neighbors[n - 1];
        if before.0.contains_key(next) {
            before
        } else {
            (
                before.0.insert(next, current),
                before.1.push(Node { priority: spec_heuristic(next, goal) as i32, position: next }),
            )
        }
    }
}

/// The map that the search leaves when it goes on from map `m` and
/// `frontier` for at most `fuel` expansions: it stops when the frontier is
/// empty or the goal leaves it, and else expands the cell that leaves it.
pub open spec fn search_from(
    chunk: &Chunk,
    goal: Cell,
    m: Map<Cell, Cell>,
    frontier: Seq<Node>,
    fuel: nat,
) -> Map<Cell, Cell>
    decreases fuel,
{
    if fuel == 0 || frontier.len() == 0 {
        m
    } else {
        let at = next_at(frontier);
        let current = frontier[at].position;
        if current == goal {
            m
        } else {
            let neighbors = open_neighbors(chunk, current, 4);
            let after = visited(
                m,
                frontier.remove(at),
                current,
                goal,
                neighbors,
                neighbors.len() as int,
            );
            search_from(chunk, goal, after.0, after.1, (fuel - 1) as nat)
        }
    }
}

/// The came-from map of a search from cell `s` for cell `g`: empty between
/// two levels, else what the search leaves when it begins with `s` alone.
/// No search expands more cells than the level has, and the start.
pub open spec fn searched(chunk: &Chunk, s: Cell, g: Cell) -> Map<Cell, Cell> {
    if s.y != g.y {
        Map::empty()
    } else {
        search_from(
            chunk,
            g,
            Map::<Cell, Cell>::empty().insert(s, s),
            seq![Node { priority: 0, position: s }],
            1026,
        )
    }
}

/// Takes the next node out of a frontier that is not empty.
fn pop_lowest(frontier: &mut Vec<Node>) -> (r: (Node, Ghost<int>))
    requires
        old(frontier)@.len() > 0,
    ensures
        is_next(old(frontier)@, r.1@),
        r.0 == old(frontier)@[r.1@],
        final(frontier)@ == old(frontier)@.remove(r.1@),
{
    let mut best: usize = 0;
    let mut i: usize = 1;
    while i < frontier.len()
        invariant
            1 <= i <= frontier.len(),
            best < i,
            forall|j: int| 0 <= j < i ==> frontier@[best as int].priority <= (#[trigger] frontier@[j]).priority,
            forall|j: int|
                0 <= j < best ==> frontier@[best as int].priority < (#[trigger] frontier@[j]).priority,
        decreases frontier.len() - i,
    {
        if frontier[i].priority < frontier[best].priority {
            best = i;
        }
        i += 1;
    }
    let node = frontier.remove(best);
    (node, Ghost(best as int))
}

/// A walk can be continued by one step.
pub proof fn lemma_extend_reach(chunk: &Chunk, s: Cell, c: Cell, n: Cell)
    requires
        reachable(chunk, s, c),
        is_neighbor(c, n),
        is_open(chunk, n),
    ensures
        reachable(chunk, s, n),
{
    let route = choose|route: Seq<Cell>| #[trigger]
        is_route(chunk, route) && route[0] == s && route.last() == c;
    let longer = route.push(n);
    assert forall|i: int| 1 <= i < longer.len() implies is_neighbor(
        longer[i - 1],
        #[trigger] longer[i],
    ) && is_open(chunk, longer[i]) by {
        if i < route.len() {
            assert(is_neighbor(route[i - 1], route[i]));
        }
    }
    assert(is_route(chunk, longer) && longer[0] == s && longer.last() == n);
}

/// Every cell is reachable from itself.
pub proof fn lemma_reach_self(chunk: &Chunk, s: Cell)
    ensures
        reachable(chunk, s, s),
{
    let route = seq![s];
    assert(is_route(chunk, route) && route[0] == s && route.last() == s);
}

/// A set that holds the first cell of a walk and is closed under entering a
/// neighbour holds every cell of the walk.
pub proof fn lemma_closed_set_holds_route(chunk: &Chunk, seen: Set<Cell>, route: Seq<Cell>, i: int)
    requires
        is_route(chunk, route),
        seen.contains(route[0]),
        forall|c: Cell| seen.contains(c) ==> #[trigger] expanded(chunk, seen, c),
        0 <= i < route.len(),
    ensures
        seen.contains(route[i]),
    decreases i,
{
    if i > 0 {
        lemma_closed_set_holds_route(chunk, seen, route, i - 1);
        assert(expanded(chunk, seen, route[i - 1]));
        assert(is_neighbor(route[i - 1], route[i]));
    }
}

/// A blocked cell is reachable from no other cell.
pub proof fn lemma_blocked_unreachable(chunk: &Chunk, s: Cell, g: Cell)
    requires
        !is_open(chunk, g),
        g != s,
    ensures
        !reachable(chunk, s, g),
{
    if reachable(chunk, s, g) {
        let route = choose|route: Seq<Cell>| #[trigger]
            is_route(chunk, route) && route[0] == s && route.last() == g;
        assert(route.len() > 1);
        assert(is_open(chunk, route[route.len() - 1]));
    }
}

/// What holds of a search under way from `start`: the map is a tree of
/// steps over open cells rooted at `start`, each of its cells is reachable,
/// and each is expanded, waits in the frontier, or is the cell `pending`
/// whose neighbours are being looked at. `unseen` holds the column of every
/// cell of the level that the search has not reached, `depth` the number of
/// steps by which each cell was reached.
#[verifier::opaque]
spec fn search_inv(
    chunk: &Chunk,
    start: Cell,
    m: Map<Cell, Cell>,
    frontier: Seq<Node>,
    unseen: Set<int>,
    depth: Map<Cell, nat>,
    pending: Option<Cell>,
) -> bool {
    &&& unseen.finite()
    &&& is_tree(m, start, depth)
    &&& forall|c: Cell| m.contains_key(c) ==> #[trigger] depth.contains_key(c)
    &&& m.contains_key(start) && m[start] == start
    &&& forall|c: Cell| m.contains_key(c) && c != start ==> #[trigger] linked(chunk, m, c)
    &&& forall|c: Cell| #[trigger] m.contains_key(c) ==> reachable(chunk, start, c)
    &&& forall|c: Cell| #[trigger]
        m.contains_key(c) ==> expanded(chunk, m.dom(), c) || in_frontier(frontier, c) || pending
            == Some(c)
    &&& forall|i: int| 0 <= i < frontier.len() ==> m.contains_key((#[trigger] frontier[i]).position)
    &&& forall|c: Cell|
        in_bounds(c.x as int, c.y as int, c.z as int) && c.y == start.y && !#[trigger] m.contains_key(
            c,
        ) ==> unseen.contains(c.x + c.z * 32)
}

/// The invariant holds once the start cell is in the map and the frontier.
proof fn lemma_search_begins(chunk: &Chunk, start: Cell)
    ensures
        search_inv(
            chunk,
            start,
            Map::<Cell, Cell>::empty().insert(start, start),
            seq![Node { priority: 0, position: start }],
            set_int_range(0, 1024),
            Map::<Cell, nat>::empty().insert(start, 0),
            None,
        ),
        set_int_range(0, 1024).len() == 1024,
{
    reveal(search_inv);
    lemma_int_range(0, 1024);
    lemma_reach_self(chunk, start);
    let frontier = seq![Node { priority: 0, position: start }];
    assert(frontier[0].position == start);
}

/// Taking a node out of the frontier makes its cell the pending one.
proof fn lemma_after_pop(
    chunk: &Chunk,
    start: Cell,
    m: Map<Cell, Cell>,
    before: Seq<Node>,
    unseen: Set<int>,
    depth: Map<Cell, nat>,
    at: int,
)
    requires
        search_inv(chunk, start, m, before, unseen, depth, None),
        0 <= at < before.len(),
    ensures
        search_inv(chunk, start, m, before.remove(at), unseen, depth, Some(before[at].position)),
        m.contains_key(before[at].position),
        reachable(chunk, start, before[at].position),
        before[at].position.y == start.y,
        before[at].position != start ==> is_open(chunk, before[at].position),
{
    reveal(search_inv);
    let after = before.remove(at);
    let current = before[at].position;
    assert(m.contains_key(before[at].position));
    if current != start {
        assert(linked(chunk, m, current));
    }
    lemma_same_level(chunk, start, current);
    assert forall|c: Cell| #[trigger] m.contains_key(c) implies expanded(chunk, m.dom(), c)
        || in_frontier(after, c) || Some(current) == Some(c) by {
        if !expanded(chunk, m.dom(), c) && c != current {
            let i = choose|i: int| 0 <= i < before.len() && (#[trigger] before[i]).position == c;
            if i < at {
                assert(after[i].position == c);
            } else {
                assert(after[i - 1].position == c);
            }
        }
    }
    assert forall|i: int| 0 <= i < after.len() implies m.contains_key(
        (#[trigger] after[i]).position,
    ) by {
        if i < at {
            assert(after[i] == before[i]);
        } else {
            assert(after[i] == before[i + 1]);
        }
    }
}

/// Linking a new neighbour of the pending cell keeps the invariant, and
/// takes the neighbour's column out of the unseen ones.
proof fn lemma_after_visit(
    chunk: &Chunk,
    start: Cell,
    m: Map<Cell, Cell>,
    waiting: Seq<Node>,
    unseen: Set<int>,
    depth: Map<Cell, nat>,
    current: Cell,
    next: Cell,
    priority: i32,
)
    requires
        search_inv(chunk, start, m, waiting, unseen, depth, Some(current)),
        m.contains_key(current),
        current.y == start.y,
        is_neighbor(current, next),
        is_open(chunk, next),
        !m.contains_key(next),
    ensures
        search_inv(
            chunk,
            start,
            m.insert(next, current),
            waiting.push(Node { priority, position: next }),
            unseen.remove(next.x + next.z * 32),
            depth.insert(next, depth[current] + 1),
            Some(current),
        ),
        unseen.contains(next.x + next.z * 32),
        unseen.remove(next.x + next.z * 32).len() == unseen.len() - 1,
{
    reveal(search_inv);
    let m2 = m.insert(next, current);
    let frontier = waiting.push(Node { priority, position: next });
    lemma_extend_reach(chunk, start, current, next);
    assert(unseen.contains(next.x + next.z * 32));
    assert(frontier[waiting.len() as int].position == next);
    assert forall|c: Cell| #[trigger] m2.contains_key(c) implies expanded(chunk, m2.dom(), c)
        || in_frontier(frontier, c) || Some(current) == Some(c) by {
        if c == next {
            assert(in_frontier(frontier, c));
        } else if in_frontier(waiting, c) {
            let i = choose|i: int| 0 <= i < waiting.len() && (#[trigger] waiting[i]).position == c;
            assert(frontier[i].position == c);
        } else if c != current {
            assert(m.contains_key(c));
            assert(expanded(chunk, m.dom(), c));
            assert forall|n: Cell| #[trigger] is_neighbor(c, n) && is_open(chunk, n) implies m2.dom().contains(
                n,
            ) by {
                assert(m.dom().contains(n));
            }
        }
    }
    assert forall|i: int| 0 <= i < frontier.len() implies m2.contains_key(
        (#[trigger] frontier[i]).position,
    ) by {
        if i < waiting.len() {
            assert(frontier[i] == waiting[i]);
        }
    }
    assert forall|c: Cell| #[trigger] m2.contains_key(c) implies reachable(chunk, start, c) by {
        if c != next {
            assert(m.contains_key(c));
        }
    }
    assert forall|c: Cell| m2.contains_key(c) && c != start implies #[trigger] linked(
        chunk,
        m2,
        c,
    ) by {
        if c != next {
            assert(linked(chunk, m, c));
        }
    }
    let depth2 = depth.insert(next, depth[current] + 1);
    assert forall|c: Cell| #[trigger] m2.contains_key(c) && c != start implies depth2[m2[c]]
        < depth2[c] by {
        if c != next {
            assert(linked(chunk, m, c));
        }
    }
    assert forall|c: Cell| m2.contains_key(c) implies #[trigger] depth2.contains_key(c) by {
        if c != next {
            assert(depth.contains_key(c));
        }
    }
}

/// Once all its neighbours are in the map, the pending cell is expanded.
proof fn lemma_after_expansion(
    chunk: &Chunk,
    start: Cell,
    m: Map<Cell, Cell>,
    frontier: Seq<Node>,
    unseen: Set<int>,
    depth: Map<Cell, nat>,
    current: Cell,
)
    requires
        search_inv(chunk, start, m, frontier, unseen, depth, Some(current)),
        expanded(chunk, m.dom(), current),
    ensures
        search_inv(chunk, start, m, frontier, unseen, depth, None),
{
    reveal(search_inv);
}

/// With an empty frontier the map holds every reachable cell.
proof fn lemma_search_ends(
    chunk: &Chunk,
    start: Cell,
    goal: Cell,
    m: Map<Cell, Cell>,
    frontier: Seq<Node>,
    unseen: Set<int>,
    depth: Map<Cell, nat>,
)
    requires
        start.y == goal.y,
        search_inv(chunk, start, m, frontier, unseen, depth, None),
        frontier.len() == 0 || m.contains_key(goal),
    ensures
        search_outcome(chunk, start, goal, m),
{
    reveal(search_inv);
    if !m.contains_key(goal) {
        let seen = m.dom();
        assert forall|c: Cell| seen.contains(c) implies #[trigger] expanded(chunk, seen, c) by {
            assert(m.contains_key(c));
            assert(!in_frontier(frontier, c));
        }
        if reachable(chunk, start, goal) {
            let route = choose|route: Seq<Cell>| #[trigger]
                is_route(chunk, route) && route[0] == start && route.last() == goal;
            lemma_closed_set_holds_route(chunk, seen, route, route.len() - 1);
        }
    }
}

/// Searches for a way from the cell of `start` to the cell of `goal` and
/// leaves in `came_from`, for each cell it reached, the cell it came from.
/// Cells are expanded lowest estimate first. The goal is among the cells
/// reached exactly where a walk over open cells of the level leads to it.
pub fn a_star_search(chunk: &Chunk, start: Cell, goal: Cell, came_from: &mut CameFrom)
    requires
        chunk.wf(),
    ensures
        final(came_from)@ == searched(chunk, spec_to_cell(start), spec_to_cell(goal)),
        search_outcome(chunk, spec_to_cell(start), spec_to_cell(goal), final(came_from)@),
{
    let world_start = start;
    let world_goal = goal;
    let start = to_cell(world_start);
    let goal = to_cell(world_goal);
    came_from.clear();
    // Can't path to positions on a different y level.
    if start.y != goal.y {
        return ;
    }
    let mut neighbors: Vec<Cell> = Vec::new();
    let mut frontier: Vec<Node> = Vec::new();
    frontier.push(Node { priority: 0, position: start });
    came_from.insert(start, start);
    let ghost mut unseen: Set<int> = set_int_range(0, 1024);
    let ghost mut depth: Map<Cell, nat> = Map::empty().insert(start, 0);
    let ghost mut popped: nat = 0;
    proof {
        lemma_search_begins(chunk, start);
        assert(frontier@ =~= seq![Node { priority: 0, position: start }]);
    }
    loop
        invariant_except_break
            search_inv(chunk, start, came_from@, frontier@, unseen, depth, None),
            popped + frontier@.len() + unseen.len() == 1025,
            search_from(chunk, goal, came_from@, frontier@, (1026 - popped) as nat) == searched(
                chunk,
                start,
                goal,
            ),
        invariant
            chunk.wf(),
            start == spec_to_cell(world_start),
            goal == spec_to_cell(world_goal),
            start.y == goal.y,
            -715827883 < start.x < 715827883,
            -715827883 < start.z < 715827883,
            -715827883 < goal.x < 715827883,
            -715827883 < goal.z < 715827883,
        ensures
            search_outcome(chunk, start, goal, came_from@),
            came_from@ == searched(chunk, start, goal),
        decreases unseen.len() + frontier@.len(),
    {
        if frontier.len() == 0 {
            proof {
                lemma_search_ends(chunk, start, goal, came_from@, frontier@, unseen, depth);
                assert(search_from(chunk, goal, came_from@, frontier@, (1026 - popped) as nat)
                    == came_from@);
            }
            break ;
        }
        let ghost before = frontier@;
        let ghost measure = unseen.len() + frontier@.len();
        let (node, Ghost(at)) = pop_lowest(&mut frontier);
        let current = node.position;
        proof {
            lemma_after_pop(chunk, start, came_from@, before, unseen, depth, at);
            lemma_next_unique(before, at, next_at(before));
        }
        let ghost reached = came_from@;
        let ghost waiting = frontier@;
        if current == goal {
            proof {
                lemma_goal_popped(chunk, start, goal, came_from@, frontier@, unseen, depth);
                assert(search_from(chunk, goal, came_from@, before, (1026 - popped) as nat)
                    == came_from@);
            }
            break ;
        }
        get_neighbors(current, chunk, &mut neighbors);
        proof {
            lemma_open_neighbors(chunk, current);
        }
        let mut idx: usize = 0;
        while idx < neighbors.len()
            invariant
                chunk.wf(),
                current.y == start.y,
                -715827883 < goal.x < 715827883,
                -715827883 < goal.z < 715827883,
                idx <= neighbors.len(),
                neighbors@ == open_neighbors(chunk, current, 4),
                forall|j: int|
                    0 <= j < neighbors@.len() ==> is_neighbor(current, #[trigger] neighbors@[j])
                        && is_open(chunk, neighbors@[j]),
                unseen.len() + frontier@.len() == measure - 1,
                came_from@.contains_key(current),
                search_inv(chunk, start, came_from@, frontier@, unseen, depth, Some(current)),
                forall|j: int| 0 <= j < idx ==> came_from@.contains_key(#[trigger] neighbors@[j]),
                (came_from@, frontier@) == visited(
                    reached,
                    waiting,
                    current,
                    goal,
                    neighbors@,
                    idx as int,
                ),
            decreases neighbors.len() - idx,
        {
            let next = neighbors[idx];
            proof {
                reveal_with_fuel(visited, 2);
            }
            if !came_from.contains_key(next) {
                proof {
                    assert(is_neighbor(current, neighbors@[idx as int]));
                    assert(in_bounds(next.x as int, next.y as int, next.z as int));
                }
                let priority = heuristic(next, goal);
                proof {
                    lemma_after_visit(
                        chunk,
                        start,
                        came_from@,
                        frontier@,
                        unseen,
                        depth,
                        current,
                        next,
                        priority,
                    );
                    unseen = unseen.remove(next.x + next.z * 32);
                    assert(depth.contains_key(current)) by {
                        reveal(search_inv);
                    }
                    depth = depth.insert(next, depth[current] + 1);
                }
                frontier.push(Node { priority, position: next });
                came_from.insert(next, current);
            }
            idx += 1;
        }
        proof {
            assert forall|n: Cell| #[trigger]
                is_neighbor(current, n) && is_open(chunk, n) implies came_from@.dom().contains(
                n,
            ) by {
                assert(neighbors@.contains(n));
                let j = choose|j: int| 0 <= j < neighbors@.len() && neighbors@[j] == n;
                assert(came_from@.contains_key(neighbors@[j]));
            }
            lemma_after_expansion(chunk, start, came_from@, frontier@, unseen, depth, current);
            assert(neighbors@ == open_neighbors(chunk, current, 4));
            assert(search_from(chunk, goal, reached, before, (1026 - popped) as nat) == search_from(
                chunk,
                goal,
                came_from@,
                frontier@,
                (1026 - popped - 1) as nat,
            ));
            popped = popped + 1;
        }
    }
}

/// A search that stops at the goal has reached it.
proof fn lemma_goal_popped(
    chunk: &Chunk,
    start: Cell,
    goal: Cell,
    m: Map<Cell, Cell>,
    frontier: Seq<Node>,
    unseen: Set<int>,
    depth: Map<Cell, nat>,
)
    requires
        start.y == goal.y,
        search_inv(chunk, start, m, frontier, unseen, depth, Some(goal)),
        m.contains_key(goal),
    ensures
        search_outcome(chunk, start, goal, m),
{
    reveal(search_inv);
}

/// A walk stays on its level.
pub proof fn lemma_same_level(chunk: &Chunk, s: Cell, c: Cell)
    requires
        reachable(chunk, s, c),
    ensures
        c.y == s.y,
{
    let route = choose|route: Seq<Cell>| #[trigger]
        is_route(chunk, route) && route[0] == s && route.last() == c;
    lemma_route_level(chunk, route, route.len() - 1);
}

/// Every cell of a walk is on the level of its first.
proof fn lemma_route_level(chunk: &Chunk, route: Seq<Cell>, i: int)
    requires
        is_route(chunk, route),
        0 <= i < route.len(),
    ensures
        route[i].y == route[0].y,
    decreases i,
{
    if i > 0 {
        lemma_route_level(chunk, route, i - 1);
        assert(is_neighbor(route[i - 1], route[i]));
    }
}

/// The waypoints that `came_from` holds from cell `g` back to cell `s`: none
/// between two levels or where `g` was not reached, else the cells from `g`
/// back toward `s`, with `g` first and `s` left out.
pub open spec fn spec_path(came_from: &CameFrom, s: Cell, g: Cell) -> Seq<Cell> {
    if s.y != g.y || !came_from@.contains_key(g) {
        Seq::empty()
    } else {
        walk_back(came_from@, s, g, came_from.size())
    }
}

/// Reads the way from the cell of `goal` back to the cell of `start` out of
/// `came_from` into `path`: the waypoint cells with the goal first, the
/// start left out. The path is empty where the goal was not reached.
pub fn reconstruct_path(start: Cell, goal: Cell, came_from: &CameFrom, path: &mut Vec<Cell>)
    ensures
        final(path)@ == spec_path(came_from, spec_to_cell(start), spec_to_cell(goal)),
{
    let world_start = start;
    let world_goal = goal;
    let start = to_cell(world_start);
    let goal = to_cell(world_goal);
    path.clear();
    // Can't path to positions on a different y level.
    if start.y != goal.y {
        return ;
    }
    // Return if there is no path.
    if !came_from.contains_key(goal) {
        return ;
    }
    let mut current = goal;
    let mut fuel = came_from.len();
    loop
        invariant_except_break
            path@.add(walk_back(came_from@, start, current, fuel as nat)) == walk_back(
                came_from@,
                start,
                goal,
                came_from.size(),
            ),
        ensures
            path@ == walk_back(came_from@, start, goal, came_from.size()),
        decreases fuel,
    {
        if fuel == 0 || current == start {
            proof {
                assert(path@.add(Seq::<Cell>::empty()) =~= path@);
            }
            break ;
        }
        let from = match came_from.get(current) {
            Some(from) => from,
            None => {
                proof {
                    assert(path@.add(Seq::<Cell>::empty()) =~= path@);
                }
                break ;
            },
        };
        proof {
            let rest = walk_back(came_from@, start, from, (fuel - 1) as nat);
            assert(path@.push(current).add(rest) =~= path@.add(seq![current].add(rest)));
        }
        path.push(current);
        current = from;
        fuel -= 1;
    }
}

/// Where the goal cell is blocked, or no walk leads to it, a search followed
/// by a reconstruction gives an empty path.
pub proof fn lemma_blocked_goal_no_path(chunk: &Chunk, s: Cell, g: Cell, came_from: &CameFrom)
    requires
        search_outcome(chunk, s, g, came_from@),
        !is_open(chunk, g) || !reachable(chunk, s, g),
    ensures
        spec_path(came_from, s, g) == Seq::<Cell>::empty(),
{
    if s.y == g.y && came_from@.contains_key(g) {
        if g != s {
            lemma_blocked_unreachable(chunk, s, g);
        }
        assert(g == s);
    }
}

/// The cells from `cur` back along the links of a tree until its root, the
/// root left out.
pub open spec fn walk_tree(m: Map<Cell, Cell>, s: Cell, depth: Map<Cell, nat>, cur: Cell) -> Seq<
    Cell,
>
    decreases depth[cur],
{
    if cur == s || !m.contains_key(cur) || depth[m[cur]] >= depth[cur] {
        Seq::empty()
    } else {
        seq![cur].add(walk_tree(m, s, depth, m[cur]))
    }
}

/// The walk from a cell of a tree back to its root is a walk over open
/// cells without repetition, at least as long as the Manhattan distance.
proof fn lemma_walk_tree(chunk: &Chunk, m: Map<Cell, Cell>, s: Cell, depth: Map<Cell, nat>, cur: Cell)
    requires
        m.contains_key(s),
        forall|c: Cell| m.contains_key(c) && c != s ==> #[trigger] linked(chunk, m, c),
        is_tree(m, s, depth),
        m.contains_key(cur),
    ensures
        ({
            let w = walk_tree(m, s, depth, cur);
            &&& forall|i: int|
                0 <= i < w.len() ==> m.contains_key(#[trigger] w[i]) && w[i] != s && is_open(
                    chunk,
                    w[i],
                ) && depth[w[i]] <= depth[cur]
            &&& forall|i: int| 0 <= i < w.len() - 1 ==> is_neighbor(w[i + 1], #[trigger] w[i])
            &&& w.no_duplicates()
            &&& w.len() >= spec_heuristic(s, cur)
            &&& cur == s ==> w.len() == 0
            &&& cur != s ==> w.len() >= 1 && w[0] == cur && is_neighbor(s, w.last())
        }),
    decreases depth[cur],
{
    if cur != s {
        assert(linked(chunk, m, cur));
        let from = m[cur];
        lemma_walk_tree(chunk, m, s, depth, from);
        let rest = walk_tree(m, s, depth, from);
        let w = walk_tree(m, s, depth, cur);
        assert(w == seq![cur].add(rest));
        assert forall|i: int| 0 <= i < w.len() implies m.contains_key(#[trigger] w[i]) && w[i] != s
            && is_open(chunk, w[i]) && depth[w[i]] <= depth[cur] by {
            if i > 0 {
                assert(w[i] == rest[i - 1]);
            }
        }
        assert forall|i: int| 0 <= i < w.len() - 1 implies is_neighbor(w[i + 1], #[trigger] w[i]) by {
            if i > 0 {
                assert(w[i] == rest[i - 1]);
                assert(w[i + 1] == rest[i]);
            } else {
                assert(w[1] == rest[0]);
            }
        }
        assert forall|i: int, j: int| 0 <= i < w.len() && 0 <= j < w.len() && i != j implies w[i]
            != w[j] by {
            if i > 0 {
                assert(w[i] == rest[i - 1]);
            }
            if j > 0 {
                assert(w[j] == rest[j - 1]);
            }
        }
        if rest.len() > 0 {
            assert(w.last() == rest.last());
        }
    }
}

/// With fuel for all its cells, the bounded walk is the walk to the root.
proof fn lemma_fuel_suffices(
    m: Map<Cell, Cell>,
    s: Cell,
    depth: Map<Cell, nat>,
    cur: Cell,
    fuel: nat,
)
    requires
        is_tree(m, s, depth),
        fuel >= walk_tree(m, s, depth, cur).len(),
    ensures
        walk_back(m, s, cur, fuel) == walk_tree(m, s, depth, cur),
    decreases fuel,
{
    if cur != s && m.contains_key(cur) {
        assert(depth[m[cur]] < depth[cur]);
        lemma_fuel_suffices(m, s, depth, m[cur], (fuel - 1) as nat);
    }
}

impl CameFrom {
    /// A list of different cells of the map is no longer than the map has
    /// entries.
    pub proof fn lemma_cells_fit(&self, cells: Seq<Cell>)
        requires
            cells.no_duplicates(),
            forall|i: int| 0 <= i < cells.len() ==> self@.contains_key(#[trigger] cells[i]),
        ensures
            cells.len() <= self.size(),
    {
        let keys = Seq::new(cells.len(), |i: int| spec_key(cells[i]));
        assert forall|i: int, j: int| 0 <= i < keys.len() && 0 <= j < keys.len() && i != j implies keys[i]
            != keys[j] by {
            lemma_key_injective(cells[i], cells[j]);
        }
        keys.unique_seq_to_set();
        assert forall|k: u128| keys.to_set().contains(k) implies self.links@.dom().contains(k) by {
            let i = choose|i: int| 0 <= i < keys.len() && keys[i] == k;
            assert(self@.contains_key(cells[i]));
        }
        lemma_len_subset(keys.to_set(), self.links@.dom());
    }
}

/// Where a walk leads from `s` to another cell `g`, the path that a search
/// followed by a reconstruction gives is such a walk, read backward: it
/// begins with `g`, each of its cells can be entered and is next to the one
/// after it, and its last cell is next to `s`. It has at least as many
/// waypoints as the Manhattan distance from `s` to `g`.
pub proof fn lemma_path_is_route(chunk: &Chunk, s: Cell, g: Cell, came_from: &CameFrom)
    requires
        search_outcome(chunk, s, g, came_from@),
        reachable(chunk, s, g),
        g != s,
    ensures
        ({
            let p = spec_path(came_from, s, g);
            &&& p.len() >= 1 && p[0] == g
            &&& p.len() >= spec_heuristic(s, g)
            &&& forall|i: int| 0 <= i < p.len() ==> is_open(chunk, #[trigger] p[i])
            &&& forall|i: int| 0 <= i < p.len() - 1 ==> is_neighbor(p[i + 1], #[trigger] p[i])
            &&& is_neighbor(s, p.last())
        }),
{
    lemma_same_level(chunk, s, g);
    let m = came_from@;
    let depth = choose|depth: Map<Cell, nat>| is_tree(m, s, depth);
    lemma_walk_tree(chunk, m, s, depth, g);
    let w = walk_tree(m, s, depth, g);
    came_from.lemma_cells_fit(w);
    lemma_fuel_suffices(m, s, depth, g, came_from.size());
    assert(spec_path(came_from, s, g) == w);
}

} // verus!
