//! Routing: a best-first search over the eight neighbours of each cell, with
//! a stand-in goal where the goal itself cannot be stood on.

use vstd::prelude::*;
use crate::game::{spec_sq_is_open, sq_is_open, GameState};
use crate::map::{among, Grid, Tile};
use crate::ship::ShipsTable;
use crate::util::{adjacent, capped, cartesian_d, spec_cartesian_d, Coord};

verus! {

/// Whether `tile` is one of the tiles in `valid`.
pub open spec fn spec_passable(tile: Tile, valid: Seq<Tile>) -> bool {
    among(tile, valid)
}

/// Whether a creature that can cross the tiles in `valid` can cross `tile`.
pub fn passable_by_me(tile: &Tile, valid: &Vec<Tile>) -> (res: bool)
    ensures
        res == spec_passable(*tile, valid@),
{
    let mut i: usize = 0;
    while i < valid.len()
        invariant
            i <= valid@.len(),
            forall|j: int| 0 <= j < i ==> !(#[trigger] valid@[j]).same(*tile),
        decreases valid@.len() - i,
    {
        if valid[i].same_as(tile) {
            return true;
        }
        i += 1;
    }
    false
}

/// Whether `c` is a cell of `map`.
pub open spec fn is_cell(map: Seq<Vec<Tile>>, c: Coord) -> bool {
    c.0 < map.len() && c.1 < map[c.0 as int].len()
}

/// Whether `c` is a cell of `map` whose terrain is in `valid`.
pub open spec fn terrain_ok(map: Seq<Vec<Tile>>, valid: Seq<Tile>, c: Coord) -> bool {
    is_cell(map, c) && spec_passable(map[c.0 as int][c.1 as int], valid)
}

/// Whether a route to `goal` may step onto `c`: the terrain must be right,
/// and nobody may be there, except on the goal itself.
pub open spec fn enterable(
    state: GameState,
    ships: ShipsTable,
    valid: Seq<Tile>,
    goal: Coord,
    c: Coord,
) -> bool {
    terrain_ok(state.map@, valid, c) && (c == goal || spec_sq_is_open(state, ships, c))
}

/// A route: one cell or more, each after the first a neighbour of the one
/// before it, and one that may be stepped onto.
pub open spec fn is_route(
    state: GameState,
    ships: ShipsTable,
    valid: Seq<Tile>,
    goal: Coord,
    path: Seq<Coord>,
) -> bool {
    &&& path.len() > 0
    &&& forall|i: int|
        0 <= i < path.len() - 1 ==> adjacent(path[i], #[trigger] path[i + 1]) && enterable(
            state,
            ships,
            valid,
            goal,
            path[i + 1],
        )
}

/// Whether some route leads from `start` to `goal`.
pub open spec fn reachable(
    state: GameState,
    ships: ShipsTable,
    valid: Seq<Tile>,
    start: Coord,
    goal: Coord,
) -> bool {
    exists|path: Seq<Coord>|
        #[trigger] is_route(state, ships, valid, goal, path) && path[0] == start && path.last()
            == goal
}

/// The `k`-th of the eight neighbours of `c`, row by row from the north-west,
/// unless it would lie beyond the range of the coordinates.
pub open spec fn spec_neighbour(c: Coord, k: int) -> Option<Coord> {
    let dr: int = if k < 3 { -1 } else if k < 5 { 0 } else { 1 };
    let dc: int = if k == 0 || k == 3 || k == 5 {
        -1
    } else if k == 1 || k == 6 {
        0
    } else {
        1
    };
    if 0 <= c.0 + dr <= usize::MAX && 0 <= c.1 + dc <= usize::MAX {
        Some(((c.0 + dr) as usize, (c.1 + dc) as usize))
    } else {
        None
    }
}

/// The `k`-th neighbour of `c`, for `k` from 0 to 7.
pub fn neighbour(c: Coord, k: usize) -> (res: Option<Coord>)
    requires
        k < 8,
    ensures
        res == spec_neighbour(c, k as int),
{
    let r: usize = if k < 3 {
        if c.0 == 0 {
            return None;
        }
        c.0 - 1
    } else if k < 5 {
        c.0
    } else {
        if c.0 == usize::MAX {
            return None;
        }
        c.0 + 1
    };
    let col: usize = if k == 0 || k == 3 || k == 5 {
        if c.1 == 0 {
            return None;
        }
        c.1 - 1
    } else if k == 1 || k == 6 {
        c.1
    } else {
        if c.1 == usize::MAX {
            return None;
        }
        c.1 + 1
    };
    Some((r, col))
}

/// The eight neighbours are exactly the adjacent cells.
pub proof fn lemma_neighbours(a: Coord, b: Coord)
    ensures
        adjacent(a, b) <==> exists|k: int| 0 <= k < 8 && #[trigger] spec_neighbour(a, k) == Some(b),
{
    if adjacent(a, b) {
        let dr = b.0 - a.0;
        let dc = b.1 - a.1;
        let k: int = if dr == -1 {
            dc + 1
        } else if dr == 0 {
            if dc == -1 { 3 } else { 4 }
        } else {
            dc + 6
        };
        assert(spec_neighbour(a, k) == Some(b));
    }
    if exists|k: int| 0 <= k < 8 && #[trigger] spec_neighbour(a, k) == Some(b) {
        let k = choose|k: int| 0 <= k < 8 && #[trigger] spec_neighbour(a, k) == Some(b);
        assert(adjacent(a, b));
    }
}

/// What the search knows of one cell: whether it was ever put in the queue,
/// from which cell it was first reached, and the cheapest way there so far.
#[derive(Clone, Copy, Debug)]
pub struct SearchNode {
    pub seen: bool,
    pub parent: Option<Coord>,
    pub g: usize,
}

/// A cell waiting in the queue. The greater `f`, the sooner it is taken.
#[derive(Clone, Copy, Debug)]
pub struct ASQueueItem {
    pub loc: Coord,
    pub f: i128,
}

impl ASQueueItem {
    /// A cell to wait in the queue with the priority `f`.
    pub fn new(loc: Coord, f: i128) -> (res: ASQueueItem)
        ensures
            res.loc == loc,
            res.f == f,
    {
        ASQueueItem { loc, f }
    }
}

/// A grid has the shape of a map when it has as many rows, each as long.
pub open spec fn same_shape<T>(g: Seq<Vec<T>>, map: Seq<Vec<Tile>>) -> bool {
    g.len() == map.len() && forall|r: int| 0 <= r < g.len() ==> (#[trigger] g[r]).len() == map[r].len()
}

/// A grid of unseen cells in the shape of `map`.
fn fresh_nodes(map: &Grid) -> (g: Vec<Vec<SearchNode>>)
    ensures
        same_shape(g@, map@),
        forall|r: int, c: int|
            0 <= r < g@.len() && 0 <= c < g@[r].len() ==> !(#[trigger] g@[r]@[c]).seen
                && g@[r]@[c].parent.is_none(),
{
    let mut g: Vec<Vec<SearchNode>> = Vec::new();
    let mut r: usize = 0;
    while r < map.len()
        invariant
            r <= map@.len(),
            g@.len() == r,
            forall|i: int| 0 <= i < r ==> (#[trigger] g@[i]).len() == map@[i].len(),
            forall|i: int, c: int|
                0 <= i < r && 0 <= c < g@[i].len() ==> !(#[trigger] g@[i]@[c]).seen
                    && g@[i]@[c].parent.is_none(),
        decreases map@.len() - r,
    {
        let mut row: Vec<SearchNode> = Vec::new();
        let mut c: usize = 0;
        while c < map[r].len()
            invariant
                r < map@.len(),
                c <= map@[r as int].len(),
                row@.len() == c,
                forall|j: int| 0 <= j < c ==> !(#[trigger] row@[j]).seen && row@[j].parent.is_none(),
            decreases map@[r as int].len() - c,
        {
            row.push(SearchNode { seen: false, parent: None, g: 0 });
            c += 1;
        }
        g.push(row);
        r += 1;
    }
    g
}

/// Writes `node` into cell `(r, c)` of the grid.
fn set_node(g: &mut Vec<Vec<SearchNode>>, r: usize, c: usize, node: SearchNode)
    requires
        r < old(g)@.len(),
        c < old(g)@[r as int].len(),
    ensures
        final(g)@.len() == old(g)@.len(),
        final(g)@[r as int]@ == old(g)@[r as int]@.update(c as int, node),
        forall|i: int| 0 <= i < old(g)@.len() && i != r ==> final(g)@[i] == old(g)@[i],
{
    let mut row: Vec<SearchNode> = Vec::new();
    g.set_and_swap(r, &mut row);
    row.set(c, node);
    g.set(r, row);
}

/// Takes from the queue the first of the items whose `f` is greatest.
fn pop_best(queue: &mut Vec<ASQueueItem>) -> (res: (ASQueueItem, Ghost<int>))
    requires
        old(queue)@.len() > 0,
    ensures
        0 <= res.1@ < old(queue)@.len(),
        res.0 == old(queue)@[res.1@],
        final(queue)@ == old(queue)@.remove(res.1@),
        forall|j: int| 0 <= j < old(queue)@.len() ==> (#[trigger] old(queue)@[j]).f <= res.0.f,
        forall|j: int| 0 <= j < res.1@ ==> (#[trigger] old(queue)@[j]).f < res.0.f,
{
    let mut best: usize = 0;
    let mut i: usize = 1;
    while i < queue.len()
        invariant
            0 <= best < i <= queue@.len(),
            forall|j: int| 0 <= j < i ==> (#[trigger] queue@[j]).f <= queue@[best as int].f,
            forall|j: int| 0 <= j < best ==> (#[trigger] queue@[j]).f < queue@[best as int].f,
        decreases queue@.len() - i,
    {
        if queue[i].f > queue[best].f {
            best = i;
        }
        i += 1;
    }
    let item = queue.remove(best);
    (item, Ghost(best as int))
}

/// What the search knows of the cell `c`.
pub open spec fn node_at(nodes: Seq<Vec<SearchNode>>, c: Coord) -> SearchNode {
    nodes[c.0 as int]@[c.1 as int]
}

/// Whether `c` is a cell that the search has put in its queue at some time.
pub open spec fn seen_at(nodes: Seq<Vec<SearchNode>>, c: Coord) -> bool {
    c.0 < nodes.len() && c.1 < nodes[c.0 as int]@.len() && node_at(nodes, c).seen
}

/// Whether `c` waits in the queue.
pub open spec fn queued(queue: Seq<ASQueueItem>, c: Coord) -> bool {
    exists|i: int| 0 <= i < queue.len() && (#[trigger] queue[i]).loc == c
}

/// Every seen cell but the start has a parent that was seen before it, from
/// which one step leads to it.
pub open spec fn tree_ok(
    state: GameState,
    ships: ShipsTable,
    valid: Seq<Tile>,
    start: Coord,
    goal: Coord,
    nodes: Seq<Vec<SearchNode>>,
    rank: Map<Coord, nat>,
) -> bool {
    forall|c: Coord| #[trigger]
        seen_at(nodes, c) ==> rank.contains_key(c) && match node_at(nodes, c).parent {
            None => c == start,
            Some(p) => c != start && seen_at(nodes, p) && adjacent(p, c) && enterable(
                state,
                ships,
                valid,
                goal,
                c,
            ) && rank[p] < rank[c],
        }
}

/// The search is done with `c`: it is not the goal, and every cell that one
/// step from `c` may enter has been seen.
pub open spec fn expanded(
    state: GameState,
    ships: ShipsTable,
    valid: Seq<Tile>,
    goal: Coord,
    nodes: Seq<Vec<SearchNode>>,
    c: Coord,
) -> bool {
    c != goal && forall|b: Coord|
        adjacent(c, b) && #[trigger] enterable(state, ships, valid, goal, b) ==> seen_at(nodes, b)
}

/// Every seen cell waits in the queue or is done with, except `skip`.
pub open spec fn frontier_ok(
    state: GameState,
    ships: ShipsTable,
    valid: Seq<Tile>,
    goal: Coord,
    nodes: Seq<Vec<SearchNode>>,
    queue: Seq<ASQueueItem>,
    skip: Option<Coord>,
) -> bool {
    forall|c: Coord| #[trigger]
        seen_at(nodes, c) && !queued(queue, c) && Some(c) != skip ==> expanded(
            state,
            ships,
            valid,
            goal,
            nodes,
            c,
        )
}

/// The unseen cells of a row, counted.
pub open spec fn row_unseen(row: Seq<SearchNode>) -> nat
    decreases row.len(),
{
    if row.len() == 0 {
        0
    } else {
        row_unseen(row.drop_last()) + if row.last().seen { 0nat } else { 1nat }
    }
}

/// The unseen cells of a grid, counted.
pub open spec fn grid_unseen(g: Seq<Vec<SearchNode>>) -> nat
    decreases g.len(),
{
    if g.len() == 0 {
        0
    } else {
        grid_unseen(g.drop_last()) + row_unseen(g.last()@)
    }
}

/// What writing one node does to the count of unseen cells of a row.
proof fn lemma_row_update(row: Seq<SearchNode>, c: int, node: SearchNode)
    requires
        0 <= c < row.len(),
    ensures
        row_unseen(row.update(c, node)) + (if row[c].seen { 0nat } else { 1nat }) == row_unseen(row)
            + (if node.seen { 0nat } else { 1nat }),
    decreases row.len(),
{
    let row2 = row.update(c, node);
    if c == row.len() - 1 {
        assert(row2.drop_last() =~= row.drop_last());
    } else {
        lemma_row_update(row.drop_last(), c, node);
        assert(row2.drop_last() =~= row.drop_last().update(c, node));
    }
}

/// What exchanging one row does to the count of unseen cells of a grid.
proof fn lemma_grid_update(g: Seq<Vec<SearchNode>>, g2: Seq<Vec<SearchNode>>, r: int)
    requires
        g2.len() == g.len(),
        0 <= r < g.len(),
        forall|i: int| 0 <= i < g.len() && i != r ==> g2[i] == g[i],
    ensures
        grid_unseen(g2) + row_unseen(g[r]@) == grid_unseen(g) + row_unseen(g2[r]@),
    decreases g.len(),
{
    if r == g.len() - 1 {
        assert(g2.drop_last() =~= g.drop_last());
    } else {
        lemma_grid_update(g.drop_last(), g2.drop_last(), r);
    }
}

/// Follows the parents from `goal` back to the start, and gives the cells
/// passed in the order from the start to `goal`.
fn backtrace_path(
    goal_r: usize,
    goal_c: usize,
    nodes: &Vec<Vec<SearchNode>>,
    Ghost(state): Ghost<GameState>,
    Ghost(ships): Ghost<ShipsTable>,
    Ghost(valid): Ghost<Seq<Tile>>,
    Ghost(start): Ghost<Coord>,
    Ghost(rank): Ghost<Map<Coord, nat>>,
) -> (path: Vec<Coord>)
    requires
        seen_at(nodes@, (goal_r, goal_c)),
        tree_ok(state, ships, valid, start, (goal_r, goal_c), nodes@, rank),
    ensures
        is_route(state, ships, valid, (goal_r, goal_c), path@),
        path@[0] == start,
        path@.last() == (goal_r, goal_c),
        node_at(nodes@, (goal_r, goal_c)).parent.is_none() ==> path@.len() == 1,
        path@.no_duplicates(),
{
    let ghost goal = (goal_r, goal_c);
    let mut c: Coord = (goal_r, goal_c);
    let mut v: Vec<Coord> = Vec::new();
    v.push(c);
    loop
        invariant
            seen_at(nodes@, c),
            tree_ok(state, ships, valid, start, goal, nodes@, rank),
            is_route(state, ships, valid, goal, v@),
            v@[0] == c,
            v@.last() == goal,
            node_at(nodes@, goal).parent.is_none() ==> c == goal && v@.len() == 1,
            forall|i: int| 0 <= i < v@.len() ==> rank.contains_key(#[trigger] v@[i]),
            forall|i: int, j: int| 0 <= i < j < v@.len() ==> rank[v@[i]] < rank[v@[j]],
        ensures
            is_route(state, ships, valid, goal, v@),
            v@[0] == start,
            v@.last() == goal,
            node_at(nodes@, goal).parent.is_none() ==> v@.len() == 1,
            v@.no_duplicates(),
        decreases rank[c],
    {
        match nodes[c.0][c.1].parent {
            None => {
                break ;
            },
            Some(p) => {
                let ghost before = v@;
                v.insert(0, p);
                proof {
                    assert forall|i: int| 0 <= i < v@.len() - 1 implies adjacent(
                        v@[i],
                        #[trigger] v@[i + 1],
                    ) && enterable(state, ships, valid, goal, v@[i + 1]) by {
                        if i > 0 {
                            assert(v@[i] == before[i - 1]);
                            assert(v@[i + 1] == before[i - 1 + 1]);
                        } else {
                            assert(v@[1] == before[0]);
                        }
                    }
                    assert forall|i: int| 0 <= i < v@.len() implies rank.contains_key(
                        #[trigger] v@[i],
                    ) by {
                        if i > 0 {
                            assert(v@[i] == before[i - 1]);
                        }
                    }
                    assert forall|i: int, j: int| 0 <= i < j < v@.len() implies rank[v@[i]]
                        < rank[v@[j]] by {
                        assert(v@[j] == before[j - 1]);
                        if i > 0 {
                            assert(v@[i] == before[i - 1]);
                        } else if j > 1 {
                            assert(rank[before[0]] < rank[before[j - 1]]);
                        }
                    }
                }
                c = p;
            },
        }
    }
    v
}

/// Where no cell waits any more and the goal was never taken from the queue,
/// no route leads from the start to the goal.
proof fn lemma_exhausted(
    state: GameState,
    ships: ShipsTable,
    valid: Seq<Tile>,
    start: Coord,
    goal: Coord,
    nodes: Seq<Vec<SearchNode>>,
)
    requires
        seen_at(nodes, start),
        frontier_ok(state, ships, valid, goal, nodes, Seq::<ASQueueItem>::empty(), None),
    ensures
        !reachable(state, ships, valid, start, goal),
{
    if reachable(state, ships, valid, start, goal) {
        let path = choose|path: Seq<Coord>|
            #[trigger] is_route(state, ships, valid, goal, path) && path[0] == start && path.last()
                == goal;
        lemma_route_seen(state, ships, valid, goal, nodes, path, path.len() - 1);
        assert(!queued(Seq::<ASQueueItem>::empty(), goal));
        assert(expanded(state, ships, valid, goal, nodes, goal));
    }
}

/// Once the search is done with every cell it has seen, every cell of a
/// route from a seen cell has been seen.
proof fn lemma_route_seen(
    state: GameState,
    ships: ShipsTable,
    valid: Seq<Tile>,
    goal: Coord,
    nodes: Seq<Vec<SearchNode>>,
    path: Seq<Coord>,
    i: int,
)
    requires
        is_route(state, ships, valid, goal, path),
        seen_at(nodes, path[0]),
        frontier_ok(state, ships, valid, goal, nodes, Seq::<ASQueueItem>::empty(), None),
        0 <= i < path.len(),
    ensures
        seen_at(nodes, path[i]),
    decreases i,
{
    if i > 0 {
        lemma_route_seen(state, ships, valid, goal, nodes, path, i - 1);
        let a = path[i - 1];
        assert(!queued(Seq::<ASQueueItem>::empty(), a));
        assert(expanded(state, ships, valid, goal, nodes, a));
        assert(adjacent(a, path[i - 1 + 1]));
        assert(enterable(state, ships, valid, goal, path[i - 1 + 1]));
    }
}

/// A neighbour is dealt with when it is beyond the coordinates, may not be
/// entered, or has been seen.
pub open spec fn neighbour_done(
    state: GameState,
    ships: ShipsTable,
    valid: Seq<Tile>,
    goal: Coord,
    nodes: Seq<Vec<SearchNode>>,
    n: Option<Coord>,
) -> bool {
    match n {
        Some(b) => enterable(state, ships, valid, goal, b) ==> seen_at(nodes, b),
        None => true,
    }
}

/// The distance between two coordinates on one axis.
fn axis_gap(a: usize, b: usize) -> (d: usize)
    ensures
        d == if a >= b { a - b } else { b - a },
{
    if a >= b { a - b } else { b - a }
}

/// The best-first search proper. The answer is a route from the start to the
/// goal, or nothing: nothing exactly when the start is no cell of the map or
/// no route exists. From a cell to itself the route is that one cell. No
/// route comes to the same cell twice.
pub fn astar(
    state: &GameState,
    start_r: usize,
    start_c: usize,
    end_r: usize,
    end_c: usize,
    passable_tiles: &Vec<Tile>,
    ships: &ShipsTable,
) -> (path: Vec<Coord>)
    ensures
        path@.len() > 0 ==> is_route(*state, *ships, passable_tiles@, (end_r, end_c), path@)
            && path@[0] == (start_r, start_c) && path@.last() == (end_r, end_c),
        path@.len() == 0 <==> !(is_cell(state.map@, (start_r, start_c)) && reachable(
            *state,
            *ships,
            passable_tiles@,
            (start_r, start_c),
            (end_r, end_c),
        )),
        (start_r, start_c) == (end_r, end_c) && path@.len() > 0 ==> path@ == seq![(start_r, start_c)],
        path@.no_duplicates(),
{
    let ghost start: Coord = (start_r, start_c);
    let ghost goal: Coord = (end_r, end_c);
    let ghost valid = passable_tiles@;
    if !(start_r < state.map.len() && start_c < state.map[start_r].len()) {
        return Vec::new();
    }
    let mut nodes = fresh_nodes(&state.map);
    let mut queue: Vec<ASQueueItem> = Vec::new();
    let ghost mut rank: Map<Coord, nat> = Map::empty().insert(start, 0nat);
    let ghost mut next_rank: nat = 1;
    set_node(&mut nodes, start_r, start_c, SearchNode { seen: true, parent: None, g: 0 });
    queue.push(ASQueueItem::new((start_r, start_c), 0));
    proof {
        assert forall|c: Coord| #[trigger] seen_at(nodes@, c) implies c == start by {}
        assert(queue@[0].loc == start);
        assert(queued(queue@, start));
    }
    while queue.len() > 0
        invariant
            same_shape(nodes@, state.map@),
            is_cell(state.map@, start),
            seen_at(nodes@, start),
            tree_ok(*state, *ships, valid, start, goal, nodes@, rank),
            frontier_ok(*state, *ships, valid, goal, nodes@, queue@, None),
            forall|i: int| 0 <= i < queue@.len() ==> seen_at(nodes@, (#[trigger] queue@[i]).loc),
            forall|c: Coord| rank.contains_key(c) ==> rank[c] < next_rank,
            start == (start_r, start_c),
            goal == (end_r, end_c),
            valid == passable_tiles@,
        decreases grid_unseen(nodes@) + queue@.len(),
    {
        let ghost m0 = grid_unseen(nodes@) + queue@.len();
        let ghost queue0 = queue@;
        let (node, Ghost(idx)) = pop_best(&mut queue);
        let curr: Coord = node.loc;
        proof {
            assert(seen_at(nodes@, queue0[idx].loc));
            assert forall|c: Coord| queued(queue0, c) && c != curr implies queued(queue@, c) by {
                let j = choose|j: int| 0 <= j < queue0.len() && (#[trigger] queue0[j]).loc == c;
                if j < idx {
                    assert(queue@[j].loc == c);
                } else {
                    assert(queue@[j - 1].loc == c);
                }
            }
            assert forall|i: int| 0 <= i < queue@.len() implies seen_at(
                nodes@,
                (#[trigger] queue@[i]).loc,
            ) by {
                if i < idx {
                    assert(queue@[i] == queue0[i]);
                } else {
                    assert(queue@[i] == queue0[i + 1]);
                }
            }
        }
        if curr.0 == end_r && curr.1 == end_c {
            let path = backtrace_path(
                end_r,
                end_c,
                &nodes,
                Ghost(*state),
                Ghost(*ships),
                Ghost(valid),
                Ghost(start),
                Ghost(rank),
            );
            proof {
                if start == goal {
                    assert(seen_at(nodes@, goal));
                    assert(path@ =~= seq![start]);
                }
            }
            return path;
        }
        let g_curr: usize = nodes[curr.0][curr.1].g;
        let tentative: usize = if g_curr < usize::MAX { g_curr + 1 } else { usize::MAX };
        let mut k: usize = 0;
        while k < 8
            invariant
                k <= 8,
                same_shape(nodes@, state.map@),
                is_cell(state.map@, start),
                seen_at(nodes@, start),
                seen_at(nodes@, curr),
                curr != goal,
                tree_ok(*state, *ships, valid, start, goal, nodes@, rank),
                frontier_ok(*state, *ships, valid, goal, nodes@, queue@, Some(curr)),
                forall|i: int| 0 <= i < queue@.len() ==> seen_at(nodes@, (#[trigger] queue@[i]).loc),
                forall|c: Coord| rank.contains_key(c) ==> rank[c] < next_rank,
                forall|j: int|
                    0 <= j < k ==> neighbour_done(
                        *state,
                        *ships,
                        valid,
                        goal,
                        nodes@,
                        #[trigger] spec_neighbour(curr, j),
                    ),
                grid_unseen(nodes@) + queue@.len() == m0 - 1,
                start == (start_r, start_c),
                goal == (end_r, end_c),
                valid == passable_tiles@,
            decreases 8 - k,
        {
            let ghost nodes0 = nodes@;
            let ghost queue1 = queue@;
            match neighbour(curr, k) {
                None => {},
                Some(n_loc) => {
                    if n_loc.0 < state.map.len() && n_loc.1 < state.map[n_loc.0].len() {
                        if passable_by_me(&state.map[n_loc.0][n_loc.1], passable_tiles) && ((n_loc.0
                            == end_r && n_loc.1 == end_c) || sq_is_open(
                            state,
                            ships,
                            n_loc.0,
                            n_loc.1,
                        )) {
                            proof {
                                lemma_neighbours(curr, n_loc);
                                assert(enterable(*state, *ships, valid, goal, n_loc));
                            }
                            let known: SearchNode = nodes[n_loc.0][n_loc.1];
                            if !known.seen {
                                let d: i128 = axis_gap(n_loc.0, end_r) as i128 + axis_gap(
                                    n_loc.1,
                                    end_c,
                                ) as i128 + tentative as i128;
                                let fresh = SearchNode {
                                    seen: true,
                                    parent: Some(curr),
                                    g: tentative,
                                };
                                set_node(&mut nodes, n_loc.0, n_loc.1, fresh);
                                queue.push(ASQueueItem::new(n_loc, -d));
                                proof {
                                    lemma_row_update(nodes0[n_loc.0 as int]@, n_loc.1 as int, fresh);
                                    lemma_grid_update(nodes0, nodes@, n_loc.0 as int);
                                    rank = rank.insert(n_loc, next_rank);
                                    next_rank = next_rank + 1;
                                    assert(queue@[queue1.len() as int].loc == n_loc);
                                    assert(queued(queue@, n_loc));
                                    lemma_after_set(nodes0, nodes@, n_loc, fresh);
                                    assert forall|c: Coord| queued(queue1, c) implies queued(
                                        queue@,
                                        c,
                                    ) by {
                                        let j = choose|j: int|
                                            0 <= j < queue1.len() && (#[trigger] queue1[j]).loc
                                                == c;
                                        assert(queue@[j].loc == c);
                                    }
                                    assert forall|i: int| 0 <= i < queue@.len() implies seen_at(
                                        nodes@,
                                        (#[trigger] queue@[i]).loc,
                                    ) by {
                                        if i < queue1.len() {
                                            assert(queue@[i] == queue1[i]);
                                            assert(seen_at(nodes0, queue1[i].loc));
                                        }
                                    }
                                    assert(seen_at(nodes0, curr) && n_loc != curr);
                                    assert(seen_at(nodes0, start) && n_loc != start);
                                    assert(rank.contains_key(curr));
                                    assert forall|c: Coord| #[trigger]
                                        seen_at(nodes@, c) implies rank.contains_key(c)
                                        && match node_at(nodes@, c).parent {
                                        None => c == start,
                                        Some(p) => c != start && seen_at(nodes@, p) && adjacent(
                                            p,
                                            c,
                                        ) && enterable(*state, *ships, valid, goal, c) && rank[p]
                                            < rank[c],
                                    } by {
                                        if c != n_loc {
                                            assert(seen_at(nodes0, c));
                                            match node_at(nodes0, c).parent {
                                                None => {},
                                                Some(p) => {
                                                    assert(seen_at(nodes0, p));
                                                },
                                            }
                                        }
                                    }
                                    assert forall|c: Coord| #[trigger]
                                        seen_at(nodes@, c) && !queued(queue@, c) && Some(c)
                                            != Some(curr) implies expanded(
                                        *state,
                                        *ships,
                                        valid,
                                        goal,
                                        nodes@,
                                        c,
                                    ) by {
                                        assert(c != n_loc);
                                        assert(seen_at(nodes0, c));
                                        assert(!queued(queue1, c));
                                        assert(expanded(*state, *ships, valid, goal, nodes0, c));
                                        assert forall|b: Coord|
                                            adjacent(c, b) && #[trigger] enterable(
                                                *state,
                                                *ships,
                                                valid,
                                                goal,
                                                b,
                                            ) implies seen_at(nodes@, b) by {
                                            assert(seen_at(nodes0, b));
                                        }
                                    }
                                }
                            } else if tentative < known.g {
                                let cheaper = SearchNode { g: tentative, ..known };
                                set_node(&mut nodes, n_loc.0, n_loc.1, cheaper);
                                proof {
                                    lemma_row_update(
                                        nodes0[n_loc.0 as int]@,
                                        n_loc.1 as int,
                                        cheaper,
                                    );
                                    lemma_grid_update(nodes0, nodes@, n_loc.0 as int);
                                    lemma_after_set(nodes0, nodes@, n_loc, cheaper);
                                    assert forall|c: Coord| #[trigger]
                                        seen_at(nodes@, c) implies rank.contains_key(c)
                                        && match node_at(nodes@, c).parent {
                                        None => c == start,
                                        Some(p) => c != start && seen_at(nodes@, p) && adjacent(
                                            p,
                                            c,
                                        ) && enterable(*state, *ships, valid, goal, c) && rank[p]
                                            < rank[c],
                                    } by {
                                        assert(seen_at(nodes0, c));
                                        match node_at(nodes0, c).parent {
                                            None => {},
                                            Some(p) => {
                                                assert(seen_at(nodes0, p));
                                            },
                                        }
                                    }
                                    assert forall|c: Coord| #[trigger]
                                        seen_at(nodes@, c) && !queued(queue@, c) && Some(c)
                                            != Some(curr) implies expanded(
                                        *state,
                                        *ships,
                                        valid,
                                        goal,
                                        nodes@,
                                        c,
                                    ) by {
                                        assert(seen_at(nodes0, c));
                                        assert(expanded(*state, *ships, valid, goal, nodes0, c));
                                        assert forall|b: Coord|
                                            adjacent(c, b) && #[trigger] enterable(
                                                *state,
                                                *ships,
                                                valid,
                                                goal,
                                                b,
                                            ) implies seen_at(nodes@, b) by {
                                            assert(seen_at(nodes0, b));
                                        }
                                    }
                                }
                            }
                        }
                    }
                },
            }
            proof {
                assert forall|j: int| 0 <= j < k + 1 implies neighbour_done(
                    *state,
                    *ships,
                    valid,
                    goal,
                    nodes@,
                    #[trigger] spec_neighbour(curr, j),
                ) by {
                    if j < k {
                        assert(neighbour_done(
                            *state,
                            *ships,
                            valid,
                            goal,
                            nodes0,
                            spec_neighbour(curr, j),
                        ));
                    }
                }
            }
            k += 1;
        }
        proof {
            assert forall|b: Coord|
                adjacent(curr, b) && #[trigger] enterable(
                    *state,
                    *ships,
                    valid,
                    goal,
                    b,
                ) implies seen_at(nodes@, b) by {
                lemma_neighbours(curr, b);
                let j = choose|j: int| 0 <= j < 8 && #[trigger] spec_neighbour(curr, j) == Some(b);
                assert(neighbour_done(
                    *state,
                    *ships,
                    valid,
                    goal,
                    nodes@,
                    spec_neighbour(curr, j),
                ));
            }
            assert(expanded(*state, *ships, valid, goal, nodes@, curr));
        }
    }
    proof {
        assert(queue@ =~= Seq::<ASQueueItem>::empty());
        lemma_exhausted(*state, *ships, valid, start, goal, nodes@);
    }
    Vec::new()
}

/// What writing one node does to what is seen and known, where the node
/// written is seen and keeps the parent of a node that was seen before.
proof fn lemma_after_set(
    before: Seq<Vec<SearchNode>>,
    after: Seq<Vec<SearchNode>>,
    n: Coord,
    node: SearchNode,
)
    requires
        n.0 < before.len(),
        n.1 < before[n.0 as int]@.len(),
        after.len() == before.len(),
        after[n.0 as int]@ == before[n.0 as int]@.update(n.1 as int, node),
        forall|i: int| 0 <= i < before.len() && i != n.0 ==> after[i] == before[i],
    ensures
        forall|c: Coord|
            c != n ==> #[trigger] seen_at(after, c) == seen_at(before, c) && (seen_at(before, c)
                ==> node_at(after, c) == node_at(before, c)),
        node_at(after, n) == node,
        seen_at(after, n) == node.seen,
{
    assert forall|c: Coord| c != n implies #[trigger] seen_at(after, c) == seen_at(before, c) && (
    seen_at(before, c) ==> node_at(after, c) == node_at(before, c)) by {
        if c.0 < before.len() {
            if c.0 == n.0 {
                assert(after[c.0 as int]@.len() == before[c.0 as int]@.len());
            } else {
                assert(after[c.0 as int] == before[c.0 as int]);
            }
        }
    }
}

/// How far the stand-in search goes from the start.
pub const SEARCH_RADIUS: usize = 30;

/// Whether the flood that looks for a stand-in goal may step onto `b`: the
/// terrain must be right, and `b` must lie within the search radius of the start.
pub open spec fn flood_step(map: Seq<Vec<Tile>>, valid: Seq<Tile>, start: Coord, b: Coord) -> bool {
    terrain_ok(map, valid, b) && spec_cartesian_d(start.0, start.1, b.0, b.1) <= SEARCH_RADIUS
}

/// A walk of the flood: it begins at the start, and each further cell is a
/// neighbour of the one before it that the flood may step onto.
pub open spec fn is_flood_walk(
    map: Seq<Vec<Tile>>,
    valid: Seq<Tile>,
    start: Coord,
    walk: Seq<Coord>,
) -> bool {
    &&& walk.len() > 0
    &&& walk[0] == start
    &&& forall|i: int|
        0 <= i < walk.len() - 1 ==> adjacent(walk[i], #[trigger] walk[i + 1]) && flood_step(
            map,
            valid,
            start,
            walk[i + 1],
        )
}

/// Whether the flood from `start` gets to `c`.
pub open spec fn flooded(map: Seq<Vec<Tile>>, valid: Seq<Tile>, start: Coord, c: Coord) -> bool {
    exists|walk: Seq<Coord>| #[trigger] is_flood_walk(map, valid, start, walk) && walk.last() == c
}

/// A cell can stand in for the goal when the flood gets to it and its terrain is right.
pub open spec fn candidate(map: Seq<Vec<Tile>>, valid: Seq<Tile>, start: Coord, c: Coord) -> bool {
    is_cell(map, start) && flooded(map, valid, start, c) && terrain_ok(map, valid, c)
}

/// The distance from the goal by which stand-ins are compared.
pub open spec fn goal_gap(goal: Coord, c: Coord) -> nat {
    capped(spec_cartesian_d(goal.0, goal.1, c.0, c.1))
}

/// Rows first, then columns.
pub open spec fn before_or_at(a: Coord, b: Coord) -> bool {
    a.0 < b.0 || (a.0 == b.0 && a.1 <= b.1)
}

/// `a` is at least as good a stand-in as `b`: nearer to the goal, or as near
/// and not later in the order of rows and columns.
pub open spec fn at_least_as_good(goal: Coord, a: Coord, b: Coord) -> bool {
    goal_gap(goal, a) < goal_gap(goal, b) || (goal_gap(goal, a) == goal_gap(goal, b)
        && before_or_at(a, b))
}

/// `best` is the stand-in of choice: a candidate that is at least as good as every candidate.
pub open spec fn is_nearest(
    map: Seq<Vec<Tile>>,
    valid: Seq<Tile>,
    start: Coord,
    goal: Coord,
    best: Coord,
) -> bool {
    candidate(map, valid, start, best) && forall|c: Coord| #[trigger]
        candidate(map, valid, start, c) ==> at_least_as_good(goal, best, c)
}

/// The stand-in of choice, if there is any candidate.
pub open spec fn spec_nearest_reachable(
    map: Seq<Vec<Tile>>,
    valid: Seq<Tile>,
    start: Coord,
    goal: Coord,
) -> Option<Coord> {
    if exists|b: Coord| is_nearest(map, valid, start, goal, b) {
        Some(choose|b: Coord| is_nearest(map, valid, start, goal, b))
    } else {
        None
    }
}

/// There is at most one stand-in of choice.
pub proof fn lemma_nearest_unique(
    map: Seq<Vec<Tile>>,
    valid: Seq<Tile>,
    start: Coord,
    goal: Coord,
    a: Coord,
    b: Coord,
)
    requires
        is_nearest(map, valid, start, goal, a),
        is_nearest(map, valid, start, goal, b),
    ensures
        a == b,
{
    assert(at_least_as_good(goal, a, b));
    assert(at_least_as_good(goal, b, a));
}

/// Every seen cell has a walk of the flood that ends on it.
pub open spec fn walks_ok(
    map: Seq<Vec<Tile>>,
    valid: Seq<Tile>,
    start: Coord,
    nodes: Seq<Vec<SearchNode>>,
    walks: Map<Coord, Seq<Coord>>,
) -> bool {
    forall|c: Coord| #[trigger]
        seen_at(nodes, c) ==> walks.contains_key(c) && is_flood_walk(map, valid, start, walks[c])
            && walks[c].last() == c
}

/// Whether `c` is among the cells of `list` from position `head` on.
pub open spec fn pending(list: Seq<Coord>, head: int, c: Coord) -> bool {
    exists|i: int| head <= i < list.len() && #[trigger] list[i] == c
}

/// The flood is done with `c`: every neighbour it may step onto has been seen.
pub open spec fn flood_done(
    map: Seq<Vec<Tile>>,
    valid: Seq<Tile>,
    start: Coord,
    nodes: Seq<Vec<SearchNode>>,
    c: Coord,
) -> bool {
    forall|b: Coord| adjacent(c, b) && #[trigger] flood_step(map, valid, start, b) ==> seen_at(nodes, b)
}

/// Every seen cell is pending or done with, except `skip`.
pub open spec fn flood_ok(
    map: Seq<Vec<Tile>>,
    valid: Seq<Tile>,
    start: Coord,
    nodes: Seq<Vec<SearchNode>>,
    list: Seq<Coord>,
    head: int,
    skip: Option<Coord>,
) -> bool {
    forall|c: Coord| #[trigger]
        seen_at(nodes, c) && !pending(list, head, c) && Some(c) != skip ==> flood_done(
            map,
            valid,
            start,
            nodes,
            c,
        )
}

/// A neighbour is dealt with when it is beyond the coordinates, may not be
/// stepped onto, or has been seen.
pub open spec fn flood_neighbour_done(
    map: Seq<Vec<Tile>>,
    valid: Seq<Tile>,
    start: Coord,
    nodes: Seq<Vec<SearchNode>>,
    n: Option<Coord>,
) -> bool {
    match n {
        Some(b) => flood_step(map, valid, start, b) ==> seen_at(nodes, b),
        None => true,
    }
}

/// Once the flood is done with every cell it has seen, every cell of a walk
/// of the flood has been seen.
proof fn lemma_walk_seen(
    map: Seq<Vec<Tile>>,
    valid: Seq<Tile>,
    start: Coord,
    nodes: Seq<Vec<SearchNode>>,
    list: Seq<Coord>,
    walk: Seq<Coord>,
    i: int,
)
    requires
        is_flood_walk(map, valid, start, walk),
        seen_at(nodes, start),
        flood_ok(map, valid, start, nodes, list, list.len() as int, None),
        0 <= i < walk.len(),
    ensures
        seen_at(nodes, walk[i]),
    decreases i,
{
    if i > 0 {
        lemma_walk_seen(map, valid, start, nodes, list, walk, i - 1);
        let a = walk[i - 1];
        assert(!pending(list, list.len() as int, a));
        assert(flood_done(map, valid, start, nodes, a));
        assert(adjacent(a, walk[i - 1 + 1]));
        assert(flood_step(map, valid, start, walk[i - 1 + 1]));
    }
}

/// Floods the map from the start, and marks every cell the flood gets to.
fn flood(map: &Grid, start_r: usize, start_c: usize, passable_tiles: &Vec<Tile>) -> (nodes: Vec<
    Vec<SearchNode>,
>)
    requires
        is_cell(map@, (start_r, start_c)),
    ensures
        same_shape(nodes@, map@),
        forall|c: Coord| #[trigger]
            seen_at(nodes@, c) <==> is_cell(map@, c) && flooded(
                map@,
                passable_tiles@,
                (start_r, start_c),
                c,
            ),
{
    let ghost start: Coord = (start_r, start_c);
    let ghost valid = passable_tiles@;
    let mut nodes = fresh_nodes(map);
    let mut list: Vec<Coord> = Vec::new();
    let mut head: usize = 0;
    let ghost mut walks: Map<Coord, Seq<Coord>> = Map::empty().insert(start, seq![start]);
    set_node(&mut nodes, start_r, start_c, SearchNode { seen: true, parent: None, g: 0 });
    list.push((start_r, start_c));
    proof {
        assert forall|c: Coord| #[trigger] seen_at(nodes@, c) implies c == start by {}
        assert(list@[0] == start);
        assert(pending(list@, 0, start));
        assert(is_flood_walk(map@, valid, start, seq![start]));
    }
    while head < list.len()
        invariant
            head <= list@.len(),
            same_shape(nodes@, map@),
            seen_at(nodes@, start),
            walks_ok(map@, valid, start, nodes@, walks),
            flood_ok(map@, valid, start, nodes@, list@, head as int, None),
            forall|i: int| 0 <= i < list@.len() ==> seen_at(nodes@, #[trigger] list@[i]),
            start == (start_r, start_c),
            valid == passable_tiles@,
        decreases grid_unseen(nodes@) + list@.len() - head,
    {
        let ghost m0 = grid_unseen(nodes@) + list@.len() - head;
        let curr: Coord = list[head];
        head += 1;
        proof {
            assert(seen_at(nodes@, list@[head - 1]));
            assert forall|c: Coord| pending(list@, head - 1, c) && c != curr implies pending(
                list@,
                head as int,
                c,
            ) by {
                let j = choose|j: int| head - 1 <= j < list@.len() && #[trigger] list@[j] == c;
                assert(list@[j] == c);
            }
        }
        let mut k: usize = 0;
        while k < 8
            invariant
                k <= 8,
                head <= list@.len(),
                same_shape(nodes@, map@),
                seen_at(nodes@, start),
                seen_at(nodes@, curr),
                walks_ok(map@, valid, start, nodes@, walks),
                flood_ok(map@, valid, start, nodes@, list@, head as int, Some(curr)),
                forall|i: int| 0 <= i < list@.len() ==> seen_at(nodes@, #[trigger] list@[i]),
                forall|j: int|
                    0 <= j < k ==> flood_neighbour_done(
                        map@,
                        valid,
                        start,
                        nodes@,
                        #[trigger] spec_neighbour(curr, j),
                    ),
                grid_unseen(nodes@) + list@.len() - head == m0 - 1,
                start == (start_r, start_c),
                valid == passable_tiles@,
            decreases 8 - k,
        {
            let ghost nodes0 = nodes@;
            let ghost list0 = list@;
            match neighbour(curr, k) {
                None => {},
                Some(n_loc) => {
                    if n_loc.0 < map.len() && n_loc.1 < map[n_loc.0].len() {
                        if passable_by_me(&map[n_loc.0][n_loc.1], passable_tiles) && cartesian_d(
                            start_r,
                            start_c,
                            n_loc.0,
                            n_loc.1,
                        ) <= SEARCH_RADIUS {
                            let known: SearchNode = nodes[n_loc.0][n_loc.1];
                            if !known.seen {
                                let fresh = SearchNode { seen: true, parent: Some(curr), g: 0 };
                                set_node(&mut nodes, n_loc.0, n_loc.1, fresh);
                                list.push(n_loc);
                                proof {
                                    lemma_neighbours(curr, n_loc);
                                    assert(flood_step(map@, valid, start, n_loc));
                                    lemma_row_update(nodes0[n_loc.0 as int]@, n_loc.1 as int, fresh);
                                    lemma_grid_update(nodes0, nodes@, n_loc.0 as int);
                                    lemma_after_set(nodes0, nodes@, n_loc, fresh);
                                    let w = walks[curr].push(n_loc);
                                    assert(is_flood_walk(map@, valid, start, w)) by {
                                        assert forall|i: int| 0 <= i < w.len() - 1 implies adjacent(
                                            w[i],
                                            #[trigger] w[i + 1],
                                        ) && flood_step(map@, valid, start, w[i + 1]) by {
                                            if i < w.len() - 2 {
                                                assert(w[i] == walks[curr][i]);
                                                assert(w[i + 1] == walks[curr][i + 1]);
                                            }
                                        }
                                    }
                                    walks = walks.insert(n_loc, w);
                                    assert(list@[list0.len() as int] == n_loc);
                                    assert(pending(list@, head as int, n_loc));
                                    assert forall|c: Coord|
                                        pending(list0, head as int, c) implies pending(
                                        list@,
                                        head as int,
                                        c,
                                    ) by {
                                        let j = choose|j: int|
                                            head <= j < list0.len() && #[trigger] list0[j] == c;
                                        assert(list@[j] == c);
                                    }
                                    assert forall|i: int| 0 <= i < list@.len() implies seen_at(
                                        nodes@,
                                        #[trigger] list@[i],
                                    ) by {
                                        if i < list0.len() {
                                            assert(list@[i] == list0[i]);
                                            assert(seen_at(nodes0, list0[i]));
                                        }
                                    }
                                    assert forall|c: Coord| #[trigger]
                                        seen_at(nodes@, c) implies walks.contains_key(c)
                                        && is_flood_walk(map@, valid, start, walks[c])
                                        && walks[c].last() == c by {
                                        if c != n_loc {
                                            assert(seen_at(nodes0, c));
                                        }
                                    }
                                    assert forall|c: Coord| #[trigger]
                                        seen_at(nodes@, c) && !pending(list@, head as int, c)
                                            && Some(c) != Some(curr) implies flood_done(
                                        map@,
                                        valid,
                                        start,
                                        nodes@,
                                        c,
                                    ) by {
                                        assert(c != n_loc);
                                        assert(seen_at(nodes0, c));
                                        assert(!pending(list0, head as int, c));
                                        assert(flood_done(map@, valid, start, nodes0, c));
                                        assert forall|b: Coord|
                                            adjacent(c, b) && #[trigger] flood_step(
                                                map@,
                                                valid,
                                                start,
                                                b,
                                            ) implies seen_at(nodes@, b) by {
                                            assert(seen_at(nodes0, b));
                                        }
                                    }
                                }
                            }
                        }
                    }
                },
            }
            proof {
                assert forall|j: int| 0 <= j < k + 1 implies flood_neighbour_done(
                    map@,
                    valid,
                    start,
                    nodes@,
                    #[trigger] spec_neighbour(curr, j),
                ) by {
                    if j < k {
                        assert(flood_neighbour_done(
                            map@,
                            valid,
                            start,
                            nodes0,
                            spec_neighbour(curr, j),
                        ));
                    }
                }
            }
            k += 1;
        }
        proof {
            assert forall|b: Coord|
                adjacent(curr, b) && #[trigger] flood_step(map@, valid, start, b) implies seen_at(
                nodes@,
                b,
            ) by {
                lemma_neighbours(curr, b);
                let j = choose|j: int| 0 <= j < 8 && #[trigger] spec_neighbour(curr, j) == Some(b);
                assert(flood_neighbour_done(map@, valid, start, nodes@, spec_neighbour(curr, j)));
            }
            assert(flood_done(map@, valid, start, nodes@, curr));
        }
    }
    proof {
        assert forall|c: Coord| #[trigger] seen_at(nodes@, c) <==> is_cell(map@, c) && flooded(
            map@,
            valid,
            start,
            c,
        ) by {
            if seen_at(nodes@, c) {
                assert(is_flood_walk(map@, valid, start, walks[c]));
            }
            if is_cell(map@, c) && flooded(map@, valid, start, c) {
                let walk = choose|walk: Seq<Coord>| #[trigger]
                    is_flood_walk(map@, valid, start, walk) && walk.last() == c;
                lemma_walk_seen(map@, valid, start, nodes@, list@, walk, walk.len() - 1);
            }
        }
    }
    nodes
}

/// Whether `a` comes strictly before `b`, rows first, then columns.
pub open spec fn strictly_before(a: Coord, b: Coord) -> bool {
    a.0 < b.0 || (a.0 == b.0 && a.1 < b.1)
}

/// What the scan for the best stand-in knows when it is about to look at `at`.
spec fn scan_ok(
    map: Seq<Vec<Tile>>,
    valid: Seq<Tile>,
    start: Coord,
    goal: Coord,
    at: Coord,
    best: Option<Coord>,
    best_d: usize,
) -> bool {
    &&& match best {
        Some(b) => candidate(map, valid, start, b) && strictly_before(b, at) && best_d == goal_gap(
            goal,
            b,
        ),
        None => true,
    }
    &&& forall|x: Coord| #[trigger]
        candidate(map, valid, start, x) && strictly_before(x, at) ==> match best {
            Some(b) => at_least_as_good(goal, b, x),
            None => false,
        }
}

/// The cell that stands in for a goal that cannot be stood on: of the cells
/// with the right terrain that a flood from the start gets to without
/// leaving the search radius, the one nearest to the goal; of several equally
/// near, the first by rows, then columns. Nothing where there is no such cell.
pub fn find_nearest_reachable(
    map: &Grid,
    start_r: usize,
    start_c: usize,
    end_r: usize,
    end_c: usize,
    passable_tiles: &Vec<Tile>,
) -> (res: Option<Coord>)
    ensures
        res == spec_nearest_reachable(
            map@,
            passable_tiles@,
            (start_r, start_c),
            (end_r, end_c),
        ),
        match res {
            Some(b) => is_nearest(map@, passable_tiles@, (start_r, start_c), (end_r, end_c), b),
            None => forall|c: Coord|
                !#[trigger] candidate(map@, passable_tiles@, (start_r, start_c), c),
        },
{
    let ghost start: Coord = (start_r, start_c);
    let ghost goal: Coord = (end_r, end_c);
    let ghost valid = passable_tiles@;
    if !(start_r < map.len() && start_c < map[start_r].len()) {
        return None;
    }
    let nodes = flood(map, start_r, start_c, passable_tiles);
    let mut best: Option<Coord> = None;
    let mut best_d: usize = 0;
    let mut r: usize = 0;
    while r < map.len()
        invariant
            r <= map@.len(),
            same_shape(nodes@, map@),
            is_cell(map@, start),
            forall|c: Coord| #[trigger]
                seen_at(nodes@, c) <==> is_cell(map@, c) && flooded(map@, valid, start, c),
            scan_ok(map@, valid, start, goal, (r, 0), best, best_d),
            start == (start_r, start_c),
            goal == (end_r, end_c),
            valid == passable_tiles@,
        decreases map@.len() - r,
    {
        let mut c: usize = 0;
        while c < map[r].len()
            invariant
                r < map@.len(),
                c <= map@[r as int].len(),
                same_shape(nodes@, map@),
                is_cell(map@, start),
                forall|x: Coord| #[trigger]
                    seen_at(nodes@, x) <==> is_cell(map@, x) && flooded(map@, valid, start, x),
                scan_ok(map@, valid, start, goal, (r, c), best, best_d),
                start == (start_r, start_c),
                goal == (end_r, end_c),
                valid == passable_tiles@,
            decreases map@[r as int].len() - c,
        {
            let ghost here: Coord = (r, c);
            let mut is_candidate: bool = false;
            if nodes[r][c].seen && passable_by_me(&map[r][c], passable_tiles) {
                is_candidate = true;
                let d: usize = cartesian_d(end_r, end_c, r, c);
                if best.is_none() || d < best_d {
                    best = Some((r, c));
                    best_d = d;
                }
            }
            proof {
                assert(seen_at(nodes@, here) == nodes@[r as int]@[c as int].seen);
                assert(is_candidate == candidate(map@, valid, start, here));
                assert forall|x: Coord| #[trigger]
                    candidate(map@, valid, start, x) && strictly_before(
                        x,
                        (r, (c + 1) as usize),
                    ) implies match best {
                    Some(b) => at_least_as_good(goal, b, x),
                    None => false,
                } by {
                    if x != here {
                        assert(strictly_before(x, here));
                    }
                }
            }
            c += 1;
        }
        proof {
            assert forall|x: Coord| #[trigger]
                candidate(map@, valid, start, x) && strictly_before(
                    x,
                    ((r + 1) as usize, 0usize),
                ) implies match best {
                Some(b) => at_least_as_good(goal, b, x),
                None => false,
            } by {
                assert(is_cell(map@, x));
                assert(strictly_before(x, (r, c)));
            }
        }
        r += 1;
    }
    proof {
        assert forall|x: Coord| #[trigger] candidate(map@, valid, start, x) implies match best {
            Some(b) => at_least_as_good(goal, b, x),
            None => false,
        } by {
            assert(is_cell(map@, x));
            assert(strictly_before(x, (r, 0usize)));
        }
        match best {
            Some(b) => {
                assert(is_nearest(map@, valid, start, goal, b));
                let b2 = choose|b2: Coord| is_nearest(map@, valid, start, goal, b2);
                lemma_nearest_unique(map@, valid, start, goal, b, b2);
            },
            None => {
                assert forall|b: Coord| !is_nearest(map@, valid, start, goal, b) by {
                    if is_nearest(map@, valid, start, goal, b) {
                        assert(candidate(map@, valid, start, b));
                    }
                }
            },
        }
    }
    best
}

/// The cell that a route to `goal` really makes for: the goal itself where
/// its terrain can be stood on, else its stand-in; nothing where the goal is
/// no cell of the map or has no stand-in.
pub open spec fn spec_target(
    map: Seq<Vec<Tile>>,
    valid: Seq<Tile>,
    start: Coord,
    goal: Coord,
) -> Option<Coord> {
    if !is_cell(map, goal) {
        None
    } else if terrain_ok(map, valid, goal) {
        Some(goal)
    } else {
        spec_nearest_reachable(map, valid, start, goal)
    }
}

/// A route from `(start_r, start_c)` to `(end_r, end_c)` for a creature that
/// can cross the tiles in `passable_tiles`, around whoever stands in the way;
/// the goal itself may be occupied. Where the goal's terrain cannot be
/// crossed, the route leads to its stand-in. The answer is empty exactly
/// when the start or the goal is no cell of the map, the goal has no
/// stand-in, or no route exists. No route comes to the same cell twice.
pub fn find_path(
    state: &GameState,
    start_r: usize,
    start_c: usize,
    end_r: usize,
    end_c: usize,
    passable_tiles: &Vec<Tile>,
    ships: &ShipsTable,
) -> (path: Vec<Coord>)
    ensures
        match spec_target(state.map@, passable_tiles@, (start_r, start_c), (end_r, end_c)) {
            None => path@.len() == 0,
            Some(t) => {
                &&& path@.len() > 0 ==> is_route(*state, *ships, passable_tiles@, t, path@)
                    && path@[0] == (start_r, start_c) && path@.last() == t
                &&& path@.len() == 0 <==> !(is_cell(state.map@, (start_r, start_c)) && reachable(
                    *state,
                    *ships,
                    passable_tiles@,
                    (start_r, start_c),
                    t,
                ))
            },
        },
        (start_r, start_c) == (end_r, end_c) && terrain_ok(
            state.map@,
            passable_tiles@,
            (end_r, end_c),
        ) ==> path@ == seq![(start_r, start_c)],
        path@.no_duplicates(),
{
    if !(end_r < state.map.len() && end_c < state.map[end_r].len()) {
        return Vec::new();
    }
    let mut goal_r: usize = end_r;
    let mut goal_c: usize = end_c;
    if !passable_by_me(&state.map[end_r][end_c], passable_tiles) {
        match find_nearest_reachable(&state.map, start_r, start_c, end_r, end_c, passable_tiles) {
            None => {
                return Vec::new();
            },
            Some(res) => {
                goal_r = res.0;
                goal_c = res.1;
            },
        }
    }
    let path = astar(state, start_r, start_c, goal_r, goal_c, passable_tiles, ships);
    proof {
        if (start_r, start_c) == (end_r, end_c) && terrain_ok(
            state.map@,
            passable_tiles@,
            (end_r, end_c),
        ) {
            let one = seq![(start_r, start_c)];
            assert(is_route(*state, *ships, passable_tiles@, (end_r, end_c), one));
            assert(one[0] == (start_r, start_c) && one.last() == (end_r, end_c));
        }
    }
    path
}

/// In a route, each cell and the next differ by at most one in each axis,
/// and are not the same cell.
pub proof fn lemma_route_steps(
    state: GameState,
    ships: ShipsTable,
    valid: Seq<Tile>,
    goal: Coord,
    path: Seq<Coord>,
    i: int,
)
    requires
        is_route(state, ships, valid, goal, path),
        0 <= i < path.len() - 1,
    ensures
        -1 <= path[i].0 - path[i + 1].0 <= 1,
        -1 <= path[i].1 - path[i + 1].1 <= 1,
        path[i] != path[i + 1],
{
    assert(adjacent(path[i], path[i + 1]));
}

/// Every cell of a route that starts on terrain the creature can cross is a
/// cell of the map with such terrain; and every cell after the first that is
/// not the goal is free of the player, of creatures and of vessels.
pub proof fn lemma_route_terrain(
    state: GameState,
    ships: ShipsTable,
    valid: Seq<Tile>,
    goal: Coord,
    path: Seq<Coord>,
    i: int,
)
    requires
        is_route(state, ships, valid, goal, path),
        terrain_ok(state.map@, valid, path[0]),
        0 <= i < path.len(),
    ensures
        terrain_ok(state.map@, valid, path[i]),
        i > 0 && path[i] != goal ==> spec_sq_is_open(state, ships, path[i]),
{
    if i > 0 {
        assert(enterable(state, ships, valid, goal, path[i - 1 + 1]));
    }
}

} // verus!
