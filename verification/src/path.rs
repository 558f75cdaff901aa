//! Grid reachability: a breadth-first search over the walkable cells of the
//! map, eight-connected, that answers "can a role starting here reach any of
//! these cells, and which step does it take first".

use vstd::prelude::*;
use crate::model::{Turn, Pos, cheb, spec_neighbours, neighbours, contains_pos};

verus! {

/// A cell a role may step onto: walkable land that nothing occupies.
pub open spec fn passable(turn: &Turn, blocked: Seq<Pos>, p: Pos) -> bool {
    turn.spec_is_land(p) && !blocked.contains(p)
}

/// A walk: consecutive cells one king-move apart, every cell after the first
/// passable.
pub open spec fn is_walk(turn: &Turn, blocked: Seq<Pos>, w: Seq<Pos>) -> bool {
    &&& w.len() >= 1
    &&& forall|i: int| 0 < i < w.len() ==> passable(turn, blocked, #[trigger] w[i]) && cheb(w[i - 1], w[i]) == 1
}

/// Some walk of at least one step leads from `from` to a stand other than
/// `from` itself.
pub open spec fn reaches(turn: &Turn, blocked: Seq<Pos>, from: Pos, stands: Seq<Pos>) -> bool {
    exists|w: Seq<Pos>|
        #![trigger is_walk(turn, blocked, w), w.last()]
        is_walk(turn, blocked, w) && w[0] == from && w.len() >= 2 && stands.contains(w.last())
            && w.last() != from
}

/// Some walk (possibly of no steps) leads from `s` to a stand other than
/// `avoid`.
pub open spec fn leads_to(turn: &Turn, blocked: Seq<Pos>, s: Pos, stands: Seq<Pos>, avoid: Pos) -> bool {
    exists|w: Seq<Pos>|
        #![trigger is_walk(turn, blocked, w), w.last()]
        is_walk(turn, blocked, w) && w[0] == s && stands.contains(w.last()) && w.last() != avoid
}

pub open spec fn cell_index(turn: &Turn, p: Pos) -> int {
    p.y * turn.width + p.x
}

pub open spec fn in_grid(turn: &Turn, p: Pos) -> bool {
    0 <= p.x < turn.width && 0 <= p.y < turn.height
}

proof fn lemma_index_injective(turn: &Turn, a: Pos, b: Pos)
    requires
        in_grid(turn, a),
        in_grid(turn, b),
        cell_index(turn, a) == cell_index(turn, b),
    ensures
        a == b,
{
    assert(a.y == b.y) by (nonlinear_arith)
        requires
            0 <= a.x < turn.width,
            0 <= b.x < turn.width,
            a.y * turn.width + a.x == b.y * turn.width + b.x,
    {
        if a.y < b.y {
            assert(a.y * turn.width + turn.width <= b.y * turn.width);
        } else if a.y > b.y {
            assert(b.y * turn.width + turn.width <= a.y * turn.width);
        }
    }
}

proof fn lemma_index_range(turn: &Turn, p: Pos)
    requires
        in_grid(turn, p),
        turn.width >= 1,
    ensures
        0 <= cell_index(turn, p) < turn.width * turn.height,
{
    assert(0 <= p.y * turn.width + p.x < turn.width * turn.height) by (nonlinear_arith)
        requires
            0 <= p.x < turn.width,
            0 <= p.y < turn.height,
    {
        assert(p.y * turn.width + turn.width <= turn.height * turn.width);
    }
}

/// The BFS bookkeeping, for the invariant.
pub open spec fn bfs_inv(
    turn: &Turn,
    blocked: Seq<Pos>,
    start: Pos,
    stands: Seq<Pos>,
    visited: Seq<bool>,
    first: Seq<Pos>,
    queue: Seq<Pos>,
    head: int,
) -> bool {
    &&& visited.len() == turn.width * turn.height
    &&& first.len() == visited.len()
    &&& 0 <= head <= queue.len()
    &&& queue.len() > 0 && queue[0] == start
    &&& in_grid(turn, start)
    &&& visited[cell_index(turn, start)]
    &&& queue_distinct(queue)
    // the queue holds visited cells of the grid
    &&& forall|j: int| 0 <= j < queue.len() ==> in_grid(turn, #[trigger] queue[j])
    &&& forall|j: int| 0 <= j < queue.len() ==> visited[cell_index(turn, #[trigger] queue[j])]
    // every visited cell is in the queue
    &&& forall|p: Pos| in_grid(turn, p) && #[trigger] visited[cell_index(turn, p)] ==> exists|j: int| 0 <= j < queue.len() && queue[j] == p
    // no visited cell other than the start is a stand
    &&& forall|p: Pos| in_grid(turn, p) && #[trigger] visited[cell_index(turn, p)] && p != start ==> !stands.contains(p)
    // a visited cell other than the start is passable and reached through its first step
    &&& forall|p: Pos| in_grid(turn, p) && #[trigger] visited[cell_index(turn, p)] && p != start ==>
        passable(turn, blocked, p)
        && cheb(start, first[cell_index(turn, p)]) == 1
        && passable(turn, blocked, first[cell_index(turn, p)])
        && exists|w: Seq<Pos>| #![trigger is_walk(turn, blocked, w), w.last()]
            is_walk(turn, blocked, w) && w[0] == first[cell_index(turn, p)] && w.last() == p
    // processed cells have every passable neighbour visited
    &&& forall|j: int, q: Pos| 0 <= j < head && passable(turn, blocked, q) && cheb(#[trigger] queue[j], q) == 1
        ==> #[trigger] visited[cell_index(turn, q)]
}

/// Every cell of a walk from the start stays inside a visited set that is
/// closed under passable neighbours.
proof fn lemma_closed_walk(
    turn: &Turn,
    blocked: Seq<Pos>,
    start: Pos,
    stands: Seq<Pos>,
    visited: Seq<bool>,
    first: Seq<Pos>,
    queue: Seq<Pos>,
    w: Seq<Pos>,
    k: int,
)
    requires
        bfs_inv(turn, blocked, start, stands, visited, first, queue, queue.len() as int),
        is_walk(turn, blocked, w),
        w[0] == start,
        0 <= k < w.len(),
    ensures
        in_grid(turn, w[k]),
        visited[cell_index(turn, w[k])],
    decreases k,
{
    if k > 0 {
        lemma_closed_walk(turn, blocked, start, stands, visited, first, queue, w, k - 1);
        let prev = w[k - 1];
        let j = choose|j: int| 0 <= j < queue.len() && queue[j] == prev;
        assert(passable(turn, blocked, w[k]) && cheb(w[k - 1], w[k]) == 1);
        assert(cheb(queue[j], w[k]) == 1);
    }
}

/// The first step toward the nearest of `stands`, or `None` when no stand
/// other than `start` can be reached. `start` itself must be inside the map.
pub fn step_toward_stands(turn: &Turn, start: Pos, stands: &[Pos], blocked: &[Pos]) -> (r: Option<Pos>)
    requires
        turn.wf(),
    ensures
        match r {
            Some(s) => cheb(start, s) == 1 && passable(turn, blocked@, s)
                && leads_to(turn, blocked@, s, stands@, start),
            None => in_grid(turn, start) ==> !reaches(turn, blocked@, start, stands@),
        },
        r is Some ==> in_grid(turn, start),
{
    if start.x < 0 || start.x >= turn.width || start.y < 0 || start.y >= turn.height {
        return None;
    }
    let w = turn.width as usize;
    let h = turn.height as usize;
    assert(w * h <= 1_000_000) by (nonlinear_arith)
        requires
            w <= 1000,
            h <= 1000,
    ;
    let total: usize = w * h;
    let mut visited: Vec<bool> = Vec::new();
    let mut first: Vec<Pos> = Vec::new();
    let mut k: usize = 0;
    while k < total
        invariant
            k <= total,
            visited@.len() == k,
            first@.len() == k,
            forall|i: int| 0 <= i < k ==> !visited@[i],
        decreases total - k,
    {
        visited.push(false);
        first.push(start);
        k += 1;
    }
    proof {
        lemma_index_range(turn, start);
    }
    let si = (start.y as usize) * w + (start.x as usize);
    visited.set(si, true);
    let mut queue: Vec<Pos> = vec![start];
    let mut head: usize = 0;
    proof {
        assert forall|p: Pos| in_grid(turn, p) && #[trigger] visited@[cell_index(turn, p)] implies exists|j: int| 0 <= j < queue@.len() && queue@[j] == p by {
            lemma_index_range(turn, p);
            if p != start {
                lemma_index_injective(turn, p, start);
            }
            assert(queue@[0] == p);
        }
        assert forall|p: Pos| in_grid(turn, p) && #[trigger] visited@[cell_index(turn, p)] && p != start implies !stands@.contains(p) by {
            lemma_index_range(turn, p);
            lemma_index_injective(turn, p, start);
        }
    }
    while head < queue.len()
        invariant
            turn.wf(),
            w == turn.width,
            h == turn.height,
            total == w * h,
            total <= 1_000_000,
            bfs_inv(turn, blocked@, start, stands@, visited@, first@, queue@, head as int),
            queue@.len() <= total,
        decreases total - head, total - queue@.len(),
    {
        let c = queue[head];
        proof {
            lemma_index_range(turn, c);
        }
        let ci = (c.y as usize) * w + (c.x as usize);
        let nbs = neighbours(c);
        let mut t: usize = 0;
        while t < 8
            invariant
                turn.wf(),
                w == turn.width,
                h == turn.height,
                total == w * h,
                total <= 1_000_000,
                t <= 8,
                nbs@ == spec_neighbours(c),
                c == queue@[head as int],
                ci == cell_index(turn, c),
                0 <= ci < total,
                head < queue@.len(),
                queue@.len() <= total,
                bfs_inv(turn, blocked@, start, stands@, visited@, first@, queue@, head as int),
                forall|u: int| 0 <= u < t && passable(turn, blocked@, #[trigger] nbs@[u]) ==> visited@[cell_index(turn, nbs@[u])],
            decreases 8 - t,
        {
            let nb = nbs[t];
            proof {
                assert(cheb(c, nb) == 1);
            }
            if turn.is_land(nb) && !contains_pos(blocked, nb) {
                proof {
                    lemma_index_range(turn, nb);
                }
                let ni = (nb.y as usize) * w + (nb.x as usize);
                if !visited[ni] {
                    let step = if c == start { nb } else { first[ci] };
                    let ghost wn: Seq<Pos> = extend_walk(turn, blocked@, start, stands@, visited@, first@, queue@, head as int, nb);
                    if contains_pos(stands, nb) && nb != start {
                        proof {
                            assert(leads_to(turn, blocked@, step, stands@, start)) by {
                                assert(is_walk(turn, blocked@, wn) && wn[0] == step && stands@.contains(wn.last()) && wn.last() != start);
                            }
                        }
                        return Some(step);
                    }
                    let ghost old_visited = visited@;
                    let ghost old_first = first@;
                    let ghost old_queue = queue@;
                    proof {
                        lemma_queue_bound(turn, old_visited, old_queue, nb);
                    }
                    visited.set(ni, true);
                    first.set(ni, step);
                    queue.push(nb);
                    proof {
                        lemma_visit_preserves(turn, blocked@, start, stands@, old_visited, old_first, old_queue,
                            head as int, nb, step, wn, visited@, first@, queue@);
                        assert forall|u: int| 0 <= u < t + 1 && passable(turn, blocked@, #[trigger] nbs@[u]) implies visited@[cell_index(turn, nbs@[u])] by {
                            if u < t {
                                assert(old_visited[cell_index(turn, nbs@[u])]);
                                lemma_index_range(turn, nbs@[u]);
                            }
                        }
                    }
                }
            }
            t += 1;
        }
        proof {
            let nq = queue@;
            assert forall|j: int, q: Pos| 0 <= j < head + 1 && passable(turn, blocked@, q) && cheb(#[trigger] nq[j], q) == 1
                implies #[trigger] visited@[cell_index(turn, q)] by {
                if j == head {
                    // q is one of the eight neighbours of c
                    assert(nq[j] == c);
                    lemma_neighbour_listed(c, q);
                    let u = choose|u: int| 0 <= u < 8 && nbs@[u] == q;
                    assert(passable(turn, blocked@, nbs@[u]));
                }
            }
        }
        head += 1;
    }
    proof {
        if reaches(turn, blocked@, start, stands@) {
            let wk = choose|w: Seq<Pos>| #![trigger is_walk(turn, blocked@, w), w.last()]
                is_walk(turn, blocked@, w) && w[0] == start && w.len() >= 2 && stands@.contains(w.last())
                    && w.last() != start;
            lemma_closed_walk(turn, blocked@, start, stands@, visited@, first@, queue@, wk, wk.len() - 1);
            assert(wk.last() == wk[wk.len() - 1]);
        }
    }
    None
}



/// The walk that reaches a freshly found neighbour `nb` of the cell being
/// expanded, starting at the first step the search will record for it.
proof fn extend_walk(
    turn: &Turn,
    blocked: Seq<Pos>,
    start: Pos,
    stands: Seq<Pos>,
    ov: Seq<bool>,
    of: Seq<Pos>,
    oq: Seq<Pos>,
    head: int,
    nb: Pos,
) -> (wn: Seq<Pos>)
    requires
        bfs_inv(turn, blocked, start, stands, ov, of, oq, head),
        0 <= head < oq.len(),
        passable(turn, blocked, nb),
        cheb(oq[head], nb) == 1,
    ensures
        is_walk(turn, blocked, wn),
        wn[0] == (if oq[head] == start { nb } else { of[cell_index(turn, oq[head])] }),
        wn.last() == nb,
        cheb(start, wn[0]) == 1,
        passable(turn, blocked, wn[0]),
{
    let c = oq[head];
    if c == start {
        seq![nb]
    } else {
        assert(in_grid(turn, c));
        assert(ov[cell_index(turn, c)]);
        let wc = choose|w: Seq<Pos>| #![trigger is_walk(turn, blocked, w), w.last()]
            is_walk(turn, blocked, w) && w[0] == of[cell_index(turn, c)] && w.last() == c;
        let wn = wc.push(nb);
        assert forall|i: int| 0 < i < wn.len() implies passable(turn, blocked, #[trigger] wn[i]) && cheb(wn[i - 1], wn[i]) == 1 by {
            if i < wn.len() - 1 {
                assert(wn[i] == wc[i]);
                assert(wn[i - 1] == wc[i - 1]);
            }
        }
        wn
    }
}

/// Visiting one fresh passable cell keeps the search's bookkeeping intact.
proof fn lemma_visit_preserves(
    turn: &Turn,
    blocked: Seq<Pos>,
    start: Pos,
    stands: Seq<Pos>,
    ov: Seq<bool>,
    of: Seq<Pos>,
    oq: Seq<Pos>,
    head: int,
    nb: Pos,
    step: Pos,
    wn: Seq<Pos>,
    nv: Seq<bool>,
    nf: Seq<Pos>,
    nq: Seq<Pos>,
)
    requires
        turn.width >= 1,
        bfs_inv(turn, blocked, start, stands, ov, of, oq, head),
        in_grid(turn, nb),
        passable(turn, blocked, nb),
        !ov[cell_index(turn, nb)],
        !stands.contains(nb) || nb == start,
        cheb(start, step) == 1,
        passable(turn, blocked, step),
        is_walk(turn, blocked, wn),
        wn[0] == step,
        wn.last() == nb,
        nv == ov.update(cell_index(turn, nb), true),
        nf == of.update(cell_index(turn, nb), step),
        nq == oq.push(nb),
    ensures
        bfs_inv(turn, blocked, start, stands, nv, nf, nq, head),
        forall|p: Pos| in_grid(turn, p) && ov[cell_index(turn, p)] ==> nv[cell_index(turn, p)],
{
    lemma_index_range(turn, nb);
    lemma_index_range(turn, start);
    assert(nb != start);
    assert forall|p: Pos| in_grid(turn, p) && ov[cell_index(turn, p)] implies nv[cell_index(turn, p)] by {
        lemma_index_range(turn, p);
    }
    assert forall|j: int| 0 <= j < nq.len() implies in_grid(turn, #[trigger] nq[j]) by {
        if j < oq.len() { assert(nq[j] == oq[j]); }
    }
    assert forall|j: int| 0 <= j < nq.len() implies nv[cell_index(turn, #[trigger] nq[j])] by {
        if j < oq.len() {
            assert(nq[j] == oq[j]);
            lemma_index_range(turn, nq[j]);
        }
    }
    assert forall|a: int, b: int| 0 <= a < nq.len() && 0 <= b < nq.len() && a != b implies nq[a] != nq[b] by {
        if a < oq.len() && b < oq.len() {
            assert(nq[a] == oq[a] && nq[b] == oq[b]);
        } else if a < oq.len() {
            assert(nq[a] == oq[a]);
            assert(ov[cell_index(turn, oq[a])]);
        } else {
            assert(nq[b] == oq[b]);
            assert(ov[cell_index(turn, oq[b])]);
        }
    }
    assert forall|p: Pos| in_grid(turn, p) && #[trigger] nv[cell_index(turn, p)] implies exists|j: int| 0 <= j < nq.len() && nq[j] == p by {
        lemma_index_range(turn, p);
        if p == nb {
            assert(nq[nq.len() - 1] == p);
        } else {
            if cell_index(turn, p) == cell_index(turn, nb) {
                lemma_index_injective(turn, p, nb);
            }
            assert(ov[cell_index(turn, p)]);
            let j = choose|j: int| 0 <= j < oq.len() && oq[j] == p;
            assert(nq[j] == p);
        }
    }
    assert forall|p: Pos| in_grid(turn, p) && #[trigger] nv[cell_index(turn, p)] && p != start implies !stands.contains(p) by {
        lemma_index_range(turn, p);
        if p != nb {
            if cell_index(turn, p) == cell_index(turn, nb) {
                lemma_index_injective(turn, p, nb);
            }
            assert(ov[cell_index(turn, p)]);
        }
    }
    assert forall|p: Pos| in_grid(turn, p) && #[trigger] nv[cell_index(turn, p)] && p != start implies
        passable(turn, blocked, p)
        && cheb(start, nf[cell_index(turn, p)]) == 1
        && passable(turn, blocked, nf[cell_index(turn, p)])
        && exists|w: Seq<Pos>| #![trigger is_walk(turn, blocked, w), w.last()]
            is_walk(turn, blocked, w) && w[0] == nf[cell_index(turn, p)] && w.last() == p by {
        lemma_index_range(turn, p);
        if p == nb {
            assert(nf[cell_index(turn, p)] == step);
            assert(is_walk(turn, blocked, wn) && wn[0] == nf[cell_index(turn, p)] && wn.last() == p);
        } else {
            if cell_index(turn, p) == cell_index(turn, nb) {
                lemma_index_injective(turn, p, nb);
            }
            assert(ov[cell_index(turn, p)]);
            assert(nf[cell_index(turn, p)] == of[cell_index(turn, p)]);
        }
    }
    assert forall|j: int, q: Pos| 0 <= j < head && passable(turn, blocked, q) && cheb(#[trigger] nq[j], q) == 1
        implies #[trigger] nv[cell_index(turn, q)] by {
        assert(nq[j] == oq[j]);
        assert(ov[cell_index(turn, q)]);
        lemma_index_range(turn, q);
    }
    assert(nq[0] == start);
}

/// A first step that leads to a stand makes the stand reachable from the
/// cell it was taken from.
pub proof fn lemma_step_reaches(turn: &Turn, blocked: Seq<Pos>, start: Pos, stands: Seq<Pos>, s: Pos)
    requires
        cheb(start, s) == 1,
        passable(turn, blocked, s),
        leads_to(turn, blocked, s, stands, start),
    ensures
        reaches(turn, blocked, start, stands),
{
    let w = choose|w: Seq<Pos>| #![trigger is_walk(turn, blocked, w), w.last()]
        is_walk(turn, blocked, w) && w[0] == s && stands.contains(w.last()) && w.last() != start;
    let w2 = seq![start] + w;
    assert forall|i: int| 0 < i < w2.len() implies passable(turn, blocked, #[trigger] w2[i]) && cheb(w2[i - 1], w2[i]) == 1 by {
        assert(w2[i] == w[i - 1]);
        if i > 1 { assert(w2[i - 1] == w[i - 2]); }
    }
    assert(is_walk(turn, blocked, w2));
    assert(w2.last() == w.last());
}

/// A cell one king-move from `c` is one of its eight listed neighbours.
pub proof fn lemma_neighbour_listed(c: Pos, q: Pos)
    requires
        cheb(c, q) == 1,
    ensures
        exists|u: int| 0 <= u < 8 && spec_neighbours(c)[u] == q,
{
    let n = spec_neighbours(c);
    if q.x == c.x - 1 {
        if q.y == c.y - 1 { assert(n[0] == q); } else if q.y == c.y { assert(n[1] == q); } else { assert(n[2] == q); }
    } else if q.x == c.x {
        if q.y == c.y - 1 { assert(n[3] == q); } else { assert(n[4] == q); }
    } else {
        if q.y == c.y - 1 { assert(n[5] == q); } else if q.y == c.y { assert(n[6] == q); } else { assert(n[7] == q); }
    }
}

/// The queue never outgrows the grid: it holds distinct visited cells, and a
/// fresh cell is not among them.
proof fn lemma_queue_bound(turn: &Turn, visited: Seq<bool>, queue: Seq<Pos>, fresh: Pos)
    requires
        turn.width >= 1,
        turn.height >= 1,
        visited.len() == turn.width * turn.height,
        forall|j: int| 0 <= j < queue.len() ==> in_grid(turn, #[trigger] queue[j]),
        forall|j: int| 0 <= j < queue.len() ==> visited[cell_index(turn, #[trigger] queue[j])],
        in_grid(turn, fresh),
        !visited[cell_index(turn, fresh)],
        queue_distinct(queue),
    ensures
        queue.len() < turn.width * turn.height,
{
    let f = |p: Pos| cell_index(turn, p);
    let idx = Set::new(|i: int| exists|j: int| 0 <= j < queue.len() && cell_index(turn, queue[j]) == i);
    let all = Set::new(|i: int| 0 <= i < turn.width * turn.height);
    lemma_index_range(turn, fresh);
    assert(idx.subset_of(all.remove(cell_index(turn, fresh)))) by {
        assert forall|i: int| #[trigger] idx.contains(i) implies all.remove(cell_index(turn, fresh)).contains(i) by {
            let j = choose|j: int| 0 <= j < queue.len() && cell_index(turn, queue[j]) == i;
            lemma_index_range(turn, queue[j]);
        }
    }
    vstd::set_lib::lemma_int_range(0, turn.width * turn.height);
    assert(all =~= vstd::set_lib::set_int_range(0, turn.width * turn.height));
    vstd::set_lib::lemma_len_subset(idx, all.remove(cell_index(turn, fresh)));
    lemma_distinct_image(turn, queue);
}

pub open spec fn queue_distinct(q: Seq<Pos>) -> bool {
    forall|a: int, b: int| 0 <= a < q.len() && 0 <= b < q.len() && a != b ==> q[a] != q[b]
}

proof fn lemma_distinct_image(turn: &Turn, queue: Seq<Pos>)
    requires
        forall|j: int| 0 <= j < queue.len() ==> in_grid(turn, #[trigger] queue[j]),
        queue_distinct(queue),
    ensures
        Set::new(|i: int| exists|j: int| 0 <= j < queue.len() && cell_index(turn, queue[j]) == i).finite(),
        Set::new(|i: int| exists|j: int| 0 <= j < queue.len() && cell_index(turn, queue[j]) == i).len() == queue.len(),
    decreases queue.len(),
{
    let s = Set::new(|i: int| exists|j: int| 0 <= j < queue.len() && cell_index(turn, queue[j]) == i);
    if queue.len() == 0 {
        assert(s =~= Set::empty());
    } else {
        let d = queue.drop_last();
        lemma_distinct_image(turn, d);
        let sd = Set::new(|i: int| exists|j: int| 0 <= j < d.len() && cell_index(turn, d[j]) == i);
        let last = cell_index(turn, queue.last());
        assert(s =~= sd.insert(last)) by {
            assert forall|i: int| s.contains(i) implies sd.insert(last).contains(i) by {
                let j = choose|j: int| 0 <= j < queue.len() && cell_index(turn, queue[j]) == i;
                if j < queue.len() - 1 {
                    assert(d[j] == queue[j]);
                }
            }
            assert forall|i: int| sd.insert(last).contains(i) implies s.contains(i) by {
                if i != last {
                    let j = choose|j: int| 0 <= j < d.len() && cell_index(turn, d[j]) == i;
                    assert(queue[j] == d[j]);
                } else {
                    assert(cell_index(turn, queue[queue.len() - 1]) == i);
                }
            }
        }
        assert(!sd.contains(last)) by {
            if sd.contains(last) {
                let j = choose|j: int| 0 <= j < d.len() && cell_index(turn, d[j]) == last;
                assert(d[j] == queue[j]);
                lemma_index_injective(turn, queue[j], queue.last());
                assert(queue[j] == queue[queue.len() - 1]);
            }
        }
    }
}

} // verus!
