use crate::bitplane::{cell_index, count_true, in_grid, BitMatrix};
use crate::color::PixelColor;
use crate::drawing::{lemma_cell_coords, pixel_at, view_wf, CanvasView, DrawingPixelCanvas};
use crate::raster::abs;
use std::collections::VecDeque;
use vstd::prelude::*;

verus! {

/// The coordinates of cell index `i` in a grid `width` wide.
pub open spec fn coords(width: nat, i: int) -> (int, int) {
    (i % (width as int), i / (width as int))
}

/// `p` and `q` are 4-connected neighbours.
pub open spec fn adjacent(p: (int, int), q: (int, int)) -> bool {
    abs(p.0 - q.0) + abs(p.1 - q.1) == 1
}

/// `path` is a non-empty walk through 4-connected cells of the grid of
/// `r`, each of colour `target` in `r`.
pub open spec fn fill_path(r: CanvasView, target: PixelColor, path: Seq<(int, int)>) -> bool {
    &&& path.len() > 0
    &&& forall|k: int|
        0 <= k < path.len() ==> in_grid(r.width, r.height, #[trigger] path[k].0, path[k].1)
            && pixel_at(r, path[k].0, path[k].1) == target
    &&& forall|k: int| 0 <= k < path.len() - 1 ==> adjacent(#[trigger] path[k], path[k + 1])
}

/// `p` lies in the region of `r` that is 4-connected to `(sx, sy)` through
/// cells of the seed's colour.
pub open spec fn in_region(r: CanvasView, sx: int, sy: int, p: (int, int)) -> bool {
    exists|path: Seq<(int, int)>|
        #[trigger] fill_path(r, pixel_at(r, sx, sy), path) && path[0] == (sx, sy) && path.last()
            == p
}

/// The result of a bucket fill of `v` from `(sx, sy)` with colour `c`, the
/// region being decided by `r`: nothing changes when the seed lies outside
/// the grid or already has colour `c` in `r`; otherwise every cell of the
/// region becomes `c` and every other cell keeps its colour.
pub open spec fn filled(v: CanvasView, r: CanvasView, sx: int, sy: int, c: PixelColor) -> CanvasView {
    if !in_grid(v.width, v.height, sx, sy) || pixel_at(r, sx, sy) == c {
        v
    } else {
        CanvasView {
            cells: Seq::new(
                v.cells.len(),
                |i: int|
                    if in_region(r, sx, sy, coords(v.width, i)) {
                        c
                    } else {
                        v.cells[i]
                    },
            ),
            ..v
        }
    }
}

/// A fill changes only cells of the seed's region, and when the seed lies
/// in the grid and differs from the new colour, it paints every cell of
/// that region.
pub proof fn lemma_fill_region(v: CanvasView, r: CanvasView, sx: int, sy: int, c: PixelColor, i: int)
    requires
        0 <= i < v.cells.len(),
    ensures
        filled(v, r, sx, sy, c).cells[i] != v.cells[i] ==> in_region(r, sx, sy, coords(v.width, i)),
        in_grid(v.width, v.height, sx, sy) && pixel_at(r, sx, sy) != c && in_region(
            r,
            sx,
            sy,
            coords(v.width, i),
        ) ==> filled(v, r, sx, sy, c).cells[i] == c,
{
}

/// The coordinates of the index of an in-grid cell are that cell.
pub proof fn lemma_coords_of_index(width: nat, height: nat, x: int, y: int)
    requires
        in_grid(width, height, x, y),
    ensures
        coords(width, cell_index(width, x, y)) == (x, y),
{
    assert(y * width + x == y * (width as int) + x);
    vstd::arithmetic::div_mod::lemma_fundamental_div_mod_converse(
        cell_index(width, x, y),
        width as int,
        y,
        x,
    );
}

/// The seed is in its own region.
pub proof fn lemma_region_seed(r: CanvasView, sx: int, sy: int)
    requires
        in_grid(r.width, r.height, sx, sy),
    ensures
        in_region(r, sx, sy, (sx, sy)),
{
    let path = seq![(sx, sy)];
    assert(fill_path(r, pixel_at(r, sx, sy), path));
}

/// A cell of the seed's colour next to the region is in the region.
pub proof fn lemma_region_extend(r: CanvasView, sx: int, sy: int, n: (int, int), p: (int, int))
    requires
        in_region(r, sx, sy, n),
        adjacent(n, p),
        in_grid(r.width, r.height, p.0, p.1),
        pixel_at(r, p.0, p.1) == pixel_at(r, sx, sy),
    ensures
        in_region(r, sx, sy, p),
{
    let path = choose|path: Seq<(int, int)>|
        #[trigger] fill_path(r, pixel_at(r, sx, sy), path) && path[0] == (sx, sy) && path.last()
            == n;
    let ext = path.push(p);
    assert forall|k: int| 0 <= k < ext.len() - 1 implies adjacent(#[trigger] ext[k], ext[k + 1]) by {
        if k < path.len() - 1 {
            assert(ext[k] == path[k] && ext[k + 1] == path[k + 1]);
        }
    }
    assert forall|k: int| 0 <= k < ext.len() implies in_grid(
        r.width,
        r.height,
        #[trigger] ext[k].0,
        ext[k].1,
    ) && pixel_at(r, ext[k].0, ext[k].1) == pixel_at(r, sx, sy) by {
        if k < path.len() {
            assert(ext[k] == path[k]);
        }
    }
    assert(fill_path(r, pixel_at(r, sx, sy), ext));
}

proof fn lemma_count_le(s: Seq<bool>)
    ensures
        count_true(s) <= s.len(),
    decreases s.len(),
{
    if s.len() > 0 {
        lemma_count_le(s.drop_last());
    }
}

proof fn lemma_count_set(s: Seq<bool>, i: int)
    requires
        0 <= i < s.len(),
        !s[i],
    ensures
        count_true(s.update(i, true)) == count_true(s) + 1,
    decreases s.len(),
{
    let t = s.update(i, true);
    if i == s.len() - 1 {
        assert(t.drop_last() =~= s.drop_last());
    } else {
        assert(t.drop_last() =~= s.drop_last().update(i, true));
        lemma_count_set(s.drop_last(), i);
    }
}

/// Cell `i` was reached from the seed: it is the seed, or it is next to a
/// cell of the region.
pub open spec fn reached(r: CanvasView, sx: int, sy: int, i: int) -> bool {
    coords(r.width, i) == (sx, sy) || exists|n: (int, int)|
        in_grid(r.width, r.height, n.0, n.1) && adjacent(n, coords(r.width, i))
            && #[trigger] in_region(r, sx, sy, n)
}

/// Every in-grid neighbour of cell `i` is marked.
pub open spec fn neighbours_marked(vis: Seq<bool>, width: nat, height: nat, i: int) -> bool {
    forall|n: (int, int)|
        in_grid(width, height, n.0, n.1) && #[trigger] adjacent(n, coords(width, i)) ==> vis[cell_index(
            width,
            n.0,
            n.1,
        )]
}

/// `i` is the index of some queued cell.
pub open spec fn queued(queue: Seq<(usize, usize)>, width: nat, i: int) -> bool {
    exists|k: int|
        0 <= k < queue.len() && cell_index(width, #[trigger] queue[k].0 as int, queue[k].1 as int)
            == i
}

#[verifier::opaque]
/// What holds of the search between steps: `vis` marks the cells that were
/// queued at some time, `done` those taken off the queue (all but `current`
/// with their neighbours marked), and `taken` counts the removals.
pub open spec fn search_inv(
    vis: Seq<bool>,
    queue: Seq<(usize, usize)>,
    done: Set<int>,
    taken: nat,
    current: int,
    r: CanvasView,
    sx: int,
    sy: int,
) -> bool {
    let w = r.width;
    let h = r.height;
    &&& vis.len() == w * h
    &&& in_grid(w, h, sx, sy)
    &&& vis[cell_index(w, sx, sy)]
    &&& forall|k: int|
        0 <= k < queue.len() ==> in_grid(w, h, #[trigger] queue[k].0 as int, queue[k].1 as int)
            && vis[cell_index(w, queue[k].0 as int, queue[k].1 as int)]
    &&& forall|i: int| 0 <= i < w * h && #[trigger] vis[i] ==> reached(r, sx, sy, i)
    &&& forall|i: int| #[trigger] done.contains(i) ==> 0 <= i < w * h && vis[i]
    &&& forall|i: int|
        0 <= i < w * h && #[trigger] vis[i] ==> done.contains(i) || queued(queue, w, i)
    &&& forall|i: int|
        #[trigger] done.contains(i) && i != current && r.cells[i] == pixel_at(r, sx, sy)
            ==> neighbours_marked(vis, w, h, i)
    &&& count_true(vis) == taken + queue.len()
}

/// Marks and queues `(nx, ny)` when it lies inside the grid and is not yet
/// marked.
fn enqueue(
    visited: &mut BitMatrix,
    queue: &mut VecDeque<(usize, usize)>,
    nx: usize,
    ny: usize,
    Ghost(r): Ghost<CanvasView>,
    Ghost(sx): Ghost<int>,
    Ghost(sy): Ghost<int>,
    Ghost(done): Ghost<Set<int>>,
    Ghost(taken): Ghost<nat>,
    Ghost(current): Ghost<int>,
)
    requires
        old(visited).wf(),
        old(visited)@.width == r.width,
        old(visited)@.height == r.height,
        view_wf(r),
        search_inv(old(visited)@.bits, old(queue)@, done, taken, current, r, sx, sy),
        0 <= current < r.width * r.height,
        in_region(r, sx, sy, coords(r.width, current)),
        adjacent((nx as int, ny as int), coords(r.width, current)),
    ensures
        final(visited).wf(),
        final(visited)@.width == r.width,
        final(visited)@.height == r.height,
        search_inv(final(visited)@.bits, final(queue)@, done, taken, current, r, sx, sy),
        final(queue)@.len() >= old(queue)@.len(),
        forall|i: int|
            0 <= i < r.width * r.height && #[trigger] old(visited)@.bits[i]
                ==> final(visited)@.bits[i],
        in_grid(r.width, r.height, nx as int, ny as int) ==> final(visited)@.bits[cell_index(
            r.width,
            nx as int,
            ny as int,
        )],
{
    reveal(search_inv);
    let (w, h) = visited.dimensions();
    proof {
        if in_grid(r.width, r.height, nx as int, ny as int) {
            crate::bitplane::lemma_index_in_grid(r.width, r.height, nx as int, ny as int);
        }
    }
    if nx < w && ny < h {
        let seen = match visited.get(nx, ny) {
            Some(v) => v,
            None => true,
        };
        if !seen {
            let ghost vis0 = visited@.bits;
            let ghost q0 = queue@;
            let ghost ni = cell_index(r.width, nx as int, ny as int);
            proof {
                crate::bitplane::lemma_index_in_grid(r.width, r.height, nx as int, ny as int);
                lemma_count_set(vis0, ni);
            }
            let _ = visited.set(nx, ny, true);
            queue.push_back((nx, ny));
            proof {
                let vis = visited@.bits;
                let q = queue@;
                assert(vis == vis0.update(ni, true));
                assert(count_true(vis) == taken + q.len());
                crate::bitplane::lemma_index_in_grid(r.width, r.height, sx, sy);
                assert(vis[cell_index(r.width, sx, sy)]);
                assert forall|i: int| #[trigger] done.contains(i) implies 0 <= i < w * h && vis[i] by {
                    assert(vis0[i]);
                }
                assert(q.last() == (nx, ny));
                assert forall|k: int| 0 <= k < q.len() implies in_grid(
                    w as nat,
                    h as nat,
                    #[trigger] q[k].0 as int,
                    q[k].1 as int,
                ) && vis[cell_index(w as nat, q[k].0 as int, q[k].1 as int)] by {
                    if k < q0.len() {
                        assert(q[k] == q0[k]);
                    }
                    crate::bitplane::lemma_index_in_grid(r.width, r.height, q[k].0 as int, q[k].1 as int);
                }
                assert forall|i: int| 0 <= i < w * h && #[trigger] vis[i] implies reached(
                    r,
                    sx,
                    sy,
                    i,
                ) by {
                    if i == ni {
                        lemma_cell_coords(r.width, r.height, i);
                        let c = coords(r.width, current);
                        lemma_cell_coords(r.width, r.height, current);
                        lemma_coords_of_index(r.width, r.height, nx as int, ny as int);
                        assert(adjacent(c, coords(r.width, i)));
                    } else {
                        assert(vis0[i]);
                    }
                }
                assert forall|i: int| 0 <= i < w * h && #[trigger] vis[i] implies done.contains(i)
                    || queued(q, w as nat, i) by {
                    if i == ni {
                        assert(cell_index(w as nat, q[q.len() - 1].0 as int, q[q.len() - 1].1 as int) == i);
                    } else {
                        assert(vis0[i]);
                        if !done.contains(i) {
                            let k = choose|k: int|
                                0 <= k < q0.len() && cell_index(
                                    w as nat,
                                    #[trigger] q0[k].0 as int,
                                    q0[k].1 as int,
                                ) == i;
                            assert(q[k] == q0[k]);
                        }
                    }
                }
                assert forall|i: int|
                    #[trigger] done.contains(i) && i != current && r.cells[i] == pixel_at(r, sx, sy)
                        implies neighbours_marked(vis, w as nat, h as nat, i) by {
                    assert(neighbours_marked(vis0, w as nat, h as nat, i));
                    assert forall|n: (int, int)|
                        in_grid(w as nat, h as nat, n.0, n.1) && #[trigger] adjacent(
                            n,
                            coords(w as nat, i),
                        ) implies vis[cell_index(w as nat, n.0, n.1)] by {
                        crate::bitplane::lemma_index_in_grid(r.width, r.height, n.0, n.1);
                        assert(vis0[cell_index(w as nat, n.0, n.1)]);
                    }
                }
            }
        }
    }
}

/// Every cell of a path from the seed is done, once the queue is empty.
proof fn lemma_path_done(
    vis: Seq<bool>,
    done: Set<int>,
    taken: nat,
    r: CanvasView,
    sx: int,
    sy: int,
    path: Seq<(int, int)>,
    k: int,
)
    requires
        view_wf(r),
        search_inv(vis, Seq::empty(), done, taken, -1, r, sx, sy),
        fill_path(r, pixel_at(r, sx, sy), path),
        path[0] == (sx, sy),
        0 <= k < path.len(),
    ensures
        done.contains(cell_index(r.width, path[k].0, path[k].1)),
    decreases k,
{
    reveal(search_inv);
    let w = r.width;
    let h = r.height;
    let e: Seq<(usize, usize)> = Seq::empty();
    let i = cell_index(w, path[k].0, path[k].1);
    assert(in_grid(w, h, path[k].0, path[k].1));
    crate::bitplane::lemma_index_in_grid(w, h, path[k].0, path[k].1);
    if k == 0 {
        assert(vis[i]);
        assert(!queued(e, w, i));
    } else {
        lemma_path_done(vis, done, taken, r, sx, sy, path, k - 1);
        let prev = path[k - 1];
        let pi = cell_index(w, prev.0, prev.1);
        assert(in_grid(w, h, prev.0, prev.1));
        crate::bitplane::lemma_index_in_grid(w, h, prev.0, prev.1);
        lemma_coords_of_index(w, h, prev.0, prev.1);
        assert(pixel_at(r, prev.0, prev.1) == pixel_at(r, sx, sy));
        assert(r.cells[pi] == pixel_at(r, sx, sy));
        assert(neighbours_marked(vis, w, h, pi));
        assert(adjacent(path[k - 1], path[k]));
        assert(adjacent(path[k], coords(w, pi)));
        assert(vis[i]);
        assert(!queued(e, w, i));
    }
}

/// A finished search has done exactly the cells of the region, among those
/// of the seed's colour.
proof fn lemma_search_result(
    vis: Seq<bool>,
    done: Set<int>,
    taken: nat,
    r: CanvasView,
    sx: int,
    sy: int,
    i: int,
)
    requires
        view_wf(r),
        search_inv(vis, Seq::empty(), done, taken, -1, r, sx, sy),
        0 <= i < r.width * r.height,
    ensures
        (done.contains(i) && r.cells[i] == pixel_at(r, sx, sy)) == in_region(
            r,
            sx,
            sy,
            coords(r.width, i),
        ),
{
    reveal(search_inv);
    let w = r.width;
    let h = r.height;
    let p = coords(w, i);
    lemma_cell_coords(w, h, i);
    assert(pixel_at(r, p.0, p.1) == r.cells[i]);
    if done.contains(i) && r.cells[i] == pixel_at(r, sx, sy) {
        assert(vis[i]);
        assert(reached(r, sx, sy, i));
        if p == (sx, sy) {
            lemma_region_seed(r, sx, sy);
        } else {
            let n = choose|n: (int, int)|
                in_grid(w, h, n.0, n.1) && adjacent(n, coords(w, i)) && #[trigger] in_region(
                    r,
                    sx,
                    sy,
                    n,
                );
            lemma_region_extend(r, sx, sy, n, p);
        }
    }
    if in_region(r, sx, sy, p) {
        let path = choose|path: Seq<(int, int)>|
            #[trigger] fill_path(r, pixel_at(r, sx, sy), path) && path[0] == (sx, sy)
                && path.last() == p;
        lemma_path_done(vis, done, taken, r, sx, sy, path, path.len() - 1);
        assert(path[path.len() - 1] == p);
    }
}

impl DrawingPixelCanvas {
    /// Fills the region around `(start_x, start_y)` with `new_color`. The
    /// region is the set of cells 4-connected to the seed through cells of
    /// the seed's colour, read from `reference_canvas` throughout, so that
    /// painting never changes which cells belong to it.
    #[verifier::rlimit(50)]
    pub fn bucket_fill(
        &mut self,
        start_x: usize,
        start_y: usize,
        new_color: PixelColor,
        reference_canvas: &DrawingPixelCanvas,
    )
        requires
            old(self).wf(),
            reference_canvas.wf(),
            reference_canvas@.width == old(self)@.width,
            reference_canvas@.height == old(self)@.height,
        ensures
            final(self).wf(),
            final(self)@ == filled(
                old(self)@,
                reference_canvas@,
                start_x as int,
                start_y as int,
                new_color,
            ),
    {
        let ghost pre = self@;
        let ghost r = reference_canvas@;
        let ghost sx = start_x as int;
        let ghost sy = start_y as int;
        let (w, h) = self.dimension();
        if start_x >= w || start_y >= h {
            return;
        }
        let target_color = reference_canvas.get_pixel(start_x, start_y);
        if target_color == new_color {
            return;
        }
        let mut visited = BitMatrix::new(w, h, false);
        let mut queue: VecDeque<(usize, usize)> = VecDeque::new();
        queue.push_back((start_x, start_y));
        let ghost vis0 = visited@.bits;
        let _ = visited.set(start_x, start_y, true);
        let ghost mut done: Set<int> = Set::empty();
        let ghost mut taken: nat = 0;
        proof {
            reveal(search_inv);
            let si = cell_index(r.width, sx, sy);
            crate::bitplane::lemma_index_in_grid(r.width, r.height, sx, sy);
            lemma_coords_of_index(r.width, r.height, sx, sy);
            let vis = visited@.bits;
            assert(vis =~= vis0.update(si, true));
            lemma_count_set(vis0, si);
            assert(count_true(vis0) == 0) by {
                lemma_count_zero(vis0);
            }
            assert forall|i: int| 0 <= i < w * h && #[trigger] vis[i] implies reached(
                r,
                sx,
                sy,
                i,
            ) by {
                assert(i == si);
            }
            assert forall|i: int| 0 <= i < w * h && #[trigger] vis[i] implies done.contains(i)
                || queued(queue@, w as nat, i) by {
                assert(i == si);
                assert(queue@[0] == (start_x, start_y));
                assert(cell_index(w as nat, queue@[0].0 as int, queue@[0].1 as int) == i);
            }
            assert forall|k: int| 0 <= k < queue@.len() implies in_grid(
                w as nat,
                h as nat,
                #[trigger] queue@[k].0 as int,
                queue@[k].1 as int,
            ) && vis[cell_index(w as nat, queue@[k].0 as int, queue@[k].1 as int)] by {
                assert(k == 0);
            }
            assert(self@.cells =~= pre.cells);
        }
        loop
            invariant_except_break
                self.wf(),
                self@.width == pre.width,
                self@.height == pre.height,
                w == pre.width,
                h == pre.height,
                view_wf(pre),
                reference_canvas.wf(),
                r == reference_canvas@,
                r.width == w,
                r.height == h,
                sx == start_x,
                sy == start_y,
                in_grid(r.width, r.height, sx, sy),
                target_color == pixel_at(r, sx, sy),
                visited.wf(),
                visited@.width == w,
                visited@.height == h,
                search_inv(visited@.bits, queue@, done, taken, -1, r, sx, sy),
                forall|i: int|
                    0 <= i < w * h ==> #[trigger] self@.cells[i] == if done.contains(i)
                        && r.cells[i] == target_color {
                        new_color
                    } else {
                        pre.cells[i]
                    },
            ensures
                self.wf(),
                self@.width == pre.width,
                self@.height == pre.height,
                search_inv(visited@.bits, Seq::empty(), done, taken, -1, r, sx, sy),
                forall|i: int|
                    0 <= i < w * h ==> #[trigger] self@.cells[i] == if done.contains(i)
                        && r.cells[i] == target_color {
                        new_color
                    } else {
                        pre.cells[i]
                    },
            decreases 2 * (w * h) - taken - count_true(visited@.bits),
        {
            proof {
                lemma_count_le(visited@.bits);
                lemma_search_counts(visited@.bits, queue@, done, taken, r, sx, sy);
            }
            let ghost q0 = queue@;
            match queue.pop_front() {
                None => {
                    assert(queue@ =~= Seq::<(usize, usize)>::empty());
                    break;
                },
                Some(cell) => {
                    let (x, y) = cell;
                    let ghost ci = cell_index(r.width, x as int, y as int);
                    let ghost done0 = done;
                    proof {
                        assert(cell == q0[0]);
                        assert(queue@ =~= q0.subrange(1, q0.len() as int));
                        lemma_search_pop(visited@.bits, q0, done, taken, r, sx, sy);
                        done = done.insert(ci);
                        taken = taken + 1;
                    }
                    let here = reference_canvas.get_pixel(x, y);
                    if here == target_color {
                        proof {
                            assert(r.cells[ci] == target_color);
                            lemma_search_step_region(visited@.bits, queue@, done, taken, r, sx, sy, ci);
                        }
                        let ghost prev = self@;
                        self.draw_pixel_ignore(x, y, new_color);
                        proof {
                            assert forall|i: int| 0 <= i < w * h implies #[trigger] self@.cells[i]
                                == if done.contains(i) && r.cells[i] == target_color {
                                new_color
                            } else {
                                pre.cells[i]
                            } by {
                                assert(prev.cells[i] == if done0.contains(i)
                                    && r.cells[i] == target_color {
                                    new_color
                                } else {
                                    pre.cells[i]
                                });
                            }
                        }
                        if x > 0 {
                            enqueue(&mut visited, &mut queue, x - 1, y, Ghost(r), Ghost(sx), Ghost(sy), Ghost(done), Ghost(taken), Ghost(ci));
                        }
                        enqueue(&mut visited, &mut queue, x + 1, y, Ghost(r), Ghost(sx), Ghost(sy), Ghost(done), Ghost(taken), Ghost(ci));
                        if y > 0 {
                            enqueue(&mut visited, &mut queue, x, y - 1, Ghost(r), Ghost(sx), Ghost(sy), Ghost(done), Ghost(taken), Ghost(ci));
                        }
                        enqueue(&mut visited, &mut queue, x, y + 1, Ghost(r), Ghost(sx), Ghost(sy), Ghost(done), Ghost(taken), Ghost(ci));
                        proof {
                            let vis = visited@.bits;
                            assert forall|n: (int, int)|
                                in_grid(w as nat, h as nat, n.0, n.1) && #[trigger] adjacent(
                                    n,
                                    coords(w as nat, ci),
                                ) implies vis[cell_index(w as nat, n.0, n.1)] by {
                                crate::bitplane::lemma_index_in_grid(r.width, r.height, n.0, n.1);
                            }
                            assert(neighbours_marked(vis, w as nat, h as nat, ci));
                        }
                        proof {
                            assert forall|i: int| 0 <= i < w * h implies #[trigger] self@.cells[i]
                                == if done.contains(i) && r.cells[i] == target_color {
                                new_color
                            } else {
                                pre.cells[i]
                            } by {
                                if i != ci {
                                    assert(done.contains(i) == done0.contains(i));
                                }
                            }
                        }
                    } else {
                        proof {
                            assert(r.cells[ci] != target_color);
                            assert forall|i: int| 0 <= i < w * h implies #[trigger] self@.cells[i]
                                == if done.contains(i) && r.cells[i] == target_color {
                                new_color
                            } else {
                                pre.cells[i]
                            } by {
                                if i != ci {
                                    assert(done.contains(i) == done0.contains(i));
                                }
                            }
                        }
                    }
                    proof {
                        lemma_search_close(visited@.bits, queue@, done, taken, ci, r, sx, sy);
                        lemma_search_counts(visited@.bits, queue@, done, taken, r, sx, sy);
                        assert(queue@.len() >= q0.len() - 1);
                        lemma_count_le(visited@.bits);
                    }
                }
            }
        }
        proof {
            assert forall|i: int| 0 <= i < w * h implies self@.cells[i] == if in_region(
                r,
                sx,
                sy,
                coords(w as nat, i),
            ) {
                new_color
            } else {
                pre.cells[i]
            } by {
                lemma_search_result(visited@.bits, done, taken, r, sx, sy, i);
            }
            assert(self@.cells =~= filled(pre, r, sx, sy, new_color).cells);
        }
    }
}

/// The cell taken off the queue, when of the seed's colour, is in the
/// region.
proof fn lemma_search_step_region(
    vis: Seq<bool>,
    queue: Seq<(usize, usize)>,
    done: Set<int>,
    taken: nat,
    r: CanvasView,
    sx: int,
    sy: int,
    ci: int,
)
    requires
        view_wf(r),
        search_inv(vis, queue, done, taken, ci, r, sx, sy),
        done.contains(ci),
        r.cells[ci] == pixel_at(r, sx, sy),
    ensures
        in_region(r, sx, sy, coords(r.width, ci)),
{
    reveal(search_inv);
    let w = r.width;
    let h = r.height;
    let p = coords(w, ci);
    lemma_cell_coords(w, h, ci);
    assert(vis[ci]);
    assert(reached(r, sx, sy, ci));
    if p == (sx, sy) {
        lemma_region_seed(r, sx, sy);
    } else {
        let n = choose|n: (int, int)|
            in_grid(w, h, n.0, n.1) && adjacent(n, coords(w, ci)) && #[trigger] in_region(
                r,
                sx,
                sy,
                n,
            );
        lemma_region_extend(r, sx, sy, n, p);
    }
}

proof fn lemma_count_zero(s: Seq<bool>)
    requires
        forall|i: int| 0 <= i < s.len() ==> !s[i],
    ensures
        count_true(s) == 0,
    decreases s.len(),
{
    if s.len() > 0 {
        lemma_count_zero(s.drop_last());
    }
}

/// Taking the front cell off the queue keeps the search invariant, with
/// that cell done and being expanded.
proof fn lemma_search_pop(
    vis: Seq<bool>,
    q0: Seq<(usize, usize)>,
    done: Set<int>,
    taken: nat,
    r: CanvasView,
    sx: int,
    sy: int,
)
    requires
        view_wf(r),
        search_inv(vis, q0, done, taken, -1, r, sx, sy),
        q0.len() > 0,
    ensures
        ({
            let ci = cell_index(r.width, q0[0].0 as int, q0[0].1 as int);
            &&& in_grid(r.width, r.height, q0[0].0 as int, q0[0].1 as int)
            &&& 0 <= ci < r.width * r.height
            &&& coords(r.width, ci) == (q0[0].0 as int, q0[0].1 as int)
            &&& search_inv(
                vis,
                q0.subrange(1, q0.len() as int),
                done.insert(ci),
                taken + 1,
                ci,
                r,
                sx,
                sy,
            )
        }),
{
    reveal(search_inv);
    let w = r.width;
    let h = r.height;
    let (x, y) = (q0[0].0 as int, q0[0].1 as int);
    let ci = cell_index(w, x, y);
    assert(in_grid(w, h, x, y));
    crate::bitplane::lemma_index_in_grid(w, h, x, y);
    lemma_coords_of_index(w, h, x, y);
    let q = q0.subrange(1, q0.len() as int);
    let done1 = done.insert(ci);
    assert forall|k: int| 0 <= k < q.len() implies in_grid(
        w,
        h,
        #[trigger] q[k].0 as int,
        q[k].1 as int,
    ) && vis[cell_index(w, q[k].0 as int, q[k].1 as int)] by {
        assert(q[k] == q0[k + 1]);
    }
    assert forall|i: int| #[trigger] done1.contains(i) implies 0 <= i < w * h && vis[i] by {
        if i != ci {
            assert(done.contains(i));
        }
    }
    assert forall|i: int| 0 <= i < w * h && #[trigger] vis[i] implies done1.contains(i) || queued(
        q,
        w,
        i,
    ) by {
        if !done.contains(i) && i != ci {
            let k = choose|k: int|
                0 <= k < q0.len() && cell_index(w, #[trigger] q0[k].0 as int, q0[k].1 as int)
                    == i;
            assert(k != 0);
            assert(q[k - 1] == q0[k]);
        }
    }
    assert forall|i: int|
        #[trigger] done1.contains(i) && i != ci && r.cells[i] == pixel_at(r, sx, sy)
            implies neighbours_marked(vis, w, h, i) by {
        assert(done.contains(i));
    }
}

/// Once the cell being expanded has its neighbours marked, or is not of
/// the seed's colour, the search invariant holds with no cell in hand.
proof fn lemma_search_close(
    vis: Seq<bool>,
    q: Seq<(usize, usize)>,
    done: Set<int>,
    taken: nat,
    ci: int,
    r: CanvasView,
    sx: int,
    sy: int,
)
    requires
        search_inv(vis, q, done, taken, ci, r, sx, sy),
        r.cells[ci] == pixel_at(r, sx, sy) ==> neighbours_marked(vis, r.width, r.height, ci),
    ensures
        search_inv(vis, q, done, taken, -1, r, sx, sy),
{
    reveal(search_inv);
}

proof fn lemma_search_counts(
    vis: Seq<bool>,
    q: Seq<(usize, usize)>,
    done: Set<int>,
    taken: nat,
    r: CanvasView,
    sx: int,
    sy: int,
)
    requires
        search_inv(vis, q, done, taken, -1, r, sx, sy),
    ensures
        count_true(vis) == taken + q.len(),
        vis.len() == r.width * r.height,
{
    reveal(search_inv);
}

} // verus!
