//! Connected-component labeling: partitioning an image into maximal regions
//! of tolerant color equivalence under a connectivity rule, in two raster
//! passes with union-find equivalence merging, plus the false-color mask
//! rendered from a labeling.

use rand::Rng;
use vstd::prelude::*;

use crate::color::is_neighbor_equivalent;
use crate::ppm::{is_dominant_key, pix_key, PixelBytes, PpmImage};

verus! {

/// Which already-visited neighbors are examined when labeling a pixel:
/// 4-connectivity checks west and north; 8-connectivity also checks the two
/// diagonal northern neighbors. The third mode examines all eight compass
/// directions and is experimental, not a production correctness mode.
#[derive(PartialEq, Eq, Structural, Clone, Copy)]
pub enum Connectivity {
    EIGHT,
    FOUR,
    NOS,
}

/// The neighbor offsets a connectivity mode examines, in the order they are
/// walked.
pub open spec fn connectivity_shifts(c: Connectivity) -> Seq<(int, int)> {
    match c {
        Connectivity::EIGHT => seq![(-1, 0), (-1, -1), (0, -1), (1, -1)],
        Connectivity::FOUR => seq![(-1, 0), (0, -1)],
        Connectivity::NOS => seq![
            (0, -1),
            (1, -1),
            (1, 0),
            (1, 1),
            (0, 1),
            (-1, 1),
            (-1, 0),
            (-1, -1),
        ],
    }
}

/// The in-bounds neighbors of (x, y) under the given connectivity mode:
/// exactly those coordinates that differ from (x, y) by one of the mode's
/// offsets and lie inside the image.
#[verifier::rlimit(60)]
pub fn get_valid_neighbors(x: i32, y: i32, image: &PpmImage, c_type: Connectivity) -> (r: Vec<
    (u32, u32),
>)
    requires
        image.spec_width() <= 0x7FFF_FFFF,
        image.spec_height() <= 0x7FFF_FFFF,
        0 <= x < image.spec_width(),
        0 <= y < image.spec_height(),
    ensures
        forall|k: int|
            0 <= k < r@.len() ==> ((#[trigger] r@[k]).0 < image.spec_width() && r@[k].1
                < image.spec_height() && exists|si: int|
                0 <= si < connectivity_shifts(c_type).len() && r@[k].0 == x + (
                #[trigger] connectivity_shifts(c_type)[si]).0 && r@[k].1 == y
                    + connectivity_shifts(c_type)[si].1),
        forall|si: int|
            0 <= si < connectivity_shifts(c_type).len() && 0 <= x + (
            #[trigger] connectivity_shifts(c_type)[si]).0 < image.spec_width() && 0 <= y
                + connectivity_shifts(c_type)[si].1 < image.spec_height() ==> exists|k: int|
                0 <= k < r@.len() && (#[trigger] r@[k]).0 == x + connectivity_shifts(c_type)[
                si].0 && r@[k].1 == y + connectivity_shifts(c_type)[si].1,
{
    let mut shifts: Vec<(i32, i32)> = Vec::new();
    match c_type {
        Connectivity::EIGHT => {
            shifts.push((-1, 0));
            shifts.push((-1, -1));
            shifts.push((0, -1));
            shifts.push((1, -1));
        },
        Connectivity::FOUR => {
            shifts.push((-1, 0));
            shifts.push((0, -1));
        },
        Connectivity::NOS => {
            shifts.push((0, -1));
            shifts.push((1, -1));
            shifts.push((1, 0));
            shifts.push((1, 1));
            shifts.push((0, 1));
            shifts.push((-1, 1));
            shifts.push((-1, 0));
            shifts.push((-1, -1));
        },
    }
    proof {
        assert(shifts@.len() == connectivity_shifts(c_type).len());
        assert forall|si: int| 0 <= si < shifts@.len() implies (#[trigger] shifts@[si]).0
            == connectivity_shifts(c_type)[si].0 && shifts@[si].1 == connectivity_shifts(c_type)[
        si].1 by {
            match c_type {
                Connectivity::EIGHT => {},
                Connectivity::FOUR => {},
                Connectivity::NOS => {},
            }
        }
    }
    let width = image.width();
    let height = image.height();
    let mut valid_neighbors: Vec<(u32, u32)> = Vec::new();
    let mut si: usize = 0;
    while si < shifts.len()
        invariant
            si <= shifts@.len(),
            shifts@.len() == connectivity_shifts(c_type).len(),
            forall|j: int|
                0 <= j < shifts@.len() ==> (#[trigger] shifts@[j]).0 == connectivity_shifts(
                    c_type,
                )[j].0 && shifts@[j].1 == connectivity_shifts(c_type)[j].1,
            width == image.spec_width(),
            height == image.spec_height(),
            width <= 0x7FFF_FFFF,
            height <= 0x7FFF_FFFF,
            0 <= x < width,
            0 <= y < height,
            forall|k: int|
                0 <= k < valid_neighbors@.len() ==> ((#[trigger] valid_neighbors@[k]).0 < width
                    && valid_neighbors@[k].1 < height && exists|sj: int|
                    0 <= sj < si && valid_neighbors@[k].0 == x + (
                    #[trigger] connectivity_shifts(c_type)[sj]).0 && valid_neighbors@[k].1 == y
                        + connectivity_shifts(c_type)[sj].1),
            forall|sj: int|
                0 <= sj < si && 0 <= x + (#[trigger] connectivity_shifts(c_type)[sj]).0 < width
                    && 0 <= y + connectivity_shifts(c_type)[sj].1 < height ==> exists|k: int|
                    0 <= k < valid_neighbors@.len() && (#[trigger] valid_neighbors@[k]).0 == x
                        + connectivity_shifts(c_type)[sj].0 && valid_neighbors@[k].1 == y
                        + connectivity_shifts(c_type)[sj].1,
        decreases shifts@.len() - si,
    {
        let shift = shifts[si];
        let nx: i32 = x + shift.0;
        let ny: i32 = y + shift.1;
        if nx >= 0 && (nx as u32) < width && ny >= 0 && (ny as u32) < height {
            let ghost vn_pre = valid_neighbors@;
            valid_neighbors.push((nx as u32, ny as u32));
            proof {
                let last = valid_neighbors@.len() - 1;
                assert(valid_neighbors@[last].0 == x + connectivity_shifts(c_type)[si as int].0
                    && valid_neighbors@[last].1 == y + connectivity_shifts(c_type)[si as int].1);
                assert forall|sj: int|
                    0 <= sj < si + 1 && 0 <= x + (#[trigger] connectivity_shifts(c_type)[sj]).0
                        < width && 0 <= y + connectivity_shifts(c_type)[sj].1
                        < height implies exists|k: int|
                    0 <= k < valid_neighbors@.len() && (#[trigger] valid_neighbors@[k]).0 == x
                        + connectivity_shifts(c_type)[sj].0 && valid_neighbors@[k].1 == y
                        + connectivity_shifts(c_type)[sj].1 by {
                    if sj < si {
                        let k0 = choose|k0: int|
                            0 <= k0 < vn_pre.len() && (#[trigger] vn_pre[k0]).0 == x
                                + connectivity_shifts(c_type)[sj].0 && vn_pre[k0].1 == y
                                + connectivity_shifts(c_type)[sj].1;
                        assert(valid_neighbors@[k0] == vn_pre[k0]);
                    } else {
                        assert(valid_neighbors@[last].0 == x + connectivity_shifts(c_type)[sj].0
                            && valid_neighbors@[last].1 == y + connectivity_shifts(c_type)[
                        sj].1);
                    }
                }
            }
        }
        si = si + 1;
    }
    valid_neighbors
}

/// Union-find over provisional labels. Every label's parent is a label no
/// larger than itself, so following parents terminates and the root of a
/// class is its smallest member ever merged downward.
pub open spec fn uf_wf(p: Seq<usize>) -> bool {
    forall|i: int| 1 <= i < p.len() ==> 1 <= (#[trigger] p[i]) <= i
}

/// The canonical representative that following parent links from `i`
/// reaches.
pub open spec fn uf_root(p: Seq<usize>, i: int) -> int
    decreases i,
{
    if !(1 <= i < p.len()) {
        i
    } else if p[i] == i {
        i
    } else if p[i] < i {
        uf_root(p, p[i] as int)
    } else {
        i
    }
}

/// A root is its own parent, no larger than any label it represents, and
/// following parents from it goes nowhere else.
pub proof fn lemma_uf_root_props(p: Seq<usize>, i: int)
    requires
        uf_wf(p),
        1 <= i < p.len(),
    ensures
        1 <= uf_root(p, i) <= i,
        p[uf_root(p, i)] == uf_root(p, i),
        uf_root(p, uf_root(p, i)) == uf_root(p, i),
    decreases i,
{
    if p[i] != i {
        lemma_uf_root_props(p, p[i] as int);
    }
}

/// Reparenting the root `rgone` under the root `rkeep` redirects exactly
/// the class of `rgone` to `rkeep` and moves no other label's root.
pub proof fn lemma_uf_reparent_root(p: Seq<usize>, rkeep: int, rgone: int, x: int)
    requires
        uf_wf(p),
        1 <= rkeep < rgone < p.len(),
        p[rkeep] == rkeep,
        p[rgone] == rgone,
        1 <= x < p.len(),
    ensures
        uf_root(p.update(rgone, rkeep as usize), x) == if uf_root(p, x) == rgone {
            rkeep
        } else {
            uf_root(p, x)
        },
    decreases x,
{
    let p2 = p.update(rgone, rkeep as usize);
    if x == rgone {
        assert(p2[x] == rkeep);
        assert(uf_root(p2, x) == uf_root(p2, rkeep));
        assert(p2[rkeep] == rkeep);
    } else {
        assert(p2[x] == p[x]);
        if p[x] != x {
            lemma_uf_reparent_root(p, rkeep, rgone, p[x] as int);
        }
    }
}

/// Growing the table with a fresh self-parented label leaves every existing
/// root where it was.
pub proof fn lemma_uf_push_root(p: Seq<usize>, x: int)
    requires
        uf_wf(p),
        1 <= x < p.len(),
    ensures
        uf_root(p.push(p.len() as usize), x) == uf_root(p, x),
    decreases x,
{
    let p2 = p.push(p.len() as usize);
    assert(p2[x] == p[x]);
    if p[x] != x {
        lemma_uf_push_root(p, p[x] as int);
    }
}

/// Follows parent links until the root of a label's equivalence class.
fn uf_find(parent: &Vec<usize>, label: usize) -> (r: usize)
    requires
        uf_wf(parent@),
        1 <= label < parent@.len(),
    ensures
        r == uf_root(parent@, label as int),
        1 <= r <= label,
        parent@[r as int] == r,
{
    let mut l = label;
    while parent[l] != l
        invariant
            uf_wf(parent@),
            1 <= l < parent@.len(),
            l <= label,
            uf_root(parent@, l as int) == uf_root(parent@, label as int),
        decreases l,
    {
        l = parent[l];
    }
    l
}

/// Merges the classes of two labels: the larger root becomes a child of the
/// smaller, so roots only ever shrink toward the smallest label of a class.
/// Exactly the two merged classes change root — to the smaller of the two
/// old roots — and every other label's root stays put, so labels whose
/// roots agreed keep agreeing.
fn uf_union(parent: &mut Vec<usize>, a: usize, b: usize)
    requires
        uf_wf(old(parent)@),
        1 <= a < old(parent)@.len(),
        1 <= b < old(parent)@.len(),
    ensures
        uf_wf(final(parent)@),
        final(parent)@.len() == old(parent)@.len(),
        uf_root(final(parent)@, a as int) == uf_root(final(parent)@, b as int),
        forall|x: int|
            1 <= x < old(parent)@.len() ==> #[trigger] uf_root(final(parent)@, x) == ({
                let ra = uf_root(old(parent)@, a as int);
                let rb = uf_root(old(parent)@, b as int);
                let rmin = if ra <= rb {
                    ra
                } else {
                    rb
                };
                if uf_root(old(parent)@, x) == ra || uf_root(old(parent)@, x) == rb {
                    rmin
                } else {
                    uf_root(old(parent)@, x)
                }
            }),
{
    let ra = uf_find(parent, a);
    let rb = uf_find(parent, b);
    if ra != rb {
        let ghost p0 = parent@;
        if ra < rb {
            parent.set(rb, ra);
            proof {
                assert(parent@ =~= p0.update(rb as int, ra));
                assert forall|x: int| 1 <= x < p0.len() implies #[trigger] uf_root(parent@, x)
                    == (if uf_root(p0, x) == rb {
                    ra as int
                } else {
                    uf_root(p0, x)
                }) by {
                    lemma_uf_reparent_root(p0, ra as int, rb as int, x);
                }
            }
        } else {
            parent.set(ra, rb);
            proof {
                assert(parent@ =~= p0.update(ra as int, rb));
                assert forall|x: int| 1 <= x < p0.len() implies #[trigger] uf_root(parent@, x)
                    == (if uf_root(p0, x) == ra {
                    rb as int
                } else {
                    uf_root(p0, x)
                }) by {
                    lemma_uf_reparent_root(p0, rb as int, ra as int, x);
                }
            }
        }
    }
}

/// Whether the pixel at (x1, y1) examines the position (x2, y2) when it is
/// labeled: (x2, y2) lies inside the image, one of the connectivity mode's
/// offsets away.
pub open spec fn examines(
    c: Connectivity,
    w: int,
    h: int,
    x1: int,
    y1: int,
    x2: int,
    y2: int,
) -> bool {
    &&& 0 <= x1 < w && 0 <= y1 < h
    &&& 0 <= x2 < w && 0 <= y2 < h
    &&& exists|si: int|
        0 <= si < connectivity_shifts(c).len() && x2 == x1 + (
        #[trigger] connectivity_shifts(c)[si]).0 && y2 == y1 + connectivity_shifts(c)[si].1
}

/// A pair the first pass merges: the pixel at (x1, y1) examines the
/// already-visited position (x2, y2) — earlier in raster order — neither
/// pixel carries the background color, and the two colors are equivalent
/// under the tolerance. (Under the production modes every examined neighbor
/// is already visited; the experimental all-directions mode also looks
/// ahead at positions that carry no label yet, which this predicate leaves
/// out, exactly as the pass does.)
pub open spec fn merged_pair(
    s: Seq<u8>,
    hist: Seq<(u32, usize)>,
    w: int,
    h: int,
    c: Connectivity,
    tol: u32,
    x1: int,
    y1: int,
    x2: int,
    y2: int,
) -> bool {
    &&& examines(c, w, h, x1, y1, x2, y2)
    &&& y2 * w + x2 < y1 * w + x1
    &&& !is_dominant_key(hist, crate::ppm::slot_key(s, y1 * w + x1))
    &&& !is_dominant_key(hist, crate::ppm::slot_key(s, y2 * w + x2))
    &&& crate::color::pixels_equivalent(
        crate::ppm::slot_pixel(s, y1 * w + x1),
        crate::ppm::slot_pixel(s, y2 * w + x2),
        tol,
    )
}

/// What the two labeling passes leave behind: the final label of every
/// pixel is the canonical representative that the resolved union-find
/// assigns to the pixel's provisional first-pass label, and that
/// representative is the smallest label of its equivalence class (merging
/// always parents the larger root under the smaller).
pub open spec fn two_pass_certificate(
    prov: Seq<u64>,
    uf: Seq<usize>,
    final_labels: Seq<u64>,
) -> bool {
    &&& uf_wf(uf)
    &&& prov.len() == final_labels.len()
    &&& forall|j: int| 0 <= j < prov.len() ==> 0 <= (#[trigger] prov[j] as int) < uf.len()
    &&& forall|j: int|
        0 <= j < prov.len() ==> (#[trigger] final_labels[j] as int) == uf_root(
            uf,
            prov[j] as int,
        )
    &&& forall|l1: int, l2: int|
        1 <= l1 < uf.len() && 1 <= l2 < uf.len() && #[trigger] uf_root(uf, l1)
            == #[trigger] uf_root(uf, l2) ==> uf_root(uf, l1) <= l2
}

/// The first pass's running guarantee: every merged pair whose later pixel
/// is already processed has its two provisional labels in one union-find
/// class.
spec fn pairs_linked(
    s: Seq<u8>,
    hist: Seq<(u32, usize)>,
    w: int,
    h: int,
    c: Connectivity,
    tol: u32,
    labels: Seq<u64>,
    uf: Seq<usize>,
    processed: int,
) -> bool {
    forall|x1: int, y1: int, x2: int, y2: int|
        #[trigger] merged_pair(s, hist, w, h, c, tol, x1, y1, x2, y2) && y1 * w + x1 < processed
            ==> uf_root(uf, labels[y1 * w + x1] as int) == uf_root(uf, labels[y2 * w + x2] as int)
}

/// While one pixel's neighbors are walked: every equivalent, already
/// labeled neighbor seen so far has its label in the collected list.
spec fn neighbors_collected(
    s: Seq<u8>,
    w: int,
    idx: int,
    tol: u32,
    pns: Seq<(u32, u32)>,
    labels: Seq<u64>,
    collected: Seq<u64>,
    upto: int,
) -> bool {
    forall|k2: int|
        0 <= k2 < upto ==> {
            let nidx = (#[trigger] pns[k2]).1 * w + pns[k2].0;
            (crate::color::pixels_equivalent(
                crate::ppm::slot_pixel(s, idx),
                crate::ppm::slot_pixel(s, nidx),
                tol,
            ) && labels[nidx] != 0) ==> collected.contains(labels[nidx])
        }
}

/// With the background key dominant, a key is dominant exactly when it is
/// the background key.
proof fn lemma_bg_unique(hist: Seq<(u32, usize)>, bg_key: int, k: int)
    requires
        crate::ppm::hist_wf(hist),
        is_dominant_key(hist, bg_key),
    ensures
        is_dominant_key(hist, k) <==> k == bg_key,
{
    if is_dominant_key(hist, k) {
        crate::ppm::lemma_dominant_unique(hist, k, bg_key);
    }
}

/// No connectivity offset is the zero vector: a pixel never examines
/// itself.
proof fn lemma_shift_nonzero(c: Connectivity, si: int)
    requires
        0 <= si < connectivity_shifts(c).len(),
    ensures
        !(connectivity_shifts(c)[si].0 == 0 && connectivity_shifts(c)[si].1 == 0),
{
    match c {
        Connectivity::EIGHT => {
            assert(connectivity_shifts(c) =~= seq![(-1int, 0int), (-1, -1), (0, -1), (1, -1)]);
        },
        Connectivity::FOUR => {
            assert(connectivity_shifts(c) =~= seq![(-1int, 0int), (0, -1)]);
        },
        Connectivity::NOS => {
            assert(connectivity_shifts(c) =~= seq![
                (0int, -1int),
                (1, -1),
                (1, 0),
                (1, 1),
                (0, 1),
                (-1, 1),
                (-1, 0),
                (-1, -1),
            ]);
        },
    }
}

/// Distinct in-bounds coordinates land in distinct slots.
proof fn lemma_index_injective(w: int, x1: int, y1: int, x2: int, y2: int)
    requires
        0 <= x1 < w,
        0 <= x2 < w,
        0 <= y1,
        0 <= y2,
        y1 * w + x1 == y2 * w + x2,
    ensures
        x1 == x2,
        y1 == y2,
{
    vstd::arithmetic::div_mod::lemma_fundamental_div_mod_converse(y1 * w + x1, w, y1, x1);
    vstd::arithmetic::div_mod::lemma_fundamental_div_mod_converse(y2 * w + x2, w, y2, x2);
}

/// Closes one pixel step of the first pass when the pixel got a fresh
/// label: no equivalent labeled neighbor was found, so no merged pair ends
/// at this pixel, and growing the table moved no existing root.
#[verifier::rlimit(60)]
proof fn lemma_close_pixel_fresh(
    s: Seq<u8>,
    hist: Seq<(u32, usize)>,
    w: int,
    h: int,
    c: Connectivity,
    tol: u32,
    labels_pre: Seq<u64>,
    labels_new: Seq<u64>,
    uf_old: Seq<usize>,
    uf_new: Seq<usize>,
    pns: Seq<(u32, u32)>,
    collected: Seq<u64>,
    idx: int,
    x: int,
    y: int,
    bg_key: int,
    fresh: int,
)
    requires
        crate::ppm::hist_wf(hist),
        is_dominant_key(hist, bg_key),
        0 <= x < w,
        0 <= y < h,
        idx == y * w + x,
        0 <= idx < labels_pre.len(),
        labels_new == labels_pre.update(idx, fresh as u64),
        collected.len() == 0,
        forall|j: int| 0 <= j < idx ==> ((#[trigger] labels_pre[j] == 0) <==> crate::ppm::slot_key(
            s,
            j,
        ) == bg_key),
        forall|j: int| 0 <= j < labels_pre.len() ==> (#[trigger] labels_pre[j] as int)
            < uf_old.len(),
        forall|l: int| 1 <= l < uf_old.len() ==> #[trigger] uf_root(uf_new, l) == uf_root(
            uf_old,
            l,
        ),
        pairs_linked(s, hist, w, h, c, tol, labels_pre, uf_old, idx),
        neighbors_collected(s, w, idx, tol, pns, labels_pre, collected, pns.len() as int),
        forall|si: int|
            0 <= si < connectivity_shifts(c).len() && 0 <= x + (
            #[trigger] connectivity_shifts(c)[si]).0 < w && 0 <= y + connectivity_shifts(c)[si].1
                < h ==> exists|k: int|
                0 <= k < pns.len() && (#[trigger] pns[k]).0 == x + connectivity_shifts(c)[si].0
                    && pns[k].1 == y + connectivity_shifts(c)[si].1,
    ensures
        pairs_linked(s, hist, w, h, c, tol, labels_new, uf_new, idx + 1),
{
    assert forall|x1: int, y1: int, x2: int, y2: int|
        #[trigger] merged_pair(s, hist, w, h, c, tol, x1, y1, x2, y2) && y1 * w + x1 < idx
            + 1 implies uf_root(uf_new, labels_new[y1 * w + x1] as int) == uf_root(
        uf_new,
        labels_new[y2 * w + x2] as int,
    ) by {
        let j1 = y1 * w + x1;
        let j2 = y2 * w + x2;
        if j1 < idx {
            assert(labels_new[j1] == labels_pre[j1]);
            assert(labels_new[j2] == labels_pre[j2]);
            lemma_bg_unique(hist, bg_key, crate::ppm::slot_key(s, j1));
            lemma_bg_unique(hist, bg_key, crate::ppm::slot_key(s, j2));
            assert(1 <= labels_pre[j1] as int && (labels_pre[j1] as int) < uf_old.len());
            assert(1 <= labels_pre[j2] as int && (labels_pre[j2] as int) < uf_old.len());
            assert(uf_root(uf_old, labels_pre[j1] as int) == uf_root(
                uf_old,
                labels_pre[j2] as int,
            ));
        } else {
            lemma_index_injective(w, x1, y1, x, y);
            let si = choose|si: int|
                0 <= si < connectivity_shifts(c).len() && x2 == x1 + (
                #[trigger] connectivity_shifts(c)[si]).0 && y2 == y1 + connectivity_shifts(c)[
                si].1;
            let k = choose|k: int|
                0 <= k < pns.len() && (#[trigger] pns[k]).0 == x + connectivity_shifts(c)[si].0
                    && pns[k].1 == y + connectivity_shifts(c)[si].1;
            assert(pns[k].1 * w + pns[k].0 == j2);
            lemma_bg_unique(hist, bg_key, crate::ppm::slot_key(s, j2));
            assert(labels_pre[j2] != 0);
            assert(collected.contains(labels_pre[j2]));
            assert(false);
        }
    }
}

/// Closes one pixel step of the first pass when the pixel took the
/// smallest label of its equivalent neighbors: every collected neighbor
/// label has been merged into that label's class.
#[verifier::rlimit(60)]
proof fn lemma_close_pixel_merged(
    s: Seq<u8>,
    hist: Seq<(u32, usize)>,
    w: int,
    h: int,
    c: Connectivity,
    tol: u32,
    labels_pre: Seq<u64>,
    labels_new: Seq<u64>,
    uf: Seq<usize>,
    pns: Seq<(u32, u32)>,
    collected: Seq<u64>,
    idx: int,
    x: int,
    y: int,
    bg_key: int,
    min_label: u64,
)
    requires
        crate::ppm::hist_wf(hist),
        is_dominant_key(hist, bg_key),
        0 <= x < w,
        0 <= y < h,
        idx == y * w + x,
        0 <= idx < labels_pre.len(),
        labels_new == labels_pre.update(idx, min_label),
        forall|j: int| 0 <= j < idx ==> ((#[trigger] labels_pre[j] == 0) <==> crate::ppm::slot_key(
            s,
            j,
        ) == bg_key),
        pairs_linked(s, hist, w, h, c, tol, labels_new, uf, idx),
        forall|k: int|
            0 <= k < collected.len() ==> #[trigger] uf_root(uf, collected[k] as int) == uf_root(
                uf,
                min_label as int,
            ),
        neighbors_collected(s, w, idx, tol, pns, labels_pre, collected, pns.len() as int),
        forall|si: int|
            0 <= si < connectivity_shifts(c).len() && 0 <= x + (
            #[trigger] connectivity_shifts(c)[si]).0 < w && 0 <= y + connectivity_shifts(c)[si].1
                < h ==> exists|k: int|
                0 <= k < pns.len() && (#[trigger] pns[k]).0 == x + connectivity_shifts(c)[si].0
                    && pns[k].1 == y + connectivity_shifts(c)[si].1,
    ensures
        pairs_linked(s, hist, w, h, c, tol, labels_new, uf, idx + 1),
{
    assert forall|x1: int, y1: int, x2: int, y2: int|
        #[trigger] merged_pair(s, hist, w, h, c, tol, x1, y1, x2, y2) && y1 * w + x1 < idx
            + 1 implies uf_root(uf, labels_new[y1 * w + x1] as int) == uf_root(
        uf,
        labels_new[y2 * w + x2] as int,
    ) by {
        let j1 = y1 * w + x1;
        let j2 = y2 * w + x2;
        if j1 == idx {
            lemma_index_injective(w, x1, y1, x, y);
            let si = choose|si: int|
                0 <= si < connectivity_shifts(c).len() && x2 == x1 + (
                #[trigger] connectivity_shifts(c)[si]).0 && y2 == y1 + connectivity_shifts(c)[
                si].1;
            let k = choose|k: int|
                0 <= k < pns.len() && (#[trigger] pns[k]).0 == x + connectivity_shifts(c)[si].0
                    && pns[k].1 == y + connectivity_shifts(c)[si].1;
            assert(pns[k].1 * w + pns[k].0 == j2);
            lemma_bg_unique(hist, bg_key, crate::ppm::slot_key(s, j2));
            assert(labels_pre[j2] != 0);
            assert(collected.contains(labels_pre[j2]));
            let m = choose|m: int|
                0 <= m < collected.len() && #[trigger] collected[m] == labels_pre[j2];
            assert(uf_root(uf, collected[m] as int) == uf_root(uf, min_label as int));
            assert(labels_new[j1] == min_label);
            assert(labels_new[j2] == labels_pre[j2]);
        }
    }
}

/// Labels the image's regions of tolerant color equivalence. Background
/// pixels (those of the dominant color) keep the reserved label 0; every
/// other pixel receives the canonical (smallest) label of its equivalence
/// class, resolved over two raster passes with union-find merging: any two
/// pixels the first pass finds adjacent and equivalent end under one
/// canonical label. Returns the per-pixel label array and the number of
/// distinct canonical labels.
#[verifier::rlimit(100)]
#[verifier::spinoff_prover]
pub fn ccl(image: &PpmImage, c_type: Connectivity, tolerance: u32) -> (r: (Vec<u64>, usize))
    requires
        image.wf(),
        image.spec_hist().len() > 0,
        image.spec_width() <= 0x7FFF_FFFF,
        image.spec_height() <= 0x7FFF_FFFF,
    ensures
        r.0@.len() == image.spec_width() * image.spec_height(),
        forall|j: int|
            0 <= j < r.0@.len() ==> ((r.0@[j] == 0) <==> is_dominant_key(
                image.spec_hist(),
                crate::ppm::slot_key(image@, j),
            )),
        forall|j: int| 0 <= j < r.0@.len() ==> (#[trigger] r.0@[j] as int) <= r.0@.len(),
        forall|x1: int, y1: int, x2: int, y2: int|
            #[trigger] merged_pair(
                image@,
                image.spec_hist(),
                image.spec_width() as int,
                image.spec_height() as int,
                c_type,
                tolerance,
                x1,
                y1,
                x2,
                y2,
            ) ==> r.0@[y1 * image.spec_width() + x1] == r.0@[y2 * image.spec_width() + x2],
        exists|prov: Seq<u64>, uf: Seq<usize>| two_pass_certificate(prov, uf, r.0@),
        r.1 == Set::new(|v: u64| v != 0 && r.0@.contains(v)).len(),
{
    let width = image.width();
    let height = image.height();
    proof {
        let w = width as int;
        let h = height as int;
        assert(3 * (w * h) == 3 * w * h) by (nonlinear_arith);
    }
    let wh: usize = (width as usize) * (height as usize);
    let mut labels: Vec<u64> = Vec::new();
    let mut z: usize = 0;
    while z < wh
        invariant
            z <= wh,
            labels@.len() == z,
            forall|j: int| 0 <= j < z ==> labels@[j] == 0,
        decreases wh - z,
    {
        labels.push(0);
        z = z + 1;
    }
    let mut linked_labels: Vec<usize> = Vec::new();
    linked_labels.push(0);
    let mut cur_label: u64 = 0;
    let bg_color = image.get_background();
    let ghost bg_key = pix_key(bg_color@[0], bg_color@[1], bg_color@[2]);

    // First pass: assign provisional labels and record equivalences.
    let mut y: u32 = 0;
    while y < height
        invariant
            y <= height,
            width == image.spec_width(),
            height == image.spec_height(),
            width <= 0x7FFF_FFFF,
            height <= 0x7FFF_FFFF,
            image.wf(),
            wh == (width as int) * (height as int),
            labels@.len() == wh,
            uf_wf(linked_labels@),
            linked_labels@.len() == cur_label + 1,
            cur_label as int <= (y as int) * (width as int),
            cur_label as int <= wh as int,
            is_dominant_key(image.spec_hist(), bg_key),
            bg_key == pix_key(bg_color@[0], bg_color@[1], bg_color@[2]),
            forall|j: int| 0 <= j < labels@.len() ==> #[trigger] labels@[j] <= cur_label,
            forall|j: int|
                0 <= j < (y as int) * (width as int) ==> ((#[trigger] labels@[j] == 0)
                    <==> crate::ppm::slot_key(image@, j) == bg_key),
            forall|j: int|
                (y as int) * (width as int) <= j < labels@.len() ==> #[trigger] labels@[j] == 0,
            pairs_linked(
                image@,
                image.spec_hist(),
                width as int,
                height as int,
                c_type,
                tolerance,
                labels@,
                linked_labels@,
                (y as int) * (width as int),
            ),
        decreases height - y,
    {
        let mut x: u32 = 0;
        while x < width
            invariant
                y < height,
                x <= width,
                width == image.spec_width(),
                height == image.spec_height(),
                width <= 0x7FFF_FFFF,
                height <= 0x7FFF_FFFF,
                image.wf(),
                wh == (width as int) * (height as int),
                labels@.len() == wh,
                uf_wf(linked_labels@),
                linked_labels@.len() == cur_label + 1,
                cur_label as int <= (y as int) * (width as int) + (x as int),
                cur_label as int <= wh as int,
                is_dominant_key(image.spec_hist(), bg_key),
                bg_key == pix_key(bg_color@[0], bg_color@[1], bg_color@[2]),
                forall|j: int| 0 <= j < labels@.len() ==> #[trigger] labels@[j] <= cur_label,
                forall|j: int|
                    0 <= j < (y as int) * (width as int) + (x as int) ==> ((#[trigger] labels@[j]
                        == 0) <==> crate::ppm::slot_key(image@, j) == bg_key),
                forall|j: int|
                    (y as int) * (width as int) + (x as int) <= j < labels@.len()
                        ==> #[trigger] labels@[j] == 0,
                pairs_linked(
                    image@,
                    image.spec_hist(),
                    width as int,
                    height as int,
                    c_type,
                    tolerance,
                    labels@,
                    linked_labels@,
                    (y as int) * (width as int) + (x as int),
                ),
            decreases width - x,
        {
            proof {
                crate::ppm::lemma_index_in_bounds(
                    x as int,
                    y as int,
                    width as int,
                    height as int,
                );
                assert(3 * ((y as int) * (width as int) + (x as int)) + 2 < 3 * ((width as int)
                    * (height as int))) by (nonlinear_arith)
                    requires
                        0 <= (y as int) * (width as int) + (x as int),
                        (y as int) * (width as int) + (x as int) < (width as int) * (height
                            as int),
                ;
                assert(3 * ((width as int) * (height as int)) == 3 * (width as int) * (height
                    as int)) by (nonlinear_arith);
            }
            let idx: usize = (y as usize) * (width as usize) + (x as usize);
            let pixel = image.get_pixel_at(idx);
            let p0 = pixel[0];
            let p1 = pixel[1];
            let p2 = pixel[2];
            let b0 = bg_color[0];
            let b1 = bg_color[1];
            let b2 = bg_color[2];
            let is_bg = p0 == b0 && p1 == b1 && p2 == b2;
            proof {
                crate::ppm::lemma_pix_key_injective(p0, p1, p2, b0, b1, b2);
                assert(p0 == image@[3 * (idx as int)] && p1 == image@[3 * (idx as int) + 1] && p2
                    == image@[3 * (idx as int) + 2]);
                assert(crate::ppm::slot_key(image@, idx as int) == pix_key(p0, p1, p2));
                assert(bg_key == pix_key(b0, b1, b2));
                assert(is_bg <==> crate::ppm::slot_key(image@, idx as int) == bg_key);
            }
            if !is_bg {
                let possible_neighbors = get_valid_neighbors(x as i32, y as i32, image, c_type);
                proof {
                    assert(pixel@ =~= crate::ppm::slot_pixel(image@, idx as int));
                }
                let mut neighbor_labels: Vec<u64> = Vec::new();
                let mut min_label: u64 = 0;
                let mut ni: usize = 0;
                while ni < possible_neighbors.len()
                    invariant
                        ni <= possible_neighbors@.len(),
                        width == image.spec_width(),
                        height == image.spec_height(),
                        image.wf(),
                        wh == (width as int) * (height as int),
                        labels@.len() == wh,
                        idx == (y as int) * (width as int) + (x as int),
                        idx < wh,
                        pixel@ == crate::ppm::slot_pixel(image@, idx as int),
                        forall|k: int|
                            0 <= k < possible_neighbors@.len() ==> ((
                            #[trigger] possible_neighbors@[k]).0 < width
                                && possible_neighbors@[k].1 < height),
                        forall|j: int|
                            0 <= j < labels@.len() ==> #[trigger] labels@[j] <= cur_label,
                        forall|k: int|
                            0 <= k < neighbor_labels@.len() ==> 1
                                <= #[trigger] neighbor_labels@[k] <= cur_label,
                        min_label <= cur_label,
                        min_label != 0 ==> neighbor_labels@.len() > 0,
                        neighbor_labels@.len() > 0 ==> min_label != 0,
                        neighbors_collected(
                            image@,
                            width as int,
                            idx as int,
                            tolerance,
                            possible_neighbors@,
                            labels@,
                            neighbor_labels@,
                            ni as int,
                        ),
                    decreases possible_neighbors@.len() - ni,
                {
                    let neighbor = possible_neighbors[ni];
                    proof {
                        crate::ppm::lemma_index_in_bounds(
                            neighbor.0 as int,
                            neighbor.1 as int,
                            width as int,
                            height as int,
                        );
                        assert(3 * ((neighbor.1 as int) * (width as int) + (neighbor.0 as int))
                            + 2 < 3 * ((width as int) * (height as int))) by (nonlinear_arith)
                            requires
                                0 <= (neighbor.1 as int) * (width as int) + (neighbor.0 as int),
                                (neighbor.1 as int) * (width as int) + (neighbor.0 as int) < (
                                width as int) * (height as int),
                        ;
                        assert(3 * ((width as int) * (height as int)) == 3 * (width as int) * (
                        height as int)) by (nonlinear_arith);
                    }
                    let n_idx: usize = (neighbor.1 as usize) * (width as usize) + (neighbor.0
                        as usize);
                    let neighbor_pixel = image.get_pixel_at(n_idx);
                    proof {
                        assert(neighbor_pixel@ =~= crate::ppm::slot_pixel(image@, n_idx as int));
                    }
                    let ghost collected_pre = neighbor_labels@;
                    if is_neighbor_equivalent(&pixel, &neighbor_pixel, tolerance) {
                        let neighbor_label = labels[n_idx];
                        if neighbor_label != 0 {
                            neighbor_labels.push(neighbor_label);
                            if min_label == 0 || neighbor_label < min_label {
                                min_label = neighbor_label;
                            }
                        }
                    }
                    proof {
                        assert forall|k2: int| 0 <= k2 < ni + 1 implies {
                            let nidx = (#[trigger] possible_neighbors@[k2]).1 * (width as int)
                                + possible_neighbors@[k2].0;
                            (crate::color::pixels_equivalent(
                                crate::ppm::slot_pixel(image@, idx as int),
                                crate::ppm::slot_pixel(image@, nidx),
                                tolerance,
                            ) && labels@[nidx] != 0) ==> neighbor_labels@.contains(labels@[nidx])
                        } by {
                            let nidx = possible_neighbors@[k2].1 * (width as int)
                                + possible_neighbors@[k2].0;
                            if crate::color::pixels_equivalent(
                                crate::ppm::slot_pixel(image@, idx as int),
                                crate::ppm::slot_pixel(image@, nidx),
                                tolerance,
                            ) && labels@[nidx] != 0 {
                                if k2 < ni {
                                    let m = choose|m: int|
                                        0 <= m < collected_pre.len() && collected_pre[m]
                                            == labels@[nidx];
                                    assert(neighbor_labels@[m] == labels@[nidx]);
                                } else {
                                    assert(neighbor_labels@[neighbor_labels@.len() - 1]
                                        == labels@[nidx]);
                                }
                            }
                        }
                    }
                    ni = ni + 1;
                }
                let ghost labels_pre = labels@;
                proof {
                    assert(neighbors_collected(
                        image@,
                        width as int,
                        idx as int,
                        tolerance,
                        possible_neighbors@,
                        labels_pre,
                        neighbor_labels@,
                        possible_neighbors@.len() as int,
                    ));
                }
                if min_label == 0 {
                    cur_label = cur_label + 1;
                    let ghost p_pre = linked_labels@;
                    linked_labels.push(linked_labels.len());
                    labels.set(idx, cur_label);
                    proof {
                        assert(linked_labels@ =~= p_pre.push(p_pre.len() as usize));
                        assert forall|l: int| 1 <= l < p_pre.len() implies #[trigger] uf_root(
                            linked_labels@,
                            l,
                        ) == uf_root(p_pre, l) by {
                            lemma_uf_push_root(p_pre, l);
                        }
                        lemma_close_pixel_fresh(
                            image@,
                            image.spec_hist(),
                            width as int,
                            height as int,
                            c_type,
                            tolerance,
                            labels_pre,
                            labels@,
                            p_pre,
                            linked_labels@,
                            possible_neighbors@,
                            neighbor_labels@,
                            idx as int,
                            x as int,
                            y as int,
                            bg_key,
                            cur_label as int,
                        );
                    }
                } else {
                    labels.set(idx, min_label);
                    let mut li: usize = 0;
                    while li < neighbor_labels.len()
                        invariant
                            li <= neighbor_labels@.len(),
                            uf_wf(linked_labels@),
                            linked_labels@.len() == cur_label + 1,
                            cur_label as int <= wh as int,
                            1 <= min_label <= cur_label,
                            width == image.spec_width(),
                            height == image.spec_height(),
                            image.wf(),
                            wh == (width as int) * (height as int),
                            labels@.len() == wh,
                            idx == (y as int) * (width as int) + (x as int),
                            idx < wh,
                            forall|k: int|
                                0 <= k < neighbor_labels@.len() ==> 1
                                    <= #[trigger] neighbor_labels@[k] <= cur_label,
                            forall|j: int|
                                0 <= j < labels@.len() ==> #[trigger] labels@[j] <= cur_label,
                            forall|j: int|
                                0 <= j < idx ==> ((#[trigger] labels@[j] == 0)
                                    <==> crate::ppm::slot_key(image@, j) == bg_key),
                            is_dominant_key(image.spec_hist(), bg_key),
                            pairs_linked(
                                image@,
                                image.spec_hist(),
                                width as int,
                                height as int,
                                c_type,
                                tolerance,
                                labels@,
                                linked_labels@,
                                idx as int,
                            ),
                            forall|k: int|
                                0 <= k < li ==> #[trigger] uf_root(
                                    linked_labels@,
                                    neighbor_labels@[k] as int,
                                ) == uf_root(linked_labels@, min_label as int),
                        decreases neighbor_labels@.len() - li,
                    {
                        let other = neighbor_labels[li];
                        let ghost p_before = linked_labels@;
                        uf_union(&mut linked_labels, min_label as usize, other as usize);
                        proof {
                            assert forall|k: int| 0 <= k < li + 1 implies #[trigger] uf_root(
                                linked_labels@,
                                neighbor_labels@[k] as int,
                            ) == uf_root(linked_labels@, min_label as int) by {
                                assert(1 <= neighbor_labels@[k] as int && (neighbor_labels@[k]
                                    as int) < p_before.len());
                            }
                            assert forall|x1: int, y1: int, x2: int, y2: int|
                                #[trigger] merged_pair(
                                    image@,
                                    image.spec_hist(),
                                    width as int,
                                    height as int,
                                    c_type,
                                    tolerance,
                                    x1,
                                    y1,
                                    x2,
                                    y2,
                                ) && y1 * (width as int) + x1 < idx implies uf_root(
                                linked_labels@,
                                labels@[y1 * (width as int) + x1] as int,
                            ) == uf_root(linked_labels@, labels@[y2 * (width as int) + x2] as int) by {
                                let j1 = y1 * (width as int) + x1;
                                let j2 = y2 * (width as int) + x2;
                                lemma_bg_unique(
                                    image.spec_hist(),
                                    bg_key,
                                    crate::ppm::slot_key(image@, j1),
                                );
                                lemma_bg_unique(
                                    image.spec_hist(),
                                    bg_key,
                                    crate::ppm::slot_key(image@, j2),
                                );
                                crate::ppm::lemma_index_in_bounds(
                                    x1,
                                    y1,
                                    width as int,
                                    height as int,
                                );
                                assert(1 <= labels@[j1] as int && (labels@[j1] as int)
                                    < p_before.len());
                                assert(1 <= labels@[j2] as int && (labels@[j2] as int)
                                    < p_before.len());
                                assert(uf_root(p_before, labels@[j1] as int) == uf_root(
                                    p_before,
                                    labels@[j2] as int,
                                ));
                            }
                        }
                        li = li + 1;
                    }
                    proof {
                        lemma_close_pixel_merged(
                            image@,
                            image.spec_hist(),
                            width as int,
                            height as int,
                            c_type,
                            tolerance,
                            labels_pre,
                            labels@,
                            linked_labels@,
                            possible_neighbors@,
                            neighbor_labels@,
                            idx as int,
                            x as int,
                            y as int,
                            bg_key,
                            min_label,
                        );
                    }
                }
            } else {
                proof {
                    assert forall|x1: int, y1: int, x2: int, y2: int|
                        #[trigger] merged_pair(
                            image@,
                            image.spec_hist(),
                            width as int,
                            height as int,
                            c_type,
                            tolerance,
                            x1,
                            y1,
                            x2,
                            y2,
                        ) && y1 * (width as int) + x1 < idx + 1 implies uf_root(
                        linked_labels@,
                        labels@[y1 * (width as int) + x1] as int,
                    ) == uf_root(linked_labels@, labels@[y2 * (width as int) + x2] as int) by {
                        let j1 = y1 * (width as int) + x1;
                        if j1 == idx {
                            lemma_index_injective(width as int, x1, y1, x as int, y as int);
                            assert(is_dominant_key(
                                image.spec_hist(),
                                crate::ppm::slot_key(image@, idx as int),
                            ));
                            assert(false);
                        }
                    }
                }
            }
            x = x + 1;
            proof {
                assert((y as int) * (width as int) + ((x - 1) as int) + 1 == (y as int) * (width
                    as int) + (x as int));
            }
        }
        y = y + 1;
        proof {
            assert(((y - 1) as int) * (width as int) + (width as int) == (y as int) * (width
                as int)) by (nonlinear_arith);
        }
    }
    proof {
        assert((height as int) * (width as int) == (width as int) * (height as int))
            by (nonlinear_arith);
    }

    // Second pass: replace each provisional label with the smallest label of
    // its resolved equivalence class.
    let ghost prov = labels@;
    let ghost uf_final = linked_labels@;
    proof {
        assert(pairs_linked(
            image@,
            image.spec_hist(),
            width as int,
            height as int,
            c_type,
            tolerance,
            prov,
            uf_final,
            wh as int,
        ));
    }
    let mut j: usize = 0;
    while j < wh
        invariant
            j <= wh,
            labels@.len() == wh,
            prov.len() == wh,
            uf_wf(linked_labels@),
            linked_labels@ == uf_final,
            linked_labels@.len() == cur_label + 1,
            cur_label as int <= wh as int,
            forall|m: int| 0 <= m < prov.len() ==> #[trigger] prov[m] <= cur_label,
            forall|m: int| 0 <= m < labels@.len() ==> #[trigger] labels@[m] <= cur_label,
            is_dominant_key(image.spec_hist(), bg_key),
            image.wf(),
            forall|m: int|
                0 <= m < prov.len() ==> ((#[trigger] prov[m] == 0) <==> crate::ppm::slot_key(
                    image@,
                    m,
                ) == bg_key),
            forall|m: int|
                0 <= m < labels@.len() ==> ((#[trigger] labels@[m] == 0)
                    <==> crate::ppm::slot_key(image@, m) == bg_key),
            forall|m: int|
                0 <= m < j ==> (#[trigger] labels@[m] as int) == uf_root(
                    uf_final,
                    prov[m] as int,
                ),
            forall|m: int| j <= m < labels@.len() ==> #[trigger] labels@[m] == prov[m],
        decreases wh - j,
    {
        let current_label = labels[j];
        if current_label != 0 {
            let canonical = uf_find(&linked_labels, current_label as usize);
            labels.set(j, canonical as u64);
        } else {
            proof {
                assert(uf_root(uf_final, 0int) == 0);
            }
        }
        j = j + 1;
    }
    proof {
        // The final labels are the canonical representatives of the
        // provisional first-pass labels, so merged pairs share their final
        // label, and the representative is the smallest of its class.
        assert forall|x1: int, y1: int, x2: int, y2: int|
            #[trigger] merged_pair(
                image@,
                image.spec_hist(),
                width as int,
                height as int,
                c_type,
                tolerance,
                x1,
                y1,
                x2,
                y2,
            ) implies labels@[y1 * (width as int) + x1] == labels@[y2 * (width as int)
            + x2] by {
            let j1 = y1 * (width as int) + x1;
            let j2 = y2 * (width as int) + x2;
            crate::ppm::lemma_index_in_bounds(x1, y1, width as int, height as int);
            assert(j1 < wh);
            assert(uf_root(uf_final, prov[j1] as int) == uf_root(uf_final, prov[j2] as int));
            assert(labels@[j1] as int == uf_root(uf_final, prov[j1] as int));
            assert(labels@[j2] as int == uf_root(uf_final, prov[j2] as int));
        }
        assert forall|l1: int, l2: int|
            1 <= l1 < uf_final.len() && 1 <= l2 < uf_final.len() && #[trigger] uf_root(
                uf_final,
                l1,
            ) == #[trigger] uf_root(uf_final, l2) implies uf_root(uf_final, l1) <= l2 by {
            lemma_uf_root_props(uf_final, l2);
        }
        assert(two_pass_certificate(prov, uf_final, labels@));
        assert(exists|p2: Seq<u64>, u2: Seq<usize>|
            two_pass_certificate(p2, u2, labels@)) by {
            assert(two_pass_certificate(prov, uf_final, labels@));
        }
    }

    // Third pass: count the distinct canonical labels in use.
    let mut seen: Vec<bool> = Vec::new();
    let mut z2: usize = 0;
    let seen_len: usize = (cur_label as usize) + 1;
    while z2 < seen_len
        invariant
            z2 <= seen_len,
            seen@.len() == z2,
            forall|m: int| 0 <= m < z2 ==> #[trigger] seen@[m] == false,
        decreases seen_len - z2,
    {
        seen.push(false);
        z2 = z2 + 1;
    }
    let mut count: usize = 0;
    let ghost mut seen_set = Set::<u64>::empty();
    let mut k: usize = 0;
    while k < wh
        invariant
            k <= wh,
            labels@.len() == wh,
            seen@.len() == cur_label + 1,
            cur_label as int <= wh as int,
            count <= k,
            forall|m: int| 0 <= m < labels@.len() ==> #[trigger] labels@[m] <= cur_label,
            seen_set.finite(),
            count == seen_set.len(),
            forall|v: u64|
                seen_set.contains(v) <==> (v != 0 && exists|m: int|
                    0 <= m < k && labels@[m] == v),
            forall|v: int|
                0 <= v <= cur_label ==> (#[trigger] seen@[v] <==> seen_set.contains(v as u64)),
        decreases wh - k,
    {
        let l = labels[k];
        proof {
            assert(l <= cur_label);
            assert((l as usize) as int == l as int);
        }
        if l != 0 && !seen[l as usize] {
            seen.set(l as usize, true);
            count = count + 1;
            proof {
                vstd::set::axiom_set_insert_len(seen_set, l);
                seen_set = seen_set.insert(l);
                assert forall|v: u64|
                    seen_set.contains(v) <==> (v != 0 && exists|m: int|
                        0 <= m < k + 1 && labels@[m] == v) by {
                    if v == l {
                        assert(labels@[k as int] == v);
                    }
                }
            }
        } else {
            proof {
                assert forall|v: u64|
                    seen_set.contains(v) <==> (v != 0 && exists|m: int|
                        0 <= m < k + 1 && labels@[m] == v) by {
                    if v != 0 && exists|m: int| 0 <= m < k + 1 && labels@[m] == v {
                        let m = choose|m: int| 0 <= m < k + 1 && labels@[m] == v;
                        if m == k {
                            assert(v == l);
                            assert(l != 0);
                            assert(labels@[k as int] <= cur_label);
                            assert(seen@[l as int]);
                            assert(seen_set.contains(v));
                        }
                    }
                }
            }
        }
        k = k + 1;
    }
    proof {
        assert(seen_set =~= Set::new(|v: u64| v != 0 && labels@.contains(v)));
    }
    (labels, count)
}

#[verifier::external_type_specification]
#[verifier::external_body]
pub struct ExThreadRng(rand::rngs::ThreadRng);

/// Relies on rand::thread_rng: a handle to the thread-local random number
/// generator, used to draw the mask's false colors.
#[verifier::external_body]
fn fresh_thread_rng() -> rand::rngs::ThreadRng {
    rand::thread_rng()
}

/// Relies on Rng::gen_range over the half-open range from 0 to 255: the
/// sample always lies strictly below the upper bound (the range is not
/// empty, so the call cannot panic). Nothing more is promised of a random
/// draw.
#[verifier::external_body]
fn random_channel(rng: &mut rand::rngs::ThreadRng) -> (r: u8)
    ensures
        r < 255,
{
    rng.gen_range(u8::MIN..u8::MAX)
}

/// Paints each label with its assigned color: pixel slot `j` of the result
/// shows `colors[labels[j]]`. Statistics maintenance is off in the result,
/// since a display mask has no further use for it.
pub fn render_label_mask(
    width: u32,
    height: u32,
    labels: &Vec<u64>,
    colors: &Vec<PixelBytes>,
) -> (img: PpmImage)
    requires
        3 * (width as int) * (height as int) <= usize::MAX as int,
        labels@.len() == (width as int) * (height as int),
        forall|j: int| 0 <= j < labels@.len() ==> (#[trigger] labels@[j] as int) < colors@.len(),
    ensures
        img.wf(),
        img.spec_width() == width,
        img.spec_height() == height,
        !img.spec_keep_updated(),
        forall|j: int|
            0 <= j < labels@.len() ==> (img@[3 * j] == (#[trigger] colors@[labels@[j] as int])@[0]
                && img@[3 * j + 1] == colors@[labels@[j] as int]@[1] && img@[3 * j + 2]
                == colors@[labels@[j] as int]@[2]),
{
    let mut new_image = PpmImage::new(width, height);
    new_image.set_keep_histogram_updated(false);
    proof {
        let w = width as int;
        let h = height as int;
        assert(3 * (w * h) == 3 * w * h) by (nonlinear_arith);
    }
    let total: usize = (width as usize) * (height as usize);
    let mut pixel_index: usize = 0;
    let mut i: usize = 0;
    while i < total
        invariant
            i <= total,
            pixel_index == 3 * i,
            total == labels@.len(),
            3 * total == new_image@.len(),
            forall|j: int|
                0 <= j < labels@.len() ==> (#[trigger] labels@[j] as int) < colors@.len(),
            new_image.wf(),
            !new_image.spec_keep_updated(),
            new_image.spec_width() == width,
            new_image.spec_height() == height,
            forall|j: int|
                0 <= j < i ==> (new_image@[3 * j] == (#[trigger] colors@[labels@[j] as int])@[0]
                    && new_image@[3 * j + 1] == colors@[labels@[j] as int]@[1] && new_image@[3 * j
                    + 2] == colors@[labels@[j] as int]@[2]),
        decreases total - i,
    {
        let ncolors = colors.len();
        proof {
            assert(3 * i + 2 < 3 * total);
            assert((labels@[i as int] as int) < (ncolors as int));
            assert((labels@[i as int] as usize) as int == labels@[i as int] as int);
        }
        let label = labels[i];
        let color = colors[label as usize];
        let ghost before = new_image@;
        new_image.set_pixel(&mut pixel_index, &color);
        proof {
            assert forall|j: int|
                0 <= j < i + 1 implies (new_image@[3 * j] == (
            #[trigger] colors@[labels@[j] as int])@[0] && new_image@[3 * j + 1] == colors@[
                labels@[j] as int]@[1] && new_image@[3 * j + 2] == colors@[labels@[j] as int]@[
                2]) by {
                if j < i {
                    assert(new_image@[3 * j] == before[3 * j]);
                    assert(new_image@[3 * j + 1] == before[3 * j + 1]);
                    assert(new_image@[3 * j + 2] == before[3 * j + 2]);
                }
            }
        }
        i = i + 1;
    }
    new_image
}

/// What a rendered mask owes to the labeling it paints: some labeling of
/// the image with the labeling contract's properties (background exactly on
/// label 0, merged pairs co-labeled) and some per-label palette, such that
/// every pixel shows its label's palette entry. In particular any two
/// pixels with one canonical label show one color.
pub open spec fn mask_certificate(
    s: Seq<u8>,
    hist: Seq<(u32, usize)>,
    w: int,
    h: int,
    c: Connectivity,
    tol: u32,
    labels: Seq<u64>,
    colors: Seq<Seq<u8>>,
    mask: Seq<u8>,
) -> bool {
    &&& labels.len() == w * h
    &&& forall|j: int|
        0 <= j < labels.len() ==> ((#[trigger] labels[j] == 0) <==> is_dominant_key(
            hist,
            crate::ppm::slot_key(s, j),
        ))
    &&& forall|x1: int, y1: int, x2: int, y2: int|
        #[trigger] merged_pair(s, hist, w, h, c, tol, x1, y1, x2, y2) ==> labels[y1 * w + x1]
            == labels[y2 * w + x2]
    &&& forall|j: int| 0 <= j < labels.len() ==> (#[trigger] labels[j] as int) < colors.len()
    &&& forall|j: int|
        0 <= j < labels.len() ==> (mask[3 * j] == (#[trigger] colors[labels[j] as int])[0]
            && mask[3 * j + 1] == colors[labels[j] as int][1] && mask[3 * j + 2] == colors[
            labels[j] as int][2])
}

/// Builds a false-color visualization of the image's labeling: label 0 (the
/// background) keeps the background color, and every other canonical label
/// gets a pseudo-random color, stable only within this one invocation. No
/// random channel ever reaches 255, so wherever the mask shows a
/// non-background region, every channel stays below 255; and the mask
/// paints by canonical label, so co-labeled pixels show one color.
pub fn make_ccl_mask(image: &PpmImage, c_type: Connectivity, tolerance: u32) -> (img: PpmImage)
    requires
        image.wf(),
        image.spec_hist().len() > 0,
        image.spec_width() <= 0x7FFF_FFFF,
        image.spec_height() <= 0x7FFF_FFFF,
    ensures
        img.wf(),
        img.spec_width() == image.spec_width(),
        img.spec_height() == image.spec_height(),
        forall|j: int|
            0 <= j < image.spec_width() * image.spec_height() && is_dominant_key(
                image.spec_hist(),
                #[trigger] crate::ppm::slot_key(image@, j),
            ) ==> (img@[3 * j] == crate::ppm::slot_key(image@, j) / 0x10000 % 256 && img@[3 * j
                + 1] == crate::ppm::slot_key(image@, j) / 0x100 % 256 && img@[3 * j + 2]
                == crate::ppm::slot_key(image@, j) % 256),
        forall|j: int|
            0 <= j < image.spec_width() * image.spec_height() && !is_dominant_key(
                image.spec_hist(),
                #[trigger] crate::ppm::slot_key(image@, j),
            ) ==> (img@[3 * j] < 255 && img@[3 * j + 1] < 255 && img@[3 * j + 2] < 255),
        exists|labels: Seq<u64>, colors: Seq<Seq<u8>>|
            mask_certificate(
                image@,
                image.spec_hist(),
                image.spec_width() as int,
                image.spec_height() as int,
                c_type,
                tolerance,
                labels,
                colors,
                img@,
            ),
{
    let (pixel_labels, _label_count) = ccl(image, c_type, tolerance);
    let bg_color = image.get_background();
    let mut max_label: u64 = 0;
    let mut i: usize = 0;
    while i < pixel_labels.len()
        invariant
            i <= pixel_labels@.len(),
            forall|j: int| 0 <= j < i ==> #[trigger] pixel_labels@[j] <= max_label,
            max_label == 0 || exists|j: int| 0 <= j < i && pixel_labels@[j] == max_label,
        decreases pixel_labels@.len() - i,
    {
        if pixel_labels[i] > max_label {
            max_label = pixel_labels[i];
        }
        i = i + 1;
    }
    let mut label_colors: Vec<PixelBytes> = Vec::new();
    label_colors.push(bg_color);
    let mut rng = fresh_thread_rng();
    let mut l: u64 = 0;
    let n_labels = pixel_labels.len();
    proof {
        if max_label > 0 {
            let j = choose|j: int| 0 <= j < pixel_labels@.len() && pixel_labels@[j] == max_label;
            assert(pixel_labels@[j] as int <= pixel_labels@.len());
            assert(max_label as int <= n_labels as int);
        }
        assert((max_label as usize) as int == max_label as int);
    }
    while l < max_label
        invariant
            l <= max_label,
            max_label <= usize::MAX,
            label_colors@.len() == l + 1,
            label_colors@[0] == bg_color,
            forall|k: int|
                1 <= k < label_colors@.len() ==> ((#[trigger] label_colors@[k])@[0] < 255
                    && label_colors@[k]@[1] < 255 && label_colors@[k]@[2] < 255),
        decreases max_label - l,
    {
        let c0 = random_channel(&mut rng);
        let c1 = random_channel(&mut rng);
        let c2 = random_channel(&mut rng);
        let color = [c0, c1, c2];
        proof {
            assert(color@ =~= seq![c0, c1, c2]);
        }
        label_colors.push(color);
        l = l + 1;
    }
    let new_image = render_label_mask(
        image.width(),
        image.height(),
        &pixel_labels,
        &label_colors,
    );
    proof {
        let hist = image.spec_hist();
        let bgk = pix_key(bg_color@[0], bg_color@[1], bg_color@[2]);
        assert forall|j: int|
            0 <= j < image.spec_width() * image.spec_height() && is_dominant_key(
                hist,
                #[trigger] crate::ppm::slot_key(image@, j),
            ) implies (new_image@[3 * j] == crate::ppm::slot_key(image@, j) / 0x10000 % 256
            && new_image@[3 * j + 1] == crate::ppm::slot_key(image@, j) / 0x100 % 256
            && new_image@[3 * j + 2] == crate::ppm::slot_key(image@, j) % 256) by {
            crate::ppm::lemma_dominant_unique(hist, crate::ppm::slot_key(image@, j), bgk);
            assert(pixel_labels@[j] == 0);
            assert(label_colors@[0] == bg_color);
            assert(new_image@[3 * j] == bg_color@[0]);
            assert(new_image@[3 * j + 1] == bg_color@[1]);
            assert(new_image@[3 * j + 2] == bg_color@[2]);
            lemma_key_channels(bg_color@[0], bg_color@[1], bg_color@[2], 0);
            lemma_key_channels(bg_color@[0], bg_color@[1], bg_color@[2], 1);
            lemma_key_channels(bg_color@[0], bg_color@[1], bg_color@[2], 2);
        }
        assert forall|j: int|
            0 <= j < image.spec_width() * image.spec_height() && !is_dominant_key(
                hist,
                #[trigger] crate::ppm::slot_key(image@, j),
            ) implies (new_image@[3 * j] < 255 && new_image@[3 * j + 1] < 255 && new_image@[3 * j
            + 2] < 255) by {
            assert(pixel_labels@[j] != 0);
            assert(pixel_labels@[j] <= max_label);
            assert(1 <= pixel_labels@[j] as int && (pixel_labels@[j] as int)
                < label_colors@.len());
            assert(new_image@[3 * j] == label_colors@[pixel_labels@[j] as int]@[0]);
            assert(new_image@[3 * j + 1] == label_colors@[pixel_labels@[j] as int]@[1]);
            assert(new_image@[3 * j + 2] == label_colors@[pixel_labels@[j] as int]@[2]);
        }
        // The mask paints the returned labeling through the drawn palette.
        let wi = image.spec_width() as int;
        let hi = image.spec_height() as int;
        let palette = label_colors@.map_values(|p: PixelBytes| p@);
        assert forall|j: int| 0 <= j < pixel_labels@.len() implies (new_image@[3 * j] == (
        #[trigger] palette[pixel_labels@[j] as int])[0] && new_image@[3 * j + 1] == palette[
            pixel_labels@[j] as int][1] && new_image@[3 * j + 2] == palette[pixel_labels@[j]
            as int][2]) by {
            assert(pixel_labels@[j] <= max_label);
            assert(palette[pixel_labels@[j] as int] == label_colors@[pixel_labels@[j] as int]@);
            assert(new_image@[3 * j] == label_colors@[pixel_labels@[j] as int]@[0]);
            assert(new_image@[3 * j + 1] == label_colors@[pixel_labels@[j] as int]@[1]);
            assert(new_image@[3 * j + 2] == label_colors@[pixel_labels@[j] as int]@[2]);
        }
        assert(mask_certificate(
            image@,
            hist,
            wi,
            hi,
            c_type,
            tolerance,
            pixel_labels@,
            palette,
            new_image@,
        ));
        assert(exists|labels: Seq<u64>, colors: Seq<Seq<u8>>|
            mask_certificate(
                image@,
                hist,
                wi,
                hi,
                c_type,
                tolerance,
                labels,
                colors,
                new_image@,
            )) by {
            assert(mask_certificate(
                image@,
                hist,
                wi,
                hi,
                c_type,
                tolerance,
                pixel_labels@,
                palette,
                new_image@,
            ));
        }
    }
    new_image
}

/// Reading a channel back out of a packed pixel key.
proof fn lemma_key_channels(r: u8, g: u8, b: u8, ch: int)
    requires
        0 <= ch < 3,
    ensures
        pix_key(r, g, b) / (if ch == 0 {
            0x10000int
        } else if ch == 1 {
            0x100int
        } else {
            1int
        }) % 256 == (if ch == 0 {
            r
        } else if ch == 1 {
            g
        } else {
            b
        }),
{
    let k = pix_key(r, g, b);
    assert(k / 0x10000 % 256 == r && k / 0x100 % 256 == g && k / 1 % 256 == b) by (nonlinear_arith)
        requires
            k == r * 0x10000 + g * 0x100 + b,
            0 <= r < 256,
            0 <= g < 256,
            0 <= b < 256,
    ;
}

} // verus!
