//! The bounding-volume hierarchy: a binary tree over primitive bounding
//! boxes, built by median splits along a randomly chosen axis and traversed
//! with nearer-child-first pruning.

use vstd::prelude::*;
use crate::vec3::nth_spec;
use crate::ray::{Ray, ray_ok, T_FX_MAX};
use crate::aabb::{BoundingBox, box_ok, box_contains, slab_hit, surrounding_box, surrounding_spec};
use crate::sphere::{Hittable, HitRecord, hittable_ok, rec_ok, full_hit, scan_best, HIT_EPS_FX};
use crate::rng::XorShift;

verus! {

/// A subtree: either one primitive or an inner node with two children.
#[derive(Debug)]
pub enum BvhBox {
    Leaf(BvhLeaf),
    Node(BvhNode),
}

/// An inner node owning its two children and their united box.
#[derive(Debug)]
pub struct BvhNode {
    pub left: Box<BvhBox>,
    pub right: Box<BvhBox>,
    pub boxx: BoundingBox,
}

/// A leaf: one primitive with its bounding box.
#[derive(Clone, Copy, PartialEq, Eq, Structural, Debug)]
pub struct BvhLeaf {
    pub boxx: BoundingBox,
    pub has_a: Hittable,
}

/// A subtree whose box test succeeded, with the entry parameter.
#[derive(Clone, Copy)]
pub struct PossibleHit<'a> {
    pub boxx: &'a BvhBox,
    pub t: i64,
}

/// Height of a subtree, for termination measures.
pub open spec fn height(b: BvhBox) -> nat
    decreases b,
{
    match b {
        BvhBox::Leaf(_) => 0,
        BvhBox::Node(n) => 1 + if height(*n.left) > height(*n.right) {
            height(*n.left)
        } else {
            height(*n.right)
        },
    }
}

/// The box of a subtree.
pub open spec fn get_box_spec(b: BvhBox) -> BoundingBox {
    match b {
        BvhBox::Leaf(l) => l.boxx,
        BvhBox::Node(n) => n.boxx,
    }
}

/// The primitives stored under a subtree, left to right.
pub open spec fn objs_of(b: BvhBox) -> Seq<Hittable>
    decreases b,
{
    match b {
        BvhBox::Leaf(l) => seq![l.has_a],
        BvhBox::Node(n) => objs_of(*n.left) + objs_of(*n.right),
    }
}

/// The leaves of a subtree, left to right.
pub open spec fn leaves_of(b: BvhBox) -> Seq<BvhLeaf>
    decreases b,
{
    match b {
        BvhBox::Leaf(l) => seq![l],
        BvhBox::Node(n) => leaves_of(*n.left) + leaves_of(*n.right),
    }
}

/// Every inner node's box is exactly the union of its children's boxes, so
/// containment holds at every level of the tree.
pub open spec fn boxes_structured(b: BvhBox) -> bool
    decreases b,
{
    match b {
        BvhBox::Leaf(_) => true,
        BvhBox::Node(n) => {
            &&& n.boxx == surrounding_spec(get_box_spec(*n.left), get_box_spec(*n.right))
            &&& boxes_structured(*n.left)
            &&& boxes_structured(*n.right)
        },
    }
}

/// Geometric well-formedness of every box and primitive in a subtree.
pub open spec fn bvh_wf(b: BvhBox) -> bool
    decreases b,
{
    match b {
        BvhBox::Leaf(l) => box_ok(l.boxx) && hittable_ok(l.has_a),
        BvhBox::Node(n) => box_ok(n.boxx) && bvh_wf(*n.left) && bvh_wf(*n.right),
    }
}

/// A leaf with a valid box and primitive.
pub open spec fn leaf_ok(l: BvhLeaf) -> bool {
    box_ok(l.boxx) && hittable_ok(l.has_a)
}

/// The sort key of a leaf: the minimum corner along the chosen axis.
pub open spec fn leaf_key(l: BvhLeaf, axis: int) -> int {
    nth_spec(l.boxx.point1, axis)
}

/// Sorted by the key along `axis`.
pub open spec fn sorted_by_axis(s: Seq<BvhLeaf>, axis: int) -> bool {
    forall|i: int, j: int|
        0 <= i < j < s.len() ==> leaf_key(#[trigger] s[i], axis) <= leaf_key(#[trigger] s[j], axis)
}

pub open spec fn leaves_ok(s: Seq<BvhLeaf>) -> bool {
    forall|i: int| 0 <= i < s.len() ==> leaf_ok(#[trigger] s[i])
}

/// The primitives carried by a run of leaves.
pub open spec fn leaf_objs(s: Seq<BvhLeaf>) -> Seq<Hittable> {
    s.map_values(|l: BvhLeaf| l.has_a)
}

/// Sort leaves by the minimum box corner along one axis, by insertion into
/// a fresh list; the contents are kept as a multiset.
fn sort_leaves(v: Vec<BvhLeaf>, axis: u8) -> (out: Vec<BvhLeaf>)
    ensures
        out@.to_multiset() == v@.to_multiset(),
        leaf_objs(out@).to_multiset() == leaf_objs(v@).to_multiset(),
        out@.len() == v@.len(),
        sorted_by_axis(out@, axis as int),
        leaves_ok(v@) ==> leaves_ok(out@),
{
    broadcast use vstd::seq_lib::group_to_multiset_ensures;

    let n = v.len();
    let mut out: Vec<BvhLeaf> = Vec::new();
    let mut i: usize = 0;
    while i < n
        invariant
            0 <= i <= n,
            n == v@.len(),
            out@.len() == i,
            out@.to_multiset() == v@.take(i as int).to_multiset(),
            leaf_objs(out@).to_multiset() == leaf_objs(v@.take(i as int)).to_multiset(),
            sorted_by_axis(out@, axis as int),
            leaves_ok(v@) ==> leaves_ok(out@),
        decreases n - i,
    {
        let x = v[i];
        let key_x = x.boxx.point1.nth(axis);
        let mut j: usize = 0;
        while j < out.len() && out[j].boxx.point1.nth(axis) <= key_x
            invariant
                0 <= j <= out@.len(),
                forall|k: int| 0 <= k < j ==> leaf_key(#[trigger] out@[k], axis as int) <= key_x,
            decreases out@.len() - j,
        {
            j = j + 1;
        }
        let ghost old_out = out@;
        out.insert(j, x);
        proof {
            assert(v@.take(i as int + 1) =~= v@.take(i as int).push(x));
            assert(out@ =~= old_out.insert(j as int, x));
            vstd::seq_lib::to_multiset_insert(old_out, j as int, x);
            vstd::seq_lib::to_multiset_build(v@.take(i as int), x);
            assert(leaf_objs(out@) =~= leaf_objs(old_out).insert(j as int, x.has_a));
            assert(leaf_objs(v@.take(i as int + 1)) =~= leaf_objs(v@.take(i as int)).push(
                x.has_a,
            ));
            vstd::seq_lib::to_multiset_insert(leaf_objs(old_out), j as int, x.has_a);
            vstd::seq_lib::to_multiset_build(leaf_objs(v@.take(i as int)), x.has_a);
            assert forall|a: int, b: int| 0 <= a < b < out@.len() implies leaf_key(
                #[trigger] out@[a],
                axis as int,
            ) <= leaf_key(#[trigger] out@[b], axis as int) by {
                if b < j {
                    assert(out@[a] == old_out[a] && out@[b] == old_out[b]);
                } else if a > j {
                    assert(out@[a] == old_out[a - 1] && out@[b] == old_out[b - 1]);
                } else if a < j && b == j {
                    assert(out@[a] == old_out[a]);
                } else if a == j && b > j {
                    assert(out@[b] == old_out[b - 1]);
                } else if a < j && b > j {
                    assert(out@[a] == old_out[a] && out@[b] == old_out[b - 1]);
                }
            }
            assert(leaves_ok(v@) ==> leaves_ok(out@)) by {
                if leaves_ok(v@) {
                    assert forall|k: int| 0 <= k < out@.len() implies leaf_ok(
                        #[trigger] out@[k],
                    ) by {
                        if k < j {
                            assert(out@[k] == old_out[k]);
                        } else if k == j {
                            assert(out@[k] == x);
                        } else {
                            assert(out@[k] == old_out[k - 1]);
                        }
                    }
                }
            }
        }
        i = i + 1;
    }
    proof {
        assert(v@.take(n as int) =~= v@);
    }
    out
}

/// Build the tree over a non-empty set of leaves: sort along a random axis,
/// split at the median, and unite the children's boxes.
pub fn get_bvh_box(spheres: Vec<BvhLeaf>, rng: &mut XorShift) -> (b: BvhBox)
    requires
        spheres@.len() >= 1,
        leaves_ok(spheres@),
    ensures
        bvh_wf(b),
        boxes_structured(b),
        leaves_of(b).to_multiset() == spheres@.to_multiset(),
        objs_of(b).to_multiset() == leaf_objs(spheres@).to_multiset(),
    decreases spheres@.len(),
{
    broadcast use vstd::seq_lib::group_to_multiset_ensures;

    let axis = rng.next_axis();
    let mut sorted = sort_leaves(spheres, axis);
    let ghost whole = sorted@;
    if sorted.len() == 1 {
        let l = sorted.pop().unwrap();
        let b = BvhBox::Leaf(l);
        proof {
            assert(whole[0] == l);
            assert(leaf_ok(l));
            assert(objs_of(b) =~= leaf_objs(whole));
            assert(leaves_of(b) =~= whole);
        }
        b
    } else if sorted.len() == 2 {
        let l1 = sorted.pop().unwrap();
        let l0 = sorted.pop().unwrap();
        let boxx = surrounding_box(&l0.boxx, &l1.boxx);
        proof {
            assert(whole[0] == l0 && whole[1] == l1);
            assert(leaf_ok(l0) && leaf_ok(l1));
            lemma_surrounding_ok(l0.boxx, l1.boxx);
        }
        let b = BvhBox::Node(BvhNode {
            left: Box::new(BvhBox::Leaf(l0)),
            right: Box::new(BvhBox::Leaf(l1)),
            boxx,
        });
        proof {
            assert(objs_of(BvhBox::Leaf(l0)) =~= seq![l0.has_a]);
            assert(objs_of(BvhBox::Leaf(l1)) =~= seq![l1.has_a]);
            assert(bvh_wf(BvhBox::Leaf(l0)) && bvh_wf(BvhBox::Leaf(l1)));
            assert(boxes_structured(BvhBox::Leaf(l0)) && boxes_structured(BvhBox::Leaf(l1)));
            assert(leaves_of(BvhBox::Leaf(l0)) =~= seq![l0]);
            assert(leaves_of(BvhBox::Leaf(l1)) =~= seq![l1]);
            assert(objs_of(b) =~= leaf_objs(whole));
            assert(leaves_of(b) =~= whole);
        }
        b
    } else {
        let n = sorted.len();
        let right_vec = sorted.split_off(n / 2);
        proof {
            assert(whole =~= sorted@ + right_vec@);
            vstd::seq_lib::lemma_multiset_commutative(sorted@, right_vec@);
            assert(leaf_objs(whole) =~= leaf_objs(sorted@) + leaf_objs(right_vec@));
            vstd::seq_lib::lemma_multiset_commutative(leaf_objs(sorted@), leaf_objs(right_vec@));
            assert(leaves_ok(sorted@)) by {
                assert(forall|k: int|
                    0 <= k < sorted@.len() ==> #[trigger] sorted@[k] == whole[k]);
            }
            assert(leaves_ok(right_vec@)) by {
                assert(forall|k: int|
                    0 <= k < right_vec@.len() ==> #[trigger] right_vec@[k] == whole[
                        k + n as int / 2
                    ]);
            }
        }
        let left = get_bvh_box(sorted, rng);
        let right = get_bvh_box(right_vec, rng);
        let ghost gleft = left;
        let ghost gright = right;
        let boxx = surrounding_box(get_box_of(&left), get_box_of(&right));
        proof {
            lemma_surrounding_ok(get_box_spec(gleft), get_box_spec(gright));
        }
        let b = BvhBox::Node(BvhNode { left: Box::new(left), right: Box::new(right), boxx });
        proof {
            assert(objs_of(b) =~= objs_of(gleft) + objs_of(gright));
            vstd::seq_lib::lemma_multiset_commutative(objs_of(gleft), objs_of(gright));
            assert(leaves_of(b) =~= leaves_of(gleft) + leaves_of(gright));
            vstd::seq_lib::lemma_multiset_commutative(leaves_of(gleft), leaves_of(gright));
        }
        b
    }
}

/// The union of two valid boxes is valid.
proof fn lemma_surrounding_ok(a: BoundingBox, b: BoundingBox)
    requires
        box_ok(a),
        box_ok(b),
    ensures
        box_ok(surrounding_spec(a, b)),
{
}

/// The box of a subtree.
fn get_box_of(b: &BvhBox) -> (r: &BoundingBox)
    ensures
        *r == get_box_spec(*b),
{
    match b {
        BvhBox::Leaf(leaf) => &leaf.boxx,
        BvhBox::Node(node) => &node.boxx,
    }
}

/// The larger of two naturals.
pub open spec fn nmax(a: nat, b: nat) -> nat {
    if a > b {
        a
    } else {
        b
    }
}

/// The hit parameter, or the far limit when there is none.
pub open spec fn t_or_max_spec(h: Option<HitRecord>) -> int {
    match h {
        Some(rec) => rec.t as int,
        None => T_FX_MAX as int,
    }
}

/// Traversal of a subtree: the hit it reports for a ray, pruning a subtree
/// whose box-entry parameter lies beyond `deepest`.
pub open spec fn dig_spec(b: BvhBox, r: Ray, deepest: int) -> Option<HitRecord>
    decreases height(b), 0nat,
{
    match b {
        BvhBox::Leaf(l) => full_hit(l.has_a, r),
        BvhBox::Node(n) => {
            let lh = slab_hit(get_box_spec(*n.left), r);
            let rh = slab_hit(get_box_spec(*n.right), r);
            if lh is Some && rh is Some {
                if lh->Some_0 < rh->Some_0 {
                    pdh_spec(*n.left, lh->Some_0 as int, *n.right, rh->Some_0 as int, deepest, r)
                } else {
                    pdh_spec(*n.right, rh->Some_0 as int, *n.left, lh->Some_0 as int, deepest, r)
                }
            } else if lh is Some {
                ph_spec(*n.left, lh->Some_0 as int, deepest, r)
            } else if rh is Some {
                ph_spec(*n.right, rh->Some_0 as int, deepest, r)
            } else {
                None
            }
        },
    }
}

/// One child whose box was struck: prune it when its entry parameter lies
/// beyond `deepest`, else dig it fully.
pub open spec fn ph_spec(b: BvhBox, t: int, deepest: int, r: Ray) -> Option<HitRecord>
    decreases height(b), 1nat,
{
    if t > deepest {
        None
    } else {
        dig_spec(b, r, T_FX_MAX as int)
    }
}

/// Both children struck, nearer box first: dig the nearer fully; visit the
/// farther only when the nearer's confirmed hit does not already beat the
/// farther's box entry, and keep the closer of the two results.
pub open spec fn pdh_spec(first: BvhBox, ft: int, second: BvhBox, st: int, deepest: int, r: Ray) -> Option<HitRecord>
    decreases nmax(height(first), height(second)), 1nat,
{
    if ft > deepest {
        None
    } else {
        let hd = dig_spec(first, r, T_FX_MAX as int);
        let hdt = t_or_max_spec(hd);
        if hdt < st {
            hd
        } else {
            let hd2 = dig_spec(second, r, hdt);
            if hd is Some && hd2 is Some {
                if hd->Some_0.t < hd2->Some_0.t {
                    hd
                } else {
                    hd2
                }
            } else if hd is Some {
                hd
            } else {
                hd2
            }
        }
    }
}

/// A record in the ranges the traversal relies on.
pub open spec fn dig_rec_ok(h: Option<HitRecord>) -> bool {
    h is Some ==> rec_ok(h->Some_0) && (HIT_EPS_FX as int) < h->Some_0.t < (T_FX_MAX as int)
}

/// The slab test of a subtree's own box, paired with the subtree.
fn hit_bvh<'a>(the_enum: &'a BvhBox, r: &Ray) -> (res: Option<PossibleHit<'a>>)
    requires
        bvh_wf(*the_enum),
        ray_ok(*r),
    ensures
        res is Some ==> *res->Some_0.boxx == *the_enum && slab_hit(get_box_spec(*the_enum), *r)
            == Some(res->Some_0.t),
        res is None ==> slab_hit(get_box_spec(*the_enum), *r) is None,
{
    match get_box_of(the_enum).hit(r) {
        Some(rr) => Some(PossibleHit { boxx: the_enum, t: rr }),
        None => None,
    }
}

/// The hit parameter found so far, or the far limit.
fn get_t_or_max(hit: &Option<HitRecord>) -> (t: i64)
    ensures
        t == t_or_max_spec(*hit),
{
    match hit {
        Some(h) => h.t,
        None => T_FX_MAX,
    }
}

/// Dig one struck child, pruning against the best hit so far.
fn process_hit<'a>(hit: PossibleHit<'a>, deepest_hit: i64, r: &Ray) -> (res: Option<HitRecord>)
    requires
        bvh_wf(*hit.boxx),
        ray_ok(*r),
    ensures
        res == ph_spec(*hit.boxx, hit.t as int, deepest_hit as int, *r),
        dig_rec_ok(res),
    decreases 3 * height(*hit.boxx) + 3,
{
    if hit.t > deepest_hit {
        None
    } else {
        hit.boxx.dig(r, T_FX_MAX)
    }
}

/// Dig two struck children, nearer first, with early-exit pruning.
fn process_double_hit<'a>(
    hit: PossibleHit<'a>,
    hit2: PossibleHit<'a>,
    deepest_hit: i64,
    r: &Ray,
) -> (res: Option<HitRecord>)
    requires
        bvh_wf(*hit.boxx),
        bvh_wf(*hit2.boxx),
        ray_ok(*r),
    ensures
        res == pdh_spec(*hit.boxx, hit.t as int, *hit2.boxx, hit2.t as int, deepest_hit as int, *r),
        dig_rec_ok(res),
    decreases 3 * nmax(height(*hit.boxx), height(*hit2.boxx)) + 3,
{
    if hit.t > deepest_hit {
        None
    } else {
        let hit_dug = hit.boxx.dig(r, T_FX_MAX);
        let hit_dug_t = get_t_or_max(&hit_dug);
        if hit_dug_t < hit2.t {
            hit_dug
        } else {
            match (hit_dug, hit2.boxx.dig(r, hit_dug_t)) {
                (Some(l), Some(rr)) => {
                    if l.t < rr.t {
                        Some(l)
                    } else {
                        Some(rr)
                    }
                },
                (Some(l), None) => Some(l),
                (None, Some(rr)) => Some(rr),
                (None, None) => None,
            }
        }
    }
}

impl BvhNode {
    /// The slab test for this node inside its enum shell.
    pub fn hit<'a>(&'a self, the_enum: &'a BvhBox, r: &Ray) -> (res: Option<PossibleHit<'a>>)
        requires
            bvh_wf(*the_enum),
            ray_ok(*r),
        ensures
            res is Some ==> *res->Some_0.boxx == *the_enum && slab_hit(
                get_box_spec(*the_enum),
                *r,
            ) == Some(res->Some_0.t),
            res is None ==> slab_hit(get_box_spec(*the_enum), *r) is None,
    {
        hit_bvh(the_enum, r)
    }

    /// Traverse both children, nearer box first.
    pub fn dig(&self, r: &Ray, deepest_hit: i64) -> (res: Option<HitRecord>)
        requires
            bvh_wf(BvhBox::Node(*self)),
            ray_ok(*r),
        ensures
            res == dig_spec(BvhBox::Node(*self), *r, deepest_hit as int),
            dig_rec_ok(res),
        decreases 3 * (1 + nmax(height(*self.left), height(*self.right))) + 1,
    {
        proof {
            assert(bvh_wf(*self.left) && bvh_wf(*self.right));
        }
        let left_hit = self.left.hit(r);
        let right_hit = self.right.hit(r);
        match (left_hit, right_hit) {
            (Some(left), Some(right)) => {
                if left.t < right.t {
                    process_double_hit(left, right, deepest_hit, r)
                } else {
                    process_double_hit(right, left, deepest_hit, r)
                }
            },
            (Some(left), None) => process_hit(left, deepest_hit, r),
            (None, Some(right)) => process_hit(right, deepest_hit, r),
            (None, None) => None,
        }
    }
}

impl BvhLeaf {
    /// The slab test for this leaf inside its enum shell.
    pub fn hit<'a>(&'a self, the_enum: &'a BvhBox, r: &Ray) -> (res: Option<PossibleHit<'a>>)
        requires
            bvh_wf(*the_enum),
            ray_ok(*r),
        ensures
            res is Some ==> *res->Some_0.boxx == *the_enum && slab_hit(
                get_box_spec(*the_enum),
                *r,
            ) == Some(res->Some_0.t),
            res is None ==> slab_hit(get_box_spec(*the_enum), *r) is None,
    {
        hit_bvh(the_enum, r)
    }

    /// The intersection with this leaf's primitive over the full range.
    pub fn dig(&self, r: &Ray) -> (res: Option<HitRecord>)
        requires
            leaf_ok(*self),
            ray_ok(*r),
        ensures
            res == full_hit(self.has_a, *r),
            dig_rec_ok(res),
    {
        match self.has_a.hit(r, HIT_EPS_FX, T_FX_MAX) {
            Some(h) => Some(h),
            None => None,
        }
    }

    /// This leaf's box.
    pub fn get_box(&self) -> (b: &BoundingBox)
        ensures
            *b == self.boxx,
    {
        &self.boxx
    }
}

impl BvhBox {
    /// The slab test of this subtree's own box.
    fn hit(&self, r: &Ray) -> (res: Option<PossibleHit>)
        requires
            bvh_wf(*self),
            ray_ok(*r),
        ensures
            res is Some ==> *res->Some_0.boxx == *self && slab_hit(get_box_spec(*self), *r)
                == Some(res->Some_0.t),
            res is None ==> slab_hit(get_box_spec(*self), *r) is None,
    {
        match self {
            BvhBox::Leaf(l) => l.hit(&self, r),
            BvhBox::Node(n) => n.hit(&self, r),
        }
    }

    /// Traverse this subtree for the closest hit, pruning subtrees whose
    /// box entry lies beyond `deepest_hit`.
    pub fn dig(&self, r: &Ray, deepest_hit: i64) -> (res: Option<HitRecord>)
        requires
            bvh_wf(*self),
            ray_ok(*r),
        ensures
            res == dig_spec(*self, *r, deepest_hit as int),
            dig_rec_ok(res),
        decreases 3 * height(*self) + 2,
    {
        match self {
            BvhBox::Leaf(leaf) => leaf.dig(r),
            BvhBox::Node(node) => node.dig(r, deepest_hit),
        }
    }

    /// This subtree's box.
    pub fn get_box(&self) -> (b: &BoundingBox)
        ensures
            *b == get_box_spec(*self),
    {
        match self {
            BvhBox::Leaf(leaf) => leaf.get_box(),
            BvhBox::Node(node) => &node.boxx,
        }
    }
}

/// The smaller of two optional parameters, absent values losing.
pub open spec fn opt_min_t(a: Option<int>, b: Option<int>) -> Option<int> {
    if a is Some && b is Some {
        if a->Some_0 <= b->Some_0 {
            a
        } else {
            b
        }
    } else if a is Some {
        a
    } else {
        b
    }
}

/// The parameter of a primitive's full-range hit.
pub open spec fn hit_t(o: Hittable, r: Ray) -> Option<int> {
    match full_hit(o, r) {
        Some(rec) => Some(rec.t as int),
        None => None,
    }
}

/// The smallest hit parameter over a run of primitives.
pub open spec fn best_hit_t(objs: Seq<Hittable>, r: Ray) -> Option<int>
    decreases objs.len(),
{
    if objs.len() == 0 {
        None
    } else {
        opt_min_t(best_hit_t(objs.drop_last(), r), hit_t(objs.last(), r))
    }
}

/// A confirmed full-range hit parameter lies strictly inside the traversal
/// range.
proof fn lemma_full_hit_range(o: Hittable, r: Ray)
    ensures
        full_hit(o, r) is Some ==> (HIT_EPS_FX as int) < full_hit(o, r)->Some_0.t < (
        T_FX_MAX as int),
{
}

/// The basic facts about the minimum hit parameter: when it is absent, when
/// it is achieved, and that it bounds every hit from below.
proof fn lemma_best_t_props(objs: Seq<Hittable>, r: Ray)
    ensures
        (best_hit_t(objs, r) is None <==> forall|i: int|
            0 <= i < objs.len() ==> #[trigger] full_hit(objs[i], r) is None),
        best_hit_t(objs, r) is Some ==> exists|i: int|
            0 <= i < objs.len() && #[trigger] hit_t(objs[i], r) == best_hit_t(objs, r),
        forall|i: int|
            0 <= i < objs.len() && #[trigger] full_hit(objs[i], r) is Some ==> best_hit_t(objs, r)
                is Some && best_hit_t(objs, r)->Some_0 <= full_hit(objs[i], r)->Some_0.t,
    decreases objs.len(),
{
    if objs.len() > 0 {
        let pre = objs.drop_last();
        lemma_best_t_props(pre, r);
        assert(forall|i: int| 0 <= i < pre.len() ==> #[trigger] objs[i] == pre[i]);
        assert(objs.last() == objs[objs.len() - 1]);
    }
}

/// A present minimum lies strictly inside the traversal range.
proof fn lemma_best_t_range(objs: Seq<Hittable>, r: Ray)
    ensures
        best_hit_t(objs, r) is Some ==> (HIT_EPS_FX as int) < best_hit_t(objs, r)->Some_0 < (
        T_FX_MAX as int),
{
    lemma_best_t_props(objs, r);
    if best_hit_t(objs, r) is Some {
        let i = choose|i: int|
            0 <= i < objs.len() && #[trigger] hit_t(objs[i], r) == best_hit_t(objs, r);
        lemma_full_hit_range(objs[i], r);
    }
}

/// The minimum over a concatenation is the minimum of the two minima.
proof fn lemma_best_t_concat(s1: Seq<Hittable>, s2: Seq<Hittable>, r: Ray)
    ensures
        best_hit_t(s1 + s2, r) == opt_min_t(best_hit_t(s1, r), best_hit_t(s2, r)),
    decreases s2.len(),
{
    if s2.len() == 0 {
        assert(s1 + s2 =~= s1);
    } else {
        assert((s1 + s2).drop_last() =~= s1 + s2.drop_last());
        assert((s1 + s2).last() == s2.last());
        lemma_best_t_concat(s1, s2.drop_last(), r);
    }
}

/// A box conservatively bounds a run of primitives for a ray: a box miss
/// means no primitive hit, and the box entry parameter is a lower bound on
/// every hit parameter.
pub open spec fn covers(bb: BoundingBox, objs: Seq<Hittable>, r: Ray) -> bool {
    &&& (slab_hit(bb, r) is None ==> forall|i: int|
        0 <= i < objs.len() ==> #[trigger] full_hit(objs[i], r) is None)
    &&& (slab_hit(bb, r) is Some ==> forall|i: int|
        0 <= i < objs.len() && #[trigger] full_hit(objs[i], r) is Some ==> slab_hit(bb, r)->Some_0
            <= full_hit(objs[i], r)->Some_0.t)
}

/// Every box in the tree conservatively bounds the primitives below it.
/// This is the geometric premise of the traversal: the slab test, run in
/// fixed point, never rejects a box whose contents the ray strikes, and its
/// entry parameter is a lower bound on every contained hit. [`get_bvh_box`]
/// guarantees the structural half ([`boxes_structured`]: each node's box is
/// the union of its children's); that the rounded slab arithmetic never cuts
/// a grazing hit is not proved here and stands as the hypothesis of the
/// equivalence laws below.
pub open spec fn bvh_sound(b: BvhBox, r: Ray) -> bool
    decreases b,
{
    covers(get_box_spec(b), objs_of(b), r) && match b {
        BvhBox::Leaf(_) => true,
        BvhBox::Node(n) => bvh_sound(*n.left, r) && bvh_sound(*n.right, r),
    }
}

/// What a correct traversal reports: a found record carries exactly the
/// minimum hit parameter of the primitives below and is one of their hits;
/// an empty answer means there is no hit, or only hits beyond `deepest`.
pub open spec fn dig_answers(res: Option<HitRecord>, objs: Seq<Hittable>, r: Ray, deepest: int) -> bool {
    &&& (res is Some ==> best_hit_t(objs, r) == Some(res->Some_0.t as int) && exists|i: int|
        0 <= i < objs.len() && #[trigger] full_hit(objs[i], r) == Some(res->Some_0))
    &&& (res is None ==> best_hit_t(objs, r) is None || best_hit_t(objs, r)->Some_0 > deepest)
}

/// In a structured tree, every subtree's box contains the box of each leaf
/// below it: containment holds at every level.
pub proof fn lemma_box_contains_leaves(b: BvhBox)
    requires
        boxes_structured(b),
    ensures
        forall|i: int|
            0 <= i < leaves_of(b).len() ==> box_contains(
                get_box_spec(b),
                #[trigger] leaves_of(b)[i].boxx,
            ),
    decreases b,
{
    match b {
        BvhBox::Leaf(l) => {
            assert(leaves_of(b) =~= seq![l]);
        },
        BvhBox::Node(n) => {
            lemma_box_contains_leaves(*n.left);
            lemma_box_contains_leaves(*n.right);
            let ls = leaves_of(*n.left);
            let rs = leaves_of(*n.right);
            assert(leaves_of(b) =~= ls + rs);
            assert forall|i: int| 0 <= i < leaves_of(b).len() implies box_contains(
                get_box_spec(b),
                #[trigger] leaves_of(b)[i].boxx,
            ) by {
                if i < ls.len() {
                    assert(leaves_of(b)[i] == ls[i]);
                    assert(box_contains(get_box_spec(*n.left), ls[i].boxx));
                } else {
                    assert(leaves_of(b)[i] == rs[i - ls.len()]);
                    assert(box_contains(get_box_spec(*n.right), rs[i - ls.len()].boxx));
                }
            }
        },
    }
}

/// The minimum is symmetric in a concatenation.
proof fn lemma_opt_min_comm(a: Option<int>, b: Option<int>)
    ensures
        opt_min_t(a, b) == opt_min_t(b, a),
{
}

/// A correct answer for a concatenation is one for the reversed
/// concatenation.
#[verifier::rlimit(60)]
proof fn lemma_answers_comm(res: Option<HitRecord>, s1: Seq<Hittable>, s2: Seq<Hittable>, r: Ray, deepest: int)
    requires
        dig_answers(res, s1 + s2, r, deepest),
    ensures
        dig_answers(res, s2 + s1, r, deepest),
{
    lemma_best_t_concat(s1, s2, r);
    lemma_best_t_concat(s2, s1, r);
    lemma_opt_min_comm(best_hit_t(s1, r), best_hit_t(s2, r));
    if res is Some {
        let i = choose|i: int|
            0 <= i < (s1 + s2).len() && #[trigger] full_hit((s1 + s2)[i], r) == Some(
                res->Some_0,
            );
        if i < s1.len() {
            assert((s2 + s1)[s2.len() + i] == (s1 + s2)[i]);
            assert(full_hit((s2 + s1)[s2.len() + i], r) == Some(res->Some_0));
        } else {
            assert((s2 + s1)[i - s1.len()] == (s1 + s2)[i]);
            assert(full_hit((s2 + s1)[i - s1.len()], r) == Some(res->Some_0));
        }
    }
}

/// A correct answer is unchanged by appending primitives that the ray
/// misses entirely.
proof fn lemma_answers_pad(res: Option<HitRecord>, s1: Seq<Hittable>, s2: Seq<Hittable>, r: Ray, deepest: int)
    requires
        dig_answers(res, s1, r, deepest),
        forall|i: int| 0 <= i < s2.len() ==> #[trigger] full_hit(s2[i], r) is None,
    ensures
        dig_answers(res, s1 + s2, r, deepest),
{
    lemma_best_t_concat(s1, s2, r);
    lemma_best_t_props(s2, r);
    if res is Some {
        let i = choose|i: int|
            0 <= i < s1.len() && #[trigger] full_hit(s1[i], r) == Some(res->Some_0);
        assert((s1 + s2)[i] == s1[i]);
        assert(full_hit((s1 + s2)[i], r) == Some(res->Some_0));
    }
}

/// Correctness of the full traversal of one subtree.
#[verifier::rlimit(100)]
proof fn lemma_dig_correct(b: BvhBox, r: Ray, deepest: int)
    requires
        bvh_sound(b, r),
    ensures
        dig_answers(dig_spec(b, r, deepest), objs_of(b), r, deepest),
    decreases height(b), 0nat,
{
    match b {
        BvhBox::Leaf(l) => {
            let objs = objs_of(b);
            assert(objs =~= seq![l.has_a]);
            assert(objs.drop_last() =~= Seq::<Hittable>::empty());
            assert(best_hit_t(objs.drop_last(), r) is None);
            assert(best_hit_t(objs, r) == hit_t(l.has_a, r));
            assert(objs[0] == l.has_a);
        },
        BvhBox::Node(n) => {
            let objs_l = objs_of(*n.left);
            let objs_r = objs_of(*n.right);
            let lh = slab_hit(get_box_spec(*n.left), r);
            let rh = slab_hit(get_box_spec(*n.right), r);
            assert(objs_of(b) == objs_l + objs_r);
            if lh is Some && rh is Some {
                if lh->Some_0 < rh->Some_0 {
                    lemma_pdh_correct(*n.left, lh->Some_0 as int, *n.right, rh->Some_0 as int, deepest, r);
                } else {
                    lemma_pdh_correct(*n.right, rh->Some_0 as int, *n.left, lh->Some_0 as int, deepest, r);
                    lemma_answers_comm(
                        dig_spec(b, r, deepest),
                        objs_r,
                        objs_l,
                        r,
                        deepest,
                    );
                }
            } else if lh is Some {
                lemma_ph_correct(*n.left, lh->Some_0 as int, deepest, r);
                assert(bvh_sound(*n.right, r));
                assert(covers(get_box_spec(*n.right), objs_r, r));
                assert(forall|i: int|
                    0 <= i < objs_r.len() ==> #[trigger] full_hit(objs_r[i], r) is None);
                lemma_answers_pad(dig_spec(b, r, deepest), objs_l, objs_r, r, deepest);
            } else if rh is Some {
                lemma_ph_correct(*n.right, rh->Some_0 as int, deepest, r);
                assert(bvh_sound(*n.left, r));
                assert(covers(get_box_spec(*n.left), objs_l, r));
                assert(forall|i: int|
                    0 <= i < objs_l.len() ==> #[trigger] full_hit(objs_l[i], r) is None);
                lemma_answers_pad(dig_spec(b, r, deepest), objs_r, objs_l, r, deepest);
                lemma_answers_comm(dig_spec(b, r, deepest), objs_r, objs_l, r, deepest);
            } else {
                assert(bvh_sound(*n.left, r) && bvh_sound(*n.right, r));
                lemma_best_t_concat(objs_l, objs_r, r);
                lemma_best_t_props(objs_l, r);
                lemma_best_t_props(objs_r, r);
            }
        },
    }
}

/// Correctness of visiting one struck child under pruning.
proof fn lemma_ph_correct(b: BvhBox, t: int, deepest: int, r: Ray)
    requires
        bvh_sound(b, r),
        slab_hit(get_box_spec(b), r) == Some(t as i64),
        t == t as i64 as int,
    ensures
        dig_answers(ph_spec(b, t, deepest, r), objs_of(b), r, deepest),
    decreases height(b), 1nat,
{
    lemma_best_t_props(objs_of(b), r);
    lemma_best_t_range(objs_of(b), r);
    if t > deepest {
        if best_hit_t(objs_of(b), r) is Some {
            let i = choose|i: int|
                0 <= i < objs_of(b).len() && #[trigger] hit_t(objs_of(b)[i], r) == best_hit_t(
                    objs_of(b),
                    r,
                );
            assert(full_hit(objs_of(b)[i], r) is Some);
            assert(t <= full_hit(objs_of(b)[i], r)->Some_0.t);
        }
    } else {
        lemma_dig_correct(b, r, T_FX_MAX as int);
    }
}

/// Correctness of visiting two struck children, nearer box first.
#[verifier::rlimit(60)]
proof fn lemma_pdh_correct(first: BvhBox, ft: int, second: BvhBox, st: int, deepest: int, r: Ray)
    requires
        bvh_sound(first, r),
        bvh_sound(second, r),
        slab_hit(get_box_spec(first), r) == Some(ft as i64),
        slab_hit(get_box_spec(second), r) == Some(st as i64),
        ft == ft as i64 as int,
        st == st as i64 as int,
        ft <= st,
    ensures
        dig_answers(
            pdh_spec(first, ft, second, st, deepest, r),
            objs_of(first) + objs_of(second),
            r,
            deepest,
        ),
    decreases nmax(height(first), height(second)), 1nat,
{
    let objs1 = objs_of(first);
    let objs2 = objs_of(second);
    let m1 = best_hit_t(objs1, r);
    let m2 = best_hit_t(objs2, r);
    lemma_best_t_concat(objs1, objs2, r);
    lemma_best_t_props(objs1, r);
    lemma_best_t_props(objs2, r);
    lemma_best_t_range(objs1, r);
    lemma_best_t_range(objs2, r);
    assert(forall|i: int| 0 <= i < objs1.len() ==> #[trigger] (objs1 + objs2)[i] == objs1[i]);
    assert(forall|i: int|
        0 <= i < objs2.len() ==> #[trigger] (objs1 + objs2)[i + objs1.len()] == objs2[i]);
    if m1 is Some {
        let i = choose|i: int| 0 <= i < objs1.len() && #[trigger] hit_t(objs1[i], r) == m1;
        assert(full_hit(objs1[i], r) is Some);
        assert(ft <= m1->Some_0);
    }
    if m2 is Some {
        let i = choose|i: int| 0 <= i < objs2.len() && #[trigger] hit_t(objs2[i], r) == m2;
        assert(full_hit(objs2[i], r) is Some);
        assert(st <= m2->Some_0);
    }
    if ft > deepest {
    } else {
        lemma_dig_correct(first, r, T_FX_MAX as int);
        let hd = dig_spec(first, r, T_FX_MAX as int);
        let hdt = t_or_max_spec(hd);
        if hd is None {
            assert(m1 is None);
        }
        if hdt < st {
            if hd is Some {
                let i = choose|i: int|
                    0 <= i < objs1.len() && #[trigger] full_hit(objs1[i], r) == Some(hd->Some_0);
                assert(full_hit((objs1 + objs2)[i], r) == Some(hd->Some_0));
            }
        } else {
            lemma_dig_correct(second, r, hdt);
            let hd2 = dig_spec(second, r, hdt);
            if hd is Some {
                let i = choose|i: int|
                    0 <= i < objs1.len() && #[trigger] full_hit(objs1[i], r) == Some(hd->Some_0);
                assert(full_hit((objs1 + objs2)[i], r) == Some(hd->Some_0));
            }
            if hd2 is Some {
                let i = choose|i: int|
                    0 <= i < objs2.len() && #[trigger] full_hit(objs2[i], r) == Some(hd2->Some_0);
                assert(full_hit((objs1 + objs2)[i + objs1.len()], r) == Some(hd2->Some_0));
            }
        }
    }
}

/// The law of traversal: over any tree whose boxes conservatively bound
/// their primitives, the hit the tree reports for a ray has exactly the
/// closest parameter that the brute-force scan over the same primitives
/// finds, and each finds a hit exactly when the other does.
pub proof fn lemma_bvh_matches_flat(b: BvhBox, r: Ray)
    requires
        bvh_sound(b, r),
    ensures
        ({
            let tree = dig_spec(b, r, T_FX_MAX as int);
            let flat = scan_best(objs_of(b), r);
            &&& (tree is Some <==> flat is Some)
            &&& (tree is Some ==> tree->Some_0.t == flat->Some_0.t)
        }),
{
    lemma_dig_correct(b, r, T_FX_MAX as int);
    lemma_scan_best_t(objs_of(b), r);
    lemma_best_t_range(objs_of(b), r);
}

/// The minimum respects reassociation: the outer candidate can be rotated
/// inward.
proof fn lemma_opt_min_rotate(a: Option<int>, b: Option<int>, c: Option<int>)
    ensures
        opt_min_t(a, opt_min_t(b, c)) == opt_min_t(b, opt_min_t(a, c)),
{
}

/// One element can be pulled out of the minimum at any position.
proof fn lemma_best_t_remove(s: Seq<Hittable>, j: int, r: Ray)
    requires
        0 <= j < s.len(),
    ensures
        best_hit_t(s, r) == opt_min_t(hit_t(s[j], r), best_hit_t(s.remove(j), r)),
{
    let a = s.subrange(0, j);
    let mid = s.subrange(j, j + 1);
    let rest = s.subrange(j + 1, s.len() as int);
    assert(s =~= a + (mid + rest));
    assert(s.remove(j) =~= a + rest);
    lemma_best_t_concat(a, mid + rest, r);
    lemma_best_t_concat(mid, rest, r);
    lemma_best_t_concat(a, rest, r);
    assert(mid.drop_last() =~= Seq::<Hittable>::empty());
    assert(best_hit_t(Seq::<Hittable>::empty(), r) is None);
    assert(mid.last() == s[j]);
    assert(best_hit_t(mid, r) == hit_t(s[j], r));
    lemma_opt_min_rotate(best_hit_t(a, r), hit_t(s[j], r), best_hit_t(rest, r));
}

/// The minimum hit parameter depends only on which primitives are present,
/// not on their order.
proof fn lemma_best_t_permutation(s1: Seq<Hittable>, s2: Seq<Hittable>, r: Ray)
    requires
        s1.to_multiset() == s2.to_multiset(),
    ensures
        best_hit_t(s1, r) == best_hit_t(s2, r),
    decreases s1.len(),
{
    broadcast use vstd::seq_lib::group_to_multiset_ensures;
    broadcast use vstd::multiset::group_multiset_axioms;

    if s1.len() == 0 {
        vstd::seq_lib::to_multiset_len(s1);
        vstd::seq_lib::to_multiset_len(s2);
        assert(s2.len() == 0);
    } else {
        let x = s1.last();
        assert(s1.contains(x));
        assert(s2.to_multiset().count(x) > 0);
        assert(s2.contains(x));
        let j = choose|j: int| 0 <= j < s2.len() && s2[j] == x;
        lemma_best_t_remove(s2, j, r);
        assert(s1.drop_last().to_multiset() == s2.remove(j).to_multiset()) by {
            assert(s1 =~= s1.drop_last().push(x));
            assert(s1.to_multiset() == s1.drop_last().to_multiset().insert(x));
            assert(s2.remove(j).to_multiset() == s2.to_multiset().remove(x));
            assert(s1.drop_last().to_multiset() =~= s1.to_multiset().remove(x));
        }
        lemma_best_t_permutation(s1.drop_last(), s2.remove(j), r);
        lemma_opt_min_comm(best_hit_t(s1.drop_last(), r), hit_t(x, r));
    }
}

/// The law of traversal over any ordering: the hit a tree reports has
/// exactly the closest parameter that a brute-force scan over the same
/// primitives finds, however the flat list is ordered, and each finds a hit
/// exactly when the other does.
pub proof fn lemma_bvh_matches_any_order(b: BvhBox, objs: Seq<Hittable>, r: Ray)
    requires
        bvh_sound(b, r),
        objs.to_multiset() == objs_of(b).to_multiset(),
    ensures
        ({
            let tree = dig_spec(b, r, T_FX_MAX as int);
            let flat = scan_best(objs, r);
            &&& (tree is Some <==> flat is Some)
            &&& (tree is Some ==> tree->Some_0.t == flat->Some_0.t)
        }),
{
    lemma_bvh_matches_flat(b, r);
    lemma_best_t_permutation(objs, objs_of(b), r);
    lemma_scan_best_t(objs, r);
    lemma_scan_best_t(objs_of(b), r);
    lemma_best_t_range(objs_of(b), r);
    lemma_dig_correct(b, r, T_FX_MAX as int);
}

/// The brute-force scan finds a record whose parameter is the minimum, and
/// finds one exactly when a minimum exists.
proof fn lemma_scan_best_t(objs: Seq<Hittable>, r: Ray)
    ensures
        (scan_best(objs, r) is Some <==> best_hit_t(objs, r) is Some),
        scan_best(objs, r) is Some ==> best_hit_t(objs, r) == Some(
            scan_best(objs, r)->Some_0.t as int,
        ),
    decreases objs.len(),
{
    if objs.len() > 0 {
        lemma_scan_best_t(objs.drop_last(), r);
    }
}

} // verus!
