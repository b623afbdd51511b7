//! Self-balancing ordered set of address intervals: a red-black tree keyed by
//! `(addr, size)` pairs, carrying one `u64` of caller data per node.
//!
//! The tree is held as an owned recursive structure (absent children stand for
//! the always-black leaves), so the standard red-black shape invariants can be
//! stated structurally:
//!   * leaves are black (an absent child has no color bit to be red),
//!   * a red node's children are both black,
//!   * every root-to-leaf path crosses the same number of black nodes,
//!   * the root is black after every insert and delete.
//!
//! Rebalancing is done with the standard rotation patterns, applied on the way
//! back up from a recursive insert or delete.

use crate::rbtree_amd::{key_le, key_lt, rbtree_key_s, rbtree_key_t};
use vstd::prelude::*;

verus! {

broadcast use vstd::map_lib::group_map_union;

/// Color bit of a red node.
pub const RBT_RED: u8 = 1;

/// Color bit of a black node.
pub const RBT_BLACK: u8 = 0;

#[derive(Debug)]
pub struct rbtree_node_s {
    pub key: rbtree_key_t,
    pub data: u64,
    pub color: u8,
    pub left: Option<Box<rbtree_node_s>>,
    pub right: Option<Box<rbtree_node_s>>,
}

pub type rbtree_node_t = rbtree_node_s;

#[derive(Debug)]
pub struct rbtree_s {
    pub root: Option<Box<rbtree_node_t>>,
}

pub type rbtree_t = rbtree_s;

// ---------------------------------------------------------------------------
// The mathematical model: a subtree denotes a map from keys to data.
// ---------------------------------------------------------------------------

pub open spec fn link_map(n: Option<Box<rbtree_node_s>>) -> Map<rbtree_key_s, u64>
    decreases n,
{
    match n {
        None => Map::empty(),
        Some(b) => link_map(b.left).union_prefer_right(link_map(b.right)).insert(b.key, b.data),
    }
}

/// Every key of the map lies strictly below `x`.
pub open spec fn keys_below(m: Map<rbtree_key_s, u64>, x: rbtree_key_s) -> bool {
    forall|k: rbtree_key_s| #[trigger] m.dom().contains(k) ==> key_lt(k, x)
}

/// Every key of the map lies strictly above `x`.
pub open spec fn keys_above(m: Map<rbtree_key_s, u64>, x: rbtree_key_s) -> bool {
    forall|k: rbtree_key_s| #[trigger] m.dom().contains(k) ==> key_lt(x, k)
}

/// Binary-search-tree ordering: within a node, every key on the left is
/// strictly below the node's key and every key on the right strictly above.
pub open spec fn bst_ordered(n: Option<Box<rbtree_node_s>>) -> bool
    decreases n,
{
    match n {
        None => true,
        Some(b) => {
            &&& bst_ordered(b.left)
            &&& bst_ordered(b.right)
            &&& keys_below(link_map(b.left), b.key)
            &&& keys_above(link_map(b.right), b.key)
        },
    }
}

/// An absent child is a black leaf; a present node is red exactly when its
/// color bit is set.
pub open spec fn link_is_red(n: Option<Box<rbtree_node_s>>) -> bool {
    match n {
        None => false,
        Some(b) => b.color == RBT_RED,
    }
}

/// No red node has a red child.
pub open spec fn no_red_red(n: Option<Box<rbtree_node_s>>) -> bool
    decreases n,
{
    match n {
        None => true,
        Some(b) => {
            &&& no_red_red(b.left)
            &&& no_red_red(b.right)
            &&& (b.color == RBT_RED ==> !link_is_red(b.left) && !link_is_red(b.right))
        },
    }
}

/// The subtree is clean except possibly at its own root, which may be red
/// with a red child; both children are internally valid.
pub open spec fn no_red_red_below(n: Option<Box<rbtree_node_s>>) -> bool {
    match n {
        None => true,
        Some(b) => no_red_red(b.left) && no_red_red(b.right),
    }
}

/// Black height: the number of black nodes on the path to the leftmost leaf.
pub open spec fn bh(n: Option<Box<rbtree_node_s>>) -> nat
    decreases n,
{
    match n {
        None => 0,
        Some(b) => bh(b.left) + if b.color == RBT_RED {
            0nat
        } else {
            1nat
        },
    }
}

/// Every root-to-leaf path in the subtree crosses the same number of black
/// nodes.
pub open spec fn bh_even(n: Option<Box<rbtree_node_s>>) -> bool
    decreases n,
{
    match n {
        None => true,
        Some(b) => bh_even(b.left) && bh_even(b.right) && bh(b.left) == bh(b.right),
    }
}

/// All four red-black invariants together with the search ordering, for a
/// subtree whose own root may be either color.
pub open spec fn rb_sub_valid(n: Option<Box<rbtree_node_s>>) -> bool {
    bst_ordered(n) && no_red_red(n) && bh_even(n)
}

impl rbtree_s {
    /// The tree denotes the map of its stored intervals.
    pub open spec fn view(self) -> Map<rbtree_key_s, u64> {
        link_map(self.root)
    }

    /// Well-formedness of a whole tree: the red-black and ordering invariants
    /// of the subtree rooted at the root, and a black root.
    pub open spec fn inv(self) -> bool {
        rb_sub_valid(self.root) && !link_is_red(self.root)
    }
}

// ---------------------------------------------------------------------------
// Color helpers.
// ---------------------------------------------------------------------------

pub fn rbt_red(node: &mut rbtree_node_t)
    ensures
        final(node).color == RBT_RED,
        final(node).key == old(node).key,
        final(node).data == old(node).data,
        final(node).left == old(node).left,
        final(node).right == old(node).right,
{
    node.color = RBT_RED;
}

pub fn rbt_black(node: &mut rbtree_node_t)
    ensures
        final(node).color == RBT_BLACK,
        final(node).key == old(node).key,
        final(node).data == old(node).data,
        final(node).left == old(node).left,
        final(node).right == old(node).right,
{
    node.color = RBT_BLACK;
}

pub fn rbt_is_red(node: &rbtree_node_t) -> (r: bool)
    ensures
        r == (node.color == RBT_RED),
{
    node.color == RBT_RED
}

pub fn rbt_is_black(node: &rbtree_node_t) -> (r: bool)
    ensures
        r == (node.color != RBT_RED),
{
    !rbt_is_red(node)
}

pub fn rbt_copy_color(n1: &mut rbtree_node_t, n2: &rbtree_node_t)
    ensures
        final(n1).color == n2.color,
        final(n1).key == old(n1).key,
        final(n1).data == old(n1).data,
        final(n1).left == old(n1).left,
        final(n1).right == old(n1).right,
{
    n1.color = n2.color;
}

/// A leaf stands in for the shared sentinel of the pointer-based design, and
/// a sentinel must be black.
pub fn rbtree_sentinel_init(node: &mut rbtree_node_t)
    ensures
        final(node).color == RBT_BLACK,
        final(node).key == old(node).key,
        final(node).data == old(node).data,
        final(node).left == old(node).left,
        final(node).right == old(node).right,
{
    rbt_black(node);
}

fn link_is_red_of(n: &Option<Box<rbtree_node_s>>) -> (r: bool)
    ensures
        r == link_is_red(*n),
{
    match n {
        None => false,
        Some(b) => b.color == RBT_RED,
    }
}

// ---------------------------------------------------------------------------
// Construction.
// ---------------------------------------------------------------------------

/// Reset a tree to empty.
pub fn rbtree_init(tree: &mut rbtree_s)
    ensures
        final(tree)@ == Map::<rbtree_key_s, u64>::empty(),
        final(tree).inv(),
{
    tree.root = None;
}

impl rbtree_s {
    pub fn new() -> (tree: Self)
        ensures
            tree@ == Map::<rbtree_key_s, u64>::empty(),
            tree.inv(),
    {
        rbtree_s { root: None }
    }
}

// ---------------------------------------------------------------------------
// Internal rebalancing.
// ---------------------------------------------------------------------------

fn mk_node(
    color: u8,
    left: Option<Box<rbtree_node_s>>,
    key: rbtree_key_t,
    data: u64,
    right: Option<Box<rbtree_node_s>>,
) -> (res: Box<rbtree_node_s>)
    ensures
        res.color == color,
        res.key == key,
        res.data == data,
        res.left == left,
        res.right == right,
{
    Box::new(rbtree_node_s { key, data, color, left, right })
}

pub open spec fn link_left_is_red(n: Option<Box<rbtree_node_s>>) -> bool {
    match n {
        None => false,
        Some(b) => link_is_red(b.left),
    }
}

pub open spec fn link_right_is_red(n: Option<Box<rbtree_node_s>>) -> bool {
    match n {
        None => false,
        Some(b) => link_is_red(b.right),
    }
}

fn child_left_is_red(n: &Option<Box<rbtree_node_s>>) -> (r: bool)
    ensures
        r == link_left_is_red(*n),
{
    match n {
        None => false,
        Some(b) => link_is_red_of(&b.left),
    }
}

fn child_right_is_red(n: &Option<Box<rbtree_node_s>>) -> (r: bool)
    ensures
        r == link_right_is_red(*n),
{
    match n {
        None => false,
        Some(b) => link_is_red_of(&b.right),
    }
}

// ---------------------------------------------------------------------------
// Lemmas about key bounds over the map combinators that `link_map` uses.
// ---------------------------------------------------------------------------

proof fn lemma_below_parts(
    a: Map<rbtree_key_s, u64>,
    b: Map<rbtree_key_s, u64>,
    x: rbtree_key_s,
    dx: u64,
    t: rbtree_key_s,
)
    ensures
        keys_below(a.union_prefer_right(b).insert(x, dx), t) <==> (keys_below(a, t) && keys_below(
            b,
            t,
        ) && key_lt(x, t)),
{
    let m = a.union_prefer_right(b).insert(x, dx);
    assert(m.dom().contains(x));
    if keys_below(a, t) && keys_below(b, t) && key_lt(x, t) {
        assert forall|k: rbtree_key_s| #[trigger] m.dom().contains(k) implies key_lt(k, t) by {
            if k != x {
                assert(a.dom().contains(k) || b.dom().contains(k));
            }
        }
    }
    if keys_below(m, t) {
        assert forall|k: rbtree_key_s| #[trigger] a.dom().contains(k) implies key_lt(k, t) by {
            assert(m.dom().contains(k));
        }
        assert forall|k: rbtree_key_s| #[trigger] b.dom().contains(k) implies key_lt(k, t) by {
            assert(m.dom().contains(k));
        }
    }
}

proof fn lemma_above_parts(
    a: Map<rbtree_key_s, u64>,
    b: Map<rbtree_key_s, u64>,
    x: rbtree_key_s,
    dx: u64,
    t: rbtree_key_s,
)
    ensures
        keys_above(a.union_prefer_right(b).insert(x, dx), t) <==> (keys_above(a, t) && keys_above(
            b,
            t,
        ) && key_lt(t, x)),
{
    let m = a.union_prefer_right(b).insert(x, dx);
    assert(m.dom().contains(x));
    if keys_above(a, t) && keys_above(b, t) && key_lt(t, x) {
        assert forall|k: rbtree_key_s| #[trigger] m.dom().contains(k) implies key_lt(t, k) by {
            if k != x {
                assert(a.dom().contains(k) || b.dom().contains(k));
            }
        }
    }
    if keys_above(m, t) {
        assert forall|k: rbtree_key_s| #[trigger] a.dom().contains(k) implies key_lt(t, k) by {
            assert(m.dom().contains(k));
        }
        assert forall|k: rbtree_key_s| #[trigger] b.dom().contains(k) implies key_lt(t, k) by {
            assert(m.dom().contains(k));
        }
    }
}

proof fn lemma_below_weaken(m: Map<rbtree_key_s, u64>, t1: rbtree_key_s, t2: rbtree_key_s)
    requires
        keys_below(m, t1),
        key_lt(t1, t2),
    ensures
        keys_below(m, t2),
{
    assert forall|k: rbtree_key_s| #[trigger] m.dom().contains(k) implies key_lt(k, t2) by {
        assert(key_lt(k, t1));
    }
}

proof fn lemma_above_weaken(m: Map<rbtree_key_s, u64>, t1: rbtree_key_s, t2: rbtree_key_s)
    requires
        keys_above(m, t1),
        key_lt(t2, t1),
    ensures
        keys_above(m, t2),
{
    assert forall|k: rbtree_key_s| #[trigger] m.dom().contains(k) implies key_lt(t2, k) by {
        assert(key_lt(t1, k));
    }
}

proof fn lemma_below_union(
    a: Map<rbtree_key_s, u64>,
    b: Map<rbtree_key_s, u64>,
    t: rbtree_key_s,
)
    requires
        keys_below(a, t),
        keys_below(b, t),
    ensures
        keys_below(a.union_prefer_right(b), t),
{
    assert forall|k: rbtree_key_s| #[trigger] a.union_prefer_right(b).dom().contains(
        k,
    ) implies key_lt(k, t) by {
        assert(a.dom().contains(k) || b.dom().contains(k));
    }
}

proof fn lemma_above_union(
    a: Map<rbtree_key_s, u64>,
    b: Map<rbtree_key_s, u64>,
    t: rbtree_key_s,
)
    requires
        keys_above(a, t),
        keys_above(b, t),
    ensures
        keys_above(a.union_prefer_right(b), t),
{
    assert forall|k: rbtree_key_s| #[trigger] a.union_prefer_right(b).dom().contains(
        k,
    ) implies key_lt(t, k) by {
        assert(a.dom().contains(k) || b.dom().contains(k));
    }
}

proof fn lemma_union_insert_contains(
    a: Map<rbtree_key_s, u64>,
    b: Map<rbtree_key_s, u64>,
    x: rbtree_key_s,
    dx: u64,
    k: rbtree_key_s,
)
    requires
        a.dom().contains(k) || b.dom().contains(k) || k == x,
    ensures
        a.union_prefer_right(b).insert(x, dx).dom().contains(k),
{
    assert(a.union_prefer_right(b).dom() == a.dom() + b.dom());
}

/// The map of a rotated node is the map of the node it was rotated from:
/// with four subtree maps `a < x < b < y < c < z < d` interleaved with three
/// keys, every way of grouping them into nested nodes denotes the same map.
proof fn lemma_rotate_regroup(
    a: Map<rbtree_key_s, u64>,
    b: Map<rbtree_key_s, u64>,
    c: Map<rbtree_key_s, u64>,
    d: Map<rbtree_key_s, u64>,
    x: rbtree_key_s,
    dx: u64,
    y: rbtree_key_s,
    dy: u64,
    z: rbtree_key_s,
    dz: u64,
)
    requires
        keys_below(a, x),
        keys_above(b, x),
        keys_below(b, y),
        keys_above(c, y),
        keys_below(c, z),
        keys_above(d, z),
        key_lt(x, y),
        key_lt(y, z),
    ensures
        a.union_prefer_right(b).insert(x, dx).union_prefer_right(
            c.union_prefer_right(d).insert(z, dz),
        ).insert(y, dy) == a.union_prefer_right(b).insert(x, dx).union_prefer_right(c).insert(
            y,
            dy,
        ).union_prefer_right(d).insert(z, dz),
        a.union_prefer_right(b).insert(x, dx).union_prefer_right(
            c.union_prefer_right(d).insert(z, dz),
        ).insert(y, dy) == a.union_prefer_right(b.union_prefer_right(c).insert(y, dy)).insert(
            x,
            dx,
        ).union_prefer_right(d).insert(z, dz),
        a.union_prefer_right(b).insert(x, dx).union_prefer_right(
            c.union_prefer_right(d).insert(z, dz),
        ).insert(y, dy) == a.union_prefer_right(
            b.union_prefer_right(c).insert(y, dy).union_prefer_right(d).insert(z, dz),
        ).insert(x, dx),
        a.union_prefer_right(b).insert(x, dx).union_prefer_right(
            c.union_prefer_right(d).insert(z, dz),
        ).insert(y, dy) == a.union_prefer_right(
            b.union_prefer_right(c.union_prefer_right(d).insert(z, dz)).insert(y, dy),
        ).insert(x, dx),
{
    let canon = a.union_prefer_right(b).insert(x, dx).union_prefer_right(
        c.union_prefer_right(d).insert(z, dz),
    ).insert(y, dy);
    let g1 = a.union_prefer_right(b).insert(x, dx).union_prefer_right(c).insert(
        y,
        dy,
    ).union_prefer_right(d).insert(z, dz);
    let g2 = a.union_prefer_right(b.union_prefer_right(c).insert(y, dy)).insert(
        x,
        dx,
    ).union_prefer_right(d).insert(z, dz);
    let g3 = a.union_prefer_right(
        b.union_prefer_right(c).insert(y, dy).union_prefer_right(d).insert(z, dz),
    ).insert(x, dx);
    let g4 = a.union_prefer_right(
        b.union_prefer_right(c.union_prefer_right(d).insert(z, dz)).insert(y, dy),
    ).insert(x, dx);
    assert(canon =~= g1);
    assert(canon =~= g2);
    assert(canon =~= g3);
    assert(canon =~= g4);
}

/// Build a black-topped node over `l`, `(key, data)`, `r`, repairing at most
/// one red-red violation sitting at the top of `l` or of `r` with one of the
/// four standard rotations. This is the single fix-up primitive shared by
/// insert and delete.
#[verifier::rlimit(100)]
#[verifier::spinoff_prover]
fn rb_balance(
    l: Option<Box<rbtree_node_s>>,
    key: rbtree_key_t,
    data: u64,
    r: Option<Box<rbtree_node_s>>,
) -> (res: Box<rbtree_node_s>)
    requires
        bst_ordered(l),
        bst_ordered(r),
        keys_below(link_map(l), key),
        keys_above(link_map(r), key),
        bh_even(l),
        bh_even(r),
        bh(l) == bh(r),
        no_red_red_below(l),
        no_red_red_below(r),
        no_red_red(l) || no_red_red(r),
    ensures
        link_map(Some(res)) == link_map(l).union_prefer_right(link_map(r)).insert(key, data),
        bst_ordered(Some(res)),
        bh_even(Some(res)),
        no_red_red(Some(res)),
        bh(Some(res)) == bh(l) + 1,
{
    let ghost lm = link_map(l);
    let ghost rm = link_map(r);
    if link_is_red_of(&l) && child_left_is_red(&l) {
        let ln = *l.unwrap();
        let rbtree_node_s { key: lk, data: ld, color: _, left: ll, right: lr } = ln;
        proof {
            assert(lm == link_map(ll).union_prefer_right(link_map(lr)).insert(lk, ld));
        }
        let lln = *ll.unwrap();
        let rbtree_node_s { key: llk, data: lld, color: _, left: lll, right: llr } = lln;
        proof {
            assert(link_map(ll) == link_map(lll).union_prefer_right(link_map(llr)).insert(
                llk,
                lld,
            ));
        }
        let new_l = mk_node(RBT_BLACK, lll, llk, lld, llr);
        let new_r = mk_node(RBT_BLACK, lr, key, data, r);
        let res = mk_node(RBT_RED, Some(new_l), lk, ld, Some(new_r));
        proof {
            reveal_with_fuel(link_map, 3);
            reveal_with_fuel(bst_ordered, 3);
            reveal_with_fuel(no_red_red, 3);
            reveal_with_fuel(bh, 3);
            reveal_with_fuel(bh_even, 3);
            let a = link_map(lll);
            let b = link_map(llr);
            let c = link_map(lr);
            assert(bst_ordered(ll));
            assert(link_map(ll).dom().contains(llk));
            assert(lm.dom().contains(lk));
            lemma_below_parts(link_map(ll), c, lk, ld, key);
            lemma_below_parts(a, b, llk, lld, lk);
            lemma_rotate_regroup(a, b, c, rm, llk, lld, lk, ld, key, data);
            assert(link_map(Some(res)) == lm.union_prefer_right(rm).insert(key, data));
            lemma_above_weaken(rm, key, lk);
            lemma_above_parts(c, rm, key, data, lk);
            assert(bst_ordered(Some(res)));
            assert(no_red_red(Some(res)));
            assert(bh(Some(res)) == bh(l) + 1);
            assert(bh_even(Some(res)));
        }
        res
    } else if link_is_red_of(&l) && child_right_is_red(&l) {
        let ln = *l.unwrap();
        let rbtree_node_s { key: lk, data: ld, color: _, left: ll, right: lr } = ln;
        proof {
            assert(lm == link_map(ll).union_prefer_right(link_map(lr)).insert(lk, ld));
        }
        let lrn = *lr.unwrap();
        let rbtree_node_s { key: lrk, data: lrd, color: _, left: lrl, right: lrr } = lrn;
        proof {
            assert(link_map(lr) == link_map(lrl).union_prefer_right(link_map(lrr)).insert(
                lrk,
                lrd,
            ));
        }
        let new_l = mk_node(RBT_BLACK, ll, lk, ld, lrl);
        let new_r = mk_node(RBT_BLACK, lrr, key, data, r);
        let res = mk_node(RBT_RED, Some(new_l), lrk, lrd, Some(new_r));
        proof {
            reveal_with_fuel(link_map, 3);
            reveal_with_fuel(bst_ordered, 3);
            reveal_with_fuel(no_red_red, 3);
            reveal_with_fuel(bh, 3);
            reveal_with_fuel(bh_even, 3);
            let a = link_map(ll);
            let b = link_map(lrl);
            let c = link_map(lrr);
            assert(bst_ordered(lr));
            assert(link_map(lr).dom().contains(lrk));
            lemma_union_insert_contains(link_map(ll), link_map(lr), lk, ld, lrk);
            assert(lm.dom().contains(lrk));
            lemma_below_parts(a, link_map(lr), lk, ld, key);
            lemma_below_parts(b, c, lrk, lrd, key);
            lemma_above_parts(b, c, lrk, lrd, lk);
            lemma_rotate_regroup(a, b, c, rm, lk, ld, lrk, lrd, key, data);
            assert(link_map(Some(res)) == lm.union_prefer_right(rm).insert(key, data));
            lemma_below_weaken(a, lk, lrk);
            lemma_below_parts(a, b, lk, ld, lrk);
            lemma_above_weaken(rm, key, lrk);
            lemma_above_parts(c, rm, key, data, lrk);
            assert(bst_ordered(Some(res)));
            assert(no_red_red(Some(res)));
            assert(bh(Some(res)) == bh(l) + 1);
            assert(bh_even(Some(res)));
        }
        res
    } else if link_is_red_of(&r) && child_left_is_red(&r) {
        let rn = *r.unwrap();
        let rbtree_node_s { key: rk, data: rd, color: _, left: rl, right: rr } = rn;
        proof {
            assert(rm == link_map(rl).union_prefer_right(link_map(rr)).insert(rk, rd));
        }
        let rln = *rl.unwrap();
        let rbtree_node_s { key: rlk, data: rld, color: _, left: rll, right: rlr } = rln;
        proof {
            assert(link_map(rl) == link_map(rll).union_prefer_right(link_map(rlr)).insert(
                rlk,
                rld,
            ));
        }
        let new_l = mk_node(RBT_BLACK, l, key, data, rll);
        let new_r = mk_node(RBT_BLACK, rlr, rk, rd, rr);
        let res = mk_node(RBT_RED, Some(new_l), rlk, rld, Some(new_r));
        proof {
            reveal_with_fuel(link_map, 3);
            reveal_with_fuel(bst_ordered, 3);
            reveal_with_fuel(no_red_red, 3);
            reveal_with_fuel(bh, 3);
            reveal_with_fuel(bh_even, 3);
            let b = link_map(rll);
            let c = link_map(rlr);
            let d = link_map(rr);
            assert(bst_ordered(rl));
            assert(link_map(rl).dom().contains(rlk));
            lemma_union_insert_contains(link_map(rl), link_map(rr), rk, rd, rlk);
            assert(rm.dom().contains(rlk));
            assert(rm.dom().contains(rk));
            lemma_above_parts(link_map(rl), d, rk, rd, key);
            lemma_above_parts(b, c, rlk, rld, key);
            lemma_below_parts(b, c, rlk, rld, rk);
            lemma_rotate_regroup(lm, b, c, d, key, data, rlk, rld, rk, rd);
            assert(link_map(Some(res)) == lm.union_prefer_right(rm).insert(key, data));
            lemma_below_weaken(lm, key, rlk);
            lemma_below_parts(lm, b, key, data, rlk);
            lemma_above_weaken(d, rk, rlk);
            lemma_above_parts(c, d, rk, rd, rlk);
            assert(bst_ordered(Some(res)));
            assert(no_red_red(Some(res)));
            assert(bh(Some(res)) == bh(l) + 1);
            assert(bh_even(Some(res)));
        }
        res
    } else if link_is_red_of(&r) && child_right_is_red(&r) {
        let rn = *r.unwrap();
        let rbtree_node_s { key: rk, data: rd, color: _, left: rl, right: rr } = rn;
        proof {
            assert(rm == link_map(rl).union_prefer_right(link_map(rr)).insert(rk, rd));
        }
        let rrn = *rr.unwrap();
        let rbtree_node_s { key: rrk, data: rrd, color: _, left: rrl, right: rrr } = rrn;
        proof {
            assert(link_map(rr) == link_map(rrl).union_prefer_right(link_map(rrr)).insert(
                rrk,
                rrd,
            ));
        }
        let new_l = mk_node(RBT_BLACK, l, key, data, rl);
        let new_r = mk_node(RBT_BLACK, rrl, rrk, rrd, rrr);
        let res = mk_node(RBT_RED, Some(new_l), rk, rd, Some(new_r));
        proof {
            reveal_with_fuel(link_map, 3);
            reveal_with_fuel(bst_ordered, 3);
            reveal_with_fuel(no_red_red, 3);
            reveal_with_fuel(bh, 3);
            reveal_with_fuel(bh_even, 3);
            let b = link_map(rl);
            let c = link_map(rrl);
            let d = link_map(rrr);
            assert(bst_ordered(rr));
            assert(link_map(rr).dom().contains(rrk));
            lemma_union_insert_contains(link_map(rl), link_map(rr), rk, rd, rrk);
            assert(rm.dom().contains(rrk));
            assert(rm.dom().contains(rk));
            lemma_above_parts(b, link_map(rr), rk, rd, key);
            lemma_above_parts(c, d, rrk, rrd, rk);
            lemma_rotate_regroup(lm, b, c, d, key, data, rk, rd, rrk, rrd);
            assert(link_map(Some(res)) == lm.union_prefer_right(rm).insert(key, data));
            lemma_below_weaken(lm, key, rk);
            lemma_below_parts(lm, b, key, data, rk);
            assert(bst_ordered(Some(res)));
            assert(no_red_red(Some(res)));
            assert(bh(Some(res)) == bh(l) + 1);
            assert(bh_even(Some(res)));
        }
        res
    } else {
        let res = mk_node(RBT_BLACK, l, key, data, r);
        proof {
            assert(link_map(Some(res)) == lm.union_prefer_right(rm).insert(key, data));
            assert(no_red_red(l));
            assert(no_red_red(r));
            assert(no_red_red(Some(res)));
        }
        res
    }
}

proof fn lemma_clean_is_clean_below(n: Option<Box<rbtree_node_s>>)
    requires
        no_red_red(n),
    ensures
        no_red_red_below(n),
{
    match n {
        None => {},
        Some(b) => {
            assert(no_red_red(b.left));
        },
    }
}

proof fn lemma_insert_left_shuffle(
    a: Map<rbtree_key_s, u64>,
    b: Map<rbtree_key_s, u64>,
    x: rbtree_key_s,
    dx: u64,
    k: rbtree_key_s,
    d: u64,
)
    requires
        key_lt(k, x),
        keys_above(b, x),
    ensures
        a.insert(k, d).union_prefer_right(b).insert(x, dx) == a.union_prefer_right(b).insert(
            x,
            dx,
        ).insert(k, d),
{
    assert(!b.dom().contains(k));
    assert(a.insert(k, d).union_prefer_right(b).insert(x, dx) =~= a.union_prefer_right(b).insert(
        x,
        dx,
    ).insert(k, d));
}

proof fn lemma_insert_right_shuffle(
    a: Map<rbtree_key_s, u64>,
    b: Map<rbtree_key_s, u64>,
    x: rbtree_key_s,
    dx: u64,
    k: rbtree_key_s,
    d: u64,
)
    requires
        key_lt(x, k),
    ensures
        a.union_prefer_right(b.insert(k, d)).insert(x, dx) == a.union_prefer_right(b).insert(
            x,
            dx,
        ).insert(k, d),
{
    assert(a.union_prefer_right(b.insert(k, d)).insert(x, dx) =~= a.union_prefer_right(b).insert(
        x,
        dx,
    ).insert(k, d));
}

proof fn lemma_below_insert(
    m: Map<rbtree_key_s, u64>,
    x: rbtree_key_s,
    dx: u64,
    t: rbtree_key_s,
)
    ensures
        keys_below(m.insert(x, dx), t) <==> (keys_below(m, t) && key_lt(x, t)),
{
    let mi = m.insert(x, dx);
    assert(mi.dom().contains(x));
    if keys_below(m, t) && key_lt(x, t) {
        assert forall|k: rbtree_key_s| #[trigger] mi.dom().contains(k) implies key_lt(k, t) by {
            if k != x {
                assert(m.dom().contains(k));
            }
        }
    }
    if keys_below(mi, t) {
        assert forall|k: rbtree_key_s| #[trigger] m.dom().contains(k) implies key_lt(k, t) by {
            assert(mi.dom().contains(k));
        }
    }
}

proof fn lemma_above_insert(
    m: Map<rbtree_key_s, u64>,
    x: rbtree_key_s,
    dx: u64,
    t: rbtree_key_s,
)
    ensures
        keys_above(m.insert(x, dx), t) <==> (keys_above(m, t) && key_lt(t, x)),
{
    let mi = m.insert(x, dx);
    assert(mi.dom().contains(x));
    if keys_above(m, t) && key_lt(t, x) {
        assert forall|k: rbtree_key_s| #[trigger] mi.dom().contains(k) implies key_lt(t, k) by {
            if k != x {
                assert(m.dom().contains(k));
            }
        }
    }
    if keys_above(mi, t) {
        assert forall|k: rbtree_key_s| #[trigger] m.dom().contains(k) implies key_lt(t, k) by {
            assert(mi.dom().contains(k));
        }
    }
}

fn key_lt_exec(a: &rbtree_key_t, b: &rbtree_key_t) -> (r: bool)
    ensures
        r == key_lt(*a, *b),
{
    a.addr < b.addr || (a.addr == b.addr && a.size < b.size)
}

/// Recursive insert: the result may carry one red-red violation at its top
/// (repaired by the caller's `rb_balance`, or by blackening the root).
fn rb_ins(n: Option<Box<rbtree_node_s>>, key: rbtree_key_t, data: u64) -> (res: Box<
    rbtree_node_s,
>)
    requires
        bst_ordered(n),
        no_red_red(n),
        bh_even(n),
    ensures
        link_map(Some(res)) == link_map(n).insert(key, data),
        bst_ordered(Some(res)),
        bh_even(Some(res)),
        bh(Some(res)) == bh(n),
        no_red_red_below(Some(res)),
        !link_is_red(n) ==> no_red_red(Some(res)),
    decreases n,
{
    match n {
        None => mk_node(RBT_RED, None, key, data, None),
        Some(b) => {
            let bn = *b;
            let rbtree_node_s { key: bk, data: bd, color: bc, left: bl, right: br } = bn;
            proof {
                assert(link_map(n) == link_map(bl).union_prefer_right(link_map(br)).insert(
                    bk,
                    bd,
                ));
                lemma_clean_is_clean_below(bl);
                lemma_clean_is_clean_below(br);
            }
            if key_lt_exec(&key, &bk) {
                if bc != RBT_RED {
                    let nl = rb_ins(bl, key, data);
                    proof {
                        lemma_below_insert(link_map(bl), key, data, bk);
                    }
                    let res = rb_balance(Some(nl), bk, bd, br);
                    proof {
                        lemma_insert_left_shuffle(link_map(bl), link_map(br), bk, bd, key, data);
                        assert(link_map(Some(res)) == link_map(n).insert(key, data));
                    }
                    res
                } else {
                    let nl = rb_ins(bl, key, data);
                    let res = mk_node(RBT_RED, Some(nl), bk, bd, br);
                    proof {
                        lemma_below_insert(link_map(bl), key, data, bk);
                        lemma_insert_left_shuffle(link_map(bl), link_map(br), bk, bd, key, data);
                        assert(link_map(Some(res)) == link_map(n).insert(key, data));
                    }
                    res
                }
            } else if key_lt_exec(&bk, &key) {
                if bc != RBT_RED {
                    let nr = rb_ins(br, key, data);
                    proof {
                        lemma_above_insert(link_map(br), key, data, bk);
                    }
                    let res = rb_balance(bl, bk, bd, Some(nr));
                    proof {
                        lemma_insert_right_shuffle(link_map(bl), link_map(br), bk, bd, key, data);
                        assert(link_map(Some(res)) == link_map(n).insert(key, data));
                    }
                    res
                } else {
                    let nr = rb_ins(br, key, data);
                    let res = mk_node(RBT_RED, bl, bk, bd, Some(nr));
                    proof {
                        lemma_above_insert(link_map(br), key, data, bk);
                        lemma_insert_right_shuffle(link_map(bl), link_map(br), bk, bd, key, data);
                        assert(link_map(Some(res)) == link_map(n).insert(key, data));
                    }
                    res
                }
            } else {
                let res = mk_node(bc, bl, key, data, br);
                proof {
                    assert(key == bk);
                    assert(link_map(Some(res)) =~= link_map(n).insert(key, data));
                }
                res
            }
        },
    }
}

// ---------------------------------------------------------------------------
// Lemmas for the delete path.
// ---------------------------------------------------------------------------

proof fn lemma_below_remove(m: Map<rbtree_key_s, u64>, k: rbtree_key_s, t: rbtree_key_s)
    requires
        keys_below(m, t),
    ensures
        keys_below(m.remove(k), t),
{
    assert forall|q: rbtree_key_s| #[trigger] m.remove(k).dom().contains(q) implies key_lt(
        q,
        t,
    ) by {
        assert(m.dom().contains(q));
    }
}

proof fn lemma_above_remove(m: Map<rbtree_key_s, u64>, k: rbtree_key_s, t: rbtree_key_s)
    requires
        keys_above(m, t),
    ensures
        keys_above(m.remove(k), t),
{
    assert forall|q: rbtree_key_s| #[trigger] m.remove(k).dom().contains(q) implies key_lt(
        t,
        q,
    ) by {
        assert(m.dom().contains(q));
    }
}

proof fn lemma_remove_left_shuffle(
    a: Map<rbtree_key_s, u64>,
    b: Map<rbtree_key_s, u64>,
    x: rbtree_key_s,
    dx: u64,
    k: rbtree_key_s,
)
    requires
        key_lt(k, x),
        keys_above(b, x),
    ensures
        a.remove(k).union_prefer_right(b).insert(x, dx) == a.union_prefer_right(b).insert(
            x,
            dx,
        ).remove(k),
{
    assert(!b.dom().contains(k));
    assert(a.remove(k).union_prefer_right(b).insert(x, dx) =~= a.union_prefer_right(b).insert(
        x,
        dx,
    ).remove(k));
}

proof fn lemma_remove_right_shuffle(
    a: Map<rbtree_key_s, u64>,
    b: Map<rbtree_key_s, u64>,
    x: rbtree_key_s,
    dx: u64,
    k: rbtree_key_s,
)
    requires
        key_lt(x, k),
        keys_below(a, x),
    ensures
        a.union_prefer_right(b.remove(k)).insert(x, dx) == a.union_prefer_right(b).insert(
            x,
            dx,
        ).remove(k),
{
    assert(!a.dom().contains(k));
    assert(a.union_prefer_right(b.remove(k)).insert(x, dx) =~= a.union_prefer_right(b).insert(
        x,
        dx,
    ).remove(k));
}

proof fn lemma_insert_remove_vanish(
    a: Map<rbtree_key_s, u64>,
    b: Map<rbtree_key_s, u64>,
    x: rbtree_key_s,
    dx: u64,
)
    requires
        keys_below(a, x),
        keys_above(b, x),
    ensures
        a.union_prefer_right(b).insert(x, dx).remove(x) == a.union_prefer_right(b),
{
    assert(!a.dom().contains(x));
    assert(!b.dom().contains(x));
    assert(a.union_prefer_right(b).insert(x, dx).remove(x) =~= a.union_prefer_right(b));
}

proof fn lemma_union_assoc(
    a: Map<rbtree_key_s, u64>,
    b: Map<rbtree_key_s, u64>,
    c: Map<rbtree_key_s, u64>,
)
    ensures
        a.union_prefer_right(b).union_prefer_right(c) == a.union_prefer_right(
            b.union_prefer_right(c),
        ),
{
    assert(a.union_prefer_right(b).union_prefer_right(c) =~= a.union_prefer_right(
        b.union_prefer_right(c),
    ));
}

proof fn lemma_union_empty_sides(m: Map<rbtree_key_s, u64>)
    ensures
        Map::<rbtree_key_s, u64>::empty().union_prefer_right(m) == m,
        m.union_prefer_right(Map::<rbtree_key_s, u64>::empty()) == m,
{
    assert(Map::<rbtree_key_s, u64>::empty().union_prefer_right(m) =~= m);
    assert(m.union_prefer_right(Map::<rbtree_key_s, u64>::empty()) =~= m);
}

// ---------------------------------------------------------------------------
// Delete.
// ---------------------------------------------------------------------------

fn link_is_black_node(n: &Option<Box<rbtree_node_s>>) -> (r: bool)
    ensures
        r == (n is Some && !link_is_red(*n)),
{
    match n {
        None => false,
        Some(b) => b.color != RBT_RED,
    }
}

/// Paint the root black (the final step of insert and delete).
fn rb_blacken(n: Option<Box<rbtree_node_s>>) -> (res: Option<Box<rbtree_node_s>>)
    requires
        bst_ordered(n),
        bh_even(n),
        no_red_red_below(n),
    ensures
        link_map(res) == link_map(n),
        bst_ordered(res),
        bh_even(res),
        no_red_red(res),
        !link_is_red(res),
        bh(res) == bh(n) + if link_is_red(n) {
            1nat
        } else {
            0nat
        },
{
    match n {
        None => None,
        Some(b) => {
            let bn = *b;
            let rbtree_node_s { key: bk, data: bd, color: _, left: bl, right: br } = bn;
            Some(mk_node(RBT_BLACK, bl, bk, bd, br))
        },
    }
}

/// Rebuild a node whose left subtree came out of a delete one black level
/// short, restoring the shared black height.
#[verifier::rlimit(100)]
#[verifier::spinoff_prover]
fn rb_balleft(
    l: Option<Box<rbtree_node_s>>,
    key: rbtree_key_t,
    data: u64,
    r: Option<Box<rbtree_node_s>>,
) -> (res: Box<rbtree_node_s>)
    requires
        bst_ordered(l),
        bst_ordered(r),
        keys_below(link_map(l), key),
        keys_above(link_map(r), key),
        bh_even(l),
        bh_even(r),
        no_red_red_below(l),
        no_red_red(r),
        bh(l) + 1 == bh(r),
    ensures
        link_map(Some(res)) == link_map(l).union_prefer_right(link_map(r)).insert(key, data),
        bst_ordered(Some(res)),
        bh_even(Some(res)),
        bh(Some(res)) == bh(r),
        no_red_red_below(Some(res)),
        !link_is_red(r) ==> no_red_red(Some(res)),
{
    let ghost lm = link_map(l);
    let ghost rm = link_map(r);
    if link_is_red_of(&l) {
        let ln = *l.unwrap();
        let rbtree_node_s { key: lk, data: ld, color: _, left: ll, right: lr } = ln;
        proof {
            reveal_with_fuel(link_map, 3);
            reveal_with_fuel(bst_ordered, 3);
            reveal_with_fuel(no_red_red, 3);
            reveal_with_fuel(bh, 3);
            reveal_with_fuel(bh_even, 3);
            assert(lm == link_map(ll).union_prefer_right(link_map(lr)).insert(lk, ld));
        }
        let new_l = mk_node(RBT_BLACK, ll, lk, ld, lr);
        let res = mk_node(RBT_RED, Some(new_l), key, data, r);
        proof {
            reveal_with_fuel(link_map, 3);
            reveal_with_fuel(bst_ordered, 3);
            reveal_with_fuel(no_red_red, 3);
            reveal_with_fuel(bh, 3);
            reveal_with_fuel(bh_even, 3);
            assert(link_map(Some(new_l)) == lm);
            assert(link_map(Some(res)) == lm.union_prefer_right(rm).insert(key, data));
            assert(bst_ordered(Some(res)));
        }
        res
    } else if !link_is_red_of(&r) {
        // `r` carries one more black level than `l`, so it is a black node;
        // lending its blackness to a fresh red top rebalances against `l`.
        let rn = *r.unwrap();
        let rbtree_node_s { key: rk, data: rd, color: _, left: rl, right: rr } = rn;
        proof {
            reveal_with_fuel(link_map, 3);
            reveal_with_fuel(bst_ordered, 3);
            reveal_with_fuel(no_red_red, 3);
            reveal_with_fuel(bh, 3);
            reveal_with_fuel(bh_even, 3);
            assert(rm == link_map(rl).union_prefer_right(link_map(rr)).insert(rk, rd));
        }
        let nr = mk_node(RBT_RED, rl, rk, rd, rr);
        proof {
            reveal_with_fuel(link_map, 3);
            reveal_with_fuel(bst_ordered, 3);
            reveal_with_fuel(no_red_red, 3);
            reveal_with_fuel(bh, 3);
            reveal_with_fuel(bh_even, 3);
            assert(link_map(Some(nr)) == rm);
            assert(!link_is_red(l) ==> no_red_red(l));
        }
        let res = rb_balance(l, key, data, Some(nr));
        res
    } else {
        // `r` is red; by the red-red rule its left child is a black node.
        let rn = *r.unwrap();
        let rbtree_node_s { key: rk, data: rd, color: _, left: rl, right: rr } = rn;
        proof {
            reveal_with_fuel(link_map, 3);
            reveal_with_fuel(bst_ordered, 3);
            reveal_with_fuel(no_red_red, 3);
            reveal_with_fuel(bh, 3);
            reveal_with_fuel(bh_even, 3);
            assert(rm == link_map(rl).union_prefer_right(link_map(rr)).insert(rk, rd));
        }
        let rln = *rl.unwrap();
        let rbtree_node_s { key: rlk, data: rld, color: _, left: rll, right: rlr } = rln;
        let rrn = *rr.unwrap();
        let rbtree_node_s { key: rrk, data: rrd, color: _, left: rrl, right: rrr } = rrn;
        proof {
            reveal_with_fuel(link_map, 3);
            reveal_with_fuel(bst_ordered, 3);
            reveal_with_fuel(no_red_red, 3);
            reveal_with_fuel(bh, 3);
            reveal_with_fuel(bh_even, 3);
            assert(link_map(rl) == link_map(rll).union_prefer_right(link_map(rlr)).insert(
                rlk,
                rld,
            ));
            assert(link_map(rr) == link_map(rrl).union_prefer_right(link_map(rrr)).insert(
                rrk,
                rrd,
            ));
            lemma_clean_is_clean_below(rlr);
        }
        let new_l = mk_node(RBT_BLACK, l, key, data, rll);
        let nrr = mk_node(RBT_RED, rrl, rrk, rrd, rrr);
        proof {
            reveal_with_fuel(link_map, 3);
            reveal_with_fuel(bst_ordered, 3);
            reveal_with_fuel(no_red_red, 3);
            reveal_with_fuel(bh, 3);
            reveal_with_fuel(bh_even, 3);
            assert(link_map(Some(nrr)) == link_map(rr));
            assert(bst_ordered(rl));
            assert(bst_ordered(rr));
            assert(bst_ordered(Some(nrr)));
            lemma_below_parts(link_map(rll), link_map(rlr), rlk, rld, rk);
            assert(keys_below(link_map(rlr), rk));
        }
        let new_r = rb_balance(rlr, rk, rd, Some(nrr));
        let res = mk_node(RBT_RED, Some(new_l), rlk, rld, Some(new_r));
        proof {
            reveal_with_fuel(link_map, 3);
            reveal_with_fuel(bst_ordered, 3);
            reveal_with_fuel(no_red_red, 3);
            reveal_with_fuel(bh, 3);
            reveal_with_fuel(bh_even, 3);
            let b = link_map(rll);
            let c = link_map(rlr);
            let d = link_map(rr);
            assert(link_map(rl).dom().contains(rlk));
            lemma_union_insert_contains(link_map(rl), link_map(rr), rk, rd, rlk);
            assert(rm.dom().contains(rlk));
            assert(rm.dom().contains(rk));
            lemma_above_parts(link_map(rl), d, rk, rd, key);
            lemma_above_parts(b, c, rlk, rld, key);
            lemma_below_parts(b, c, rlk, rld, rk);
            lemma_rotate_regroup(lm, b, c, d, key, data, rlk, rld, rk, rd);
            assert(link_map(Some(new_l)) == lm.union_prefer_right(b).insert(key, data));
            assert(link_map(Some(res)) == link_map(Some(new_l)).union_prefer_right(
                link_map(Some(new_r)),
            ).insert(rlk, rld));
            assert(link_map(Some(res)) == lm.union_prefer_right(rm).insert(key, data));
            lemma_below_weaken(lm, key, rlk);
            lemma_below_parts(lm, b, key, data, rlk);
            lemma_above_weaken(d, rk, rlk);
            lemma_above_parts(c, d, rk, rd, rlk);
            assert(bst_ordered(Some(res)));
            assert(no_red_red_below(Some(res)));
            assert(bh(Some(res)) == bh(r));
            assert(bh_even(Some(res)));
        }
        res
    }
}

/// Mirror of `rb_balleft`: the right subtree is one black level short.
#[verifier::rlimit(100)]
#[verifier::spinoff_prover]
fn rb_balright(
    l: Option<Box<rbtree_node_s>>,
    key: rbtree_key_t,
    data: u64,
    r: Option<Box<rbtree_node_s>>,
) -> (res: Box<rbtree_node_s>)
    requires
        bst_ordered(l),
        bst_ordered(r),
        keys_below(link_map(l), key),
        keys_above(link_map(r), key),
        bh_even(l),
        bh_even(r),
        no_red_red(l),
        no_red_red_below(r),
        bh(r) + 1 == bh(l),
    ensures
        link_map(Some(res)) == link_map(l).union_prefer_right(link_map(r)).insert(key, data),
        bst_ordered(Some(res)),
        bh_even(Some(res)),
        bh(Some(res)) == bh(l),
        no_red_red_below(Some(res)),
        !link_is_red(l) ==> no_red_red(Some(res)),
{
    let ghost lm = link_map(l);
    let ghost rm = link_map(r);
    if link_is_red_of(&r) {
        let rn = *r.unwrap();
        let rbtree_node_s { key: rk, data: rd, color: _, left: rl, right: rr } = rn;
        proof {
            reveal_with_fuel(link_map, 3);
            reveal_with_fuel(bst_ordered, 3);
            reveal_with_fuel(no_red_red, 3);
            reveal_with_fuel(bh, 3);
            reveal_with_fuel(bh_even, 3);
            assert(rm == link_map(rl).union_prefer_right(link_map(rr)).insert(rk, rd));
        }
        let new_r = mk_node(RBT_BLACK, rl, rk, rd, rr);
        let res = mk_node(RBT_RED, l, key, data, Some(new_r));
        proof {
            reveal_with_fuel(link_map, 3);
            reveal_with_fuel(bst_ordered, 3);
            reveal_with_fuel(no_red_red, 3);
            reveal_with_fuel(bh, 3);
            reveal_with_fuel(bh_even, 3);
            assert(link_map(Some(new_r)) == rm);
            assert(link_map(Some(res)) == lm.union_prefer_right(rm).insert(key, data));
            assert(bst_ordered(Some(res)));
        }
        res
    } else if !link_is_red_of(&l) {
        let ln = *l.unwrap();
        let rbtree_node_s { key: lk, data: ld, color: _, left: ll, right: lr } = ln;
        proof {
            reveal_with_fuel(link_map, 3);
            reveal_with_fuel(bst_ordered, 3);
            reveal_with_fuel(no_red_red, 3);
            reveal_with_fuel(bh, 3);
            reveal_with_fuel(bh_even, 3);
            assert(lm == link_map(ll).union_prefer_right(link_map(lr)).insert(lk, ld));
        }
        let nl = mk_node(RBT_RED, ll, lk, ld, lr);
        proof {
            reveal_with_fuel(link_map, 3);
            reveal_with_fuel(bst_ordered, 3);
            reveal_with_fuel(no_red_red, 3);
            reveal_with_fuel(bh, 3);
            reveal_with_fuel(bh_even, 3);
            assert(link_map(Some(nl)) == lm);
            assert(!link_is_red(r) ==> no_red_red(r));
        }
        let res = rb_balance(Some(nl), key, data, r);
        res
    } else {
        // `l` is red; by the red-red rule its right child is a black node.
        let ln = *l.unwrap();
        let rbtree_node_s { key: lk, data: ld, color: _, left: ll, right: lr } = ln;
        proof {
            reveal_with_fuel(link_map, 3);
            reveal_with_fuel(bst_ordered, 3);
            reveal_with_fuel(no_red_red, 3);
            reveal_with_fuel(bh, 3);
            reveal_with_fuel(bh_even, 3);
            assert(lm == link_map(ll).union_prefer_right(link_map(lr)).insert(lk, ld));
        }
        let lrn = *lr.unwrap();
        let rbtree_node_s { key: lrk, data: lrd, color: _, left: lrl, right: lrr } = lrn;
        let lln = *ll.unwrap();
        let rbtree_node_s { key: llk, data: lld, color: _, left: lll, right: llr } = lln;
        proof {
            reveal_with_fuel(link_map, 3);
            reveal_with_fuel(bst_ordered, 3);
            reveal_with_fuel(no_red_red, 3);
            reveal_with_fuel(bh, 3);
            reveal_with_fuel(bh_even, 3);
            assert(link_map(lr) == link_map(lrl).union_prefer_right(link_map(lrr)).insert(
                lrk,
                lrd,
            ));
            assert(link_map(ll) == link_map(lll).union_prefer_right(link_map(llr)).insert(
                llk,
                lld,
            ));
            lemma_clean_is_clean_below(lrl);
        }
        let nll = mk_node(RBT_RED, lll, llk, lld, llr);
        let new_r = mk_node(RBT_BLACK, lrr, key, data, r);
        proof {
            reveal_with_fuel(link_map, 3);
            reveal_with_fuel(bst_ordered, 3);
            reveal_with_fuel(no_red_red, 3);
            reveal_with_fuel(bh, 3);
            reveal_with_fuel(bh_even, 3);
            assert(link_map(Some(nll)) == link_map(ll));
            assert(bst_ordered(ll));
            assert(bst_ordered(lr));
            assert(bst_ordered(Some(nll)));
            lemma_above_parts(link_map(lrl), link_map(lrr), lrk, lrd, lk);
            assert(keys_above(link_map(lrl), lk));
        }
        let new_l = rb_balance(Some(nll), lk, ld, lrl);
        let res = mk_node(RBT_RED, Some(new_l), lrk, lrd, Some(new_r));
        proof {
            reveal_with_fuel(link_map, 3);
            reveal_with_fuel(bst_ordered, 3);
            reveal_with_fuel(no_red_red, 3);
            reveal_with_fuel(bh, 3);
            reveal_with_fuel(bh_even, 3);
            let a = link_map(ll);
            let b = link_map(lrl);
            let c = link_map(lrr);
            assert(link_map(lr).dom().contains(lrk));
            lemma_union_insert_contains(link_map(ll), link_map(lr), lk, ld, lrk);
            assert(lm.dom().contains(lrk));
            assert(lm.dom().contains(lk));
            lemma_below_parts(a, link_map(lr), lk, ld, key);
            lemma_below_parts(b, c, lrk, lrd, key);
            lemma_above_parts(b, c, lrk, lrd, lk);
            lemma_rotate_regroup(a, b, c, rm, lk, ld, lrk, lrd, key, data);
            assert(link_map(Some(new_l)) == a.union_prefer_right(b).insert(lk, ld));
            assert(link_map(Some(new_r)) == c.union_prefer_right(rm).insert(key, data));
            assert(link_map(Some(res)) == link_map(Some(new_l)).union_prefer_right(
                link_map(Some(new_r)),
            ).insert(lrk, lrd));
            assert(link_map(Some(res)) == lm.union_prefer_right(rm).insert(key, data));
            lemma_below_weaken(a, lk, lrk);
            lemma_below_parts(a, b, lk, ld, lrk);
            lemma_above_weaken(rm, key, lrk);
            lemma_above_parts(c, rm, key, data, lrk);
            assert(bst_ordered(Some(res)));
            assert(no_red_red_below(Some(res)));
            assert(bh(Some(res)) == bh(l));
            assert(bh_even(Some(res)));
        }
        res
    }
}

/// Join two subtrees of equal black height whose key ranges are separated
/// (every key of `l` below `sep`, every key of `r` above it).
#[verifier::rlimit(100)]
#[verifier::spinoff_prover]
fn rb_join(
    l: Option<Box<rbtree_node_s>>,
    r: Option<Box<rbtree_node_s>>,
    Ghost(sep): Ghost<rbtree_key_s>,
) -> (res: Option<Box<rbtree_node_s>>)
    requires
        bst_ordered(l),
        bst_ordered(r),
        no_red_red(l),
        no_red_red(r),
        bh_even(l),
        bh_even(r),
        bh(l) == bh(r),
        keys_below(link_map(l), sep),
        keys_above(link_map(r), sep),
    ensures
        link_map(res) == link_map(l).union_prefer_right(link_map(r)),
        bst_ordered(res),
        bh_even(res),
        bh(res) == bh(l),
        no_red_red_below(res),
        !link_is_red(l) && !link_is_red(r) ==> no_red_red(res),
    decreases l, r,
{
    let ghost lm = link_map(l);
    let ghost rm = link_map(r);
    if l.is_none() {
        proof {
            lemma_union_empty_sides(rm);
        }
        return r;
    }
    if r.is_none() {
        proof {
            lemma_union_empty_sides(lm);
        }
        return l;
    }
    let l_red = link_is_red_of(&l);
    let r_red = link_is_red_of(&r);
    if l_red && r_red {
        let ln = *l.unwrap();
        let rbtree_node_s { key: lk, data: ld, color: _, left: ll, right: lr } = ln;
        let rn = *r.unwrap();
        let rbtree_node_s { key: rk, data: rd, color: _, left: rl, right: rr } = rn;
        proof {
            reveal_with_fuel(link_map, 3);
            reveal_with_fuel(bst_ordered, 3);
            reveal_with_fuel(no_red_red, 3);
            reveal_with_fuel(bh, 3);
            reveal_with_fuel(bh_even, 3);
            assert(lm == link_map(ll).union_prefer_right(link_map(lr)).insert(lk, ld));
            assert(rm == link_map(rl).union_prefer_right(link_map(rr)).insert(rk, rd));
            lemma_below_parts(link_map(ll), link_map(lr), lk, ld, sep);
            lemma_above_parts(link_map(rl), link_map(rr), rk, rd, sep);
        }
        let m = rb_join(lr, rl, Ghost(sep));
        if link_is_red_of(&m) {
            let mn = *m.unwrap();
            let rbtree_node_s { key: mk, data: md, color: _, left: ml, right: mr } = mn;
            let new_l = mk_node(RBT_RED, ll, lk, ld, ml);
            let new_r = mk_node(RBT_RED, mr, rk, rd, rr);
            let res = Some(mk_node(RBT_RED, Some(new_l), mk, md, Some(new_r)));
            proof {
                reveal_with_fuel(link_map, 3);
                reveal_with_fuel(bst_ordered, 3);
                reveal_with_fuel(no_red_red, 3);
                reveal_with_fuel(bh, 3);
                reveal_with_fuel(bh_even, 3);
                assert(link_map(m) == link_map(ml).union_prefer_right(link_map(mr)).insert(
                    mk,
                    md,
                ));
                assert(lm.dom().contains(lk));
                assert(rm.dom().contains(rk));
                lemma_above_weaken(link_map(rl), sep, lk);
                lemma_above_union(link_map(lr), link_map(rl), lk);
                lemma_below_weaken(link_map(lr), sep, rk);
                lemma_below_union(link_map(lr), link_map(rl), rk);
                join_mid_regroup(
                    link_map(ll),
                    link_map(lr),
                    link_map(rl),
                    link_map(rr),
                    link_map(ml),
                    link_map(mr),
                    lk,
                    ld,
                    mk,
                    md,
                    rk,
                    rd,
                    sep,
                );
                assert(link_map(res) == lm.union_prefer_right(rm));
                lemma_below_weaken(link_map(ll), lk, mk);
                lemma_below_parts(link_map(ll), link_map(ml), lk, ld, mk);
                lemma_above_weaken(link_map(rr), rk, mk);
                lemma_above_parts(link_map(mr), link_map(rr), rk, rd, mk);
                assert(bst_ordered(res));
                assert(bh(res) == bh(l));
                assert(bh_even(res));
                assert(no_red_red_below(res));
            }
            res
        } else {
            let new_r = mk_node(RBT_RED, m, rk, rd, rr);
            let res = Some(mk_node(RBT_RED, ll, lk, ld, Some(new_r)));
            proof {
                reveal_with_fuel(link_map, 3);
                reveal_with_fuel(bst_ordered, 3);
                reveal_with_fuel(no_red_red, 3);
                reveal_with_fuel(bh, 3);
                reveal_with_fuel(bh_even, 3);
                assert(lm.dom().contains(lk));
                assert(rm.dom().contains(rk));
                lemma_above_weaken(link_map(rl), sep, lk);
                lemma_above_union(link_map(lr), link_map(rl), lk);
                lemma_below_weaken(link_map(lr), sep, rk);
                lemma_below_union(link_map(lr), link_map(rl), rk);
                join_flat_regroup(
                    link_map(ll),
                    link_map(lr),
                    link_map(rl),
                    link_map(rr),
                    lk,
                    ld,
                    rk,
                    rd,
                    sep,
                );
                assert(link_map(res) == lm.union_prefer_right(rm));
                assert(keys_above(link_map(Some(new_r)), lk)) by {
                    lemma_above_weaken(link_map(rr), rk, lk);
                    lemma_above_parts(
                        link_map(lr).union_prefer_right(link_map(rl)),
                        link_map(rr),
                        rk,
                        rd,
                        lk,
                    );
                }
                assert(bst_ordered(res));
                assert(bh(res) == bh(l));
                assert(bh_even(res));
                assert(no_red_red_below(res));
            }
            res
        }
    } else if !l_red && !r_red {
        let ln = *l.unwrap();
        let rbtree_node_s { key: lk, data: ld, color: _, left: ll, right: lr } = ln;
        let rn = *r.unwrap();
        let rbtree_node_s { key: rk, data: rd, color: _, left: rl, right: rr } = rn;
        proof {
            reveal_with_fuel(link_map, 3);
            reveal_with_fuel(bst_ordered, 3);
            reveal_with_fuel(no_red_red, 3);
            reveal_with_fuel(bh, 3);
            reveal_with_fuel(bh_even, 3);
            assert(lm == link_map(ll).union_prefer_right(link_map(lr)).insert(lk, ld));
            assert(rm == link_map(rl).union_prefer_right(link_map(rr)).insert(rk, rd));
            lemma_below_parts(link_map(ll), link_map(lr), lk, ld, sep);
            lemma_above_parts(link_map(rl), link_map(rr), rk, rd, sep);
        }
        let m = rb_join(lr, rl, Ghost(sep));
        if link_is_red_of(&m) {
            let mn = *m.unwrap();
            let rbtree_node_s { key: mk, data: md, color: _, left: ml, right: mr } = mn;
            let new_l = mk_node(RBT_BLACK, ll, lk, ld, ml);
            let new_r = mk_node(RBT_BLACK, mr, rk, rd, rr);
            let res = Some(mk_node(RBT_RED, Some(new_l), mk, md, Some(new_r)));
            proof {
                reveal_with_fuel(link_map, 3);
                reveal_with_fuel(bst_ordered, 3);
                reveal_with_fuel(no_red_red, 3);
                reveal_with_fuel(bh, 3);
                reveal_with_fuel(bh_even, 3);
                assert(link_map(m) == link_map(ml).union_prefer_right(link_map(mr)).insert(
                    mk,
                    md,
                ));
                assert(lm.dom().contains(lk));
                assert(rm.dom().contains(rk));
                lemma_above_weaken(link_map(rl), sep, lk);
                lemma_above_union(link_map(lr), link_map(rl), lk);
                lemma_below_weaken(link_map(lr), sep, rk);
                lemma_below_union(link_map(lr), link_map(rl), rk);
                join_mid_regroup(
                    link_map(ll),
                    link_map(lr),
                    link_map(rl),
                    link_map(rr),
                    link_map(ml),
                    link_map(mr),
                    lk,
                    ld,
                    mk,
                    md,
                    rk,
                    rd,
                    sep,
                );
                assert(link_map(res) == lm.union_prefer_right(rm));
                lemma_below_weaken(link_map(ll), lk, mk);
                lemma_below_parts(link_map(ll), link_map(ml), lk, ld, mk);
                lemma_above_weaken(link_map(rr), rk, mk);
                lemma_above_parts(link_map(mr), link_map(rr), rk, rd, mk);
                assert(bst_ordered(res));
                assert(bh(res) == bh(l));
                assert(bh_even(res));
                assert(no_red_red(res));
            }
            res
        } else {
            let new_r = mk_node(RBT_BLACK, m, rk, rd, rr);
            proof {
                reveal_with_fuel(link_map, 3);
            reveal_with_fuel(bst_ordered, 3);
            reveal_with_fuel(no_red_red, 3);
            reveal_with_fuel(bh, 3);
            reveal_with_fuel(bh_even, 3);
                assert(link_map(Some(new_r)) == link_map(m).union_prefer_right(
                    link_map(rr),
                ).insert(rk, rd));
                assert(rm.dom().contains(rk));
                assert(lm.dom().contains(lk));
                assert(keys_below(link_map(m), rk)) by {
                    lemma_below_weaken(link_map(lr), sep, rk);
                    lemma_below_union(link_map(lr), link_map(rl), rk);
                }
                assert(bst_ordered(Some(new_r)));
                lemma_clean_is_clean_below(ll);
                assert(keys_above(link_map(Some(new_r)), lk)) by {
                    lemma_above_weaken(link_map(rl), sep, lk);
                    lemma_above_union(link_map(lr), link_map(rl), lk);
                    lemma_above_weaken(link_map(rr), rk, lk);
                    lemma_above_parts(
                        link_map(lr).union_prefer_right(link_map(rl)),
                        link_map(rr),
                        rk,
                        rd,
                        lk,
                    );
                }
            }
            let res = rb_balleft(ll, lk, ld, Some(new_r));
            proof {
                reveal_with_fuel(link_map, 3);
                reveal_with_fuel(bst_ordered, 3);
                reveal_with_fuel(no_red_red, 3);
                reveal_with_fuel(bh, 3);
                reveal_with_fuel(bh_even, 3);
                assert(lm.dom().contains(lk));
                assert(rm.dom().contains(rk));
                lemma_above_weaken(link_map(rl), sep, lk);
                lemma_above_union(link_map(lr), link_map(rl), lk);
                lemma_below_weaken(link_map(lr), sep, rk);
                lemma_below_union(link_map(lr), link_map(rl), rk);
                join_flat_regroup(
                    link_map(ll),
                    link_map(lr),
                    link_map(rl),
                    link_map(rr),
                    lk,
                    ld,
                    rk,
                    rd,
                    sep,
                );
                assert(link_map(Some(res)) == lm.union_prefer_right(rm));
            }
            Some(res)
        }
    } else if r_red {
        let rn = *r.unwrap();
        let rbtree_node_s { key: rk, data: rd, color: _, left: rl, right: rr } = rn;
        proof {
            reveal_with_fuel(link_map, 3);
            reveal_with_fuel(bst_ordered, 3);
            reveal_with_fuel(no_red_red, 3);
            reveal_with_fuel(bh, 3);
            reveal_with_fuel(bh_even, 3);
            assert(rm == link_map(rl).union_prefer_right(link_map(rr)).insert(rk, rd));
            lemma_above_parts(link_map(rl), link_map(rr), rk, rd, sep);
        }
        let m = rb_join(l, rl, Ghost(sep));
        let res = Some(mk_node(RBT_RED, m, rk, rd, rr));
        proof {
            reveal_with_fuel(link_map, 3);
                reveal_with_fuel(bst_ordered, 3);
                reveal_with_fuel(no_red_red, 3);
                reveal_with_fuel(bh, 3);
                reveal_with_fuel(bh_even, 3);
            lemma_union_assoc(lm, link_map(rl), link_map(rr));
            assert(lm.union_prefer_right(link_map(rl)).union_prefer_right(link_map(rr)).insert(
                rk,
                rd,
            ) == lm.union_prefer_right(rm)) by {
                assert(lm.union_prefer_right(link_map(rl)).union_prefer_right(
                    link_map(rr),
                ).insert(rk, rd) =~= lm.union_prefer_right(rm));
            }
            assert(link_map(res) == lm.union_prefer_right(rm));
            assert(rm.dom().contains(rk));
            assert(keys_below(link_map(m), rk)) by {
                lemma_below_weaken(lm, sep, rk);
                lemma_below_union(lm, link_map(rl), rk);
            }
            assert(bst_ordered(res));
            assert(bh(res) == bh(l));
            assert(bh_even(res));
            assert(no_red_red_below(res));
        }
        res
    } else {
        let ln = *l.unwrap();
        let rbtree_node_s { key: lk, data: ld, color: _, left: ll, right: lr } = ln;
        proof {
            reveal_with_fuel(link_map, 3);
            reveal_with_fuel(bst_ordered, 3);
            reveal_with_fuel(no_red_red, 3);
            reveal_with_fuel(bh, 3);
            reveal_with_fuel(bh_even, 3);
            assert(lm == link_map(ll).union_prefer_right(link_map(lr)).insert(lk, ld));
            lemma_below_parts(link_map(ll), link_map(lr), lk, ld, sep);
        }
        let m = rb_join(lr, r, Ghost(sep));
        let res = Some(mk_node(RBT_RED, ll, lk, ld, m));
        proof {
            reveal_with_fuel(link_map, 3);
                reveal_with_fuel(bst_ordered, 3);
                reveal_with_fuel(no_red_red, 3);
                reveal_with_fuel(bh, 3);
                reveal_with_fuel(bh_even, 3);
            lemma_union_assoc(link_map(ll), link_map(lr), rm);
            assert(link_map(ll).union_prefer_right(link_map(lr).union_prefer_right(rm)).insert(
                lk,
                ld,
            ) == lm.union_prefer_right(rm)) by {
                assert(link_map(ll).union_prefer_right(
                    link_map(lr).union_prefer_right(rm),
                ).insert(lk, ld) =~= lm.union_prefer_right(rm));
            }
            assert(link_map(res) == lm.union_prefer_right(rm));
            assert(lm.dom().contains(lk));
            assert(keys_above(link_map(m), lk)) by {
                lemma_above_weaken(rm, sep, lk);
                lemma_above_union(link_map(lr), rm, lk);
            }
            assert(bst_ordered(res));
            assert(bh(res) == bh(l));
            assert(bh_even(res));
            assert(no_red_red_below(res));
        }
        res
    }
}

/// Regrouping fact behind the joining of two red or two black siblings when
/// the joined middle came back red and is lifted to the top.
proof fn join_mid_regroup(
    a: Map<rbtree_key_s, u64>,
    b: Map<rbtree_key_s, u64>,
    c: Map<rbtree_key_s, u64>,
    d: Map<rbtree_key_s, u64>,
    ml: Map<rbtree_key_s, u64>,
    mr: Map<rbtree_key_s, u64>,
    lk: rbtree_key_s,
    ld: u64,
    mk: rbtree_key_s,
    md: u64,
    rk: rbtree_key_s,
    rd: u64,
    sep: rbtree_key_s,
)
    requires
        ml.union_prefer_right(mr).insert(mk, md) == b.union_prefer_right(c),
        keys_below(a, lk),
        keys_above(b, lk),
        keys_below(b, sep),
        keys_above(c, sep),
        keys_below(c, rk),
        keys_above(d, rk),
        key_lt(lk, sep),
        key_lt(sep, rk),
        keys_below(ml, mk),
        keys_above(mr, mk),
        keys_above(ml.union_prefer_right(mr).insert(mk, md), lk),
        keys_below(ml.union_prefer_right(mr).insert(mk, md), rk),
    ensures
        a.union_prefer_right(ml).insert(lk, ld).union_prefer_right(
            mr.union_prefer_right(d).insert(rk, rd),
        ).insert(mk, md) == a.union_prefer_right(b).insert(lk, ld).union_prefer_right(
            c.union_prefer_right(d).insert(rk, rd),
        ),
        keys_above(ml, lk),
        keys_above(mr, lk),
        keys_below(ml, rk),
        keys_below(mr, rk),
        key_lt(lk, mk),
        key_lt(mk, rk),
{
    let mm = ml.union_prefer_right(mr).insert(mk, md);
    assert(mm.dom().contains(mk));
    assert(key_lt(lk, mk));
    assert(key_lt(mk, rk));
    assert forall|k: rbtree_key_s| #[trigger] ml.dom().contains(k) implies key_lt(lk, k)
        && key_lt(k, rk) by {
        assert(mm.dom().contains(k));
    }
    assert forall|k: rbtree_key_s| #[trigger] mr.dom().contains(k) implies key_lt(lk, k)
        && key_lt(k, rk) by {
        assert(mm.dom().contains(k));
    }
    assert forall|k: rbtree_key_s| #[trigger] b.dom().contains(k) implies mm.dom().contains(
        k,
    ) && mm[k] == b.union_prefer_right(c)[k] by {
        assert(b.union_prefer_right(c).dom().contains(k));
    }
    assert forall|k: rbtree_key_s| #[trigger] c.dom().contains(k) implies mm.dom().contains(
        k,
    ) && mm[k] == b.union_prefer_right(c)[k] by {
        assert(b.union_prefer_right(c).dom().contains(k));
    }
    assert forall|k: rbtree_key_s| #[trigger] ml.dom().contains(k) implies mm.dom().contains(
        k,
    ) && mm[k] == ml[k] && !mr.dom().contains(k) && k != mk by {
        assert(key_lt(k, mk));
    }
    assert forall|k: rbtree_key_s| #[trigger] mr.dom().contains(k) implies mm.dom().contains(
        k,
    ) && mm[k] == mr[k] && k != mk by {
        assert(key_lt(mk, k));
    }
    assert(a.union_prefer_right(ml).insert(lk, ld).union_prefer_right(
        mr.union_prefer_right(d).insert(rk, rd),
    ).insert(mk, md) =~= a.union_prefer_right(b).insert(lk, ld).union_prefer_right(
        c.union_prefer_right(d).insert(rk, rd),
    ));
}

/// Regrouping fact behind the joining of two siblings when the joined middle
/// came back rootless or black and is kept under the right key.
proof fn join_flat_regroup(
    a: Map<rbtree_key_s, u64>,
    b: Map<rbtree_key_s, u64>,
    c: Map<rbtree_key_s, u64>,
    d: Map<rbtree_key_s, u64>,
    lk: rbtree_key_s,
    ld: u64,
    rk: rbtree_key_s,
    rd: u64,
    sep: rbtree_key_s,
)
    requires
        keys_below(a, lk),
        keys_above(b, lk),
        keys_below(b, sep),
        keys_above(c, sep),
        keys_below(c, rk),
        keys_above(d, rk),
        key_lt(lk, sep),
        key_lt(sep, rk),
    ensures
        a.union_prefer_right(
            b.union_prefer_right(c).union_prefer_right(d).insert(rk, rd),
        ).insert(lk, ld) == a.union_prefer_right(b).insert(lk, ld).union_prefer_right(
            c.union_prefer_right(d).insert(rk, rd),
        ),
{
    assert(a.union_prefer_right(
        b.union_prefer_right(c).union_prefer_right(d).insert(rk, rd),
    ).insert(lk, ld) =~= a.union_prefer_right(b).insert(lk, ld).union_prefer_right(
        c.union_prefer_right(d).insert(rk, rd),
    ));
}

/// Recursive delete. Deleting out of a black-rooted subtree costs one black
/// level; the result may carry one red-red violation at its top.
#[verifier::rlimit(100)]
#[verifier::spinoff_prover]
fn rb_del(n: Option<Box<rbtree_node_s>>, key: &rbtree_key_t) -> (res: Option<Box<rbtree_node_s>>)
    requires
        bst_ordered(n),
        no_red_red(n),
        bh_even(n),
    ensures
        link_map(res) == link_map(n).remove(*key),
        bst_ordered(res),
        bh_even(res),
        no_red_red_below(res),
        link_is_red(n) ==> bh(res) == bh(n) && no_red_red(res),
        !link_is_red(n) ==> (n is None && res is None) || (n is Some && bh(res) + 1 == bh(n)),
    decreases n,
{
    match n {
        None => {
            proof {
                assert(link_map(None::<Box<rbtree_node_s>>).remove(*key) =~= Map::<
                    rbtree_key_s,
                    u64,
                >::empty());
            }
            None
        },
        Some(b) => {
            let bn = *b;
            let rbtree_node_s { key: bk, data: bd, color: bc, left: bl, right: br } = bn;
            proof {
                reveal_with_fuel(link_map, 3);
                reveal_with_fuel(bst_ordered, 3);
                reveal_with_fuel(no_red_red, 3);
                reveal_with_fuel(bh, 3);
                reveal_with_fuel(bh_even, 3);
                assert(link_map(n) == link_map(bl).union_prefer_right(link_map(br)).insert(
                    bk,
                    bd,
                ));
                lemma_clean_is_clean_below(bl);
                lemma_clean_is_clean_below(br);
            }
            if key_lt_exec(key, &bk) {
                if link_is_black_node(&bl) {
                    let dl = rb_del(bl, key);
                    proof {
                        lemma_below_remove(link_map(bl), *key, bk);
                    }
                    let res = rb_balleft(dl, bk, bd, br);
                    proof {
                        lemma_remove_left_shuffle(link_map(bl), link_map(br), bk, bd, *key);
                        assert(link_map(Some(res)) == link_map(n).remove(*key));
                    }
                    Some(res)
                } else {
                    let dl = rb_del(bl, key);
                    let res = mk_node(RBT_RED, dl, bk, bd, br);
                    proof {
                        reveal_with_fuel(link_map, 3);
                        reveal_with_fuel(bst_ordered, 3);
                        reveal_with_fuel(no_red_red, 3);
                        reveal_with_fuel(bh, 3);
                        reveal_with_fuel(bh_even, 3);
                        lemma_below_remove(link_map(bl), *key, bk);
                        lemma_remove_left_shuffle(link_map(bl), link_map(br), bk, bd, *key);
                        assert(link_map(Some(res)) == link_map(n).remove(*key));
                        assert(bst_ordered(Some(res)));
                        assert(bh_even(Some(res)));
                        assert(no_red_red_below(Some(res)));
                    }
                    Some(res)
                }
            } else if key_lt_exec(&bk, key) {
                if link_is_black_node(&br) {
                    let dr = rb_del(br, key);
                    proof {
                        lemma_above_remove(link_map(br), *key, bk);
                    }
                    let res = rb_balright(bl, bk, bd, dr);
                    proof {
                        lemma_remove_right_shuffle(link_map(bl), link_map(br), bk, bd, *key);
                        assert(link_map(Some(res)) == link_map(n).remove(*key));
                    }
                    Some(res)
                } else {
                    let dr = rb_del(br, key);
                    let res = mk_node(RBT_RED, bl, bk, bd, dr);
                    proof {
                        reveal_with_fuel(link_map, 3);
                        reveal_with_fuel(bst_ordered, 3);
                        reveal_with_fuel(no_red_red, 3);
                        reveal_with_fuel(bh, 3);
                        reveal_with_fuel(bh_even, 3);
                        lemma_above_remove(link_map(br), *key, bk);
                        lemma_remove_right_shuffle(link_map(bl), link_map(br), bk, bd, *key);
                        assert(link_map(Some(res)) == link_map(n).remove(*key));
                        assert(bst_ordered(Some(res)));
                        assert(bh_even(Some(res)));
                        assert(no_red_red_below(Some(res)));
                    }
                    Some(res)
                }
            } else {
                let res = rb_join(bl, br, Ghost(bk));
                proof {
                    lemma_insert_remove_vanish(link_map(bl), link_map(br), bk, bd);
                    assert(link_map(res) == link_map(n).remove(*key));
                }
                res
            }
        },
    }
}

/// Insert `(key, data)`; an already-present key has its data replaced.
/// The tree is rebalanced so the red-black invariants hold afterwards.
pub fn hsakmt_rbtree_insert(tree: &mut rbtree_s, key: rbtree_key_t, data: u64)
    requires
        old(tree).inv(),
    ensures
        final(tree).inv(),
        final(tree)@ == old(tree)@.insert(key, data),
{
    let root = tree.root.take();
    let mut res = rb_ins(root, key, data);
    rbt_black(&mut res);
    tree.root = Some(res);
}

/// Remove `key` from the tree, if present; the tree is rebalanced so the
/// red-black invariants hold afterwards. Removing an absent key leaves the
/// tree's contents unchanged.
pub fn hsakmt_rbtree_delete(tree: &mut rbtree_s, key: &rbtree_key_t)
    requires
        old(tree).inv(),
    ensures
        final(tree).inv(),
        final(tree)@ == old(tree)@.remove(*key),
{
    let root = tree.root.take();
    let d = rb_del(root, key);
    tree.root = rb_blacken(d);
}


// ---------------------------------------------------------------------------
// Predecessor.
// ---------------------------------------------------------------------------

fn rbtree_prev_rec(
    n: &Option<Box<rbtree_node_s>>,
    key: &rbtree_key_t,
    best: Option<(rbtree_key_s, u64)>,
    Ghost(full): Ghost<Map<rbtree_key_s, u64>>,
) -> (r: Option<(rbtree_key_s, u64)>)
    requires
        bst_ordered(*n),
        forall|k: rbtree_key_s| #[trigger]
            link_map(*n).dom().contains(k) ==> full.dom().contains(k) && full[k] == link_map(
                *n,
            )[k],
        best matches Some(p) ==> full.dom().contains(p.0) && full[p.0] == p.1 && key_lt(
            p.0,
            *key,
        ) && (forall|k: rbtree_key_s| #[trigger]
            link_map(*n).dom().contains(k) ==> key_lt(p.0, k)),
        forall|k: rbtree_key_s|
            #[trigger] full.dom().contains(k) && key_lt(k, *key) && !link_map(
                *n,
            ).dom().contains(k) ==> (best matches Some(p) && key_le(k, p.0)),
    ensures
        r matches Some(p) ==> full.dom().contains(p.0) && full[p.0] == p.1 && key_lt(p.0, *key)
            && (forall|k: rbtree_key_s| #[trigger]
            full.dom().contains(k) && key_lt(k, *key) ==> key_le(k, p.0)),
        r is None ==> (forall|k: rbtree_key_s| #[trigger]
            full.dom().contains(k) ==> !key_lt(k, *key)),
    decreases *n,
{
    match n {
        None => {
            proof {
                if best is Some {
                    assert(full.dom().contains(best.unwrap().0));
                }
            }
            best
        },
        Some(b) => {
            proof {
                assert(link_map(*n) == link_map(b.left).union_prefer_right(
                    link_map(b.right),
                ).insert(b.key, b.data));
                assert(link_map(*n).dom().contains(b.key));
            }
            if key_lt_exec(&b.key, key) {
                let newbest = Some((b.key, b.data));
                proof {
                    assert forall|k: rbtree_key_s| #[trigger]
                        link_map(b.right).dom().contains(k) implies link_map(*n).dom().contains(k)
                        && link_map(*n)[k] == link_map(b.right)[k] by {
                        assert(key_lt(b.key, k));
                    }
                    assert forall|k: rbtree_key_s|
                        #[trigger] full.dom().contains(k) && key_lt(k, *key) && !link_map(
                            b.right,
                        ).dom().contains(k) implies key_le(k, b.key) by {
                        if link_map(*n).dom().contains(k) {
                            if k != b.key {
                                assert(link_map(b.left).dom().contains(k));
                                assert(key_lt(k, b.key));
                            }
                        } else {
                            assert(best matches Some(p) && key_le(k, p.0));
                            assert(key_lt(best.unwrap().0, b.key));
                        }
                    }
                }
                rbtree_prev_rec(&b.right, key, newbest, Ghost(full))
            } else {
                proof {
                    assert forall|k: rbtree_key_s| #[trigger]
                        link_map(b.left).dom().contains(k) implies link_map(*n).dom().contains(k)
                        && link_map(*n)[k] == link_map(b.left)[k] by {
                        assert(key_lt(k, b.key));
                        assert(!link_map(b.right).dom().contains(k));
                    }
                    assert forall|k: rbtree_key_s|
                        #[trigger] full.dom().contains(k) && key_lt(k, *key) && !link_map(
                            b.left,
                        ).dom().contains(k) implies (best matches Some(p) && key_le(k, p.0)) by {
                        if link_map(*n).dom().contains(k) {
                            if k == b.key {
                                assert(!key_lt(b.key, *key));
                            } else if link_map(b.right).dom().contains(k) {
                                assert(key_lt(b.key, k));
                                assert(!key_lt(k, *key));
                            }
                        }
                    }
                }
                rbtree_prev_rec(&b.left, key, best, Ghost(full))
            }
        },
    }
}

/// The stored key immediately preceding `key` in address-then-size order,
/// with its data; nothing when no stored key lies below `key`.
pub fn hsakmt_rbtree_prev(tree: &rbtree_s, key: &rbtree_key_t) -> (r: Option<(rbtree_key_s, u64)>)
    requires
        tree.inv(),
    ensures
        r matches Some(p) ==> tree@.dom().contains(p.0) && tree@[p.0] == p.1 && key_lt(p.0, *key)
            && (forall|k: rbtree_key_s| #[trigger]
            tree@.dom().contains(k) && key_lt(k, *key) ==> key_le(k, p.0)),
        r is None ==> (forall|k: rbtree_key_s| #[trigger]
            tree@.dom().contains(k) ==> !key_lt(k, *key)),
{
    rbtree_prev_rec(&tree.root, key, None, Ghost(tree@))
}

// ---------------------------------------------------------------------------
// In-order traversal.
// ---------------------------------------------------------------------------

/// The in-order key sequence of a subtree.
pub open spec fn spec_inorder(n: Option<Box<rbtree_node_s>>) -> Seq<rbtree_key_s>
    decreases n,
{
    match n {
        None => Seq::empty(),
        Some(b) => spec_inorder(b.left) + seq![b.key] + spec_inorder(b.right),
    }
}

/// On an ordered subtree, the in-order sequence is strictly ascending and
/// lists exactly the stored keys.
pub proof fn lemma_inorder_props(n: Option<Box<rbtree_node_s>>)
    requires
        bst_ordered(n),
    ensures
        forall|i: int|
            0 <= i < spec_inorder(n).len() ==> link_map(n).dom().contains(
                #[trigger] spec_inorder(n)[i],
            ),
        forall|k: rbtree_key_s| #[trigger]
            link_map(n).dom().contains(k) ==> spec_inorder(n).contains(k),
        forall|i: int, j: int|
            0 <= i < j < spec_inorder(n).len() ==> key_lt(
                #[trigger] spec_inorder(n)[i],
                #[trigger] spec_inorder(n)[j],
            ),
    decreases n,
{
    match n {
        None => {},
        Some(b) => {
            lemma_inorder_props(b.left);
            lemma_inorder_props(b.right);
            let sl = spec_inorder(b.left);
            let sr = spec_inorder(b.right);
            let s = spec_inorder(n);
            assert(s == sl + seq![b.key] + sr);
            assert(link_map(n) == link_map(b.left).union_prefer_right(link_map(b.right)).insert(
                b.key,
                b.data,
            ));
            assert forall|i: int| 0 <= i < s.len() implies link_map(n).dom().contains(
                #[trigger] s[i],
            ) by {
                if i < sl.len() {
                    assert(s[i] == sl[i]);
                    assert(link_map(b.left).dom().contains(sl[i]));
                    assert(key_lt(sl[i], b.key));
                } else if i == sl.len() {
                    assert(s[i] == b.key);
                } else {
                    assert(s[i] == sr[i - sl.len() - 1]);
                    assert(link_map(b.right).dom().contains(s[i]));
                }
            }
            assert forall|k: rbtree_key_s| #[trigger]
                link_map(n).dom().contains(k) implies s.contains(k) by {
                if k == b.key {
                    assert(s[sl.len() as int] == b.key);
                } else if link_map(b.left).dom().contains(k) {
                    assert(sl.contains(k));
                    let i = choose|i: int| 0 <= i < sl.len() && sl[i] == k;
                    assert(s[i] == k);
                } else {
                    assert(link_map(b.right).dom().contains(k));
                    assert(sr.contains(k));
                    let i = choose|i: int| 0 <= i < sr.len() && sr[i] == k;
                    assert(s[sl.len() + 1 + i] == k);
                }
            }
            assert forall|i: int, j: int| 0 <= i < j < s.len() implies key_lt(
                #[trigger] s[i],
                #[trigger] s[j],
            ) by {
                let li = sl.len() as int;
                if j < li {
                    assert(s[i] == sl[i] && s[j] == sl[j]);
                } else if i > li {
                    assert(s[i] == sr[i - li - 1] && s[j] == sr[j - li - 1]);
                } else if i == li {
                    assert(s[i] == b.key);
                    assert(s[j] == sr[j - li - 1]);
                    assert(link_map(b.right).dom().contains(s[j]));
                } else if j == li {
                    assert(s[j] == b.key);
                    assert(s[i] == sl[i]);
                    assert(link_map(b.left).dom().contains(s[i]));
                } else {
                    // i < li < j
                    assert(s[i] == sl[i]);
                    assert(link_map(b.left).dom().contains(s[i]));
                    assert(key_lt(s[i], b.key));
                    assert(s[j] == sr[j - li - 1]);
                    assert(link_map(b.right).dom().contains(s[j]));
                    assert(key_lt(b.key, s[j]));
                }
            }
        },
    }
}

fn rbtree_inorder_rec(n: &Option<Box<rbtree_node_s>>, out: &mut Vec<rbtree_key_s>)
    ensures
        final(out)@ == old(out)@ + spec_inorder(*n),
    decreases *n,
{
    match n {
        None => {
            proof {
                assert(final(out)@ =~= old(out)@ + spec_inorder(*n));
            }
        },
        Some(b) => {
            rbtree_inorder_rec(&b.left, out);
            out.push(b.key);
            rbtree_inorder_rec(&b.right, out);
            proof {
                assert(final(out)@ =~= old(out)@ + spec_inorder(*n));
            }
        },
    }
}

/// The stored keys in ascending order under the full address-then-size order.
pub fn rbtree_inorder(tree: &rbtree_s) -> (keys: Vec<rbtree_key_s>)
    requires
        tree.inv(),
    ensures
        keys@ == spec_inorder(tree.root),
        forall|i: int| 0 <= i < keys@.len() ==> tree@.dom().contains(#[trigger] keys@[i]),
        forall|k: rbtree_key_s| #[trigger] tree@.dom().contains(k) ==> keys@.contains(k),
        forall|i: int, j: int|
            0 <= i < j < keys@.len() ==> key_lt(#[trigger] keys@[i], #[trigger] keys@[j]),
{
    let mut out: Vec<rbtree_key_s> = Vec::new();
    rbtree_inorder_rec(&tree.root, &mut out);
    proof {
        lemma_inorder_props(tree.root);
        assert(out@ =~= spec_inorder(tree.root));
    }
    out
}

/// Deleting one key removes exactly that key: every other stored key is
/// still present afterwards, with its data, and no new key appears.
pub proof fn lemma_delete_keeps_others(before: rbtree_s, after: rbtree_s, key: rbtree_key_s)
    requires
        after@ == before@.remove(key),
    ensures
        !after@.dom().contains(key),
        forall|k: rbtree_key_s|
            k != key ==> (#[trigger] after@.dom().contains(k) <==> before@.dom().contains(k)),
        forall|k: rbtree_key_s|
            k != key && before@.dom().contains(k) ==> #[trigger] after@[k] == before@[k],
{
}

} // verus!
