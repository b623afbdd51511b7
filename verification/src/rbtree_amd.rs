//! Interval-tree keys and the parameterized key comparator.
//!
//! A key is an `(addr, size)` pair. The comparator takes a bitmask selecting
//! which fields participate, so the same tree can serve exact-match queries
//! (address and size) and address-only nearest-neighbor queries.

use crate::rbtree::{bst_ordered, link_map, rbtree_node_s, rbtree_s};
use vstd::prelude::*;

verus! {

/// Lookup direction: predecessor side.
pub const LEFT: usize = 0;
/// Lookup direction: successor side.
pub const RIGHT: usize = 1;
/// Lookup direction: exact match only.
pub const MID: usize = 2;

/// Bit selecting the address field in a comparator mask.
pub const ADDR_BIT: u64 = 0;
/// Bit selecting the size field in a comparator mask.
pub const SIZE_BIT: u64 = 1;

pub fn BIT(x: u64) -> (r: u64)
    requires
        x < 64,
    ensures
        r == (1u64 << x),
{
    1u64 << x
}

/// Mask selecting both key fields: compare by address, then by size.
pub fn LKP_ALL() -> (r: u64)
    ensures
        r == 3u64,
{
    proof {
        assert(((1u64 << 0) | (1u64 << 1)) == 3u64) by (bit_vector);
    }
    (1u64 << 0) | (1u64 << 1)
}

#[derive(Debug, Copy, Clone, PartialEq, Eq, Structural)]
pub struct rbtree_key_s {
    pub addr: u64,
    pub size: i64,
}

pub type rbtree_key_t = rbtree_key_s;

pub fn rbtree_key(addr: u64, size: i64) -> (k: rbtree_key_t)
    ensures
        k.addr == addr,
        k.size == size,
{
    rbtree_key_t { addr, size }
}

/// What the comparator returns, as a mathematical function of the mask and
/// the two keys: the fields are compared one by one, most significant first,
/// and a field only participates when its bit is set in the mask.
pub open spec fn spec_key_compare(mask: u32, k1: rbtree_key_s, k2: rbtree_key_s) -> int {
    if mask & 1 != 0 && k1.addr != k2.addr {
        if k1.addr > k2.addr {
            1int
        } else {
            -1int
        }
    } else if mask & 2 != 0 && k1.size != k2.size {
        if k1.size > k2.size {
            1int
        } else {
            -1int
        }
    } else {
        0int
    }
}

/// The strict total order the tree itself is sorted by: address first,
/// then size. It agrees with `spec_key_compare` under the full mask.
pub open spec fn key_lt(k1: rbtree_key_s, k2: rbtree_key_s) -> bool {
    k1.addr < k2.addr || (k1.addr == k2.addr && k1.size < k2.size)
}

pub open spec fn key_le(k1: rbtree_key_s, k2: rbtree_key_s) -> bool {
    key_lt(k1, k2) || k1 == k2
}

pub proof fn lemma_key_lt_total(k1: rbtree_key_s, k2: rbtree_key_s)
    ensures
        key_lt(k1, k2) || key_lt(k2, k1) || k1 == k2,
        !(key_lt(k1, k2) && key_lt(k2, k1)),
        spec_key_compare(3, k1, k2) < 0 <==> key_lt(k1, k2),
        spec_key_compare(3, k1, k2) == 0 <==> k1 == k2,
        spec_key_compare(3, k1, k2) > 0 <==> key_lt(k2, k1),
{
    assert(3u32 & 1 == 1) by (bit_vector);
    assert(3u32 & 2 == 2) by (bit_vector);
}

/// Compare the fields that `type_v` selects, address first, then size.
pub fn rbtree_key_compare<'a>(type_v: u32, key1: &'a rbtree_key_t, key2: &'a rbtree_key_t) -> (r:
    i32)
    ensures
        r as int == spec_key_compare(type_v, *key1, *key2),
{
    let b_1 = type_v & 1;
    let b_2 = key1.addr != key2.addr;

    if b_1 > 0 && b_2 {
        return if key1.addr > key2.addr {
            1
        } else {
            -1
        };
    }

    let b_3 = type_v & 2;
    let b_4 = key1.size != key2.size;

    if b_3 > 0 && b_4 {
        return if key1.size > key2.size {
            1
        } else {
            -1
        };
    }

    0
}


/// Some stored key matches the query exactly under the mask.
pub open spec fn has_exact(m: Map<rbtree_key_s, u64>, mask: u32, key: rbtree_key_s) -> bool {
    exists|k: rbtree_key_s| #[trigger] m.dom().contains(k) && spec_key_compare(mask, key, k) == 0
}

/// Some stored key lies strictly on the successor side of the query.
pub open spec fn has_right(m: Map<rbtree_key_s, u64>, mask: u32, key: rbtree_key_s) -> bool {
    exists|k: rbtree_key_s| #[trigger] m.dom().contains(k) && spec_key_compare(mask, key, k) < 0
}

/// Some stored key lies strictly on the predecessor side of the query.
pub open spec fn has_left(m: Map<rbtree_key_s, u64>, mask: u32, key: rbtree_key_s) -> bool {
    exists|k: rbtree_key_s| #[trigger] m.dom().contains(k) && spec_key_compare(mask, key, k) > 0
}

pub proof fn lemma_mask_bits()
    ensures
        1u32 & 1 == 1,
        1u32 & 2 == 0,
        3u32 & 1 == 1,
        3u32 & 2 == 2,
{
    assert(1u32 & 1 == 1 && 1u32 & 2 == 0 && 3u32 & 1 == 1 && 3u32 & 2 == 2) by (bit_vector);
}

#[verifier::rlimit(100)]
#[verifier::spinoff_prover]
fn rbtree_lookup_rec(
    n: &Option<Box<rbtree_node_s>>,
    key: &rbtree_key_t,
    type_v: u32,
    lr: i32,
    best: Option<(rbtree_key_s, u64)>,
    Ghost(full): Ghost<Map<rbtree_key_s, u64>>,
) -> (r: Option<(rbtree_key_s, u64)>)
    requires
        bst_ordered(*n),
        type_v == 1 || type_v == 3,
        forall|k: rbtree_key_s| #[trigger]
            link_map(*n).dom().contains(k) ==> full.dom().contains(k) && full[k] == link_map(
                *n,
            )[k],
        best matches Some(p) ==> full.dom().contains(p.0) && full[p.0] == p.1,
        lr == 1 ==> (best matches Some(p) ==> spec_key_compare(type_v, *key, p.0) < 0 && (
        forall|k: rbtree_key_s| #[trigger] link_map(*n).dom().contains(k) ==> key_lt(k, p.0))),
        lr == 0 ==> (best matches Some(p) ==> spec_key_compare(type_v, *key, p.0) > 0 && (
        forall|k: rbtree_key_s| #[trigger] link_map(*n).dom().contains(k) ==> key_lt(p.0, k))),
        lr != 0 && lr != 1 ==> best is None,
        forall|k: rbtree_key_s|
            #[trigger] full.dom().contains(k) && spec_key_compare(type_v, *key, k) == 0
                ==> link_map(*n).dom().contains(k),
        lr == 1 ==> (forall|k: rbtree_key_s|
            #[trigger] full.dom().contains(k) && spec_key_compare(type_v, *key, k) < 0
                && !link_map(*n).dom().contains(k) ==> (best matches Some(p)
                && spec_key_compare(type_v, p.0, k) <= 0)),
        lr == 0 ==> (forall|k: rbtree_key_s|
            #[trigger] full.dom().contains(k) && spec_key_compare(type_v, *key, k) > 0
                && !link_map(*n).dom().contains(k) ==> (best matches Some(p)
                && spec_key_compare(type_v, k, p.0) <= 0)),
    ensures
        r matches Some(p) ==> full.dom().contains(p.0) && full[p.0] == p.1,
        has_exact(full, type_v, *key) ==> (r matches Some(p) && spec_key_compare(
            type_v,
            *key,
            p.0,
        ) == 0),
        !has_exact(full, type_v, *key) && lr == 1 && has_right(full, type_v, *key) ==> (
        r matches Some(p) && spec_key_compare(type_v, *key, p.0) < 0 && (forall|k: rbtree_key_s|
            #[trigger] full.dom().contains(k) && spec_key_compare(type_v, *key, k) < 0
                ==> spec_key_compare(type_v, p.0, k) <= 0)),
        !has_exact(full, type_v, *key) && lr == 1 && !has_right(full, type_v, *key) ==> r is None,
        !has_exact(full, type_v, *key) && lr == 0 && has_left(full, type_v, *key) ==> (
        r matches Some(p) && spec_key_compare(type_v, *key, p.0) > 0 && (forall|k: rbtree_key_s|
            #[trigger] full.dom().contains(k) && spec_key_compare(type_v, *key, k) > 0
                ==> spec_key_compare(type_v, k, p.0) <= 0)),
        !has_exact(full, type_v, *key) && lr == 0 && !has_left(full, type_v, *key) ==> r is None,
        !has_exact(full, type_v, *key) && lr != 0 && lr != 1 ==> r is None,
    decreases *n,
{
    match n {
        None => {
            proof {
                lemma_mask_bits();
                if best is Some {
                    assert(full.dom().contains(best.unwrap().0));
                }
            }
            best
        },
        Some(b) => {
            proof {
                lemma_mask_bits();
                assert(link_map(*n) == link_map(b.left).union_prefer_right(
                    link_map(b.right),
                ).insert(b.key, b.data));
            }
            let rc = rbtree_key_compare(type_v, key, &b.key);
            if rc < 0 {
                let newbest = if lr == 1i32 {
                    Some((b.key, b.data))
                } else {
                    best
                };
                proof {
                    lemma_mask_bits();
                    assert(link_map(*n).dom().contains(b.key));
                    assert forall|k: rbtree_key_s| #[trigger]
                        link_map(b.left).dom().contains(k) implies link_map(*n).dom().contains(k)
                        && link_map(*n)[k] == link_map(b.left)[k] by {
                        assert(key_lt(k, b.key));
                        assert(!link_map(b.right).dom().contains(k));
                    }
                    assert forall|k: rbtree_key_s|
                        #[trigger] full.dom().contains(k) && spec_key_compare(type_v, *key, k)
                            == 0 implies link_map(b.left).dom().contains(k) by {
                        assert(link_map(*n).dom().contains(k));
                        if k == b.key {
                        } else if link_map(b.right).dom().contains(k) {
                            assert(key_lt(b.key, k));
                        }
                    }
                    if lr == 1 {
                        assert forall|k: rbtree_key_s|
                            #[trigger] full.dom().contains(k) && spec_key_compare(type_v, *key, k)
                                < 0 && !link_map(b.left).dom().contains(k) implies (
                        newbest matches Some(p) && spec_key_compare(type_v, p.0, k) <= 0) by {
                            if link_map(*n).dom().contains(k) {
                                if k != b.key {
                                    assert(link_map(b.right).dom().contains(k));
                                    assert(key_lt(b.key, k));
                                }
                            } else {
                                assert(best matches Some(p) && spec_key_compare(type_v, p.0, k)
                                    <= 0);
                                assert(key_lt(b.key, best.unwrap().0));
                            }
                        }
                    }
                }
                rbtree_lookup_rec(&b.left, key, type_v, lr, newbest, Ghost(full))
            } else if rc > 0 {
                let newbest = if lr == 0i32 {
                    Some((b.key, b.data))
                } else {
                    best
                };
                proof {
                    lemma_mask_bits();
                    assert(link_map(*n).dom().contains(b.key));
                    assert forall|k: rbtree_key_s| #[trigger]
                        link_map(b.right).dom().contains(k) implies link_map(*n).dom().contains(k)
                        && link_map(*n)[k] == link_map(b.right)[k] by {
                        assert(key_lt(b.key, k));
                    }
                    assert forall|k: rbtree_key_s|
                        #[trigger] full.dom().contains(k) && spec_key_compare(type_v, *key, k)
                            == 0 implies link_map(b.right).dom().contains(k) by {
                        assert(link_map(*n).dom().contains(k));
                        if k == b.key {
                        } else if link_map(b.left).dom().contains(k) {
                            assert(key_lt(k, b.key));
                        }
                    }
                    if lr == 0 {
                        assert forall|k: rbtree_key_s|
                            #[trigger] full.dom().contains(k) && spec_key_compare(type_v, *key, k)
                                > 0 && !link_map(b.right).dom().contains(k) implies (
                        newbest matches Some(p) && spec_key_compare(type_v, k, p.0) <= 0) by {
                            if link_map(*n).dom().contains(k) {
                                if k != b.key {
                                    assert(link_map(b.left).dom().contains(k));
                                    assert(key_lt(k, b.key));
                                }
                            } else {
                                assert(best matches Some(p) && spec_key_compare(type_v, k, p.0)
                                    <= 0);
                                assert(key_lt(best.unwrap().0, b.key));
                            }
                        }
                    }
                }
                rbtree_lookup_rec(&b.right, key, type_v, lr, newbest, Ghost(full))
            } else {
                proof {
                    lemma_mask_bits();
                    assert(link_map(*n).dom().contains(b.key));
                }
                Some((b.key, b.data))
            }
        },
    }
}

/// Descend from the root comparing under `type_v`'s mask. An exact match is
/// returned at once; otherwise, with `lr` naming the successor (1) or
/// predecessor (0) side, the nearest stored key on that side is returned.
///
/// The index is ordered address-first, so only the masks consistent with
/// that order take part: address alone, or address then size. A size-only
/// probe over an address-ordered index has no well-defined nearest answer,
/// and no caller of this design issues one.
pub fn rbtree_lookup_nearest(
    rbtree: &rbtree_s,
    key: &rbtree_key_t,
    type_v: u32,
    lr: i32,
) -> (r: Option<(rbtree_key_s, u64)>)
    requires
        rbtree.inv(),
        type_v == 1 || type_v == 3,
    ensures
        r matches Some(p) ==> rbtree@.dom().contains(p.0) && rbtree@[p.0] == p.1,
        has_exact(rbtree@, type_v, *key) ==> (r matches Some(p) && spec_key_compare(
            type_v,
            *key,
            p.0,
        ) == 0),
        !has_exact(rbtree@, type_v, *key) && lr == 1 && has_right(rbtree@, type_v, *key) ==> (
        r matches Some(p) && spec_key_compare(type_v, *key, p.0) < 0 && (forall|k: rbtree_key_s|
            #[trigger] rbtree@.dom().contains(k) && spec_key_compare(type_v, *key, k) < 0
                ==> spec_key_compare(type_v, p.0, k) <= 0)),
        !has_exact(rbtree@, type_v, *key) && lr == 1 && !has_right(rbtree@, type_v, *key) ==> r
            is None,
        !has_exact(rbtree@, type_v, *key) && lr == 0 && has_left(rbtree@, type_v, *key) ==> (
        r matches Some(p) && spec_key_compare(type_v, *key, p.0) > 0 && (forall|k: rbtree_key_s|
            #[trigger] rbtree@.dom().contains(k) && spec_key_compare(type_v, *key, k) > 0
                ==> spec_key_compare(type_v, k, p.0) <= 0)),
        !has_exact(rbtree@, type_v, *key) && lr == 0 && !has_left(rbtree@, type_v, *key) ==> r
            is None,
        !has_exact(rbtree@, type_v, *key) && lr != 0 && lr != 1 ==> r is None,
{
    rbtree_lookup_rec(&rbtree.root, key, type_v, lr, None, Ghost(rbtree@))
}

fn rbtree_min_link(n: &Option<Box<rbtree_node_s>>) -> (r: Option<(rbtree_key_s, u64)>)
    requires
        bst_ordered(*n),
    ensures
        n is None <==> r is None,
        r matches Some(p) ==> link_map(*n).dom().contains(p.0) && link_map(*n)[p.0] == p.1 && (
        forall|k: rbtree_key_s| #[trigger] link_map(*n).dom().contains(k) ==> key_le(p.0, k)),
    decreases *n,
{
    match n {
        None => None,
        Some(b) => {
            proof {
                assert(link_map(*n) == link_map(b.left).union_prefer_right(
                    link_map(b.right),
                ).insert(b.key, b.data));
                assert(link_map(*n).dom().contains(b.key));
            }
            match rbtree_min_link(&b.left) {
                None => {
                    proof {
                        assert forall|k: rbtree_key_s| #[trigger]
                            link_map(*n).dom().contains(k) implies key_le(b.key, k) by {
                            if k != b.key {
                                assert(link_map(b.right).dom().contains(k));
                            }
                        }
                    }
                    Some((b.key, b.data))
                },
                Some(p) => {
                    proof {
                        assert(link_map(b.left).dom().contains(p.0));
                        assert(!link_map(b.right).dom().contains(p.0));
                        assert forall|k: rbtree_key_s| #[trigger]
                            link_map(*n).dom().contains(k) implies key_le(p.0, k) by {
                            if k != b.key && !link_map(b.left).dom().contains(k) {
                                assert(link_map(b.right).dom().contains(k));
                                assert(key_lt(b.key, k));
                            }
                        }
                    }
                    Some(p)
                },
            }
        },
    }
}

fn rbtree_max_link(n: &Option<Box<rbtree_node_s>>) -> (r: Option<(rbtree_key_s, u64)>)
    requires
        bst_ordered(*n),
    ensures
        n is None <==> r is None,
        r matches Some(p) ==> link_map(*n).dom().contains(p.0) && link_map(*n)[p.0] == p.1 && (
        forall|k: rbtree_key_s| #[trigger] link_map(*n).dom().contains(k) ==> key_le(k, p.0)),
    decreases *n,
{
    match n {
        None => None,
        Some(b) => {
            proof {
                assert(link_map(*n) == link_map(b.left).union_prefer_right(
                    link_map(b.right),
                ).insert(b.key, b.data));
                assert(link_map(*n).dom().contains(b.key));
            }
            match rbtree_max_link(&b.right) {
                None => {
                    proof {
                        assert forall|k: rbtree_key_s| #[trigger]
                            link_map(*n).dom().contains(k) implies key_le(k, b.key) by {
                            if k != b.key {
                                assert(link_map(b.left).dom().contains(k));
                            }
                        }
                    }
                    Some((b.key, b.data))
                },
                Some(p) => {
                    proof {
                        assert(link_map(b.right).dom().contains(p.0));
                        assert forall|k: rbtree_key_s| #[trigger]
                            link_map(*n).dom().contains(k) implies key_le(k, p.0) by {
                            if k != b.key && !link_map(b.right).dom().contains(k) {
                                assert(link_map(b.left).dom().contains(k));
                                assert(key_lt(k, b.key));
                            }
                        }
                    }
                    Some(p)
                },
            }
        },
    }
}

/// The greatest stored key, or nothing for an empty tree.
pub fn rbtree_max(rbtree: &rbtree_s) -> (r: Option<(rbtree_key_s, u64)>)
    requires
        rbtree.inv(),
    ensures
        r is None <==> rbtree@ == Map::<rbtree_key_s, u64>::empty(),
        r matches Some(p) ==> rbtree@.dom().contains(p.0) && rbtree@[p.0] == p.1 && (forall|
            k: rbtree_key_s,
        | #[trigger] rbtree@.dom().contains(k) ==> key_le(k, p.0)),
{
    proof {
        if rbtree.root is None {
            assert(rbtree@ =~= Map::<rbtree_key_s, u64>::empty());
        } else {
            assert(rbtree@.dom().contains(rbtree.root.unwrap().key));
            assert(rbtree@ != Map::<rbtree_key_s, u64>::empty());
        }
    }
    rbtree_max_link(&rbtree.root)
}

/// The least (`lr` 0) or greatest (`lr` 1) stored key; any other direction
/// answers with the root's key. Nothing for an empty tree.
pub fn rbtree_min_max(rbtree: &rbtree_s, lr: i32) -> (r: Option<(rbtree_key_s, u64)>)
    requires
        rbtree.inv(),
    ensures
        r is None <==> rbtree@ == Map::<rbtree_key_s, u64>::empty(),
        r matches Some(p) ==> rbtree@.dom().contains(p.0) && rbtree@[p.0] == p.1,
        lr == 0 ==> (r matches Some(p) ==> (forall|k: rbtree_key_s| #[trigger]
            rbtree@.dom().contains(k) ==> key_le(p.0, k))),
        lr == 1 ==> (r matches Some(p) ==> (forall|k: rbtree_key_s| #[trigger]
            rbtree@.dom().contains(k) ==> key_le(k, p.0))),
{
    proof {
        if rbtree.root is None {
            assert(rbtree@ =~= Map::<rbtree_key_s, u64>::empty());
        } else {
            assert(rbtree@.dom().contains(rbtree.root.unwrap().key));
            assert(rbtree@ != Map::<rbtree_key_s, u64>::empty());
        }
    }
    if lr == 0i32 {
        rbtree_min_link(&rbtree.root)
    } else if lr == 1i32 {
        rbtree_max_link(&rbtree.root)
    } else {
        match &rbtree.root {
            None => None,
            Some(b) => Some((b.key, b.data)),
        }
    }
}

} // verus!
