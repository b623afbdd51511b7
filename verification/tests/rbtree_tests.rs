use hsakmt::rbtree::{
    hsakmt_rbtree_delete, hsakmt_rbtree_insert, hsakmt_rbtree_prev, rbtree_init, rbtree_inorder,
    rbtree_s, rbt_black, rbt_copy_color, rbt_is_black, rbt_is_red, rbt_red, rbtree_node_s,
    rbtree_sentinel_init, RBT_BLACK, RBT_RED,
};
use hsakmt::rbtree_amd::{
    rbtree_key, rbtree_key_compare, rbtree_key_s, rbtree_lookup_nearest, rbtree_min_max, rbtree_max,
    BIT, LKP_ALL, LEFT, RIGHT,
};

fn lookup_exact(tree: &rbtree_s, addr: u64, size: i64) -> Option<(rbtree_key_s, u64)> {
    let key = rbtree_key(addr, size);
    let r = rbtree_lookup_nearest(tree, &key, 3, 2);
    match r {
        Some(p) => {
            if p.0 == key {
                Some(p)
            } else {
                None
            }
        }
        None => None,
    }
}

#[test]
fn test_insert() {
    let mut tree = rbtree_s::new();
    rbtree_init(&mut tree);

    hsakmt_rbtree_insert(&mut tree, rbtree_key(1, 4096), 0);
    hsakmt_rbtree_insert(&mut tree, rbtree_key(2, 4096), 0);
    hsakmt_rbtree_insert(&mut tree, rbtree_key(3, 4096), 0);
    hsakmt_rbtree_insert(&mut tree, rbtree_key(4, 4096), 0);

    hsakmt_rbtree_delete(&mut tree, &rbtree_key(2, 4096));

    let keys = rbtree_inorder(&tree);
    assert_eq!(keys.len(), 3);
    assert_eq!(keys[0], rbtree_key(1, 4096));
    assert_eq!(keys[1], rbtree_key(3, 4096));
    assert_eq!(keys[2], rbtree_key(4, 4096));
}

#[test]
fn test_inorder_sorted_after_inserts_and_deletes() {
    // Insertions with distinct (address, size) keys, in scrambled order.
    let addrs = [50u64, 10, 90, 30, 70, 20, 80, 40, 60, 100, 5, 95, 55, 45];
    let mut tree = rbtree_s::new();
    for (i, a) in addrs.iter().enumerate() {
        hsakmt_rbtree_insert(&mut tree, rbtree_key(*a, (i as i64) + 1), i as u64);
        let keys = rbtree_inorder(&tree);
        assert_eq!(keys.len(), i + 1);
        for w in keys.windows(2) {
            assert!(w[0].addr < w[1].addr);
        }
    }
    // Delete a few and re-check the order after every delete.
    for a in [30u64, 100, 5, 50] {
        let before = rbtree_inorder(&tree).len();
        let size = addrs.iter().position(|x| *x == a).unwrap() as i64 + 1;
        hsakmt_rbtree_delete(&mut tree, &rbtree_key(a, size));
        let keys = rbtree_inorder(&tree);
        assert_eq!(keys.len(), before - 1);
        for w in keys.windows(2) {
            assert!(w[0].addr < w[1].addr);
        }
    }
}

#[test]
fn test_delete_removes_exactly_one_key() {
    let mut tree = rbtree_s::new();
    for a in 0u64..32 {
        hsakmt_rbtree_insert(&mut tree, rbtree_key(a * 10, 7), a);
    }
    hsakmt_rbtree_delete(&mut tree, &rbtree_key(150, 7));
    assert!(lookup_exact(&tree, 150, 7).is_none());
    for a in 0u64..32 {
        if a != 15 {
            let got = lookup_exact(&tree, a * 10, 7).expect("key must stay retrievable");
            assert_eq!(got.1, a);
        }
    }
}

#[test]
fn test_lookup_nearest_directions() {
    let mut tree = rbtree_s::new();
    hsakmt_rbtree_insert(&mut tree, rbtree_key(100, 1), 1);
    hsakmt_rbtree_insert(&mut tree, rbtree_key(200, 1), 2);
    hsakmt_rbtree_insert(&mut tree, rbtree_key(300, 1), 3);

    // An existing key is answered exactly, whatever the direction.
    let r = rbtree_lookup_nearest(&tree, &rbtree_key(200, 1), 3, RIGHT as i32).unwrap();
    assert_eq!(r.0, rbtree_key(200, 1));
    let r = rbtree_lookup_nearest(&tree, &rbtree_key(200, 1), 3, LEFT as i32).unwrap();
    assert_eq!(r.0, rbtree_key(200, 1));

    // Strictly between two keys: the successor side answers the smallest
    // greater key, the predecessor side the largest smaller one.
    let r = rbtree_lookup_nearest(&tree, &rbtree_key(150, 1), 3, RIGHT as i32).unwrap();
    assert_eq!(r.0, rbtree_key(200, 1));
    let r = rbtree_lookup_nearest(&tree, &rbtree_key(150, 1), 3, LEFT as i32).unwrap();
    assert_eq!(r.0, rbtree_key(100, 1));

    // Address-only mask works the same way.
    let r = rbtree_lookup_nearest(&tree, &rbtree_key(250, 99), 1, RIGHT as i32).unwrap();
    assert_eq!(r.0.addr, 300);
    let r = rbtree_lookup_nearest(&tree, &rbtree_key(250, 99), 1, LEFT as i32).unwrap();
    assert_eq!(r.0.addr, 200);

    // Past the ends there is no neighbor on the requested side.
    assert!(rbtree_lookup_nearest(&tree, &rbtree_key(301, 1), 3, RIGHT as i32).is_none());
    assert!(rbtree_lookup_nearest(&tree, &rbtree_key(99, 1), 3, LEFT as i32).is_none());
}

#[test]
fn test_min_max_and_prev() {
    let mut tree = rbtree_s::new();
    assert!(rbtree_min_max(&tree, LEFT as i32).is_none());
    for a in [44u64, 11, 77, 33] {
        hsakmt_rbtree_insert(&mut tree, rbtree_key(a, 1), a);
    }
    assert_eq!(rbtree_min_max(&tree, LEFT as i32).unwrap().0.addr, 11);
    assert_eq!(rbtree_min_max(&tree, RIGHT as i32).unwrap().0.addr, 77);
    assert_eq!(rbtree_max(&tree).unwrap().0.addr, 77);

    let p = hsakmt_rbtree_prev(&tree, &rbtree_key(44, 1)).unwrap();
    assert_eq!(p.0.addr, 33);
    assert!(hsakmt_rbtree_prev(&tree, &rbtree_key(11, 1)).is_none());
}

#[test]
fn test_key_compare_masks() {
    let k1 = rbtree_key(10, 5);
    let k2 = rbtree_key(10, 9);
    let k3 = rbtree_key(20, 1);
    // Address-and-size mask orders by address first, then size.
    assert_eq!(rbtree_key_compare(3, &k1, &k2), -1);
    assert_eq!(rbtree_key_compare(3, &k2, &k1), 1);
    assert_eq!(rbtree_key_compare(3, &k1, &k1), 0);
    assert_eq!(rbtree_key_compare(3, &k3, &k2), 1);
    // Address-only mask ignores the size.
    assert_eq!(rbtree_key_compare(1, &k1, &k2), 0);
    assert_eq!(rbtree_key_compare(1, &k1, &k3), -1);
    // Size-only mask ignores the address.
    assert_eq!(rbtree_key_compare(2, &k2, &k3), 1);
    assert_eq!(LKP_ALL(), 3);
    assert_eq!(BIT(0) | BIT(1), 3);
}

#[test]
fn test_color_helpers() {
    let mut node = rbtree_node_s {
        key: rbtree_key(1, 1),
        data: 0,
        color: RBT_BLACK,
        left: None,
        right: None,
    };
    assert!(rbt_is_black(&node));
    rbt_red(&mut node);
    assert!(rbt_is_red(&node));
    assert_eq!(node.color, RBT_RED);
    let other = rbtree_node_s {
        key: rbtree_key(2, 1),
        data: 0,
        color: RBT_BLACK,
        left: None,
        right: None,
    };
    rbt_copy_color(&mut node, &other);
    assert!(rbt_is_black(&node));
    rbt_red(&mut node);
    rbtree_sentinel_init(&mut node);
    assert_eq!(node.color, RBT_BLACK);
    rbt_black(&mut node);
    assert!(!rbt_is_red(&node));
}
