use nalgebra_glm as glm;
use ray_tracing::bvh::{mid_order, Bvh, BvhTree, Vector};
use ray_tracing::geometry::AABB;
use std::cmp::Ordering;

fn bx(min: [f32; 3], max: [f32; 3]) -> AABB {
    AABB { min: glm::vec3(min[0], min[1], min[2]), max: glm::vec3(max[0], max[1], max[2]) }
}

fn cube(c: [f32; 3]) -> AABB {
    bx([c[0] - 0.5, c[1] - 0.5, c[2] - 0.5], [c[0] + 0.5, c[1] + 0.5, c[2] + 0.5])
}

fn leaf_items(t: &BvhTree<usize>, out: &mut Vec<usize>) {
    if let Some(l) = &t.left {
        leaf_items(l, out);
    }
    if let Some(r) = &t.right {
        leaf_items(r, out);
    }
    if let Some(d) = &t.data {
        out.push(*d);
    }
}

fn node_boxes(t: &BvhTree<usize>, out: &mut Vec<(glm::Vec3, glm::Vec3)>) {
    out.push((t.aabb.min, t.aabb.max));
    if let Some(l) = &t.left {
        node_boxes(l, out);
    }
    if let Some(r) = &t.right {
        node_boxes(r, out);
    }
}

fn shape(t: &BvhTree<usize>) -> String {
    match (&t.left, &t.right) {
        (Some(l), Some(r)) => format!("({} {})", shape(l), shape(r)),
        _ => if t.data.is_some() { "L".to_string() } else { "E".to_string() },
    }
}

#[test]
fn union_of_one_box_is_that_box() {
    let u = Bvh::<usize>::get_aabb(&[bx([1.0, 2.0, 3.0], [4.0, 5.0, 6.0])]);
    assert_eq!(u.min, glm::vec3(1.0, 2.0, 3.0));
    assert_eq!(u.max, glm::vec3(4.0, 5.0, 6.0));
}

#[test]
fn union_of_boxes_away_from_origin() {
    let u = Bvh::<usize>::get_aabb(&[bx([1.0, 2.0, 3.0], [4.0, 5.0, 6.0]), bx([2.0, 1.5, 5.0], [3.0, 7.0, 5.5])]);
    assert_eq!(u.min, glm::vec3(1.0, 1.5, 3.0));
    assert_eq!(u.max, glm::vec3(4.0, 7.0, 6.0));
}

#[test]
fn union_of_boxes_is_componentwise() {
    let u = Bvh::<usize>::get_aabb(&[bx([-1.0, 2.0, -3.0], [0.0, 5.0, -2.0]), bx([-4.0, -1.0, 1.0], [2.0, 0.5, 3.0])]);
    assert_eq!(u.min, glm::vec3(-4.0, -1.0, -3.0));
    assert_eq!(u.max, glm::vec3(2.0, 5.0, 3.0));
}

#[test]
fn union_of_no_boxes_is_seed() {
    let u = Bvh::<usize>::get_aabb(&[]);
    assert_eq!(u.min, glm::vec3(0.0, 0.0, 0.0));
    assert_eq!(u.max, glm::vec3(0.0, 0.0, 0.0));
}

#[test]
fn box_size_is_extent() {
    assert_eq!(bx([-1.0, 0.0, 2.0], [3.0, 0.5, 2.0]).size(), glm::vec3(4.0, 0.5, 0.0));
}

#[test]
fn box_union_method() {
    let u = bx([0.0, 1.0, 2.0], [1.0, 2.0, 3.0]).union(&bx([-1.0, 3.0, 2.5], [0.5, 4.0, 2.6]));
    assert_eq!(u.min, glm::vec3(-1.0, 1.0, 2.0));
    assert_eq!(u.max, glm::vec3(1.0, 4.0, 3.0));
}

#[test]
fn mid_order_along_each_axis() {
    let a = cube([0.0, 5.0, 1.0]);
    let b = cube([1.0, 2.0, 1.0]);
    assert_eq!(mid_order(&a, &b, 0), Ordering::Less);
    assert_eq!(mid_order(&a, &b, 1), Ordering::Greater);
    assert_eq!(mid_order(&a, &b, 2), Ordering::Equal);
}

#[test]
fn single_item_makes_leaf() {
    let b = cube([3.0, 3.0, 3.0]);
    let t = Bvh::build_bvh(&vec![b]);
    assert!(t.tree.left.is_none() && t.tree.right.is_none());
    assert_eq!(t.tree.data, Some(0));
    assert_eq!(t.root_aabb().min, b.min);
    assert_eq!(t.root_aabb().max, b.max);
}

#[test]
fn build_splits_sorted_along_widest_axis() {
    // spread widest along y; input order is not sorted
    let items = vec![
        cube([0.0, 9.0, 0.0]),
        cube([0.0, -3.0, 0.0]),
        cube([0.0, 4.0, 0.0]),
        cube([0.0, 0.0, 0.0]),
        cube([0.0, 6.0, 0.0]),
    ];
    let t = Bvh::build_bvh(&items);
    let mut out = Vec::new();
    leaf_items(&t.tree, &mut out);
    assert_eq!(out, vec![1, 3, 2, 4, 0]);
    assert_eq!(shape(&t.tree), "((L L) (L (L L)))");
    assert_eq!(t.tree.aabb.min, glm::vec3(-0.5, -3.5, -0.5));
    assert_eq!(t.tree.aabb.max, glm::vec3(0.5, 9.5, 0.5));
    let l = t.tree.left.as_ref().unwrap();
    let r = t.tree.right.as_ref().unwrap();
    assert_eq!(l.aabb.min, glm::vec3(-0.5, -3.5, -0.5));
    assert_eq!(l.aabb.max, glm::vec3(0.5, 0.5, 0.5));
    assert_eq!(r.aabb.min, glm::vec3(-0.5, 3.5, -0.5));
    assert_eq!(r.aabb.max, glm::vec3(0.5, 9.5, 0.5));
}

#[test]
fn build_twice_gives_same_tree() {
    let make = || {
        vec![
            cube([4.0, 0.0, 0.0]),
            cube([-2.0, 1.0, 0.0]),
            cube([1.0, 0.0, 5.0]),
            cube([0.0, 0.0, 0.0]),
        ]
    };
    let a = Bvh::build_bvh(&make());
    let b = Bvh::build_bvh(&make());
    assert_eq!(shape(&a.tree), shape(&b.tree));
    let (mut la, mut lb) = (Vec::new(), Vec::new());
    leaf_items(&a.tree, &mut la);
    leaf_items(&b.tree, &mut lb);
    assert_eq!(la, lb);
    let (mut ba, mut bb) = (Vec::new(), Vec::new());
    node_boxes(&a.tree, &mut ba);
    node_boxes(&b.tree, &mut bb);
    assert_eq!(ba, bb);
    let mut sorted = la.clone();
    sorted.sort();
    assert_eq!(sorted, vec![0, 1, 2, 3]);
}

#[test]
fn empty_build_has_no_leaves() {
    let t = Bvh::build_bvh(&vec![]);
    assert!(t.tree.left.is_none() && t.tree.right.is_none() && t.tree.data.is_none());
}

#[test]
fn vector_keeps_order() {
    let v = Vector::from(vec![3u32, 1, 2]);
    assert_eq!(v.list, vec![3, 1, 2]);
}

#[test]
fn walk_visits_right_before_left() {
    let items = vec![
        cube([0.0, 0.0, 0.0]),
        cube([2.0, 0.0, 0.0]),
        cube([4.0, 0.0, 0.0]),
        cube([6.0, 0.0, 0.0]),
    ];
    let t = Bvh::build_bvh(&items);
    let all: Vec<usize> = t.hit_leaves(&|_b: AABB| true).into_iter().copied().collect();
    assert_eq!(all, vec![3, 2, 1, 0]);
}

#[test]
fn walk_prunes_missed_boxes() {
    let items = vec![
        cube([0.0, 0.0, 0.0]),
        cube([2.0, 0.0, 0.0]),
        cube([4.0, 0.0, 0.0]),
        cube([6.0, 0.0, 0.0]),
    ];
    let t = Bvh::build_bvh(&items);
    // a box is hit when it reaches below x = 2.6: the subtree over 2 and 3 is pruned whole
    let near: Vec<usize> = t.hit_leaves(&|b: AABB| b.min.x < 2.6).into_iter().copied().collect();
    assert_eq!(near, vec![1, 0]);
    let none: Vec<usize> = t.hit_leaves(&|_b: AABB| false).into_iter().copied().collect();
    assert!(none.is_empty());
}
