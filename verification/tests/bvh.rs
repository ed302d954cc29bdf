use raytracer::bvh::{cheapest, cut, Axis, BvhTree};

fn leaves(tree: &BvhTree) -> Vec<usize> {
    let mut out = Vec::new();
    tree.collect_leaves(&mut out);
    out
}

fn shape(tree: &BvhTree) -> String {
    match tree {
        BvhTree::Leaf(item) => format!("{}", item),
        BvhTree::Dummy => String::from("-"),
        BvhTree::Node(left, right) => format!("({} {})", shape(left), shape(right)),
    }
}

/// Whether every node parts its children along some axis.
fn split_in_order(tree: &BvhTree, keys: &Vec<[i64; 3]>) -> bool {
    match tree {
        BvhTree::Node(left, right) => {
            let (l, r) = (leaves(left), leaves(right));
            let parted = (0..3).any(|axis| {
                l.iter().all(|a| r.iter().all(|b| keys[*a][axis] <= keys[*b][axis]))
            });
            parted && split_in_order(left, keys) && split_in_order(right, keys)
        }
        _ => true,
    }
}

fn along_x(_: &Vec<usize>) -> Axis {
    Axis::X
}

/// Costs that make the first place the cheapest.
fn cut_first(v: &Vec<usize>) -> Vec<i64> {
    (0..v.len() as i64 - 1).collect()
}

/// Costs that make the last place the cheapest.
fn cut_last(v: &Vec<usize>) -> Vec<i64> {
    (0..v.len() as i64 - 1).rev().collect()
}

#[test]
fn single_primitive_gets_a_dummy_beside_it() {
    let keys = vec![[0, 0, 0], [5, 5, 5]];
    let tree = BvhTree::build(vec![1], &keys, &along_x, &cut_first);
    assert_eq!(shape(&tree), "(1 -)");
    assert_eq!(leaves(&tree), vec![1]);
}

#[test]
fn two_primitives_become_two_leaves_in_key_order() {
    let keys = vec![[9, 1, 0], [3, 2, 0]];
    let by_x = BvhTree::build(vec![0, 1], &keys, &along_x, &cut_first);
    assert_eq!(shape(&by_x), "(1 0)");
    let by_y = BvhTree::build(vec![0, 1], &keys, &|_: &Vec<usize>| Axis::Y, &cut_first);
    assert_eq!(shape(&by_y), "(0 1)");
}

#[test]
fn cheapest_place_decides_the_shape() {
    let keys = vec![[40, 0, 0], [10, 0, 0], [30, 0, 0], [20, 0, 0]];
    let items = vec![0, 1, 2, 3];
    let first = BvhTree::build(items.clone(), &keys, &along_x, &cut_first);
    assert_eq!(shape(&first), "(1 (3 (2 0)))");
    let middle = |v: &Vec<usize>| -> Vec<i64> {
        if v.len() == 4 {
            vec![5, 1, 5]
        } else {
            vec![0]
        }
    };
    let halves = BvhTree::build(items.clone(), &keys, &along_x, &middle);
    assert_eq!(shape(&halves), "((1 3) (2 0))");
    let last = BvhTree::build(items.clone(), &keys, &along_x, &cut_last);
    assert_eq!(shape(&last), "(((1 3) 2) 0)");
}

#[test]
fn equal_costs_cut_at_the_first_of_them() {
    let keys = vec![[40, 0, 0], [10, 0, 0], [30, 0, 0], [20, 0, 0]];
    let flat = |v: &Vec<usize>| -> Vec<i64> { vec![i64::MAX; v.len() - 1] };
    let tree = BvhTree::build(vec![0, 1, 2, 3], &keys, &along_x, &flat);
    assert_eq!(shape(&tree), "(1 (3 (2 0)))");
}

#[test]
fn too_many_or_no_costs_still_leave_both_parts_filled() {
    let keys = vec![[40, 0, 0], [10, 0, 0], [30, 0, 0], [20, 0, 0]];
    let too_many = |_: &Vec<usize>| -> Vec<i64> { vec![9, 8, 7, 6, 5, 4, 3] };
    let tree = BvhTree::build(vec![0, 1, 2, 3], &keys, &along_x, &too_many);
    assert_eq!(shape(&tree), "(((1 3) 2) 0)");
    let none = |_: &Vec<usize>| -> Vec<i64> { Vec::new() };
    let tree = BvhTree::build(vec![0, 1, 2, 3], &keys, &along_x, &none);
    assert_eq!(shape(&tree), "(1 (3 (2 0)))");
}

#[test]
fn equal_keys_keep_their_order() {
    let keys = vec![[5, 0, 0], [5, 0, 0], [1, 0, 0], [5, 0, 0]];
    let tree = BvhTree::build(vec![3, 0, 2, 1], &keys, &along_x, &cut_first);
    assert_eq!(leaves(&tree), vec![2, 3, 0, 1]);
}

#[test]
fn axis_may_change_from_node_to_node() {
    // Along x at the top, where all four stand; along z below.
    let keys = vec![[1, 0, 9], [2, 0, 8], [3, 0, 7], [4, 0, 6]];
    let axis = |v: &Vec<usize>| if v.len() == 4 { Axis::X } else { Axis::Z };
    let tree = BvhTree::build(vec![2, 0, 3, 1], &keys, &axis, &cut_first);
    assert_eq!(shape(&tree), "(0 (3 (2 1)))");
    assert!(split_in_order(&tree, &keys));
}

#[test]
fn hierarchy_holds_every_primitive_once() {
    let n = 97usize;
    let keys: Vec<[i64; 3]> = (0..n as i64)
        .map(|i| [(i * 37) % 101, (i * 53) % 89 - 40, (i * i) % 17])
        .collect();
    let axis = |v: &Vec<usize>| match v.len() % 3 {
        0 => Axis::X,
        1 => Axis::Y,
        _ => Axis::Z,
    };
    let costs = |v: &Vec<usize>| -> Vec<i64> {
        (0..v.len() - 1).map(|i| ((v[i] * 7 + i * 13) % 11) as i64).collect()
    };
    let tree = BvhTree::build((0..n).rev().collect(), &keys, &axis, &costs);
    let mut found = leaves(&tree);
    found.sort();
    assert_eq!(found, (0..n).collect::<Vec<usize>>());
    assert!(split_in_order(&tree, &keys));
    assert!(!shape(&tree).contains('-'));
}

#[test]
fn repeated_primitives_stay_repeated() {
    let keys = vec![[0, 0, 0], [1, 1, 1]];
    let tree = BvhTree::build(vec![1, 0, 1], &keys, &|_: &Vec<usize>| Axis::Y, &cut_first);
    assert_eq!(leaves(&tree), vec![0, 1, 1]);
}

#[test]
fn cheapest_is_the_first_of_the_smallest() {
    assert_eq!(cheapest(&vec![]), 0);
    assert_eq!(cheapest(&vec![5]), 0);
    assert_eq!(cheapest(&vec![5, 3, 9, 3, 4]), 1);
    assert_eq!(cheapest(&vec![5, 5, 5]), 0);
    assert_eq!(cheapest(&vec![i64::MAX, i64::MAX, 0, i64::MIN]), 3);
    assert_eq!(cheapest(&vec![-1, -2, -3]), 2);
}

#[test]
fn cut_leaves_both_parts_filled() {
    assert_eq!(cut(vec![4, 5, 6, 7], 0), (vec![4], vec![5, 6, 7]));
    assert_eq!(cut(vec![4, 5, 6, 7], 1), (vec![4, 5], vec![6, 7]));
    assert_eq!(cut(vec![4, 5, 6, 7], 2), (vec![4, 5, 6], vec![7]));
    assert_eq!(cut(vec![4, 5, 6, 7], 3), (vec![4, 5, 6], vec![7]));
    assert_eq!(cut(vec![4, 5], 9), (vec![4], vec![5]));
}

#[test]
fn axes_are_numbered_x_y_z() {
    assert_eq!((Axis::X.index(), Axis::Y.index(), Axis::Z.index()), (0, 1, 2));
}
