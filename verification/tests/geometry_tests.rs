use hyprdrover::geometry::Rect;
use hyprdrover::geometry::SplitAxis;
use hyprdrover::geometry::SplitTree;
use hyprdrover::geometry::build_split_tree;

fn rect(x: i32, y: i32, w: i32, h: i32) -> Rect {
    Rect { x, y, w, h }
}

fn collect_leaves(tree: &SplitTree, out: &mut Vec<usize>) {
    match tree {
        SplitTree::Leaf(i) => out.push(*i),
        SplitTree::Node { first, second, .. } => {
            collect_leaves(first, out);
            collect_leaves(second, out);
        }
    }
}

#[test]
fn single_rect_yields_leaf() {
    let rects = vec![rect(0, 0, 800, 600)];
    let indices = vec![0usize];
    let tree = build_split_tree(&rects, &indices);
    assert_eq!(tree, SplitTree::Leaf(0));
}

#[test]
fn side_by_side_pair_splits_on_x() {
    // A fills the left half of a 1920x1080 screen, B the right half: the
    // center-x span (960) beats the center-y span (0), so the axis is X and
    // A (smaller center x) comes first.
    let rects = vec![rect(0, 0, 960, 1080), rect(960, 0, 960, 1080)];
    let indices = vec![0usize, 1usize];
    let tree = build_split_tree(&rects, &indices);
    let expected = SplitTree::Node {
        axis: SplitAxis::X,
        first: Box::new(SplitTree::Leaf(0)),
        second: Box::new(SplitTree::Leaf(1)),
    };
    assert_eq!(tree, expected);
}

#[test]
fn pair_is_ordered_by_center_not_by_index() {
    // The same two rectangles handed over in the opposite index order: the
    // leftmost rectangle still becomes the first leaf.
    let rects = vec![rect(960, 0, 960, 1080), rect(0, 0, 960, 1080)];
    let indices = vec![0usize, 1usize];
    let tree = build_split_tree(&rects, &indices);
    let expected = SplitTree::Node {
        axis: SplitAxis::X,
        first: Box::new(SplitTree::Leaf(1)),
        second: Box::new(SplitTree::Leaf(0)),
    };
    assert_eq!(tree, expected);
}

#[test]
fn stacked_pair_splits_on_y() {
    let rects = vec![rect(0, 540, 1920, 540), rect(0, 0, 1920, 540)];
    let indices = vec![0usize, 1usize];
    let tree = build_split_tree(&rects, &indices);
    let expected = SplitTree::Node {
        axis: SplitAxis::Y,
        first: Box::new(SplitTree::Leaf(1)),
        second: Box::new(SplitTree::Leaf(0)),
    };
    assert_eq!(tree, expected);
}

#[test]
fn grid_of_four_bisects_both_axes() {
    // A 2x2 grid: the x span (960) beats the y span (540), the columns are
    // bisected first, then each column is split vertically.
    let rects = vec![
        rect(0, 0, 960, 540),
        rect(960, 0, 960, 540),
        rect(0, 540, 960, 540),
        rect(960, 540, 960, 540),
    ];
    let indices = vec![0usize, 1, 2, 3];
    let tree = build_split_tree(&rects, &indices);
    let expected = SplitTree::Node {
        axis: SplitAxis::X,
        first: Box::new(SplitTree::Node {
            axis: SplitAxis::Y,
            first: Box::new(SplitTree::Leaf(0)),
            second: Box::new(SplitTree::Leaf(2)),
        }),
        second: Box::new(SplitTree::Node {
            axis: SplitAxis::Y,
            first: Box::new(SplitTree::Leaf(1)),
            second: Box::new(SplitTree::Leaf(3)),
        }),
    };
    assert_eq!(tree, expected);
}

#[test]
fn leaves_cover_every_index_exactly_once() {
    let rects = vec![
        rect(0, 0, 600, 400),
        rect(600, 0, 600, 400),
        rect(1200, 0, 600, 400),
        rect(0, 400, 900, 400),
        rect(900, 400, 900, 400),
    ];
    let indices: Vec<usize> = (0..rects.len()).collect();
    let tree = build_split_tree(&rects, &indices);
    let mut leaves = Vec::new();
    collect_leaves(&tree, &mut leaves);
    leaves.sort();
    assert_eq!(leaves, vec![0, 1, 2, 3, 4]);
}

#[test]
fn equal_spans_favor_x_axis() {
    // Centers span 500 on both axes: the tie goes to X.
    let rects = vec![rect(0, 0, 100, 100), rect(500, 500, 100, 100)];
    let indices = vec![0usize, 1usize];
    let tree = build_split_tree(&rects, &indices);
    match tree {
        SplitTree::Node { axis, .. } => assert_eq!(axis, SplitAxis::X),
        SplitTree::Leaf(_) => panic!("expected a node"),
    }
}

#[test]
fn identical_input_yields_identical_tree() {
    let rects = vec![
        rect(0, 0, 640, 1080),
        rect(640, 0, 640, 1080),
        rect(1280, 0, 640, 1080),
    ];
    let indices: Vec<usize> = (0..rects.len()).collect();
    let first_run = build_split_tree(&rects, &indices);
    let second_run = build_split_tree(&rects, &indices);
    assert_eq!(first_run, second_run);
}

#[test]
fn equal_centers_keep_input_order() {
    // All three rectangles share one center: the sort is stable, so the
    // leaves keep the input order 0, 1, 2.
    let rects = vec![
        rect(0, 0, 100, 100),
        rect(0, 0, 100, 100),
        rect(0, 0, 100, 100),
    ];
    let indices = vec![0usize, 1, 2];
    let tree = build_split_tree(&rects, &indices);
    let mut leaves = Vec::new();
    collect_leaves(&tree, &mut leaves);
    assert_eq!(leaves, vec![0, 1, 2]);
}
