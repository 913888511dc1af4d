use collide_tree::boxes::{Bounds, IdBound};
use collide_tree::{LocalTree, Located};
use rand::Rng;
use std::cmp::Ordering;

type Entity = IdBound<usize, Bounds<i64>>;

fn entity(id: usize, x: i64, y: i64, w: i64, h: i64) -> Entity {
    IdBound::new(id, Bounds::new(x, y, w, h))
}

fn create_range_list(n: usize) -> Vec<Entity> {
    let mut rnd = rand::thread_rng();
    let mut list = Vec::new();
    for id in 0..n {
        let x: i64 = rnd.gen_range(0, 1000);
        let y: i64 = rnd.gen_range(0, 1000);
        let w = rnd.gen_range(0, 200);
        let h = rnd.gen_range(0, 200);
        list.push(entity(id, x, y, w, h));
    }
    list
}

fn brute_force(list: &[Entity]) -> Vec<(usize, usize)> {
    let mut found = Vec::new();
    for a in 0..list.len() {
        for b in (a + 1)..list.len() {
            if collide_tree::BoundBox::hits(&list[a].bounds(), &list[b].bounds()) {
                found.push((a, b));
            }
        }
    }
    found
}

fn insert_all(universe: Bounds<i64>, list: &[Entity]) -> (LocalTree<Entity>, Vec<(usize, usize)>) {
    let mut tree: LocalTree<Entity> = LocalTree::new(universe);
    let mut found = Vec::new();
    for a in list {
        tree.add_item(a.clone(), &mut found);
    }
    (tree, found)
}

fn sorted(mut pairs: Vec<(usize, usize)>) -> Vec<(usize, usize)> {
    pairs.sort_by(|(a1, a2), (b1, b2)| match a1.cmp(b1) {
        Ordering::Equal => a2.cmp(b2),
        v => v,
    });
    pairs
}

fn unordered(pairs: Vec<(usize, usize)>) -> Vec<(usize, usize)> {
    sorted(pairs.into_iter().map(|(a, b)| if a <= b { (a, b) } else { (b, a) }).collect())
}

#[test]
fn it_works() {
    assert_eq!(2 + 2, 4);
}

#[test]
fn can_it_be_found() {
    let list = create_range_list(1000);

    let mut l_col = Vec::new();
    for a in 0..(list.len() - 1) {
        for b in (a + 1)..list.len() {
            if collide_tree::BoundBox::hits(&list[a].bounds(), &list[b].bounds()) {
                l_col.push((a, b));
            }
        }
    }

    let mut tree: LocalTree<Entity> = LocalTree::new(Bounds::new(0, 0, 1000, 1000));

    let mut t_col = Vec::new();
    for a in &list {
        tree.add_item(a.clone(), &mut t_col);
    }

    t_col.sort_by(|(a1, a2), (b1, b2)| match a1.cmp(b1) {
        Ordering::Equal => a2.cmp(b2),
        v => v,
    });

    assert_eq!(l_col.len(), t_col.len());
    assert_eq!(l_col, t_col);
}

#[test]
fn sweep_finds_what_insertion_found() {
    let list = create_range_list(300);
    let (tree, found) = insert_all(Bounds::new(0, 0, 1000, 1000), &list);
    let mut swept = Vec::new();
    tree.for_each_collision(&mut swept);
    assert_eq!(swept.len(), found.len());
    assert_eq!(unordered(swept), sorted(found));
}

#[test]
fn touching_boxes_collide() {
    let list: Vec<Entity> = (0..9).map(|i| entity(i, 10 * i as i64, 0, 10, 10)).collect();
    let mut tree: LocalTree<Entity> = LocalTree::new(Bounds::new(0, 0, 1000, 1000));
    let mut found = Vec::new();
    for a in &list[..8] {
        tree.add_item(a.clone(), &mut found);
    }
    assert!(!tree.has_children());
    tree.add_item(list[8].clone(), &mut found);
    assert!(tree.has_children());
    assert_eq!(
        sorted(found.clone()),
        vec![(0, 1), (1, 2), (2, 3), (3, 4), (4, 5), (5, 6), (6, 7), (7, 8)]
    );
    assert_eq!(sorted(found), brute_force(&list));
}

#[test]
fn identical_boxes_collide_once() {
    let (_, found) = insert_all(
        Bounds::new(0, 0, 1000, 1000),
        &[entity(0, 0, 0, 5, 5), entity(1, 0, 0, 5, 5)],
    );
    assert_eq!(found, vec![(0, 1)]);
}

#[test]
fn disjoint_regions_do_not_collide() {
    let mut list = Vec::new();
    for i in 0..5 {
        for j in 0..5 {
            list.push(entity(list.len(), 200 * i, 200 * j, 50, 50));
        }
    }
    let (tree, found) = insert_all(Bounds::new(0, 0, 1000, 1000), &list);
    assert!(tree.has_children());
    assert_eq!(found, vec![]);
    let mut swept = Vec::new();
    tree.for_each_collision(&mut swept);
    assert_eq!(swept, vec![]);
}

#[test]
fn reports_come_in_the_order_of_the_top_list() {
    let list = vec![
        entity(10, 0, 0, 10, 10),
        entity(11, 50, 50, 10, 10),
        entity(12, 5, 5, 10, 10),
        entity(13, 8, 8, 50, 50),
    ];
    let (_, found) = insert_all(Bounds::new(0, 0, 100, 100), &list);
    assert_eq!(found, vec![(10, 12), (10, 13), (11, 13), (12, 13)]);
}

#[test]
fn reports_after_a_split_come_top_first_then_children() {
    // Eight boxes in the lower half and one across the cut fill the root; the
    // tenth insertion splits it.
    let mut list: Vec<Entity> = (0..7).map(|i| entity(i, 10 * i as i64, 0, 5, 5)).collect();
    list.push(entity(7, 0, 45, 100, 10));
    list.push(entity(8, 0, 90, 5, 5));
    let (mut tree, mut found) = insert_all(Bounds::new(0, 0, 100, 100), &list[..8]);
    assert_eq!(found, vec![]);
    assert!(!tree.has_children());
    tree.add_item(list[8].clone(), &mut found);
    assert!(tree.has_children());
    assert_eq!(found, vec![]);
    // A box over the whole region stays at the root and finds the straddler
    // first, then the lower half, then the upper half.
    tree.add_item(entity(9, 0, 0, 100, 100), &mut found);
    assert_eq!(
        found,
        vec![(7, 9), (0, 9), (1, 9), (2, 9), (3, 9), (4, 9), (5, 9), (6, 9), (8, 9)]
    );
}

#[test]
fn check_hits_changes_nothing_and_reports_the_probe_second() {
    let list: Vec<Entity> =
        (0..12).map(|i| entity(i, 8 * i as i64, 8 * i as i64, 10, 10)).collect();
    let (tree, _) = insert_all(Bounds::new(0, 0, 100, 100), &list);
    let probe = entity(99, 20, 20, 5, 5);
    let mut first = Vec::new();
    tree.check_hits(&probe, &mut first);
    let mut second = Vec::new();
    tree.check_hits(&probe, &mut second);
    assert_eq!(first, second);
    assert_eq!(sorted(first), vec![(2, 99), (3, 99)]);
}

#[test]
fn check_hits_appends_to_what_is_there() {
    let (tree, _) = insert_all(Bounds::new(0, 0, 100, 100), &[entity(1, 0, 0, 10, 10)]);
    let mut found = vec![(5, 6)];
    tree.check_hits(&entity(2, 10, 10, 1, 1), &mut found);
    assert_eq!(found, vec![(5, 6), (1, 2)]);
}

#[test]
fn growing_twice_is_growing_once() {
    let list: Vec<Entity> =
        (0..8).map(|i| entity(i, 12 * i as i64, 12 * i as i64, 20, 20)).collect();
    let (mut once, _) = insert_all(Bounds::new(0, 0, 100, 100), &list);
    let (mut twice, _) = insert_all(Bounds::new(0, 0, 100, 100), &list);
    assert!(!once.has_children());
    once.grow_children();
    twice.grow_children();
    twice.grow_children();
    assert!(once.has_children());
    assert!(twice.has_children());
    let (mut a, mut b) = (Vec::new(), Vec::new());
    once.for_each_collision(&mut a);
    twice.for_each_collision(&mut b);
    assert_eq!(a, b);
    let probe = entity(50, 0, 0, 100, 100);
    let (mut c, mut d) = (Vec::new(), Vec::new());
    once.check_hits(&probe, &mut c);
    twice.check_hits(&probe, &mut d);
    assert_eq!(c, d);
    assert_eq!(c.len(), 8);
}

#[test]
fn growing_a_leaf_with_room_does_nothing() {
    let list: Vec<Entity> = (0..7).map(|i| entity(i, i as i64, 0, 1, 1)).collect();
    let (mut tree, _) = insert_all(Bounds::new(0, 0, 100, 100), &list);
    tree.grow_children();
    assert!(!tree.has_children());
}

#[test]
fn new_tree_is_an_empty_leaf() {
    let tree: LocalTree<Entity> = LocalTree::new(Bounds::new(0, 0, 10, 10));
    assert!(!tree.has_children());
    let mut found = Vec::new();
    tree.for_each_collision(&mut found);
    tree.check_hits(&entity(0, 0, 0, 10, 10), &mut found);
    assert_eq!(found, vec![]);
}

#[test]
fn insertion_matches_brute_force_on_a_crowded_grid() {
    let mut list = Vec::new();
    for i in 0..12 {
        for j in 0..12 {
            list.push(entity(list.len(), 7 * i, 5 * j, (i + j) % 9, (3 * i + j) % 7));
        }
    }
    let (tree, found) = insert_all(Bounds::new(0, 0, 100, 100), &list);
    assert_eq!(sorted(found.clone()), brute_force(&list));
    let mut swept = Vec::new();
    tree.for_each_collision(&mut swept);
    assert_eq!(unordered(swept), sorted(found));
}

#[test]
fn a_cluster_in_one_cell_is_pushed_down_until_it_straddles() {
    let list: Vec<Entity> = (0..20).map(|i| entity(i, 33, 33, 1, 1)).collect();
    let (_, found) = insert_all(Bounds::new(0, 0, 1000, 1000), &list);
    assert_eq!(found.len(), 190);
    assert_eq!(sorted(found), brute_force(&list));
}

#[test]
fn negative_coordinates_are_handled() {
    let list = vec![
        entity(0, -50, -50, 10, 10),
        entity(1, -45, -45, 10, 10),
        entity(2, -100, -100, 200, 200),
        entity(3, 40, 40, 10, 10),
    ];
    let (_, found) = insert_all(Bounds::new(-100, -100, 200, 200), &list);
    assert_eq!(found, vec![(0, 1), (0, 2), (1, 2), (2, 3)]);
}

#[test]
fn boxes_with_negative_extents_do_not_fail() {
    let list = vec![
        entity(0, 8, 0, -6, 1),
        entity(1, 0, 0, 10, 10),
        entity(2, 5, 5, -1, -1),
        entity(3, 2, 0, 6, 1),
    ];
    let (tree, found) = insert_all(Bounds::new(0, 0, 10, 10), &list);
    assert_eq!(found, vec![(0, 1), (1, 2), (0, 3), (1, 3)]);
    let mut swept = Vec::new();
    tree.for_each_collision(&mut swept);
    assert_eq!(swept, found);
}

#[test]
fn an_entity_outside_the_universe_is_kept_at_the_root() {
    let list =
        vec![entity(0, 2000, 2000, 5, 5), entity(1, 2001, 2001, 5, 5), entity(2, 1, 1, 1, 1)];
    let (tree, found) = insert_all(Bounds::new(0, 0, 1000, 1000), &list);
    assert!(!tree.has_children());
    assert_eq!(found, vec![(0, 1)]);
}

#[test]
fn a_probe_goes_only_where_the_regions_collide() {
    // Nine equal boxes reach into the universe from outside and are pushed
    // down together.  A tenth box lies outside the universe: it collides with
    // all nine and with no region, so the probe stops at the empty children of
    // the root.
    let mut list: Vec<Entity> = (0..9).map(|i| entity(i, -10, 0, 11, 1)).collect();
    list.push(entity(9, -20, 0, 12, 1));
    assert_eq!(brute_force(&list).len(), 45);
    let (tree, found) = insert_all(Bounds::new(0, 0, 10, 10), &list);
    assert!(tree.has_children());
    assert_eq!(sorted(found), brute_force(&list[..9]));
}
