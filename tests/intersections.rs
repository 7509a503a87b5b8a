use ray_tracer::intersections::Intersections;

#[test]
fn hit_is_lowest_non_negative() {
    let xs = Intersections::combine(&vec![(5, 'a'), (7, 'b'), (-3, 'c'), (2, 'd')]);
    assert_eq!(xs.hit(), Some((2, 'd')));
}

#[test]
fn hit_of_all_negative_is_none() {
    let xs = Intersections::combine(&vec![(-2, 'a'), (-1, 'b')]);
    assert_eq!(xs.hit(), None);
    assert_eq!(Intersections::<char>::new().hit(), None);
}

#[test]
fn hit_counts_zero_as_visible() {
    let xs = Intersections::combine(&vec![(3, 'a'), (0, 'b'), (-1, 'c')]);
    assert_eq!(xs.hit(), Some((0, 'b')));
}

#[test]
fn combine_sorts_stably() {
    let xs = Intersections::combine(&vec![(4, 'a'), (1, 'b'), (4, 'c'), (-6, 'd'), (1, 'e')]);
    assert_eq!(
        xs.entries(),
        &vec![(-6, 'd'), (1, 'b'), (1, 'e'), (4, 'a'), (4, 'c')]
    );
    assert_eq!(xs.len(), 5);
    assert_eq!(xs.hit(), Some((1, 'b')));
}

#[test]
fn insert_goes_after_equal_keys() {
    let mut xs = Intersections::new();
    xs.insert(6, 1u8);
    xs.insert(4, 2);
    xs.insert(6, 3);
    xs.insert(i64::MIN, 4);
    xs.insert(i64::MAX, 5);
    assert_eq!(
        xs.entries(),
        &vec![(i64::MIN, 4), (4, 2), (6, 1), (6, 3), (i64::MAX, 5)]
    );
}

#[test]
fn create_sorted_tags_every_key() {
    let xs = Intersections::create_sorted(&vec![6, 4], 'p');
    assert_eq!(xs.entries(), &vec![(4, 'p'), (6, 'p')]);
    let inside = Intersections::create_sorted(&vec![1, -1], 'q');
    assert_eq!(inside.entries(), &vec![(-1, 'q'), (1, 'q')]);
    assert_eq!(inside.hit(), Some((1, 'q')));
}

#[test]
fn tangent_keys_stay_twice() {
    let xs = Intersections::create_sorted(&vec![5, 5], 's');
    assert_eq!(xs.len(), 2);
    assert_eq!(xs.hit(), Some((5, 's')));
}

#[test]
fn hits_of_ray_operations() {
    // all intersections have positive t
    let xs = Intersections::combine(&vec![(1, 1u8), (2, 2)]);
    assert_eq!(xs.hit(), Some((1, 1)));

    // some intersections have negative t
    let xs = Intersections::combine(&vec![(-1, 1u8), (1, 2)]);
    assert_eq!(xs.hit(), Some((1, 2)));

    // all intersections have negative t
    let xs = Intersections::combine(&vec![(-2, 1u8), (-1, 2)]);
    assert_eq!(xs.hit(), None);

    // the hit is always the lowest non-negative intersection
    let xs = Intersections::combine(&vec![(5, 1u8), (7, 2), (-3, 3), (2, 4)]);
    assert_eq!(xs.hit(), Some((2, 4)));
}

#[test]
fn hit_tie_goes_to_first_added() {
    let xs = Intersections::combine(&vec![(3, 'a'), (-1, 'x'), (1, 'b'), (1, 'c')]);
    assert_eq!(xs.hit(), Some((1, 'b')));
    let ys = Intersections::combine(&vec![(1, 'c'), (3, 'a'), (1, 'b')]);
    assert_eq!(ys.hit(), Some((1, 'c')));
}
