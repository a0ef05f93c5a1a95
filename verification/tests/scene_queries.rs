use rayt::hittable_list::{nearest_hit, Hit, HittableList};
use rayt::sphere::Roots;

fn roots(near: i64, far: i64) -> Option<Roots> {
    Some(Roots::new(near, far).unwrap())
}

#[test]
fn nearest_hit_of_no_objects_is_nothing() {
    assert_eq!(nearest_hit(&vec![], 0, 100), None);
}

#[test]
fn nearest_hit_of_objects_without_crossings_is_nothing() {
    assert_eq!(nearest_hit(&vec![None, None, None], 0, 100), None);
}

#[test]
fn nearest_hit_finds_the_one_object_that_is_crossed() {
    let candidates = vec![None, roots(4, 6), None];
    assert_eq!(nearest_hit(&candidates, 0, 100), Some(Hit { index: 1, t: 4 }));
}

#[test]
fn nearest_hit_is_the_least_parameter_whatever_the_order() {
    let expected_t = 2;
    let a = vec![roots(2, 3), roots(4, 6), roots(9, 12)];
    let b = vec![roots(9, 12), roots(4, 6), roots(2, 3)];
    let c = vec![roots(4, 6), roots(2, 3), roots(9, 12)];
    assert_eq!(nearest_hit(&a, 0, 100), Some(Hit { index: 0, t: expected_t }));
    assert_eq!(nearest_hit(&b, 0, 100), Some(Hit { index: 2, t: expected_t }));
    assert_eq!(nearest_hit(&c, 0, 100), Some(Hit { index: 1, t: expected_t }));
}

#[test]
fn nearest_hit_gives_a_tie_to_the_earlier_object() {
    let candidates = vec![roots(7, 9), roots(4, 6), roots(4, 8), roots(4, 5)];
    assert_eq!(nearest_hit(&candidates, 0, 100), Some(Hit { index: 1, t: 4 }));
}

#[test]
fn nearest_hit_counts_the_farther_crossing_of_an_object_around_the_origin() {
    let candidates = vec![roots(-3, 5), roots(7, 9)];
    assert_eq!(nearest_hit(&candidates, 0, 100), Some(Hit { index: 0, t: 5 }));
    let candidates = vec![roots(-3, 8), roots(7, 9)];
    assert_eq!(nearest_hit(&candidates, 0, 100), Some(Hit { index: 1, t: 7 }));
}

#[test]
fn nearest_hit_keeps_the_first_find_against_later_objects_behind_it() {
    let candidates = vec![roots(4, 9), roots(5, 6), roots(8, 20)];
    assert_eq!(nearest_hit(&candidates, 0, 100), Some(Hit { index: 0, t: 4 }));
}

#[test]
fn nearest_hit_prefers_the_far_side_of_an_object_around_the_origin_when_it_is_nearer() {
    let candidates = vec![roots(4, 9), roots(-5, 3), roots(5, 6)];
    assert_eq!(nearest_hit(&candidates, 0, 100), Some(Hit { index: 1, t: 3 }));
}

#[test]
fn nearest_hit_ignores_what_lies_outside_the_interval() {
    let candidates = vec![roots(1, 2), roots(40, 60), roots(200, 300)];
    assert_eq!(nearest_hit(&candidates, 10, 100), Some(Hit { index: 1, t: 40 }));
    assert_eq!(nearest_hit(&candidates, 60, 200), None);
    assert_eq!(nearest_hit(&candidates, 2, 40), None);
    assert_eq!(nearest_hit(&candidates, 100, 10), None);
}

#[test]
fn scene_starts_empty_and_keeps_the_order_of_its_objects() {
    let mut world: HittableList<&str> = HittableList::new();
    assert_eq!(world.len(), 0);
    assert_eq!(world.get(0), None);
    world.add("ground");
    world.add("glass");
    world.add("metal");
    assert_eq!(world.len(), 3);
    assert_eq!(world.get(0), Some(&"ground"));
    assert_eq!(world.get(1), Some(&"glass"));
    assert_eq!(world.get(2), Some(&"metal"));
    assert_eq!(world.get(3), None);
}

#[test]
fn scene_by_default_is_empty() {
    let world: HittableList<u8> = HittableList::default();
    assert_eq!(world.len(), 0);
    assert_eq!(world.hit(|_| None, 0, 100), None);
}

#[test]
fn scene_hit_asks_every_object_once_in_order() {
    let mut world: HittableList<usize> = HittableList::new();
    for i in 0..5 {
        world.add(i);
    }
    let asked = std::cell::RefCell::new(Vec::new());
    let found = world.hit(
        |object| {
            asked.borrow_mut().push(*object);
            None
        },
        0,
        100,
    );
    assert_eq!(found, None);
    assert_eq!(asked.into_inner(), vec![0, 1, 2, 3, 4]);
}

#[test]
fn scene_hit_returns_the_nearest_object() {
    let mut world: HittableList<(i64, i64)> = HittableList::new();
    world.add((9, 12));
    world.add((2, 3));
    world.add((4, 6));
    let found = world.hit(|&(near, far)| Roots::new(near, far), 0, 100);
    assert_eq!(found, Some(Hit { index: 1, t: 2 }));
    assert_eq!(world.get(found.unwrap().index), Some(&(2, 3)));
}

#[test]
fn scene_hit_agrees_with_nearest_hit() {
    let objects = [(4, 9), (-5, 3), (5, 6), (3, 3), (-2, -1), (50, 60)];
    let mut world: HittableList<(i64, i64)> = HittableList::new();
    for o in objects {
        world.add(o);
    }
    let candidates: Vec<Option<Roots>> = objects.iter().map(|&(n, f)| Roots::new(n, f)).collect();
    for t_min in -6..8 {
        for t_max in -6..70 {
            assert_eq!(
                world.hit(|&(n, f)| Roots::new(n, f), t_min, t_max),
                nearest_hit(&candidates, t_min, t_max)
            );
        }
    }
}

#[test]
fn scene_hit_is_the_least_of_what_each_object_offers_alone() {
    let objects = [(4, 9), (-5, 3), (5, 6), (3, 3), (-2, -1), (50, 60)];
    let candidates: Vec<Option<Roots>> = objects.iter().map(|&(n, f)| Roots::new(n, f)).collect();
    for t_min in -6..8 {
        for t_max in -6..70 {
            let mut expected: Option<Hit> = None;
            for (index, c) in candidates.iter().enumerate() {
                if let Some(t) = c.unwrap().hit(t_min, t_max) {
                    if expected.map_or(true, |h| t < h.t) {
                        expected = Some(Hit { index, t });
                    }
                }
            }
            assert_eq!(nearest_hit(&candidates, t_min, t_max), expected);
        }
    }
}
