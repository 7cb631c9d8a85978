use algorithms::heap::{Heap, MaxHeap, MinHeap};

#[test]
fn test_empty_heap() {
    let mut heap = MaxHeap::new::<i32>();
    assert_eq!(heap.next(), None);
}

#[test]
fn test_min_heap() {
    let mut heap = MinHeap::new();
    heap.add(4);
    heap.add(2);
    heap.add(9);
    heap.add(11);
    assert_eq!(heap.len(), 4);
    assert_eq!(heap.next(), Some(2));
    assert_eq!(heap.next(), Some(4));
    assert_eq!(heap.next(), Some(9));
    heap.add(1);
    assert_eq!(heap.next(), Some(1));
}

#[test]
fn test_max_heap() {
    let mut heap = MaxHeap::new();
    heap.add(4);
    heap.add(2);
    heap.add(9);
    heap.add(11);
    assert_eq!(heap.len(), 4);
    assert_eq!(heap.next(), Some(11));
    assert_eq!(heap.next(), Some(9));
    assert_eq!(heap.next(), Some(4));
    heap.add(1);
    assert_eq!(heap.next(), Some(2));
}

fn drain<T: Default, F: Fn(&T, &T) -> bool>(heap: &mut Heap<T, F>) -> Vec<T> {
    let mut out = Vec::new();
    while let Some(value) = heap.next() {
        out.push(value);
    }
    out
}

#[test]
fn new_heap_is_empty() {
    let heap = Heap::new(|a: &i32, b: &i32| a < b);
    assert_eq!(heap.len(), 0);
    assert!(heap.is_empty());
}

#[test]
fn len_counts_insertions_minus_extractions() {
    let mut heap = MinHeap::new();
    for value in [7, 3, 8, 1, 5] {
        heap.add(value);
    }
    assert_eq!(heap.len(), 5);
    assert!(!heap.is_empty());
    assert_eq!(heap.next(), Some(1));
    assert_eq!(heap.next(), Some(3));
    assert_eq!(heap.len(), 3);
    heap.add(2);
    assert_eq!(heap.len(), 4);
    assert_eq!(drain(&mut heap), vec![2, 5, 7, 8]);
    assert_eq!(heap.len(), 0);
    assert!(heap.is_empty());
}

#[test]
fn extraction_from_empty_heap_is_repeatable() {
    let mut heap = MinHeap::new::<u8>();
    for _ in 0..5 {
        assert_eq!(heap.next(), None);
        assert_eq!(heap.len(), 0);
    }
    heap.add(3);
    assert_eq!(heap.next(), Some(3));
    for _ in 0..5 {
        assert_eq!(heap.next(), None);
        assert_eq!(heap.len(), 0);
    }
}

#[test]
fn heap_is_usable_after_a_full_drain() {
    let mut heap = MaxHeap::new();
    heap.add(1);
    heap.add(2);
    assert_eq!(drain(&mut heap), vec![2, 1]);
    heap.add(10);
    heap.add(30);
    heap.add(20);
    assert_eq!(drain(&mut heap), vec![30, 20, 10]);
}

#[test]
fn min_heap_drains_in_non_decreasing_order() {
    let values = vec![5, 3, 9, 3, 7, 1, 1, 8, 2, 6, 4, 5, 0, -4, 12, 3];
    let mut heap = MinHeap::new();
    for &value in &values {
        heap.add(value);
    }
    let out = drain(&mut heap);
    assert_eq!(out, vec![-4, 0, 1, 1, 2, 3, 3, 3, 4, 5, 5, 6, 7, 8, 9, 12]);
    for pair in out.windows(2) {
        assert!(pair[0] <= pair[1]);
    }
}

#[test]
fn max_heap_drains_in_non_increasing_order() {
    let values = vec![5, 3, 9, 3, 7, 1, 1, 8, 2, 6, 4, 5, 0, -4, 12, 3];
    let mut heap = MaxHeap::new();
    for &value in &values {
        heap.add(value);
    }
    let out = drain(&mut heap);
    assert_eq!(out, vec![12, 9, 8, 7, 6, 5, 5, 4, 3, 3, 3, 2, 1, 1, 0, -4]);
    for pair in out.windows(2) {
        assert!(pair[0] >= pair[1]);
    }
}

#[test]
fn drain_returns_what_was_inserted() {
    let values: Vec<u32> = (0..200).map(|i| (i * 7919 + 13) % 101).collect();
    let mut heap = MinHeap::new();
    for &value in &values {
        heap.add(value);
    }
    assert_eq!(heap.len(), values.len());
    let out = drain(&mut heap);
    let mut sorted = values.clone();
    sorted.sort();
    assert_eq!(out, sorted);
}

#[test]
fn interleaved_steps_keep_the_best_element_at_the_root() {
    let mut heap = MinHeap::new();
    let mut held: Vec<i64> = Vec::new();
    let mut seed: i64 = 12345;
    for round in 0..500 {
        seed = (seed * 1103515245 + 12345) % 2147483648;
        if round % 3 == 2 {
            let got = heap.next();
            if held.is_empty() {
                assert_eq!(got, None);
            } else {
                let least = *held.iter().min().unwrap();
                assert_eq!(got, Some(least));
                let at = held.iter().position(|&v| v == least).unwrap();
                held.swap_remove(at);
            }
        } else {
            let value = seed % 50;
            heap.add(value);
            held.push(value);
        }
        assert_eq!(heap.len(), held.len());
    }
}

#[test]
fn new_min_and_new_max_order_like_the_named_constructors() {
    let mut low = Heap::new_min();
    let mut high = Heap::new_max();
    for value in [4, 2, 9, 11] {
        low.add(value);
        high.add(value);
    }
    assert_eq!(drain(&mut low), vec![2, 4, 9, 11]);
    assert_eq!(drain(&mut high), vec![11, 9, 4, 2]);
}

#[test]
fn custom_policy_orders_by_a_projection() {
    let mut heap = Heap::new(|a: &(u32, &str), b: &(u32, &str)| a.0 < b.0);
    heap.add((3, "three"));
    heap.add((1, "one"));
    heap.add((2, "two"));
    assert_eq!(heap.next(), Some((1, "one")));
    assert_eq!(heap.next(), Some((2, "two")));
    assert_eq!(heap.next(), Some((3, "three")));
    assert_eq!(heap.next(), None);
}

#[test]
fn custom_policy_may_reverse_the_order() {
    let mut heap = Heap::new(|a: &String, b: &String| a.len() > b.len());
    heap.add(String::from("bb"));
    heap.add(String::from("dddd"));
    heap.add(String::from("a"));
    heap.add(String::from("ccc"));
    assert_eq!(
        drain(&mut heap),
        vec![
            String::from("dddd"),
            String::from("ccc"),
            String::from("bb"),
            String::from("a")
        ]
    );
}

#[test]
fn sifting_down_prefers_the_right_child_on_a_tie() {
    // The policy looks at the number only, so the two fives tie.
    let mut heap = Heap::new(|a: &(u32, char), b: &(u32, char)| a.0 < b.0);
    heap.add((1, 'a'));
    heap.add((5, 'b'));
    heap.add((5, 'c'));
    heap.add((9, 'd'));
    assert_eq!(heap.next(), Some((1, 'a')));
    // (9, 'd') went to the root; its children (5, 'b') and (5, 'c') tie, and the right one rose.
    assert_eq!(heap.next(), Some((5, 'c')));
    assert_eq!(heap.next(), Some((5, 'b')));
    assert_eq!(heap.next(), Some((9, 'd')));
    assert_eq!(heap.next(), None);
}

#[test]
fn sifting_down_takes_the_left_child_where_it_has_priority() {
    let mut heap = Heap::new(|a: &(u32, char), b: &(u32, char)| a.0 < b.0);
    heap.add((1, 'a'));
    heap.add((4, 'b'));
    heap.add((5, 'c'));
    heap.add((9, 'd'));
    assert_eq!(heap.next(), Some((1, 'a')));
    assert_eq!(heap.next(), Some((4, 'b')));
    assert_eq!(heap.next(), Some((5, 'c')));
    assert_eq!(heap.next(), Some((9, 'd')));
}

#[test]
fn sifting_up_stops_at_a_parent_that_ties() {
    let mut heap = Heap::new(|a: &(u32, char), b: &(u32, char)| a.0 < b.0);
    heap.add((2, 'x'));
    heap.add((2, 'y'));
    // (2, 'y') does not have strict priority over (2, 'x'), so it stays below.
    assert_eq!(heap.next(), Some((2, 'x')));
    assert_eq!(heap.next(), Some((2, 'y')));
}

#[test]
fn a_single_element_comes_back() {
    let mut heap = MinHeap::new();
    heap.add(42u64);
    assert_eq!(heap.len(), 1);
    assert_eq!(heap.next(), Some(42));
    assert_eq!(heap.len(), 0);
}

#[test]
fn elements_need_not_be_copyable() {
    let mut heap = MinHeap::new();
    for word in ["pear", "apple", "quince", "fig", "apple"] {
        heap.add(String::from(word));
    }
    assert_eq!(heap.len(), 5);
    assert_eq!(
        drain(&mut heap),
        vec![
            String::from("apple"),
            String::from("apple"),
            String::from("fig"),
            String::from("pear"),
            String::from("quince")
        ]
    );
}

#[test]
fn a_large_heap_drains_in_order() {
    let mut heap = MaxHeap::new();
    let mut values: Vec<u64> = Vec::new();
    let mut seed: u64 = 2024;
    for _ in 0..5000 {
        seed = seed.wrapping_mul(6364136223846793005).wrapping_add(1442695040888963407);
        values.push(seed >> 40);
    }
    for &value in &values {
        heap.add(value);
    }
    assert_eq!(heap.len(), 5000);
    let out = drain(&mut heap);
    values.sort();
    values.reverse();
    assert_eq!(out, values);
    assert!(heap.is_empty());
}

#[test]
fn equal_values_all_come_back() {
    let mut heap = MaxHeap::new();
    for _ in 0..7 {
        heap.add(5);
    }
    heap.add(6);
    heap.add(4);
    assert_eq!(drain(&mut heap), vec![6, 5, 5, 5, 5, 5, 5, 5, 4]);
}

#[test]
fn sifting_up_climbs_to_the_root() {
    let mut heap = MinHeap::new();
    for value in [50, 40, 30, 20, 10] {
        heap.add(value);
        assert_eq!(heap.len() > 0, true);
    }
    heap.add(5);
    assert_eq!(heap.next(), Some(5));
    assert_eq!(heap.next(), Some(10));
    assert_eq!(heap.len(), 4);
}
