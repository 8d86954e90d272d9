use buffered_vec::BufferedVec;

fn filled_with(b: usize, n: usize) -> BufferedVec<usize> {
    let mut v = BufferedVec::<usize>::new(b);
    for i in 0..n {
        v.push(i);
    }
    v
}

#[test]
fn sequence_round_trip_for_several_sizes() {
    for (n, b) in [(10usize, 3usize), (12, 3), (12, 4), (7, 1), (100, 7), (64, 8), (5, 4)] {
        let mut v = filled_with(b, n);
        assert_eq!(v.len(), n);
        for i in (0..n).rev() {
            assert_eq!(v.pop(), Some(i));
        }
        assert_eq!(v.len(), 0);
        assert_eq!(v.pop(), None);
    }
}

#[test]
fn sequence_get_reads_every_index() {
    for (n, b) in [(9usize, 3usize), (10, 3), (11, 3), (1, 5), (30, 4)] {
        let v = filled_with(b, n);
        for i in 0..n {
            assert_eq!(v.get(i), Some(i));
        }
        assert_eq!(v.get(n), None);
        assert_eq!(v.get(n + 100), None);
    }
}

#[test]
fn sequence_scenario_buffer_of_three() {
    let mut v = BufferedVec::<usize>::new(3);
    for i in 0..5 {
        v.push(i);
    }
    assert_eq!(v.len(), 5);
    assert_eq!(v.capacity(), 6);
    for i in 0..5 {
        assert_eq!(v.get(i), Some(i));
    }
    for i in (0..5).rev() {
        assert_eq!(v.pop(), Some(i));
    }
    assert_eq!(v.len(), 0);
}

#[test]
fn sequence_empty() {
    let mut v = BufferedVec::<usize>::new(4);
    assert_eq!(v.len(), 0);
    assert_eq!(v.get(0), None);
    assert_eq!(v.pop(), None);
    assert_eq!(v.capacity(), 4);
}

#[test]
fn sequence_capacity_counts_chunks() {
    let v = filled_with(3, 7);
    // Two flushes: 0..3 into the first chunk, 3..6 into a second.
    assert_eq!(v.capacity(), 9);
    let w = filled_with(3, 3);
    assert_eq!(w.capacity(), 3);
}

#[test]
fn sequence_regrows_into_kept_chunks() {
    let mut v = filled_with(3, 10);
    let cap = v.capacity();
    for _ in 0..8 {
        v.pop();
    }
    assert_eq!(v.len(), 2);
    for i in 2..10 {
        v.push(i * 10);
    }
    assert_eq!(v.capacity(), cap);
    assert_eq!(v.get(0), Some(0));
    assert_eq!(v.get(1), Some(1));
    for i in 2..10 {
        assert_eq!(v.get(i), Some(i * 10));
    }
}

#[test]
fn sequence_pop_then_push_across_chunk_edge() {
    let mut v = filled_with(4, 9);
    for i in (5..9).rev() {
        assert_eq!(v.pop(), Some(i));
    }
    v.push(50);
    v.push(60);
    assert_eq!(v.len(), 7);
    let expected = [0usize, 1, 2, 3, 4, 50, 60];
    for (i, e) in expected.iter().enumerate() {
        assert_eq!(v.get(i), Some(*e));
    }
    for e in expected.iter().rev() {
        assert_eq!(v.pop(), Some(*e));
    }
}

#[test]
fn sequence_erase_clears_and_keeps_chunks() {
    let mut v = filled_with(3, 11);
    let cap = v.capacity();
    v.erase();
    assert_eq!(v.len(), 0);
    assert_eq!(v.get(0), None);
    assert_eq!(v.pop(), None);
    assert_eq!(v.capacity(), cap);
    for i in 0..11 {
        v.push(i + 1);
    }
    for i in 0..11 {
        assert_eq!(v.get(i), Some(i + 1));
    }
}

#[test]
fn sequence_with_capacity_starts_empty() {
    let mut v = BufferedVec::<usize>::with_capacity(4, 10);
    assert_eq!(v.len(), 0);
    assert_eq!(v.capacity(), 4);
    v.push(3);
    assert_eq!(v.get(0), Some(3));
}
