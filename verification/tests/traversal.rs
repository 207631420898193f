use complewise::IntoComplewiseIterator;

#[test]
fn full_traversal_step_count_and_idempotent_exhaustion() {
    let mut it = vec![10u64, 20, 30].complewise();
    let mut visited = Vec::new();
    while let Some(i) = it.next() {
        visited.push(i);
    }
    assert_eq!(visited, vec![0, 1, 2]);
    assert_eq!(it.next(), None);
    assert_eq!(it.next(), None);
}

#[test]
fn empty_sequence_yields_no_steps() {
    let mut it = Vec::<u64>::new().complewise();
    assert_eq!(it.len(), 0);
    assert_eq!(it.next(), None);
    assert_eq!(it.next(), None);
    assert_eq!(it.into_inner(), Vec::<u64>::new());
}

#[test]
fn single_element_yields_one_step_with_empty_complement() {
    let mut it = vec![42u64].complewise();
    assert_eq!(it.next(), Some(0));
    assert_eq!(it.complement_len(), 0);
    assert_eq!(*it.current(), 42);
    assert_eq!(it.next(), None);
}

#[test]
fn complement_matches_original_with_index_removed() {
    let original = vec![1u64, 2, 3, 4];
    let mut it = original.clone().complewise();
    while let Some(i) = it.next() {
        let mut complement = Vec::new();
        for k in 0..it.complement_len() {
            complement.push(*it.complement_get(k));
        }
        let mut expected = original.clone();
        expected.remove(i);
        assert_eq!(complement, expected);
    }
}

#[test]
fn current_reads_visited_element() {
    let mut it = vec![5u64, 6, 7].complewise();
    let mut seen = Vec::new();
    while it.next().is_some() {
        seen.push(*it.current());
    }
    assert_eq!(seen, vec![5, 6, 7]);
}

#[test]
fn mutation_visible_to_later_steps() {
    let mut it = vec![1u64, 1].complewise();
    assert_eq!(it.next(), Some(0));
    *it.current_mut() = 5;
    assert_eq!(it.next(), Some(1));
    assert_eq!(*it.complement_get(0), 5);
    assert_eq!(it.into_inner(), vec![5, 1]);
}

#[test]
fn compounding_complement_sums() {
    let mut it = vec![1u64, 2, 3, 4, 5].complewise();
    while it.next().is_some() {
        let mut sum = 0u64;
        for k in 0..it.complement_len() {
            sum += *it.complement_get(k);
        }
        *it.current_mut() += sum;
    }
    assert_eq!(it.into_inner(), vec![15, 29, 56, 109, 214]);
}

#[test]
fn noop_driver_counts_steps_and_changes_nothing() {
    let mut it = vec![7u64, 8, 9].complewise();
    assert_eq!(it.run_to_end(), 3);
    assert_eq!(it.position(), 3);
    assert_eq!(it.next(), None);
    assert_eq!(it.into_inner(), vec![7, 8, 9]);
}

#[test]
fn noop_driver_covers_only_remaining_positions() {
    let mut it = vec![7u64, 8, 9].complewise();
    assert_eq!(it.next(), Some(0));
    assert_eq!(it.run_to_end(), 2);
    assert_eq!(it.run_to_end(), 0);
}

#[test]
fn visit_all_with_identity_action_changes_nothing() {
    let mut it = vec![4u64, 5, 6].complewise();
    let steps = it.visit_all(|x: &u64, _b: &[u64], _a: &[u64]| *x);
    assert_eq!(steps, 3);
    assert_eq!(it.into_inner(), vec![4, 5, 6]);
}

#[test]
fn visit_all_compounds_like_manual_iteration() {
    let mut it = vec![1u64, 2, 3, 4, 5].complewise();
    let steps = it.visit_all(|x: &u64, b: &[u64], a: &[u64]| {
        let sum: u64 = b.iter().sum::<u64>() + a.iter().sum::<u64>();
        *x + sum
    });
    assert_eq!(steps, 5);
    assert_eq!(it.into_inner(), vec![15, 29, 56, 109, 214]);
}

#[test]
fn cursor_advances_one_per_step() {
    let mut it = vec![1u64, 2, 3].complewise();
    assert_eq!(it.position(), 0);
    assert_eq!(it.len(), 3);
    let mut expected = 0;
    while let Some(i) = it.next() {
        assert_eq!(i, expected);
        expected += 1;
        assert_eq!(it.position(), expected);
    }
    assert_eq!(it.position(), it.len());
}
