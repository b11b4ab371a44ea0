use slideshow::error::ConfigurationError;
use slideshow::reuse_queue::CircularImageQueue;
use slideshow::selection::select_random_pngs;

fn is_permutation(pass: &[usize], pool_len: usize) -> bool {
    let mut seen = vec![false; pool_len];
    for &image in pass {
        if image >= pool_len || seen[image] {
            return false;
        }
        seen[image] = true;
    }
    pass.len() == pool_len
}

#[test]
fn empty_pool_is_refused() {
    assert!(matches!(CircularImageQueue::new(0, 1), Err(ConfigurationError::EmptyImagePool)));
}

#[test]
fn queue_hands_out_exactly_what_is_asked_for() {
    for pool_len in 1..8 {
        let mut queue = CircularImageQueue::new(pool_len, 42).unwrap();
        assert_eq!(queue.pool_len(), pool_len);
        for count in 0..20 {
            let images = queue.next_images(count);
            assert_eq!(images.len(), count);
            assert!(images.iter().all(|&image| image < pool_len));
        }
    }
}

#[test]
fn every_pass_is_a_permutation_of_the_pool() {
    let pool_len = 5;
    let demand = 23;
    let mut queue = CircularImageQueue::new(pool_len, 7).unwrap();
    let mut emitted = Vec::new();
    // Draw in requests of different sizes, across the ends of passes.
    for count in [1, 3, 3, 1, 4, 2, 5, 4] {
        emitted.extend(queue.next_images(count));
    }
    assert_eq!(emitted.len(), demand);
    for pass in emitted.chunks(pool_len) {
        if pass.len() == pool_len {
            assert!(is_permutation(pass, pool_len));
        } else {
            let mut sorted = pass.to_vec();
            sorted.sort();
            sorted.dedup();
            assert_eq!(sorted.len(), pass.len());
        }
    }
}

#[test]
fn pending_shrinks_and_is_refilled() {
    let mut queue = CircularImageQueue::new(4, 3).unwrap();
    assert_eq!(queue.pending_len(), 4);
    queue.next_images(3);
    assert_eq!(queue.pending_len(), 1);
    queue.next_images(1);
    assert_eq!(queue.pending_len(), 0);
    queue.next_images(1);
    assert_eq!(queue.pending_len(), 3);
    queue.next_images(9);
    assert_eq!(queue.pending_len(), 2);
}

#[test]
fn pool_of_one_repeats_its_image() {
    let mut queue = CircularImageQueue::new(1, 99).unwrap();
    assert_eq!(queue.next_images(4), vec![0, 0, 0, 0]);
}

#[test]
fn same_seed_gives_the_same_references() {
    let mut first = CircularImageQueue::new(9, 1234).unwrap();
    let mut second = CircularImageQueue::new(9, 1234).unwrap();
    assert_eq!(first.next_images(40), second.next_images(40));
    // The requests may be cut differently: the references stay the same.
    let mut third = CircularImageQueue::new(9, 1234).unwrap();
    let mut fourth = CircularImageQueue::new(9, 1234).unwrap();
    let mut in_pieces = Vec::new();
    for count in [7, 1, 12, 20] {
        in_pieces.extend(third.next_images(count));
    }
    assert_eq!(in_pieces, fourth.next_images(40));
}

#[test]
fn shuffles_do_rearrange_the_pool() {
    // With the pool left in its own order every first pass would be rising.
    let rising: Vec<usize> = (0..10).collect();
    let mut rearranged = 0;
    for seed in 0..20 {
        let mut queue = CircularImageQueue::new(10, seed).unwrap();
        let pass = queue.next_images(10);
        assert!(is_permutation(&pass, 10));
        if pass != rising {
            rearranged += 1;
        }
    }
    assert!(rearranged >= 19);
}

#[test]
fn passes_differ_from_each_other() {
    let mut queue = CircularImageQueue::new(12, 5).unwrap();
    let passes: Vec<Vec<usize>> = (0..6).map(|_| queue.next_images(12)).collect();
    let mut different = 0;
    for pair in passes.windows(2) {
        if pair[0] != pair[1] {
            different += 1;
        }
    }
    assert!(different >= 4);
}

#[test]
fn selection_from_a_large_pool_has_no_image_twice() {
    let selected = select_random_pngs(10, 4, 11).unwrap();
    assert_eq!(selected.len(), 4);
    let mut sorted = selected.clone();
    sorted.sort();
    sorted.dedup();
    assert_eq!(sorted.len(), 4);
    assert!(selected.iter().all(|&image| image < 10));
    assert_eq!(select_random_pngs(10, 4, 11).unwrap(), selected);
}

#[test]
fn selection_of_the_whole_pool_is_a_permutation() {
    let selected = select_random_pngs(6, 6, 2).unwrap();
    assert!(is_permutation(&selected, 6));
}

#[test]
fn selection_from_a_small_pool_repeats_evenly() {
    let selected = select_random_pngs(3, 8, 5).unwrap();
    assert_eq!(selected.len(), 8);
    let count = |image: usize| selected.iter().filter(|&&s| s == image).count();
    // 0, 1, 2, 0, 1, 2, 0, 1 in some order.
    assert_eq!(count(0), 3);
    assert_eq!(count(1), 3);
    assert_eq!(count(2), 2);
}

#[test]
fn selection_from_an_empty_pool() {
    assert_eq!(select_random_pngs(0, 3, 1), Err(ConfigurationError::EmptyImagePool));
    assert_eq!(select_random_pngs(0, 0, 1), Ok(vec![]));
    assert_eq!(select_random_pngs(5, 0, 1), Ok(vec![]));
}

#[test]
fn seeded_references_are_stable() {
    let mut queue = CircularImageQueue::new(6, 42).unwrap();
    assert_eq!(
        queue.next_images(18),
        vec![0, 4, 5, 2, 1, 3, 1, 2, 4, 0, 5, 3, 4, 0, 3, 1, 2, 5]
    );
    assert_eq!(select_random_pngs(10, 4, 11), Ok(vec![0, 1, 3, 8]));
    assert_eq!(select_random_pngs(3, 8, 5), Ok(vec![1, 0, 2, 0, 0, 1, 2, 1]));
}
