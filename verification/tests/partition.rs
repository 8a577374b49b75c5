use tile_stitcher::layout::BATCH_SIZE;
use tile_stitcher::partition::{batch, batch_bounds, batch_count, partition};

fn names(n: usize) -> Vec<String> {
    (0..n).map(|i| format!("tile{:03}.png", i)).collect()
}

#[test]
fn fifty_paths_give_three_windows() {
    let paths = names(50);
    let batches = partition(&paths, 48);
    assert_eq!(batches.len(), 3);
    assert_eq!(batches[0], &paths[0..48]);
    assert_eq!(batches[1], &paths[1..49]);
    assert_eq!(batches[2], &paths[2..50]);
    assert_eq!(batch_count(50, 48), 3);
}

#[test]
fn batch_k_is_the_paths_from_k() {
    let paths = names(100);
    assert_eq!(batch_count(100, BATCH_SIZE), 53);
    for k in 0..53usize {
        assert_eq!(batch(&paths, BATCH_SIZE, k), Some(&paths[k..k + 48]));
    }
    assert_eq!(batch(&paths, BATCH_SIZE, 53), None);
}

#[test]
fn exactly_one_window_of_paths_is_one_batch() {
    let paths = names(48);
    let batches = partition(&paths, 48);
    assert_eq!(batches.len(), 1);
    assert_eq!(batches[0], &paths[..]);
}

#[test]
fn fewer_paths_than_a_window_are_one_short_batch() {
    let paths = names(5);
    let batches = partition(&paths, 48);
    assert_eq!(batches.len(), 1);
    assert_eq!(batches[0], &paths[..]);
    assert_eq!(batch(&paths, 48, 0), Some(&paths[..]));
    assert_eq!(batch(&paths, 48, 1), None);
}

#[test]
fn no_paths_give_no_batch() {
    let paths: Vec<String> = Vec::new();
    assert_eq!(partition(&paths, 48).len(), 0);
    assert_eq!(batch_count(0, 48), 0);
    assert_eq!(batch(&paths, 48, 0), None);
    assert_eq!(batch_bounds(0, 48, 0), None);
}

#[test]
fn one_more_path_is_one_more_window() {
    assert_eq!(batch_count(1, 48), 1);
    assert_eq!(batch_count(47, 48), 1);
    assert_eq!(batch_count(48, 48), 1);
    assert_eq!(batch_count(49, 48), 2);
    assert_eq!(batch_count(96, 48), 49);
    assert_eq!(batch_count(usize::MAX, 48), usize::MAX - 47);
    assert_eq!(batch_count(7, 1), 7);
    assert_eq!(batch_count(7, usize::MAX), 1);
}

#[test]
fn bounds_of_each_window() {
    assert_eq!(batch_bounds(50, 48, 0), Some((0, 48)));
    assert_eq!(batch_bounds(50, 48, 2), Some((2, 50)));
    assert_eq!(batch_bounds(50, 48, 3), None);
    assert_eq!(batch_bounds(5, 48, 0), Some((0, 5)));
    assert_eq!(batch_bounds(5, usize::MAX, 0), Some((0, 5)));
    assert_eq!(batch_bounds(5, 2, 3), Some((3, 5)));
    assert_eq!(batch_bounds(5, 2, 4), None);
}

#[test]
fn partition_agrees_with_batch() {
    let paths: Vec<u32> = (0..20).collect();
    for size in 1..25usize {
        let batches = partition(&paths, size);
        assert_eq!(batches.len(), batch_count(paths.len(), size));
        for (k, b) in batches.iter().enumerate() {
            assert_eq!(Some(*b), batch(&paths, size, k));
        }
        assert_eq!(batch(&paths, size, batches.len()), None);
    }
}

#[test]
fn windows_keep_the_order_given() {
    let paths = vec!["b.png", "a.png", "c.png"];
    let batches = partition(&paths, 2);
    assert_eq!(batches.len(), 2);
    assert_eq!(batches[0], ["b.png", "a.png"]);
    assert_eq!(batches[1], ["a.png", "c.png"]);
}
