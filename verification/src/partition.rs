//! The batch partitioner: cuts an ordered list of paths into sliding windows.
//!
//! Window `k` starts at path `k` and holds the next `batch_size` paths. Each
//! window starts one path after the one before it, so neighbours overlap.
//! Only full windows are produced, with one exception: a list that is shorter
//! than one window, and not empty, gives a single window with all of its
//! paths. An empty list gives no window.
//!
//! The list is taken in the order given. Callers sort it by file name first,
//! with [`crate::listing::name_order`].

use vstd::prelude::*;
use vstd::slice::slice_subrange;

verus! {

/// How many windows a list of `len` paths gives.
pub open spec fn window_count(len: int, batch_size: int) -> int {
    if len <= 0 {
        0
    } else if len <= batch_size {
        1
    } else {
        len - batch_size + 1
    }
}

/// One past the last path of the window that starts at `start`.
pub open spec fn window_end(len: int, batch_size: int, start: int) -> int {
    if start + batch_size <= len {
        start + batch_size
    } else {
        len
    }
}

/// The window that starts at path `k`.
pub open spec fn window<T>(paths: Seq<T>, batch_size: int, k: int) -> Seq<T> {
    paths.subrange(k, window_end(paths.len() as int, batch_size, k))
}

/// How many windows a list of `len` paths gives.
pub fn batch_count(len: usize, batch_size: usize) -> (count: usize)
    requires
        batch_size > 0,
    ensures
        count == window_count(len as int, batch_size as int),
{
    if len == 0 {
        0
    } else if len <= batch_size {
        1
    } else {
        len - batch_size + 1
    }
}

/// The half-open range of positions that window `k` covers, or `None` when
/// there is no window `k`.
pub fn batch_bounds(len: usize, batch_size: usize, k: usize) -> (bounds: Option<(usize, usize)>)
    requires
        batch_size > 0,
    ensures
        bounds is Some <==> k < window_count(len as int, batch_size as int),
        bounds matches Some(b) ==> b.0 == k && b.1 == window_end(
            len as int,
            batch_size as int,
            k as int,
        ) && b.0 < b.1 <= len,
{
    if k >= batch_count(len, batch_size) {
        None
    } else if batch_size >= len - k {
        Some((k, len))
    } else {
        Some((k, k + batch_size))
    }
}

/// Window `k` of the list, or `None` when there is no window `k`.
pub fn batch<'a, T>(paths: &'a [T], batch_size: usize, k: usize) -> (found: Option<&'a [T]>)
    requires
        batch_size > 0,
    ensures
        found is Some <==> k < window_count(paths@.len() as int, batch_size as int),
        found matches Some(b) ==> b@ == window(paths@, batch_size as int, k as int),
{
    match batch_bounds(paths.len(), batch_size, k) {
        None => None,
        Some((start, end)) => Some(slice_subrange(paths, start, end)),
    }
}

/// All windows of the list, in order.
pub fn partition<'a, T>(paths: &'a [T], batch_size: usize) -> (batches: Vec<&'a [T]>)
    requires
        batch_size > 0,
    ensures
        batches@.len() == window_count(paths@.len() as int, batch_size as int),
        forall|k: int|
            0 <= k < batches@.len() ==> (#[trigger] batches@[k])@ == window(
                paths@,
                batch_size as int,
                k,
            ),
{
    let count = batch_count(paths.len(), batch_size);
    let mut batches: Vec<&'a [T]> = Vec::new();
    let mut k: usize = 0;
    while k < count
        invariant
            batch_size > 0,
            count == window_count(paths@.len() as int, batch_size as int),
            0 <= k <= count,
            batches@.len() == k,
            forall|j: int|
                0 <= j < k ==> (#[trigger] batches@[j])@ == window(paths@, batch_size as int, j),
        decreases count - k,
    {
        let next = batch(paths, batch_size, k);
        batches.push(next.unwrap());
        k = k + 1;
    }
    batches
}

/// In a list of at least `batch_size` paths every window is full: window `k`
/// is exactly the paths at positions `k` to `k + batch_size - 1`.
pub proof fn lemma_windows_are_full<T>(paths: Seq<T>, batch_size: int, k: int)
    requires
        0 < batch_size <= paths.len(),
        0 <= k < window_count(paths.len() as int, batch_size),
    ensures
        window(paths, batch_size, k) == paths.subrange(k, k + batch_size),
        window(paths, batch_size, k).len() == batch_size,
        forall|i: int|
            0 <= i < batch_size ==> #[trigger] window(paths, batch_size, k)[i] == paths[k + i],
{
}

/// A list of at most `batch_size` paths, if not empty, gives one window, and
/// that window holds the whole list.
pub proof fn lemma_short_list_is_one_window<T>(paths: Seq<T>, batch_size: int)
    requires
        0 < paths.len() <= batch_size,
    ensures
        window_count(paths.len() as int, batch_size) == 1,
        window(paths, batch_size, 0) == paths,
{
    assert(window(paths, batch_size, 0) =~= paths);
}

/// Each window starts one path after the one before it, and the last full
/// window ends with the last path.
pub proof fn lemma_windows_slide_by_one<T>(paths: Seq<T>, batch_size: int, k: int)
    requires
        0 < batch_size <= paths.len(),
        0 <= k,
        k + 1 < window_count(paths.len() as int, batch_size),
    ensures
        window(paths, batch_size, k + 1) == window(paths, batch_size, k).subrange(
            1,
            batch_size,
        ).push(paths[k + batch_size]),
        window_end(
            paths.len() as int,
            batch_size,
            window_count(paths.len() as int, batch_size) - 1,
        ) == paths.len(),
{
    assert(window(paths, batch_size, k + 1) =~= window(paths, batch_size, k).subrange(
        1,
        batch_size,
    ).push(paths[k + batch_size]));
}

} // verus!
