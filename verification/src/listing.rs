//! Which files of a directory are tiles, and in which order they are taken:
//! those whose name ends in `.png`, sorted by file name, byte by byte.

use vstd::prelude::*;

verus! {

/// The bytes of `.png`.
pub open spec fn png_suffix() -> Seq<u8> {
    seq![0x2eu8, 0x70u8, 0x6eu8, 0x67u8]
}

/// Whether a file name has the extension `png`: it ends in `.png`, in lower
/// case, and has at least one byte before the dot.
pub open spec fn is_png_name(name: Seq<u8>) -> bool {
    name.len() > 4 && name.subrange(name.len() - 4, name.len() as int) == png_suffix()
}

/// Whether a file name, given as its bytes, has the extension `png`.
pub fn has_png_extension(name: &[u8]) -> (yes: bool)
    ensures
        yes == is_png_name(name@),
{
    let n = name.len();
    if n <= 4 {
        return false;
    }
    let yes = name[n - 4] == 0x2e && name[n - 3] == 0x70 && name[n - 2] == 0x6e && name[n - 1]
        == 0x67;
    proof {
        let tail = name@.subrange(n - 4, n as int);
        if yes {
            assert(tail =~= png_suffix());
        } else {
            assert(tail[0] == name@[n - 4] && tail[1] == name@[n - 3] && tail[2] == name@[n - 2]
                && tail[3] == name@[n - 1]);
        }
    }
    yes
}

/// Whether the name `a` comes no later than the name `b`, given that the two
/// agree in their first `from` bytes: the first byte in which they differ
/// decides, and a name that ends first comes first.
pub open spec fn name_le_from(a: Seq<u8>, b: Seq<u8>, from: int) -> bool
    decreases a.len() - from,
{
    if from >= a.len() {
        true
    } else if from >= b.len() {
        false
    } else if a[from] != b[from] {
        a[from] < b[from]
    } else {
        name_le_from(a, b, from + 1)
    }
}

/// Whether the name `a` comes no later than the name `b` in the order of
/// their bytes: the first byte in which they differ decides, and a name that
/// is the beginning of another comes before it.
pub open spec fn name_le(a: Seq<u8>, b: Seq<u8>) -> bool {
    name_le_from(a, b, 0)
}

/// Whether `order` lists positions of `names` sorted by name, equal names in
/// the order in which `names` has them.
pub open spec fn sorted_by_name(names: Seq<Vec<u8>>, order: Seq<usize>) -> bool {
    &&& forall|i: int| 0 <= i < order.len() ==> #[trigger] order[i] < names.len()
    &&& forall|i: int, j: int|
        0 <= i < j < order.len() ==> name_le(
            names[#[trigger] order[i] as int]@,
            names[#[trigger] order[j] as int]@,
        )
    &&& forall|i: int, j: int|
        0 <= i < j < order.len() && names[#[trigger] order[i] as int]@ == names[#[trigger] order[j]
            as int]@ ==> order[i] < order[j]
}

/// Names that agree in the bytes from `from` up to `upto` compare as they do
/// from `upto` on.
proof fn lemma_agreeing_bytes(a: Seq<u8>, b: Seq<u8>, from: int, upto: int)
    requires
        0 <= from <= upto <= a.len(),
        upto <= b.len(),
        forall|m: int| from <= m < upto ==> a[m] == b[m],
    ensures
        name_le_from(a, b, from) == name_le_from(a, b, upto),
    decreases upto - from,
{
    if from < upto {
        lemma_agreeing_bytes(a, b, from + 1, upto);
    }
}

/// The order of two names that agree in their first `k` bytes: if `a` ends
/// there it comes no later than `b`; if only `b` ends there, `a` comes later;
/// and if the two differ in the next byte, that byte decides.
pub proof fn lemma_name_le_by_first_difference(a: Seq<u8>, b: Seq<u8>, k: int)
    requires
        0 <= k <= a.len(),
        k <= b.len(),
        a.take(k) == b.take(k),
    ensures
        k == a.len() ==> name_le(a, b),
        k < a.len() && k == b.len() ==> !name_le(a, b),
        k < a.len() && k < b.len() && a[k] != b[k] ==> name_le(a, b) == (a[k] < b[k]),
{
    assert forall|m: int| 0 <= m < k implies a[m] == b[m] by {
        assert(a.take(k)[m] == a[m]);
        assert(b.take(k)[m] == b[m]);
    }
    lemma_agreeing_bytes(a, b, 0, k);
}

/// Every name comes no later than itself.
pub proof fn lemma_name_le_reflexive(a: Seq<u8>, from: int)
    requires
        0 <= from,
    ensures
        name_le_from(a, a, from),
    decreases a.len() - from,
{
    if from < a.len() {
        lemma_name_le_reflexive(a, from + 1);
    }
}

/// Of two names one comes no later than the other.
pub proof fn lemma_name_le_total(a: Seq<u8>, b: Seq<u8>, from: int)
    requires
        0 <= from,
    ensures
        name_le_from(a, b, from) || name_le_from(b, a, from),
    decreases a.len() - from,
{
    if from < a.len() && from < b.len() && a[from] == b[from] {
        lemma_name_le_total(a, b, from + 1);
    }
}

/// If `a` comes no later than `b` and `b` no later than `c`, then `a` comes
/// no later than `c`.
pub proof fn lemma_name_le_transitive(a: Seq<u8>, b: Seq<u8>, c: Seq<u8>, from: int)
    requires
        0 <= from,
        name_le_from(a, b, from),
        name_le_from(b, c, from),
    ensures
        name_le_from(a, c, from),
    decreases a.len() - from,
{
    if from < a.len() && from < b.len() && from < c.len() && a[from] == b[from] && b[from]
        == c[from] {
        lemma_name_le_transitive(a, b, c, from + 1);
    }
}

/// Two names of which each comes no later than the other are the same name.
pub proof fn lemma_name_le_antisymmetric(a: Seq<u8>, b: Seq<u8>, from: int)
    requires
        0 <= from <= a.len(),
        from <= b.len(),
        a.take(from) == b.take(from),
        name_le_from(a, b, from),
        name_le_from(b, a, from),
    ensures
        a == b,
    decreases a.len() - from,
{
    if from < a.len() && from < b.len() {
        assert(a.take(from + 1) =~= a.take(from).push(a[from]));
        assert(b.take(from + 1) =~= b.take(from).push(b[from]));
        lemma_name_le_antisymmetric(a, b, from + 1);
    } else {
        assert(a =~= a.take(from));
        assert(b =~= b.take(from));
    }
}

/// Putting position `k` into a sorted list of smaller positions, behind
/// every name that comes no later than its own and before every other, leaves
/// the list sorted.
proof fn lemma_insert_keeps_sorted(names: Seq<Vec<u8>>, order: Seq<usize>, at: int, k: usize)
    requires
        sorted_by_name(names, order),
        k < names.len(),
        0 <= at <= order.len(),
        forall|i: int| 0 <= i < order.len() ==> #[trigger] order[i] < k,
        forall|i: int|
            0 <= i < at ==> name_le(names[#[trigger] order[i] as int]@, names[k as int]@),
        forall|j: int|
            at <= j < order.len() ==> !name_le(
                names[#[trigger] order[j] as int]@,
                names[k as int]@,
            ),
    ensures
        sorted_by_name(names, order.insert(at, k)),
{
    let after = order.insert(at, k);
    let name = names[k as int]@;
    assert forall|j: int| at <= j < order.len() implies name_le(
        name,
        names[#[trigger] order[j] as int]@,
    ) && names[order[j] as int]@ != name by {
        lemma_name_le_total(name, names[order[j] as int]@, 0);
        lemma_name_le_reflexive(name, 0);
    }
    assert forall|i: int, j: int| 0 <= i < j < after.len() implies name_le(
        names[#[trigger] after[i] as int]@,
        names[#[trigger] after[j] as int]@,
    ) by {
        lemma_inserted(order, at, k, i);
        lemma_inserted(order, at, k, j);
    }
    assert forall|i: int, j: int|
        0 <= i < j < after.len() && names[#[trigger] after[i] as int]@ == names[#[trigger] after[j]
            as int]@ implies after[i] < after[j] by {
        lemma_inserted(order, at, k, i);
        lemma_inserted(order, at, k, j);
    }
    assert forall|i: int| 0 <= i < after.len() implies #[trigger] after[i] < names.len() by {
        lemma_inserted(order, at, k, i);
    }
}

/// What stands at position `i` of a list after `k` has been put in at `at`.
proof fn lemma_inserted(order: Seq<usize>, at: int, k: usize, i: int)
    requires
        0 <= at <= order.len(),
        0 <= i <= order.len(),
    ensures
        order.insert(at, k).len() == order.len() + 1,
        order.insert(at, k)[i] == if i < at {
            order[i]
        } else if i == at {
            k
        } else {
            order[i - 1]
        },
{
}

/// Whether the name `a` comes no later than the name `b` in the order of
/// their bytes.
pub fn name_precedes(a: &[u8], b: &[u8]) -> (le: bool)
    ensures
        le == name_le(a@, b@),
{
    let mut i: usize = 0;
    while i < a.len() && i < b.len()
        invariant
            0 <= i <= a@.len(),
            i <= b@.len(),
            name_le(a@, b@) == name_le_from(a@, b@, i as int),
        decreases a@.len() - i,
    {
        if a[i] != b[i] {
            return a[i] < b[i];
        }
        i = i + 1;
    }
    i >= a.len()
}

/// The positions of `names` in the order of the names, byte by byte, a name
/// that is the beginning of another before it. Equal names keep the order in
/// which `names` has them. Entry `i` of the result is the position in `names`
/// of the name that comes `i`-th.
pub fn name_order(names: &[Vec<u8>]) -> (order: Vec<usize>)
    ensures
        order@.len() == names@.len(),
        forall|i: usize| i < names@.len() ==> #[trigger] order@.contains(i),
        sorted_by_name(names@, order@),
{
    let mut order: Vec<usize> = Vec::new();
    let mut k: usize = 0;
    while k < names.len()
        invariant
            0 <= k <= names@.len(),
            order@.len() == k,
            forall|i: int| 0 <= i < order@.len() ==> #[trigger] order@[i] < k,
            forall|i: usize| i < k ==> #[trigger] order@.contains(i),
            sorted_by_name(names@, order@),
        decreases names@.len() - k,
    {
        let mut at: usize = 0;
        let mut end: usize = k;
        while at < end
            invariant
                0 <= at <= end <= k < names@.len(),
                order@.len() == k,
                forall|i: int| 0 <= i < order@.len() ==> #[trigger] order@[i] < k,
                sorted_by_name(names@, order@),
                forall|i: int|
                    0 <= i < at ==> name_le(
                        names@[#[trigger] order@[i] as int]@,
                        names@[k as int]@,
                    ),
                forall|j: int|
                    end <= j < order@.len() ==> !name_le(
                        names@[#[trigger] order@[j] as int]@,
                        names@[k as int]@,
                    ),
            decreases end - at,
        {
            let mid = at + (end - at) / 2;
            if name_precedes(names[order[mid]].as_slice(), names[k].as_slice()) {
                proof {
                    assert forall|i: int| 0 <= i < mid + 1 implies name_le(
                        names@[#[trigger] order@[i] as int]@,
                        names@[k as int]@,
                    ) by {
                        if i < mid {
                            lemma_name_le_transitive(
                                names@[order@[i] as int]@,
                                names@[order@[mid as int] as int]@,
                                names@[k as int]@,
                                0,
                            );
                        }
                    }
                }
                at = mid + 1;
            } else {
                proof {
                    assert forall|j: int| mid <= j < order@.len() implies !name_le(
                        names@[#[trigger] order@[j] as int]@,
                        names@[k as int]@,
                    ) by {
                        if mid < j && name_le(names@[order@[j] as int]@, names@[k as int]@) {
                            lemma_name_le_transitive(
                                names@[order@[mid as int] as int]@,
                                names@[order@[j] as int]@,
                                names@[k as int]@,
                                0,
                            );
                        }
                    }
                }
                end = mid;
            }
        }
        proof {
            lemma_insert_keeps_sorted(names@, order@, at as int, k);
            let before = order@;
            let after = before.insert(at as int, k);
            assert forall|i: usize| i < k + 1 implies #[trigger] after.contains(i) by {
                let m = if i < k {
                    choose|m: int| 0 <= m < before.len() && before[m] == i
                } else {
                    at as int
                };
                let n = if i < k && m >= at { m + 1 } else { m };
                if i < k {
                    assert(before.contains(i));
                }
                lemma_inserted(before, at as int, k, n);
                assert(after[n] == i);
            }
            assert forall|i: int| 0 <= i < after.len() implies #[trigger] after[i] < k + 1 by {
                lemma_inserted(before, at as int, k, i);
            }
        }
        order.insert(at, k);
        k = k + 1;
    }
    order
}

} // verus!
