//! Index rows and their order by key.

use std::cmp::Ordering;
use vstd::prelude::*;

verus! {

/// One row of the index: a key and a value, both opaque bytes.
#[derive(Clone, Debug, PartialEq, Eq)]
pub struct Row {
    pub key: Vec<u8>,
    pub value: Vec<u8>,
}

/// `a` comes strictly before `b` in the byte-wise lexicographic order: `a`
/// is a proper prefix of `b`, or the two differ first at a byte that is
/// smaller in `a`.
pub open spec fn key_lt(a: Seq<u8>, b: Seq<u8>) -> bool {
    ||| a.len() < b.len() && a == b.subrange(0, a.len() as int)
    ||| exists|i: int| differ_first_at(a, b, i) && a[i] < b[i]
}

/// `a` and `b` agree before `i` and differ at `i`.
pub open spec fn differ_first_at(a: Seq<u8>, b: Seq<u8>, i: int) -> bool {
    &&& 0 <= i < a.len()
    &&& i < b.len()
    &&& a.subrange(0, i) == b.subrange(0, i)
    &&& a[i] != b[i]
}

/// `a` comes before `b`, or is `b`.
pub open spec fn key_le(a: Seq<u8>, b: Seq<u8>) -> bool {
    a == b || key_lt(a, b)
}

/// The rows stand in ascending order of their keys.
pub open spec fn sorted_by_key(rows: Seq<Row>) -> bool {
    forall|i: int, j: int| 0 <= i <= j < rows.len() ==> key_le(rows[i].key@, rows[j].key@)
}

/// Two byte strings differ first at no more than one place.
proof fn lemma_differ_first_unique(a: Seq<u8>, b: Seq<u8>, i: int, j: int)
    requires
        differ_first_at(a, b, i),
        differ_first_at(a, b, j),
    ensures
        i == j,
{
    if i < j {
        assert(a.subrange(0, j)[i] == b.subrange(0, j)[i]);
    } else if j < i {
        assert(a.subrange(0, i)[j] == b.subrange(0, i)[j]);
    }
}

/// Of two keys exactly one holds: the first comes before the second, they
/// are equal, or the second comes before the first.
pub proof fn lemma_key_order_total(a: Seq<u8>, b: Seq<u8>)
    ensures
        key_lt(a, b) || a == b || key_lt(b, a),
        !(key_lt(a, b) && a == b),
        !(key_lt(b, a) && a == b),
        !(key_lt(a, b) && key_lt(b, a)),
{
    assert(a.subrange(0, 0) =~= b.subrange(0, 0));
    lemma_first_difference(a, b, 0);
    if exists|i: int| differ_first_at(a, b, i) {
        let i = choose|i: int| differ_first_at(a, b, i);
        if a[i] < b[i] {
        } else {
            assert(differ_first_at(b, a, i) && b[i] < a[i]);
        }
    } else if a.len() == b.len() {
        if a.len() <= b.len() && a == b.subrange(0, a.len() as int) {
            assert(b.subrange(0, a.len() as int) =~= b);
        } else {
            assert(a.subrange(0, b.len() as int) =~= a);
        }
    }
    if key_lt(a, b) && a == b {
        if exists|i: int| differ_first_at(a, b, i) && a[i] < b[i] {
        }
    }
    if key_lt(a, b) && key_lt(b, a) {
        if a.len() < b.len() && a == b.subrange(0, a.len() as int) {
            let j = choose|j: int| differ_first_at(b, a, j) && b[j] < a[j];
            assert(b.subrange(0, a.len() as int)[j] == a[j]);
        } else {
            let i = choose|i: int| differ_first_at(a, b, i) && a[i] < b[i];
            if b.len() < a.len() && b == a.subrange(0, b.len() as int) {
                assert(a.subrange(0, b.len() as int)[i] == b[i]);
            } else {
                let j = choose|j: int| differ_first_at(b, a, j) && b[j] < a[j];
                lemma_differ_first_unique(a, b, i, j);
            }
        }
    }
}

/// Two byte strings that agree before `from` either differ first somewhere
/// from `from` on, or one is a prefix of the other.
proof fn lemma_first_difference(a: Seq<u8>, b: Seq<u8>, from: int)
    requires
        0 <= from <= a.len(),
        from <= b.len(),
        a.subrange(0, from) == b.subrange(0, from),
    ensures
        (exists|i: int| differ_first_at(a, b, i)) || (a.len() <= b.len() && a == b.subrange(
            0,
            a.len() as int,
        )) || (b.len() <= a.len() && b == a.subrange(0, b.len() as int)),
    decreases a.len() - from,
{
    if from == a.len() {
        assert(a.subrange(0, from) =~= a);
    } else if from == b.len() {
        assert(b.subrange(0, from) =~= b);
    } else if a[from] != b[from] {
        assert(differ_first_at(a, b, from));
    } else {
        assert(a.subrange(0, from + 1) =~= a.subrange(0, from).push(a[from]));
        assert(b.subrange(0, from + 1) =~= b.subrange(0, from).push(b[from]));
        lemma_first_difference(a, b, from + 1);
    }
}

/// The order of keys is transitive.
pub proof fn lemma_key_lt_transitive(a: Seq<u8>, b: Seq<u8>, c: Seq<u8>)
    requires
        key_lt(a, b),
        key_lt(b, c),
    ensures
        key_lt(a, c),
{
    if a.len() < b.len() && a == b.subrange(0, a.len() as int) {
        if b.len() < c.len() && b == c.subrange(0, b.len() as int) {
            assert(a =~= c.subrange(0, a.len() as int));
        } else {
            let j = choose|j: int| differ_first_at(b, c, j) && b[j] < c[j];
            if j < a.len() {
                assert(a.subrange(0, j) =~= b.subrange(0, j));
                assert(differ_first_at(a, c, j) && a[j] < c[j]);
            } else {
                assert(a =~= b.subrange(0, j).subrange(0, a.len() as int));
                assert(a =~= c.subrange(0, a.len() as int));
            }
        }
    } else {
        let i = choose|i: int| differ_first_at(a, b, i) && a[i] < b[i];
        if b.len() < c.len() && b == c.subrange(0, b.len() as int) {
            assert(b.subrange(0, i) =~= c.subrange(0, i));
            assert(b[i] == c.subrange(0, b.len() as int)[i]);
            assert(differ_first_at(a, c, i) && a[i] < c[i]);
        } else {
            let j = choose|j: int| differ_first_at(b, c, j) && b[j] < c[j];
            if i <= j {
                assert(b.subrange(0, i) =~= b.subrange(0, j).subrange(0, i));
                assert(c.subrange(0, i) =~= c.subrange(0, j).subrange(0, i));
                if i < j {
                    assert(b[i] == b.subrange(0, j)[i]);
                    assert(c[i] == c.subrange(0, j)[i]);
                }
                assert(differ_first_at(a, c, i) && a[i] < c[i]);
            } else {
                assert(a.subrange(0, j) =~= a.subrange(0, i).subrange(0, j));
                assert(b.subrange(0, j) =~= b.subrange(0, i).subrange(0, j));
                assert(a[j] == a.subrange(0, i)[j]);
                assert(b[j] == b.subrange(0, i)[j]);
                assert(differ_first_at(a, c, j) && a[j] < c[j]);
            }
        }
    }
}

/// How one key stands to another in the order of keys.
#[derive(Clone, Copy, Debug, PartialEq, Eq, Structural)]
pub enum KeyOrder {
    Before,
    Same,
    After,
}

/// Finds how `a` stands to `b` in the byte-wise lexicographic order.
pub fn order_of_keys(a: &[u8], b: &[u8]) -> (order: KeyOrder)
    ensures
        order == KeyOrder::Before <==> key_lt(a@, b@),
        order == KeyOrder::Same <==> a@ == b@,
        order == KeyOrder::After <==> key_lt(b@, a@),
{
    let mut i: usize = 0;
    while i < a.len() && i < b.len() && a[i] == b[i]
        invariant
            i <= a@.len(),
            i <= b@.len(),
            a@.subrange(0, i as int) =~= b@.subrange(0, i as int),
        decreases a@.len() - i,
    {
        assert(a@.subrange(0, i + 1) =~= a@.subrange(0, i as int).push(a@[i as int]));
        assert(b@.subrange(0, i + 1) =~= b@.subrange(0, i as int).push(b@[i as int]));
        i = i + 1;
    }
    proof {
        lemma_key_order_total(a@, b@);
    }
    if i == a.len() && i == b.len() {
        assert(a@ =~= a@.subrange(0, i as int));
        assert(b@ =~= b@.subrange(0, i as int));
        KeyOrder::Same
    } else if i == a.len() {
        assert(a@ =~= a@.subrange(0, i as int));
        KeyOrder::Before
    } else if i == b.len() {
        assert(b@ =~= b@.subrange(0, i as int));
        KeyOrder::After
    } else if a[i] < b[i] {
        assert(differ_first_at(a@, b@, i as int));
        KeyOrder::Before
    } else {
        assert(differ_first_at(b@, a@, i as int));
        KeyOrder::After
    }
}

/// Compares two rows by their keys.
pub fn compare_keys(a: &Row, b: &Row) -> (order: Ordering)
    ensures
        order == Ordering::Less <==> key_lt(a.key@, b.key@),
        order == Ordering::Equal <==> a.key@ == b.key@,
        order == Ordering::Greater <==> key_lt(b.key@, a.key@),
{
    match order_of_keys(a.key.as_slice(), b.key.as_slice()) {
        KeyOrder::Before => Ordering::Less,
        KeyOrder::Same => Ordering::Equal,
        KeyOrder::After => Ordering::Greater,
    }
}

/// Sorts the rows with `<[Row]>::sort_unstable_by` of std, comparing with
/// `compare_keys`.
///
/// Std documents that the slice is sorted by the comparator and holds the
/// same elements afterwards; the order among rows of equal key is left open.
#[verifier::external_body]
fn sort_unstable_by_key(rows: &mut Vec<Row>)
    ensures
        sorted_by_key(final(rows)@),
        final(rows)@.to_multiset() == old(rows)@.to_multiset(),
{
    rows.sort_unstable_by(|a, b| compare_keys(a, b));
}

/// Puts the rows of one block file in ascending order of their keys.
///
/// Rows of equal key may come out in any order among themselves.
pub fn sort_rows(rows: Vec<Row>) -> (sorted: Vec<Row>)
    ensures
        sorted_by_key(sorted@),
        sorted@.to_multiset() == rows@.to_multiset(),
{
    let mut sorted = rows;
    sort_unstable_by_key(&mut sorted);
    sorted
}

} // verus!
