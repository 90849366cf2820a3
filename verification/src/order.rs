//! Orders: newest first, and the lexicographic order of texts.

use vstd::prelude::*;
use vstd::utf8::encode_utf8;

verus! {

// ---------------------------------------------------------------------------
// Newest first
// ---------------------------------------------------------------------------

/// Puts index `i` into an order, behind every index whose key is not smaller.
pub open spec fn place(order: Seq<int>, keys: Seq<int>, i: int) -> Seq<int>
    decreases order.len(),
{
    if order.len() == 0 || keys[order.last()] >= keys[i] {
        order.push(i)
    } else {
        place(order.drop_last(), keys, i).push(order.last())
    }
}

/// The indices below `n`, by falling key; indices with equal keys stay in order.
pub open spec fn newest_first(keys: Seq<int>, n: nat) -> Seq<int>
    decreases n,
{
    if n == 0 {
        Seq::empty()
    } else {
        place(newest_first(keys, (n - 1) as nat), keys, n - 1)
    }
}

/// Whether an order lists indices by falling key, and by rising index where keys are equal.
pub open spec fn is_newest_first(order: Seq<int>, keys: Seq<int>) -> bool {
    forall|a: int, b: int|
        0 <= a < b < order.len() ==> {
            ||| keys[#[trigger] order[a]] > keys[#[trigger] order[b]]
            ||| keys[order[a]] == keys[order[b]] && order[a] < order[b]
        }
}

/// Whether an order lists every index below `n` once.
pub open spec fn is_permutation(order: Seq<int>, n: nat) -> bool {
    &&& order.len() == n
    &&& order.no_duplicates()
    &&& forall|a: int| 0 <= a < order.len() ==> 0 <= #[trigger] order[a] < n
    &&& forall|i: int| 0 <= i < n ==> order.contains(i)
}

proof fn place_facts(order: Seq<int>, keys: Seq<int>, i: int)
    requires
        is_newest_first(order, keys),
        forall|a: int| 0 <= a < order.len() ==> #[trigger] order[a] < i,
    ensures
        is_newest_first(place(order, keys, i), keys),
        place(order, keys, i).len() == order.len() + 1,
        forall|x: int|
            #![trigger place(order, keys, i).contains(x)]
            #![trigger order.contains(x)]
            place(order, keys, i).contains(x) <==> x == i || order.contains(x),
    decreases order.len(),
{
    let placed = place(order, keys, i);
    if order.len() == 0 || keys[order.last()] >= keys[i] {
        assert forall|x: int| placed.contains(x) <==> x == i || order.contains(x) by {
            if order.contains(x) {
                let a = choose|a: int| 0 <= a < order.len() && order[a] == x;
                assert(placed[a] == x);
            }
            assert(placed[order.len() as int] == i);
        }
        assert forall|a: int, b: int| 0 <= a < b < placed.len() implies {
            ||| keys[#[trigger] placed[a]] > keys[#[trigger] placed[b]]
            ||| keys[placed[a]] == keys[placed[b]] && placed[a] < placed[b]
        } by {
            if b == order.len() {
                let l = order.len() - 1;
                if a < l {
                    assert(keys[order[a]] > keys[order[l]] || keys[order[a]] == keys[order[l]]);
                }
            } else {
                assert(placed[a] == order[a] && placed[b] == order[b]);
            }
        }
    } else {
        let init = order.drop_last();
        let last = order.last();
        assert forall|a: int, b: int| 0 <= a < b < init.len() implies {
            ||| keys[#[trigger] init[a]] > keys[#[trigger] init[b]]
            ||| keys[init[a]] == keys[init[b]] && init[a] < init[b]
        } by {
            assert(init[a] == order[a] && init[b] == order[b]);
        }
        place_facts(init, keys, i);
        let inner = place(init, keys, i);
        assert forall|x: int| placed.contains(x) <==> x == i || order.contains(x) by {
            if inner.contains(x) {
                let a = choose|a: int| 0 <= a < inner.len() && inner[a] == x;
                assert(placed[a] == x);
                if x != i {
                    let b = choose|b: int| 0 <= b < init.len() && init[b] == x;
                    assert(order[b] == x);
                }
            }
            if order.contains(x) {
                let a = choose|a: int| 0 <= a < order.len() && order[a] == x;
                if a < init.len() {
                    assert(init[a] == x);
                    assert(inner.contains(x));
                } else {
                    assert(placed[inner.len() as int] == x);
                }
            }
            if x == i {
                assert(inner.contains(x));
            }
            if placed.contains(x) {
                let a = choose|a: int| 0 <= a < placed.len() && placed[a] == x;
                if a < inner.len() {
                    assert(inner[a] == x);
                } else {
                    assert(order[order.len() - 1] == x);
                }
            }
        }
        assert forall|a: int, b: int| 0 <= a < b < placed.len() implies {
            ||| keys[#[trigger] placed[a]] > keys[#[trigger] placed[b]]
            ||| keys[placed[a]] == keys[placed[b]] && placed[a] < placed[b]
        } by {
            if b == inner.len() {
                let x = inner[a];
                assert(inner.contains(x));
                if x != i {
                    let c = choose|c: int| 0 <= c < init.len() && init[c] == x;
                    assert(order[c] == x && order[order.len() - 1] == last);
                }
            } else {
                assert(placed[a] == inner[a] && placed[b] == inner[b]);
            }
        }
    }
}

/// `newest_first` lists every index once, by falling key, and keeps the order of equals.
pub proof fn newest_first_sorts(keys: Seq<int>, n: nat)
    ensures
        is_permutation(newest_first(keys, n), n),
        is_newest_first(newest_first(keys, n), keys),
    decreases n,
{
    if n > 0 {
        let m = (n - 1) as nat;
        newest_first_sorts(keys, m);
        let before = newest_first(keys, m);
        place_facts(before, keys, m as int);
        let after = newest_first(keys, n);
        assert forall|a: int| 0 <= a < after.len() implies 0 <= #[trigger] after[a] < n by {
            assert(after.contains(after[a]));
            if after[a] != m {
                let b = choose|b: int| 0 <= b < before.len() && before[b] == after[a];
                assert(0 <= before[b] < m);
            }
        }
        assert forall|a: int, b: int|
            0 <= a < after.len() && 0 <= b < after.len() && a != b implies after[a] != after[b] by {
            if a < b {
                assert(keys[after[a]] > keys[after[b]] || after[a] < after[b]);
            } else {
                assert(keys[after[b]] > keys[after[a]] || after[b] < after[a]);
            }
        }
        assert forall|i: int| 0 <= i < n implies after.contains(i) by {
            if i < m {
                assert(before.contains(i));
            }
        }
    }
}

/// The values of a list of machine integers.
pub open spec fn int_values(keys: Seq<i128>) -> Seq<int> {
    keys.map_values(|k: i128| k as int)
}

/// A list of indices as mathematical integers.
pub open spec fn index_values(order: Seq<usize>) -> Seq<int> {
    order.map_values(|i: usize| i as int)
}

proof fn place_prefix(order: Seq<int>, keys: Seq<int>, i: int, p: int)
    requires
        0 <= p <= order.len(),
        forall|a: int| p <= a < order.len() ==> keys[#[trigger] order[a]] < keys[i],
        p > 0 ==> keys[order[p - 1]] >= keys[i],
    ensures
        place(order, keys, i) == order.insert(p, i),
    decreases order.len(),
{
    if p == order.len() {
        assert(order.insert(p, i) =~= order.push(i));
    } else {
        let init = order.drop_last();
        assert(keys[order[order.len() - 1]] < keys[i]);
        assert forall|a: int| p <= a < init.len() implies keys[#[trigger] init[a]] < keys[i] by {
            assert(init[a] == order[a]);
        }
        place_prefix(init, keys, i, p);
        assert(init.insert(p, i).push(order.last()) =~= order.insert(p, i));
    }
}

/// The order of a list of keys, newest first.
pub fn order_newest_first(keys: &Vec<i128>) -> (order: Vec<usize>)
    ensures
        index_values(order@) == newest_first(int_values(keys@), keys@.len()),
{
    let ghost values = int_values(keys@);
    let mut order: Vec<usize> = Vec::new();
    let mut i: usize = 0;
    assert(index_values(order@) =~= newest_first(values, 0));
    while i < keys.len()
        invariant
            i <= keys@.len(),
            values == int_values(keys@),
            index_values(order@) == newest_first(values, i as nat),
        decreases keys@.len() - i,
    {
        proof {
            newest_first_sorts(values, i as nat);
        }
        let ghost before = index_values(order@);
        assert(order@.len() == i);
        let mut p: usize = order.len();
        while p > 0 && keys[order[p - 1]] < keys[i]
            invariant
                i < keys@.len(),
                p <= order@.len(),
                values == int_values(keys@),
                before == index_values(order@),
                is_permutation(before, i as nat),
                forall|a: int| p <= a < before.len() ==> values[#[trigger] before[a]] < values[i as int],
                p > 0 ==> 0 <= before[p - 1] < i,
            decreases p,
        {
            assert(before[p - 1] == order@[p - 1]);
            p -= 1;
            if p > 0 {
                assert(0 <= before[p - 1] < i);
            }
        }
        if p > 0 {
            assert(before[p - 1] == order@[p - 1]);
        }
        proof {
            place_prefix(before, values, i as int, p as int);
        }
        order.insert(p, i);
        assert(index_values(order@) =~= before.insert(p as int, i as int));
        i += 1;
    }
    order
}

// ---------------------------------------------------------------------------
// Texts
// ---------------------------------------------------------------------------

/// Whether byte string `a` comes before `b` in lexicographic order.
pub open spec fn bytes_before(a: Seq<u8>, b: Seq<u8>) -> bool
    decreases a.len(),
{
    if b.len() == 0 {
        false
    } else if a.len() == 0 {
        true
    } else if a[0] != b[0] {
        a[0] < b[0]
    } else {
        bytes_before(a.skip(1), b.skip(1))
    }
}

/// Whether text `a` comes before `b` in lexicographic order.
pub open spec fn text_before(a: Seq<char>, b: Seq<char>) -> bool {
    bytes_before(encode_utf8(a), encode_utf8(b))
}

/// Of two different byte strings exactly one comes first.
pub proof fn bytes_before_total(a: Seq<u8>, b: Seq<u8>)
    requires
        a != b,
    ensures
        bytes_before(a, b) != bytes_before(b, a),
    decreases a.len(),
{
    if a.len() > 0 && b.len() > 0 && a[0] == b[0] {
        if a.skip(1) == b.skip(1) {
            assert forall|i: int| 0 <= i < a.len() implies i < b.len() && a[i] == b[i] by {
                if i > 0 {
                    assert(a.skip(1).len() == b.skip(1).len());
                    assert(a.skip(1)[i - 1] == b.skip(1)[i - 1]);
                }
            }
            assert(a.skip(1).len() == b.skip(1).len());
            assert(a =~= b);
        }
        bytes_before_total(a.skip(1), b.skip(1));
    } else if a.len() == 0 && b.len() == 0 {
        assert(a =~= b);
    }
}

/// One byte string comes before another if and only if they agree up to some place, where the
/// first ends or has the lesser byte.
pub proof fn bytes_before_is_lexicographic(a: Seq<u8>, b: Seq<u8>)
    ensures
        bytes_before(a, b) <==> exists|d: int|
            0 <= d <= a.len() && d < b.len() && #[trigger] a.take(d) == b.take(d) && (d == a.len()
                || a[d] < b[d]),
    decreases a.len(),
{
    if b.len() > 0 && a.len() > 0 && a[0] == b[0] {
        let x = a.skip(1);
        let y = b.skip(1);
        bytes_before_is_lexicographic(x, y);
        if bytes_before(a, b) {
            let d = choose|d: int|
                0 <= d <= x.len() && d < y.len() && #[trigger] x.take(d) == y.take(d) && (d
                    == x.len() || x[d] < y[d]);
            assert(a.take(d + 1) =~= seq![a[0]] + x.take(d));
            assert(b.take(d + 1) =~= seq![b[0]] + y.take(d));
            assert(d == x.len() || a[d + 1] < b[d + 1]);
        }
        if exists|d: int|
            0 <= d <= a.len() && d < b.len() && #[trigger] a.take(d) == b.take(d) && (d == a.len()
                || a[d] < b[d]) {
            let d = choose|d: int|
                0 <= d <= a.len() && d < b.len() && #[trigger] a.take(d) == b.take(d) && (d
                    == a.len() || a[d] < b[d]);
            assert(d > 0);
            assert(x.take(d - 1) =~= a.take(d).skip(1));
            assert(y.take(d - 1) =~= b.take(d).skip(1));
            assert(d == a.len() || x[d - 1] < y[d - 1]);
        }
    } else if b.len() > 0 {
        if bytes_before(a, b) {
            assert(a.take(0) =~= b.take(0));
        }
        if exists|d: int|
            0 <= d <= a.len() && d < b.len() && #[trigger] a.take(d) == b.take(d) && (d == a.len()
                || a[d] < b[d]) {
            let d = choose|d: int|
                0 <= d <= a.len() && d < b.len() && #[trigger] a.take(d) == b.take(d) && (d
                    == a.len() || a[d] < b[d]);
            if d > 0 {
                assert(a.take(d)[0] == b.take(d)[0]);
            }
        }
    }
}

/// Whether text `a` comes before `b` in lexicographic order.
pub fn is_text_before(a: &str, b: &str) -> (res: bool)
    ensures
        res == text_before(a@, b@),
{
    let x = a.as_bytes();
    let y = b.as_bytes();
    let mut i: usize = 0;
    assert(x@.skip(0) =~= x@);
    assert(y@.skip(0) =~= y@);
    while i < x.len() && i < y.len() && x[i] == y[i]
        invariant
            i <= x@.len(),
            i <= y@.len(),
            bytes_before(x@, y@) == bytes_before(x@.skip(i as int), y@.skip(i as int)),
        decreases x@.len() - i,
    {
        proof {
            assert(x@.skip(i as int).skip(1) =~= x@.skip(i + 1));
            assert(y@.skip(i as int).skip(1) =~= y@.skip(i + 1));
        }
        i += 1;
    }
    if i >= y.len() {
        false
    } else if i >= x.len() {
        true
    } else {
        x[i] < y[i]
    }
}

} // verus!
