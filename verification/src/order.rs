//! Lexicographic order on character sequences, and a merge sort of
//! `(key, index)` entries by that order.

use vstd::prelude::*;

verus! {

/// `a` sorts strictly before `b`: by the first differing character, a proper
/// prefix sorting first. On valid Unicode text this is the order in which
/// `String` compares its UTF-8 bytes.
pub open spec fn chars_lt(a: Seq<char>, b: Seq<char>) -> bool
    decreases a.len(),
{
    if a.len() == 0 {
        b.len() > 0
    } else if b.len() == 0 {
        false
    } else if a[0] != b[0] {
        a[0] < b[0]
    } else {
        chars_lt(a.drop_first(), b.drop_first())
    }
}

pub open spec fn chars_le(a: Seq<char>, b: Seq<char>) -> bool {
    a == b || chars_lt(a, b)
}

pub proof fn lemma_chars_lt_irreflexive(a: Seq<char>)
    ensures
        !chars_lt(a, a),
    decreases a.len(),
{
    if a.len() > 0 {
        lemma_chars_lt_irreflexive(a.drop_first());
    }
}

pub proof fn lemma_chars_lt_transitive(a: Seq<char>, b: Seq<char>, c: Seq<char>)
    requires
        chars_lt(a, b),
        chars_lt(b, c),
    ensures
        chars_lt(a, c),
    decreases a.len(),
{
    if a.len() > 0 && b.len() > 0 && c.len() > 0 && a[0] == b[0] && b[0] == c[0] {
        lemma_chars_lt_transitive(a.drop_first(), b.drop_first(), c.drop_first());
    }
}

pub proof fn lemma_chars_lt_total(a: Seq<char>, b: Seq<char>)
    ensures
        a == b || chars_lt(a, b) || chars_lt(b, a),
    decreases a.len(),
{
    if a.len() > 0 && b.len() > 0 && a[0] == b[0] {
        lemma_chars_lt_total(a.drop_first(), b.drop_first());
        if a.drop_first() == b.drop_first() {
            assert(a =~= seq![a[0]] + a.drop_first());
            assert(b =~= seq![b[0]] + b.drop_first());
        }
    } else if a.len() == 0 && b.len() == 0 {
        assert(a =~= b);
    }
}

/// Compares two character sequences in the order `chars_lt`.
pub fn chars_less(a: &[char], b: &[char]) -> (r: bool)
    ensures
        r == chars_lt(a@, b@),
{
    let mut i: usize = 0;
    assert(a@.skip(0) =~= a@);
    assert(b@.skip(0) =~= b@);
    while i < a.len() && i < b.len()
        invariant
            i <= a@.len(),
            i <= b@.len(),
            chars_lt(a@, b@) == chars_lt(a@.skip(i as int), b@.skip(i as int)),
        decreases a@.len() - i,
    {
        if a[i] != b[i] {
            return a[i] < b[i];
        }
        assert(a@.skip(i as int).drop_first() =~= a@.skip(i + 1));
        assert(b@.skip(i as int).drop_first() =~= b@.skip(i + 1));
        i += 1;
    }
    i == a.len() && i < b.len()
}

/// Whether two character sequences are equal.
pub fn chars_equal(a: &[char], b: &[char]) -> (r: bool)
    ensures
        r == (a@ == b@),
{
    if a.len() != b.len() {
        return false;
    }
    let mut i: usize = 0;
    while i < a.len()
        invariant
            a@.len() == b@.len(),
            i <= a@.len(),
            forall|j: int| 0 <= j < i ==> a@[j] == b@[j],
        decreases a@.len() - i,
    {
        if a[i] != b[i] {
            return false;
        }
        i += 1;
    }
    assert(a@ =~= b@);
    true
}

/// Position `p` of `keys` sorts strictly before position `q`: by key, and
/// among equal keys by position.
pub open spec fn pos_lt(keys: Seq<Seq<char>>, p: int, q: int) -> bool {
    chars_lt(keys[p], keys[q]) || (keys[p] == keys[q] && p < q)
}

/// `s` lists positions of `keys` in strictly increasing `pos_lt` order.
pub open spec fn positions_sorted(keys: Seq<Seq<char>>, s: Seq<usize>) -> bool {
    forall|i: int, j: int|
        0 <= i < j < s.len() ==> pos_lt(keys, #[trigger] s[i] as int, #[trigger] s[j] as int)
}

pub open spec fn positions_in_range(keys: Seq<Seq<char>>, s: Seq<usize>) -> bool {
    forall|i: int| 0 <= i < s.len() ==> #[trigger] s[i] < keys.len()
}

proof fn lemma_pos_lt_transitive(keys: Seq<Seq<char>>, p: int, q: int, r: int)
    requires
        pos_lt(keys, p, q),
        pos_lt(keys, q, r),
    ensures
        pos_lt(keys, p, r),
{
    if chars_lt(keys[p], keys[q]) && chars_lt(keys[q], keys[r]) {
        lemma_chars_lt_transitive(keys[p], keys[q], keys[r]);
    }
}

proof fn lemma_pos_lt_total(keys: Seq<Seq<char>>, p: int, q: int)
    requires
        p != q,
    ensures
        pos_lt(keys, p, q) || pos_lt(keys, q, p),
{
    lemma_chars_lt_total(keys[p], keys[q]);
}

fn pos_less(keys: &Vec<Vec<char>>, p: usize, q: usize) -> (r: bool)
    requires
        p < keys@.len(),
        q < keys@.len(),
    ensures
        r == pos_lt(keys@.map_values(|k: Vec<char>| k@), p as int, q as int),
{
    let ghost ks = keys@.map_values(|k: Vec<char>| k@);
    assert(ks[p as int] == keys@[p as int]@);
    assert(ks[q as int] == keys@[q as int]@);
    if chars_less(keys[p].as_slice(), keys[q].as_slice()) {
        true
    } else if chars_equal(keys[p].as_slice(), keys[q].as_slice()) {
        p < q
    } else {
        false
    }
}

/// Appending `x` adds exactly `x` to what a sequence contains.
pub proof fn lemma_push_contains<T>(s: Seq<T>, x: T, y: T)
    ensures
        s.push(x).contains(y) <==> (s.contains(y) || y == x),
{
    if s.push(x).contains(y) {
        let k = choose|k: int| 0 <= k < s.push(x).len() && s.push(x)[k] == y;
        if k < s.len() {
            assert(s[k] == y);
        }
    }
    if s.contains(y) {
        let k = choose|k: int| 0 <= k < s.len() && s[k] == y;
        assert(s.push(x)[k] == y);
    }
    if y == x {
        assert(s.push(x)[s.len() as int] == y);
    }
}

/// Merges two sorted runs of positions.
fn merge(keys: &Vec<Vec<char>>, a: &Vec<usize>, b: &Vec<usize>) -> (r: Vec<usize>)
    requires
        positions_sorted(keys@.map_values(|k: Vec<char>| k@), a@),
        positions_sorted(keys@.map_values(|k: Vec<char>| k@), b@),
        positions_in_range(keys@.map_values(|k: Vec<char>| k@), a@),
        positions_in_range(keys@.map_values(|k: Vec<char>| k@), b@),
        forall|x: usize| a@.contains(x) ==> !b@.contains(x),
    ensures
        r@.len() == a@.len() + b@.len(),
        positions_sorted(keys@.map_values(|k: Vec<char>| k@), r@),
        positions_in_range(keys@.map_values(|k: Vec<char>| k@), r@),
        forall|x: usize| r@.contains(x) <==> (a@.contains(x) || b@.contains(x)),
{
    let ghost ks = keys@.map_values(|k: Vec<char>| k@);
    let mut r: Vec<usize> = Vec::new();
    let mut i: usize = 0;
    let mut j: usize = 0;
    while i < a.len() || j < b.len()
        invariant
            ks == keys@.map_values(|k: Vec<char>| k@),
            positions_sorted(ks, a@),
            positions_sorted(ks, b@),
            positions_in_range(ks, a@),
            positions_in_range(ks, b@),
            forall|x: usize| a@.contains(x) ==> !b@.contains(x),
            i <= a@.len(),
            j <= b@.len(),
            r@.len() == i + j,
            positions_sorted(ks, r@),
            positions_in_range(ks, r@),
            forall|x: usize| r@.contains(x) <==> (a@.take(i as int).contains(x) || b@.take(j as int).contains(x)),
            r@.len() > 0 && i < a@.len() ==> pos_lt(ks, r@.last() as int, a@[i as int] as int),
            r@.len() > 0 && j < b@.len() ==> pos_lt(ks, r@.last() as int, b@[j as int] as int),
        decreases a@.len() + b@.len() - i - j,
    {
        let take_a = if i < a.len() && j < b.len() {
            pos_less(keys, a[i], b[j])
        } else {
            i < a.len()
        };
        let ghost old_r = r@;
        if take_a {
            let x = a[i];
            proof {
                if j < b@.len() && !pos_lt(ks, x as int, b@[j as int] as int) {
                    assert(a@.contains(x));
                    assert(b@.contains(b@[j as int]));
                    lemma_pos_lt_total(ks, x as int, b@[j as int] as int);
                }
                assert forall|k: int| 0 <= k < old_r.len() implies pos_lt(ks, #[trigger] old_r[k] as int, x as int) by {
                    if k < old_r.len() - 1 {
                        lemma_pos_lt_transitive(ks, old_r[k] as int, old_r.last() as int, x as int);
                    }
                }
                if i + 1 < a@.len() {
                    assert(pos_lt(ks, a@[i as int] as int, a@[i + 1] as int));
                }
            }
            r.push(x);
            i += 1;
            assert(a@.take(i as int) =~= a@.take(i - 1).push(x));
            proof {
                assert forall|y: usize| r@.contains(y) <==> (a@.take(i as int).contains(y) || b@.take(j as int).contains(y)) by {
                    lemma_push_contains(old_r, x, y);
                    lemma_push_contains(a@.take(i - 1), x, y);
                }
            }
        } else {
            let x = b[j];
            proof {
                if i < a@.len() {
                    assert(!pos_lt(ks, a@[i as int] as int, x as int));
                    assert(a@.contains(a@[i as int]));
                    assert(b@.contains(x));
                    lemma_pos_lt_total(ks, x as int, a@[i as int] as int);
                }
                assert forall|k: int| 0 <= k < old_r.len() implies pos_lt(ks, #[trigger] old_r[k] as int, x as int) by {
                    if k < old_r.len() - 1 {
                        lemma_pos_lt_transitive(ks, old_r[k] as int, old_r.last() as int, x as int);
                    }
                }
                if j + 1 < b@.len() {
                    assert(pos_lt(ks, b@[j as int] as int, b@[j + 1] as int));
                }
            }
            r.push(x);
            j += 1;
            assert(b@.take(j as int) =~= b@.take(j - 1).push(x));
            proof {
                assert forall|y: usize| r@.contains(y) <==> (a@.take(i as int).contains(y) || b@.take(j as int).contains(y)) by {
                    lemma_push_contains(old_r, x, y);
                    lemma_push_contains(b@.take(j - 1), x, y);
                }
            }
        }
    }
    assert(a@.take(i as int) =~= a@);
    assert(b@.take(j as int) =~= b@);
    r
}

/// Sorts positions of `keys` into `pos_lt` order.
fn merge_sort(keys: &Vec<Vec<char>>, v: Vec<usize>) -> (r: Vec<usize>)
    requires
        positions_in_range(keys@.map_values(|k: Vec<char>| k@), v@),
        forall|i: int, j: int| 0 <= i < j < v@.len() ==> v@[i] != v@[j],
    ensures
        r@.len() == v@.len(),
        positions_sorted(keys@.map_values(|k: Vec<char>| k@), r@),
        positions_in_range(keys@.map_values(|k: Vec<char>| k@), r@),
        forall|x: usize| r@.contains(x) <==> v@.contains(x),
    decreases v@.len(),
{
    let ghost ks = keys@.map_values(|k: Vec<char>| k@);
    if v.len() <= 1 {
        return v;
    }
    let mut left = v;
    let ghost whole = left@;
    let mid = left.len() / 2;
    let right = left.split_off(mid);
    assert(left@ =~= whole.take(mid as int));
    assert(right@ =~= whole.skip(mid as int));
    let l = merge_sort(keys, left);
    let r = merge_sort(keys, right);
    proof {
        assert forall|x: usize| l@.contains(x) implies !r@.contains(x) by {
            let p = choose|p: int| 0 <= p < whole.take(mid as int).len() && whole.take(mid as int)[p] == x;
            if r@.contains(x) {
                let q = choose|q: int| 0 <= q < whole.skip(mid as int).len() && whole.skip(mid as int)[q] == x;
                assert(whole[p] == whole[mid + q]);
            }
        }
        assert forall|x: usize| (l@.contains(x) || r@.contains(x)) implies whole.contains(x) by {
            if l@.contains(x) {
                let p = choose|p: int| 0 <= p < whole.take(mid as int).len() && whole.take(mid as int)[p] == x;
                assert(whole[p] == x);
            }
            if r@.contains(x) {
                let q = choose|q: int| 0 <= q < whole.skip(mid as int).len() && whole.skip(mid as int)[q] == x;
                assert(whole[mid + q] == x);
            }
        }
        assert forall|x: usize| whole.contains(x) implies (l@.contains(x) || r@.contains(x)) by {
            if whole.contains(x) {
                let p = choose|p: int| 0 <= p < whole.len() && whole[p] == x;
                if p < mid {
                    assert(whole.take(mid as int)[p] == x);
                } else {
                    assert(whole.skip(mid as int)[p - mid] == x);
                }
            }
        }
    }
    merge(keys, &l, &r)
}

/// The positions `0..keys.len()` ordered by key, ties by position.
pub fn sorted_positions(keys: &Vec<Vec<char>>) -> (r: Vec<usize>)
    ensures
        r@.len() == keys@.len(),
        positions_sorted(keys@.map_values(|k: Vec<char>| k@), r@),
        positions_in_range(keys@.map_values(|k: Vec<char>| k@), r@),
        forall|p: usize| p < keys@.len() ==> r@.contains(p),
{
    let mut v: Vec<usize> = Vec::new();
    let mut i: usize = 0;
    while i < keys.len()
        invariant
            i <= keys@.len(),
            v@.len() == i,
            forall|k: int| 0 <= k < i ==> v@[k] == k,
        decreases keys@.len() - i,
    {
        v.push(i);
        i += 1;
    }
    let r = merge_sort(keys, v);
    assert forall|p: usize| p < keys@.len() implies r@.contains(p) by {
        assert(v@[p as int] == p);
    }
    r
}

} // verus!
