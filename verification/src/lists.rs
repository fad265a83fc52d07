//! Small verified helpers on lists of 64-bit identifiers.

use vstd::prelude::*;

verus! {

/// No element of `a` occurs in `b`.
pub open spec fn disjoint(a: Seq<u64>, b: Seq<u64>) -> bool {
    forall|i: int| 0 <= i < a.len() ==> !b.contains(#[trigger] a[i])
}

/// Every element of `a` occurs in `b`.
pub open spec fn all_within(a: Seq<u64>, b: Seq<u64>) -> bool {
    forall|i: int| 0 <= i < a.len() ==> b.contains(#[trigger] a[i])
}

/// Two lists share an element whichever is asked first.
pub proof fn lemma_disjoint_symmetric(a: Seq<u64>, b: Seq<u64>)
    ensures
        disjoint(a, b) == disjoint(b, a),
{
    if disjoint(a, b) {
        assert forall|i: int| 0 <= i < b.len() implies !a.contains(#[trigger] b[i]) by {
            if a.contains(b[i]) {
                let k = choose|k: int| 0 <= k < a.len() && a[k] == b[i];
                assert(b.contains(a[k]));
            }
        }
    }
    if disjoint(b, a) {
        assert forall|i: int| 0 <= i < a.len() implies !b.contains(#[trigger] a[i]) by {
            if b.contains(a[i]) {
                let k = choose|k: int| 0 <= k < b.len() && b[k] == a[i];
                assert(a.contains(b[k]));
            }
        }
    }
}

/// A concatenation is free of duplicates exactly when both parts are and they
/// share no element.
pub proof fn lemma_concat_no_duplicates(a: Seq<u64>, b: Seq<u64>)
    ensures
        (a + b).no_duplicates() <==> (a.no_duplicates() && b.no_duplicates() && disjoint(b, a)),
{
    let c = a + b;
    if c.no_duplicates() {
        assert forall|i: int, j: int| 0 <= i < a.len() && 0 <= j < a.len() && i != j implies a[i]
            != a[j] by {
            assert(c[i] == a[i] && c[j] == a[j]);
        }
        assert forall|i: int, j: int| 0 <= i < b.len() && 0 <= j < b.len() && i != j implies b[i]
            != b[j] by {
            assert(c[a.len() + i] == b[i] && c[a.len() + j] == b[j]);
        }
        assert forall|i: int| 0 <= i < b.len() implies !a.contains(#[trigger] b[i]) by {
            if a.contains(b[i]) {
                let k = choose|k: int| 0 <= k < a.len() && a[k] == b[i];
                assert(c[k] == a[k] && c[a.len() + i] == b[i]);
            }
        }
    }
    if a.no_duplicates() && b.no_duplicates() && disjoint(b, a) {
        assert forall|i: int, j: int| 0 <= i < c.len() && 0 <= j < c.len() && i != j implies c[i]
            != c[j] by {
            if i < a.len() && j >= a.len() {
                assert(c[j] == b[j - a.len()]);
                assert(a.contains(a[i]));
            } else if j < a.len() && i >= a.len() {
                assert(c[i] == b[i - a.len()]);
                assert(a.contains(a[j]));
            }
        }
    }
}

/// Membership in a concatenation is membership in one of the parts.
pub proof fn lemma_concat_contains(a: Seq<u64>, b: Seq<u64>, x: u64)
    ensures
        (a + b).contains(x) <==> (a.contains(x) || b.contains(x)),
{
    let c = a + b;
    if c.contains(x) {
        let k = choose|k: int| 0 <= k < c.len() && c[k] == x;
        if k < a.len() {
            assert(a[k] == x);
        } else {
            assert(b[k - a.len()] == x);
        }
    }
    if a.contains(x) {
        let k = choose|k: int| 0 <= k < a.len() && a[k] == x;
        assert(c[k] == x);
    }
    if b.contains(x) {
        let k = choose|k: int| 0 <= k < b.len() && b[k] == x;
        assert(c[a.len() + k] == x);
    }
}

/// The concatenation of `parts`, in order.
pub open spec fn concat_all(parts: Seq<Seq<u64>>) -> Seq<u64>
    decreases parts.len(),
{
    if parts.len() == 0 {
        Seq::empty()
    } else {
        concat_all(parts.drop_last()) + parts.last()
    }
}

/// Concatenating one more part appends it.
pub proof fn lemma_concat_all_push(parts: Seq<Seq<u64>>, part: Seq<u64>)
    ensures
        concat_all(parts.push(part)) == concat_all(parts) + part,
{
    assert(parts.push(part).drop_last() =~= parts);
}

/// The concatenation of the first `n + 1` parts is that of the first `n`,
/// followed by part `n`.
pub proof fn lemma_concat_all_step(parts: Seq<Seq<u64>>, n: int)
    requires
        0 <= n < parts.len(),
    ensures
        concat_all(parts.take(n + 1)) == concat_all(parts.take(n)) + parts[n],
{
    assert(parts.take(n + 1).drop_last() =~= parts.take(n));
}

/// The concatenation of the first `n` parts is a prefix of the whole; the
/// result is what follows it.
pub proof fn lemma_concat_all_prefix(parts: Seq<Seq<u64>>, n: int) -> (rest: Seq<u64>)
    requires
        0 <= n <= parts.len(),
    ensures
        concat_all(parts) == concat_all(parts.take(n)) + rest,
    decreases parts.len(),
{
    if n == parts.len() {
        assert(parts.take(n) =~= parts);
        assert(concat_all(parts) =~= concat_all(parts) + Seq::<u64>::empty());
        Seq::empty()
    } else {
        let shorter = lemma_concat_all_prefix(parts.drop_last(), n);
        assert(parts.drop_last().take(n) =~= parts.take(n));
        assert(concat_all(parts) =~= concat_all(parts.take(n)) + (shorter + parts.last()));
        shorter + parts.last()
    }
}

/// An element of a concatenation is an element of one of the parts.
pub proof fn lemma_concat_all_contains(parts: Seq<Seq<u64>>, x: u64)
    requires
        concat_all(parts).contains(x),
    ensures
        exists|i: int| 0 <= i < parts.len() && (#[trigger] parts[i]).contains(x),
    decreases parts.len(),
{
    if parts.len() > 0 {
        lemma_concat_contains(concat_all(parts.drop_last()), parts.last(), x);
        if parts.last().contains(x) {
            assert(parts[parts.len() - 1].contains(x));
        } else {
            lemma_concat_all_contains(parts.drop_last(), x);
            let i = choose|i: int|
                0 <= i < parts.drop_last().len() && (#[trigger] parts.drop_last()[i]).contains(x);
            assert(parts[i].contains(x));
        }
    }
}

/// Where element `k` of part `i` stands in the concatenation: after the
/// parts before `i`.
pub proof fn lemma_concat_all_at(parts: Seq<Seq<u64>>, i: int, k: int)
    requires
        0 <= i < parts.len(),
        0 <= k < parts[i].len(),
    ensures
        concat_all(parts.take(i)).len() + k < concat_all(parts).len(),
        concat_all(parts)[concat_all(parts.take(i)).len() + k] == parts[i][k],
{
    lemma_concat_all_step(parts, i);
    let rest = lemma_concat_all_prefix(parts, i + 1);
}

/// The parts before `j` hold the parts before `i` and part `i`, where `i`
/// is before `j`.
pub proof fn lemma_concat_all_offsets(parts: Seq<Seq<u64>>, i: int, j: int)
    requires
        0 <= i < j <= parts.len(),
    ensures
        concat_all(parts.take(i)).len() + parts[i].len() <= concat_all(parts.take(j)).len(),
{
    lemma_concat_all_step(parts, i);
    let rest = lemma_concat_all_prefix(parts.take(j), i + 1);
    assert(parts.take(j).take(i + 1) =~= parts.take(i + 1));
}

/// In a concatenation without duplicates, the elements at two different
/// places of the parts differ.
pub proof fn lemma_concat_all_distinct(parts: Seq<Seq<u64>>, i: int, k: int, j: int, l: int)
    requires
        concat_all(parts).no_duplicates(),
        0 <= i < parts.len(),
        0 <= k < parts[i].len(),
        0 <= j < parts.len(),
        0 <= l < parts[j].len(),
        i != j || k != l,
    ensures
        parts[i][k] != parts[j][l],
{
    lemma_concat_all_at(parts, i, k);
    lemma_concat_all_at(parts, j, l);
    if i < j {
        lemma_concat_all_offsets(parts, i, j);
    } else if j < i {
        lemma_concat_all_offsets(parts, j, i);
    }
}

/// The elements of `list` other than `x`, in their order.
pub open spec fn excluding(list: Seq<u64>, x: u64) -> Seq<u64>
    decreases list.len(),
{
    if list.len() == 0 {
        Seq::empty()
    } else if list.last() == x {
        excluding(list.drop_last(), x)
    } else {
        excluding(list.drop_last(), x).push(list.last())
    }
}

/// What a list without `x` holds: every other element of the list and
/// nothing else, no more often than the list.
pub proof fn lemma_excluding(list: Seq<u64>, x: u64)
    ensures
        excluding(list, x).len() <= list.len(),
        !excluding(list, x).contains(x),
        forall|y: u64| y != x ==> excluding(list, x).contains(y) == list.contains(y),
        list.no_duplicates() ==> excluding(list, x).no_duplicates(),
        !list.contains(x) ==> excluding(list, x) == list,
        list.no_duplicates() && list.contains(x) ==> excluding(list, x).len() == list.len() - 1,
    decreases list.len(),
{
    if list.len() > 0 {
        let shorter = list.drop_last();
        let rest = excluding(shorter, x);
        let all = excluding(list, x);
        lemma_excluding(shorter, x);
        assert(list =~= shorter.push(list.last()));
        assert forall|y: u64| y != x implies all.contains(y) == list.contains(y) by {
            if list.contains(y) {
                let k = choose|k: int| 0 <= k < list.len() && list[k] == y;
                if k < shorter.len() {
                    assert(shorter[k] == y);
                    assert(shorter.contains(y));
                    assert(rest.contains(y));
                    let j = choose|j: int| 0 <= j < rest.len() && rest[j] == y;
                    assert(all[j] == y);
                } else {
                    assert(all[all.len() - 1] == y);
                }
            }
            if all.contains(y) {
                let j = choose|j: int| 0 <= j < all.len() && all[j] == y;
                if j < rest.len() {
                    assert(rest[j] == y);
                    assert(shorter.contains(y));
                    let k = choose|k: int| 0 <= k < shorter.len() && shorter[k] == y;
                    assert(list[k] == y);
                } else {
                    assert(list[list.len() - 1] == y);
                }
            }
        }
        if all.contains(x) {
            let j = choose|j: int| 0 <= j < all.len() && all[j] == x;
            if j < rest.len() {
                assert(rest[j] == x);
                assert(rest.contains(x));
            }
        }
        if list.no_duplicates() {
            assert forall|i: int, j: int| 0 <= i < shorter.len() && 0 <= j < shorter.len() && i
                != j implies shorter[i] != shorter[j] by {
                assert(list[i] != list[j]);
            }
            if list.last() != x {
                if rest.contains(list.last()) {
                    assert(shorter.contains(list.last()));
                    let k = choose|k: int| 0 <= k < shorter.len() && shorter[k] == list.last();
                    assert(list[k] == list[list.len() - 1]);
                }
                assert forall|i: int, j: int| 0 <= i < all.len() && 0 <= j < all.len() && i
                    != j implies all[i] != all[j] by {
                    if i < rest.len() && j < rest.len() {
                        assert(rest[i] != rest[j]);
                    } else if i < rest.len() {
                        assert(rest.contains(rest[i]));
                    } else {
                        assert(rest.contains(rest[j]));
                    }
                }
            }
            if list.contains(x) {
                if list.last() == x {
                    if shorter.contains(x) {
                        let k = choose|k: int| 0 <= k < shorter.len() && shorter[k] == x;
                        assert(list[k] == list[list.len() - 1]);
                    }
                } else {
                    let k = choose|k: int| 0 <= k < list.len() && list[k] == x;
                    assert(shorter[k] == x);
                }
            }
        }
        if !list.contains(x) {
            assert(list[list.len() - 1] != x);
            if shorter.contains(x) {
                let k = choose|k: int| 0 <= k < shorter.len() && shorter[k] == x;
                assert(list[k] == x);
            }
        }
    }
}

/// A copy of `list` without `x`.
pub fn without(list: &Vec<u64>, x: u64) -> (rest: Vec<u64>)
    ensures
        rest@ == excluding(list@, x),
{
    let mut rest: Vec<u64> = Vec::new();
    let mut i: usize = 0;
    assert(list@.take(0) =~= Seq::<u64>::empty());
    while i < list.len()
        invariant
            i <= list.len(),
            rest@ == excluding(list@.take(i as int), x),
        decreases list.len() - i,
    {
        assert(list@.take(i + 1).drop_last() =~= list@.take(i as int));
        if list[i] != x {
            rest.push(list[i]);
        }
        i += 1;
    }
    assert(list@.take(list.len() as int) =~= list@);
    rest
}

/// Whether `x` occurs in `list`.
pub fn contains(list: &Vec<u64>, x: u64) -> (found: bool)
    ensures
        found == list@.contains(x),
{
    let mut i: usize = 0;
    while i < list.len()
        invariant
            i <= list.len(),
            forall|k: int| 0 <= k < i ==> list@[k] != x,
        decreases list.len() - i,
    {
        if list[i] == x {
            return true;
        }
        i += 1;
    }
    false
}

/// Whether some element of `a` occurs in `b` or in `c`.
pub fn meets_either(a: &Vec<u64>, b: &Vec<u64>, c: &Vec<u64>) -> (found: bool)
    ensures
        found == !disjoint(a@, b@ + c@),
{
    let mut i: usize = 0;
    while i < a.len()
        invariant
            i <= a.len(),
            forall|k: int| 0 <= k < i ==> !(b@ + c@).contains(#[trigger] a@[k]),
        decreases a.len() - i,
    {
        proof {
            lemma_concat_contains(b@, c@, a@[i as int]);
        }
        if contains(b, a[i]) || contains(c, a[i]) {
            return true;
        }
        i += 1;
    }
    false
}

/// Whether every element of `a` occurs in `b` or in `c`.
pub fn within_either(a: &Vec<u64>, b: &Vec<u64>, c: &Vec<u64>) -> (all: bool)
    ensures
        all == all_within(a@, b@ + c@),
{
    let mut i: usize = 0;
    while i < a.len()
        invariant
            i <= a.len(),
            forall|k: int| 0 <= k < i ==> (b@ + c@).contains(#[trigger] a@[k]),
        decreases a.len() - i,
    {
        proof {
            lemma_concat_contains(b@, c@, a@[i as int]);
        }
        if !(contains(b, a[i]) || contains(c, a[i])) {
            return false;
        }
        i += 1;
    }
    true
}

/// Whether some value occurs at two places of `list`.
pub fn has_duplicates(list: &Vec<u64>) -> (found: bool)
    ensures
        found == !list@.no_duplicates(),
{
    let mut i: usize = 0;
    while i < list.len()
        invariant
            i <= list.len(),
            forall|p: int, q: int| 0 <= p < q < list.len() && p < i ==> list@[p] != list@[q],
        decreases list.len() - i,
    {
        let mut j: usize = i + 1;
        while j < list.len()
            invariant
                i < j <= list.len(),
                forall|q: int| i < q < j ==> list@[i as int] != list@[q],
            decreases list.len() - j,
        {
            if list[i] == list[j] {
                return true;
            }
            j += 1;
        }
        i += 1;
    }
    assert forall|p: int, q: int| 0 <= p < list.len() && 0 <= q < list.len() && p != q implies list@[p]
        != list@[q] by {
        if p < q {
        } else {
            assert(list@[q] != list@[p]);
        }
    }
    false
}

/// A copy of `list`.
pub fn copy_of(list: &Vec<u64>) -> (copy: Vec<u64>)
    ensures
        copy@ == list@,
{
    let mut copy: Vec<u64> = Vec::new();
    let mut i: usize = 0;
    while i < list.len()
        invariant
            i <= list.len(),
            copy@ == list@.take(i as int),
        decreases list.len() - i,
    {
        copy.push(list[i]);
        i += 1;
    }
    copy
}

/// Appends the elements of `more` to `list`.
pub fn extend(list: &mut Vec<u64>, more: &Vec<u64>)
    ensures
        final(list)@ == old(list)@ + more@,
{
    let mut i: usize = 0;
    while i < more.len()
        invariant
            i <= more.len(),
            list@ == old(list)@ + more@.take(i as int),
        decreases more.len() - i,
    {
        list.push(more[i]);
        i += 1;
    }
}

} // verus!
