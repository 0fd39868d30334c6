//! Finding a value in a sequence.

use vstd::prelude::*;

verus! {

/// The first position at or after `from` where `s` holds `x`; the length
/// of `s` when there is none.
pub open spec fn position<T>(s: Seq<T>, x: T, from: int) -> int
    decreases s.len() - from,
{
    if 0 <= from < s.len() && s[from] != x {
        position(s, x, from + 1)
    } else {
        from
    }
}

/// The position lies between `from` and the end, holds `x` unless it is
/// the end, and nothing before it does.
pub proof fn lemma_position<T>(s: Seq<T>, x: T, from: int)
    requires
        0 <= from <= s.len(),
    ensures
        from <= position(s, x, from) <= s.len(),
        position(s, x, from) < s.len() ==> s[position(s, x, from)] == x,
        forall|j: int| from <= j < position(s, x, from) ==> s[j] != x,
    decreases s.len() - from,
{
    if from < s.len() && s[from] != x {
        lemma_position(s, x, from + 1);
    }
}

/// A sequence holds `x` exactly when `x` has a position in it.
pub proof fn lemma_position_contains<T>(s: Seq<T>, x: T)
    ensures
        s.contains(x) <==> position(s, x, 0) < s.len(),
        0 <= position(s, x, 0) <= s.len(),
{
    lemma_position(s, x, 0);
    if position(s, x, 0) < s.len() {
        assert(s[position(s, x, 0)] == x);
    }
}

/// In a sequence without repetitions, a value sits at its position and
/// nowhere else.
pub proof fn lemma_position_unique<T>(s: Seq<T>, i: int)
    requires
        0 <= i < s.len(),
        s.no_duplicates(),
    ensures
        position(s, s[i], 0) == i,
{
    lemma_position(s, s[i], 0);
}

/// Taking a value out of a sequence without repetitions leaves a
/// sequence without repetitions that no longer holds the value.
pub proof fn lemma_remove_absent<T>(s: Seq<T>, i: int)
    requires
        0 <= i < s.len(),
        s.no_duplicates(),
    ensures
        s.remove(i).no_duplicates(),
        !s.remove(i).contains(s[i]),
{
    let r = s.remove(i);
    assert forall|j: int, k: int| 0 <= j < r.len() && 0 <= k < r.len() && j != k implies r[j]
        != r[k] by {
        let jj = if j < i {
            j
        } else {
            j + 1
        };
        let kk = if k < i {
            k
        } else {
            k + 1
        };
        assert(r[j] == s[jj] && r[k] == s[kk]);
    }
    assert forall|j: int| 0 <= j < r.len() implies r[j] != s[i] by {
        let jj = if j < i {
            j
        } else {
            j + 1
        };
        assert(r[j] == s[jj]);
    }
}

/// A sequence with one more element holds that element and what it held
/// before.
pub proof fn lemma_push_contains<T>(s: Seq<T>, x: T)
    ensures
        forall|y: T| #[trigger] s.push(x).contains(y) <==> (s.contains(y) || y == x),
{
    assert forall|y: T| #[trigger] s.push(x).contains(y) <==> (s.contains(y) || y == x) by {
        if s.push(x).contains(y) {
            let k = choose|k: int| 0 <= k < s.push(x).len() && s.push(x)[k] == y;
            if k < s.len() {
                assert(s[k] == y);
            }
        }
        if s.contains(y) {
            let k = choose|k: int| 0 <= k < s.len() && s[k] == y;
            assert(s.push(x)[k] == y);
        }
        if y == x {
            assert(s.push(x)[s.len() as int] == y);
        }
    }
}

/// A new element keeps a sequence free of repetitions.
pub proof fn lemma_push_no_duplicates<T>(s: Seq<T>, x: T)
    requires
        s.no_duplicates(),
        !s.contains(x),
    ensures
        s.push(x).no_duplicates(),
{
    assert forall|i: int, j: int|
        0 <= i < s.push(x).len() && 0 <= j < s.push(x).len() && i != j implies s.push(x)[i]
        != s.push(x)[j] by {
        if i < s.len() {
            assert(s.contains(s[i]));
        }
        if j < s.len() {
            assert(s.contains(s[j]));
        }
    }
}

/// One more element of a sequence is in its next longer prefix, next to
/// those of the prefix before.
pub proof fn lemma_take_step<T>(s: Seq<T>, i: int)
    requires
        0 <= i < s.len(),
    ensures
        forall|x: T| #[trigger] s.take(i + 1).contains(x) <==> (s.take(i).contains(x) || x == s[i]),
{
    assert(s.take(i + 1) =~= s.take(i).push(s[i]));
    lemma_push_contains(s.take(i), s[i]);
}

/// In a sequence without repetitions, an element does not stand before
/// itself.
pub proof fn lemma_fresh<T>(s: Seq<T>, i: int)
    requires
        0 <= i < s.len(),
        s.no_duplicates(),
    ensures
        !s.take(i).contains(s[i]),
{
    if s.take(i).contains(s[i]) {
        let k = choose|k: int| 0 <= k < i && s.take(i)[k] == s[i];
        assert(s[k] == s[i]);
    }
}

/// Taking another value out of a sequence without repetitions moves a
/// value one place to the front if it stood behind, and not at all if it
/// stood before; a value that was not there is still not there.
pub proof fn lemma_position_remove<T>(s: Seq<T>, i: int, x: T)
    requires
        0 <= i < s.len(),
        s.no_duplicates(),
        x != s[i],
    ensures
        position(s, x, 0) < s.len() <==> position(s.remove(i), x, 0) < s.remove(i).len(),
        position(s, x, 0) < s.len() ==> position(s.remove(i), x, 0) == (if position(s, x, 0) < i {
            position(s, x, 0)
        } else {
            position(s, x, 0) - 1
        }),
{
    let r = s.remove(i);
    lemma_remove_absent(s, i);
    lemma_position(s, x, 0);
    lemma_position(r, x, 0);
    let k = position(s, x, 0);
    let k2 = position(r, x, 0);
    if k < s.len() {
        let want = if k < i {
            k
        } else {
            k - 1
        };
        assert(r[want] == x);
        lemma_position_unique(r, want);
    }
    if k2 < r.len() {
        let back = if k2 < i {
            k2
        } else {
            k2 + 1
        };
        assert(s[back] == x);
        lemma_position_unique(s, back);
    }
}

/// A new value at the end of a sequence stands at the old length, and
/// every other value stands where it stood.
pub proof fn lemma_position_push<T>(s: Seq<T>, y: T, x: T)
    requires
        s.no_duplicates(),
        !s.contains(y),
    ensures
        position(s.push(y), y, 0) == s.len(),
        x != y ==> (position(s, x, 0) < s.len() <==> position(s.push(y), x, 0) < s.len() + 1),
        x != y && position(s, x, 0) < s.len() ==> position(s.push(y), x, 0) == position(s, x, 0),
{
    let t = s.push(y);
    lemma_push_no_duplicates(s, y);
    assert(t[s.len() as int] == y);
    lemma_position_unique(t, s.len() as int);
    lemma_position(s, x, 0);
    lemma_position(t, x, 0);
    if x != y {
        let k = position(s, x, 0);
        let k2 = position(t, x, 0);
        if k < s.len() {
            assert(t[k] == x);
            lemma_position_unique(t, k);
        }
        if k2 < t.len() {
            assert(s[k2] == x);
            lemma_position_unique(s, k2);
        }
    }
}

} // verus!
