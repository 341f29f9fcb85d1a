//! The canonical order of usernames.
//!
//! Names are ordered by their characters' code points, the first difference
//! deciding and a proper prefix coming first. A canonical list is strictly
//! increasing in that order, so it holds no name twice, and it is determined
//! by the set of its names alone.

use vstd::prelude::*;
use vstd::std_specs::iter::IteratorSpec;

verus! {

/// Whether `a` comes before `b`, given that they agree before index `i`.
pub open spec fn precedes_from(a: Seq<char>, b: Seq<char>, i: int) -> bool
    decreases b.len() - i,
{
    if i >= b.len() {
        false
    } else if i >= a.len() {
        true
    } else if a[i] != b[i] {
        (a[i] as u32) < (b[i] as u32)
    } else {
        precedes_from(a, b, i + 1)
    }
}

/// Whether `a` comes strictly before `b` in code-point order.
pub open spec fn precedes(a: Seq<char>, b: Seq<char>) -> bool {
    precedes_from(a, b, 0)
}

/// Whether `a` and `b` both reach index `i` and agree before it.
pub open spec fn agree_before(a: Seq<char>, b: Seq<char>, i: int) -> bool {
    &&& 0 <= i <= a.len()
    &&& i <= b.len()
    &&& forall|k: int| 0 <= k < i ==> a[k] == b[k]
}

proof fn lemma_irreflexive_from(a: Seq<char>, i: int)
    requires
        0 <= i,
    ensures
        !precedes_from(a, a, i),
    decreases a.len() - i,
{
    if i < a.len() {
        lemma_irreflexive_from(a, i + 1);
    }
}

proof fn lemma_trichotomy_from(a: Seq<char>, b: Seq<char>, i: int)
    requires
        agree_before(a, b, i),
        !precedes_from(a, b, i),
        !precedes_from(b, a, i),
    ensures
        a == b,
    decreases a.len() - i,
{
    if i < a.len() && i < b.len() {
        assert(a[i] == b[i]) by {
            let x = a[i];
            let y = b[i];
            vstd::utf8::char_u32_cast(x, x as u32);
            vstd::utf8::char_u32_cast(y, y as u32);
        }
        lemma_trichotomy_from(a, b, i + 1);
    } else {
        assert(a =~= b);
    }
}

proof fn lemma_transitive_from(a: Seq<char>, b: Seq<char>, c: Seq<char>, i: int)
    requires
        0 <= i,
        precedes_from(a, b, i),
        precedes_from(b, c, i),
    ensures
        precedes_from(a, c, i),
    decreases c.len() - i,
{
    if i < a.len() && a[i] == b[i] && b[i] == c[i] {
        lemma_transitive_from(a, b, c, i + 1);
    }
}

/// No name comes before itself.
pub proof fn lemma_precedes_irreflexive(a: Seq<char>)
    ensures
        !precedes(a, a),
{
    lemma_irreflexive_from(a, 0);
}

/// Of two different names one comes before the other.
pub proof fn lemma_precedes_total(a: Seq<char>, b: Seq<char>)
    ensures
        a == b || precedes(a, b) || precedes(b, a),
{
    if !precedes(a, b) && !precedes(b, a) {
        lemma_trichotomy_from(a, b, 0);
    }
}

/// The order is transitive.
pub proof fn lemma_precedes_transitive(a: Seq<char>, b: Seq<char>, c: Seq<char>)
    requires
        precedes(a, b),
        precedes(b, c),
    ensures
        precedes(a, c),
{
    lemma_transitive_from(a, b, c, 0);
}

/// Whether every name of `s` comes strictly before the names after it.
pub open spec fn strictly_ordered(s: Seq<Seq<char>>) -> bool {
    forall|i: int, j: int| 0 <= i < j < s.len() ==> precedes(#[trigger] s[i], #[trigger] s[j])
}

/// Whether `r` is the canonical list of the names in `names`: strictly
/// ordered, with exactly the names that occur in `names`.
pub open spec fn is_canonical_of(r: Seq<Seq<char>>, names: Seq<Seq<char>>) -> bool {
    strictly_ordered(r) && r.to_set() == names.to_set()
}

/// A strictly ordered list is determined by the set of its names.
pub proof fn lemma_strictly_ordered_unique(r1: Seq<Seq<char>>, r2: Seq<Seq<char>>)
    requires
        strictly_ordered(r1),
        strictly_ordered(r2),
        r1.to_set() == r2.to_set(),
    ensures
        r1 == r2,
    decreases r1.len(),
{
    if r1.len() == 0 {
        if r2.len() > 0 {
            assert(r2.contains(r2[0]));
            assert(r2.to_set().contains(r2[0]));
            assert(r1.contains(r2[0]));
        }
        assert(r1 =~= r2);
    } else if r2.len() == 0 {
        assert(r1.contains(r1[0]));
        assert(r1.to_set().contains(r1[0]));
        assert(r2.contains(r1[0]));
    } else {
        let x1 = r1.last();
        let x2 = r2.last();
        assert(r1.contains(x1));
        assert(r1.to_set().contains(x1));
        assert(r2.contains(x1));
        let j = choose|j: int| 0 <= j < r2.len() && r2[j] == x1;
        assert(r2.contains(x2));
        assert(r2.to_set().contains(x2));
        assert(r1.contains(x2));
        let i = choose|i: int| 0 <= i < r1.len() && r1[i] == x2;
        lemma_precedes_irreflexive(x1);
        if j < r2.len() - 1 {
            assert(precedes(r2[j], r2[r2.len() - 1]));
            if i < r1.len() - 1 {
                assert(precedes(r1[i], r1[r1.len() - 1]));
                lemma_precedes_transitive(x1, x2, x1);
            }
        }
        assert(x1 == x2);
        let d1 = r1.drop_last();
        let d2 = r2.drop_last();
        assert forall|x: Seq<char>| d1.to_set().contains(x) <==> d2.to_set().contains(x) by {
            lemma_precedes_irreflexive(x);
            if d1.contains(x) {
                let k = choose|k: int| 0 <= k < d1.len() && d1[k] == x;
                assert(r1[k] == x);
                assert(precedes(r1[k], r1[r1.len() - 1]));
                assert(r1.contains(x));
                assert(r1.to_set().contains(x));
                assert(r2.contains(x));
                let m = choose|m: int| 0 <= m < r2.len() && r2[m] == x;
                assert(m < r2.len() - 1);
                assert(d2[m] == x);
            }
            if d2.contains(x) {
                let k = choose|k: int| 0 <= k < d2.len() && d2[k] == x;
                assert(r2[k] == x);
                assert(precedes(r2[k], r2[r2.len() - 1]));
                assert(r2.contains(x));
                assert(r2.to_set().contains(x));
                assert(r1.contains(x));
                let m = choose|m: int| 0 <= m < r1.len() && r1[m] == x;
                assert(m < r1.len() - 1);
                assert(d1[m] == x);
            }
        }
        assert(d1.to_set() =~= d2.to_set());
        assert(strictly_ordered(d1)) by {
            assert forall|i: int, j: int| 0 <= i < j < d1.len() implies precedes(
                #[trigger] d1[i],
                #[trigger] d1[j],
            ) by {
                assert(precedes(r1[i], r1[j]));
            }
        }
        assert(strictly_ordered(d2)) by {
            assert forall|i: int, j: int| 0 <= i < j < d2.len() implies precedes(
                #[trigger] d2[i],
                #[trigger] d2[j],
            ) by {
                assert(precedes(r2[i], r2[j]));
            }
        }
        lemma_strictly_ordered_unique(d1, d2);
        assert(r1 =~= d1.push(x1));
        assert(r2 =~= d2.push(x2));
    }
}

/// Decides the order of two names.
pub fn name_precedes(a: &str, b: &str) -> (r: bool)
    ensures
        r == precedes(a@, b@),
{
    let mut ia = a.chars();
    let mut ib = b.chars();
    let ghost mut i: int = 0;
    loop
        invariant
            0 <= i <= a@.len(),
            i <= b@.len(),
            ia.remaining() == a@.skip(i),
            ib.remaining() == b@.skip(i),
            precedes(a@, b@) == precedes_from(a@, b@, i),
        decreases a@.len() - i,
    {
        let ca = ia.next();
        let cb = ib.next();
        match cb {
            None => {
                return false;
            },
            Some(y) => {
                match ca {
                    None => {
                        return true;
                    },
                    Some(x) => {
                        if x != y {
                            return (x as u32) < (y as u32);
                        }
                        proof {
                            assert(a@.skip(i).drop_first() =~= a@.skip(i + 1));
                            assert(b@.skip(i).drop_first() =~= b@.skip(i + 1));
                            i = i + 1;
                        }
                    },
                }
            },
        }
    }
}

/// The canonical list of the names in `names`.
pub open spec fn canonical(names: Seq<Seq<char>>) -> Seq<Seq<char>> {
    choose|r: Seq<Seq<char>>| is_canonical_of(r, names)
}

/// Where `x` belongs in the strictly ordered list `r`: after the names that
/// come before it.
spec fn rank(r: Seq<Seq<char>>, x: Seq<char>) -> int
    decreases r.len(),
{
    if r.len() == 0 {
        0
    } else if precedes(r.last(), x) {
        r.len() as int
    } else {
        rank(r.drop_last(), x)
    }
}

proof fn lemma_rank(r: Seq<Seq<char>>, x: Seq<char>)
    requires
        strictly_ordered(r),
    ensures
        0 <= rank(r, x) <= r.len(),
        forall|j: int| 0 <= j < rank(r, x) ==> precedes(#[trigger] r[j], x),
        forall|j: int| rank(r, x) <= j < r.len() ==> !precedes(#[trigger] r[j], x),
    decreases r.len(),
{
    if r.len() == 0 {
    } else if precedes(r.last(), x) {
        assert forall|j: int| 0 <= j < r.len() implies precedes(#[trigger] r[j], x) by {
            if j < r.len() - 1 {
                assert(precedes(r[j], r[r.len() - 1]));
                lemma_precedes_transitive(r[j], r.last(), x);
            }
        }
    } else {
        let d = r.drop_last();
        assert forall|i: int, j: int| 0 <= i < j < d.len() implies precedes(
            #[trigger] d[i],
            #[trigger] d[j],
        ) by {
            assert(precedes(r[i], r[j]));
        }
        lemma_rank(d, x);
        assert forall|j: int| 0 <= j < rank(r, x) implies precedes(#[trigger] r[j], x) by {
            assert(r[j] == d[j]);
        }
        assert forall|j: int| rank(r, x) <= j < r.len() implies !precedes(#[trigger] r[j], x) by {
            if j < d.len() {
                assert(r[j] == d[j]);
            }
        }
    }
}

/// Putting a new name at its rank keeps a list strictly ordered.
proof fn lemma_insert_ordered(r: Seq<Seq<char>>, pos: int, x: Seq<char>)
    requires
        strictly_ordered(r),
        0 <= pos <= r.len(),
        forall|j: int| 0 <= j < pos ==> precedes(#[trigger] r[j], x),
        pos < r.len() ==> !precedes(r[pos], x) && r[pos] != x,
    ensures
        strictly_ordered(r.insert(pos, x)),
{
    let after = r.insert(pos, x);
    assert forall|i: int, j: int| 0 <= i < j < after.len() implies precedes(
        #[trigger] after[i],
        #[trigger] after[j],
    ) by {
        if j < pos {
            assert(precedes(r[i], r[j]));
        } else if j == pos {
            assert(precedes(r[i], x));
        } else if i == pos {
            lemma_precedes_total(r[pos], x);
            if j - 1 > pos {
                assert(precedes(r[pos], r[j - 1]));
                lemma_precedes_transitive(x, r[pos], r[j - 1]);
            }
        } else if i < pos {
            assert(precedes(r[i], r[j - 1]));
        } else {
            assert(precedes(r[i - 1], r[j - 1]));
        }
    }
}

/// Every list of names has a canonical list.
pub proof fn lemma_canonical_exists(names: Seq<Seq<char>>)
    ensures
        is_canonical_of(canonical(names), names),
    decreases names.len(),
{
    if names.len() == 0 {
        let e = Seq::<Seq<char>>::empty();
        assert(e.to_set() =~= names.to_set());
        assert(is_canonical_of(e, names));
    } else {
        let d = names.drop_last();
        let x = names.last();
        lemma_canonical_exists(d);
        let r = canonical(d);
        assert(names =~= d.push(x));
        d.lemma_push_to_set_commute(x);
        if r.contains(x) {
            assert(r.to_set().insert(x) =~= r.to_set());
            assert(is_canonical_of(r, names));
        } else {
            lemma_rank(r, x);
            let pos = rank(r, x);
            if pos < r.len() {
                assert(r.contains(r[pos]));
            }
            lemma_insert_ordered(r, pos, x);
            lemma_insert_to_set(r, pos, x);
            assert(is_canonical_of(r.insert(pos, x), names));
        }
    }
}

/// A list that is canonical for `names` is the canonical list of `names`.
pub proof fn lemma_canonical_is(r: Seq<Seq<char>>, names: Seq<Seq<char>>)
    requires
        is_canonical_of(r, names),
    ensures
        canonical(names) == r,
{
    lemma_strictly_ordered_unique(canonical(names), r);
}

/// Lists with the same names, in whatever order and however often, have the
/// same canonical list.
pub proof fn lemma_canonical_of_same_names(a: Seq<Seq<char>>, b: Seq<Seq<char>>)
    requires
        a.to_set() == b.to_set(),
    ensures
        canonical(a) == canonical(b),
{
    lemma_canonical_exists(a);
    lemma_canonical_exists(b);
    lemma_strictly_ordered_unique(canonical(a), canonical(b));
}

/// Putting a name into a list adds it to the list's set of names.
proof fn lemma_insert_to_set(s: Seq<Seq<char>>, pos: int, x: Seq<char>)
    requires
        0 <= pos <= s.len(),
    ensures
        s.insert(pos, x).to_set() == s.to_set().insert(x),
{
    let t = s.insert(pos, x);
    assert forall|y: Seq<char>| t.to_set().contains(y) <==> s.to_set().insert(x).contains(y) by {
        if t.contains(y) {
            let k = choose|k: int| 0 <= k < t.len() && t[k] == y;
            if k < pos {
                assert(s[k] == y);
                assert(s.contains(y));
            } else if k > pos {
                assert(s[k - 1] == y);
                assert(s.contains(y));
            }
        }
        if s.contains(y) {
            let k = choose|k: int| 0 <= k < s.len() && s[k] == y;
            if k < pos {
                assert(t[k] == y);
            } else {
                assert(t[k + 1] == y);
            }
            assert(t.contains(y));
        }
        if y == x {
            assert(t[pos] == y);
            assert(t.contains(y));
        }
    }
    assert(t.to_set() =~= s.to_set().insert(x));
}

/// The canonical list of the given names: each name once, in order.
pub fn canonical_usernames(list: &Vec<String>) -> (r: Vec<String>)
    ensures
        is_canonical_of(r.deep_view(), list.deep_view()),
        r.deep_view() == canonical(list.deep_view()),
{
    let mut r: Vec<String> = Vec::new();
    let mut k: usize = 0;
    assert(r.deep_view().to_set() =~= list.deep_view().take(0).to_set());
    while k < list.len()
        invariant
            k <= list.len(),
            strictly_ordered(r.deep_view()),
            r.deep_view().to_set() == list.deep_view().take(k as int).to_set(),
        decreases list.len() - k,
    {
        let name = &list[k];
        let ghost before = r.deep_view();
        let mut pos: usize = 0;
        while pos < r.len() && name_precedes(r[pos].as_str(), name.as_str())
            invariant
                pos <= r.len(),
                before == r.deep_view(),
                forall|j: int| 0 <= j < pos ==> precedes(#[trigger] before[j], name@),
            decreases r.len() - pos,
        {
            pos = pos + 1;
        }
        proof {
            let names = list.deep_view();
            assert(names.take(k + 1) =~= names.take(k as int).push(name@));
            names.take(k as int).lemma_push_to_set_commute(name@);
        }
        if pos < r.len() && r[pos] == *name {
            proof {
                assert(before[pos as int] == name@);
                assert(before.contains(name@));
                assert(before.to_set().insert(name@) =~= before.to_set());
            }
        } else {
            r.insert(pos, name.clone());
            proof {
                let after = r.deep_view();
                assert(after =~= before.insert(pos as int, name@));
                lemma_insert_to_set(before, pos as int, name@);
                lemma_insert_ordered(before, pos as int, name@);
            }
        }
        k = k + 1;
    }
    proof {
        assert(list.deep_view().take(k as int) =~= list.deep_view());
        lemma_canonical_is(r.deep_view(), list.deep_view());
    }
    r
}

} // verus!
