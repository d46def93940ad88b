//! Names in order.

use crate::text::to_chars;
use vstd::prelude::*;

verus! {

/// Whether `a` comes before `b` or is the same, character by character.
pub open spec fn precedes(a: Seq<char>, b: Seq<char>) -> bool
    decreases a.len(),
{
    if a.len() == 0 {
        true
    } else if b.len() == 0 {
        false
    } else if a[0] == b[0] {
        precedes(a.drop_first(), b.drop_first())
    } else {
        a[0] < b[0]
    }
}

/// Each name comes before those behind it.
pub open spec fn is_sorted(names: Seq<Seq<char>>) -> bool {
    forall|i: int, j: int| 0 <= i < j < names.len() ==> precedes(#[trigger] names[i], #[trigger] names[j])
}

/// The names as sequences of characters.
pub open spec fn views(names: Seq<String>) -> Seq<Seq<char>> {
    Seq::new(names.len(), |i: int| names[i]@)
}

pub proof fn lemma_views(names: Seq<String>)
    ensures
        views(names).len() == names.len(),
        forall|i: int| 0 <= i < names.len() ==> #[trigger] views(names)[i] == names[i]@,
{
}

proof fn lemma_total(a: Seq<char>, b: Seq<char>)
    ensures
        precedes(a, b) || precedes(b, a),
    decreases a.len(),
{
    if a.len() > 0 && b.len() > 0 {
        lemma_total(a.drop_first(), b.drop_first());
    }
}

proof fn lemma_transitive(a: Seq<char>, b: Seq<char>, c: Seq<char>)
    requires
        precedes(a, b),
        precedes(b, c),
    ensures
        precedes(a, c),
    decreases a.len(),
{
    if a.len() > 0 && b.len() > 0 && c.len() > 0 && a[0] == b[0] && b[0] == c[0] {
        lemma_transitive(a.drop_first(), b.drop_first(), c.drop_first());
    }
}

/// Whether `a` comes before `b` or is the same.
fn comes_first(a: &str, b: &str) -> (r: bool)
    ensures
        r == precedes(a@, b@),
{
    let x: Vec<char> = to_chars(a);
    let y: Vec<char> = to_chars(b);
    let mut i: usize = 0;
    assert(x@.skip(0) == x@ && y@.skip(0) == y@);
    while i < x.len() && i < y.len()
        invariant
            i <= x@.len(),
            i <= y@.len(),
            x@ == a@,
            y@ == b@,
            precedes(a@, b@) == precedes(x@.skip(i as int), y@.skip(i as int)),
        decreases x@.len() - i,
    {
        assert(x@.skip(i as int)[0] == x@[i as int] && y@.skip(i as int)[0] == y@[i as int]);
        if x[i] != y[i] {
            return x[i] < y[i];
        }
        assert(x@.skip(i as int).drop_first() == x@.skip(i + 1));
        assert(y@.skip(i as int).drop_first() == y@.skip(i + 1));
        i = i + 1;
    }
    i == x.len()
}

/// Puts `name` where it belongs in a sorted list.
pub(crate) fn insert_sorted(names: &mut Vec<String>, name: String)
    requires
        is_sorted(views(old(names)@)),
    ensures
        is_sorted(views(final(names)@)),
        views(final(names)@).to_multiset() == views(old(names)@).to_multiset().insert(name@),
{
    let ghost before = views(names@);
    let mut i: usize = 0;
    while i < names.len() && comes_first(names[i].as_str(), name.as_str())
        invariant
            i <= names@.len(),
            before == views(names@),
            forall|k: int| 0 <= k < i ==> precedes(#[trigger] before[k], name@),
        decreases names@.len() - i,
    {
        i = i + 1;
    }
    let ghost n = name@;
    proof {
        if i < before.len() {
            lemma_total(before[i as int], n);
            assert forall|k: int| i <= k < before.len() implies precedes(
                n,
                #[trigger] before[k],
            ) by {
                if k > i {
                    lemma_transitive(n, before[i as int], before[k]);
                }
            }
        }
    }
    names.insert(i, name);
    let ghost after = views(names@);
    proof {
        assert(after == before.insert(i as int, n));
        vstd::seq_lib::to_multiset_insert(before, i as int, n);
        assert forall|p: int, q: int| 0 <= p < q < after.len() implies precedes(
            #[trigger] after[p],
            #[trigger] after[q],
        ) by {
            if p < i && q == i {
                assert(after[p] == before[p]);
            } else if p == i {
                assert(after[q] == before[q - 1]);
            } else if p < i && q > i {
                assert(after[p] == before[p] && after[q] == before[q - 1]);
            } else if p > i {
                assert(after[p] == before[p - 1] && after[q] == before[q - 1]);
            } else {
                assert(after[p] == before[p] && after[q] == before[q]);
            }
        }
    }
}

/// Names are in dictionary order: the first character in which two names differ
/// decides, and a name comes before what it is the start of.
pub proof fn law_first_difference_decides(
    start: Seq<char>,
    x: char,
    a: Seq<char>,
    y: char,
    b: Seq<char>,
)
    ensures
        x != y ==> (precedes(start.push(x) + a, start.push(y) + b) <==> x < y),
        precedes(start, start + b),
        precedes(start + b, start) ==> b.len() == 0,
    decreases start.len(),
{
    let p = start.push(x) + a;
    let q = start.push(y) + b;
    let r = start + b;
    if start.len() > 0 {
        let less = start.drop_first();
        law_first_difference_decides(less, x, a, y, b);
        assert(p[0] == start[0] && q[0] == start[0] && r[0] == start[0]);
        assert(p.drop_first() == less.push(x) + a);
        assert(q.drop_first() == less.push(y) + b);
        assert(r.drop_first() == less + b);
    } else {
        assert(p[0] == x && q[0] == y);
    }
}

/// Names in order come one after the other, and whatever stands further back
/// does not come first.
pub proof fn law_sorted_names_are_in_order(names: Seq<Seq<char>>, i: int, j: int)
    requires
        is_sorted(names),
        0 <= i < j < names.len(),
    ensures
        precedes(names[i], names[j]),
        names[i] != names[j] ==> !precedes(names[j], names[i]),
{
    if precedes(names[j], names[i]) {
        lemma_antisymmetric(names[i], names[j]);
    }
}

proof fn lemma_antisymmetric(a: Seq<char>, b: Seq<char>)
    requires
        precedes(a, b),
        precedes(b, a),
    ensures
        a == b,
    decreases a.len(),
{
    if a.len() > 0 && b.len() > 0 {
        lemma_antisymmetric(a.drop_first(), b.drop_first());
        assert(a =~= seq![a[0]] + a.drop_first());
        assert(b =~= seq![b[0]] + b.drop_first());
    } else {
        assert(a =~= b);
    }
}

} // verus!
