//! Searching transcriptions for a text, in any case, and cutting out a page of
//! what was found.

use crate::store::RawRow;
use crate::text::to_chars;
use vstd::prelude::*;

verus! {

/// The lower case of a character outside Latin-1, which may take more than one
/// character.
pub uninterp spec fn unicode_lowercase(c: char) -> Seq<char>;

/// A capital of Latin-1, which holds those of Italian, as its small letter, and
/// anything else as it is.
pub open spec fn latin_lower(c: char) -> char {
    if 'A' <= c <= 'Z' || ('À' <= c <= 'Þ' && c != '×') {
        ((c as int) + 32) as char
    } else {
        c
    }
}

/// A character in lower case.
pub open spec fn small(c: char) -> Seq<char> {
    if c <= '\u{ff}' {
        seq![latin_lower(c)]
    } else {
        unicode_lowercase(c)
    }
}

/// The characters that `char::to_lowercase` gives for a character.
///
/// Claimed of it is that they are the character's alone, whatever stands around
/// it and whatever the locale. In Latin-1 it is one character: the letter 32
/// places on for the ASCII capitals and for those from `À` to `Þ`, among which
/// the multiplication sign is no letter, and the character itself otherwise.
#[verifier::external_body]
fn lowercase(c: char) -> (r: Vec<char>)
    ensures
        c <= '\u{ff}' ==> r@ == seq![latin_lower(c)],
        c > '\u{ff}' ==> r@ == unicode_lowercase(c),
{
    c.to_lowercase().collect()
}

/// A text in lower case, character by character.
pub open spec fn folded(t: Seq<char>) -> Seq<char>
    decreases t.len(),
{
    if t.len() == 0 {
        Seq::empty()
    } else {
        folded(t.drop_last()) + small(t.last())
    }
}

fn fold(t: &str) -> (v: Vec<char>)
    ensures
        v@ == folded(t@),
{
    let chars: Vec<char> = to_chars(t);
    let mut v: Vec<char> = Vec::new();
    let mut i: usize = 0;
    assert(chars@.take(0) == Seq::<char>::empty());
    while i < chars.len()
        invariant
            i <= chars@.len(),
            v@ == folded(chars@.take(i as int)),
        decreases chars@.len() - i,
    {
        assert(chars@.take(i + 1).drop_last() == chars@.take(i as int));
        let mut lower: Vec<char> = lowercase(chars[i]);
        v.append(&mut lower);
        i = i + 1;
    }
    assert(chars@.take(i as int) == chars@);
    v
}

/// Whether `q` stands in `t` from `k` on.
pub open spec fn stands_at(t: Seq<char>, q: Seq<char>, k: int) -> bool {
    0 <= k <= t.len() - q.len() && t.subrange(k, k + q.len()) == q
}

/// Whether `t` holds `q`, in any case.
pub open spec fn is_hit(t: Seq<char>, q: Seq<char>) -> bool {
    exists|k: int| #[trigger] stands_at(folded(t), folded(q), k)
}

fn starts_here(t: &Vec<char>, q: &Vec<char>, k: usize) -> (r: bool)
    requires
        k + q@.len() <= t@.len(),
    ensures
        r == stands_at(t@, q@, k as int),
{
    let len: usize = t.len();
    let mut i: usize = 0;
    while i < q.len()
        invariant
            i <= q@.len(),
            len == t@.len(),
            k + q@.len() <= len,
            forall|j: int| 0 <= j < i ==> t@[k + j] == #[trigger] q@[j],
        decreases q@.len() - i,
    {
        if t[k + i] != q[i] {
            assert(t@.subrange(k as int, k + q@.len())[i as int] != q@[i as int]);
            return false;
        }
        i = i + 1;
    }
    assert(t@.subrange(k as int, k + q@.len()) == q@);
    true
}

/// Whether a text holds `query`, which is in lower case, in any case.
fn holds(text: &str, query: &Vec<char>) -> (r: bool)
    ensures
        r == exists|k: int| #[trigger] stands_at(folded(text@), query@, k),
{
    let t: Vec<char> = fold(text);
    let len: usize = t.len();
    if query.len() > len {
        return false;
    }
    let last: usize = len - query.len();
    let mut k: usize = 0;
    while k < last
        invariant
            k <= last,
            last + query@.len() == len,
            len == t@.len(),
            t@ == folded(text@),
            forall|j: int| 0 <= j < k ==> !#[trigger] stands_at(t@, query@, j),
        decreases last - k,
    {
        if starts_here(&t, query, k) {
            return true;
        }
        k = k + 1;
    }
    let r: bool = starts_here(&t, query, last);
    proof {
        if !r && exists|j: int| #[trigger] stands_at(t@, query@, j) {
            let j = choose|j: int| #[trigger] stands_at(t@, query@, j);
            assert(j < last || j == last);
        }
    }
    r
}

/// Those of `rows` whose transcription holds `query`, in any case.
pub open spec fn hits<D, P>(rows: Seq<RawRow<D, P>>, query: Seq<char>) -> Seq<RawRow<D, P>> {
    rows.filter(|row: RawRow<D, P>| is_hit(row.transcription@, query))
}

/// The rows whose transcription holds `query`, in any case, in their order.
pub fn matching<D, P>(rows: Vec<RawRow<D, P>>, query: &str) -> (found: Vec<RawRow<D, P>>)
    ensures
        found@ == hits(rows@, query@),
{
    let wanted: Vec<char> = fold(query);
    let ghost all = rows@;
    let ghost keep = |row: RawRow<D, P>| is_hit(row.transcription@, query@);
    let mut found: Vec<RawRow<D, P>> = Vec::new();
    let ghost mut done: int = 0;
    proof {
        reveal(Seq::filter);
        assert(all.take(0).filter(keep) == Seq::<RawRow<D, P>>::empty());
    }
    for row in it: rows
        invariant
            it.seq() == all,
            done == it.index(),
            wanted@ == folded(query@),
            keep == (|row: RawRow<D, P>| is_hit(row.transcription@, query@)),
            found@ == all.take(done).filter(keep),
    {
        proof {
            assert(row == all[done]);
            reveal(Seq::filter);
            assert(all.take(done + 1).drop_last() == all.take(done));
            assert(all.take(done + 1).last() == all[done]);
            done = done + 1;
        }
        if holds(row.transcription.as_str(), &wanted) {
            found.push(row);
        }
    }
    assert(all.take(done) == all);
    found
}

/// What is left of `s` after `offset` items, and of that the first `limit`. A
/// negative limit is none, and a negative offset is 0.
pub open spec fn page<T>(s: Seq<T>, limit: int, offset: int) -> Seq<T> {
    let rest = if offset <= 0 {
        s
    } else if offset >= s.len() {
        Seq::empty()
    } else {
        s.skip(offset)
    };
    if limit < 0 || limit >= rest.len() {
        rest
    } else {
        rest.take(limit)
    }
}

/// At most `limit` items, after the first `offset`. A negative limit is none,
/// and a negative offset is 0.
pub fn page_of<T>(items: Vec<T>, limit: i64, offset: i64) -> (r: Vec<T>)
    ensures
        r@ == page(items@, limit as int, offset as int),
{
    let len: usize = items.len();
    let ghost all = items@;
    let mut r: Vec<T> = Vec::new();
    let mut passed: usize = 0;
    for item in it: items
        invariant
            it.seq() == all,
            len == all.len(),
            passed == it.index(),
            r@ == page(all.take(passed as int), limit as int, offset as int),
    {
        proof {
            assert(item == all[passed as int]);
            assert(all.take(passed + 1) == all.take(passed as int).push(item));
        }
        if offset as i128 <= passed as i128 && (limit < 0 || (r.len() as i128) < limit as i128) {
            r.push(item);
        }
        passed = passed + 1;
        assert(r@ == page(all.take(passed as int), limit as int, offset as int));
    }
    assert(all.take(passed as int) == all);
    r
}

proof fn lemma_folded_join(a: Seq<char>, b: Seq<char>)
    ensures
        folded(a + b) == folded(a) + folded(b),
    decreases b.len(),
{
    if b.len() == 0 {
        assert(a + b == a);
        assert(folded(a) + folded(b) == folded(a));
    } else {
        lemma_folded_join(a, b.drop_last());
        assert((a + b).drop_last() == a + b.drop_last());
        assert((a + b).last() == b.last());
        assert(folded(a + b) == folded(a) + folded(b));
    }
}

proof fn lemma_folded_same(a: Seq<char>, b: Seq<char>)
    requires
        a.len() == b.len(),
        forall|j: int| 0 <= j < a.len() ==> small(#[trigger] a[j]) == small(b[j]),
    ensures
        folded(a) == folded(b),
    decreases a.len(),
{
    if a.len() > 0 {
        let n = a.len() - 1;
        assert(small(a[n]) == small(b[n]));
        assert forall|j: int| 0 <= j < n implies small(#[trigger] a.drop_last()[j]) == small(
            b.drop_last()[j],
        ) by {
            assert(a.drop_last()[j] == a[j]);
        }
        lemma_folded_same(a.drop_last(), b.drop_last());
    }
}

proof fn lemma_folded_latin(t: Seq<char>)
    requires
        forall|j: int| 0 <= j < t.len() ==> #[trigger] t[j] <= '\u{ff}',
    ensures
        folded(t).len() == t.len(),
        forall|j: int| 0 <= j < t.len() ==> #[trigger] folded(t)[j] == latin_lower(t[j]),
    decreases t.len(),
{
    if t.len() > 0 {
        let less = t.drop_last();
        assert forall|j: int| 0 <= j < less.len() implies #[trigger] less[j] <= '\u{ff}' by {
            assert(less[j] == t[j]);
        }
        lemma_folded_latin(less);
        assert(t[t.len() - 1] <= '\u{ff}');
        assert forall|j: int| 0 <= j < t.len() implies #[trigger] folded(t)[j] == latin_lower(
            t[j],
        ) by {
            if j < less.len() {
                assert(folded(t)[j] == folded(less)[j]);
            }
        }
    }
}

/// Whether `q` stands in `t` from `k` on, in any case.
pub open spec fn stands_in_any_case(t: Seq<char>, q: Seq<char>, k: int) -> bool {
    &&& 0 <= k <= t.len() - q.len()
    &&& forall|j: int| 0 <= j < q.len() ==> small(#[trigger] t[k + j]) == small(q[j])
}

/// A search finds every text that holds what is searched for, wherever it
/// stands and whatever the case. No character of it has another meaning.
pub proof fn law_search_finds_it(t: Seq<char>, q: Seq<char>, k: int)
    requires
        stands_in_any_case(t, q, k),
    ensures
        is_hit(t, q),
{
    let before = t.take(k);
    let there = t.subrange(k, k + q.len());
    let after = t.skip(k + q.len());
    assert(t == before + there + after);
    lemma_folded_join(before + there, after);
    lemma_folded_join(before, there);
    assert forall|j: int| 0 <= j < q.len() implies small(#[trigger] there[j]) == small(q[j]) by {
        assert(there[j] == t[k + j]);
    }
    lemma_folded_same(there, q);
    let at = folded(before).len() as int;
    assert(folded(t).subrange(at, at + folded(q).len()) == folded(q));
    assert(stands_at(folded(t), folded(q), at));
}

/// Among texts of Latin-1, which holds the letters of Italian, a search finds
/// nothing else.
pub proof fn law_search_is_literal(t: Seq<char>, q: Seq<char>)
    requires
        forall|j: int| 0 <= j < t.len() ==> #[trigger] t[j] <= '\u{ff}',
        forall|j: int| 0 <= j < q.len() ==> #[trigger] q[j] <= '\u{ff}',
    ensures
        is_hit(t, q) <==> exists|k: int| #[trigger] stands_in_any_case(t, q, k),
{
    lemma_folded_latin(t);
    lemma_folded_latin(q);
    if is_hit(t, q) {
        let k = choose|k: int| #[trigger] stands_at(folded(t), folded(q), k);
        assert forall|j: int| 0 <= j < q.len() implies small(#[trigger] t[k + j]) == small(
            q[j],
        ) by {
            assert(folded(t).subrange(k, k + q.len())[j] == folded(q)[j]);
            assert(folded(t)[k + j] == latin_lower(t[k + j]));
        }
        assert(stands_in_any_case(t, q, k));
    }
    if exists|k: int| #[trigger] stands_in_any_case(t, q, k) {
        let k = choose|k: int| #[trigger] stands_in_any_case(t, q, k);
        law_search_finds_it(t, q, k);
    }
}

/// A search for nothing finds every text.
pub proof fn law_empty_search_finds_all(t: Seq<char>)
    ensures
        is_hit(t, Seq::empty()),
{
    law_search_finds_it(t, Seq::empty(), 0);
}

/// What is found keeps the order that the rows came in, and is among them.
pub proof fn law_search_keeps_order<D, P>(rows: Seq<RawRow<D, P>>, query: Seq<char>) -> (at: Seq<
    int,
>)
    ensures
        at.len() == hits(rows, query).len(),
        forall|i: int|
            0 <= i < at.len() ==> 0 <= #[trigger] at[i] < rows.len() && hits(rows, query)[i]
                == rows[at[i]] && is_hit(rows[at[i]].transcription@, query),
        forall|i: int, j: int| 0 <= i < j < at.len() ==> #[trigger] at[i] < #[trigger] at[j],
        forall|k: int|
            0 <= k < rows.len() && is_hit((#[trigger] rows[k]).transcription@, query)
                ==> at.contains(k),
    decreases rows.len(),
{
    reveal(Seq::filter);
    if rows.len() == 0 {
        Seq::empty()
    } else {
        let less = rows.drop_last();
        let before = law_search_keeps_order(less, query);
        let n = rows.len() - 1;
        if is_hit(rows[n].transcription@, query) {
            let at = before.push(n);
            assert forall|k: int|
                0 <= k < rows.len() && is_hit((#[trigger] rows[k]).transcription@, query) implies
                at.contains(k) by {
                if k < n {
                    assert(rows[k] == less[k]);
                    let i = choose|i: int| 0 <= i < before.len() && before[i] == k;
                    assert(at[i] == k);
                } else {
                    assert(at[before.len() as int] == k);
                }
            }
            at
        } else {
            assert forall|k: int|
                0 <= k < rows.len() && is_hit((#[trigger] rows[k]).transcription@, query) implies
                before.contains(k) by {
                assert(rows[k] == less[k]);
            }
            before
        }
    }
}

/// Page after page, everything is shown once: a page together with all that
/// comes after it is all that comes from its start on.
pub proof fn law_pages_follow<T>(s: Seq<T>, limit: int, offset: int)
    requires
        0 <= limit,
        0 <= offset,
    ensures
        page(s, limit, offset) + page(s, -1, offset + limit) == page(s, -1, offset),
        page(s, -1, 0) == s,
        page(s, limit, offset).len() <= limit,
{
    assert(page(s, limit, offset) + page(s, -1, offset + limit) == page(s, -1, offset));
}

/// The small and the capital form of a letter read the same: those of ASCII and
/// those with accents, which are 32 apart. No other two characters of Latin-1
/// do.
pub proof fn law_letters_read_the_same_in_any_case(a: char, b: char)
    requires
        a <= '\u{ff}',
        b <= '\u{ff}',
    ensures
        small(a) == small(b) <==> {
            ||| a == b
            ||| b as int == a as int + 32 && ('A' <= a <= 'Z' || ('\u{c0}' <= a <= '\u{de}' && a
                != '\u{d7}'))
            ||| a as int == b as int + 32 && ('A' <= b <= 'Z' || ('\u{c0}' <= b <= '\u{de}' && b
                != '\u{d7}'))
        },
{
    let x = small(a);
    let y = small(b);
    assert(x[0] == latin_lower(a) && y[0] == latin_lower(b));
    if latin_lower(a) == latin_lower(b) {
        assert(x =~= y);
    }
}

/// What stands in a text letter by letter is found, in whatever script it is
/// and whatever stands around it.
pub proof fn law_what_stands_there_is_found(a: Seq<char>, q: Seq<char>, b: Seq<char>)
    ensures
        is_hit(a + q + b, q),
{
    let t = a + q + b;
    assert forall|j: int| 0 <= j < q.len() implies small(#[trigger] t[a.len() + j]) == small(
        q[j],
    ) by {
        assert(t[a.len() + j] == q[j]);
    }
    law_search_finds_it(t, q, a.len() as int);
}

/// A page starts behind `offset` items, or with the first where that is
/// negative, and has `limit` items, or all where that is negative, as far as
/// there are any.
pub proof fn law_page_is_cut_out<T>(s: Seq<T>, limit: int, offset: int)
    ensures
        ({
            let from = if offset < 0 {
                0
            } else {
                offset
            };
            let left = if from < s.len() {
                s.len() - from
            } else {
                0
            };
            let shown = page(s, limit, offset);
            &&& shown.len() == if 0 <= limit < left {
                limit
            } else {
                left
            }
            &&& forall|i: int| 0 <= i < shown.len() ==> #[trigger] shown[i] == s[from + i]
        }),
{
}

/// A text reads in lower case as its characters do, one behind the other.
pub proof fn law_texts_fold_letter_by_letter(a: Seq<char>, b: Seq<char>, c: char)
    ensures
        folded(a + b) == folded(a) + folded(b),
        folded(seq![c]) == small(c),
        folded(Seq::<char>::empty()) == Seq::<char>::empty(),
        c > '\u{ff}' ==> small(c) == unicode_lowercase(c),
{
    lemma_folded_join(a, b);
    let s = seq![c];
    assert(s.drop_last() =~= Seq::<char>::empty());
    assert(folded(s.drop_last()) =~= Seq::<char>::empty());
    assert(folded(s) =~= small(c));
}

/// A search finds a text exactly if what is searched for stands somewhere in it,
/// both in lower case.
pub proof fn law_search_finds_only_what_stands_there(t: Seq<char>, q: Seq<char>)
    ensures
        is_hit(t, q) <==> exists|a: Seq<char>, b: Seq<char>|
            folded(t) == #[trigger] (a + folded(q) + b),
{
    let u = folded(t);
    let v = folded(q);
    if is_hit(t, q) {
        let k = choose|k: int| #[trigger] stands_at(u, v, k);
        assert(u =~= u.take(k) + v + u.skip(k + v.len()));
    }
    if exists|a: Seq<char>, b: Seq<char>| u == #[trigger] (a + v + b) {
        let (a, b) = choose|a: Seq<char>, b: Seq<char>| u == #[trigger] (a + v + b);
        let k = a.len() as int;
        assert(u.subrange(k, k + v.len()) =~= v);
        assert(stands_at(u, v, k));
    }
}

} // verus!
