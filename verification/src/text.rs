//! Character-level helpers shared by the text passes.
//!
//! Every text is modelled by the sequence of its characters.

use vstd::prelude::*;

verus! {

/// `String::push` appends one character to the end of the string.
pub assume_specification[ String::push ](s: &mut String, c: char)
    ensures
        final(s)@ == old(s)@.push(c),
;

/// The characters with the Unicode `White_Space` property.
pub open spec fn is_space(c: char) -> bool {
    ||| '\t' <= c <= '\r'
    ||| c == ' '
    ||| c == '\u{85}'
    ||| c == '\u{a0}'
    ||| c == '\u{1680}'
    ||| '\u{2000}' <= c <= '\u{200a}'
    ||| '\u{2028}' <= c <= '\u{2029}'
    ||| c == '\u{202f}'
    ||| c == '\u{205f}'
    ||| c == '\u{3000}'
}

/// `char::is_whitespace` tells whether the character has the `White_Space`
/// property, whose members [`is_space`] lists.
pub assume_specification[ char::is_whitespace ](c: char) -> (r: bool)
    ensures
        r == is_space(c),
;

/// `s` without the white space it starts with.
pub open spec fn trim_start(s: Seq<char>) -> Seq<char>
    decreases s.len(),
{
    if s.len() > 0 && is_space(s[0]) {
        trim_start(s.drop_first())
    } else {
        s
    }
}

/// `s` without the white space it ends with.
pub open spec fn trim_end(s: Seq<char>) -> Seq<char>
    decreases s.len(),
{
    if s.len() > 0 && is_space(s.last()) {
        trim_end(s.drop_last())
    } else {
        s
    }
}

/// `s` without the white space at either end.
pub open spec fn trimmed(s: Seq<char>) -> Seq<char> {
    trim_end(trim_start(s))
}

/// A text that may be missing, as a sequence of characters.
pub open spec fn text_or_none(t: Option<String>) -> Option<Seq<char>> {
    match t {
        Some(s) => Some(s@),
        None => None,
    }
}

/// The characters of `s`, in order.
pub fn to_chars(s: &str) -> (v: Vec<char>)
    ensures
        v@ == s@,
{
    let mut v: Vec<char> = Vec::new();
    for c in it: s.chars()
        invariant
            v@ == it.seq().take(it.index() as int),
            it.seq() == s@,
    {
        v.push(c);
    }
    v
}

/// The text made of the characters `v[from..to]`.
pub fn text_of(v: &Vec<char>, from: usize, to: usize) -> (s: String)
    requires
        from <= to <= v@.len(),
    ensures
        s@ == v@.subrange(from as int, to as int),
{
    let mut s: String = String::new();
    let mut i: usize = from;
    while i < to
        invariant
            from <= i <= to <= v@.len(),
            s@ == v@.subrange(from as int, i as int),
        decreases to - i,
    {
        s.push(v[i]);
        i = i + 1;
    }
    s
}

/// Whether two texts hold the same characters.
pub fn same_text(a: &str, b: &str) -> (r: bool)
    ensures
        r == (a@ == b@),
{
    let x: Vec<char> = to_chars(a);
    let y: Vec<char> = to_chars(b);
    if x.len() != y.len() {
        return false;
    }
    let mut i: usize = 0;
    while i < x.len()
        invariant
            i <= x@.len(),
            x@ == a@,
            y@ == b@,
            x@.len() == y@.len(),
            x@.take(i as int) == y@.take(i as int),
        decreases x@.len() - i,
    {
        if x[i] != y[i] {
            return false;
        }
        assert(x@.take(i + 1) == x@.take(i as int).push(x@[i as int]));
        assert(y@.take(i + 1) == y@.take(i as int).push(y@[i as int]));
        i = i + 1;
    }
    assert(x@.take(i as int) == x@);
    assert(y@.take(i as int) == y@);
    true
}

/// `a` followed by `b`.
pub fn joined(a: &str, b: &str) -> (s: String)
    ensures
        s@ == a@ + b@,
{
    let mut s: String = a.to_owned();
    s.append(b);
    s
}

/// The text without the white space at either end.
pub fn trim(s: &str) -> (r: String)
    ensures
        r@ == trimmed(s@),
{
    let v: Vec<char> = to_chars(s);
    let (from, to): (usize, usize) = trim_within(&v, 0, v.len());
    assert(v@.subrange(0, v@.len() as int) == v@);
    text_of(&v, from, to)
}

/// What trimming leaves is a stretch of the text that has no white space at
/// its ends.
pub proof fn lemma_trimmed(s: Seq<char>) -> (r: (int, int))
    ensures
        0 <= r.0 <= r.1 <= s.len(),
        trimmed(s) == s.subrange(r.0, r.1),
        trimmed(s).len() > 0 ==> !is_space(trimmed(s)[0]) && !is_space(trimmed(s).last()),
    decreases s.len(),
{
    if s.len() > 0 && is_space(s[0]) {
        let r = lemma_trimmed(s.drop_first());
        assert(s.drop_first().subrange(r.0, r.1) == s.subrange(r.0 + 1, r.1 + 1));
        (r.0 + 1, r.1 + 1)
    } else {
        (0, lemma_trim_end(s))
    }
}

proof fn lemma_trim_end(s: Seq<char>) -> (e: int)
    ensures
        0 <= e <= s.len(),
        trim_end(s) == s.subrange(0, e),
        trim_end(s).len() > 0 ==> !is_space(trim_end(s).last()),
    decreases s.len(),
{
    if s.len() > 0 && is_space(s.last()) {
        let e = lemma_trim_end(s.drop_last());
        assert(s.drop_last().subrange(0, e) == s.subrange(0, e));
        e
    } else {
        assert(s.subrange(0, s.len() as int) == s);
        s.len() as int
    }
}

/// A text without white space at its ends is left alone by trimming.
pub proof fn lemma_trimmed_solid(s: Seq<char>)
    requires
        s.len() > 0 ==> !is_space(s[0]) && !is_space(s.last()),
    ensures
        trimmed(s) == s,
{
}

/// The digit for `d`.
pub open spec fn digit(d: nat) -> char {
    if d == 0 {
        '0'
    } else if d == 1 {
        '1'
    } else if d == 2 {
        '2'
    } else if d == 3 {
        '3'
    } else if d == 4 {
        '4'
    } else if d == 5 {
        '5'
    } else if d == 6 {
        '6'
    } else if d == 7 {
        '7'
    } else if d == 8 {
        '8'
    } else {
        '9'
    }
}

/// `n` in decimal.
pub open spec fn decimal(n: nat) -> Seq<char>
    decreases n,
{
    if n < 10 {
        seq![digit(n)]
    } else {
        decimal(n / 10).push(digit(n % 10))
    }
}

fn digit_of(d: u64) -> (c: char)
    requires
        d < 10,
    ensures
        c == digit(d as nat),
{
    if d == 0 {
        '0'
    } else if d == 1 {
        '1'
    } else if d == 2 {
        '2'
    } else if d == 3 {
        '3'
    } else if d == 4 {
        '4'
    } else if d == 5 {
        '5'
    } else if d == 6 {
        '6'
    } else if d == 7 {
        '7'
    } else if d == 8 {
        '8'
    } else {
        '9'
    }
}

/// `n` written in decimal.
pub fn decimal_text(n: u64) -> (s: String)
    ensures
        s@ == decimal(n as nat),
    decreases n,
{
    let mut s: String = if n < 10 {
        String::new()
    } else {
        decimal_text(n / 10)
    };
    s.push(digit_of(n % 10));
    s
}

/// An ASCII capital as its small letter, and anything else as it is.
pub open spec fn ascii_lower(c: char) -> char {
    if 'A' <= c <= 'Z' {
        ((c as int) + 32) as char
    } else {
        c
    }
}

/// Whether two characters are the same but for the case of an ASCII letter.
pub open spec fn same_but_case(a: char, b: char) -> bool {
    ascii_lower(a) == ascii_lower(b)
}

/// Whether `t` starts with `p`, whatever the case of its ASCII letters.
pub open spec fn starts_with_any_case(t: Seq<char>, p: Seq<char>) -> bool {
    &&& p.len() <= t.len()
    &&& forall|k: int| 0 <= k < p.len() ==> same_but_case(#[trigger] t[k], p[k])
}

/// The small letter of an ASCII capital, and anything else as it is.
fn lower(c: char) -> (l: char)
    ensures
        l == ascii_lower(c),
{
    if 'A' <= c && c <= 'Z' {
        (c as u8 + 32) as char
    } else {
        c
    }
}

/// Whether the characters `v[from..to]` start with `prefix`, whatever the case
/// of its ASCII letters.
pub(crate) fn starts_any_case(v: &Vec<char>, from: usize, to: usize, prefix: &Vec<char>) -> (r: bool)
    requires
        from <= to <= v@.len(),
    ensures
        r == starts_with_any_case(v@.subrange(from as int, to as int), prefix@),
{
    let ghost t = v@.subrange(from as int, to as int);
    if prefix.len() > to - from {
        return false;
    }
    let mut k: usize = 0;
    while k < prefix.len()
        invariant
            k <= prefix@.len() <= to - from,
            from <= to <= v@.len(),
            t == v@.subrange(from as int, to as int),
            forall|j: int| 0 <= j < k ==> same_but_case(#[trigger] t[j], prefix@[j]),
        decreases prefix@.len() - k,
    {
        assert(t[k as int] == v@[from + k]);
        if lower(v[from + k]) != lower(prefix[k]) {
            return false;
        }
        k = k + 1;
    }
    true
}

/// Where the text left by trimming `v[from..to]` starts and ends.
pub(crate) fn trim_within(v: &Vec<char>, from: usize, to: usize) -> (r: (usize, usize))
    requires
        from <= to <= v@.len(),
    ensures
        from <= r.0 <= r.1 <= to,
        v@.subrange(r.0 as int, r.1 as int) == trimmed(v@.subrange(from as int, to as int)),
{
    let ghost t = v@.subrange(from as int, to as int);
    let mut i: usize = from;
    assert(t.skip(0) == t);
    while i < to && v[i].is_whitespace()
        invariant
            from <= i <= to <= v@.len(),
            t == v@.subrange(from as int, to as int),
            trim_start(t.skip(i - from)) == trim_start(t),
        decreases to - i,
    {
        assert(t.skip(i - from).drop_first() == t.skip(i + 1 - from));
        i = i + 1;
    }
    assert(trim_start(t) == t.skip(i - from));
    let mut j: usize = to;
    assert(v@.subrange(i as int, j as int) == t.skip(i - from));
    while j > i && v[j - 1].is_whitespace()
        invariant
            from <= i <= j <= to <= v@.len(),
            trim_end(v@.subrange(i as int, j as int)) == trimmed(t),
        decreases j,
    {
        assert(v@.subrange(i as int, j as int).drop_last() == v@.subrange(i as int, j - 1));
        j = j - 1;
    }
    (i, j)
}

/// What is trimmed off a text is white space at its ends, and all of it: what
/// is left neither starts nor ends with any.
pub proof fn law_trimming_takes_the_white_space_at_the_ends(s: Seq<char>) -> (r: (int, int))
    ensures
        0 <= r.0 <= r.1 <= s.len(),
        trimmed(s) == s.subrange(r.0, r.1),
        forall|k: int| 0 <= k < r.0 ==> is_space(#[trigger] s[k]),
        forall|k: int| r.1 <= k < s.len() ==> is_space(#[trigger] s[k]),
        r.0 < r.1 ==> !is_space(s[r.0]) && !is_space(s[r.1 - 1]),
{
    let n = s.len() as int;
    let from = lemma_first_solid(s);
    let rest = s.skip(from);
    let to = lemma_last_solid(rest);
    assert(trimmed(s) =~= s.subrange(from, from + to));
    assert forall|k: int| from + to <= k < n implies is_space(#[trigger] s[k]) by {
        assert(rest[k - from] == s[k]);
    }
    if to > 0 {
        assert(rest[to - 1] == s[from + to - 1]);
        assert(rest[0] == s[from]);
    }
    (from, from + to)
}

proof fn lemma_first_solid(s: Seq<char>) -> (i: int)
    ensures
        0 <= i <= s.len(),
        trim_start(s) == s.skip(i),
        forall|k: int| 0 <= k < i ==> is_space(#[trigger] s[k]),
        i < s.len() ==> !is_space(s[i]),
    decreases s.len(),
{
    if s.len() > 0 && is_space(s[0]) {
        let less = s.drop_first();
        let i = lemma_first_solid(less);
        assert(less.skip(i) =~= s.skip(i + 1));
        assert forall|k: int| 0 <= k < i + 1 implies is_space(#[trigger] s[k]) by {
            if k > 0 {
                assert(less[k - 1] == s[k]);
            }
        }
        i + 1
    } else {
        assert(s.skip(0) =~= s);
        0
    }
}

proof fn lemma_last_solid(s: Seq<char>) -> (i: int)
    ensures
        0 <= i <= s.len(),
        trim_end(s) == s.take(i),
        forall|k: int| i <= k < s.len() ==> is_space(#[trigger] s[k]),
        i > 0 ==> !is_space(s[i - 1]),
    decreases s.len(),
{
    if s.len() > 0 && is_space(s.last()) {
        let less = s.drop_last();
        let i = lemma_last_solid(less);
        assert(less.take(i) =~= s.take(i));
        assert forall|k: int| i <= k < s.len() implies is_space(#[trigger] s[k]) by {
            if k < less.len() {
                assert(less[k] == s[k]);
            }
        }
        i
    } else {
        assert(s.take(s.len() as int) =~= s);
        s.len() as int
    }
}

/// The number that decimal digits stand for.
pub open spec fn decimal_value(s: Seq<char>) -> int
    decreases s.len(),
{
    if s.len() == 0 {
        0
    } else {
        10 * decimal_value(s.drop_last()) + (s.last() as int - '0' as int)
    }
}

/// A number is written with decimal digits that stand for it, and without a
/// zero in front but for zero itself.
pub proof fn law_decimals_stand_for_the_number(n: nat)
    ensures
        decimal_value(decimal(n)) == n,
        decimal(n).len() > 0,
        forall|k: int| 0 <= k < decimal(n).len() ==> '0' <= #[trigger] decimal(n)[k] <= '9',
        n > 0 ==> decimal(n)[0] != '0',
    decreases n,
{
    let s = decimal(n);
    if n >= 10 {
        law_decimals_stand_for_the_number(n / 10);
        assert(s.drop_last() =~= decimal(n / 10));
        assert(s.last() == digit(n % 10));
        assert(digit(n % 10) as int - '0' as int == n % 10);
        assert(s[0] == decimal(n / 10)[0]);
        assert forall|k: int| 0 <= k < s.len() implies '0' <= #[trigger] s[k] <= '9' by {
            if k < s.len() - 1 {
                assert(s[k] == decimal(n / 10)[k]);
            }
        }
    } else {
        assert(s.len() == 1);
        assert(s.drop_last() =~= Seq::<char>::empty());
        assert(decimal_value(s.drop_last()) == 0);
        assert(s.last() == digit(n));
    }
}

/// Two characters are the same but for case if they are the same, or the small
/// and the capital form of an ASCII letter, which are 32 apart.
pub proof fn law_case_is_that_of_ascii_letters(a: char, b: char)
    ensures
        same_but_case(a, b) <==> {
            ||| a == b
            ||| 'A' <= a <= 'Z' && b as int == a as int + 32
            ||| 'A' <= b <= 'Z' && a as int == b as int + 32
        },
{
}

/// A text starts with another in any case if it is at least as long and each
/// character of the other stands there in some case, and only then.
pub proof fn law_starts_are_compared_letter_by_letter(t: Seq<char>, p: Seq<char>, rest: Seq<char>)
    ensures
        t.len() == p.len() && (forall|k: int|
            0 <= k < p.len() ==> same_but_case(#[trigger] t[k], p[k])) ==> starts_with_any_case(
            t + rest,
            p,
        ),
        starts_with_any_case(t, p) ==> p.len() <= t.len() && forall|k: int|
            0 <= k < p.len() ==> same_but_case(#[trigger] t[k], p[k]),
        starts_with_any_case(p + rest, p),
{
    let u = t + rest;
    if t.len() == p.len() && (forall|k: int|
        0 <= k < p.len() ==> same_but_case(#[trigger] t[k], p[k])) {
        assert forall|k: int| 0 <= k < p.len() implies same_but_case(#[trigger] u[k], p[k]) by {
            assert(u[k] == t[k]);
        }
    }
    let v = p + rest;
    assert forall|k: int| 0 <= k < p.len() implies same_but_case(#[trigger] v[k], p[k]) by {
        assert(v[k] == p[k]);
    }
}

/// A text that may be missing stands for its characters.
pub proof fn law_text_stands_for_its_characters(t: String)
    ensures
        text_or_none(Some(t)) == Some(t@),
        text_or_none(None) is None,
{
}

} // verus!
