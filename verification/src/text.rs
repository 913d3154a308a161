//! Text as sequences of Unicode scalar values.
//!
//! Every contract of this crate speaks of a string through its view, a
//! `Seq<char>`. The functions here move between `String` and `Vec<char>` and
//! provide the few searches and comparisons the rest of the crate is built on.

use vstd::prelude::*;

verus! {

/// `String::push` appends one character to the end of the string.
///
/// Trusted: the standard library documents this behaviour; the contract
/// restates it over the string's view and is not proved here.
pub assume_specification[ String::push ](s: &mut String, ch: char)
    ensures
        final(s)@ == old(s)@.push(ch),
;

/// The characters of `s`, in order.
pub fn chars_of(s: &str) -> (v: Vec<char>)
    ensures
        v@ == s@,
{
    let mut v: Vec<char> = Vec::new();
    for c in it: s.chars()
        invariant
            it.seq() == s@,
            v@ == it.seq().take(it.index()),
    {
        v.push(c);
    }
    v
}

/// The string made of the characters `v[from..to]`.
pub fn string_of_range(v: &Vec<char>, from: usize, to: usize) -> (s: String)
    requires
        from <= to <= v.len(),
    ensures
        s@ == v@.subrange(from as int, to as int),
{
    let mut s = String::new();
    let mut i: usize = from;
    while i < to
        invariant
            from <= i <= to <= v.len(),
            s@ == v@.subrange(from as int, i as int),
        decreases to - i,
    {
        s.push(v[i]);
        i += 1;
    }
    s
}

/// The string made of the characters of `v`.
pub fn string_of(v: &Vec<char>) -> (s: String)
    ensures
        s@ == v@,
{
    let s = string_of_range(v, 0, v.len());
    assert(v@.subrange(0, v.len() as int) == v@);
    s
}

/// `a` followed by `b`.
pub fn appended(a: &str, b: &str) -> (s: String)
    ensures
        s@ == a@ + b@,
{
    let mut s = a.to_owned();
    s.append(b);
    s
}

/// `needle` stands in `hay` at index `i`.
pub open spec fn occurs_at(hay: Seq<char>, needle: Seq<char>, i: int) -> bool {
    &&& 0 <= i
    &&& i + needle.len() <= hay.len()
    &&& hay.subrange(i, i + needle.len()) == needle
}

/// `needle` stands somewhere in `hay`.
pub open spec fn occurs_in(hay: Seq<char>, needle: Seq<char>) -> bool {
    exists|i: int| occurs_at(hay, needle, i)
}

/// `i` is the least index at which `needle` stands in `hay`.
pub open spec fn is_first_occurrence(hay: Seq<char>, needle: Seq<char>, i: int) -> bool {
    &&& occurs_at(hay, needle, i)
    &&& forall|j: int| 0 <= j < i ==> !occurs_at(hay, needle, j)
}

/// The least index at which `needle` stands in `hay`, if it stands there at all.
pub open spec fn first_occurrence(hay: Seq<char>, needle: Seq<char>) -> Option<int> {
    if occurs_in(hay, needle) {
        Some(choose|i: int| is_first_occurrence(hay, needle, i))
    } else {
        None
    }
}

/// A first occurrence is the first occurrence.
pub proof fn lemma_first_occurrence_unique(hay: Seq<char>, needle: Seq<char>, i: int)
    requires
        is_first_occurrence(hay, needle, i),
    ensures
        first_occurrence(hay, needle) == Some(i),
{
    assert(occurs_at(hay, needle, i));
    let k = choose|k: int| is_first_occurrence(hay, needle, k);
    assert(is_first_occurrence(hay, needle, k));
    if k < i {
        assert(!occurs_at(hay, needle, k));
    }
    if i < k {
        assert(!occurs_at(hay, needle, i));
    }
}

fn matches_at(hay: &Vec<char>, needle: &Vec<char>, i: usize) -> (b: bool)
    requires
        i + needle.len() <= hay.len(),
    ensures
        b == occurs_at(hay@, needle@, i as int),
{
    let mut k: usize = 0;
    while k < needle.len()
        invariant
            k <= needle.len(),
            i + needle.len() <= hay.len(),
            hay@.subrange(i as int, i + k) == needle@.take(k as int),
        decreases needle.len() - k,
    {
        if hay[i + k] != needle[k] {
            proof {
                let window = hay@.subrange(i as int, i + needle.len());
                assert(window[k as int] == hay@[i + k]);
            }
            return false;
        }
        proof {
            assert(hay@.subrange(i as int, i + k + 1) == hay@.subrange(i as int, i + k).push(
                hay@[i + k],
            ));
            assert(needle@.take(k + 1) == needle@.take(k as int).push(needle@[k as int]));
        }
        k += 1;
    }
    assert(needle@.take(needle.len() as int) == needle@);
    true
}

/// The least index at which `needle` stands in `hay`.
pub fn find(hay: &Vec<char>, needle: &Vec<char>) -> (r: Option<usize>)
    ensures
        match r {
            Some(i) => first_occurrence(hay@, needle@) == Some(i as int),
            None => first_occurrence(hay@, needle@) is None,
        },
        r matches Some(i) ==> is_first_occurrence(hay@, needle@, i as int),
{
    if needle.len() > hay.len() {
        return None;
    }
    let last: usize = hay.len() - needle.len();
    let mut i: usize = 0;
    while i <= last
        invariant
            needle.len() <= hay.len(),
            last == hay.len() - needle.len(),
            i <= last + 1,
            forall|j: int| 0 <= j < i ==> !occurs_at(hay@, needle@, j),
        decreases last + 1 - i,
    {
        if matches_at(hay, needle, i) {
            proof {
                lemma_first_occurrence_unique(hay@, needle@, i as int);
            }
            return Some(i);
        }
        if i == last {
            return None;
        }
        i += 1;
    }
    None
}

/// `needle` stands somewhere in `hay`.
pub fn contains(hay: &Vec<char>, needle: &Vec<char>) -> (b: bool)
    ensures
        b == occurs_in(hay@, needle@),
{
    find(hay, needle).is_some()
}

/// `s` begins with `prefix`.
pub open spec fn starts_with(s: Seq<char>, prefix: Seq<char>) -> bool {
    prefix.len() <= s.len() && s.take(prefix.len() as int) == prefix
}

/// `s` ends with `suffix`.
pub open spec fn ends_with(s: Seq<char>, suffix: Seq<char>) -> bool {
    suffix.len() <= s.len() && s.skip(s.len() - suffix.len()) == suffix
}

/// Does `s` begin with `prefix`?
pub fn has_prefix(s: &Vec<char>, prefix: &Vec<char>) -> (b: bool)
    ensures
        b == starts_with(s@, prefix@),
{
    if prefix.len() > s.len() {
        return false;
    }
    let b = matches_at(s, prefix, 0);
    assert(s@.subrange(0, prefix.len() as int) == s@.take(prefix.len() as int));
    b
}

/// Does `s` end with `suffix`?
pub fn has_suffix(s: &Vec<char>, suffix: &Vec<char>) -> (b: bool)
    ensures
        b == ends_with(s@, suffix@),
{
    if suffix.len() > s.len() {
        return false;
    }
    let at: usize = s.len() - suffix.len();
    let b = matches_at(s, suffix, at);
    assert(s@.subrange(at as int, at + suffix.len()) == s@.skip(s.len() - suffix.len()));
    b
}

/// Are `a` and `b` the same sequence of characters?
pub fn same_chars(a: &Vec<char>, b: &Vec<char>) -> (r: bool)
    ensures
        r == (a@ == b@),
{
    if a.len() != b.len() {
        return false;
    }
    let r = matches_at(a, b, 0);
    assert(a@.subrange(0, b.len() as int) == a@);
    r
}

/// Do `a` and `b` hold the same text?
pub fn same_text(a: &str, b: &str) -> (r: bool)
    ensures
        r == (a@ == b@),
{
    let x = chars_of(a);
    let y = chars_of(b);
    same_chars(&x, &y)
}

/// The greatest index at which `c` stands in `s`, if it stands there at all.
pub open spec fn last_index_of(s: Seq<char>, c: char) -> Option<int>
    decreases s.len(),
{
    if s.len() == 0 {
        None
    } else if s.last() == c {
        Some(s.len() - 1)
    } else {
        last_index_of(s.drop_last(), c)
    }
}

/// What `last_index_of` returns is the last place where `c` stands.
pub proof fn lemma_last_index_of(s: Seq<char>, c: char)
    ensures
        match last_index_of(s, c) {
            Some(i) => 0 <= i < s.len() && s[i] == c && forall|j: int|
                i < j < s.len() ==> s[j] != c,
            None => forall|j: int| 0 <= j < s.len() ==> s[j] != c,
        },
    decreases s.len(),
{
    if s.len() > 0 && s.last() != c {
        let rest = s.drop_last();
        lemma_last_index_of(rest, c);
        assert forall|j: int| 0 <= j < rest.len() implies rest[j] == s[j] by {}
        match last_index_of(rest, c) {
            Some(i) => {
                assert forall|j: int| i < j < s.len() implies s[j] != c by {
                    if j < rest.len() {
                        assert(rest[j] != c);
                    }
                }
            },
            None => {
                assert forall|j: int| 0 <= j < s.len() implies s[j] != c by {
                    if j < rest.len() {
                        assert(rest[j] != c);
                    }
                }
            },
        }
    }
}

/// The greatest index at which `c` stands in `s`.
pub fn rfind_char(s: &Vec<char>, c: char) -> (r: Option<usize>)
    ensures
        match r {
            Some(i) => last_index_of(s@, c) == Some(i as int),
            None => last_index_of(s@, c) is None,
        },
{
    let mut i: usize = s.len();
    assert(s@.take(s.len() as int) == s@);
    while i > 0
        invariant
            i <= s.len(),
            last_index_of(s@, c) == last_index_of(s@.take(i as int), c),
        decreases i,
    {
        if s[i - 1] == c {
            return Some(i - 1);
        }
        proof {
            assert(s@.take(i as int).drop_last() == s@.take(i - 1));
        }
        i -= 1;
    }
    None
}

/// The character for the decimal digit `d`.
pub open spec fn digit(d: nat) -> char
    recommends
        d < 10,
{
    (48 + d) as char
}

/// `n` written in decimal, without leading zeros.
pub open spec fn decimal(n: nat) -> Seq<char>
    decreases n,
{
    if n < 10 {
        seq![digit(n)]
    } else {
        decimal(n / 10).push(digit(n % 10))
    }
}

/// The number that a sequence of decimal digits stands for.
pub open spec fn decimal_value(digits: Seq<char>) -> nat
    decreases digits.len(),
{
    if digits.len() == 0 {
        0
    } else {
        (decimal_value(digits.drop_last()) * 10 + (digits.last() as int - 48)) as nat
    }
}

/// Reading back what `decimal` wrote gives the number.
pub proof fn lemma_decimal_value(n: nat)
    ensures
        decimal_value(decimal(n)) == n,
        decimal(n).len() >= 1,
    decreases n,
{
    if n < 10 {
        let d = decimal(n);
        assert(d.drop_last() == Seq::<char>::empty());
        assert(decimal_value(d.drop_last()) == 0);
    } else {
        lemma_decimal_value(n / 10);
        let d = decimal(n);
        assert(d.drop_last() == decimal(n / 10));
    }
}

/// Different numbers are written differently.
pub proof fn lemma_decimal_injective(a: nat, b: nat)
    requires
        decimal(a) == decimal(b),
    ensures
        a == b,
{
    lemma_decimal_value(a);
    lemma_decimal_value(b);
}

fn push_decimal(n: u128, out: &mut Vec<char>)
    ensures
        final(out)@ == old(out)@ + decimal(n as nat),
    decreases n,
{
    if n >= 10 {
        push_decimal(n / 10, out);
    }
    let d: u8 = (n % 10) as u8;
    out.push((48u8 + d) as char);
    proof {
        if n < 10 {
            assert(old(out)@.push(digit(n as nat)) == old(out)@ + seq![digit(n as nat)]);
        } else {
            assert((old(out)@ + decimal((n / 10) as nat)).push(digit((n % 10) as nat)) == old(
                out,
            )@ + decimal((n / 10) as nat).push(digit((n % 10) as nat)));
        }
    }
}

/// `n` written in decimal.
pub fn decimal_chars(n: u128) -> (r: Vec<char>)
    ensures
        r@ == decimal(n as nat),
{
    let mut r: Vec<char> = Vec::new();
    push_decimal(n, &mut r);
    assert(Seq::<char>::empty() + decimal(n as nat) == decimal(n as nat));
    r
}

/// The least index at which `c` stands in `s`, if it stands there at all.
pub open spec fn first_index_of(s: Seq<char>, c: char) -> Option<int>
    decreases s.len(),
{
    if s.len() == 0 {
        None
    } else if s[0] == c {
        Some(0)
    } else {
        match first_index_of(s.drop_first(), c) {
            Some(i) => Some(i + 1),
            None => None,
        }
    }
}

/// Where `c` stands at `i` and nowhere before, `i` is its first index; where
/// it stands nowhere, there is none.
pub proof fn lemma_first_index_of(s: Seq<char>, c: char, i: int)
    requires
        0 <= i <= s.len(),
        forall|j: int| 0 <= j < i ==> s[j] != c,
        i < s.len() ==> s[i] == c,
    ensures
        first_index_of(s, c) == if i < s.len() {
            Some(i)
        } else {
            None
        },
    decreases s.len(),
{
    if s.len() > 0 && i > 0 {
        let rest = s.drop_first();
        assert forall|j: int| 0 <= j < i - 1 implies rest[j] != c by {
            assert(rest[j] == s[j + 1]);
        }
        lemma_first_index_of(rest, c, i - 1);
    }
}

/// What `first_index_of` returns is the first place where `c` stands.
pub proof fn lemma_first_index_is_first(s: Seq<char>, c: char)
    ensures
        match first_index_of(s, c) {
            Some(i) => 0 <= i < s.len() && s[i] == c && forall|j: int| 0 <= j < i ==> s[j] != c,
            None => forall|j: int| 0 <= j < s.len() ==> s[j] != c,
        },
    decreases s.len(),
{
    if s.len() > 0 && s[0] != c {
        let rest = s.drop_first();
        lemma_first_index_is_first(rest, c);
        assert forall|j: int| 0 <= j < rest.len() implies rest[j] == s[j + 1] by {}
        match first_index_of(rest, c) {
            Some(i) => {
                assert forall|j: int| 0 <= j < i + 1 implies s[j] != c by {
                    if j > 0 {
                        assert(rest[j - 1] != c);
                    }
                }
            },
            None => {
                assert forall|j: int| 0 <= j < s.len() implies s[j] != c by {
                    if j > 0 {
                        assert(rest[j - 1] != c);
                    }
                }
            },
        }
    }
}

/// `line` without the carriage return at its end, where it has one.
pub open spec fn without_cr(line: Seq<char>) -> Seq<char> {
    if line.len() > 0 && line.last() == '\r' {
        line.drop_last()
    } else {
        line
    }
}

/// The lines of `s`. A line ends at a line feed, which is not part of it, nor
/// is a carriage return just before the line feed. What follows the last line
/// feed is a line too, unless it is empty.
pub open spec fn lines(s: Seq<char>) -> Seq<Seq<char>>
    decreases s.len(),
{
    if s.len() == 0 {
        Seq::empty()
    } else {
        match first_index_of(s, '\n') {
            Some(i) => if 0 <= i < s.len() {
                seq![without_cr(s.take(i))] + lines(s.skip(i + 1))
            } else {
                Seq::empty()
            },
            None => seq![s],
        }
    }
}

/// The character sequences that `rows` hold.
pub open spec fn row_views(rows: Seq<Vec<char>>) -> Seq<Seq<char>> {
    rows.map_values(|row: Vec<char>| row@)
}

/// The lines of `v`.
pub fn split_lines(v: &Vec<char>) -> (r: Vec<Vec<char>>)
    ensures
        row_views(r@) == lines(v@),
{
    let mut out: Vec<Vec<char>> = Vec::new();
    let mut start: usize = 0;
    let mut i: usize = 0;
    proof {
        assert(v@.skip(0) == v@);
        assert(row_views(out@) == Seq::<Seq<char>>::empty());
        assert(Seq::<Seq<char>>::empty() + lines(v@) == lines(v@));
    }
    while i < v.len()
        invariant
            start <= i <= v.len(),
            row_views(out@) + lines(v@.skip(start as int)) == lines(v@),
            forall|k: int| start <= k < i ==> v@[k] != '\n',
        decreases v.len() - i,
    {
        if v[i] == '\n' {
            let end: usize = if i > start && v[i - 1] == '\r' {
                i - 1
            } else {
                i
            };
            let mut line: Vec<char> = Vec::new();
            let mut k: usize = start;
            while k < end
                invariant
                    start <= k <= end <= v.len(),
                    line@ == v@.subrange(start as int, k as int),
                decreases end - k,
            {
                line.push(v[k]);
                k += 1;
            }
            proof {
                let rest = v@.skip(start as int);
                assert forall|j: int| 0 <= j < i - start implies rest[j] != '\n' by {
                    assert(rest[j] == v@[start + j]);
                }
                lemma_first_index_of(rest, '\n', i - start);
                assert(rest.take(i - start) == v@.subrange(start as int, i as int));
                assert(without_cr(rest.take(i - start)) == line@);
                assert(rest.skip(i - start + 1) == v@.skip(i + 1));
                let before = row_views(out@);
                assert(before + (seq![line@] + lines(v@.skip(i + 1))) == before.push(line@)
                    + lines(v@.skip(i + 1)));
            }
            let ghost before = row_views(out@);
            out.push(line);
            proof {
                assert(row_views(out@) == before.push(line@));
            }
            start = i + 1;
        }
        i += 1;
    }
    if start < v.len() {
        let mut line: Vec<char> = Vec::new();
        let mut k: usize = start;
        while k < v.len()
            invariant
                start <= k <= v.len(),
                line@ == v@.subrange(start as int, k as int),
            decreases v.len() - k,
        {
            line.push(v[k]);
            k += 1;
        }
        proof {
            let rest = v@.skip(start as int);
            assert forall|j: int| 0 <= j < rest.len() implies rest[j] != '\n' by {
                assert(rest[j] == v@[start + j]);
            }
            lemma_first_index_of(rest, '\n', rest.len() as int);
            assert(line@ == rest);
        }
        let ghost before = row_views(out@);
        out.push(line);
        proof {
            assert(row_views(out@) == before.push(line@));
            assert(before.push(line@) == before + seq![line@]);
        }
    } else {
        proof {
            assert(v@.skip(start as int).len() == 0);
            assert(row_views(out@) + Seq::<Seq<char>>::empty() == row_views(out@));
        }
    }
    out
}

} // verus!
