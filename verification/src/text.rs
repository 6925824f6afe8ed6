//! Text primitives over sequences of characters.
//!
//! Every executable function here is tied to a spec function on `Seq<char>`,
//! the view of `str` and `String`.
use vstd::prelude::*;
use vstd::string::StringExecFns;

use crate::paths::{after_last, lemma_after_last};

verus! {

/// `String::push` of the standard library: appends one character.
pub assume_specification[ String::push ](s: &mut String, c: char)
    ensures
        final(s)@ == old(s)@.push(c),
;

// ---------------------------------------------------------------------------
// Specifications
// ---------------------------------------------------------------------------

/// The Unicode `White_Space` property.
pub open spec fn is_space(c: char) -> bool {
    ||| 9 <= c as u32 <= 13
    ||| c as u32 == 0x20
    ||| c as u32 == 0x85
    ||| c as u32 == 0xa0
    ||| c as u32 == 0x1680
    ||| 0x2000 <= c as u32 <= 0x200a
    ||| c as u32 == 0x2028
    ||| c as u32 == 0x2029
    ||| c as u32 == 0x202f
    ||| c as u32 == 0x205f
    ||| c as u32 == 0x3000
}

pub open spec fn is_digit(c: char) -> bool {
    '0' <= c && c <= '9'
}

pub open spec fn is_alnum(c: char) -> bool {
    is_digit(c) || ('a' <= c && c <= 'z') || ('A' <= c && c <= 'Z')
}

/// Whether `p` occurs in `s` at index `i`.
pub open spec fn occurs_at(s: Seq<char>, p: Seq<char>, i: int) -> bool {
    0 <= i && i + p.len() <= s.len() && s.subrange(i, i + p.len()) == p
}

/// Whether `p` occurs anywhere in `s`.
pub open spec fn occurs(s: Seq<char>, p: Seq<char>) -> bool {
    exists|i: int| occurs_at(s, p, i)
}

/// The number of characters before the first `c`, all of them if there is none.
pub open spec fn before(s: Seq<char>, c: char) -> nat
    decreases s.len(),
{
    if s.len() == 0 || s[0] == c {
        0
    } else {
        1 + before(s.skip(1), c)
    }
}

/// `s` without a carriage return at its end.
pub open spec fn drop_cr(s: Seq<char>) -> Seq<char> {
    if s.len() > 0 && s.last() == '\r' {
        s.drop_last()
    } else {
        s
    }
}

/// The lines of `s`: ended by `\n` or `\r\n`, neither of which is kept; the
/// last ending is optional.
pub open spec fn lines_of(s: Seq<char>) -> Seq<Seq<char>>
    decreases s.len(),
{
    let n = before(s, '\n');
    if s.len() == 0 {
        Seq::empty()
    } else if n >= s.len() {
        seq![s]
    } else {
        seq![drop_cr(s.take(n as int))] + lines_of(s.skip(n as int + 1))
    }
}

pub open spec fn trim_left(s: Seq<char>) -> Seq<char>
    decreases s.len(),
{
    if s.len() > 0 && is_space(s[0]) {
        trim_left(s.skip(1))
    } else {
        s
    }
}

pub open spec fn trim_right(s: Seq<char>) -> Seq<char>
    decreases s.len(),
{
    if s.len() > 0 && is_space(s.last()) {
        trim_right(s.drop_last())
    } else {
        s
    }
}

/// `s` without whitespace at either end.
pub open spec fn trimmed(s: Seq<char>) -> Seq<char> {
    trim_right(trim_left(s))
}

/// A word separator: whitespace, and the comma too where `comma` is set.
pub open spec fn is_sep(c: char, comma: bool) -> bool {
    is_space(c) || (comma && c == ',')
}

/// The number of characters before the first separator.
pub open spec fn word_len(s: Seq<char>, comma: bool) -> nat
    decreases s.len(),
{
    if s.len() == 0 || is_sep(s[0], comma) {
        0
    } else {
        1 + word_len(s.skip(1), comma)
    }
}

/// The maximal runs of characters that are no separators, in order.
pub open spec fn words_of(s: Seq<char>, comma: bool) -> Seq<Seq<char>>
    decreases s.len(),
{
    let n = word_len(s, comma);
    if s.len() == 0 {
        Seq::empty()
    } else if n == 0 || n > s.len() {
        words_of(s.skip(1), comma)
    } else {
        seq![s.take(n as int)] + words_of(s.skip(n as int), comma)
    }
}

/// The number that a run of digits spells.
pub open spec fn number_of(s: Seq<char>) -> nat
    decreases s.len(),
{
    if s.len() == 0 {
        0
    } else {
        number_of(s.drop_last()) * 10 + (s.last() as u32 - '0' as u32) as nat
    }
}

pub open spec fn all_digits(s: Seq<char>) -> bool {
    s.len() > 0 && forall|i: int| 0 <= i < s.len() ==> is_digit(#[trigger] s[i])
}

/// What an unsigned integer up to `max` parses to: digits, at least one, after
/// an optional plus sign.
pub open spec fn parsed(s: Seq<char>, max: nat) -> Option<nat> {
    let d = if s.len() > 0 && s[0] == '+' {
        s.skip(1)
    } else {
        s
    };
    if all_digits(d) && number_of(d) <= max {
        Some(number_of(d))
    } else {
        None
    }
}

pub open spec fn digit(d: nat) -> char {
    (48 + d) as char
}

/// The decimal digits of `n`.
pub open spec fn decimal_of(n: nat) -> Seq<char>
    decreases n,
{
    if n < 10 {
        seq![digit(n)]
    } else {
        decimal_of(n / 10).push(digit(n % 10))
    }
}

/// `parts`, with `sep` between each two.
pub open spec fn joined(parts: Seq<Seq<char>>, sep: Seq<char>) -> Seq<char>
    decreases parts.len(),
{
    if parts.len() == 0 {
        Seq::empty()
    } else if parts.len() == 1 {
        parts[0]
    } else {
        joined(parts.drop_last(), sep) + sep + parts.last()
    }
}

/// `s` with every `c` replaced by `with`.
pub open spec fn replaced(s: Seq<char>, c: char, with: Seq<char>) -> Seq<char>
    decreases s.len(),
{
    if s.len() == 0 {
        Seq::empty()
    } else if s.last() == c {
        replaced(s.drop_last(), c, with) + with
    } else {
        replaced(s.drop_last(), c, with).push(s.last())
    }
}

pub open spec fn lower(c: char) -> char {
    if 'A' <= c && c <= 'Z' {
        (c as u32 + 32) as char
    } else {
        c
    }
}

/// `s` with the ASCII letters in lower case.
pub open spec fn lowered(s: Seq<char>) -> Seq<char> {
    s.map_values(|c: char| lower(c))
}

/// The lexicographic order of strings.
pub open spec fn less(a: Seq<char>, b: Seq<char>) -> bool
    decreases a.len(),
{
    if b.len() == 0 {
        false
    } else if a.len() == 0 {
        true
    } else if a[0] != b[0] {
        a[0] < b[0]
    } else {
        less(a.skip(1), b.skip(1))
    }
}

/// Strictly ascending, so without duplicates.
pub open spec fn ascending(v: Seq<Seq<char>>) -> bool {
    forall|i: int, j: int| 0 <= i < j < v.len() ==> less(#[trigger] v[i], #[trigger] v[j])
}

// ---------------------------------------------------------------------------
// Lemmas
// ---------------------------------------------------------------------------

pub proof fn lemma_before(s: Seq<char>, c: char)
    ensures
        before(s, c) <= s.len(),
        forall|i: int| 0 <= i < before(s, c) ==> #[trigger] s[i] != c,
        before(s, c) < s.len() ==> s[before(s, c) as int] == c,
    decreases s.len(),
{
    if s.len() > 0 && s[0] != c {
        lemma_before(s.skip(1), c);
        assert forall|i: int| 0 <= i < before(s, c) implies #[trigger] s[i] != c by {
            if i > 0 {
                assert(s.skip(1)[i - 1] == s[i]);
            }
        }
    }
}

/// The index of the first `c` is the only one with no `c` before it.
pub proof fn lemma_before_is(s: Seq<char>, c: char, n: int)
    requires
        0 <= n <= s.len(),
        forall|i: int| 0 <= i < n ==> #[trigger] s[i] != c,
        n < s.len() ==> s[n] == c,
    ensures
        before(s, c) == n,
{
    lemma_before(s, c);
    let b = before(s, c) as int;
    if b < n {
        assert(s[b] == c);
    } else if n < b {
        assert(s[n] == c);
    }
}

pub proof fn lemma_word_len(s: Seq<char>, comma: bool)
    ensures
        word_len(s, comma) <= s.len(),
        forall|i: int| 0 <= i < word_len(s, comma) ==> !is_sep(#[trigger] s[i], comma),
        word_len(s, comma) < s.len() ==> is_sep(s[word_len(s, comma) as int], comma),
    decreases s.len(),
{
    if s.len() > 0 && !is_sep(s[0], comma) {
        lemma_word_len(s.skip(1), comma);
        assert forall|i: int| 0 <= i < word_len(s, comma) implies !is_sep(#[trigger] s[i], comma) by {
            if i > 0 {
                assert(s.skip(1)[i - 1] == s[i]);
            }
        }
    }
}

pub proof fn lemma_word_len_is(s: Seq<char>, comma: bool, n: int)
    requires
        0 <= n <= s.len(),
        forall|i: int| 0 <= i < n ==> !is_sep(#[trigger] s[i], comma),
        n < s.len() ==> is_sep(s[n], comma),
    ensures
        word_len(s, comma) == n,
{
    lemma_word_len(s, comma);
    let b = word_len(s, comma) as int;
    if b < n {
        assert(is_sep(s[b], comma));
    } else if n < b {
        assert(is_sep(s[n], comma));
    }
}

/// No string comes before itself.
pub proof fn less_irreflexive(a: Seq<char>)
    ensures
        !less(a, a),
    decreases a.len(),
{
    if a.len() > 0 {
        less_irreflexive(a.skip(1));
    }
}

/// The order of strings is transitive.
pub proof fn less_transitive(a: Seq<char>, b: Seq<char>, c: Seq<char>)
    requires
        less(a, b),
        less(b, c),
    ensures
        less(a, c),
    decreases a.len(),
{
    if a.len() > 0 && b.len() > 0 && c.len() > 0 && a[0] == b[0] && b[0] == c[0] {
        less_transitive(a.skip(1), b.skip(1), c.skip(1));
    }
}

/// Of two different strings one comes before the other.
pub proof fn less_total(a: Seq<char>, b: Seq<char>)
    ensures
        less(a, b) || less(b, a) || a == b,
    decreases a.len(),
{
    if a.len() == 0 && b.len() == 0 {
        assert(a =~= b);
    } else if a.len() > 0 && b.len() > 0 && a[0] == b[0] {
        less_total(a.skip(1), b.skip(1));
        if a.skip(1) == b.skip(1) {
            assert(a =~= seq![a[0]] + a.skip(1));
            assert(b =~= seq![b[0]] + b.skip(1));
        }
    }
}

/// What is cut off at the end of a string is whitespace, all that is there: what is
/// left is a front of it that ends in something else.
pub proof fn trim_right_law(s: Seq<char>)
    ensures
        trim_right(s).len() <= s.len(),
        trim_right(s) == s.take(trim_right(s).len() as int),
        trim_right(s).len() > 0 ==> !is_space(trim_right(s).last()),
        forall|i: int| trim_right(s).len() <= i < s.len() ==> is_space(#[trigger] s[i]),
    decreases s.len(),
{
    let r = trim_right(s);
    if s.len() > 0 && is_space(s.last()) {
        let t = s.drop_last();
        trim_right_law(t);
        assert(t.take(r.len() as int) =~= s.take(r.len() as int));
        assert forall|i: int| r.len() <= i < s.len() implies is_space(#[trigger] s[i]) by {
            if i < t.len() {
                assert(t[i] == s[i]);
            }
        }
    } else {
        assert(r =~= s.take(r.len() as int));
    }
}

proof fn lemma_trim_left(s: Seq<char>)
    ensures
        trim_left(s).len() <= s.len(),
        trim_left(s) == s.skip(s.len() - trim_left(s).len()),
        trim_left(s).len() > 0 ==> !is_space(trim_left(s)[0]),
        forall|i: int| 0 <= i < s.len() - trim_left(s).len() ==> is_space(#[trigger] s[i]),
    decreases s.len(),
{
    let r = trim_left(s);
    if s.len() > 0 && is_space(s[0]) {
        let t = s.skip(1);
        lemma_trim_left(t);
        assert(t.skip(t.len() - r.len()) =~= s.skip(s.len() - r.len()));
        assert forall|i: int| 0 <= i < s.len() - r.len() implies is_space(#[trigger] s[i]) by {
            if i > 0 {
                assert(t[i - 1] == s[i]);
            }
        }
    } else {
        assert(r =~= s.skip(0));
    }
}

/// A trimmed string is a part of the string that neither begins nor ends with
/// whitespace, and around it there is nothing else.
pub proof fn trimmed_law(s: Seq<char>)
    ensures
        exists|a: int, b: int|
            0 <= a <= b <= s.len() && #[trigger] s.subrange(a, b) == trimmed(s) && (forall|i: int|
                0 <= i < a || b <= i < s.len() ==> is_space(#[trigger] s[i])),
        trimmed(s).len() > 0 ==> !is_space(trimmed(s)[0]) && !is_space(trimmed(s).last()),
        trimmed(s).len() == 0 <==> forall|i: int| 0 <= i < s.len() ==> is_space(#[trigger] s[i]),
        trimmed(trimmed(s)) == trimmed(s),
{
    lemma_trim_left(s);
    let l = trim_left(s);
    trim_right_law(l);
    let r = trim_right(l);
    let a = s.len() - l.len();
    let b = a + r.len();
    assert(s.subrange(a, b) =~= r);
    assert forall|i: int| 0 <= i < a || b <= i < s.len() implies is_space(#[trigger] s[i]) by {
        if i >= b {
            assert(l[i - a] == s[i]);
        }
    }
    assert(s.subrange(a, b) == trimmed(s));
    if r.len() > 0 {
        assert(r[0] == l[0]);
        assert(s[a] == r[0]);
        assert(!is_space(s[a]));
    }
}

// ---------------------------------------------------------------------------
// Conversions
// ---------------------------------------------------------------------------

/// The characters of a string.
pub fn chars_of(s: &str) -> (r: Vec<char>)
    ensures
        r@ == s@,
{
    let mut out: Vec<char> = Vec::new();
    for c in it: s.chars()
        invariant
            out@ == it.seq().take(it.index() as int),
            it.seq() == s@,
    {
        out.push(c);
    }
    out
}

/// The string made of `chars[from..to]`.
pub fn string_between(chars: &Vec<char>, from: usize, to: usize) -> (r: String)
    requires
        from <= to <= chars@.len(),
    ensures
        r@ == chars@.subrange(from as int, to as int),
{
    let mut out = String::new();
    for i in from..to
        invariant
            from <= i <= to <= chars@.len(),
            out@ == chars@.subrange(from as int, i as int),
    {
        out.push(chars[i]);
    }
    out
}

/// The string made of all of `chars`.
pub fn string_of(chars: &Vec<char>) -> (r: String)
    ensures
        r@ == chars@,
{
    let r = string_between(chars, 0, chars.len());
    assert(chars@.subrange(0, chars@.len() as int) =~= chars@);
    r
}

/// An owned copy of `s`.
pub fn own(s: &str) -> (r: String)
    ensures
        r@ == s@,
{
    String::from_str(s)
}

/// A copy of a list of strings.
pub fn copy_strings(list: &Vec<String>) -> (r: Vec<String>)
    ensures
        r.deep_view() == list.deep_view(),
{
    let mut out: Vec<String> = Vec::new();
    for i in 0..list.len()
        invariant
            out@.len() == i,
            forall|j: int| 0 <= j < i ==> (#[trigger] out@[j])@ == list@[j]@,
    {
        out.push(list[i].clone());
    }
    assert(out.deep_view() =~= list.deep_view());
    out
}

/// Copies of the strings, in order.
pub fn own_all(parts: &Vec<&str>) -> (r: Vec<String>)
    ensures
        r.deep_view() == parts.deep_view(),
{
    let mut out: Vec<String> = Vec::new();
    for i in 0..parts.len()
        invariant
            out@.len() == i,
            forall|j: int| 0 <= j < i ==> (#[trigger] out@[j])@ == parts@[j]@,
    {
        out.push(own(parts[i]));
    }
    assert(out.deep_view() =~= parts.deep_view());
    out
}

/// Whether two strings are the same.
pub fn same(a: &str, b: &str) -> (r: bool)
    ensures
        r == (a@ == b@),
{
    let x = own(a);
    let y = own(b);
    x == y
}

/// The two strings one after the other.
pub fn cat(a: &str, b: &str) -> (r: String)
    ensures
        r@ == a@ + b@,
{
    let mut s = own(a);
    s.append(b);
    s
}

/// The three strings one after the other.
pub fn cat3(a: &str, b: &str, c: &str) -> (r: String)
    ensures
        r@ == a@ + b@ + c@,
{
    let mut s = cat(a, b);
    s.append(c);
    s
}

// ---------------------------------------------------------------------------
// Characters
// ---------------------------------------------------------------------------

pub fn is_whitespace(c: char) -> (r: bool)
    ensures
        r == is_space(c),
{
    let u: u32 = c as u32;
    (9 <= u && u <= 13) || u == 0x20 || u == 0x85 || u == 0xa0 || u == 0x1680 || (0x2000 <= u && u
        <= 0x200a) || u == 0x2028 || u == 0x2029 || u == 0x202f || u == 0x205f || u == 0x3000
}

pub fn is_ascii_digit(c: char) -> (r: bool)
    ensures
        r == is_digit(c),
{
    let u: u32 = c as u32;
    48 <= u && u <= 57
}

pub fn is_ascii_alphanumeric(c: char) -> (r: bool)
    ensures
        r == is_alnum(c),
{
    let u: u32 = c as u32;
    is_ascii_digit(c) || (97 <= u && u <= 122) || (65 <= u && u <= 90)
}

// ---------------------------------------------------------------------------
// Searching
// ---------------------------------------------------------------------------

/// Whether `p` stands in `s` at `i`.
pub fn matches_at(s: &Vec<char>, p: &Vec<char>, i: usize) -> (r: bool)
    requires
        i <= s@.len(),
    ensures
        r == occurs_at(s@, p@, i as int),
{
    if p.len() > s.len() - i {
        return false;
    }
    let n = p.len();
    let m = s.len();
    for k in 0..n
        invariant
            n == p@.len(),
            m == s@.len(),
            i + n <= m,
            forall|j: int| 0 <= j < k ==> s@[i + j] == #[trigger] p@[j],
    {
        if s[i + k] != p[k] {
            assert(s@.subrange(i as int, i + n)[k as int] != p@[k as int]);
            return false;
        }
    }
    assert(s@.subrange(i as int, i + n) =~= p@);
    true
}

/// Whether `s` begins with `p`.
pub fn starts_with(s: &str, p: &str) -> (r: bool)
    ensures
        r == p@.is_prefix_of(s@),
{
    let r = matches_at(&chars_of(s), &chars_of(p), 0);
    assert(r == p@.is_prefix_of(s@));
    r
}

/// What follows `p` in `s`, where `s` begins with `p`.
pub fn strip_prefix(s: &str, p: &str) -> (r: Option<String>)
    ensures
        r is Some == p@.is_prefix_of(s@),
        r is Some ==> r->0@ == s@.skip(p@.len() as int),
{
    let cs = chars_of(s);
    let ps = chars_of(p);
    if matches_at(&cs, &ps, 0) {
        let out = string_between(&cs, ps.len(), cs.len());
        assert(out@ =~= s@.skip(p@.len() as int));
        Some(out)
    } else {
        None
    }
}

/// The index of the first place where `p` stands in `s`.
pub fn find(s: &Vec<char>, p: &Vec<char>) -> (r: Option<usize>)
    ensures
        match r {
            Some(i) => occurs_at(s@, p@, i as int) && forall|j: int|
                0 <= j < i ==> !occurs_at(s@, p@, j),
            None => !occurs(s@, p@),
        },
{
    let n = s.len();
    let mut i: usize = 0;
    while i <= n
        invariant
            n == s@.len(),
            i <= n + 1,
            forall|j: int| 0 <= j < i ==> !occurs_at(s@, p@, j),
        decreases n + 1 - i,
    {
        if matches_at(s, p, i) {
            return Some(i);
        }
        if i == n {
            assert(forall|j: int| !occurs_at(s@, p@, j));
            return None;
        }
        i = i + 1;
    }
    None
}

/// Whether `p` stands anywhere in `s`.
pub fn contains(s: &str, p: &str) -> (r: bool)
    ensures
        r == occurs(s@, p@),
{
    match find(&chars_of(s), &chars_of(p)) {
        Some(_) => true,
        None => false,
    }
}

/// Whether `item` is one of `list`.
pub fn among(list: &Vec<String>, item: &str) -> (r: bool)
    ensures
        r == list.deep_view().contains(item@),
{
    for i in 0..list.len()
        invariant
            forall|j: int| 0 <= j < i ==> list@[j]@ != item@,
    {
        if same(list[i].as_str(), item) {
            assert(list.deep_view()[i as int] == item@);
            return true;
        }
    }
    false
}

// ---------------------------------------------------------------------------
// Splitting
// ---------------------------------------------------------------------------

/// The lines of `s`.
pub fn lines(s: &str) -> (r: Vec<String>)
    ensures
        r.deep_view() == lines_of(s@),
{
    let cs = chars_of(s);
    let n = cs.len();
    let mut out: Vec<String> = Vec::new();
    let mut start: usize = 0;
    let mut i: usize = 0;
    assert(cs@.skip(0) =~= s@);
    assert(out.deep_view() + lines_of(cs@.skip(0)) =~= lines_of(s@));
    while i < n
        invariant
            cs@ == s@,
            n == cs@.len(),
            start <= i <= n,
            forall|j: int| start <= j < i ==> #[trigger] cs@[j] != '\n',
            out.deep_view() + lines_of(cs@.skip(start as int)) == lines_of(s@),
        decreases n - i,
    {
        if cs[i] == '\n' {
            let ghost rest = cs@.skip(start as int);
            let ghost before_out = out.deep_view();
            proof {
                assert forall|k: int| 0 <= k < i - start implies #[trigger] rest[k] != '\n' by {
                    assert(rest[k] == cs@[start + k]);
                }
                assert(rest[i - start] == '\n');
                lemma_before_is(rest, '\n', i - start);
                assert(rest.take(i - start) =~= cs@.subrange(start as int, i as int));
                assert(rest.skip(i - start + 1) =~= cs@.skip(i + 1));
            }
            let end = if i > start && cs[i - 1] == '\r' {
                i - 1
            } else {
                i
            };
            let line = string_between(&cs, start, end);
            assert(line@ =~= drop_cr(rest.take(i - start)));
            out.push(line);
            assert(out.deep_view() =~= before_out.push(line@));
            assert(out.deep_view() + lines_of(cs@.skip(i + 1)) =~= before_out + (seq![line@]
                + lines_of(cs@.skip(i + 1))));
            start = i + 1;
        }
        i = i + 1;
    }
    let ghost rest = cs@.skip(start as int);
    if start < n {
        let ghost before_out = out.deep_view();
        proof {
            assert forall|k: int| 0 <= k < n - start implies #[trigger] rest[k] != '\n' by {
                assert(rest[k] == cs@[start + k]);
            }
            lemma_before_is(rest, '\n', n - start);
        }
        let line = string_between(&cs, start, n);
        assert(line@ =~= rest);
        out.push(line);
        assert(out.deep_view() =~= before_out + seq![rest]);
    } else {
        assert(lines_of(rest) =~= Seq::empty());
        assert(out.deep_view() =~= lines_of(s@));
    }
    out
}

/// `s` without whitespace at either end.
pub fn trim(s: &str) -> (r: String)
    ensures
        r@ == trimmed(s@),
{
    let cs = chars_of(s);
    let n = cs.len();
    let mut a: usize = 0;
    assert(cs@.skip(0) =~= s@);
    while a < n && is_whitespace(cs[a])
        invariant
            cs@ == s@,
            n == cs@.len(),
            a <= n,
            trim_left(s@) == trim_left(cs@.skip(a as int)),
        decreases n - a,
    {
        assert(cs@.skip(a as int).skip(1) =~= cs@.skip(a + 1));
        a = a + 1;
    }
    assert(trim_left(s@) =~= cs@.skip(a as int));
    let mut b: usize = n;
    assert(cs@.subrange(a as int, n as int) =~= cs@.skip(a as int));
    while b > a && is_whitespace(cs[b - 1])
        invariant
            cs@ == s@,
            n == cs@.len(),
            a <= b <= n,
            trim_left(s@) == cs@.skip(a as int),
            trimmed(s@) == trim_right(cs@.subrange(a as int, b as int)),
        decreases b,
    {
        assert(cs@.subrange(a as int, b as int).drop_last() =~= cs@.subrange(a as int, b - 1));
        b = b - 1;
    }
    string_between(&cs, a, b)
}

/// `s` without whitespace at its end.
pub fn trim_end(s: &str) -> (r: String)
    ensures
        r@ == trim_right(s@),
{
    let cs = chars_of(s);
    let n = cs.len();
    let mut b: usize = n;
    assert(cs@.subrange(0, n as int) =~= s@);
    while b > 0 && is_whitespace(cs[b - 1])
        invariant
            cs@ == s@,
            n == cs@.len(),
            b <= n,
            trim_right(s@) == trim_right(cs@.subrange(0, b as int)),
        decreases b,
    {
        assert(cs@.subrange(0, b as int).drop_last() =~= cs@.subrange(0, b - 1));
        b = b - 1;
    }
    string_between(&cs, 0, b)
}

/// The words of `s`.
pub fn words(s: &str, comma: bool) -> (r: Vec<String>)
    ensures
        r.deep_view() == words_of(s@, comma),
{
    let cs = chars_of(s);
    let n = cs.len();
    let mut out: Vec<String> = Vec::new();
    let mut i: usize = 0;
    assert(cs@.skip(0) =~= s@);
    assert(out.deep_view() + words_of(cs@.skip(0), comma) =~= words_of(s@, comma));
    while i < n
        invariant
            cs@ == s@,
            n == cs@.len(),
            i <= n,
            out.deep_view() + words_of(cs@.skip(i as int), comma) == words_of(s@, comma),
        decreases n - i,
    {
        let ghost rest = cs@.skip(i as int);
        if is_whitespace(cs[i]) || (comma && cs[i] == ',') {
            assert(rest[0] == cs@[i as int]);
            assert(rest.skip(1) =~= cs@.skip(i + 1));
            i = i + 1;
        } else {
            let mut j: usize = i + 1;
            while j < n && !(is_whitespace(cs[j]) || (comma && cs[j] == ','))
                invariant
                    n == cs@.len(),
                    i < j <= n,
                    forall|k: int| i <= k < j ==> !is_sep(#[trigger] cs@[k], comma),
                decreases n - j,
            {
                j = j + 1;
            }
            proof {
                assert forall|k: int| 0 <= k < j - i implies !is_sep(#[trigger] rest[k], comma) by {
                    assert(rest[k] == cs@[i + k]);
                }
                lemma_word_len_is(rest, comma, j - i);
                assert(rest.take(j - i) =~= cs@.subrange(i as int, j as int));
                assert(rest.skip(j - i) =~= cs@.skip(j as int));
            }
            let ghost before_out = out.deep_view();
            let word = string_between(&cs, i, j);
            out.push(word);
            assert(out.deep_view() =~= before_out.push(word@));
            assert(out.deep_view() + words_of(cs@.skip(j as int), comma) =~= before_out + (
            seq![word@] + words_of(cs@.skip(j as int), comma)));
            i = j;
        }
    }
    assert(words_of(cs@.skip(n as int), comma) =~= Seq::empty());
    assert(out.deep_view() =~= words_of(s@, comma));
    out
}

// ---------------------------------------------------------------------------
// Numbers
// ---------------------------------------------------------------------------

proof fn lemma_number_bound(s: Seq<char>, k: int)
    requires
        0 <= k <= s.len(),
        all_digits(s),
    ensures
        number_of(s.take(k)) <= number_of(s),
    decreases s.len() - k,
{
    if k == s.len() {
        assert(s.take(k) =~= s);
    } else {
        lemma_number_bound(s, k + 1);
        assert(s.take(k + 1).drop_last() =~= s.take(k));
        assert(is_digit(s[k]));
    }
}

/// The unsigned integer that `s` spells, if it is one and at most `max`.
pub fn parse_unsigned(s: &str, max: u64) -> (r: Option<u64>)
    ensures
        match r {
            Some(v) => parsed(s@, max as nat) == Some(v as nat),
            None => parsed(s@, max as nat) is None,
        },
{
    let cs = chars_of(s);
    let n = cs.len();
    let start: usize = if n > 0 && cs[0] == '+' {
        1
    } else {
        0
    };
    let ghost d = s@.skip(start as int);
    assert(start == 0 ==> d =~= s@);
    if start == n {
        assert(!all_digits(d));
        return None;
    }
    let mut v: u64 = 0;
    let mut i: usize = start;
    assert(d.take(0) =~= Seq::<char>::empty());
    while i < n
        invariant
            cs@ == s@,
            n == cs@.len(),
            start <= i <= n,
            start < n,
            d == s@.skip(start as int),
            parsed(s@, max as nat) == (if all_digits(d) && number_of(d) <= max {
                Some(number_of(d))
            } else {
                None
            }),
            forall|j: int| 0 <= j < i - start ==> is_digit(#[trigger] d[j]),
            v == number_of(d.take(i - start)),
            v <= max,
        decreases n - i,
    {
        let c = cs[i];
        assert(d[i - start] == c);
        if !is_ascii_digit(c) {
            assert(!all_digits(d));
            return None;
        }
        let x: u64 = (c as u32 - 48) as u64;
        proof {
            assert(d.take(i - start + 1).drop_last() =~= d.take(i - start));
            assert(number_of(d.take(i - start + 1)) == v * 10 + x);
        }
        if x > max || v > (max - x) / 10 {
            proof {
                if all_digits(d) {
                    lemma_number_bound(d, i - start + 1);
                    assert(number_of(d) > max);
                }
            }
            return None;
        }
        v = v * 10 + x;
        i = i + 1;
    }
    assert(d.take(n - start) =~= d);
    Some(v)
}

/// The decimal digits of `n`.
pub fn decimal(n: u64) -> (r: String)
    ensures
        r@ == decimal_of(n as nat),
    decreases n,
{
    let d: u8 = (n % 10) as u8;
    let c = (48u8 + d) as char;
    if n < 10 {
        let mut s = String::new();
        s.push(c);
        assert(s@ =~= seq![digit(n as nat)]);
        s
    } else {
        let mut s = decimal(n / 10);
        s.push(c);
        s
    }
}

// ---------------------------------------------------------------------------
// Rewriting
// ---------------------------------------------------------------------------

/// `parts` with `sep` between each two.
pub fn join(parts: &Vec<String>, sep: &str) -> (r: String)
    ensures
        r@ == joined(parts.deep_view(), sep@),
{
    let mut out = String::new();
    let ghost p = parts.deep_view();
    assert(p.take(0) =~= Seq::<Seq<char>>::empty());
    for i in 0..parts.len()
        invariant
            p == parts.deep_view(),
            out@ == joined(p.take(i as int), sep@),
    {
        let ghost now = p.take(i + 1);
        assert(now.drop_last() =~= p.take(i as int));
        assert(now.last() == parts@[i as int]@);
        if i > 0 {
            out.append(sep);
        }
        out.append(parts[i].as_str());
        assert(out@ =~= joined(now, sep@));
    }
    assert(p.take(parts@.len() as int) =~= p);
    out
}

/// `s` with every `c` replaced by `with`.
pub fn replace(s: &str, c: char, with: &str) -> (r: String)
    ensures
        r@ == replaced(s@, c, with@),
{
    let cs = chars_of(s);
    let mut out = String::new();
    for i in 0..cs.len()
        invariant
            out@ == replaced(cs@.take(i as int), c, with@),
    {
        assert(cs@.take(i + 1).drop_last() =~= cs@.take(i as int));
        if cs[i] == c {
            out.append(with);
        } else {
            out.push(cs[i]);
        }
    }
    assert(cs@.take(cs@.len() as int) =~= cs@);
    out
}

/// The characters with the ASCII letters in lower case.
pub fn lowercase(cs: &Vec<char>) -> (r: Vec<char>)
    ensures
        r@ == lowered(cs@),
{
    let mut out: Vec<char> = Vec::new();
    for i in 0..cs.len()
        invariant
            out@ == lowered(cs@.take(i as int)),
    {
        let u: u32 = cs[i] as u32;
        let c = if 65 <= u && u <= 90 {
            (u as u8 + 32u8) as char
        } else {
            cs[i]
        };
        out.push(c);
        assert(out@ =~= lowered(cs@.take(i + 1)));
    }
    assert(cs@.take(cs@.len() as int) =~= cs@);
    out
}

// ---------------------------------------------------------------------------
// Ordering
// ---------------------------------------------------------------------------

/// Whether `a` comes before `b`.
pub fn precedes(a: &str, b: &str) -> (r: bool)
    ensures
        r == less(a@, b@),
{
    let x = chars_of(a);
    let y = chars_of(b);
    let mut i: usize = 0;
    assert(x@.skip(0) =~= a@);
    assert(y@.skip(0) =~= b@);
    while i < x.len() && i < y.len()
        invariant
            i <= x@.len(),
            i <= y@.len(),
            x@ == a@,
            y@ == b@,
            less(a@, b@) == less(x@.skip(i as int), y@.skip(i as int)),
        decreases x@.len() - i,
    {
        if x[i] != y[i] {
            return x[i] < y[i];
        }
        assert(x@.skip(i as int).skip(1) =~= x@.skip(i + 1));
        assert(y@.skip(i as int).skip(1) =~= y@.skip(i + 1));
        i = i + 1;
    }
    i < y.len()
}

/// Adds `item` to an ascending list, unless it is there.
pub fn insert_ascending(list: &mut Vec<String>, item: &str)
    requires
        ascending(old(list).deep_view()),
    ensures
        ascending(final(list).deep_view()),
        forall|x: Seq<char>| #[trigger]
            final(list).deep_view().contains(x) <==> old(list).deep_view().contains(x) || x
                == item@,
{
    let n = list.len();
    let mut i: usize = 0;
    let ghost v = list.deep_view();
    while i < n && precedes(list[i].as_str(), item)
        invariant
            n == list@.len(),
            i <= n,
            v == list.deep_view(),
            forall|j: int| 0 <= j < i ==> less(#[trigger] v[j], item@),
        decreases n - i,
    {
        i = i + 1;
    }
    if i < n && same(list[i].as_str(), item) {
        assert(v[i as int] == item@);
        return;
    }
    proof {
        if i < n {
            less_total(v[i as int], item@);
            assert(less(item@, v[i as int]));
        }
    }
    list.insert(i, own(item));
    let ghost w = list.deep_view();
    assert(w =~= v.insert(i as int, item@));
    proof {
        assert forall|a: int, b: int| 0 <= a < b < w.len() implies less(
            #[trigger] w[a],
            #[trigger] w[b],
        ) by {
            if a < i {
                if b == i {
                } else if b < i {
                } else {
                    assert(w[b] == v[b - 1]);
                    assert(less(v[a], v[b - 1]));
                }
            } else {
                assert(w[b] == v[b - 1]);
                if a == i {
                    if b - 1 > i {
                        less_transitive(item@, v[i as int], v[b - 1]);
                    }
                } else {
                    assert(w[a] == v[a - 1]);
                }
            }
        }
        assert forall|x: Seq<char>| #[trigger] w.contains(x) <==> v.contains(x) || x == item@ by {
            if v.contains(x) {
                let k = choose|k: int| 0 <= k < v.len() && v[k] == x;
                if k < i {
                    assert(w[k] == x);
                } else {
                    assert(w[k + 1] == x);
                }
            }
            if x == item@ {
                assert(w[i as int] == x);
            }
            if w.contains(x) {
                let k = choose|k: int| 0 <= k < w.len() && w[k] == x;
                if k < i {
                    assert(v[k] == x);
                } else if k > i {
                    assert(v[k - 1] == x);
                }
            }
        }
    }
}

/// Holds the strings of `list`, ascending and each of them once.
pub open spec fn sorts(r: Seq<Seq<char>>, list: Seq<Seq<char>>) -> bool {
    ascending(r) && forall|x: Seq<char>| #[trigger] r.contains(x) <==> list.contains(x)
}

/// The strings of `list`, ascending and each of them once.
pub open spec fn sorted_of(list: Seq<Seq<char>>) -> Seq<Seq<char>> {
    choose|r: Seq<Seq<char>>| sorts(r, list)
}

/// The strings of `list`, ascending and each of them once.
pub fn sorted_set(list: &Vec<String>) -> (r: Vec<String>)
    ensures
        r.deep_view() == sorted_of(list.deep_view()),
        ascending(r.deep_view()),
        forall|x: Seq<char>| #[trigger]
            r.deep_view().contains(x) <==> list.deep_view().contains(x),
{
    let mut out: Vec<String> = Vec::new();
    let ghost l = list.deep_view();
    for i in 0..list.len()
        invariant
            l == list.deep_view(),
            ascending(out.deep_view()),
            forall|x: Seq<char>| #[trigger]
                out.deep_view().contains(x) <==> l.take(i as int).contains(x),
    {
        insert_ascending(&mut out, list[i].as_str());
        proof {
            assert(l.take(i + 1) =~= l.take(i as int).push(l[i as int]));
            assert forall|x: Seq<char>| #[trigger] l.take(i + 1).contains(x) <==> l.take(
                i as int,
            ).contains(x) || x == l[i as int] by {
                if l.take(i as int).contains(x) {
                    let k = choose|k: int| 0 <= k < i && l.take(i as int)[k] == x;
                    assert(l.take(i + 1)[k] == x);
                }
                if x == l[i as int] {
                    assert(l.take(i + 1)[i as int] == x);
                }
            }
        }
    }
    assert(l.take(list@.len() as int) =~= l);
    proof {
        assert(sorts(out.deep_view(), l));
        ascending_unique(out.deep_view(), sorted_of(l));
    }
    out
}

/// Two ascending lists of the same strings are the same list.
pub proof fn ascending_unique(a: Seq<Seq<char>>, b: Seq<Seq<char>>)
    requires
        ascending(a),
        ascending(b),
        forall|x: Seq<char>| #[trigger] a.contains(x) <==> b.contains(x),
    ensures
        a == b,
    decreases a.len(),
{
    if a.len() == 0 {
        if b.len() > 0 {
            assert(b.contains(b[0]));
            assert(a.contains(b[0]));
        }
        assert(a =~= b);
    } else {
        assert(a.contains(a.last()));
        assert(b.contains(a.last()));
        let j = choose|j: int| 0 <= j < b.len() && b[j] == a.last();
        assert(b.contains(b.last()));
        assert(a.contains(b.last()));
        let i = choose|i: int| 0 <= i < a.len() && a[i] == b.last();
        if i < a.len() - 1 {
            assert(less(a[i], a[a.len() - 1]));
            if j < b.len() - 1 {
                assert(less(b[j], b[b.len() - 1]));
                less_transitive(a[i], a.last(), b.last());
            }
            less_irreflexive(a[i]);
        }
        assert(a.last() == b.last());
        let c = a.drop_last();
        let d = b.drop_last();
        assert forall|x: Seq<char>| #[trigger] c.contains(x) <==> d.contains(x) by {
            less_irreflexive(x);
            if c.contains(x) {
                let k = choose|k: int| 0 <= k < c.len() && c[k] == x;
                assert(less(a[k], a[a.len() - 1]));
                assert(a.contains(a[k]));
                assert(b.contains(x));
                let m = choose|m: int| 0 <= m < b.len() && b[m] == x;
                assert(m < b.len() - 1);
                assert(d[m] == x);
            }
            if d.contains(x) {
                let k = choose|k: int| 0 <= k < d.len() && d[k] == x;
                assert(less(b[k], b[b.len() - 1]));
                assert(b.contains(b[k]));
                assert(a.contains(x));
                let m = choose|m: int| 0 <= m < a.len() && a[m] == x;
                assert(m < a.len() - 1);
                assert(c[m] == x);
            }
        }
        ascending_unique(c, d);
        assert(a =~= c.push(a.last()));
        assert(b =~= d.push(b.last()));
    }
}

/// What is cut out of a string at every `c` is every `c` and nothing else.
pub proof fn removed_law(s: Seq<char>, c: char)
    ensures
        replaced(s, c, Seq::empty()) == s.filter(|x: char| x != c),
    decreases s.len(),
{
    reveal(Seq::filter);
    if s.len() > 0 {
        removed_law(s.drop_last(), c);
        let none: Seq<char> = Seq::empty();
        let rest = replaced(s.drop_last(), c, none);
        assert(rest + none =~= rest);
    }
}

/// The text between the places where `c` stands.
pub open spec fn split(s: Seq<char>, c: char) -> Seq<Seq<char>>
    decreases s.len(),
{
    let n = after_last(s, c);
    if n == 0 || n > s.len() {
        seq![s]
    } else {
        split(s.take(n - 1), c).push(s.skip(n as int))
    }
}

/// Parts that do not hold a character are found again, every one of them and as
/// it was, where they are joined by it.
pub proof fn split_joined(parts: Seq<Seq<char>>, c: char)
    requires
        parts.len() > 0,
        forall|i: int| 0 <= i < parts.len() ==> !(#[trigger] parts[i]).contains(c),
    ensures
        split(joined(parts, seq![c]), c) == parts,
    decreases parts.len(),
{
    let s = joined(parts, seq![c]);
    let last = parts.last();
    let k = parts.len() - 1;
    assert(!parts[k].contains(c));
    if parts.len() == 1 {
        assert forall|i: int| 0 <= i < s.len() implies #[trigger] s[i] != c by {
            if s[i] == c {
                assert(last[i] == c);
            }
        }
        lemma_after_last(s, c, 0);
        assert(parts =~= seq![s]);
    } else {
        let t = parts.drop_last();
        assert forall|i: int| 0 <= i < t.len() implies !(#[trigger] t[i]).contains(c) by {
            assert(t[i] == parts[i]);
        }
        split_joined(t, c);
        let head = joined(t, seq![c]);
        let n = head.len() as int + 1;
        assert(s == head + seq![c] + last);
        assert(s[n - 1] == c);
        assert forall|i: int| n <= i < s.len() implies #[trigger] s[i] != c by {
            if s[i] == c {
                assert(last[i - n] == c);
            }
        }
        lemma_after_last(s, c, n);
        assert(s.take(n - 1) =~= head);
        assert(s.skip(n) =~= last);
        assert(split(s, c) =~= parts);
    }
}

/// The digits of a number spell it: it is read back from them, wherever it fits.
pub proof fn decimal_law(n: nat, max: nat)
    requires
        n <= max,
    ensures
        all_digits(decimal_of(n)),
        number_of(decimal_of(n)) == n,
        parsed(decimal_of(n), max) == Some(n),
    decreases n,
{
    lemma_decimal(n);
    let d = decimal_of(n);
    assert(is_digit(d[0]));
}

proof fn lemma_decimal(n: nat)
    ensures
        decimal_of(n).len() > 0,
        all_digits(decimal_of(n)),
        number_of(decimal_of(n)) == n,
    decreases n,
{
    let d = decimal_of(n);
    let k = n % 10;
    assert(48 <= 48 + k < 58);
    assert(digit(k) as u32 == 48 + k);
    assert(is_digit(digit(k)));
    if n < 10 {
        assert(d.drop_last() =~= Seq::empty());
        assert(number_of(d.drop_last()) == 0);
    } else {
        lemma_decimal(n / 10);
        let r = decimal_of(n / 10);
        assert(d.drop_last() =~= r);
        assert forall|i: int| 0 <= i < d.len() implies is_digit(#[trigger] d[i]) by {
            if i < r.len() {
                assert(d[i] == r[i]);
            }
        }
    }
}

/// A run of characters with no separator in it is one word, and behind a blank the
/// other words follow.
pub proof fn first_word(w: Seq<char>, rest: Seq<char>)
    requires
        w.len() > 0,
        forall|i: int| 0 <= i < w.len() ==> !is_sep(#[trigger] w[i], false),
    ensures
        words_of(w + (seq![' '] + rest), false) == seq![w] + words_of(rest, false),
        words_of(w, false) == seq![w],
{
    let s = w + (seq![' '] + rest);
    let n = w.len() as int;
    assert(is_space(' '));
    assert forall|i: int| 0 <= i < n implies !is_sep(#[trigger] s[i], false) by {
        assert(s[i] == w[i]);
    }
    assert(s[n] == ' ');
    lemma_word_len_is(s, false, n);
    assert(s.take(n) =~= w);
    let t = s.skip(n);
    assert(t =~= seq![' '] + rest);
    assert(t[0] == ' ');
    assert(word_len(t, false) == 0);
    assert(t.skip(1) =~= rest);
    assert(words_of(t, false) == words_of(rest, false));
    lemma_word_len_is(w, false, n);
    assert(w.take(n) =~= w);
    let nil = w.skip(n);
    assert(nil =~= Seq::empty());
    assert(words_of(nil, false) == Seq::<Seq<char>>::empty());
    assert(seq![w] + words_of(nil, false) =~= seq![w]);
}

/// The lines of a text: what stands before its first line feed, without a carriage
/// return at its end, and then the lines of the rest. What follows the last line feed
/// is a line as it is, unless it is empty.
pub proof fn lines_law(line: Seq<char>, rest: Seq<char>)
    requires
        !line.contains('\n'),
    ensures
        lines_of(line.push('\n') + rest) == seq![
            if line.len() > 0 && line.last() == '\r' {
                line.drop_last()
            } else {
                line
            },
        ] + lines_of(rest),
        line.len() > 0 ==> lines_of(line) == seq![line],
        lines_of(Seq::empty()).len() == 0,
{
    let s = line.push('\n') + rest;
    let n = line.len() as int;
    assert forall|i: int| 0 <= i < n implies #[trigger] s[i] != '\n' by {
        if s[i] == '\n' {
            assert(line[i] == '\n');
        }
    }
    assert(s[n] == '\n');
    lemma_before_is(s, '\n', n);
    assert(s.take(n) =~= line);
    assert(s.skip(n + 1) =~= rest);
    assert forall|i: int| 0 <= i < n implies #[trigger] line[i] != '\n' by {
        assert(s[i] != '\n');
    }
    lemma_before_is(line, '\n', n);
}

/// What separates words is no part of any.
pub proof fn separators_part_words(c: char, rest: Seq<char>, comma: bool)
    requires
        is_sep(c, comma),
    ensures
        words_of(seq![c] + rest, comma) == words_of(rest, comma),
{
    let s = seq![c] + rest;
    assert(s[0] == c);
    assert(s.skip(1) =~= rest);
}

/// Text in lower case has no ASCII capital, and every other character as it was.
pub proof fn lowered_law(s: Seq<char>, i: int)
    requires
        0 <= i < s.len(),
    ensures
        lowered(s).len() == s.len(),
        !('A' <= lowered(s)[i] && lowered(s)[i] <= 'Z'),
        !('A' <= s[i] && s[i] <= 'Z') ==> lowered(s)[i] == s[i],
        'A' <= s[i] && s[i] <= 'Z' ==> lowered(s)[i] as u32 == s[i] as u32 + 32,
{
}

/// Among the ASCII characters, whitespace is the blank, the tab and what ends or feeds
/// lines and pages, and nothing else.
pub proof fn ascii_whitespace(c: char)
    requires
        (c as u32) < 0x80,
    ensures
        is_space(c) <==> c == ' ' || c == '\t' || c == '\n' || c == '\r' || c as u32 == 0xb || c as u32
            == 0xc,
        is_digit(c) ==> !is_space(c),
        is_alnum(c) ==> !is_space(c),
{
}

} // verus!
