//! Slash-separated paths, held as strings.
use vstd::prelude::*;
use vstd::string::StringExecFns;

use crate::text::{
    before, cat, chars_of, lemma_before, lemma_before_is, own, same, string_between,
};

verus! {

/// The path of the file system's root, as a component.
pub open spec fn root() -> Seq<char> {
    seq!['/']
}

pub open spec fn is_absolute(p: Seq<char>) -> bool {
    p.len() > 0 && p[0] == '/'
}

/// The names between the slashes. Empty names are dropped, and so is a single
/// dot, unless it leads a relative path (`lead`).
pub open spec fn names_of(p: Seq<char>, lead: bool) -> Seq<Seq<char>>
    decreases p.len(),
{
    let n = before(p, '/');
    let rest = if n < p.len() {
        names_of(p.skip(n as int + 1), false)
    } else {
        Seq::empty()
    };
    if n == 0 || (!lead && p.take(n as int) == seq!['.']) {
        rest
    } else {
        seq![p.take(n as int)] + rest
    }
}

/// The components of a path: the root, where the path is absolute, and the names.
pub open spec fn components_of(p: Seq<char>) -> Seq<Seq<char>> {
    if is_absolute(p) {
        seq![root()] + names_of(p, false)
    } else {
        names_of(p, true)
    }
}

/// Whether `p` is `base` or lies below it, component by component.
pub open spec fn is_within(p: Seq<char>, base: Seq<char>) -> bool {
    components_of(base).is_prefix_of(components_of(p))
}

/// The last component, where it is a name of its own.
pub open spec fn file_name_of(p: Seq<char>) -> Option<Seq<char>> {
    let c = components_of(p);
    if c.len() == 0 || c.last() == root() || c.last() == seq!['.', '.'] || c.last() == seq!['.'] {
        None
    } else {
        Some(c.last())
    }
}

/// `b` below `a`; an absolute `b` stands for itself.
pub open spec fn joined_path(a: Seq<char>, b: Seq<char>) -> Seq<char> {
    if is_absolute(b) {
        b
    } else if a.len() == 0 || a.last() == '/' {
        a + b
    } else {
        a.push('/') + b
    }
}

/// The number of characters up to and with the last `c`, 0 where there is none.
pub open spec fn after_last(s: Seq<char>, c: char) -> nat
    decreases s.len(),
{
    if s.len() == 0 {
        0
    } else if s.last() == c {
        s.len()
    } else {
        after_last(s.drop_last(), c)
    }
}

/// What follows the last dot of the file name, where something stands before it.
pub open spec fn extension_of(p: Seq<char>) -> Option<Seq<char>> {
    match file_name_of(p) {
        None => None,
        Some(f) => if after_last(f, '.') <= 1 {
            None
        } else {
            Some(f.skip(after_last(f, '.') as int))
        },
    }
}

/// The components of `p`.
pub fn components(p: &str) -> (r: Vec<String>)
    ensures
        r.deep_view() == components_of(p@),
{
    let cs = chars_of(p);
    let n = cs.len();
    let mut out: Vec<String> = Vec::new();
    let absolute = n > 0 && cs[0] == '/';
    if absolute {
        let mut r = String::new();
        r.push('/');
        assert(r@ =~= root());
        out.push(r);
    }
    let ghost head = out.deep_view();
    assert(head =~= if absolute {
        seq![root()]
    } else {
        Seq::<Seq<char>>::empty()
    });
    let mut start: usize = 0;
    let mut lead: bool = !absolute;
    assert(cs@.skip(0) =~= p@);
    assert(out.deep_view() + names_of(cs@.skip(0), lead) =~= components_of(p@));
    while start < n
        invariant
            cs@ == p@,
            n == cs@.len(),
            start <= n,
            out.deep_view() + names_of(cs@.skip(start as int), lead) == components_of(p@),
        decreases n - start,
    {
        let ghost rest = cs@.skip(start as int);
        let mut i: usize = start;
        while i < n && cs[i] != '/'
            invariant
                n == cs@.len(),
                start <= i <= n,
                forall|j: int| start <= j < i ==> #[trigger] cs@[j] != '/',
            decreases n - i,
        {
            i = i + 1;
        }
        proof {
            assert forall|k: int| 0 <= k < i - start implies #[trigger] rest[k] != '/' by {
                assert(rest[k] == cs@[start + k]);
            }
            lemma_before_is(rest, '/', i - start);
            assert(rest.take(i - start) =~= cs@.subrange(start as int, i as int));
            if i < n {
                assert(rest.skip(i - start + 1) =~= cs@.skip(i + 1));
            }
        }
        let dot = i - start == 1 && cs[start] == '.';
        assert(dot == (rest.take(i - start) =~= seq!['.']));
        let ghost before_out = out.deep_view();
        let ghost tail = if i < n {
            names_of(cs@.skip(i + 1), false)
        } else {
            Seq::empty()
        };
        if i > start && (lead || !dot) {
            let name = string_between(&cs, start, i);
            out.push(name);
            assert(out.deep_view() =~= before_out.push(name@));
            assert(out.deep_view() + tail =~= before_out + (seq![name@] + tail));
        } else {
            assert(out.deep_view() + tail =~= before_out + tail);
        }
        lead = false;
        if i < n {
            start = i + 1;
        } else {
            assert(names_of(cs@.skip(n as int), false) =~= Seq::empty());
            start = n;
        }
    }
    assert(names_of(cs@.skip(n as int), lead) =~= Seq::empty());
    assert(out.deep_view() =~= components_of(p@));
    out
}

/// Whether `p` is `base` or lies below it.
pub fn path_starts_with(p: &str, base: &str) -> (r: bool)
    ensures
        r == is_within(p@, base@),
{
    let a = components(p);
    let b = components(base);
    if b.len() > a.len() {
        return false;
    }
    for i in 0..b.len()
        invariant
            a.deep_view() == components_of(p@),
            b.deep_view() == components_of(base@),
            b@.len() <= a@.len(),
            forall|j: int| 0 <= j < i ==> a@[j]@ == b@[j]@,
    {
        if !same(a[i].as_str(), b[i].as_str()) {
            proof {
                if b.deep_view().is_prefix_of(a.deep_view()) {
                    assert(b.deep_view()[i as int] == a.deep_view().subrange(
                        0,
                        b@.len() as int,
                    )[i as int]);
                }
            }
            return false;
        }
    }
    assert(a.deep_view().subrange(0, b@.len() as int) =~= b.deep_view());
    true
}

/// The last component of `p`, where it is a name of its own.
pub fn file_name(p: &str) -> (r: Option<String>)
    ensures
        r.deep_view() == file_name_of(p@),
{
    let c = components(p);
    let n = c.len();
    if n == 0 {
        return None;
    }
    let last = c[n - 1].clone();
    proof {
        reveal_strlit("/");
        reveal_strlit("..");
        reveal_strlit(".");
        assert("/"@ =~= root());
        assert(".."@ =~= seq!['.', '.']);
        assert("."@ =~= seq!['.']);
        assert(c.deep_view().last() == last@);
    }
    if same(last.as_str(), "/") || same(last.as_str(), "..") || same(last.as_str(), ".") {
        None
    } else {
        Some(last)
    }
}

/// `b` below `a`.
pub fn join_path(a: &str, b: &str) -> (r: String)
    ensures
        r@ == joined_path(a@, b@),
{
    let x = chars_of(a);
    let y = chars_of(b);
    if y.len() > 0 && y[0] == '/' {
        own(b)
    } else if x.len() == 0 || x[x.len() - 1] == '/' {
        cat(a, b)
    } else {
        let mut s = own(a);
        s.push('/');
        s.append(b);
        s
    }
}

/// The number of characters up to and with the last `c` is the only one with `c`
/// at its end and none behind it.
pub proof fn lemma_after_last(s: Seq<char>, c: char, n: int)
    requires
        0 <= n <= s.len(),
        n > 0 ==> s[n - 1] == c,
        forall|i: int| n <= i < s.len() ==> #[trigger] s[i] != c,
    ensures
        after_last(s, c) == n,
    decreases s.len(),
{
    if s.len() > n {
        assert(s[s.len() - 1] != c);
        assert(s.last() != c);
        assert forall|i: int| n <= i < s.drop_last().len() implies #[trigger] s.drop_last()[i]
            != c by {
            assert(s[i] != c);
        }
        lemma_after_last(s.drop_last(), c, n);
    }
}

/// The number of characters up to and with the last `c`.
pub fn past_last(cs: &Vec<char>, c: char) -> (r: usize)
    ensures
        r == after_last(cs@, c),
        r <= cs@.len(),
{
    let mut n: usize = cs.len();
    while n > 0 && cs[n - 1] != c
        invariant
            n <= cs@.len(),
            forall|i: int| n <= i < cs@.len() ==> #[trigger] cs@[i] != c,
        decreases n,
    {
        n = n - 1;
    }
    proof {
        lemma_after_last(cs@, c, n as int);
    }
    n
}

/// What follows the last dot of the file name of `p`.
pub fn extension(p: &str) -> (r: Option<String>)
    ensures
        r.deep_view() == extension_of(p@),
{
    match file_name(p) {
        None => None,
        Some(f) => {
            let cs = chars_of(f.as_str());
            let n = past_last(&cs, '.');
            if n <= 1 {
                None
            } else {
                let e = string_between(&cs, n, cs.len());
                assert(e@ =~= f@.skip(n as int));
                Some(e)
            }
        },
    }
}

/// `p` with `prefix` and a dot put before what follows its last slash.
pub fn prefix_file_name(p: &str, prefix: &str) -> (r: String)
    ensures
        r@ == p@.take(after_last(p@, '/') as int) + prefix@ + seq!['.'] + p@.skip(
            after_last(p@, '/') as int,
        ),
{
    let cs = chars_of(p);
    let n = past_last(&cs, '/');
    let mut s = string_between(&cs, 0, n);
    s.append(prefix);
    s.push('.');
    let file = string_between(&cs, n, cs.len());
    s.append(file.as_str());
    assert(s@ =~= p@.take(n as int) + prefix@ + seq!['.'] + p@.skip(n as int));
    s
}

proof fn lemma_names_joined(a: Seq<char>, b: Seq<char>, lead: bool)
    ensures
        names_of(a + seq!['/'] + b, lead) == names_of(a, lead) + names_of(b, false),
    decreases a.len(),
{
    let s = a + seq!['/'] + b;
    let n = before(a, '/') as int;
    let none: Seq<Seq<char>> = Seq::empty();
    lemma_before(a, '/');
    assert forall|i: int| 0 <= i < n implies #[trigger] s[i] != '/' by {
        assert(a[i] != '/');
    }
    if n < a.len() {
        assert(s[n] == a[n]);
        lemma_before_is(s, '/', n);
        lemma_names_joined(a.skip(n + 1), b, false);
        assert(s.skip(n + 1) =~= a.skip(n + 1) + seq!['/'] + b);
        assert(s.take(n) =~= a.take(n));
        assert(names_of(s, lead) =~= names_of(a, lead) + names_of(b, false));
    } else {
        assert(s[n] == '/');
        lemma_before_is(s, '/', n);
        assert(s.skip(n + 1) =~= b);
        assert(s.take(n) =~= a);
        assert(a.take(n) =~= a);
        assert(names_of(s, lead) =~= names_of(a, lead) + names_of(b, false));
    }
}

/// The components of a joined path are those of the path and then the names that
/// were joined to it: so it lies below the path.
pub proof fn joined_lies_below(a: Seq<char>, b: Seq<char>)
    requires
        a.len() > 0,
        !is_absolute(b),
    ensures
        components_of(joined_path(a, b)) == components_of(a) + names_of(b, false),
        is_within(joined_path(a, b), a),
        is_absolute(joined_path(a, b)) == is_absolute(a),
{
    let lead = !is_absolute(a);
    let j = joined_path(a, b);
    let none: Seq<char> = Seq::empty();
    assert(names_of(none, false) == Seq::<Seq<char>>::empty());
    if a.last() == '/' {
        let h = a.drop_last();
        assert(a =~= h + seq!['/'] + none);
        assert(j =~= h + seq!['/'] + b);
        lemma_names_joined(h, none, lead);
        lemma_names_joined(h, b, lead);
        assert(names_of(a, lead) =~= names_of(h, lead));
    } else {
        assert(j =~= a + seq!['/'] + b);
        lemma_names_joined(a, b, lead);
    }
    assert(j[0] == a[0]);
    let c = components_of(a);
    assert(components_of(j) =~= c + names_of(b, false));
    assert(c =~= components_of(j).take(c.len() as int));
}

/// A file of a directory is found by its name.
pub proof fn file_in_directory(dir: Seq<char>, f: Seq<char>)
    requires
        dir.len() > 0,
        f.len() > 0,
        !f.contains('/'),
        f != seq!['.'],
        f != seq!['.', '.'],
    ensures
        file_name_of(joined_path(dir, f)) == Some(f),
        components_of(joined_path(dir, f)) == components_of(dir).push(f),
{
    let n = f.len() as int;
    assert forall|i: int| 0 <= i < n implies #[trigger] f[i] != '/' by {
        if f[i] == '/' {
            assert(f.contains('/'));
        }
    }
    assert(!is_absolute(f));
    lemma_before_is(f, '/', n);
    assert(f.take(n) =~= f);
    let none: Seq<Seq<char>> = Seq::empty();
    assert(seq![f] + none =~= seq![f]);
    assert(names_of(f, false) == seq![f]);
    joined_lies_below(dir, f);
    let c = components_of(dir) + seq![f];
    assert(c =~= components_of(dir).push(f));
    assert(c.last() == f);
    assert(f != root()) by {
        if f == root() {
            assert(f[0] == '/');
        }
    }
}

/// What follows the last dot of a file's name is its extension.
pub proof fn extension_of_file(dir: Seq<char>, stem: Seq<char>, ext: Seq<char>)
    requires
        dir.len() > 0,
        stem.len() > 0,
        ext.len() > 0,
        !stem.contains('/'),
        !ext.contains('/'),
        !ext.contains('.'),
    ensures
        extension_of(joined_path(dir, stem + "."@ + ext)) == Some(ext),
{
    reveal_strlit(".");
    let f = stem + "."@ + ext;
    let n = stem.len() as int + 1;
    assert(f.len() >= 3);
    assert(!f.contains('/')) by {
        if f.contains('/') {
            let i = choose|i: int| 0 <= i < f.len() && f[i] == '/';
            if i < stem.len() {
                assert(stem[i] == '/');
            } else if i >= n {
                assert(ext[i - n] == '/');
            }
        }
    }
    file_in_directory(dir, f);
    assert(f[n - 1] == '.');
    assert forall|i: int| n <= i < f.len() implies #[trigger] f[i] != '.' by {
        if f[i] == '.' {
            assert(ext[i - n] == '.');
        }
    }
    lemma_after_last(f, '.', n);
    assert(f.skip(n) =~= ext);
}

} // verus!
