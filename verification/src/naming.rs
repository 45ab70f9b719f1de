//! The name transformation: splitting a path into parent prefix, stem and
//! extension, and appending the salt before the final extension segment.
//!
//! A path is modelled as a sequence of characters.  The base name is
//! everything after the last `/`; the base name has an extension exactly when
//! it contains a `.` at some position past its first character, and the
//! extension is everything after the last such `.`.

use vstd::prelude::*;
use vstd::string::*;

verus! {

/// Index of the last occurrence of `c` in `s`, or `-1` when `c` does not
/// occur.
pub open spec fn last_index_of(s: Seq<char>, c: char) -> int
    decreases s.len(),
{
    if s.len() == 0 {
        -1
    } else if s.last() == c {
        s.len() - 1
    } else {
        last_index_of(s.drop_last(), c)
    }
}

/// `last_index_of` is the largest index holding `c`, or `-1` when there is
/// none.
pub proof fn lemma_last_index_of(s: Seq<char>, c: char)
    ensures
        -1 <= last_index_of(s, c) < s.len(),
        last_index_of(s, c) >= 0 ==> s[last_index_of(s, c)] == c,
        forall|i: int| last_index_of(s, c) < i < s.len() ==> s[i] != c,
    decreases s.len(),
{
    if s.len() == 0 {
    } else if s.last() == c {
    } else {
        lemma_last_index_of(s.drop_last(), c);
        if last_index_of(s, c) >= 0 {
            assert(s[last_index_of(s, c)] == s.drop_last()[last_index_of(s, c)]);
        }
        assert forall|i: int| last_index_of(s, c) < i < s.len() implies s[i] != c by {
            if i < s.len() - 1 {
                assert(s[i] == s.drop_last()[i]);
            } else {
                assert(s[i] == s.last());
            }
        }
    }
}

/// Appending characters other than `c` does not move the last occurrence of
/// `c`.
pub proof fn lemma_last_index_of_append_without(a: Seq<char>, b: Seq<char>, c: char)
    requires
        !b.contains(c),
    ensures
        last_index_of(a + b, c) == last_index_of(a, c),
    decreases b.len(),
{
    if b.len() == 0 {
        assert(a + b =~= a);
    } else {
        assert(b[b.len() - 1] == b.last());
        assert(b.last() != c);
        assert((a + b).last() == b.last());
        assert((a + b).drop_last() =~= a + b.drop_last());
        assert(!b.drop_last().contains(c)) by {
            if b.drop_last().contains(c) {
                let i = choose|i: int|
                    0 <= i < b.drop_last().len() && b.drop_last()[i] == c;
                assert(b[i] == c);
            }
        }
        lemma_last_index_of_append_without(a, b.drop_last(), c);
    }
}

/// A concatenation of two sequences without `c` holds no `c`.
pub proof fn lemma_concat_without(a: Seq<char>, b: Seq<char>, c: char)
    requires
        !a.contains(c),
        !b.contains(c),
    ensures
        !(a + b).contains(c),
{
    if (a + b).contains(c) {
        let i = choose|i: int| 0 <= i < (a + b).len() && (a + b)[i] == c;
        if i < a.len() {
            assert(a[i] == c);
        } else {
            assert(b[i - a.len()] == c);
        }
    }
}

/// A subrange of a sequence without `c` holds no `c`.
pub proof fn lemma_subrange_without(s: Seq<char>, c: char, lo: int, hi: int)
    requires
        !s.contains(c),
        0 <= lo <= hi <= s.len(),
    ensures
        !s.subrange(lo, hi).contains(c),
{
    if s.subrange(lo, hi).contains(c) {
        let i = choose|i: int| 0 <= i < hi - lo && s.subrange(lo, hi)[i] == c;
        assert(s[lo + i] == c);
    }
}

/// Index at which the base name begins: one past the last `/`, or `0` when
/// the path holds no `/`.
pub open spec fn name_start(p: Seq<char>) -> int {
    last_index_of(p, '/') + 1
}

/// The final path segment: everything after the last `/`.
pub open spec fn base_name_of(p: Seq<char>) -> Seq<char> {
    p.subrange(name_start(p), p.len() as int)
}

/// A base name has an extension exactly when its last `.` sits past the
/// first character, so that the stem before it is nonempty.
pub open spec fn has_extension_name(n: Seq<char>) -> bool {
    last_index_of(n, '.') >= 1
}

/// The stem of a base name: everything before the last `.`.
pub open spec fn stem_of(n: Seq<char>) -> Seq<char> {
    n.subrange(0, last_index_of(n, '.'))
}

/// The extension of a base name: everything after the last `.`.
pub open spec fn ext_of(n: Seq<char>) -> Seq<char> {
    n.subrange(last_index_of(n, '.') + 1, n.len() as int)
}

/// The salted base name: `stem + salt + "." + extension` when an extension
/// is present, `name + salt` otherwise.
pub open spec fn salted_name(n: Seq<char>, z: Seq<char>) -> Seq<char> {
    if has_extension_name(n) {
        n.subrange(0, last_index_of(n, '.')) + z + n.subrange(last_index_of(n, '.'), n.len() as int)
    } else {
        n + z
    }
}

/// The whole transformed path: the parent prefix is kept unchanged and only
/// the base name is salted.
pub open spec fn transformed_path(p: Seq<char>, z: Seq<char>) -> Seq<char> {
    p.subrange(0, name_start(p)) + salted_name(base_name_of(p), z)
}

/// Index of the last occurrence of `c` in `s`, or `None` when `c` does not
/// occur.
pub(crate) fn rfind_char(s: &str, c: char) -> (r: Option<usize>)
    ensures
        match r {
            Some(i) => i < s@.len() && i == last_index_of(s@, c),
            None => last_index_of(s@, c) == -1,
        },
{
    let n: usize = s.unicode_len();
    let mut i: usize = n;
    while i > 0
        invariant
            i <= n,
            n == s@.len(),
            forall|j: int| i <= j < n ==> s@[j] != c,
        decreases i,
    {
        let ch = s.get_char(i - 1);
        if ch == c {
            proof {
                lemma_last_index_of(s@, c);
            }
            return Some(i - 1);
        }
        i = i - 1;
    }
    proof {
        lemma_last_index_of(s@, c);
    }
    None
}

/// Append the salt to the base name of `path`, keeping the final extension
/// segment (everything after the last `.` of the base name, when the stem
/// before it is nonempty) in place: `a/b.c` becomes `a/b{salt}.c`, and a
/// base name without an extension is simply suffixed with the salt.
pub fn transform(path: &str, salt: &str) -> (r: String)
    ensures
        r@ == transformed_path(path@, salt@),
{
    let n: usize = path.unicode_len();
    let slash = rfind_char(path, '/');
    let ns: usize = match slash {
        Some(i) => i + 1,
        None => 0,
    };
    proof {
        lemma_last_index_of(path@, '/');
        assert(ns == name_start(path@));
    }
    let name = path.substring_char(ns, n);
    proof {
        assert(name@ == base_name_of(path@));
    }
    let mut cut_opt: Option<usize> = None;
    match rfind_char(name, '.') {
        Some(d) => {
            if d >= 1 {
                cut_opt = Some(ns + d);
            }
        },
        None => {},
    }
    match cut_opt {
        Some(cut) => {
            let mut r = String::from_str(path.substring_char(0, cut));
            r.append(salt);
            r.append(path.substring_char(cut, n));
            proof {
                let p = path@;
                let bn = base_name_of(p);
                let d = last_index_of(bn, '.');
                assert(has_extension_name(bn));
                assert(p.subrange(0, cut as int) =~= p.subrange(0, ns as int) + bn.subrange(0, d));
                assert(p.subrange(cut as int, n as int) =~= bn.subrange(d, bn.len() as int));
                assert(r@ =~= transformed_path(p, salt@));
            }
            r
        },
        None => {
            let mut r = String::from_str(path);
            r.append(salt);
            proof {
                let p = path@;
                assert(!has_extension_name(base_name_of(p)));
                assert(p.subrange(0, ns as int) + base_name_of(p) =~= p);
                assert(r@ =~= transformed_path(p, salt@));
            }
            r
        },
    }
}

/// Salting keeps the base name nonempty whenever the salt holds no path
/// separator: the transformed path can itself be taken up as a file again.
pub proof fn lemma_transformed_base_name_nonempty(p: Seq<char>, z: Seq<char>)
    requires
        base_name_of(p).len() > 0,
        !z.contains('/'),
    ensures
        base_name_of(transformed_path(p, z)).len() > 0,
{
    lemma_last_index_of(p, '/');
    let ns = name_start(p);
    let bn = base_name_of(p);
    assert(!bn.contains('/')) by {
        if bn.contains('/') {
            let i = choose|i: int| 0 <= i < bn.len() && bn[i] == '/';
            assert(p[ns + i] == '/');
        }
    }
    let sn = salted_name(bn, z);
    assert(!sn.contains('/') && sn.len() > 0) by {
        if has_extension_name(bn) {
            let d = last_index_of(bn, '.');
            lemma_last_index_of(bn, '.');
            lemma_subrange_without(bn, '/', 0, d);
            lemma_subrange_without(bn, '/', d, bn.len() as int);
            lemma_concat_without(bn.subrange(0, d), z, '/');
            lemma_concat_without(bn.subrange(0, d) + z, bn.subrange(d, bn.len() as int), '/');
            assert(sn =~= (bn.subrange(0, d) + z) + bn.subrange(d, bn.len() as int));
        } else {
            lemma_concat_without(bn, z, '/');
        }
    }
    let t = transformed_path(p, z);
    let a = p.subrange(0, ns);
    lemma_last_index_of_append_without(a, sn, '/');
    if ns == 0 {
        assert(a =~= Seq::<char>::empty());
        assert(last_index_of(a, '/') == -1);
        assert(base_name_of(t) =~= sn);
    } else {
        assert(a.last() == p[ns - 1]);
        assert(p[ns - 1] == '/');
        assert(last_index_of(a, '/') == ns - 1);
        assert(base_name_of(t) =~= sn);
    }
}

/// Law: a path without any dot has no extension anywhere, so the salt is
/// appended at the very end: `transform(f, z) == f + z`.
pub proof fn lemma_transform_no_dot(f: Seq<char>, z: Seq<char>)
    ensures
        !f.contains('.') ==> transformed_path(f, z) == f + z,
{
    if !f.contains('.') {
        lemma_last_index_of(f, '/');
        let ns = name_start(f);
        let bn = base_name_of(f);
        lemma_subrange_without(f, '.', ns, f.len() as int);
        lemma_last_index_of(bn, '.');
        assert(last_index_of(bn, '.') == -1) by {
            if last_index_of(bn, '.') >= 0 {
                assert(bn[last_index_of(bn, '.')] == '.');
                assert(bn.contains('.'));
            }
        }
        assert(transformed_path(f, z) =~= f + z);
    }
}

/// Law: for a stem `s` (nonempty, not ending in a path separator) and an
/// extension `e` (free of dots and separators), salting `s + "." + e`
/// puts the salt between stem and dot: the result is `s + z + "." + e`.
pub proof fn lemma_transform_with_extension(s: Seq<char>, e: Seq<char>, z: Seq<char>)
    requires
        s.len() > 0,
        s.last() != '/',
        !e.contains('.'),
        !e.contains('/'),
    ensures
        transformed_path(s + seq!['.'] + e, z) == s + z + seq!['.'] + e,
{
    let dot = seq!['.'];
    let p = s + dot + e;
    assert(!dot.contains('/')) by {
        if dot.contains('/') {
            let i = choose|i: int| 0 <= i < dot.len() && dot[i] == '/';
            assert(dot[0] == '.');
        }
    }
    lemma_concat_without(dot, e, '/');
    assert(p =~= s + (dot + e));
    lemma_last_index_of_append_without(s, dot + e, '/');
    assert(last_index_of(p, '/') == last_index_of(s, '/'));
    lemma_last_index_of(s, '/');
    assert(last_index_of(s, '/') < s.len() - 1) by {
        if last_index_of(s, '/') == s.len() - 1 {
            assert(s[s.len() - 1] == '/');
        }
    }
    let ns = name_start(p);
    assert(0 <= ns <= s.len() - 1);
    let bn = base_name_of(p);
    let tail = s.subrange(ns, s.len() as int);
    assert(bn =~= (tail + dot) + e);
    assert((tail + dot).last() == '.');
    assert(last_index_of(tail + dot, '.') == s.len() - ns);
    lemma_last_index_of_append_without(tail + dot, e, '.');
    let d = last_index_of(bn, '.');
    assert(d == s.len() - ns);
    assert(has_extension_name(bn));
    assert(bn.subrange(0, d) =~= tail);
    assert(bn.subrange(d, bn.len() as int) =~= dot + e);
    assert(transformed_path(p, z) =~= s + z + dot + e);
}

/// Law: only the segment after the last dot of a base name is its
/// extension.  A base name with an extension splits as
/// `stem + "." + extension` with a nonempty stem and a dot-free
/// extension, and salting it yields `stem + salt + "." + extension`.
pub proof fn lemma_extension_after_last_dot(n: Seq<char>, z: Seq<char>)
    requires
        has_extension_name(n),
    ensures
        stem_of(n).len() >= 1,
        !ext_of(n).contains('.'),
        n == stem_of(n) + seq!['.'] + ext_of(n),
        salted_name(n, z) == stem_of(n) + z + seq!['.'] + ext_of(n),
{
    lemma_last_index_of(n, '.');
    let d = last_index_of(n, '.');
    assert(!ext_of(n).contains('.')) by {
        if ext_of(n).contains('.') {
            let i = choose|i: int| 0 <= i < ext_of(n).len() && ext_of(n)[i] == '.';
            assert(n[d + 1 + i] == '.');
        }
    }
    assert(n =~= stem_of(n) + seq!['.'] + ext_of(n));
    assert(n.subrange(d, n.len() as int) =~= seq!['.'] + ext_of(n));
    assert(salted_name(n, z) =~= stem_of(n) + z + seq!['.'] + ext_of(n));
}

/// Law: salting is not idempotent.  Applying the transformation twice
/// with the same dot-free salt to a dot-free name appends the salt twice,
/// and the second application changes the name again whenever the salt is
/// nonempty.
pub proof fn lemma_transform_twice(f: Seq<char>, z: Seq<char>)
    requires
        !f.contains('.'),
        !z.contains('.'),
    ensures
        transformed_path(transformed_path(f, z), z) == f + z + z,
        z.len() > 0 ==> transformed_path(transformed_path(f, z), z) != transformed_path(f, z),
{
    lemma_transform_no_dot(f, z);
    lemma_concat_without(f, z, '.');
    lemma_transform_no_dot(f + z, z);
    assert(transformed_path(transformed_path(f, z), z) =~= f + z + z);
    if z.len() > 0 {
        assert((f + z + z).len() != (f + z).len());
    }
}

} // verus!
