//! Paths as sequences of name components.
//!
//! A filesystem path is modelled as a vector of components: `/a/b/c.sw` is
//! `["a", "b", "c.sw"]` and the filesystem root `/` is the empty vector.
//! Canonical paths contain no `.` or `..` components; producing a canonical
//! path from a raw one is the caller's concern.

use vstd::prelude::*;
use vstd::string::*;

verus! {

/// `p` is an ancestor of `q` or `q` itself: every component of `p` starts `q`.
pub open spec fn is_path_prefix(p: Seq<Seq<char>>, q: Seq<Seq<char>>) -> bool {
    p.len() <= q.len() && p == q.subrange(0, p.len() as int)
}

/// The directory containing `p`: all components but the last.
pub open spec fn parent_of(p: Seq<Seq<char>>) -> Seq<Seq<char>>
    recommends
        p.len() > 0,
{
    p.subrange(0, p.len() - 1)
}

/// Index of the last `.` in a name, or `-1` when the name has none.
pub open spec fn last_dot(n: Seq<char>) -> int
    decreases n.len(),
{
    if n.len() == 0 {
        -1
    } else if n.last() == '.' {
        n.len() - 1
    } else {
        last_dot(n.drop_last())
    }
}

/// The name has extension `e`: a `.` stands somewhere after the first
/// character and everything after the last `.` equals `e`. This follows the
/// usual reading of file extensions: a lone leading dot (as in `.profile`)
/// introduces no extension, and the extension never contains a dot.
pub open spec fn has_extension(n: Seq<char>, e: Seq<char>) -> bool {
    last_dot(n) >= 1 && n.subrange(last_dot(n) + 1, n.len() as int) == e
}

proof fn lemma_last_dot_at(n: Seq<char>, i: int)
    requires
        0 <= i < n.len(),
        n[i] == '.',
        forall|j: int| i < j < n.len() ==> n[j] != '.',
    ensures
        last_dot(n) == i,
    decreases n.len(),
{
    if i < n.len() - 1 {
        lemma_last_dot_at(n.drop_last(), i);
    }
}

proof fn lemma_no_dot(n: Seq<char>)
    requires
        forall|j: int| 0 <= j < n.len() ==> n[j] != '.',
    ensures
        last_dot(n) == -1,
    decreases n.len(),
{
    if n.len() > 0 {
        lemma_no_dot(n.drop_last());
    }
}

/// True when the two strings hold the same characters.
pub fn str_eq(a: &String, b: &String) -> (r: bool)
    ensures
        r == (a@ == b@),
{
    *a == *b
}

/// True when the two paths name the same filesystem entry.
pub fn path_eq(a: &Vec<String>, b: &Vec<String>) -> (r: bool)
    ensures
        r == (a.deep_view() == b.deep_view()),
{
    if a.len() != b.len() {
        assert(a.deep_view().len() != b.deep_view().len());
        return false;
    }
    let n = a.len();
    let mut i: usize = 0;
    while i < n
        invariant
            n == a.len() == b.len(),
            0 <= i <= n,
            forall|j: int| 0 <= j < i ==> a.deep_view()[j] == b.deep_view()[j],
        decreases n - i,
    {
        if !str_eq(&a[i], &b[i]) {
            assert(a.deep_view()[i as int] != b.deep_view()[i as int]);
            return false;
        }
        i += 1;
    }
    assert(a.deep_view() =~= b.deep_view());
    true
}

/// True when `a` is an ancestor of `b` or equals `b`.
pub fn is_prefix_exec(a: &Vec<String>, b: &Vec<String>) -> (r: bool)
    ensures
        r == is_path_prefix(a.deep_view(), b.deep_view()),
{
    if a.len() > b.len() {
        return false;
    }
    let n = a.len();
    let mut i: usize = 0;
    while i < n
        invariant
            n == a.len() <= b.len(),
            0 <= i <= n,
            forall|j: int| 0 <= j < i ==> a.deep_view()[j] == b.deep_view()[j],
        decreases n - i,
    {
        if !str_eq(&a[i], &b[i]) {
            assert(a.deep_view()[i as int] != b.deep_view().subrange(
                0,
                a.deep_view().len() as int,
            )[i as int]);
            return false;
        }
        i += 1;
    }
    assert(a.deep_view() =~= b.deep_view().subrange(0, a.deep_view().len() as int));
    true
}

/// A fresh path holding the first `n` components of `p`.
pub fn path_prefix_copy(p: &Vec<String>, n: usize) -> (r: Vec<String>)
    requires
        n <= p.len(),
    ensures
        r.deep_view() == p.deep_view().subrange(0, n as int),
{
    let mut r: Vec<String> = Vec::new();
    let mut i: usize = 0;
    while i < n
        invariant
            n <= p.len(),
            0 <= i <= n,
            r.len() == i,
            forall|j: int| 0 <= j < i ==> r.deep_view()[j] == p.deep_view()[j],
        decreases n - i,
    {
        r.push(p[i].clone());
        i += 1;
    }
    assert(r.deep_view() =~= p.deep_view().subrange(0, n as int));
    r
}

/// True when `name` has extension `ext`, as [`has_extension`] states.
pub fn name_has_extension(name: &str, ext: &str) -> (r: bool)
    ensures
        r == has_extension(name@, ext@),
{
    let n = name.unicode_len();
    let mut i: usize = n;
    while i > 0 && name.get_char(i - 1) != '.'
        invariant
            0 <= i <= n == name@.len(),
            forall|j: int| i <= j < n ==> name@[j] != '.',
        decreases i,
    {
        i -= 1;
    }
    if i == 0 {
        proof {
            lemma_no_dot(name@);
        }
        return false;
    }
    // The last dot of the name stands at `i - 1`.
    proof {
        lemma_last_dot_at(name@, i - 1);
    }
    if i == 1 {
        return false;
    }
    let e = ext.unicode_len();
    if n - i != e {
        assert(name@.subrange(last_dot(name@) + 1, name@.len() as int).len() != ext@.len());
        return false;
    }
    let mut k: usize = 0;
    while k < e
        invariant
            0 < i <= n == name@.len(),
            e == ext@.len() == n - i,
            0 <= k <= e,
            last_dot(name@) == i - 1,
            forall|j: int| 0 <= j < k ==> name@[i + j] == ext@[j],
        decreases e - k,
    {
        if name.get_char(i + k) != ext.get_char(k) {
            assert(name@.subrange(last_dot(name@) + 1, name@.len() as int)[k as int]
                != ext@[k as int]);
            return false;
        }
        k += 1;
    }
    assert(name@.subrange(last_dot(name@) + 1, name@.len() as int) =~= ext@);
    true
}

} // verus!
