use vstd::prelude::*;

verus! {

// A filesystem path is handled as the sequence of its name components;
// the empty sequence denotes the filesystem root.  In specifications a
// path is a `Seq<Seq<char>>`, in executable code a `Vec<String>`.

/// `pre` is a (non-strict) prefix of `p`, component by component.
pub open spec fn is_prefix_of(pre: Seq<Seq<char>>, p: Seq<Seq<char>>) -> bool {
    pre.len() <= p.len() && (forall|i: int| 0 <= i < pre.len() ==> pre[i] == p[i])
}

/// `q` lies at or below the directory `p`.
pub open spec fn at_or_under(p: Seq<Seq<char>>, q: Seq<Seq<char>>) -> bool {
    is_prefix_of(p, q)
}

/// `q` lies strictly below the directory `p`.
pub open spec fn strictly_under(p: Seq<Seq<char>>, q: Seq<Seq<char>>) -> bool {
    is_prefix_of(p, q) && q.len() > p.len()
}

/// Every ancestor of `p`, `p` itself included.
pub open spec fn prefixes_of(p: Seq<Seq<char>>) -> Set<Seq<Seq<char>>> {
    Set::new(|q: Seq<Seq<char>>| is_prefix_of(q, p))
}

/// The directory that holds `p` (the root is its own parent).
pub open spec fn parent_of(p: Seq<Seq<char>>) -> Seq<Seq<char>> {
    if p.len() == 0 {
        p
    } else {
        p.take(p.len() - 1)
    }
}

/// Component-wise equality of two paths.
pub fn path_eq(a: &Vec<String>, b: &Vec<String>) -> (r: bool)
    ensures
        r <==> a.deep_view() =~= b.deep_view(),
{
    if a.len() != b.len() {
        return false;
    }
    let mut i: usize = 0;
    while i < a.len()
        invariant
            a.len() == b.len(),
            i <= a.len(),
            forall|j: int| 0 <= j < i ==> a.deep_view()[j] == b.deep_view()[j],
        decreases a.len() - i,
    {
        if !(a[i] == b[i]) {
            proof {
                assert(a.deep_view()[i as int] != b.deep_view()[i as int]);
            }
            return false;
        }
        i = i + 1;
    }
    true
}

/// Does `p` start with the components of `pre`?
pub fn path_starts_with(p: &Vec<String>, pre: &Vec<String>) -> (r: bool)
    ensures
        r <==> is_prefix_of(pre.deep_view(), p.deep_view()),
{
    if pre.len() > p.len() {
        return false;
    }
    let mut i: usize = 0;
    while i < pre.len()
        invariant
            pre.len() <= p.len(),
            i <= pre.len(),
            forall|j: int| 0 <= j < i ==> pre.deep_view()[j] == p.deep_view()[j],
        decreases pre.len() - i,
    {
        if !(pre[i] == p[i]) {
            proof {
                assert(pre.deep_view()[i as int] != p.deep_view()[i as int]);
            }
            return false;
        }
        i = i + 1;
    }
    true
}

/// A fresh copy of a path.
pub fn path_clone(p: &Vec<String>) -> (r: Vec<String>)
    ensures
        r.deep_view() =~= p.deep_view(),
{
    let mut r: Vec<String> = Vec::new();
    let mut i: usize = 0;
    while i < p.len()
        invariant
            i <= p.len(),
            r.deep_view() =~= p.deep_view().take(i as int),
        decreases p.len() - i,
    {
        let ghost prev = r.deep_view();
        r.push(p[i].clone());
        proof {
            assert(r.deep_view() =~= prev.push(p.deep_view()[i as int]));
            assert(p.deep_view().take(i + 1) =~= p.deep_view().take(i as int).push(
                p.deep_view()[i as int],
            ));
        }
        i = i + 1;
    }
    r
}

/// The concatenation `a / b`.
pub fn path_join(a: &Vec<String>, b: &Vec<String>) -> (r: Vec<String>)
    ensures
        r.deep_view() =~= a.deep_view() + b.deep_view(),
{
    let mut r = path_clone(a);
    let mut i: usize = 0;
    while i < b.len()
        invariant
            i <= b.len(),
            r.deep_view() =~= a.deep_view() + b.deep_view().take(i as int),
        decreases b.len() - i,
    {
        let ghost prev = r.deep_view();
        r.push(b[i].clone());
        proof {
            assert(r.deep_view() =~= prev.push(b.deep_view()[i as int]));
            assert(a.deep_view() + b.deep_view().take(i + 1) =~= (a.deep_view()
                + b.deep_view().take(i as int)).push(b.deep_view()[i as int]));
        }
        i = i + 1;
    }
    r
}

/// The path `p` with its first `n` components dropped.
pub fn path_skip(p: &Vec<String>, n: usize) -> (r: Vec<String>)
    requires
        n <= p.len(),
    ensures
        r.deep_view() =~= p.deep_view().skip(n as int),
{
    let mut r: Vec<String> = Vec::new();
    let mut i: usize = n;
    while i < p.len()
        invariant
            n <= i <= p.len(),
            r.deep_view() =~= p.deep_view().subrange(n as int, i as int),
        decreases p.len() - i,
    {
        let ghost prev = r.deep_view();
        r.push(p[i].clone());
        proof {
            assert(r.deep_view() =~= prev.push(p.deep_view()[i as int]));
            assert(p.deep_view().subrange(n as int, i + 1) =~= p.deep_view().subrange(
                n as int,
                i as int,
            ).push(p.deep_view()[i as int]));
        }
        i = i + 1;
    }
    r
}

/// The path of the first `n` components of `p`.
pub fn path_take(p: &Vec<String>, n: usize) -> (r: Vec<String>)
    requires
        n <= p.len(),
    ensures
        r.deep_view() =~= p.deep_view().take(n as int),
{
    let mut r: Vec<String> = Vec::new();
    let mut i: usize = 0;
    while i < n
        invariant
            i <= n <= p.len(),
            r.deep_view() =~= p.deep_view().take(i as int),
        decreases n - i,
    {
        let ghost prev = r.deep_view();
        r.push(p[i].clone());
        proof {
            assert(r.deep_view() =~= prev.push(p.deep_view()[i as int]));
            assert(p.deep_view().take(i + 1) =~= p.deep_view().take(i as int).push(
                p.deep_view()[i as int],
            ));
        }
        i = i + 1;
    }
    r
}

} // verus!
