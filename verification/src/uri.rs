//! Origin URIs and route path patterns.
//!
//! An [`Origin`] is an already-parsed origin URI: its path segments and an
//! optional query string. A route's path pattern is a sequence of
//! [`Segment`]s: literal segments, single dynamic segments, and a trailing
//! dynamic segment that swallows the rest of a path.

use vstd::prelude::*;

verus! {

/// An already-parsed origin URI: path segments plus an optional query.
pub struct Origin {
    pub segments: Vec<String>,
    pub query: Option<String>,
}

impl Origin {
    pub fn new(segments: Vec<String>, query: Option<String>) -> (r: Origin)
        ensures
            r.segments == segments,
            r.query == query,
    {
        Origin { segments, query }
    }
}

/// One segment of a route's path pattern.
pub enum Segment {
    /// A literal segment, matching exactly itself.
    Fixed(String),
    /// A dynamic segment, matching any single path segment; the string is
    /// the parameter's name and plays no part in matching.
    Param(String),
    /// A trailing dynamic segment, matching the whole remaining path,
    /// including an empty one.
    Trail(String),
}

/// Whether two pattern segments are the same shape: literals must agree,
/// dynamic segments are the same whatever their parameter names.
pub open spec fn seg_same(a: Segment, b: Segment) -> bool {
    match (a, b) {
        (Segment::Fixed(x), Segment::Fixed(y)) => x@ == y@,
        (Segment::Param(_), Segment::Param(_)) => true,
        (Segment::Trail(_), Segment::Trail(_)) => true,
        _ => false,
    }
}

/// Whether two patterns are the same shape, segment by segment.
pub open spec fn segs_same(a: Seq<Segment>, b: Seq<Segment>) -> bool {
    &&& a.len() == b.len()
    &&& forall|i: int| 0 <= i < a.len() ==> seg_same(#[trigger] a[i], b[i])
}

/// Whether a pattern matches a request path, segment-wise: a literal matches
/// itself, a dynamic segment matches any one segment, and a trailing segment
/// matches whatever remains.
pub open spec fn pattern_matches(pat: Seq<Segment>, path: Seq<Seq<char>>) -> bool
    decreases pat.len(),
{
    if pat.len() == 0 {
        path.len() == 0
    } else {
        match pat[0] {
            Segment::Trail(_) => true,
            Segment::Fixed(s) => path.len() > 0 && path[0] == s@ && pattern_matches(
                pat.drop_first(),
                path.drop_first(),
            ),
            Segment::Param(_) => path.len() > 0 && pattern_matches(
                pat.drop_first(),
                path.drop_first(),
            ),
        }
    }
}

/// The view of a path as a sequence of character sequences.
pub open spec fn path_view(path: Seq<String>) -> Seq<Seq<char>> {
    path.map_values(|s: String| s@)
}

/// Compares two pattern segments for shape equality.
pub fn seg_same_exec(a: &Segment, b: &Segment) -> (r: bool)
    ensures
        r == seg_same(*a, *b),
{
    match (a, b) {
        (Segment::Fixed(x), Segment::Fixed(y)) => *x == *y,
        (Segment::Param(_), Segment::Param(_)) => true,
        (Segment::Trail(_), Segment::Trail(_)) => true,
        _ => false,
    }
}

/// Compares two patterns for shape equality.
pub fn segs_same_exec(a: &Vec<Segment>, b: &Vec<Segment>) -> (r: bool)
    ensures
        r == segs_same(a@, b@),
{
    if a.len() != b.len() {
        return false;
    }
    let mut i: usize = 0;
    while i < a.len()
        invariant
            i <= a.len(),
            a@.len() == b@.len(),
            forall|j: int| 0 <= j < i ==> seg_same(#[trigger] a@[j], b@[j]),
        decreases a.len() - i,
    {
        if !seg_same_exec(&a[i], &b[i]) {
            return false;
        }
        i += 1;
    }
    true
}

/// Decides whether a pattern matches a request path.
pub fn matches_path(pat: &Vec<Segment>, path: &Vec<String>) -> (r: bool)
    ensures
        r == pattern_matches(pat@, path_view(path@)),
{
    let mut i: usize = 0;
    proof {
        assert(pat@.skip(0) =~= pat@);
        assert(path_view(path@).skip(0) =~= path_view(path@));
    }
    loop
        invariant
            i <= pat.len(),
            i <= path.len(),
            pattern_matches(pat@, path_view(path@)) == pattern_matches(
                pat@.skip(i as int),
                path_view(path@).skip(i as int),
            ),
        decreases pat.len() - i,
    {
        if i == pat.len() {
            proof {
                assert(pat@.skip(i as int).len() == 0);
            }
            return path.len() == i;
        }
        proof {
            assert(pat@.skip(i as int)[0] == pat@[i as int]);
            assert(path_view(path@).skip(i as int).len() == path@.len() - i);
            if i < path.len() {
                assert(path_view(path@).skip(i as int)[0] == path@[i as int]@);
                assert(path_view(path@).skip(i as int).drop_first() =~= path_view(path@).skip(
                    i + 1,
                ));
            }
            assert(pat@.skip(i as int).drop_first() =~= pat@.skip(i + 1));
        }
        let matched: bool = match &pat[i] {
            Segment::Trail(_) => {
                return true;
            },
            Segment::Fixed(s) => i < path.len() && *s == path[i],
            Segment::Param(_) => i < path.len(),
        };
        if !matched {
            return false;
        }
        i += 1;
    }
}

/// The pattern that stands for a literal base path.
pub open spec fn fixed_of(base: Seq<String>) -> Seq<Segment> {
    base.map_values(|s: String| Segment::Fixed(s))
}

/// Resolves a declared pattern against a mount base: the base's segments,
/// as literals, followed by the declared segments.
pub fn resolve(base: &Vec<String>, declared: &Vec<Segment>) -> (r: Vec<Segment>)
    ensures
        r@ == fixed_of(base@) + declared@,
{
    let mut out: Vec<Segment> = Vec::new();
    let mut i: usize = 0;
    while i < base.len()
        invariant
            i <= base.len(),
            out@ == fixed_of(base@.take(i as int)),
        decreases base.len() - i,
    {
        out.push(Segment::Fixed(base[i].clone()));
        proof {
            assert(fixed_of(base@.take(i + 1)) =~= fixed_of(base@.take(i as int)).push(
                Segment::Fixed(base@[i as int]),
            ));
        }
        i += 1;
    }
    proof {
        assert(base@.take(base@.len() as int) =~= base@);
    }
    let mut j: usize = 0;
    while j < declared.len()
        invariant
            j <= declared.len(),
            out@ == fixed_of(base@) + declared@.take(j as int),
        decreases declared.len() - j,
    {
        let s: Segment = match &declared[j] {
            Segment::Fixed(s) => Segment::Fixed(s.clone()),
            Segment::Param(s) => Segment::Param(s.clone()),
            Segment::Trail(s) => Segment::Trail(s.clone()),
        };
        out.push(s);
        proof {
            assert(fixed_of(base@) + declared@.take(j + 1) =~= (fixed_of(base@)
                + declared@.take(j as int)).push(declared@[j as int]));
        }
        j += 1;
    }
    proof {
        assert(declared@.take(declared@.len() as int) =~= declared@);
    }
    out
}

/// A route declared at some pattern and mounted under a base is reachable at
/// the base's path followed by a path its declared pattern matches — and at
/// no other path that starts otherwise.
pub proof fn lemma_mount_reachability(base: Seq<String>, declared: Seq<Segment>, rest: Seq<Seq<char>>)
    ensures
        pattern_matches(fixed_of(base) + declared, path_view(base) + rest) == pattern_matches(
            declared,
            rest,
        ),
    decreases base.len(),
{
    if base.len() == 0 {
        assert(fixed_of(base) + declared =~= declared);
        assert(path_view(base) + rest =~= rest);
    } else {
        let pat = fixed_of(base) + declared;
        let path = path_view(base) + rest;
        assert(pat[0] == Segment::Fixed(base[0]));
        assert(path[0] == base[0]@);
        assert(pat.drop_first() =~= fixed_of(base.drop_first()) + declared);
        assert(path.drop_first() =~= path_view(base.drop_first()) + rest);
        lemma_mount_reachability(base.drop_first(), declared, rest);
    }
}

} // verus!
