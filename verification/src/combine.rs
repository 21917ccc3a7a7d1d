//! Joining a route prefix with the path of a nested route.

use vstd::prelude::*;
use crate::strutil::{chars_to_string, str_to_chars};

verus! {

/// Drop every trailing slash.
pub open spec fn trim_trailing_slashes(s: Seq<char>) -> Seq<char>
    decreases s.len(),
{
    if s.len() > 0 && s.last() == '/' {
        trim_trailing_slashes(s.drop_last())
    } else {
        s
    }
}

/// Drop every leading slash.
pub open spec fn trim_leading_slashes(s: Seq<char>) -> Seq<char>
    decreases s.len(),
{
    if s.len() > 0 && s[0] == '/' {
        trim_leading_slashes(s.drop_first())
    } else {
        s
    }
}

/// What combining a prefix path with a nested path returns: the trimmed
/// sides joined by a single slash, the root `/` standing in whenever both
/// sides are empty, and no doubled separator when one side is.
pub open spec fn spec_combine_paths(prefix: Seq<char>, nested: Seq<char>) -> Seq<char> {
    let p = trim_trailing_slashes(prefix);
    let n = trim_leading_slashes(nested);
    if p.len() == 0 && n.len() == 0 {
        seq!['/']
    } else if p.len() == 0 {
        seq!['/'] + n
    } else if n.len() == 0 {
        p
    } else {
        p + seq!['/'] + n
    }
}

/// Join a route prefix and a nested route's own path into one path.
/// Trailing slashes of the prefix and leading slashes of the nested path
/// are trimmed so that no doubled `/` appears; two root paths combine to
/// the root, never to an empty string.
pub fn combine_paths(prefix: &str, nested: &str) -> (r: String)
    ensures
        r@ == spec_combine_paths(prefix@, nested@),
{
    let pc = str_to_chars(prefix);
    let nc = str_to_chars(nested);
    let mut pe: usize = pc.len();
    proof {
        assert(pc@.take(pc@.len() as int) =~= pc@);
    }
    while pe > 0 && pc[pe - 1] == '/'
        invariant
            pe <= pc@.len(),
            trim_trailing_slashes(pc@) == trim_trailing_slashes(pc@.take(pe as int)),
        decreases pe,
    {
        proof {
            assert(pc@.take(pe as int).drop_last() =~= pc@.take(pe - 1));
            assert(pc@.take(pe as int).last() == pc@[pe - 1]);
        }
        pe = pe - 1;
    }
    proof {
        if pe > 0 {
            assert(pc@.take(pe as int).last() == pc@[pe - 1]);
        }
        assert(trim_trailing_slashes(pc@.take(pe as int)) =~= pc@.take(pe as int));
    }
    let mut ns: usize = 0;
    proof {
        assert(nc@.skip(0) =~= nc@);
    }
    while ns < nc.len() && nc[ns] == '/'
        invariant
            ns <= nc@.len(),
            trim_leading_slashes(nc@) == trim_leading_slashes(nc@.skip(ns as int)),
        decreases nc@.len() - ns,
    {
        proof {
            assert(nc@.skip(ns as int).drop_first() =~= nc@.skip(ns + 1));
        }
        ns = ns + 1;
    }
    proof {
        if ns < nc@.len() {
            assert(nc@.skip(ns as int)[0] == nc@[ns as int]);
        }
        assert(trim_leading_slashes(nc@.skip(ns as int)) =~= nc@.skip(ns as int));
    }
    let mut out: Vec<char> = Vec::new();
    if pe == 0 && ns == nc.len() {
        out.push('/');
        proof {
            assert(out@ =~= spec_combine_paths(prefix@, nested@));
        }
    } else if pe == 0 {
        out.push('/');
        let mut i: usize = ns;
        while i < nc.len()
            invariant
                ns <= i <= nc@.len(),
                out@ == seq!['/'] + nc@.subrange(ns as int, i as int),
            decreases nc@.len() - i,
        {
            out.push(nc[i]);
            i = i + 1;
            proof {
                assert(out@ =~= seq!['/'] + nc@.subrange(ns as int, i as int));
            }
        }
        proof {
            assert(nc@.subrange(ns as int, nc@.len() as int) =~= nc@.skip(ns as int));
        }
    } else if ns == nc.len() {
        let mut i: usize = 0;
        while i < pe
            invariant
                i <= pe <= pc@.len(),
                out@ == pc@.subrange(0, i as int),
            decreases pe - i,
        {
            out.push(pc[i]);
            i = i + 1;
            proof {
                assert(out@ =~= pc@.subrange(0, i as int));
            }
        }
        proof {
            assert(pc@.subrange(0, pe as int) =~= pc@.take(pe as int));
        }
    } else {
        let mut i: usize = 0;
        while i < pe
            invariant
                i <= pe <= pc@.len(),
                out@ == pc@.subrange(0, i as int),
            decreases pe - i,
        {
            out.push(pc[i]);
            i = i + 1;
            proof {
                assert(out@ =~= pc@.subrange(0, i as int));
            }
        }
        out.push('/');
        let ghost base = out@;
        let mut i: usize = ns;
        while i < nc.len()
            invariant
                ns <= i <= nc@.len(),
                out@ == base + nc@.subrange(ns as int, i as int),
            decreases nc@.len() - i,
        {
            out.push(nc[i]);
            i = i + 1;
            proof {
                assert(out@ =~= base + nc@.subrange(ns as int, i as int));
            }
        }
        proof {
            assert(pc@.subrange(0, pe as int) =~= pc@.take(pe as int));
            assert(nc@.subrange(ns as int, nc@.len() as int) =~= nc@.skip(ns as int));
            assert(out@ =~= pc@.take(pe as int) + seq!['/'] + nc@.skip(ns as int));
        }
    }
    chars_to_string(&out)
}

} // verus!
