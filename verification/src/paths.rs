//! Path labels: the final component of a slash-separated path, used to name
//! nodes when a directory tree is rendered.

use vstd::prelude::*;

verus! {

/// The path with any trailing separators removed.
pub open spec fn trim_trailing_slashes(s: Seq<char>) -> Seq<char>
    decreases s.len(),
{
    if s.len() > 0 && s.last() == '/' {
        trim_trailing_slashes(s.drop_last())
    } else {
        s
    }
}

/// The suffix of the path after its last separator; the whole path when it
/// has none, and empty when it ends in one.
pub open spec fn after_last_slash(s: Seq<char>) -> Seq<char>
    decreases s.len(),
{
    if s.len() == 0 {
        s
    } else if s.last() == '/' {
        Seq::empty()
    } else {
        after_last_slash(s.drop_last()).push(s.last())
    }
}

/// The label of a path: its final component, ignoring trailing separators.
pub open spec fn spec_label(s: Seq<char>) -> Seq<char> {
    after_last_slash(trim_trailing_slashes(s))
}

/// Returns the final component of `p`, ignoring trailing `/` separators:
/// the name under which the entry appears in its directory. Empty when the
/// path consists of separators alone.
pub fn label(p: &str) -> (r: String)
    ensures
        r@ == spec_label(p@),
{
    let n = p.unicode_len();
    let mut end = n;
    proof {
        assert(p@.subrange(0, n as int) =~= p@);
    }
    while end > 0 && p.get_char(end - 1) == '/'
        invariant
            end <= n,
            n == p@.len(),
            trim_trailing_slashes(p@) == trim_trailing_slashes(p@.subrange(0, end as int)),
        decreases end,
    {
        proof {
            assert(p@.subrange(0, end as int).drop_last() =~= p@.subrange(0, end - 1));
        }
        end = end - 1;
    }
    proof {
        assert(trim_trailing_slashes(p@) == p@.subrange(0, end as int));
    }
    let mut start = end;
    proof {
        assert(after_last_slash(p@.subrange(0, end as int)) + p@.subrange(
            end as int,
            end as int,
        ) =~= after_last_slash(p@.subrange(0, end as int)));
    }
    while start > 0 && p.get_char(start - 1) != '/'
        invariant
            start <= end <= n,
            n == p@.len(),
            trim_trailing_slashes(p@) == p@.subrange(0, end as int),
            after_last_slash(p@.subrange(0, end as int)) == after_last_slash(
                p@.subrange(0, start as int),
            ) + p@.subrange(start as int, end as int),
        decreases start,
    {
        proof {
            assert(p@.subrange(0, start as int).drop_last() =~= p@.subrange(0, start - 1));
            assert(after_last_slash(p@.subrange(0, start - 1)).push(p@[start - 1]) + p@.subrange(
                start as int,
                end as int,
            ) =~= after_last_slash(p@.subrange(0, start - 1)) + p@.subrange(
                start - 1,
                end as int,
            ));
        }
        start = start - 1;
    }
    proof {
        if start > 0 {
            assert(after_last_slash(p@.subrange(0, start as int)) =~= Seq::<char>::empty());
        }
        assert(after_last_slash(p@.subrange(0, start as int)) + p@.subrange(
            start as int,
            end as int,
        ) =~= p@.subrange(start as int, end as int));
    }
    let part = p.substring_char(start, end);
    part.to_owned()
}

} // verus!
