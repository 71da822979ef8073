//! Canonical on-disk layout: pure path arithmetic on UTF-8 path strings.
//!
//! Paths are plain `String`s joined with `/`; nothing here touches a disk.

use vstd::prelude::*;

verus! {

/// The sequence of characters of `a`, a separating slash, and `b`.
pub open spec fn spec_join(a: Seq<char>, b: Seq<char>) -> Seq<char> {
    a + seq!['/'] + b
}

/// Join two path components with a single `/`.
pub fn path_join(a: &str, b: &str) -> (r: String)
    ensures
        r@ == spec_join(a@, b@),
{
    let mut s = a.to_owned();
    s.append("/");
    s.append(b);
    proof {
        reveal_strlit("/");
        assert(s@ =~= spec_join(a@, b@));
    }
    s
}

} // verus!
