//! Request paths and their pieces.

use vstd::prelude::*;
use crate::text::{copy_range, find, find_from, lemma_find, SLASH};

verus! {

/// The `n`-th piece of `path` when it is cut at every slash, counting from
/// zero. A path that starts with a slash has an empty piece zero.
pub open spec fn segment(path: Seq<u8>, n: nat) -> Option<Seq<u8>>
    decreases n,
{
    let end = find(path, seq![SLASH]) as int;
    if n == 0 {
        Some(path.take(end))
    } else if end >= path.len() {
        None
    } else {
        segment(path.skip(end + 1), (n - 1) as nat)
    }
}

/// Cuts `path` at every slash and copies the `n`-th piece.
pub fn path_segment(path: &[u8], n: usize) -> (r: Option<Vec<u8>>)
    ensures
        match r {
            Some(piece) => segment(path@, n as nat) == Some(piece@),
            None => segment(path@, n as nat) is None,
        },
{
    let slash: [u8; 1] = [SLASH];
    let mut pos: usize = 0;
    let mut left: usize = n;
    assert(path@.skip(0) =~= path@);
    loop
        invariant
            0 <= pos <= path.len(),
            slash@ == seq![SLASH],
            segment(path@, n as nat) == segment(path@.skip(pos as int), left as nat),
        decreases left,
    {
        let ghost rest = path@.skip(pos as int);
        let end = find_from(path, pos, slash.as_slice());
        proof {
            lemma_find(rest, seq![SLASH]);
        }
        if left == 0 {
            let piece = copy_range(path, pos, end);
            assert(piece@ =~= rest.take(end - pos));
            return Some(piece);
        }
        if end >= path.len() {
            return None;
        }
        assert(rest.skip(end - pos + 1) =~= path@.skip(end + 1));
        pos = end + 1;
        left = left - 1;
    }
}

} // verus!
