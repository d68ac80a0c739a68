//! Whether a string of parentheses is well formed.

use vstd::prelude::*;

verus! {

/// How many parentheses are open after the first `upto` characters of `s`:
/// one more for each `(` among them, one less for each other character.
pub open spec fn depth(s: Seq<char>, upto: int) -> int
    decreases upto,
{
    if upto <= 0 {
        0
    } else {
        depth(s, upto - 1) + if s[upto - 1] == '(' {
            1int
        } else {
            -1int
        }
    }
}

/// Whether `s` is a well-formed string of parentheses: nowhere are more
/// closed than were opened, and at the end none is left open. Every
/// character that is not `(` counts as `)`.
pub open spec fn is_balanced(s: Seq<char>) -> bool {
    &&& forall|k: int| 0 <= k <= s.len() ==> depth(s, k) >= 0
    &&& depth(s, s.len() as int) == 0
}

/// The depth never exceeds the number of characters read.
pub proof fn lemma_depth_bound(s: Seq<char>, upto: int)
    requires
        0 <= upto,
    ensures
        -upto <= depth(s, upto) <= upto,
    decreases upto,
{
    if upto > 0 {
        lemma_depth_bound(s, upto - 1);
    }
}

/// Says whether `s` is a well-formed string of parentheses.
pub fn solve(s: Vec<char>) -> (ans: bool)
    ensures
        ans == is_balanced(s@),
{
    let n = s.len();
    let mut left: usize = 0;
    let mut i: usize = 0;
    while i < n
        invariant
            n == s.len(),
            i <= n,
            left == depth(s@, i as int),
            forall|k: int| 0 <= k <= i ==> depth(s@, k) >= 0,
        decreases n - i,
    {
        proof {
            lemma_depth_bound(s@, i as int);
        }
        if s[i] == '(' {
            left += 1;
        } else {
            if left == 0 {
                assert(depth(s@, i as int + 1) < 0);
                return false;
            } else {
                left -= 1;
            }
        }
        i += 1;
    }
    left == 0
}

} // verus!
