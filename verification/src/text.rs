//! Small operations on text.

use vstd::prelude::*;
use vstd::std_specs::iter::IteratorSpec;

verus! {

/// Whether the two texts hold the same characters.
pub fn equal(a: &str, b: &str) -> (same: bool)
    ensures
        same == (a@ == b@),
{
    let mut left = a.chars();
    let mut right = b.chars();
    let ghost mut done: int = 0;
    loop
        invariant
            0 <= done <= a@.len(),
            done <= b@.len(),
            left.remaining() == a@.skip(done),
            right.remaining() == b@.skip(done),
            a@.take(done) == b@.take(done),
        decreases a@.len() - done,
    {
        match left.next() {
            None => {
                let more = right.next();
                assert(a@.take(done) == a@);
                assert(more is None ==> b@.take(done) == b@);
                return more.is_none();
            },
            Some(c) => {
                match right.next() {
                    None => {
                        return false;
                    },
                    Some(d) => {
                        if c != d {
                            assert(a@[done] != b@[done]);
                            return false;
                        }
                        proof {
                            assert(a@.take(done + 1) == a@.take(done).push(a@[done]));
                            assert(b@.take(done + 1) == b@.take(done).push(b@[done]));
                            assert(a@.skip(done).drop_first() == a@.skip(done + 1));
                            assert(b@.skip(done).drop_first() == b@.skip(done + 1));
                            done = done + 1;
                        }
                    },
                }
            },
        }
    }
}

} // verus!
