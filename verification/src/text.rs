//! Text helpers.

use vstd::prelude::*;

use crate::chars::{find_char, lemma_find_char};

verus! {

/// The first word of `s`: the longest prefix holding no space.
pub fn first_word(s: &str) -> (r: &str)
    ensures
        r@ == s@.take(find_char(s@, ' ')),
{
    let n = s.unicode_len();
    let mut i: usize = 0;
    while i < n && s.get_char(i) != ' '
        invariant
            n == s@.len(),
            i <= n,
            forall|k: int| 0 <= k < i ==> s@[k] != ' ',
        decreases n - i,
    {
        i = i + 1;
    }
    proof {
        lemma_find_char(s@, ' ');
        let f = find_char(s@, ' ');
        if f < i {
            assert(s@[f] != ' ');
        }
        if f > i {
            assert(i < s@.len() && s@[i as int] == ' ');
            assert(s@[i as int] != ' ');
        }
    }
    let word = s.substring_char(0, i);
    proof {
        assert(word@ =~= s@.take(i as int));
    }
    word
}

} // verus!
