//! Page-navigation arithmetic for a display layer: moving through an
//! ordered sequence of pages with wrap-around at either end.

use vstd::prelude::*;

verus! {

use vstd::arithmetic::div_mod::lemma_add_mod_noop_right;
use vstd::arithmetic::div_mod::lemma_mod_add_multiples_vanish;
use vstd::arithmetic::div_mod::lemma_mod_division_less_than_divisor;
use vstd::arithmetic::div_mod::lemma_sub_mod_noop_right;

/// The page index reached from `current` after moving `delta` pages through
/// a cyclic sequence of `len` pages: steps past either end wrap around.
pub fn navigate(current: usize, len: usize, delta: i64) -> (r: usize)
    requires
        len >= 1,
        current < len,
    ensures
        r < len,
        r as int == (current + delta) % (len as int),
{
    let l: u128 = len as u128;
    if delta >= 0 {
        let off: u128 = (delta as u128) % l;
        proof {
            lemma_mod_division_less_than_divisor(delta as int, len as int);
            lemma_add_mod_noop_right(current as int, delta as int, len as int);
            lemma_mod_division_less_than_divisor(current as int + delta as int, len as int);
        }
        ((current as u128 + off) % l) as usize
    } else {
        let mag: u128 = ((-(delta as i128)) as u128) % l;
        proof {
            let c = current as int;
            let dd = delta as int;
            let ll = len as int;
            lemma_mod_division_less_than_divisor(-dd, ll);
            lemma_sub_mod_noop_right(c + ll, -dd, ll);
            lemma_mod_add_multiples_vanish(c + dd, ll);
            lemma_mod_division_less_than_divisor(c + dd, ll);
        }
        ((current as u128 + (l - mag)) % l) as usize
    }
}

} // verus!
