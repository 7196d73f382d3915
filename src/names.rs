use rand::Rng;
use vstd::prelude::*;

verus! {

/// The letters that generated file names are made of.
pub const NAME_CHARSET: &'static str = "abcdefghijklmnopqrstuvwxyz";

/// Relies on rand::Rng::gen_range on the thread-local generator: for a
/// non-empty range it returns a value inside it (and panics on an empty one).
#[verifier::external_body]
fn random_below(n: usize) -> (r: usize)
    requires
        n > 0,
    ensures
        r < n,
{
    rand::thread_rng().gen_range(0..n)
}

/// A random name of `length` lower-case letters.
pub fn rand_safe_string(length: usize) -> (r: String)
    ensures
        r@.len() == length,
        forall|i: int| 0 <= i < r@.len() ==> NAME_CHARSET@.contains(#[trigger] r@[i]),
{
    proof {
        reveal_strlit("abcdefghijklmnopqrstuvwxyz");
    }
    let n = NAME_CHARSET.unicode_len();
    let mut r = String::new();
    let mut i: usize = 0;
    while i < length
        invariant
            n == NAME_CHARSET@.len(),
            n == 26,
            i <= length,
            r@.len() == i,
            forall|j: int| 0 <= j < r@.len() ==> NAME_CHARSET@.contains(#[trigger] r@[j]),
        decreases length - i,
    {
        let k = random_below(n);
        let ghost before = r@;
        r.append(NAME_CHARSET.substring_char(k, k + 1));
        assert(r@ == before.push(NAME_CHARSET@[k as int]));
        assert forall|j: int| 0 <= j < r@.len() implies NAME_CHARSET@.contains(#[trigger] r@[j]) by {
            if j == i {
                assert(r@[j] == NAME_CHARSET@[k as int]);
            } else {
                assert(r@[j] == before[j]);
            }
        }
        i = i + 1;
    }
    r
}

} // verus!
