//! Pieces of an outbound backend call that are pure text work: joining
//! the backend's base address with the endpoint path, and the bearer
//! credential header.

use vstd::prelude::*;

verus! {

/// `s` with every trailing `/` removed.
pub open spec fn spec_trim_trailing_slashes(s: Seq<char>) -> Seq<char>
    decreases s.len(),
{
    if s.len() > 0 && s.last() == '/' {
        spec_trim_trailing_slashes(s.drop_last())
    } else {
        s
    }
}

/// The URL an outbound call targets: the base address without trailing
/// slashes, followed by the endpoint path (which starts with `/`).
pub fn join_url(base: &str, endpoint: &str) -> (r: String)
    ensures
        r@ == spec_trim_trailing_slashes(base@) + endpoint@,
{
    let len = base.unicode_len();
    let mut k = len;
    proof {
        assert(base@.subrange(0, len as int) =~= base@);
    }
    loop
        invariant_except_break
            k <= len,
            len == base@.len(),
            spec_trim_trailing_slashes(base@) == spec_trim_trailing_slashes(
                base@.subrange(0, k as int),
            ),
        ensures
            k <= len,
            len == base@.len(),
            spec_trim_trailing_slashes(base@) == base@.subrange(0, k as int),
        decreases k,
    {
        if k == 0 {
            proof {
                assert(base@.subrange(0, 0) =~= Seq::<char>::empty());
            }
            break;
        }
        proof {
            assert(base@.subrange(0, k as int).last() == base@[k as int - 1]);
        }
        if base.get_char(k - 1) != '/' {
            break;
        }
        proof {
            assert(base@.subrange(0, k as int).drop_last() =~= base@.subrange(0, k as int - 1));
        }
        k = k - 1;
    }
    let prefix = base.substring_char(0, k);
    String::from_str(prefix).concat(endpoint)
}

/// The value of the outbound authorization header for a backend
/// configured with `token`.
pub fn bearer_value(token: &str) -> (r: String)
    ensures
        r@ == "Bearer "@ + token@,
{
    String::from_str("Bearer ").concat(token)
}

} // verus!
