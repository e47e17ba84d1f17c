//! Helpers shared by all source tasks.

use vstd::prelude::*;
use vstd::string::StrSliceExecFns;

verus! {

/// Whether a character survives into a provider query: everything except
/// the punctuation the providers' search syntax would misinterpret.
pub open spec fn query_keep(c: char) -> bool {
    &&& c != '&'
    &&& c != '.'
    &&& c != '\''
    &&& c != '\\'
    &&& c != '"'
    &&& c != ';'
    &&& c != ':'
    &&& c != '?'
    &&& c != '!'
}

/// The keep condition as one function value, shared by every contract.
pub open spec fn query_pred() -> spec_fn(char) -> bool {
    |c: char| query_keep(c)
}

/// A tag value made safe for a provider query: the characters the
/// providers' search syntax would misinterpret are removed, everything
/// else is kept in order.
pub fn filter_for_query(string: &str) -> (r: String)
    ensures
        r@ == string@.filter(query_pred()),
{
    let n = string.unicode_len();
    let mut out = String::new();
    let mut i: usize = 0;
    while i < n
        invariant
            n == string@.len(),
            i <= n,
            out@ == string@.take(i as int).filter(query_pred()),
        decreases n - i,
    {
        let c = string.get_char(i);
        proof {
            reveal(Seq::filter);
            assert(string@.take(i + 1).drop_last() =~= string@.take(i as int));
            assert(string@.take(i + 1).last() == string@[i as int]);
        }
        if c != '&' && c != '.' && c != '\'' && c != '\\' && c != '"' && c != ';' && c != ':' && c
            != '?' && c != '!' {
            let piece = string.substring_char(i, i + 1);
            proof {
                assert(piece@ =~= seq![string@[i as int]]);
            }
            out.append(piece);
            proof {
                assert(out@ =~= string@.take(i + 1).filter(query_pred()));
            }
        } else {
            proof {
                assert(out@ =~= string@.take(i + 1).filter(query_pred()));
            }
        }
        i += 1;
    }
    proof {
        assert(string@.take(n as int) =~= string@);
    }
    out
}

/// Byte length of the placeholder image one provider serves in place of a
/// missing thumbnail. A narrow, documented heuristic: it recognizes that
/// one fixed asset, not a semantic "no image" answer.
pub const NO_IMAGE_SENTINEL_LEN: usize = 1097;

/// Whether a downloaded payload is the provider's "no image" placeholder,
/// by its byte length.
pub fn is_no_image_sentinel(len: usize) -> (r: bool)
    ensures
        r == (len == NO_IMAGE_SENTINEL_LEN),
{
    len == NO_IMAGE_SENTINEL_LEN
}

} // verus!
