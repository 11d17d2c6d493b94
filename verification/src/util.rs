//! Small shared helpers with no domain dependencies.

use vstd::prelude::*;
use vstd::string::StringSliceAdditionalSpecFns;
use vstd::utf8::{encode_utf8, is_char_boundary};

verus! {

broadcast use vstd::string::group_string_axioms;

/// `input` cut to its first `max_len` bytes with `…` appended, or unchanged
/// when it is no longer than that. The cut must fall on a character boundary
/// (slicing a `str` elsewhere panics).
pub fn truncate_str(input: &str, max_len: usize) -> (r: String)
    requires
        input.spec_bytes().len() <= usize::MAX,
        input.spec_bytes().len() <= max_len || is_char_boundary(input.spec_bytes(), max_len as int),
    ensures
        input.spec_bytes().len() <= max_len ==> r@ == input@,
        input.spec_bytes().len() > max_len ==> r@.len() > 0 && r@.last() == '…'
            && encode_utf8(r@.drop_last()) == input.spec_bytes().subrange(0, max_len as int),
{
    if input.len() <= max_len {
        return input.to_owned();
    }
    let (head, _) = input.split_at(max_len);
    let mut out = head.to_owned();
    let ghost h = out@;
    out.push('…');
    assert(out@.drop_last() =~= h);
    out
}

} // verus!
