use vstd::prelude::*;

verus! {

/// Is `b` one of the sixteen lowercase hex digits `0-9a-f`?
pub open spec fn is_lower_hex_digit(b: u8) -> bool {
    // ASCII 0-9 and a-f
    (48 <= b <= 57) || (97 <= b <= 102)
}

/// Does `s` consist of lowercase hex digits only?
pub open spec fn is_lower_hex(s: Seq<u8>) -> bool {
    forall|i: int| 0 <= i < s.len() ==> #[trigger] is_lower_hex_digit(s[i])
}

/// Appends the bytes of `src` to `out`.
pub fn push_all(out: &mut Vec<u8>, src: &[u8])
    ensures
        final(out)@ == old(out)@ + src@,
{
    let mut i: usize = 0;
    while i < src.len()
        invariant
            0 <= i <= src@.len(),
            out@ == old(out)@ + src@.subrange(0, i as int),
        decreases src@.len() - i,
    {
        out.push(src[i]);
        i = i + 1;
        proof {
            assert(src@.subrange(0, i as int) == src@.subrange(0, i - 1) + seq![src@[i - 1]]);
        }
    }
    assert(src@.subrange(0, src@.len() as int) == src@);
}

/// Tests whether every byte of `s` is a lowercase hex digit.
pub fn all_lower_hex(s: &[u8]) -> (r: bool)
    ensures
        r == is_lower_hex(s@),
{
    let mut i: usize = 0;
    while i < s.len()
        invariant
            0 <= i <= s@.len(),
            forall|j: int| 0 <= j < i ==> #[trigger] is_lower_hex_digit(s@[j]),
        decreases s@.len() - i,
    {
        let b = s[i];
        if !((48 <= b && b <= 57) || (97 <= b && b <= 102)) {
            assert(!is_lower_hex_digit(s@[i as int]));
            return false;
        }
        i = i + 1;
    }
    true
}

} // verus!
