//! Borrowing: reading and changing a value that another one owns.

use vstd::prelude::*;
use vstd::string::{StringExecFns, StringSliceAdditionalSpecFns};
use vstd::utf8::{
    encode_utf8, encode_utf8_valid_utf8, is_char_boundary_iff_not_is_continuation_byte,
};

verus! {

/// The byte that ends a word.
pub const SPACE: u8 = 32;

/// The length of a string: the number of bytes of its UTF-8 form.
pub fn calculate_length(s: &String) -> (length: usize)
    ensures
        length == encode_utf8(s@).len(),
{
    s.as_str().as_bytes().len()
}

/// Appends `, world` to the string.
pub fn change(some_string: &mut String)
    ensures
        final(some_string)@ == old(some_string)@ + ", world"@,
{
    some_string.append(", world");
}

/// The first word of `bytes` ends at `n`: no space stands before `n`, and at
/// `n` stands a space or the end.
pub open spec fn word_ends_at(bytes: Seq<u8>, n: int) -> bool {
    &&& 0 <= n <= bytes.len()
    &&& forall|i: int| 0 <= i < n ==> bytes[i] != SPACE
    &&& (n == bytes.len() || bytes[n] == SPACE)
}

/// The first word of a string: what stands before its first space, or all of
/// it where it has none.
pub fn get_first_word(s: &str) -> (word: &str)
    ensures
        exists|n: int|
            #[trigger] word_ends_at(s.spec_bytes(), n) && word.spec_bytes() == s.spec_bytes().take(
                n,
            ),
{
    let bytes = s.as_bytes();
    let mut i: usize = 0;
    while i < bytes.len()
        invariant
            0 <= i <= bytes.len(),
            bytes@ == s.spec_bytes(),
            forall|k: int| 0 <= k < i ==> bytes@[k] != SPACE,
        decreases bytes.len() - i,
    {
        if bytes[i] == SPACE {
            proof {
                encode_utf8_valid_utf8(s@);
                is_char_boundary_iff_not_is_continuation_byte(bytes@, i as int);
            }
            let (word, _) = s.split_at(i);
            proof {
                assert(word_ends_at(s.spec_bytes(), i as int));
                assert(word.spec_bytes() == s.spec_bytes().take(i as int));
            }
            return word;
        }
        i += 1;
    }
    proof {
        assert(word_ends_at(s.spec_bytes(), bytes@.len() as int));
        assert(s.spec_bytes() == s.spec_bytes().take(bytes@.len() as int));
    }
    s
}

/// A string of its own, not a reference to one that is gone: `hello`.
pub fn no_dangle() -> (text: String)
    ensures
        text@ == "hello"@,
{
    let s = "hello".to_owned();
    s
}

} // verus!
