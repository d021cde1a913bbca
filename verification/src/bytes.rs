use vstd::prelude::*;

verus! {

use vstd::utf8::char_is_scalar;
use vstd::utf8::char_u32_cast;
use vstd::utf8::encode_scalar;
use vstd::utf8::encode_utf8;
use vstd::utf8::has_width_1_encoding;
use vstd::utf8::is_ascii_chars;

/// The UTF-8 encoding of text is never shorter than the text, and it spends
/// exactly one byte per character precisely when every character is ASCII;
/// one character outside the ASCII range makes the encoding strictly longer.
pub proof fn lemma_utf8_len(s: Seq<char>)
    ensures
        encode_utf8(s).len() >= s.len(),
        encode_utf8(s).len() == s.len() <==> is_ascii_chars(s),
    decreases s.len(),
{
    if s.len() == 0 {
        assert(is_ascii_chars(s));
    } else {
        let rest = s.drop_first();
        lemma_utf8_len(rest);
        let c = s[0];
        char_is_scalar(c);
        // Bridge between the character order and its scalar value.
        char_u32_cast(c, c as u32);
        assert((c as u32) as char == c);
        assert(encode_utf8(s).len() == encode_scalar(s[0] as u32).len() + encode_utf8(rest).len());
        if has_width_1_encoding(s[0] as u32) {
            assert(encode_scalar(s[0] as u32).len() == 1);
        } else {
            assert(2 <= encode_scalar(s[0] as u32).len() <= 4);
        }
        assert(forall|k: int| 0 <= k < rest.len() ==> #[trigger] rest[k] == s[k + 1]);
        if is_ascii_chars(s) {
            assert('\0' <= s[0] <= '\u{7f}');
            assert(is_ascii_chars(rest));
            assert(encode_utf8(s).len() == s.len());
        }
        if encode_utf8(s).len() == s.len() {
            // One byte went to every character, so the head is ASCII and the
            // tail encodes one byte per character as well.
            assert(encode_scalar(s[0] as u32).len() == 1);
            assert(encode_utf8(rest).len() == rest.len());
            assert(has_width_1_encoding(c as u32));
            assert(((c as u32) as char) <= '\u{7f}');
            assert(s[0] <= '\u{7f}');
            assert forall|k: int| 0 <= k < s.len() implies '\0' <= #[trigger] s[k] <= '\u{7f}' by {
                if k > 0 {
                    assert(s[k] == rest[k - 1]);
                    assert('\0' <= rest[k - 1] <= '\u{7f}');
                }
            }
            assert(is_ascii_chars(s));
        }
    }
}

} // verus!
