use vstd::prelude::*;

use crate::bytes::lemma_utf8_len;
use crate::counts::FileCount;
use crate::lines::lemma_lines_total_bound;
use crate::lines::lemma_total_words_bounds;
use crate::lines::spec_lines;
use crate::lines::split_lines;
use crate::lines::total_line_chars;
use crate::lines::total_words;
use crate::lines::views_of;
use crate::scan::lemma_word_count_bounds;
use crate::scan::loop_thru_string;

verus! {

use vstd::utf8::encode_utf8;
use vstd::utf8::is_ascii_chars;

/// Scans a source whose lines were already split (their newlines stripped)
/// and whose raw byte length is already known: every line adds one to the
/// line count, its characters plus one to the character count, and its words
/// to the word count.
pub fn count_source(name: &str, lines: &Vec<String>, byte_count: i32) -> (r: FileCount)
    requires
        byte_count >= 0,
        lines@.len() + total_line_chars(views_of(lines@)) <= i32::MAX,
    ensures
        r.filename@ == name@,
        r.l_count == lines@.len(),
        r.w_count == total_words(views_of(lines@)),
        r.c_count == r.l_count + total_line_chars(views_of(lines@)),
        r.b_count == byte_count,
        r.wf(),
{
    let mut fc = FileCount::new(name, 0, 0, 0, byte_count);
    let ghost ls = views_of(lines@);
    let mut k: usize = 0;
    proof {
        assert(ls.skip(0) =~= ls);
        lemma_total_words_bounds(ls);
    }
    while k < lines.len()
        invariant
            ls == views_of(lines@),
            k <= lines@.len(),
            lines@.len() + total_line_chars(ls) <= i32::MAX,
            0 <= total_words(ls) <= total_line_chars(ls),
            0 <= total_words(ls.skip(k as int)) <= total_line_chars(ls.skip(k as int)),
            0 <= total_line_chars(ls.skip(k as int)) <= total_line_chars(ls),
            fc.filename@ == name@,
            fc.b_count == byte_count,
            fc.l_count == k,
            fc.c_count == k + total_line_chars(ls) - total_line_chars(ls.skip(k as int)),
            fc.w_count == total_words(ls) - total_words(ls.skip(k as int)),
            fc.w_count <= fc.c_count,
        decreases lines@.len() - k,
    {
        proof {
            assert(ls.skip(k as int).drop_first() =~= ls.skip(k as int + 1));
            assert(ls.skip(k as int)[0] == ls[k as int]);
            assert(ls[k as int] == lines@[k as int]@);
            lemma_total_words_bounds(ls.skip(k as int + 1));
            lemma_word_count_bounds(ls[k as int], true);
        }
        loop_thru_string(lines[k].as_str(), &mut fc);
        k = k + 1;
    }
    proof {
        assert(ls.skip(lines@.len() as int) =~= Seq::<Seq<char>>::empty());
    }
    fc
}

/// Counts one source given in full: splits it into its logical lines, scans
/// every line, and takes the raw UTF-8 byte length of the content as the
/// byte count. The character count equals the line count plus the characters
/// of all lines.
pub fn count_content(name: &str, content: &str) -> (r: FileCount)
    requires
        encode_utf8(content@).len() + 1 <= i32::MAX,
    ensures
        r.filename@ == name@,
        r.l_count == spec_lines(content@).len(),
        r.w_count == total_words(spec_lines(content@)),
        r.c_count == r.l_count + total_line_chars(spec_lines(content@)),
        r.b_count == encode_utf8(content@).len(),
        r.wf(),
{
    let lines = split_lines(content);
    proof {
        lemma_lines_total_bound(content@);
        lemma_utf8_len(content@);
    }
    let byte_count = content.len();
    count_source(name, &lines, byte_count as i32)
}

/// For text that is empty or ends with a newline, the byte count of a source
/// equals its character count exactly when every character is ASCII, and
/// strictly exceeds it as soon as one character lies outside the ASCII
/// range. (Text without a final newline still gets a character for the line
/// it ends, so its character count is one above the character length of the
/// text and the two counts cannot be compared this way.)
pub proof fn lemma_byte_vs_character_count(s: Seq<char>)
    requires
        s.len() == 0 || s[s.len() - 1] == '\n',
    ensures
        is_ascii_chars(s) ==> encode_utf8(s).len() == spec_lines(s).len() + total_line_chars(
            spec_lines(s),
        ),
        !is_ascii_chars(s) ==> encode_utf8(s).len() > spec_lines(s).len() + total_line_chars(
            spec_lines(s),
        ),
{
    crate::lines::lemma_terminated_lines_total(s);
    lemma_utf8_len(s);
}

} // verus!
