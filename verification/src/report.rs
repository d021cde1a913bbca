use vstd::prelude::*;

use crate::counts::FileCount;

verus! {

use vstd::string::StringExecFns;

/// Which of the four metrics a report shows. Selecting none means the
/// boundary passed no flag, and the report then shows all four.
pub struct SelectedMetrics {
    pub lines: bool,
    pub words: bool,
    pub characters: bool,
    pub bytes: bool,
}

/// No metric was selected explicitly.
pub open spec fn none_selected(m: SelectedMetrics) -> bool {
    !m.lines && !m.words && !m.characters && !m.bytes
}

/// The line count is shown: either selected, or part of the default.
pub open spec fn show_lines(m: SelectedMetrics) -> bool {
    m.lines || none_selected(m)
}

/// The word count is shown: either selected, or part of the default.
pub open spec fn show_words(m: SelectedMetrics) -> bool {
    m.words || none_selected(m)
}

/// The character count is shown: either selected, or part of the default.
pub open spec fn show_characters(m: SelectedMetrics) -> bool {
    m.characters || none_selected(m)
}

/// The byte count is shown: either selected, or part of the default.
pub open spec fn show_bytes(m: SelectedMetrics) -> bool {
    m.bytes || none_selected(m)
}

/// The decimal digit for a value below ten.
pub open spec fn digit_char(d: int) -> char {
    if d == 0 {
        '0'
    } else if d == 1 {
        '1'
    } else if d == 2 {
        '2'
    } else if d == 3 {
        '3'
    } else if d == 4 {
        '4'
    } else if d == 5 {
        '5'
    } else if d == 6 {
        '6'
    } else if d == 7 {
        '7'
    } else if d == 8 {
        '8'
    } else {
        '9'
    }
}

/// The decimal digits of a non-negative number, most significant first,
/// without a sign and without leading zeros (zero itself is one digit).
pub open spec fn dec_repr(n: int) -> Seq<char>
    recommends
        n >= 0,
    decreases n,
{
    if n < 10 {
        seq![digit_char(n)]
    } else {
        dec_repr(n / 10).push(digit_char(n % 10))
    }
}

/// The one-character string for a decimal digit.
fn digit_str(d: u32) -> (r: &'static str)
    requires
        d < 10,
    ensures
        r@ == seq![digit_char(d as int)],
{
    if d == 0 {
        proof {
            reveal_strlit("0");
            assert("0"@ =~= seq![digit_char(0int)]);
        }
        "0"
    } else if d == 1 {
        proof {
            reveal_strlit("1");
            assert("1"@ =~= seq![digit_char(1int)]);
        }
        "1"
    } else if d == 2 {
        proof {
            reveal_strlit("2");
            assert("2"@ =~= seq![digit_char(2int)]);
        }
        "2"
    } else if d == 3 {
        proof {
            reveal_strlit("3");
            assert("3"@ =~= seq![digit_char(3int)]);
        }
        "3"
    } else if d == 4 {
        proof {
            reveal_strlit("4");
            assert("4"@ =~= seq![digit_char(4int)]);
        }
        "4"
    } else if d == 5 {
        proof {
            reveal_strlit("5");
            assert("5"@ =~= seq![digit_char(5int)]);
        }
        "5"
    } else if d == 6 {
        proof {
            reveal_strlit("6");
            assert("6"@ =~= seq![digit_char(6int)]);
        }
        "6"
    } else if d == 7 {
        proof {
            reveal_strlit("7");
            assert("7"@ =~= seq![digit_char(7int)]);
        }
        "7"
    } else if d == 8 {
        proof {
            reveal_strlit("8");
            assert("8"@ =~= seq![digit_char(8int)]);
        }
        "8"
    } else {
        proof {
            reveal_strlit("9");
            assert("9"@ =~= seq![digit_char(9int)]);
        }
        "9"
    }
}

/// The decimal digits of an unsigned number, most significant first.
fn u32_dec(n: u32) -> (r: String)
    ensures
        r@ == dec_repr(n as int),
    decreases n,
{
    if n < 10 {
        digit_str(n).to_owned()
    } else {
        let q = n / 10;
        let d = n % 10;
        let mut s = u32_dec(q);
        let tail = digit_str(d);
        proof {
            assert(q as int == n as int / 10);
            assert(d as int == n as int % 10);
            assert(dec_repr(q as int).push(digit_char(d as int)) =~= dec_repr(q as int)
                + tail@);
        }
        s.append(tail);
        s
    }
}

/// The decimal text of a non-negative count.
pub fn format_count(n: i32) -> (r: String)
    requires
        n >= 0,
    ensures
        r@ == dec_repr(n as int),
{
    u32_dec(n as u32)
}

/// One field of a report line: the value surrounded by single spaces when
/// the metric is shown, nothing otherwise.
pub open spec fn metric_field(show: bool, n: int) -> Seq<char> {
    if show {
        seq![' '] + dec_repr(n) + seq![' ']
    } else {
        Seq::empty()
    }
}

/// One report line: the shown counts in the fixed order lines, words,
/// characters, bytes, each surrounded by single spaces, then the name.
pub open spec fn render_line_spec(
    l: int,
    w: int,
    c: int,
    b: int,
    name: Seq<char>,
    m: SelectedMetrics,
) -> Seq<char> {
    metric_field(show_lines(m), l) + metric_field(show_words(m), w) + metric_field(
        show_characters(m),
        c,
    ) + metric_field(show_bytes(m), b) + name
}

/// Renders the report line of one source.
pub fn render_line(fc: &FileCount, m: &SelectedMetrics) -> (r: String)
    requires
        fc.wf(),
    ensures
        r@ == render_line_spec(
            fc.l_count as int,
            fc.w_count as int,
            fc.c_count as int,
            fc.b_count as int,
            fc.filename@,
            *m,
        ),
{
    proof {
        reveal_strlit(" ");
        assert(" "@ =~= seq![' ']);
    }
    let show_all = !(m.lines || m.words || m.characters || m.bytes);
    let mut s = String::new();
    if m.lines || show_all {
        s.append(" ");
        let digits = format_count(fc.l_count);
        s.append(digits.as_str());
        s.append(" ");
    }
    proof {
        assert(s@ =~= metric_field(show_lines(*m), fc.l_count as int));
    }
    if m.words || show_all {
        s.append(" ");
        let digits = format_count(fc.w_count);
        s.append(digits.as_str());
        s.append(" ");
    }
    proof {
        assert(s@ =~= metric_field(show_lines(*m), fc.l_count as int) + metric_field(
            show_words(*m),
            fc.w_count as int,
        ));
    }
    if m.characters || show_all {
        s.append(" ");
        let digits = format_count(fc.c_count);
        s.append(digits.as_str());
        s.append(" ");
    }
    if m.bytes || show_all {
        s.append(" ");
        let digits = format_count(fc.b_count);
        s.append(digits.as_str());
        s.append(" ");
    }
    s.append(fc.filename.as_str());
    proof {
        assert(s@ =~= render_line_spec(
            fc.l_count as int,
            fc.w_count as int,
            fc.c_count as int,
            fc.b_count as int,
            fc.filename@,
            *m,
        ));
    }
    s
}

/// The word counts of all sources, summed.
pub open spec fn sum_words(s: Seq<FileCount>) -> int
    decreases s.len(),
{
    if s.len() == 0 {
        0
    } else {
        s[0].w_count + sum_words(s.drop_first())
    }
}

/// The character counts of all sources, summed.
pub open spec fn sum_characters(s: Seq<FileCount>) -> int
    decreases s.len(),
{
    if s.len() == 0 {
        0
    } else {
        s[0].c_count + sum_characters(s.drop_first())
    }
}

/// The line counts of all sources, summed.
pub open spec fn sum_lines(s: Seq<FileCount>) -> int
    decreases s.len(),
{
    if s.len() == 0 {
        0
    } else {
        s[0].l_count + sum_lines(s.drop_first())
    }
}

/// The byte counts of all sources, summed.
pub open spec fn sum_bytes(s: Seq<FileCount>) -> int
    decreases s.len(),
{
    if s.len() == 0 {
        0
    } else {
        s[0].b_count + sum_bytes(s.drop_first())
    }
}

/// Sums over well-formed tallies are never negative.
pub proof fn lemma_sums_nonneg(s: Seq<FileCount>)
    requires
        forall|i: int| 0 <= i < s.len() ==> (#[trigger] s[i]).wf(),
    ensures
        sum_words(s) >= 0,
        sum_characters(s) >= 0,
        sum_lines(s) >= 0,
        sum_bytes(s) >= 0,
    decreases s.len(),
{
    if s.len() > 0 {
        assert(s[0].wf());
        assert(forall|k: int|
            0 <= k < s.drop_first().len() ==> #[trigger] s.drop_first()[k] == s[k + 1]);
        lemma_sums_nonneg(s.drop_first());
    }
}

/// The running totals of several sources: every field is the field-wise sum
/// of the sources' counts, and the display name is the literal `Total`.
pub fn run_totals(files: &Vec<FileCount>) -> (r: FileCount)
    requires
        forall|i: int| 0 <= i < files@.len() ==> (#[trigger] files@[i]).wf(),
        sum_words(files@) <= i32::MAX,
        sum_characters(files@) <= i32::MAX,
        sum_lines(files@) <= i32::MAX,
        sum_bytes(files@) <= i32::MAX,
    ensures
        r.filename@ == "Total"@,
        r.w_count == sum_words(files@),
        r.c_count == sum_characters(files@),
        r.l_count == sum_lines(files@),
        r.b_count == sum_bytes(files@),
        r.wf(),
{
    let ghost fs = files@;
    let mut r = FileCount::new("Total", 0, 0, 0, 0);
    let mut k: usize = 0;
    proof {
        assert(fs.skip(0) =~= fs);
        lemma_sums_nonneg(fs);
    }
    while k < files.len()
        invariant
            fs == files@,
            k <= fs.len(),
            forall|i: int| 0 <= i < fs.len() ==> (#[trigger] fs[i]).wf(),
            sum_words(fs) <= i32::MAX,
            sum_characters(fs) <= i32::MAX,
            sum_lines(fs) <= i32::MAX,
            sum_bytes(fs) <= i32::MAX,
            r.filename@ == "Total"@,
            r.w_count == sum_words(fs) - sum_words(fs.skip(k as int)),
            r.c_count == sum_characters(fs) - sum_characters(fs.skip(k as int)),
            r.l_count == sum_lines(fs) - sum_lines(fs.skip(k as int)),
            r.b_count == sum_bytes(fs) - sum_bytes(fs.skip(k as int)),
            r.wf(),
        decreases fs.len() - k,
    {
        proof {
            assert(fs.skip(k as int).drop_first() =~= fs.skip(k as int + 1));
            assert(fs.skip(k as int)[0] == fs[k as int]);
            assert(forall|i: int|
                0 <= i < fs.skip(k as int).len() ==> #[trigger] fs.skip(k as int)[i] == fs[i
                    + k]);
            assert(forall|i: int|
                0 <= i < fs.skip(k as int + 1).len() ==> #[trigger] fs.skip(k as int + 1)[i]
                    == fs[i + k + 1]);
            lemma_sums_nonneg(fs.skip(k as int));
            lemma_sums_nonneg(fs.skip(k as int + 1));
        }
        r.w_count = r.w_count + files[k].w_count;
        r.c_count = r.c_count + files[k].c_count;
        r.l_count = r.l_count + files[k].l_count;
        r.b_count = r.b_count + files[k].b_count;
        k = k + 1;
    }
    proof {
        assert(fs.skip(fs.len() as int) =~= Seq::<FileCount>::empty());
    }
    r
}

/// Renders the whole report: one line per source in order, and, only when
/// more than one source was processed, one final line whose counts are the
/// field-wise totals and whose name is the literal `Total`.
pub fn render(files: &Vec<FileCount>, m: &SelectedMetrics) -> (r: Vec<String>)
    requires
        forall|i: int| 0 <= i < files@.len() ==> (#[trigger] files@[i]).wf(),
        files@.len() > 1 ==> sum_words(files@) <= i32::MAX,
        files@.len() > 1 ==> sum_characters(files@) <= i32::MAX,
        files@.len() > 1 ==> sum_lines(files@) <= i32::MAX,
        files@.len() > 1 ==> sum_bytes(files@) <= i32::MAX,
    ensures
        r@.len() == files@.len() + if files@.len() > 1 {
            1int
        } else {
            0int
        },
        forall|i: int|
            0 <= i < files@.len() ==> (#[trigger] r@[i])@ == render_line_spec(
                files@[i].l_count as int,
                files@[i].w_count as int,
                files@[i].c_count as int,
                files@[i].b_count as int,
                files@[i].filename@,
                *m,
            ),
        files@.len() > 1 ==> r@[files@.len() as int]@ == render_line_spec(
            sum_lines(files@),
            sum_words(files@),
            sum_characters(files@),
            sum_bytes(files@),
            "Total"@,
            *m,
        ),
{
    let mut r: Vec<String> = Vec::new();
    let mut k: usize = 0;
    while k < files.len()
        invariant
            k <= files@.len(),
            r@.len() == k,
            forall|i: int| 0 <= i < files@.len() ==> (#[trigger] files@[i]).wf(),
            forall|i: int|
                0 <= i < k ==> (#[trigger] r@[i])@ == render_line_spec(
                    files@[i].l_count as int,
                    files@[i].w_count as int,
                    files@[i].c_count as int,
                    files@[i].b_count as int,
                    files@[i].filename@,
                    *m,
                ),
        decreases files@.len() - k,
    {
        let line = render_line(&files[k], m);
        r.push(line);
        k = k + 1;
    }
    if files.len() > 1 {
        let totals = run_totals(files);
        let line = render_line(&totals, m);
        r.push(line);
    }
    r
}

} // verus!
