//! The address-rewriting and token-stitching pass over a sheet.
//!
//! One scan over the XML: character entities are decoded in text, template
//! expressions split across runs are joined by dropping the tags between
//! their braces, every `<row r="N">` and `<c r="AD7">` open tag has its
//! address rewritten into coordinate helper calls, and each `{{#each}}`
//! block is classified by the first structural tag inside it so that its
//! closing delimiter can be prefixed with the right offset-advance call.

use vstd::prelude::*;

verus! {

use crate::scan::{
    append_bytes,
    copy_range,
    find,
    format_u32,
    is_start_tag,
    lemma_spec_find,
    lit,
    lit_bytes,
    spec_find,
    spec_is_start_tag,
    spec_replace_all,
    spec_u32_numeral,
    replace_all,
};
use crate::merges::{lemma_ascii_lit_len, is_ascii_alpha, spec_alpha_prefix_len};

/// Loop axis of an each-block: not yet known, row-wise, or column-wise.
#[derive(PartialEq, Eq, Structural, Clone, Copy, Debug)]
pub enum EachAxis {
    Unknown,
    Row,
    Col,
}

/// One open `{{#each}}` block: its axis and the row and column of the
/// sheet position where it opened.
#[derive(PartialEq, Eq, Structural, Clone, Copy, Debug)]
pub struct EachFrame {
    pub axis: EachAxis,
    pub start_row: u32,
    pub start_col: u32,
}

/// The scan state between events.
pub ghost struct StitchState {
    /// Unmatched `{` count of the text seen so far.
    pub brace: int,
    /// Whether the scan sits inside a `{{…}}` expression.
    pub in_hb: bool,
    /// Text accumulated while an expression is open.
    pub buffer: Seq<u8>,
    /// Row number of the last `<row>` open tag.
    pub cur_row: int,
    /// Column index of the last `<c>` open tag.
    pub cur_col: int,
    /// Open each-blocks, outermost first.
    pub stack: Seq<EachFrame>,
}

/// Lengths of the fixed patterns used in this module.
pub proof fn strlit_facts()
    ensures
        lit("<").len() == 1,
        lit(">").len() == 1,
        lit("row").len() == 3,
        lit("c").len() == 1,
        lit(" r=\"").len() == 4,
        lit("\"").len() == 1,
        lit("&lt;").len() == 4,
        lit("&gt;").len() == 4,
        lit("&amp;").len() == 5,
        lit("&quot;").len() == 6,
        lit("&apos;").len() == 6,
        lit("'").len() == 1,
        lit("&").len() == 1,
        lit("{{#each ").len() == 8,
        lit("{{/each}}").len() == 9,
        lit("{{row_offset_plus ").len() == 18,
        lit("{{col_offset_plus ").len() == 18,
        lit("}}").len() == 2,
        lit("{{col_offset_reset}}{{set_row_inline ").len() == 37,
        lit("}}{{_r}}").len() == 8,
        lit("{{set_col_inline ").len() == 17,
        lit("}}{{_cr}}").len() == 9,
{
    reveal_strlit("<");
    reveal_strlit(">");
    reveal_strlit("row");
    reveal_strlit("c");
    reveal_strlit(" r=\"");
    reveal_strlit("\"");
    reveal_strlit("&lt;");
    reveal_strlit("&gt;");
    reveal_strlit("&amp;");
    reveal_strlit("&quot;");
    reveal_strlit("&apos;");
    reveal_strlit("'");
    reveal_strlit("&");
    reveal_strlit("{{#each ");
    reveal_strlit("{{/each}}");
    reveal_strlit("{{row_offset_plus ");
    reveal_strlit("{{col_offset_plus ");
    reveal_strlit("}}");
    reveal_strlit("{{col_offset_reset}}{{set_row_inline ");
    reveal_strlit("}}{{_r}}");
    reveal_strlit("{{set_col_inline ");
    reveal_strlit("}}{{_cr}}");
    lemma_ascii_lit_len("<", 1);
    lemma_ascii_lit_len(">", 1);
    lemma_ascii_lit_len("row", 3);
    lemma_ascii_lit_len("c", 1);
    lemma_ascii_lit_len(" r=\"", 4);
    lemma_ascii_lit_len("\"", 1);
    lemma_ascii_lit_len("&lt;", 4);
    lemma_ascii_lit_len("&gt;", 4);
    lemma_ascii_lit_len("&amp;", 5);
    lemma_ascii_lit_len("&quot;", 6);
    lemma_ascii_lit_len("&apos;", 6);
    lemma_ascii_lit_len("'", 1);
    lemma_ascii_lit_len("&", 1);
    lemma_ascii_lit_len("{{#each ", 8);
    lemma_ascii_lit_len("{{/each}}", 9);
    lemma_ascii_lit_len("{{row_offset_plus ", 18);
    lemma_ascii_lit_len("{{col_offset_plus ", 18);
    lemma_ascii_lit_len("}}", 2);
    lemma_ascii_lit_len("{{col_offset_reset}}{{set_row_inline ", 37);
    lemma_ascii_lit_len("}}{{_r}}", 8);
    lemma_ascii_lit_len("{{set_col_inline ", 17);
    lemma_ascii_lit_len("}}{{_cr}}", 9);
}

/// The five XML character entities decoded back to their characters, in
/// the order `&lt;`, `&gt;`, `&amp;`, `&quot;`, `&apos;`.
pub open spec fn spec_decode_entities(text: Seq<u8>) -> Seq<u8> {
    spec_replace_all(
        spec_replace_all(
            spec_replace_all(
                spec_replace_all(spec_replace_all(text, lit("&lt;"), lit("<")), lit("&gt;"), lit(">")),
                lit("&amp;"),
                lit("&"),
            ),
            lit("&quot;"),
            lit("\""),
        ),
        lit("&apos;"),
        lit("'"),
    )
}

fn decode_entities(text: &[u8]) -> (r: Vec<u8>)
    ensures
        r@ == spec_decode_entities(text@),
{
    proof {
        strlit_facts();
    }
    let s1 = replace_all(text, lit_bytes("&lt;").as_slice(), lit_bytes("<").as_slice());
    let s2 = replace_all(s1.as_slice(), lit_bytes("&gt;").as_slice(), lit_bytes(">").as_slice());
    let s3 = replace_all(s2.as_slice(), lit_bytes("&amp;").as_slice(), lit_bytes("&").as_slice());
    let s4 = replace_all(
        s3.as_slice(),
        lit_bytes("&quot;").as_slice(),
        lit_bytes("\"").as_slice(),
    );
    replace_all(s4.as_slice(), lit_bytes("&apos;").as_slice(), lit_bytes("'").as_slice())
}

/// The brace state after scanning `text` from position `i`: each `{`
/// raises the count (two or more mean an open expression), each `}`
/// lowers it (a count of zero closes the expression).
pub open spec fn spec_scan_braces(text: Seq<u8>, i: int, brace: int, in_hb: bool) -> (int, bool)
    decreases text.len() - i,
{
    if i < 0 || i >= text.len() {
        (brace, in_hb)
    } else if text[i] == 123 {
        let b2 = brace + 1;
        spec_scan_braces(text, i + 1, b2, if b2 >= 2 {
            true
        } else {
            in_hb
        })
    } else if text[i] == 125 {
        let b2 = if brace > 0 {
            brace - 1
        } else {
            brace
        };
        spec_scan_braces(text, i + 1, b2, if b2 == 0 {
            false
        } else {
            in_hb
        })
    } else {
        spec_scan_braces(text, i + 1, brace, in_hb)
    }
}

fn scan_braces(text: &[u8], brace0: u64, in_hb0: bool) -> (r: (u64, bool))
    requires
        brace0 + text@.len() <= u64::MAX,
    ensures
        (r.0 as int, r.1) == spec_scan_braces(text@, 0, brace0 as int, in_hb0),
        r.0 <= brace0 + text@.len(),
{
    proof {
        lemma_scan_braces_bound(text@, 0, brace0 as int, in_hb0);
    }
    let n = text.len();
    let mut brace = brace0;
    let mut in_hb = in_hb0;
    let mut i: usize = 0;
    while i < n
        invariant
            n == text@.len(),
            0 <= i <= n,
            brace <= brace0 + i,
            brace0 + n <= u64::MAX,
            (spec_scan_braces(text@, 0, brace0 as int, in_hb0).0 as int) <= brace0 + n,
            spec_scan_braces(text@, 0, brace0 as int, in_hb0) == spec_scan_braces(
                text@,
                i as int,
                brace as int,
                in_hb,
            ),
        decreases n - i,
    {
        let b = text[i];
        if b == 123 {
            brace = brace + 1;
            if brace >= 2 {
                in_hb = true;
            }
        } else if b == 125 {
            if brace > 0 {
                brace = brace - 1;
            }
            if brace == 0 {
                in_hb = false;
            }
        }
        i = i + 1;
    }
    (brace, in_hb)
}

proof fn lemma_each_open_len()
    ensures
        lit("{{#each ").len() == 8,
{
    reveal_strlit("{{#each ");
    lemma_ascii_lit_len("{{#each ", 8);
}

proof fn lemma_each_close_len()
    ensures
        lit("{{/each}}").len() == 9,
{
    reveal_strlit("{{/each}}");
    lemma_ascii_lit_len("{{/each}}", 9);
}

/// How many `{{#each ` openers the flushed text holds; the scan advances
/// one past each opener's keyword.
pub open spec fn spec_count_each_open(text: Seq<u8>, pos: int) -> int
    decreases text.len() + 9 - pos,
    via spec_count_each_open_decreases
{
    match spec_find(text, lit("{{#each "), pos) {
        Option::None => 0,
        Option::Some(p) => 1 + spec_count_each_open(text, p + 9),
    }
}

#[via_fn]
proof fn spec_count_each_open_decreases(text: Seq<u8>, pos: int) {
    lemma_each_open_len();
    if pos >= 0 {
        lemma_spec_find(text, lit("{{#each "), pos);
    } else {
        crate::merges::lemma_spec_find_neg(text, lit("{{#each "), pos);
    }
}

/// How many `{{/each}}` closers the flushed text holds.
pub open spec fn spec_count_each_close(text: Seq<u8>, pos: int) -> int
    decreases text.len() + 9 - pos,
    via spec_count_each_close_decreases
{
    match spec_find(text, lit("{{/each}}"), pos) {
        Option::None => 0,
        Option::Some(p) => 1 + spec_count_each_close(text, p + 9),
    }
}

#[via_fn]
proof fn spec_count_each_close_decreases(text: Seq<u8>, pos: int) {
    lemma_each_close_len();
    if pos >= 0 {
        lemma_spec_find(text, lit("{{/each}}"), pos);
    } else {
        crate::merges::lemma_spec_find_neg(text, lit("{{/each}}"), pos);
    }
}

proof fn lemma_count_each_open_bounds(text: Seq<u8>, pos: int)
    ensures
        spec_count_each_open(text, pos) >= 0,
        0 <= pos <= text.len() + 9 ==> spec_count_each_open(text, pos) + pos <= text.len() + 9,
    decreases text.len() + 9 - pos,
{
    lemma_each_open_len();
    if pos >= 0 {
        lemma_spec_find(text, lit("{{#each "), pos);
    } else {
        crate::merges::lemma_spec_find_neg(text, lit("{{#each "), pos);
    }
    match spec_find(text, lit("{{#each "), pos) {
        Option::Some(p) => {
            lemma_count_each_open_bounds(text, p + 9);
        },
        Option::None => (),
    }
}

proof fn lemma_count_each_close_bounds(text: Seq<u8>, pos: int)
    ensures
        spec_count_each_close(text, pos) >= 0,
        0 <= pos <= text.len() + 9 ==> spec_count_each_close(text, pos) + pos <= text.len() + 9,
    decreases text.len() + 9 - pos,
{
    lemma_each_close_len();
    if pos >= 0 {
        lemma_spec_find(text, lit("{{/each}}"), pos);
    } else {
        crate::merges::lemma_spec_find_neg(text, lit("{{/each}}"), pos);
    }
    match spec_find(text, lit("{{/each}}"), pos) {
        Option::Some(p) => {
            lemma_count_each_close_bounds(text, p + 9);
        },
        Option::None => (),
    }
}

/// Counts `{{#each ` openers the way the scan does.
fn count_each_open(text: &[u8]) -> (r: usize)
    ensures
        r == spec_count_each_open(text@, 0),
{
    let pat = lit_bytes("{{#each ");
    let tl = text.len();
    proof {
        lemma_each_open_len();
        lemma_count_each_open_bounds(text@, 0);
    }
    let mut n: usize = 0;
    let mut pos: usize = 0;
    loop
        invariant
            pat@ == lit("{{#each "),
            tl == text@.len(),
            0 <= pos <= tl + 9,
            9 * n <= pos + 9,
            n + spec_count_each_open(text@, pos as int) == spec_count_each_open(text@, 0),
            spec_count_each_open(text@, pos as int) >= 0,
        decreases tl + 9 - pos,
    {
        proof {
            lemma_each_open_len();
            lemma_spec_find(text@, pat@, pos as int);
        }
        match find(text, pat.as_slice(), pos) {
            Option::None => {
                return n;
            },
            Option::Some(p) => {
                proof {
                    lemma_count_each_open_bounds(text@, p + 9);
                }
                n = n + 1;
                if tl - p <= 9 {
                    proof {
                        assert(spec_count_each_open(text@, p + 9) == 0);
                    }
                    return n;
                }
                pos = p + 9;
            },
        }
    }
}

/// Counts `{{/each}}` closers.
fn count_each_close(text: &[u8]) -> (r: usize)
    ensures
        r == spec_count_each_close(text@, 0),
{
    let pat = lit_bytes("{{/each}}");
    let tl = text.len();
    proof {
        lemma_each_close_len();
        lemma_count_each_close_bounds(text@, 0);
    }
    let mut n: usize = 0;
    let mut pos: usize = 0;
    loop
        invariant
            pat@ == lit("{{/each}}"),
            tl == text@.len(),
            0 <= pos <= tl + 9,
            9 * n <= pos + 9,
            n + spec_count_each_close(text@, pos as int) == spec_count_each_close(text@, 0),
            spec_count_each_close(text@, pos as int) >= 0,
        decreases tl + 9 - pos,
    {
        proof {
            lemma_each_close_len();
            lemma_spec_find(text@, pat@, pos as int);
        }
        match find(text, pat.as_slice(), pos) {
            Option::None => {
                return n;
            },
            Option::Some(p) => {
                proof {
                    lemma_count_each_close_bounds(text@, p + 9);
                }
                n = n + 1;
                if tl - p <= 9 {
                    proof {
                        assert(spec_count_each_close(text@, p + 9) == 0);
                    }
                    return n;
                }
                pos = p + 9;
            },
        }
    }
}

/// The offset-advance call prepended for one popped frame: row-axis frames
/// advance the row offset by the block's height, column-axis frames the
/// column offset by its width, unclassified frames nothing.
pub open spec fn spec_pop_prefix(f: EachFrame, cur_row: int, cur_col: int) -> Seq<u8> {
    if f.axis == EachAxis::Row {
        let d: int = if cur_row >= f.start_row {
            cur_row - f.start_row
        } else {
            0
        };
        lit("{{row_offset_plus ") + spec_u32_numeral(d) + lit("}}")
    } else if f.axis == EachAxis::Col {
        let d: int = if cur_col >= f.start_col {
            cur_col - f.start_col
        } else {
            0
        };
        lit("{{col_offset_plus ") + spec_u32_numeral(d) + lit("}}")
    } else {
        Seq::empty()
    }
}

/// Pops `n` frames, prepending each popped frame's offset call; returns
/// the remaining stack and the final text.
pub open spec fn spec_pop_frames(
    stack: Seq<EachFrame>,
    n: int,
    cur_row: int,
    cur_col: int,
    text: Seq<u8>,
) -> (Seq<EachFrame>, Seq<u8>)
    decreases n,
{
    if n <= 0 || stack.len() == 0 {
        (stack, text)
    } else {
        let f = stack.last();
        spec_pop_frames(
            stack.drop_last(),
            n - 1,
            cur_row,
            cur_col,
            spec_pop_prefix(f, cur_row, cur_col) + text,
        )
    }
}

/// A flush of balanced buffered text: `{{#each ` openers push frames, then
/// `{{/each}}` closers pop them and prepend their offset calls.
pub open spec fn spec_flush(
    text: Seq<u8>,
    stack: Seq<EachFrame>,
    cur_row: int,
    cur_col: int,
) -> (Seq<EachFrame>, Seq<u8>) {
    let pushes = spec_count_each_open(text, 0);
    let frame = EachFrame {
        axis: EachAxis::Unknown,
        start_row: cur_row as u32,
        start_col: cur_col as u32,
    };
    let stack2 = stack + Seq::new(pushes as nat, |i: int| frame);
    let pops = spec_count_each_close(text, 0);
    spec_pop_frames(stack2, pops, cur_row, cur_col, text)
}


proof fn lemma_scan_braces_bound(text: Seq<u8>, i: int, brace: int, in_hb: bool)
    requires
        0 <= i <= text.len(),
        brace >= 0,
    ensures
        spec_scan_braces(text, i, brace, in_hb).0 <= brace + (text.len() - i),
        spec_scan_braces(text, i, brace, in_hb).0 >= 0,
    decreases text.len() - i,
{
    if i < text.len() {
        if text[i] == 123 {
            lemma_scan_braces_bound(text, i + 1, brace + 1, if brace + 1 >= 2 {
                true
            } else {
                in_hb
            });
        } else if text[i] == 125 {
            let b2: int = if brace > 0 {
                brace - 1
            } else {
                brace
            };
            lemma_scan_braces_bound(text, i + 1, b2, if b2 == 0 {
                false
            } else {
                in_hb
            });
        } else {
            lemma_scan_braces_bound(text, i + 1, brace, in_hb);
        }
    }
}

/// The base-26 value of a run of column letters, as the scan computes it;
/// zero for an empty or overlong run.
pub open spec fn spec_letters_horner(s: Seq<u8>) -> int
    decreases s.len(),
{
    if s.len() == 0 {
        0
    } else {
        spec_letters_horner(s.drop_last()) * 26 + (s.last() - 64)
    }
}

pub open spec fn spec_letters_index(s: Seq<u8>) -> int {
    if s.len() > 6 {
        0
    } else {
        spec_letters_horner(s)
    }
}

proof fn lemma_letters_horner_bound(s: Seq<u8>)
    requires
        forall|i: int| 0 <= i < s.len() ==> is_ascii_alpha(#[trigger] s[i]),
    ensures
        0 <= spec_letters_horner(s),
        s.len() <= 6 ==> spec_letters_horner(s) <= 716684598,
    decreases s.len(),
{
    if s.len() > 0 {
        assert(forall|i: int|
            0 <= i < s.len() - 1 ==> is_ascii_alpha(#[trigger] s.drop_last()[i]));
        lemma_letters_horner_bound(s.drop_last());
        assert(1 <= s.last() - 64 <= 58);
        if s.len() <= 6 {
            lemma_letters_horner_small(s.drop_last(), s.len() - 1);
        }
    }
}

proof fn lemma_letters_horner_small(s: Seq<u8>, n: int)
    requires
        forall|i: int| 0 <= i < s.len() ==> is_ascii_alpha(#[trigger] s[i]),
        s.len() <= n,
        n <= 5,
    ensures
        spec_letters_horner(s) <= if n <= 0 {
            0int
        } else if n == 1 {
            58int
        } else if n == 2 {
            1566int
        } else if n == 3 {
            40774int
        } else if n == 4 {
            1060182int
        } else {
            27564790int
        },
    decreases n,
{
    if s.len() > 0 && n > 0 {
        assert(forall|i: int|
            0 <= i < s.len() - 1 ==> is_ascii_alpha(#[trigger] s.drop_last()[i]));
        lemma_letters_horner_small(s.drop_last(), n - 1);
        assert(1 <= s.last() - 64 <= 58);
    }
}

/// The column index of a run of letters: base-26 digits valued `b - 64`,
/// zero for an empty or overlong run.
pub fn letters_index(s: &[u8]) -> (r: u32)
    requires
        forall|i: int| 0 <= i < s@.len() ==> is_ascii_alpha(#[trigger] s@[i]),
    ensures
        r == spec_letters_index(s@),
{
    let n = s.len();
    if n > 6 {
        return 0;
    }
    proof {
        lemma_letters_horner_bound(s@);
    }
    let mut v: u32 = 0;
    let mut i: usize = 0;
    while i < n
        invariant
            n == s@.len(),
            n <= 6,
            0 <= i <= n,
            forall|m: int| 0 <= m < s@.len() ==> is_ascii_alpha(#[trigger] s@[m]),
            v == spec_letters_horner(s@.take(i as int)),
        decreases n - i,
    {
        proof {
            assert(s@.take(i as int + 1).drop_last() =~= s@.take(i as int));
            assert(s@.take(i as int + 1).last() == s@[i as int]);
            assert(forall|m: int|
                0 <= m < i ==> is_ascii_alpha(#[trigger] s@.take(i as int)[m]));
            lemma_letters_horner_small(s@.take(i as int), i as int);
            assert(v <= 27564790);
        }
        let b = s[i];
        v = v * 26 + ((b - 64) as u32);
        i = i + 1;
    }
    proof {
        assert(s@.take(n as int) =~= s@);
    }
    v
}

/// The rewritten `<row …>` tag: the row number in its ` r="…"` attribute
/// and the tag with that value replaced by the coordinate helper calls.
pub open spec fn spec_row_rewrite(tag: Seq<u8>) -> Option<(int, Seq<u8>)> {
    match spec_find(tag, lit(" r=\""), 0) {
        Option::None => Option::None,
        Option::Some(a) => {
            match spec_find(tag, lit("\""), a + 4) {
                Option::None => Option::None,
                Option::Some(qe) => {
                    let value = tag.subrange(a + 4, qe);
                    let n: int = if crate::scan::is_dec_digits(value)
                        && crate::scan::spec_dec_value(value) <= u32::MAX {
                        crate::scan::spec_dec_value(value)
                    } else {
                        0
                    };
                    Option::Some(
                        (
                            n,
                            tag.subrange(0, a + 4) + lit("{{col_offset_reset}}{{set_row_inline ")
                                + spec_u32_numeral(n) + lit("}}{{_r}}") + tag.subrange(
                                qe,
                                tag.len() as int,
                            ),
                        ),
                    )
                },
            }
        },
    }
}

/// The rewritten `<c …>` tag: the 1-based column index taken from the
/// letters of its ` r="…"` attribute and the tag with the value replaced
/// by the coordinate helper calls.
pub open spec fn spec_c_rewrite(tag: Seq<u8>) -> Option<(int, Seq<u8>)> {
    match spec_find(tag, lit(" r=\""), 0) {
        Option::None => Option::None,
        Option::Some(a) => {
            match spec_find(tag, lit("\""), a + 4) {
                Option::None => Option::None,
                Option::Some(qe) => {
                    let value = tag.subrange(a + 4, qe);
                    let letters = value.subrange(0, spec_alpha_prefix_len(value));
                    let ci = spec_letters_index(letters);
                    Option::Some(
                        (
                            ci,
                            tag.subrange(0, a + 4) + lit("{{set_col_inline ") + spec_u32_numeral(
                                ci,
                            ) + lit("}}{{_cr}}") + tag.subrange(qe, tag.len() as int),
                        ),
                    )
                },
            }
        },
    }
}

/// Rewrites a `<row …>` open tag in place; returns the parsed row number.
fn row_rewrite(tag: &[u8], out: &mut Vec<u8>) -> (r: Option<u32>)
    ensures
        match r {
            Option::Some(n) => spec_row_rewrite(tag@) matches Some(t) && t.0 == n as int
                && final(out)@ == old(out)@ + t.1,
            Option::None => spec_row_rewrite(tag@) is None && final(out)@ == old(out)@,
        },
{
    let attr = lit_bytes(" r=\"");
    let quote = lit_bytes("\"");
    let tl = tag.len();
    proof {
        strlit_facts();
        lemma_spec_find(tag@, lit(" r=\""), 0);
    }
    match find(tag, attr.as_slice(), 0) {
        Option::None => None,
        Option::Some(a) => {
            proof {
                lemma_spec_find(tag@, lit("\""), a as int + 4);
            }
            match find(tag, quote.as_slice(), a + 4) {
                Option::None => None,
                Option::Some(qe) => {
                    let value = copy_range(tag, a + 4, qe);
                    let n: u32 = match crate::scan::parse_u32(value.as_slice()) {
                        Option::Some(v) => v,
                        Option::None => 0,
                    };
                    append_bytes(out, vstd::slice::slice_subrange(tag, 0, a + 4));
                    let h1 = lit_bytes("{{col_offset_reset}}{{set_row_inline ");
                    append_bytes(out, h1.as_slice());
                    let num = format_u32(n);
                    append_bytes(out, num.as_slice());
                    let h2 = lit_bytes("}}{{_r}}");
                    append_bytes(out, h2.as_slice());
                    append_bytes(out, vstd::slice::slice_subrange(tag, qe, tl));
                    proof {
                        assert(out@ =~= old(out)@ + spec_row_rewrite(tag@).unwrap().1);
                    }
                    Some(n)
                },
            }
        },
    }
}

/// Rewrites a `<c …>` open tag in place; returns the parsed column index.
fn c_rewrite(tag: &[u8], out: &mut Vec<u8>) -> (r: Option<u32>)
    ensures
        match r {
            Option::Some(ci) => spec_c_rewrite(tag@) matches Some(t) && t.0 == ci as int
                && final(out)@ == old(out)@ + t.1,
            Option::None => spec_c_rewrite(tag@) is None && final(out)@ == old(out)@,
        },
{
    let attr = lit_bytes(" r=\"");
    let quote = lit_bytes("\"");
    let tl = tag.len();
    proof {
        strlit_facts();
        lemma_spec_find(tag@, lit(" r=\""), 0);
    }
    match find(tag, attr.as_slice(), 0) {
        Option::None => None,
        Option::Some(a) => {
            proof {
                lemma_spec_find(tag@, lit("\""), a as int + 4);
            }
            match find(tag, quote.as_slice(), a + 4) {
                Option::None => None,
                Option::Some(qe) => {
                    let value = copy_range(tag, a + 4, qe);
                    let plen = crate::merges::alpha_prefix_len(value.as_slice());
                    let letters = copy_range(value.as_slice(), 0, plen);
                    proof {
                        lemma_alpha_prefix_all_alpha(value@);
                        assert(forall|i: int|
                            0 <= i < letters@.len() ==> is_ascii_alpha(#[trigger] letters@[i]));
                    }
                    let ci = letters_index(letters.as_slice());
                    append_bytes(out, vstd::slice::slice_subrange(tag, 0, a + 4));
                    let h1 = lit_bytes("{{set_col_inline ");
                    append_bytes(out, h1.as_slice());
                    let num = format_u32(ci);
                    append_bytes(out, num.as_slice());
                    let h2 = lit_bytes("}}{{_cr}}");
                    append_bytes(out, h2.as_slice());
                    append_bytes(out, vstd::slice::slice_subrange(tag, qe, tl));
                    proof {
                        assert(out@ =~= old(out)@ + spec_c_rewrite(tag@).unwrap().1);
                    }
                    Some(ci)
                },
            }
        },
    }
}

/// Every byte of the letter prefix is a letter.
proof fn lemma_alpha_prefix_all_alpha(s: Seq<u8>)
    ensures
        0 <= spec_alpha_prefix_len(s) <= s.len(),
        forall|i: int|
            0 <= i < spec_alpha_prefix_len(s) ==> is_ascii_alpha(#[trigger] s[i]),
    decreases s.len(),
{
    if s.len() > 0 && is_ascii_alpha(s[0]) {
        lemma_alpha_prefix_all_alpha(s.drop_first());
        assert forall|i: int|
            0 <= i < spec_alpha_prefix_len(s) implies is_ascii_alpha(#[trigger] s[i]) by {
            if i >= 1 {
                assert(s[i] == s.drop_first()[i - 1]);
                assert(is_ascii_alpha(s.drop_first()[i - 1]));
            }
        }
    }
}


/// Promotion on a `<row>` open tag: the innermost open each-block, if
/// any, becomes row-axis.
pub open spec fn spec_promote_row(stack: Seq<EachFrame>) -> Seq<EachFrame> {
    if stack.len() == 0 {
        stack
    } else {
        let f = stack.last();
        stack.update(stack.len() - 1, EachFrame { axis: EachAxis::Row, ..f })
    }
}

/// Promotion on a `<c>` open tag: the innermost open each-block becomes
/// column-axis, but only while its axis is still unknown.
pub open spec fn spec_promote_col(stack: Seq<EachFrame>) -> Seq<EachFrame> {
    if stack.len() == 0 {
        stack
    } else {
        let f = stack.last();
        if f.axis == EachAxis::Unknown {
            stack.update(stack.len() - 1, EachFrame { axis: EachAxis::Col, ..f })
        } else {
            stack
        }
    }
}

/// One text chunk: entities are decoded, braces counted, and the decoded
/// text buffered; once the braces are balanced the buffer is flushed
/// through the each-block bookkeeping.
pub open spec fn spec_text_step(chunk: Seq<u8>, st: StitchState) -> (Seq<u8>, StitchState) {
    let dec = spec_decode_entities(chunk);
    let scanned = spec_scan_braces(dec, 0, st.brace, st.in_hb);
    let buf = st.buffer + dec;
    if !scanned.1 && scanned.0 == 0 && buf.len() > 0 {
        let flushed = spec_flush(buf, st.stack, st.cur_row, st.cur_col);
        (
            flushed.1,
            StitchState {
                brace: 0,
                in_hb: false,
                buffer: Seq::empty(),
                stack: flushed.0,
                ..st
            },
        )
    } else {
        (Seq::empty(), StitchState { brace: scanned.0, in_hb: scanned.1, buffer: buf, ..st })
    }
}

/// The whole stitching scan from `pos` in state `st`. At the end of the
/// input, text still buffered inside an unclosed expression is emitted
/// as it stands; a `<` with no closing `>` is treated as text.
pub open spec fn spec_stitch(xml: Seq<u8>, pos: int, st: StitchState) -> Seq<u8>
    decreases xml.len() - pos,
    via spec_stitch_decreases
{
    if pos < 0 || pos >= xml.len() {
        st.buffer
    } else {
        match spec_find(xml, lit("<"), pos) {
            Option::None => {
                let stepped = spec_text_step(xml.subrange(pos, xml.len() as int), st);
                stepped.0 + stepped.1.buffer
            },
            Option::Some(p) => {
                if p > pos {
                    let stepped = spec_text_step(xml.subrange(pos, p), st);
                    stepped.0 + spec_stitch(xml, p, stepped.1)
                } else {
                    match spec_find(xml, lit(">"), pos) {
                        Option::None => {
                            let stepped = spec_text_step(
                                xml.subrange(pos, xml.len() as int),
                                st,
                            );
                            stepped.0 + stepped.1.buffer
                        },
                        Option::Some(q) => {
                            let tag = xml.subrange(pos, q + 1);
                            if st.brace > 0 || st.in_hb {
                                spec_stitch(xml, q + 1, st)
                            } else if spec_is_start_tag(tag, lit("row")) {
                                match spec_row_rewrite(tag) {
                                    Option::None => tag + spec_stitch(
                                        xml,
                                        q + 1,
                                        StitchState { stack: spec_promote_row(st.stack), ..st },
                                    ),
                                    Option::Some(t) => t.1 + spec_stitch(
                                        xml,
                                        q + 1,
                                        StitchState {
                                            cur_row: t.0,
                                            stack: spec_promote_row(st.stack),
                                            ..st
                                        },
                                    ),
                                }
                            } else if spec_is_start_tag(tag, lit("c")) {
                                match spec_c_rewrite(tag) {
                                    Option::None => tag + spec_stitch(
                                        xml,
                                        q + 1,
                                        StitchState { stack: spec_promote_col(st.stack), ..st },
                                    ),
                                    Option::Some(t) => t.1 + spec_stitch(
                                        xml,
                                        q + 1,
                                        StitchState {
                                            cur_col: t.0,
                                            stack: spec_promote_col(st.stack),
                                            ..st
                                        },
                                    ),
                                }
                            } else {
                                tag + spec_stitch(xml, q + 1, st)
                            }
                        },
                    }
                }
            },
        }
    }
}

#[via_fn]
proof fn spec_stitch_decreases(xml: Seq<u8>, pos: int, st: StitchState) {
    strlit_facts();
    if 0 <= pos < xml.len() {
        lemma_spec_find(xml, lit("<"), pos);
        match spec_find(xml, lit("<"), pos) {
            Option::Some(p) => {
                if p == pos {
                    lemma_spec_find(xml, lit(">"), pos);
                }
            },
            Option::None => (),
        }
    }
}

/// The stitch state as the executable scan holds it.
struct StitchExec {
    brace: u64,
    in_hb: bool,
    buffer: Vec<u8>,
    cur_row: u32,
    cur_col: u32,
    stack: Vec<EachFrame>,
}

impl StitchExec {
    spec fn view(&self) -> StitchState {
        StitchState {
            brace: self.brace as int,
            in_hb: self.in_hb,
            buffer: self.buffer@,
            cur_row: self.cur_row as int,
            cur_col: self.cur_col as int,
            stack: self.stack@,
        }
    }
}

/// Pops up to `n` frames, prepending each one's offset call to `text`.
fn pop_frames(stack: &mut Vec<EachFrame>, n: usize, cur_row: u32, cur_col: u32, text: Vec<u8>)
    -> (r: Vec<u8>)
    ensures
        (final(stack)@, r@) == spec_pop_frames(
            old(stack)@,
            n as int,
            cur_row as int,
            cur_col as int,
            text@,
        ),
{
    proof {
        strlit_facts();
    }
    let mut text = text;
    let ghost text_init = text@;
    let mut left = n;
    while left > 0 && stack.len() > 0
        invariant
            spec_pop_frames(
                old(stack)@,
                n as int,
                cur_row as int,
                cur_col as int,
                text_init,
            ) == spec_pop_frames(stack@, left as int, cur_row as int, cur_col as int, text@),
        decreases left,
    {
        proof {
            strlit_facts();
        }
        let ghost stack0 = stack@;
        let ghost text0 = text@;
        let f = match stack.pop() {
            Option::Some(f) => f,
            Option::None => {
                return text;
            },
        };
        let mut prefixed: Vec<u8> = Vec::new();
        if matches!(f.axis, EachAxis::Row) {
            let d: u32 = if cur_row >= f.start_row {
                cur_row - f.start_row
            } else {
                0
            };
            let h = lit_bytes("{{row_offset_plus ");
            append_bytes(&mut prefixed, h.as_slice());
            let num = format_u32(d);
            append_bytes(&mut prefixed, num.as_slice());
            let t = lit_bytes("}}");
            append_bytes(&mut prefixed, t.as_slice());
        } else if matches!(f.axis, EachAxis::Col) {
            let d: u32 = if cur_col >= f.start_col {
                cur_col - f.start_col
            } else {
                0
            };
            let h = lit_bytes("{{col_offset_plus ");
            append_bytes(&mut prefixed, h.as_slice());
            let num = format_u32(d);
            append_bytes(&mut prefixed, num.as_slice());
            let t = lit_bytes("}}");
            append_bytes(&mut prefixed, t.as_slice());
        }
        append_bytes(&mut prefixed, text.as_slice());
        proof {
            assert(stack0.last() == f);
            assert(stack@ =~= stack0.drop_last());
            assert(prefixed@ =~= spec_pop_prefix(f, cur_row as int, cur_col as int) + text0);
        }
        text = prefixed;
        left = left - 1;
    }
    text
}

/// Flushes balanced buffered text: push a frame per `{{#each ` opener,
/// then pop one per `{{/each}}` closer, prepending the offset calls.
fn flush_buffer(buffer: Vec<u8>, stack: &mut Vec<EachFrame>, cur_row: u32, cur_col: u32) -> (r:
    Vec<u8>)
    ensures
        (final(stack)@, r@) == spec_flush(
            buffer@,
            old(stack)@,
            cur_row as int,
            cur_col as int,
        ),
{
    proof {
        strlit_facts();
    }
    let pushes = count_each_open(buffer.as_slice());
    let frame = EachFrame { axis: EachAxis::Unknown, start_row: cur_row, start_col: cur_col };
    let ghost stack0 = stack@;
    let mut i: usize = 0;
    while i < pushes
        invariant
            0 <= i <= pushes,
            stack@ =~= stack0 + Seq::new(i as nat, |m: int| frame),
        decreases pushes - i,
    {
        stack.push(frame);
        proof {
            assert(stack@ =~= stack0 + Seq::new(i as nat + 1, |m: int| frame));
        }
        i = i + 1;
    }
    let pops = count_each_close(buffer.as_slice());
    proof {
        assert(stack@ =~= stack0 + Seq::new(
            spec_count_each_open(buffer@, 0) as nat,
            |m: int| frame,
        ));
    }
    pop_frames(stack, pops, cur_row, cur_col, buffer)
}


/// Processes one text chunk against the running state, appending any
/// flushed text to `out`.
fn text_step(chunk: &[u8], st: &mut StitchExec, out: &mut Vec<u8>)
    requires
        old(st).brace + chunk@.len() <= u64::MAX,
    ensures
        (final(out)@, final(st)@) == {
            let stepped = spec_text_step(chunk@, old(st)@);
            (old(out)@ + stepped.0, stepped.1)
        },
        final(st).brace <= old(st).brace + chunk@.len(),
{
    proof {
        strlit_facts();
        crate::scan::lemma_replace_all_shrinks(chunk@, lit("&lt;"), lit("<"));
    }
    let dec = decode_entities(chunk);
    proof {
        lemma_decode_entities_shrinks(chunk@);
        lemma_scan_braces_bound(dec@, 0, st.brace as int, st.in_hb);
    }
    let scanned = scan_braces(dec.as_slice(), st.brace, st.in_hb);
    append_bytes(&mut st.buffer, dec.as_slice());
    if !scanned.1 && scanned.0 == 0 && st.buffer.len() > 0 {
        let mut buf: Vec<u8> = Vec::new();
        core::mem::swap(&mut buf, &mut st.buffer);
        let flushed = flush_buffer(buf, &mut st.stack, st.cur_row, st.cur_col);
        append_bytes(out, flushed.as_slice());
        st.brace = 0;
        st.in_hb = false;
    } else {
        st.brace = scanned.0;
        st.in_hb = scanned.1;
    }
}

/// Decoding entities never grows the text.
proof fn lemma_decode_entities_shrinks(chunk: Seq<u8>)
    ensures
        spec_decode_entities(chunk).len() <= chunk.len(),
{
    strlit_facts();
    let s1 = spec_replace_all(chunk, lit("&lt;"), lit("<"));
    let s2 = spec_replace_all(s1, lit("&gt;"), lit(">"));
    let s3 = spec_replace_all(s2, lit("&amp;"), lit("&"));
    let s4 = spec_replace_all(s3, lit("&quot;"), lit("\""));
    crate::scan::lemma_replace_all_shrinks(chunk, lit("&lt;"), lit("<"));
    crate::scan::lemma_replace_all_shrinks(s1, lit("&gt;"), lit(">"));
    crate::scan::lemma_replace_all_shrinks(s2, lit("&amp;"), lit("&"));
    crate::scan::lemma_replace_all_shrinks(s3, lit("&quot;"), lit("\""));
    crate::scan::lemma_replace_all_shrinks(s4, lit("&apos;"), lit("'"));
}

proof fn lemma_scan_lits()
    ensures
        lit("<").len() == 1,
        lit(">").len() == 1,
        lit("row").len() == 3,
        lit("c").len() == 1,
{
    reveal_strlit("<");
    reveal_strlit(">");
    reveal_strlit("row");
    reveal_strlit("c");
    lemma_ascii_lit_len("<", 1);
    lemma_ascii_lit_len(">", 1);
    lemma_ascii_lit_len("row", 3);
    lemma_ascii_lit_len("c", 1);
}

/// Merges template expressions split across XML runs and rewrites every
/// `<row>` and `<c>` open tag so that its address is computed by helper
/// calls at render time. Character entities in text are decoded, tags
/// standing inside an open expression are dropped, and each `{{/each}}`
/// is prefixed with the offset-advance call of its block's axis.
#[verifier::rlimit(100)]
pub fn merge_handlebars_in_xml(xml_content: &[u8]) -> (r: Vec<u8>)
    ensures
        r@ == spec_stitch(
            xml_content@,
            0,
            StitchState {
                brace: 0,
                in_hb: false,
                buffer: Seq::empty(),
                cur_row: 0,
                cur_col: 0,
                stack: Seq::empty(),
            },
        ),
{
    let lt = lit_bytes("<");
    let gt = lit_bytes(">");
    let row_name = lit_bytes("row");
    let c_name = lit_bytes("c");
    let xl = xml_content.len();
    proof {
        strlit_facts();
    }
    let mut out: Vec<u8> = Vec::new();
    let mut st = StitchExec {
        brace: 0,
        in_hb: false,
        buffer: Vec::new(),
        cur_row: 0,
        cur_col: 0,
        stack: Vec::new(),
    };
    let ghost init = st@;
    let mut pos: usize = 0;
    loop
        invariant
            lt@ == lit("<"),
            gt@ == lit(">"),
            row_name@ == lit("row"),
            c_name@ == lit("c"),
            xl == xml_content@.len(),
            0 <= pos <= xl,
            st.brace <= pos,
            init == (StitchState {
                brace: 0,
                in_hb: false,
                buffer: Seq::empty(),
                cur_row: 0,
                cur_col: 0,
                stack: Seq::empty(),
            }),
            spec_stitch(xml_content@, 0, init) == out@ + spec_stitch(
                xml_content@,
                pos as int,
                st@,
            ),
        decreases xl - pos,
    {
        proof {
            lemma_scan_lits();
        }
        if pos >= xl {
            append_bytes(&mut out, st.buffer.as_slice());
            return out;
        }
        proof {
            lemma_spec_find(xml_content@, lit("<"), pos as int);
        }
        match find(xml_content, lt.as_slice(), pos) {
            Option::None => {
                let chunk = copy_range(xml_content, pos, xl);
                text_step(chunk.as_slice(), &mut st, &mut out);
                append_bytes(&mut out, st.buffer.as_slice());
                return out;
            },
            Option::Some(p) => {
                if p > pos {
                    let chunk = copy_range(xml_content, pos, p);
                    text_step(chunk.as_slice(), &mut st, &mut out);
                    pos = p;
                    proof {
                        assert(spec_stitch(xml_content@, 0, init) == out@ + spec_stitch(
                            xml_content@,
                            pos as int,
                            st@,
                        ));
                    }
                } else {
                    proof {
                        lemma_spec_find(xml_content@, lit(">"), pos as int);
                    }
                    match find(xml_content, gt.as_slice(), pos) {
                        Option::None => {
                            let chunk = copy_range(xml_content, pos, xl);
                            text_step(chunk.as_slice(), &mut st, &mut out);
                            append_bytes(&mut out, st.buffer.as_slice());
                            return out;
                        },
                        Option::Some(q) => {
                            let tag = copy_range(xml_content, pos, q + 1);
                            if st.brace > 0 || st.in_hb {
                                pos = q + 1;
                            } else if is_start_tag(tag.as_slice(), row_name.as_slice()) {
                                let ghost st0 = st@;
                                match row_rewrite(tag.as_slice(), &mut out) {
                                    Option::Some(n) => {
                                        st.cur_row = n;
                                    },
                                    Option::None => {
                                        append_bytes(&mut out, tag.as_slice());
                                    },
                                }
                                promote_row(&mut st.stack);
                                pos = q + 1;
                                proof {
                                    assert(st@ == (StitchState {
                                        cur_row: st@.cur_row,
                                        stack: spec_promote_row(st0.stack),
                                        ..st0
                                    }));
                                    assert(spec_stitch(xml_content@, 0, init) == out@
                                        + spec_stitch(xml_content@, pos as int, st@));
                                }
                            } else if is_start_tag(tag.as_slice(), c_name.as_slice()) {
                                let ghost st0 = st@;
                                match c_rewrite(tag.as_slice(), &mut out) {
                                    Option::Some(ci) => {
                                        st.cur_col = ci;
                                    },
                                    Option::None => {
                                        append_bytes(&mut out, tag.as_slice());
                                    },
                                }
                                promote_col(&mut st.stack);
                                pos = q + 1;
                                proof {
                                    assert(st@ == (StitchState {
                                        cur_col: st@.cur_col,
                                        stack: spec_promote_col(st0.stack),
                                        ..st0
                                    }));
                                    assert(spec_stitch(xml_content@, 0, init) == out@
                                        + spec_stitch(xml_content@, pos as int, st@));
                                }
                            } else {
                                append_bytes(&mut out, tag.as_slice());
                                pos = q + 1;
                            }
                        },
                    }
                }
            },
        }
    }
}

/// Marks the innermost open each-block as row-axis.
fn promote_row(stack: &mut Vec<EachFrame>)
    ensures
        final(stack)@ == spec_promote_row(old(stack)@),
{
    let n = stack.len();
    if n > 0 {
        let f = stack[n - 1];
        let g = EachFrame { axis: EachAxis::Row, start_row: f.start_row, start_col: f.start_col };
        let _ = stack.remove(n - 1);
        stack.insert(n - 1, g);
        proof {
            assert(stack@ =~= spec_promote_row(old(stack)@));
        }
    }
}

/// Marks the innermost open each-block as column-axis when its axis is
/// still unknown.
fn promote_col(stack: &mut Vec<EachFrame>)
    ensures
        final(stack)@ == spec_promote_col(old(stack)@),
{
    let n = stack.len();
    if n > 0 {
        let f = stack[n - 1];
        if matches!(f.axis, EachAxis::Unknown) {
            let g = EachFrame {
                axis: EachAxis::Col,
                start_row: f.start_row,
                start_col: f.start_col,
            };
            let _ = stack.remove(n - 1);
            stack.insert(n - 1, g);
            proof {
                assert(stack@ =~= spec_promote_col(old(stack)@));
            }
        }
    }
}

} // verus!
