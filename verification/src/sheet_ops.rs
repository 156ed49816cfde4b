//! The workbook-level sheet operations collected during a render: deleting
//! a sheet, renaming it, and changing its visibility. All three operate on
//! `xl/workbook.xml`, and deletion also on `xl/_rels/workbook.xml.rels`,
//! the part bundle, and the content-type manifest.

use vstd::prelude::*;

verus! {

use crate::scan::{
    append_bytes,
    copy_range,
    count_occ,
    find,
    format_u32,
    lemma_spec_find,
    lit,
    lit_bytes,
    parse_u32,
    rfind_before,
    replace_all,
    spec_count_occ,
    spec_find,
    spec_replace_all,
    spec_rfind,
    spec_u32_numeral,
    starts_with,
    ends_with,
};
use crate::merges::lemma_ascii_lit_len;
use crate::bundle::{PartBundle, spec_set_part, spec_remove_part, spec_get_part};
use crate::errors::XlsxError;

/// Lengths of the fixed patterns used in this module.
pub proof fn strlit_facts()
    ensures
        lit("xl/worksheets/sheet").len() == 19,
        lit(".xml").len() == 4,
        lit("<sheet ").len() == 7,
        lit("/>").len() == 2,
        lit("\"").len() == 1,
        lit("Id=\"").len() == 4,
        lit("<Relationship ").len() == 14,
        lit("Target=\"worksheets/sheet").len() == 24,
        lit(".xml\"").len() == 5,
        lit("r:id=\"").len() == 6,
        lit("sheetId=\"").len() == 9,
        lit("name=\"").len() == 6,
        lit("state=\"").len() == 7,
        lit(" state=\"").len() == 8,
        lit("xl/workbook.xml").len() == 15,
        lit("xl/_rels/workbook.xml.rels").len() == 26,
        lit("[Content_Types].xml").len() == 19,
        lit("xl/worksheets/_rels/sheet").len() == 25,
        lit(".xml.rels").len() == 9,
{
    reveal_strlit("xl/worksheets/sheet");
    reveal_strlit(".xml");
    reveal_strlit("<sheet ");
    reveal_strlit("/>");
    reveal_strlit("\"");
    reveal_strlit("Id=\"");
    reveal_strlit("<Relationship ");
    reveal_strlit("Target=\"worksheets/sheet");
    reveal_strlit(".xml\"");
    reveal_strlit("r:id=\"");
    reveal_strlit("sheetId=\"");
    reveal_strlit("name=\"");
    reveal_strlit("state=\"");
    reveal_strlit(" state=\"");
    reveal_strlit("xl/workbook.xml");
    reveal_strlit("xl/_rels/workbook.xml.rels");
    reveal_strlit("[Content_Types].xml");
    reveal_strlit("xl/worksheets/_rels/sheet");
    reveal_strlit(".xml.rels");
    lemma_ascii_lit_len("xl/worksheets/sheet", 19);
    lemma_ascii_lit_len(".xml", 4);
    lemma_ascii_lit_len("<sheet ", 7);
    lemma_ascii_lit_len("/>", 2);
    lemma_ascii_lit_len("\"", 1);
    lemma_ascii_lit_len("Id=\"", 4);
    lemma_ascii_lit_len("<Relationship ", 14);
    lemma_ascii_lit_len("Target=\"worksheets/sheet", 24);
    lemma_ascii_lit_len(".xml\"", 5);
    lemma_ascii_lit_len("r:id=\"", 6);
    lemma_ascii_lit_len("sheetId=\"", 9);
    lemma_ascii_lit_len("name=\"", 6);
    lemma_ascii_lit_len("state=\"", 7);
    lemma_ascii_lit_len(" state=\"", 8);
    lemma_ascii_lit_len("xl/workbook.xml", 15);
    lemma_ascii_lit_len("xl/_rels/workbook.xml.rels", 26);
    lemma_ascii_lit_len("[Content_Types].xml", 19);
    lemma_ascii_lit_len("xl/worksheets/_rels/sheet", 25);
    lemma_ascii_lit_len(".xml.rels", 9);
}

/// The sheet number in a worksheet part path `xl/worksheets/sheetN.xml`.
pub open spec fn spec_sheet_num(path: Seq<u8>) -> Option<int> {
    let p1: Seq<u8> = if path.len() >= 19 && path.subrange(0, 19) == lit("xl/worksheets/sheet") {
        path.subrange(19, path.len() as int)
    } else {
        path
    };
    let p2: Seq<u8> = if p1.len() >= 4 && p1.subrange(p1.len() - 4, p1.len() as int) == lit(
        ".xml",
    ) {
        p1.subrange(0, p1.len() - 4)
    } else {
        p1
    };
    if crate::scan::is_dec_digits(p2) && crate::scan::spec_dec_value(p2) <= u32::MAX {
        Some(crate::scan::spec_dec_value(p2))
    } else {
        None
    }
}

/// Parses the sheet number out of a worksheet part path.
pub fn sheet_num(path: &[u8]) -> (r: Option<u32>)
    ensures
        r matches Some(n) ==> spec_sheet_num(path@) == Some(n as int),
        r is None ==> spec_sheet_num(path@) is None,
{
    let prefix = lit_bytes("xl/worksheets/sheet");
    let suffix = lit_bytes(".xml");
    proof {
        strlit_facts();
    }
    let pl = path.len();
    let start: usize = if starts_with(path, prefix.as_slice()) {
        19
    } else {
        0
    };
    let rest = vstd::slice::slice_subrange(path, start, pl);
    let rl = rest.len();
    let end: usize = if ends_with(rest, suffix.as_slice()) {
        rl - 4
    } else {
        rl
    };
    let digits = vstd::slice::slice_subrange(rest, 0, end);
    proof {
        let p1 = if path@.len() >= 19 && path@.subrange(0, 19) == lit("xl/worksheets/sheet") {
            path@.subrange(19, path@.len() as int)
        } else {
            path@
        };
        assert(rest@ =~= p1);
        let p2: Seq<u8> = if p1.len() >= 4 && p1.subrange(p1.len() - 4, p1.len() as int) == lit(
            ".xml",
        ) {
            p1.subrange(0, p1.len() - 4)
        } else {
            p1
        };
        assert(digits@ =~= p2);
    }
    parse_u32(digits)
}

/// A whitespace byte (space, tab, carriage return, line feed).
pub open spec fn is_ws_byte(b: u8) -> bool {
    b == 32 || b == 9 || b == 13 || b == 10
}

/// The position reached by walking back over whitespace from `i`.
pub open spec fn spec_trim_ws_back(s: Seq<u8>, i: int) -> int
    decreases i,
{
    if 0 < i <= s.len() && is_ws_byte(s[i - 1]) {
        spec_trim_ws_back(s, i - 1)
    } else {
        i
    }
}

/// The position reached by walking forward over spaces and tabs from `i`,
/// then over one line feed if present.
pub open spec fn spec_ext_ws_fwd(s: Seq<u8>, i: int) -> int {
    let j = spec_skip_sp(s, i);
    if 0 <= j < s.len() && s[j] == 10 {
        j + 1
    } else {
        j
    }
}

pub open spec fn spec_skip_sp(s: Seq<u8>, i: int) -> int
    decreases s.len() - i,
{
    if 0 <= i < s.len() && (s[i] == 32 || s[i] == 9) {
        spec_skip_sp(s, i + 1)
    } else {
        i
    }
}

fn trim_ws_back(s: &[u8], i: usize) -> (r: usize)
    requires
        i <= s@.len(),
    ensures
        r == spec_trim_ws_back(s@, i as int),
        r <= i,
{
    let mut j = i;
    while j > 0 && (s[j - 1] == 32 || s[j - 1] == 9 || s[j - 1] == 13 || s[j - 1] == 10)
        invariant
            i <= s@.len(),
            0 <= j <= i,
            spec_trim_ws_back(s@, i as int) == spec_trim_ws_back(s@, j as int),
        decreases j,
    {
        j = j - 1;
    }
    j
}

fn ext_ws_fwd(s: &[u8], i: usize) -> (r: usize)
    requires
        i <= s@.len(),
    ensures
        r == spec_ext_ws_fwd(s@, i as int),
        i <= r <= s@.len(),
{
    let n = s.len();
    let mut j = i;
    while j < n && (s[j] == 32 || s[j] == 9)
        invariant
            n == s@.len(),
            i <= j <= n,
            spec_skip_sp(s@, i as int) == spec_skip_sp(s@, j as int),
        decreases n - j,
    {
        j = j + 1;
    }
    if j < n && s[j] == 10 {
        j + 1
    } else {
        j
    }
}

/// An XML node cut out of `s`: from the opening pattern found backwards
/// from `anchor`, to the `/>` found forward from `anchor`, with the
/// surrounding whitespace trimmed. `s` is unchanged when either end is
/// missing.
pub open spec fn spec_cut_node(s: Seq<u8>, back_pat: Seq<u8>, anchor: int) -> Seq<u8> {
    match spec_rfind(s, back_pat, anchor - back_pat.len()) {
        Option::None => s,
        Option::Some(ns) => {
            match spec_find(s, lit("/>"), anchor) {
                Option::None => s,
                Option::Some(e) => {
                    let ds = spec_trim_ws_back(s, ns);
                    let de = spec_ext_ws_fwd(s, e + 2);
                    s.subrange(0, ds) + s.subrange(de, s.len() as int)
                },
            }
        },
    }
}

/// Cuts the node around `anchor` out of `s`.
fn cut_node(s: &[u8], back_pat: &[u8], anchor: usize) -> (r: Vec<u8>)
    requires
        anchor <= s@.len(),
    ensures
        r@ == spec_cut_node(s@, back_pat@, anchor as int),
{
    let close = lit_bytes("/>");
    let sl = s.len();
    proof {
        strlit_facts();
    }
    match rfind_before(s, back_pat, anchor) {
        Option::None => {
            let mut out: Vec<u8> = Vec::new();
            append_bytes(&mut out, s);
            proof {
                assert(out@ =~= s@);
            }
            out
        },
        Option::Some(ns) => {
            proof {
                lemma_rfind_in_range(s@, back_pat@, anchor as int - back_pat@.len());
            }
            match find(s, close.as_slice(), anchor) {
                Option::None => {
                    let mut out: Vec<u8> = Vec::new();
                    append_bytes(&mut out, s);
                    proof {
                        assert(out@ =~= s@);
                    }
                    out
                },
                Option::Some(e) => {
                    proof {
                        lemma_spec_find(s@, lit("/>"), anchor as int);
                    }
                    let ds = trim_ws_back(s, ns);
                    let de = ext_ws_fwd(s, e + 2);
                    proof {
                        lemma_trim_le(s@, ns as int);
                        assert(ds <= ns <= sl);
                    }
                    let mut out: Vec<u8> = Vec::new();
                    append_bytes(&mut out, vstd::slice::slice_subrange(s, 0, ds));
                    append_bytes(&mut out, vstd::slice::slice_subrange(s, de, sl));
                    out
                },
            }
        },
    }
}

pub proof fn lemma_rfind_in_range(s: Seq<u8>, pat: Seq<u8>, from: int)
    ensures
        spec_rfind(s, pat, from) matches Some(i) ==> 0 <= i <= from && crate::scan::is_match_at(
            s,
            pat,
            i,
        ),
    decreases from + 1,
{
    if from >= 0 && !crate::scan::is_match_at(s, pat, from) {
        lemma_rfind_in_range(s, pat, from - 1);
    }
}

proof fn lemma_trim_le(s: Seq<u8>, i: int)
    requires
        0 <= i,
    ensures
        spec_trim_ws_back(s, i) <= i,
    decreases i,
{
    if 0 < i <= s.len() && is_ws_byte(s[i - 1]) {
        lemma_trim_le(s, i - 1);
    }
}

/// The relationship id whose `Target` names worksheet `n`, read from the
/// workbook relationships; empty when it cannot be found.
pub open spec fn spec_rels_rid(rels: Seq<u8>, n: int) -> Seq<u8> {
    let tp = lit("Target=\"worksheets/sheet") + spec_u32_numeral(n) + lit(".xml\"");
    match spec_find(rels, tp, 0) {
        Option::None => Seq::empty(),
        Option::Some(ts) => {
            match spec_rfind(rels, lit("Id=\""), ts - 4) {
                Option::None => Seq::empty(),
                Option::Some(ip) => {
                    match spec_find(rels, lit("\""), ip + 4) {
                        Option::None => Seq::empty(),
                        Option::Some(q) => rels.subrange(ip + 4, q),
                    }
                },
            }
        },
    }
}

/// The workbook relationships with the worksheet-`n` relationship node
/// removed.
pub open spec fn spec_rels_without(rels: Seq<u8>, n: int) -> Seq<u8> {
    let tp = lit("Target=\"worksheets/sheet") + spec_u32_numeral(n) + lit(".xml\"");
    match spec_find(rels, tp, 0) {
        Option::None => rels,
        Option::Some(ts) => spec_cut_node(rels, lit("<Relationship "), ts),
    }
}

/// The workbook with the `<sheet …/>` node referencing `rid` removed.
pub open spec fn spec_wb_without(wb: Seq<u8>, rid: Seq<u8>) -> Seq<u8> {
    if rid.len() == 0 {
        wb
    } else {
        let pat = lit("r:id=\"") + rid + lit("\"");
        match spec_find(wb, pat, 0) {
            Option::None => wb,
            Option::Some(a) => spec_cut_node(wb, lit("<sheet "), a),
        }
    }
}

/// The content-type override line of worksheet `n`.
pub open spec fn spec_ws_override(n: int) -> Seq<u8> {
    lit("  <Override PartName=\"/xl/worksheets/sheet") + spec_u32_numeral(n) + lit(
        ".xml\" ContentType=\"application/vnd.openxmlformats-officedocument.spreadsheetml.worksheet+xml\"/>\n",
    )
}

/// The worksheet-relationships part path of sheet `n`.
pub open spec fn spec_sheet_rels_path(n: int) -> Seq<u8> {
    lit("xl/worksheets/_rels/sheet") + spec_u32_numeral(n) + lit(".xml.rels")
}

/// One deletion folded over the evolving workbook, relationships,
/// content-type manifest, and bundle.
pub open spec fn spec_delete_fold(
    wb: Seq<u8>,
    rels: Seq<u8>,
    ct: Option<Seq<u8>>,
    bundle: Seq<(Seq<u8>, Seq<u8>)>,
    sheets: Seq<Seq<u8>>,
    k: int,
) -> (Seq<u8>, Seq<u8>, Option<Seq<u8>>, Seq<(Seq<u8>, Seq<u8>)>)
    decreases sheets.len() - k,
{
    if k < 0 || k >= sheets.len() {
        (wb, rels, ct, bundle)
    } else {
        match spec_sheet_num(sheets[k]) {
            Option::None => spec_delete_fold(wb, rels, ct, bundle, sheets, k + 1),
            Option::Some(n) => {
                let rid = spec_rels_rid(rels, n);
                let rels2 = spec_rels_without(rels, n);
                let wb2 = spec_wb_without(wb, rid);
                let bundle2 = spec_remove_part(
                    spec_remove_part(bundle, sheets[k]),
                    spec_sheet_rels_path(n),
                );
                let ct2 = match ct {
                    Option::Some(c) => Option::Some(
                        spec_replace_all(c, spec_ws_override(n), Seq::empty()),
                    ),
                    Option::None => Option::None,
                };
                spec_delete_fold(wb2, rels2, ct2, bundle2, sheets, k + 1)
            },
        }
    }
}

/// Deletes the marked sheets: their `<sheet>` nodes and relationships go,
/// their parts and override lines go, and the workbook and relationship
/// parts are written back. Refuses to delete every sheet. Fails when the
/// workbook or its relationships are missing, or when the deletions would
/// leave no sheet.
pub fn delete_sheets(parts: &mut PartBundle, sheets_to_delete: &[Vec<u8>]) -> (r: Result<
    (),
    XlsxError,
>)
    ensures
        sheets_to_delete@.len() == 0 ==> r is Ok && final(parts)@ == old(parts)@,
        r is Ok && sheets_to_delete@.len() > 0 ==> {
            let wb0 = spec_get_part(old(parts)@, lit("xl/workbook.xml"));
            let rels0 = spec_get_part(
                old(parts)@,
                lit("xl/_rels/workbook.xml.rels"),
            );
            let ct0 = spec_get_part(old(parts)@, lit("[Content_Types].xml"));
            &&& wb0 is Some
            &&& rels0 is Some
            &&& sheets_to_delete@.len() < spec_count_occ(wb0.unwrap(), lit("<sheet "), 0)
            &&& {
                let folded = spec_delete_fold(
                    wb0.unwrap(),
                    rels0.unwrap(),
                    ct0,
                    old(parts)@,
                    crate::scan::vecs_view(sheets_to_delete@),
                    0,
                );
                let with_ct = match folded.2 {
                    Option::Some(c) => spec_set_part(folded.3, lit("[Content_Types].xml"), c),
                    Option::None => folded.3,
                };
                final(parts)@ == spec_set_part(
                    spec_set_part(with_ct, lit("xl/workbook.xml"), folded.0),
                    lit("xl/_rels/workbook.xml.rels"),
                    folded.1,
                )
            }
        },
        r matches Err(e) ==> e is TemplateRenderError,
        r is Err && sheets_to_delete@.len() > 0 ==> final(parts)@ == old(parts)@ && {
            let wb0 = spec_get_part(old(parts)@, lit("xl/workbook.xml"));
            let rels0 = spec_get_part(
                old(parts)@,
                lit("xl/_rels/workbook.xml.rels"),
            );
            wb0 is None || rels0 is None || sheets_to_delete@.len() >= spec_count_occ(
                wb0.unwrap(),
                lit("<sheet "),
                0,
            )
        },
{
    if sheets_to_delete.len() == 0 {
        return Ok(());
    }
    proof {
        strlit_facts();
    }
    let wb_path = lit_bytes("xl/workbook.xml");
    let rels_path = lit_bytes("xl/_rels/workbook.xml.rels");
    let ct_path = lit_bytes("[Content_Types].xml");
    let mut wb = match parts.get_copy(wb_path.as_slice()) {
        Some(d) => d,
        None => {
            return Err(
                XlsxError::TemplateRenderError(String::from_str("workbook.xml not found")),
            );
        },
    };
    let mut rels = match parts.get_copy(rels_path.as_slice()) {
        Some(d) => d,
        None => {
            return Err(
                XlsxError::TemplateRenderError(String::from_str("workbook.xml.rels not found")),
            );
        },
    };
    let sheet_tag = lit_bytes("<sheet ");
    let total = count_occ(wb.as_slice(), sheet_tag.as_slice());
    if sheets_to_delete.len() >= total {
        return Err(
            XlsxError::TemplateRenderError(
                String::from_str(
                    "Cannot delete all worksheets. Excel workbook must contain at least one worksheet.",
                ),
            ),
        );
    }
    let mut ct: Option<Vec<u8>> = parts.get_copy(ct_path.as_slice());
    let ghost wb0 = wb@;
    let ghost rels0 = rels@;
    let ghost ct0: Option<Seq<u8>> = match ct {
        Option::Some(ref c) => Option::Some(c@),
        Option::None => Option::None,
    };
    let ghost bundle0 = parts@;
    let nsheets = sheets_to_delete.len();
    let mut k: usize = 0;
    while k < nsheets
        invariant
            nsheets == sheets_to_delete@.len(),
            0 <= k <= nsheets,
            spec_delete_fold(
                wb0,
                rels0,
                ct0,
                bundle0,
                crate::scan::vecs_view(sheets_to_delete@),
                0,
            ) == spec_delete_fold(
                wb@,
                rels@,
                match ct {
                    Option::Some(ref c) => Option::Some(c@),
                    Option::None => Option::None,
                },
                parts@,
                crate::scan::vecs_view(sheets_to_delete@),
                k as int,
            ),
        decreases nsheets - k,
    {
        proof {
            strlit_facts();
        }
        let path = &sheets_to_delete[k];
        let ghost pre = (wb@, rels@, parts@);
        let ghost pre_ct: Option<Seq<u8>> = match ct {
            Option::Some(ref c) => Option::Some(c@),
            Option::None => Option::None,
        };
        match sheet_num(path.as_slice()) {
            Option::None => {},
            Option::Some(n) => {
                let mut tp = lit_bytes("Target=\"worksheets/sheet");
                let num = format_u32(n);
                append_bytes(&mut tp, num.as_slice());
                let sfx = lit_bytes(".xml\"");
                append_bytes(&mut tp, sfx.as_slice());
                proof {
                    assert(tp@ =~= lit("Target=\"worksheets/sheet") + spec_u32_numeral(n as int)
                        + lit(".xml\""));
                }
                let mut rid: Vec<u8> = Vec::new();
                let id_pat = lit_bytes("Id=\"");
                let quote = lit_bytes("\"");
                proof {
                    lemma_spec_find(rels@, tp@, 0);
                }
                match find(rels.as_slice(), tp.as_slice(), 0) {
                    Option::None => {},
                    Option::Some(ts) => {
                        match rfind_before(rels.as_slice(), id_pat.as_slice(), ts) {
                            Option::None => {},
                            Option::Some(ip) => {
                                proof {
                                    lemma_rfind_in_range(rels@, lit("Id=\""), ts as int - 4);
                                    lemma_spec_find(rels@, lit("\""), ip as int + 4);
                                }
                                match find(rels.as_slice(), quote.as_slice(), ip + 4) {
                                    Option::None => {},
                                    Option::Some(q) => {
                                        rid = copy_range(rels.as_slice(), ip + 4, q);
                                    },
                                }
                            },
                        }
                        let back = lit_bytes("<Relationship ");
                        let cut = cut_node(rels.as_slice(), back.as_slice(), ts);
                        rels = cut;
                    },
                }
                proof {
                    assert(rid@ == spec_rels_rid(pre.1, n as int));
                    assert(rels@ == spec_rels_without(pre.1, n as int));
                }
                if rid.len() > 0 {
                    let mut rp = lit_bytes("r:id=\"");
                    append_bytes(&mut rp, rid.as_slice());
                    let q2 = lit_bytes("\"");
                    append_bytes(&mut rp, q2.as_slice());
                    proof {
                        assert(rp@ =~= lit("r:id=\"") + rid@ + lit("\""));
                        lemma_spec_find(wb@, rp@, 0);
                    }
                    match find(wb.as_slice(), rp.as_slice(), 0) {
                        Option::None => {},
                        Option::Some(a) => {
                            let back = lit_bytes("<sheet ");
                            let cut = cut_node(wb.as_slice(), back.as_slice(), a);
                            wb = cut;
                        },
                    }
                }
                proof {
                    assert(wb@ == spec_wb_without(pre.0, rid@));
                }
                parts.remove(path.as_slice());
                let mut srp = lit_bytes("xl/worksheets/_rels/sheet");
                append_bytes(&mut srp, num.as_slice());
                let srs = lit_bytes(".xml.rels");
                append_bytes(&mut srp, srs.as_slice());
                proof {
                    assert(srp@ =~= spec_sheet_rels_path(n as int));
                }
                parts.remove(srp.as_slice());
                match ct {
                    Option::Some(c) => {
                        let mut ov = lit_bytes("  <Override PartName=\"/xl/worksheets/sheet");
                        append_bytes(&mut ov, num.as_slice());
                        let ovs = lit_bytes(
                            ".xml\" ContentType=\"application/vnd.openxmlformats-officedocument.spreadsheetml.worksheet+xml\"/>\n",
                        );
                        append_bytes(&mut ov, ovs.as_slice());
                        proof {
                            assert(ov@ =~= spec_ws_override(n as int));
                            assert(ov@.len() >= 1);
                        }
                        let empty: Vec<u8> = Vec::new();
                        let c2 = replace_all(c.as_slice(), ov.as_slice(), empty.as_slice());
                        ct = Option::Some(c2);
                    },
                    Option::None => {
                        ct = Option::None;
                    },
                }
                proof {
                    assert(crate::scan::vecs_view(sheets_to_delete@)[k as int] == path@);
                }
            },
        }
        proof {
            let sv = crate::scan::vecs_view(sheets_to_delete@);
            let cur_ct: Option<Seq<u8>> = match ct {
                Option::Some(ref c) => Option::Some(c@),
                Option::None => Option::None,
            };
            assert(sv[k as int] == sheets_to_delete@[k as int]@);
            assert(spec_delete_fold(pre.0, pre.1, pre_ct, pre.2, sv, k as int)
                == spec_delete_fold(wb@, rels@, cur_ct, parts@, sv, k as int + 1));
        }
        k = k + 1;
    }
    match ct {
        Option::Some(c) => {
            let mut nm: Vec<u8> = Vec::new();
            append_bytes(&mut nm, ct_path.as_slice());
            parts.set(nm, c);
        },
        Option::None => {},
    }
    let mut nm1: Vec<u8> = Vec::new();
    append_bytes(&mut nm1, wb_path.as_slice());
    parts.set(nm1, wb);
    let mut nm2: Vec<u8> = Vec::new();
    append_bytes(&mut nm2, rels_path.as_slice());
    parts.set(nm2, rels);
    Ok(())
}


/// One hide operation on the workbook: the `<sheet …/>` node whose
/// `sheetId` is `n` gets its `state` attribute replaced, or one inserted
/// before the self-close.
pub open spec fn spec_hide_one(wb: Seq<u8>, n: int, kind: Seq<u8>) -> Seq<u8> {
    let pat = lit("sheetId=\"") + spec_u32_numeral(n) + lit("\"");
    match spec_find(wb, pat, 0) {
        Option::None => wb,
        Option::Some(a) => {
            match spec_rfind(wb, lit("<sheet "), a - 7) {
                Option::None => wb,
                Option::Some(ts) => {
                    match spec_find(wb, lit("/>"), a) {
                        Option::None => wb,
                        Option::Some(e) => {
                            let tag = wb.subrange(ts, e + 2);
                            match spec_find(tag, lit("state=\""), 0) {
                                Option::Some(st) => {
                                    match spec_find(wb, lit("\""), ts + st + 7) {
                                        Option::Some(se) => wb.subrange(0, ts + st + 7) + kind
                                            + wb.subrange(se, wb.len() as int),
                                        Option::None => wb,
                                    }
                                },
                                Option::None => wb.subrange(0, e) + lit(" state=\"") + kind + lit(
                                    "\"",
                                ) + wb.subrange(e, wb.len() as int),
                            }
                        },
                    }
                },
            }
        },
    }
}

/// The hide operations folded over the workbook.
pub open spec fn spec_hide_fold(
    wb: Seq<u8>,
    ops: Seq<(Seq<u8>, Seq<u8>)>,
    k: int,
) -> Seq<u8>
    decreases ops.len() - k,
{
    if k < 0 || k >= ops.len() {
        wb
    } else {
        match spec_sheet_num(ops[k].0) {
            Option::None => spec_hide_fold(wb, ops, k + 1),
            Option::Some(n) => spec_hide_fold(spec_hide_one(wb, n, ops[k].1), ops, k + 1),
        }
    }
}

/// The pair views of the collected (sheet, kind) operations.
pub open spec fn pairs_view(v: Seq<(Vec<u8>, Vec<u8>)>) -> Seq<(Seq<u8>, Seq<u8>)> {
    Seq::new(v.len(), |i: int| (v[i].0@, v[i].1@))
}

/// Applies one hide operation to the workbook bytes.
fn hide_one(wb: &[u8], n: u32, kind: &[u8]) -> (r: Vec<u8>)
    ensures
        r@ == spec_hide_one(wb@, n as int, kind@),
{
    proof {
        strlit_facts();
    }
    let wl = wb.len();
    let mut pat = lit_bytes("sheetId=\"");
    let num = format_u32(n);
    append_bytes(&mut pat, num.as_slice());
    let q = lit_bytes("\"");
    append_bytes(&mut pat, q.as_slice());
    proof {
        assert(pat@ =~= lit("sheetId=\"") + spec_u32_numeral(n as int) + lit("\""));
        lemma_spec_find(wb@, pat@, 0);
    }
    let a = match find(wb, pat.as_slice(), 0) {
        Option::Some(a) => a,
        Option::None => {
            return copy_whole(wb);
        },
    };
    let back = lit_bytes("<sheet ");
    let ts = match rfind_before(wb, back.as_slice(), a) {
        Option::Some(ts) => ts,
        Option::None => {
            return copy_whole(wb);
        },
    };
    proof {
        lemma_rfind_in_range(wb@, lit("<sheet "), a as int - 7);
    }
    let close = lit_bytes("/>");
    proof {
        lemma_spec_find(wb@, lit("/>"), a as int);
    }
    let e = match find(wb, close.as_slice(), a) {
        Option::Some(e) => e,
        Option::None => {
            return copy_whole(wb);
        },
    };
    let tag = copy_range(wb, ts, e + 2);
    let state_pat = lit_bytes("state=\"");
    proof {
        lemma_spec_find(tag@, lit("state=\""), 0);
    }
    match find(tag.as_slice(), state_pat.as_slice(), 0) {
        Option::Some(st) => {
            proof {
                lemma_spec_find(wb@, lit("\""), ts as int + st as int + 7);
            }
            match find(wb, q.as_slice(), ts + st + 7) {
                Option::Some(se) => {
                    let mut out: Vec<u8> = Vec::new();
                    append_bytes(&mut out, vstd::slice::slice_subrange(wb, 0, ts + st + 7));
                    append_bytes(&mut out, kind);
                    append_bytes(&mut out, vstd::slice::slice_subrange(wb, se, wl));
                    out
                },
                Option::None => copy_whole(wb),
            }
        },
        Option::None => {
            let mut out: Vec<u8> = Vec::new();
            append_bytes(&mut out, vstd::slice::slice_subrange(wb, 0, e));
            let ins = lit_bytes(" state=\"");
            append_bytes(&mut out, ins.as_slice());
            append_bytes(&mut out, kind);
            append_bytes(&mut out, q.as_slice());
            append_bytes(&mut out, vstd::slice::slice_subrange(wb, e, wl));
            out
        },
    }
}

fn copy_whole(s: &[u8]) -> (r: Vec<u8>)
    ensures
        r@ == s@,
{
    let mut out: Vec<u8> = Vec::new();
    append_bytes(&mut out, s);
    proof {
        assert(out@ =~= s@);
    }
    out
}

/// Hides the marked sheets by setting the `state` attribute of their
/// `<sheet>` nodes. Refuses to hide every sheet. Fails when the workbook
/// is missing or when the operations would hide every sheet.
pub fn hide_sheets(parts: &mut PartBundle, sheets_to_hide: &[(Vec<u8>, Vec<u8>)]) -> (r: Result<
    (),
    XlsxError,
>)
    ensures
        sheets_to_hide@.len() == 0 ==> r is Ok && final(parts)@ == old(parts)@,
        r is Ok && sheets_to_hide@.len() > 0 ==> {
            let wb0 = spec_get_part(old(parts)@, lit("xl/workbook.xml"));
            &&& wb0 is Some
            &&& sheets_to_hide@.len() < spec_count_occ(wb0.unwrap(), lit("<sheet "), 0)
            &&& final(parts)@ == spec_set_part(
                old(parts)@,
                lit("xl/workbook.xml"),
                spec_hide_fold(wb0.unwrap(), pairs_view(sheets_to_hide@), 0),
            )
        },
        r matches Err(e) ==> e is TemplateRenderError,
        r is Err && sheets_to_hide@.len() > 0 ==> final(parts)@ == old(parts)@ && {
            let wb0 = spec_get_part(old(parts)@, lit("xl/workbook.xml"));
            wb0 is None || sheets_to_hide@.len() >= spec_count_occ(
                wb0.unwrap(),
                lit("<sheet "),
                0,
            )
        },
{
    if sheets_to_hide.len() == 0 {
        return Ok(());
    }
    proof {
        strlit_facts();
    }
    let wb_path = lit_bytes("xl/workbook.xml");
    let mut wb = match parts.get_copy(wb_path.as_slice()) {
        Some(d) => d,
        None => {
            return Err(
                XlsxError::TemplateRenderError(String::from_str("workbook.xml not found")),
            );
        },
    };
    let sheet_tag = lit_bytes("<sheet ");
    let total = count_occ(wb.as_slice(), sheet_tag.as_slice());
    if sheets_to_hide.len() >= total {
        return Err(
            XlsxError::TemplateRenderError(
                String::from_str(
                    "Cannot hide all worksheets. Excel workbook must have at least one visible worksheet.",
                ),
            ),
        );
    }
    let ghost wb0 = wb@;
    let nops = sheets_to_hide.len();
    let mut k: usize = 0;
    while k < nops
        invariant
            nops == sheets_to_hide@.len(),
            0 <= k <= nops,
            spec_hide_fold(wb0, pairs_view(sheets_to_hide@), 0) == spec_hide_fold(
                wb@,
                pairs_view(sheets_to_hide@),
                k as int,
            ),
        decreases nops - k,
    {
        let op = &sheets_to_hide[k];
        let ghost pre = wb@;
        match sheet_num(op.0.as_slice()) {
            Option::None => {},
            Option::Some(n) => {
                let nw = hide_one(wb.as_slice(), n, op.1.as_slice());
                wb = nw;
            },
        }
        proof {
            assert(pairs_view(sheets_to_hide@)[k as int] == (op.0@, op.1@));
            assert(spec_hide_fold(pre, pairs_view(sheets_to_hide@), k as int)
                == spec_hide_fold(wb@, pairs_view(sheets_to_hide@), k as int + 1));
        }
        k = k + 1;
    }
    let mut nm: Vec<u8> = Vec::new();
    append_bytes(&mut nm, wb_path.as_slice());
    parts.set(nm, wb);
    Ok(())
}


/// The first index of `name` in a list of names.
pub open spec fn spec_name_index(names: Seq<Seq<u8>>, name: Seq<u8>, k: int) -> Option<int>
    decreases names.len() - k,
{
    if k < 0 || k >= names.len() {
        None
    } else if names[k] == name {
        Some(k)
    } else {
        spec_name_index(names, name, k + 1)
    }
}

/// The sheet names listed in the workbook, in order: the `name="…"` value
/// of each `<sheet …>` node.
pub open spec fn spec_collect_names(wb: Seq<u8>, pos: int) -> Seq<Seq<u8>>
    decreases wb.len() - pos,
    via spec_collect_names_decreases
{
    match spec_find(wb, lit("<sheet "), pos) {
        Option::None => Seq::empty(),
        Option::Some(a) => {
            match spec_find(wb, lit("name=\""), a) {
                Option::None => Seq::empty(),
                Option::Some(ns) => {
                    match spec_find(wb, lit("\""), ns + 6) {
                        Option::None => Seq::empty(),
                        Option::Some(ne) => seq![wb.subrange(ns + 6, ne)] + spec_collect_names(
                            wb,
                            ne,
                        ),
                    }
                },
            }
        },
    }
}

#[via_fn]
proof fn spec_collect_names_decreases(wb: Seq<u8>, pos: int) {
    strlit_facts();
    if pos >= 0 {
        lemma_spec_find(wb, lit("<sheet "), pos);
        match spec_find(wb, lit("<sheet "), pos) {
            Option::Some(a) => {
                lemma_spec_find(wb, lit("name=\""), a);
                match spec_find(wb, lit("name=\""), a) {
                    Option::Some(ns) => {
                        lemma_spec_find(wb, lit("\""), ns + 6);
                    },
                    Option::None => (),
                }
            },
            Option::None => (),
        }
    } else {
        crate::merges::lemma_spec_find_neg(wb, lit("<sheet "), pos);
    }
}

/// Collects the sheet names of the workbook.
fn collect_names(wb: &[u8]) -> (r: Vec<Vec<u8>>)
    ensures
        crate::scan::vecs_view(r@) == spec_collect_names(wb@, 0),
{
    let sheet_tag = lit_bytes("<sheet ");
    let name_pat = lit_bytes("name=\"");
    let quote = lit_bytes("\"");
    let wl = wb.len();
    proof {
        strlit_facts();
    }
    let mut out: Vec<Vec<u8>> = Vec::new();
    let mut pos: usize = 0;
    loop
        invariant
            sheet_tag@ == lit("<sheet "),
            name_pat@ == lit("name=\""),
            quote@ == lit("\""),
            wl == wb@.len(),
            0 <= pos <= wl,
            spec_collect_names(wb@, 0) == crate::scan::vecs_view(out@) + spec_collect_names(
                wb@,
                pos as int,
            ),
        decreases wl - pos,
    {
        proof {
            strlit_facts();
            lemma_spec_find(wb@, lit("<sheet "), pos as int);
        }
        match find(wb, sheet_tag.as_slice(), pos) {
            Option::None => {
                proof {
                    assert(crate::scan::vecs_view(out@) + spec_collect_names(wb@, pos as int)
                        =~= crate::scan::vecs_view(out@));
                }
                return out;
            },
            Option::Some(a) => {
                proof {
                    lemma_spec_find(wb@, lit("name=\""), a as int);
                }
                match find(wb, name_pat.as_slice(), a) {
                    Option::None => {
                        proof {
                            assert(crate::scan::vecs_view(out@) + spec_collect_names(
                                wb@,
                                pos as int,
                            ) =~= crate::scan::vecs_view(out@));
                        }
                        return out;
                    },
                    Option::Some(ns) => {
                        proof {
                            lemma_spec_find(wb@, lit("\""), ns as int + 6);
                        }
                        match find(wb, quote.as_slice(), ns + 6) {
                            Option::None => {
                                proof {
                                    assert(crate::scan::vecs_view(out@) + spec_collect_names(
                                        wb@,
                                        pos as int,
                                    ) =~= crate::scan::vecs_view(out@));
                                }
                                return out;
                            },
                            Option::Some(ne) => {
                                let ghost out0 = crate::scan::vecs_view(out@);
                                let name = copy_range(wb, ns + 6, ne);
                                out.push(name);
                                pos = ne;
                                proof {
                                    assert(crate::scan::vecs_view(out@) =~= out0.push(
                                        out@[out@.len() - 1]@,
                                    ));
                                    assert(crate::scan::vecs_view(out@) + spec_collect_names(
                                        wb@,
                                        pos as int,
                                    ) =~= out0 + (seq![out@[out@.len() - 1]@]
                                        + spec_collect_names(wb@, pos as int)));
                                }
                            },
                        }
                    },
                }
            },
        }
    }
}

proof fn lemma_digits_len_small(k: int)
    requires
        0 <= k,
    ensures
        k <= 9 ==> crate::scan::spec_dec_digits(k).len() <= 1,
        k <= 99 ==> crate::scan::spec_dec_digits(k).len() <= 2,
        k <= 999 ==> crate::scan::spec_dec_digits(k).len() <= 3,
    decreases k,
{
    if k > 0 {
        if k <= 999 {
            vstd::arithmetic::div_mod::lemma_div_is_ordered(k, 999, 10);
        }
        if k <= 99 {
            vstd::arithmetic::div_mod::lemma_div_is_ordered(k, 99, 10);
        }
        if k <= 9 {
            vstd::arithmetic::div_mod::lemma_div_is_ordered(k, 9, 10);
        }
        vstd::arithmetic::div_mod::lemma_div_nonincreasing(k, 10);
        vstd::arithmetic::div_mod::lemma_div_pos_is_pos(k, 10);
        vstd::arithmetic::div_mod::lemma_div_decreases(k, 10);
        lemma_digits_len_small(k / 10);
        assert(999int / 10 == 99 && 99int / 10 == 9 && 9int / 10 == 0);
    }
}

/// The collision suffix ` (k)`.
pub open spec fn spec_suffix(k: int) -> Seq<u8> {
    lit(" (") + spec_u32_numeral(k) + lit(")")
}

/// The candidate name built for attempt `k`: the base clamped so that the
/// name with its suffix stays within 31 bytes.
pub open spec fn spec_attempt(base: Seq<u8>, k: int) -> Seq<u8> {
    let sfx = spec_suffix(k);
    let max_base: int = 31 - sfx.len();
    let trunc = if base.len() > max_base {
        base.subrange(0, max_base)
    } else {
        base
    };
    trunc + sfx
}

/// The unique name finally chosen: the first candidate that is not among
/// the existing names, or the fallback `SheetN` after a hundred attempts.
pub open spec fn spec_pick_name(
    existing: Seq<Seq<u8>>,
    base: Seq<u8>,
    n: int,
    cand: Seq<u8>,
    k: int,
) -> Seq<u8>
    decreases 102 - k,
{
    if k > 101 {
        lit("Sheet") + spec_u32_numeral(n)
    } else if spec_name_index(existing, cand, 0) is None {
        cand
    } else {
        let cand2 = spec_attempt(base, k);
        if k + 1 > 100 {
            lit("Sheet") + spec_u32_numeral(n)
        } else {
            spec_pick_name(existing, base, n, cand2, k + 1)
        }
    }
}

/// One rename on the workbook and the running name list: the `name`
/// attribute of the node with the matching `sheetId` is replaced by the
/// chosen unique name, which also replaces the old name in the list.
pub open spec fn spec_rename_one(
    wb: Seq<u8>,
    names: Seq<Seq<u8>>,
    n: int,
    new_name: Seq<u8>,
) -> (Seq<u8>, Seq<Seq<u8>>) {
    let final_name = spec_pick_name(names, new_name, n, new_name, 1);
    let pat = lit("sheetId=\"") + spec_u32_numeral(n) + lit("\"");
    match spec_find(wb, pat, 0) {
        Option::None => (wb, names),
        Option::Some(a) => {
            match spec_rfind(wb, lit("<sheet "), a - 7) {
                Option::None => (wb, names),
                Option::Some(ts) => {
                    match spec_find(wb, lit("/>"), a) {
                        Option::None => (wb, names),
                        Option::Some(e) => {
                            let tag = wb.subrange(ts, e + 2);
                            match spec_find(tag, lit("name=\""), 0) {
                                Option::None => (wb, names),
                                Option::Some(na) => {
                                    match spec_find(wb, lit("\""), ts + na + 6) {
                                        Option::None => (wb, names),
                                        Option::Some(ne) => {
                                            let old_name = wb.subrange(ts + na + 6, ne);
                                            let wb2 = wb.subrange(0, ts + na + 6) + final_name
                                                + wb.subrange(ne, wb.len() as int);
                                            let names2 = match spec_name_index(
                                                names,
                                                old_name,
                                                0,
                                            ) {
                                                Option::Some(i) => names.update(i, final_name),
                                                Option::None => names,
                                            };
                                            (wb2, names2)
                                        },
                                    }
                                },
                            }
                        },
                    }
                },
            }
        },
    }
}

/// The rename operations folded over the workbook and name list.
pub open spec fn spec_rename_fold(
    wb: Seq<u8>,
    names: Seq<Seq<u8>>,
    ops: Seq<(Seq<u8>, Seq<u8>)>,
    k: int,
) -> (Seq<u8>, Seq<Seq<u8>>)
    decreases ops.len() - k,
{
    if k < 0 || k >= ops.len() {
        (wb, names)
    } else {
        match spec_sheet_num(ops[k].0) {
            Option::None => spec_rename_fold(wb, names, ops, k + 1),
            Option::Some(n) => {
                let stepped = spec_rename_one(wb, names, n, ops[k].1);
                spec_rename_fold(stepped.0, stepped.1, ops, k + 1)
            },
        }
    }
}

/// The first index of `name` among the collected names.
fn name_index(names: &Vec<Vec<u8>>, name: &[u8]) -> (r: Option<usize>)
    ensures
        r matches Some(i) ==> spec_name_index(crate::scan::vecs_view(names@), name@, 0) == Some(
            i as int,
        ),
        r is None ==> spec_name_index(crate::scan::vecs_view(names@), name@, 0) is None,
{
    let n = names.len();
    let mut k: usize = 0;
    while k < n
        invariant
            n == names@.len(),
            0 <= k <= n,
            spec_name_index(crate::scan::vecs_view(names@), name@, 0) == spec_name_index(
                crate::scan::vecs_view(names@),
                name@,
                k as int,
            ),
        decreases n - k,
    {
        if crate::scan::bytes_eq(names[k].as_slice(), name) {
            proof {
                assert(crate::scan::vecs_view(names@)[k as int] == name@);
            }
            return Some(k);
        }
        proof {
            assert(crate::scan::vecs_view(names@)[k as int] != name@);
        }
        k = k + 1;
    }
    None
}

/// Picks the unique final name for a rename.
fn pick_name(names: &Vec<Vec<u8>>, base: &[u8], n: u32) -> (r: Vec<u8>)
    ensures
        r@ == spec_pick_name(crate::scan::vecs_view(names@), base@, n as int, base@, 1),
{
    proof {
        reveal_strlit(" (");
        reveal_strlit(")");
        reveal_strlit("Sheet");
        lemma_ascii_lit_len(" (", 2);
        lemma_ascii_lit_len(")", 1);
        lemma_ascii_lit_len("Sheet", 5);
    }
    let mut cand = copy_whole(base);
    let mut k: u32 = 1;
    loop
        invariant
            1 <= k <= 101,
            spec_pick_name(crate::scan::vecs_view(names@), base@, n as int, base@, 1)
                == spec_pick_name(
                crate::scan::vecs_view(names@),
                base@,
                n as int,
                cand@,
                k as int,
            ),
        decreases 102 - k,
    {
        proof {
            reveal_strlit(" (");
            reveal_strlit(")");
            reveal_strlit("Sheet");
            lemma_ascii_lit_len(" (", 2);
            lemma_ascii_lit_len(")", 1);
            lemma_ascii_lit_len("Sheet", 5);
        }
        match name_index(names, cand.as_slice()) {
            Option::None => {
                return cand;
            },
            Option::Some(_) => {
                let num = format_u32(k);
                let mut sfx = lit_bytes(" (");
                append_bytes(&mut sfx, num.as_slice());
                let cp = lit_bytes(")");
                append_bytes(&mut sfx, cp.as_slice());
                proof {
                    assert(sfx@ =~= spec_suffix(k as int));
                    lemma_digits_len_small(k as int);
                    assert(sfx@.len() <= 31);
                }
                let max_base = 31 - sfx.len();
                let bl = base.len();
                let mut cand2: Vec<u8>;
                if bl > max_base {
                    cand2 = copy_range(base, 0, max_base);
                } else {
                    cand2 = copy_whole(base);
                }
                append_bytes(&mut cand2, sfx.as_slice());
                proof {
                    assert(cand2@ =~= spec_attempt(base@, k as int));
                }
                if k + 1 > 100 {
                    let mut fb = lit_bytes("Sheet");
                    let num2 = format_u32(n);
                    append_bytes(&mut fb, num2.as_slice());
                    proof {
                        assert(fb@ =~= lit("Sheet") + spec_u32_numeral(n as int));
                    }
                    return fb;
                }
                cand = cand2;
                k = k + 1;
            },
        }
    }
}

/// Applies one rename to the workbook and name list.
fn rename_one(wb: &[u8], names: &mut Vec<Vec<u8>>, n: u32, new_name: &[u8]) -> (r: Vec<u8>)
    ensures
        (r@, crate::scan::vecs_view(final(names)@)) == spec_rename_one(
            wb@,
            crate::scan::vecs_view(old(names)@),
            n as int,
            new_name@,
        ),
{
    proof {
        strlit_facts();
    }
    let wl = wb.len();
    let final_name = pick_name(names, new_name, n);
    let mut pat = lit_bytes("sheetId=\"");
    let num = format_u32(n);
    append_bytes(&mut pat, num.as_slice());
    let q = lit_bytes("\"");
    append_bytes(&mut pat, q.as_slice());
    proof {
        assert(pat@ =~= lit("sheetId=\"") + spec_u32_numeral(n as int) + lit("\""));
        lemma_spec_find(wb@, pat@, 0);
    }
    let a = match find(wb, pat.as_slice(), 0) {
        Option::Some(a) => a,
        Option::None => {
            return copy_whole(wb);
        },
    };
    let back = lit_bytes("<sheet ");
    let ts = match rfind_before(wb, back.as_slice(), a) {
        Option::Some(ts) => ts,
        Option::None => {
            return copy_whole(wb);
        },
    };
    proof {
        lemma_rfind_in_range(wb@, lit("<sheet "), a as int - 7);
    }
    let close = lit_bytes("/>");
    proof {
        lemma_spec_find(wb@, lit("/>"), a as int);
    }
    let e = match find(wb, close.as_slice(), a) {
        Option::Some(e) => e,
        Option::None => {
            return copy_whole(wb);
        },
    };
    let tag = copy_range(wb, ts, e + 2);
    let name_pat = lit_bytes("name=\"");
    proof {
        lemma_spec_find(tag@, lit("name=\""), 0);
    }
    let na = match find(tag.as_slice(), name_pat.as_slice(), 0) {
        Option::Some(na) => na,
        Option::None => {
            return copy_whole(wb);
        },
    };
    proof {
        lemma_spec_find(wb@, lit("\""), ts as int + na as int + 6);
    }
    let ne = match find(wb, q.as_slice(), ts + na + 6) {
        Option::Some(ne) => ne,
        Option::None => {
            return copy_whole(wb);
        },
    };
    let old_name = copy_range(wb, ts + na + 6, ne);
    let mut out: Vec<u8> = Vec::new();
    append_bytes(&mut out, vstd::slice::slice_subrange(wb, 0, ts + na + 6));
    append_bytes(&mut out, final_name.as_slice());
    append_bytes(&mut out, vstd::slice::slice_subrange(wb, ne, wl));
    match name_index(names, old_name.as_slice()) {
        Option::Some(i) => {
            proof {
                lemma_name_index_in_range(crate::scan::vecs_view(names@), old_name@, 0);
            }
            let _ = names.remove(i);
            names.insert(i, final_name);
            proof {
                assert(crate::scan::vecs_view(names@) =~= crate::scan::vecs_view(
                    old(names)@,
                ).update(i as int, spec_rename_one(
                    wb@,
                    crate::scan::vecs_view(old(names)@),
                    n as int,
                    new_name@,
                ).1[i as int]));
                assert(crate::scan::vecs_view(names@) =~= spec_rename_one(
                    wb@,
                    crate::scan::vecs_view(old(names)@),
                    n as int,
                    new_name@,
                ).1);
            }
        },
        Option::None => {},
    }
    out
}

pub proof fn lemma_name_index_in_range(v: Seq<Seq<u8>>, name: Seq<u8>, k: int)
    requires
        0 <= k,
    ensures
        spec_name_index(v, name, k) matches Some(i) ==> k <= i < v.len() && v[i] == name,
    decreases v.len() - k,
{
    if k < v.len() && v[k] != name {
        lemma_name_index_in_range(v, name, k + 1);
    }
}

/// Renames the marked sheets, resolving collisions with a numeric suffix.
/// Fails when the workbook is missing.
pub fn rename_sheets(parts: &mut PartBundle, sheets_to_rename: &[(Vec<u8>, Vec<u8>)]) -> (r:
    Result<(), XlsxError>)
    ensures
        sheets_to_rename@.len() == 0 ==> r is Ok && final(parts)@ == old(parts)@,
        r is Ok && sheets_to_rename@.len() > 0 ==> {
            let wb0 = spec_get_part(old(parts)@, lit("xl/workbook.xml"));
            &&& wb0 is Some
            &&& final(parts)@ == spec_set_part(
                old(parts)@,
                lit("xl/workbook.xml"),
                spec_rename_fold(
                    wb0.unwrap(),
                    spec_collect_names(wb0.unwrap(), 0),
                    pairs_view(sheets_to_rename@),
                    0,
                ).0,
            )
        },
        r matches Err(e) ==> e is TemplateRenderError,
        r is Err && sheets_to_rename@.len() > 0 ==> final(parts)@ == old(parts)@ && spec_get_part(
            old(parts)@,
            lit("xl/workbook.xml"),
        ) is None,
{
    if sheets_to_rename.len() == 0 {
        return Ok(());
    }
    proof {
        strlit_facts();
    }
    let wb_path = lit_bytes("xl/workbook.xml");
    let mut wb = match parts.get_copy(wb_path.as_slice()) {
        Some(d) => d,
        None => {
            return Err(
                XlsxError::TemplateRenderError(String::from_str("workbook.xml not found")),
            );
        },
    };
    let mut names = collect_names(wb.as_slice());
    let ghost wb0 = wb@;
    let ghost names0 = crate::scan::vecs_view(names@);
    let nops = sheets_to_rename.len();
    let mut k: usize = 0;
    while k < nops
        invariant
            nops == sheets_to_rename@.len(),
            0 <= k <= nops,
            spec_rename_fold(wb0, names0, pairs_view(sheets_to_rename@), 0) == spec_rename_fold(
                wb@,
                crate::scan::vecs_view(names@),
                pairs_view(sheets_to_rename@),
                k as int,
            ),
        decreases nops - k,
    {
        let op = &sheets_to_rename[k];
        let ghost pre = (wb@, crate::scan::vecs_view(names@));
        match sheet_num(op.0.as_slice()) {
            Option::None => {},
            Option::Some(n) => {
                let nw = rename_one(wb.as_slice(), &mut names, n, op.1.as_slice());
                wb = nw;
            },
        }
        proof {
            assert(pairs_view(sheets_to_rename@)[k as int] == (op.0@, op.1@));
            assert(spec_rename_fold(pre.0, pre.1, pairs_view(sheets_to_rename@), k as int)
                == spec_rename_fold(
                wb@,
                crate::scan::vecs_view(names@),
                pairs_view(sheets_to_rename@),
                k as int + 1,
            ));
        }
        k = k + 1;
    }
    let mut nm: Vec<u8> = Vec::new();
    append_bytes(&mut nm, wb_path.as_slice());
    parts.set(nm, wb);
    Ok(())
}

} // verus!
