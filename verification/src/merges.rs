//! Pre-processing of a sheet's static merged ranges and hyperlinks.
//!
//! The `<mergeCells>` and `<hyperlinks>` blocks of a template sheet are
//! extracted into records and removed from the XML; a helper call is then
//! injected into the shared string of each origin cell, so that after loop
//! expansion the range or link is re-emitted at its shifted coordinates.

use vstd::prelude::*;

verus! {

use crate::scan::{
    append_bytes,
    copy_range,
    find,
    lemma_spec_find,
    lit,
    lit_bytes,
    spec_find,
    vecs_view,
};

/// One pending hyperlink: the cell it anchors at, the target location, and
/// the display text (possibly empty).
pub struct HyperlinkInfo {
    pub ref_cell: Vec<u8>,
    pub location: Vec<u8>,
    pub display: Vec<u8>,
}

impl View for HyperlinkInfo {
    type V = (Seq<u8>, Seq<u8>, Seq<u8>);

    open spec fn view(&self) -> (Seq<u8>, Seq<u8>, Seq<u8>) {
        (self.ref_cell@, self.location@, self.display@)
    }
}

/// The views of a sequence of hyperlink records.
pub open spec fn links_view(v: Seq<HyperlinkInfo>) -> Seq<(Seq<u8>, Seq<u8>, Seq<u8>)> {
    Seq::new(v.len(), |i: int| v[i]@)
}

/// The values of every `key`-attribute occurrence in `block` at or after
/// `pos`: the text between each occurrence of `key` (which ends in a quote)
/// and the next quote.
pub open spec fn spec_attr_values(block: Seq<u8>, key: Seq<u8>, pos: int) -> Seq<Seq<u8>>
    decreases block.len() - pos,
    via spec_attr_values_decreases
{
    if key.len() == 0 {
        Seq::empty()
    } else {
        match spec_find(block, key, pos) {
            Option::None => Seq::empty(),
            Option::Some(p) => {
                match spec_find(block, lit("\""), p + key.len()) {
                    Option::None => Seq::empty(),
                    Option::Some(q) => seq![block.subrange(p + key.len(), q)]
                        + spec_attr_values(block, key, q),
                }
            },
        }
    }
}

#[via_fn]
proof fn spec_attr_values_decreases(block: Seq<u8>, key: Seq<u8>, pos: int) {
    if key.len() > 0 {
        if pos < 0 {
            lemma_spec_find_neg(block, key, pos);
        } else {
            lemma_spec_find(block, key, pos);
            match spec_find(block, key, pos) {
                Option::Some(p) => lemma_spec_find(block, lit("\""), p + key.len()),
                Option::None => (),
            }
        }
    }
}

/// `spec_find` never finds anything from a negative start position other
/// than by first reaching position zero, so a found position is at least 0
/// and at least the start.
pub proof fn lemma_spec_find_neg(hay: Seq<u8>, needle: Seq<u8>, from: int)
    requires
        from < 0,
    ensures
        spec_find(hay, needle, from) is None,
{
}

/// The value of the first `key` attribute in `tag`, or empty when the key
/// or its closing quote is absent.
pub open spec fn spec_first_attr(tag: Seq<u8>, key: Seq<u8>) -> Seq<u8> {
    match spec_find(tag, key, 0) {
        Option::None => Seq::empty(),
        Option::Some(p) => {
            match spec_find(tag, lit("\""), p + key.len()) {
                Option::None => Seq::empty(),
                Option::Some(q) => tag.subrange(p + key.len(), q),
            }
        },
    }
}

/// The `(ref, location, display)` triples of the `<hyperlink …/>` nodes in
/// `block` at or after `pos`, keeping only those with a nonempty ref and
/// location.
pub open spec fn spec_hyperlink_nodes(block: Seq<u8>, pos: int) -> Seq<(Seq<u8>, Seq<u8>, Seq<u8>)>
    decreases block.len() - pos,
    via spec_hyperlink_nodes_decreases
{
    match spec_find(block, lit("<hyperlink "), pos) {
        Option::None => Seq::empty(),
        Option::Some(p) => {
            match spec_find(block, lit("/>"), p) {
                Option::None => Seq::empty(),
                Option::Some(q) => {
                    let tag = block.subrange(p, q + 2);
                    let r = spec_first_attr(tag, lit("ref=\""));
                    let l = spec_first_attr(tag, lit("location=\""));
                    let d = spec_first_attr(tag, lit("display=\""));
                    let rest = spec_hyperlink_nodes(block, q + 2);
                    if r.len() > 0 && l.len() > 0 {
                        seq![(r, l, d)] + rest
                    } else {
                        rest
                    }
                },
            }
        },
    }
}

#[via_fn]
proof fn spec_hyperlink_nodes_decreases(block: Seq<u8>, pos: int) {
    proof_strlit_facts();
    if pos < 0 {
        lemma_spec_find_neg(block, lit("<hyperlink "), pos);
    } else {
        lemma_spec_find(block, lit("<hyperlink "), pos);
        match spec_find(block, lit("<hyperlink "), pos) {
            Option::Some(p) => lemma_spec_find(block, lit("/>"), p),
            Option::None => (),
        }
    }
}

/// The lengths of the fixed patterns; the scans below need them to be
/// nonempty and of the right size.
pub proof fn proof_strlit_facts()
    ensures
        lit("\"").len() == 1,
        lit(":").len() == 1,
        lit("/>").len() == 2,
        lit("<v>").len() == 3,
        lit("</v>").len() == 4,
        lit("<t>").len() == 3,
        lit("<mergeCells").len() == 11,
        lit("</mergeCells>").len() == 13,
        lit("<hyperlinks").len() == 11,
        lit("</hyperlinks>").len() == 13,
        lit("<hyperlink ").len() == 11,
        lit("ref=\"").len() == 5,
        lit("location=\"").len() == 10,
        lit("display=\"").len() == 9,
        lit("<c r=\"").len() == 6,
{
    reveal_strlit("\"");
    reveal_strlit(":");
    reveal_strlit("/>");
    reveal_strlit("<v>");
    reveal_strlit("</v>");
    reveal_strlit("<t>");
    reveal_strlit("<mergeCells");
    reveal_strlit("</mergeCells>");
    reveal_strlit("<hyperlinks");
    reveal_strlit("</hyperlinks>");
    reveal_strlit("<hyperlink ");
    reveal_strlit("ref=\"");
    reveal_strlit("location=\"");
    reveal_strlit("display=\"");
    reveal_strlit("<c r=\"");
    lemma_ascii_lit_len("\"", 1);
    lemma_ascii_lit_len(":", 1);
    lemma_ascii_lit_len("/>", 2);
    lemma_ascii_lit_len("<v>", 3);
    lemma_ascii_lit_len("</v>", 4);
    lemma_ascii_lit_len("<t>", 3);
    lemma_ascii_lit_len("<mergeCells", 11);
    lemma_ascii_lit_len("</mergeCells>", 13);
    lemma_ascii_lit_len("<hyperlinks", 11);
    lemma_ascii_lit_len("</hyperlinks>", 13);
    lemma_ascii_lit_len("<hyperlink ", 11);
    lemma_ascii_lit_len("ref=\"", 5);
    lemma_ascii_lit_len("location=\"", 10);
    lemma_ascii_lit_len("display=\"", 9);
    lemma_ascii_lit_len("<c r=\"", 6);
}

/// For ASCII text, the byte form has the same length as the character form.
pub proof fn lemma_ascii_lit_len(s: &str, n: int)
    requires
        s@.len() == n,
        vstd::utf8::is_ascii_chars(s@),
    ensures
        lit(s).len() == n,
{
    vstd::utf8::is_ascii_chars_encode_utf8(s@);
}

/// The first extraction stage: the `<mergeCells …>…</mergeCells>` block (or
/// its self-closing form) is removed, and the values of its `ref`
/// attributes are collected.
pub open spec fn spec_extract_merges(xml: Seq<u8>) -> (Seq<u8>, Seq<Seq<u8>>) {
    match spec_find(xml, lit("<mergeCells"), 0) {
        Option::None => (xml, Seq::empty()),
        Option::Some(s) => {
            match spec_find(xml, lit("</mergeCells>"), s) {
                Option::Some(e) => {
                    let end = e + lit("</mergeCells>").len();
                    (
                        xml.subrange(0, s) + xml.subrange(end, xml.len() as int),
                        spec_attr_values(xml.subrange(s, end), lit("ref=\""), 0),
                    )
                },
                Option::None => {
                    match spec_find(xml, lit("/>"), s) {
                        Option::Some(e2) => (
                            xml.subrange(0, s) + xml.subrange(e2 + 2, xml.len() as int),
                            spec_attr_values(xml.subrange(s, e2 + 2), lit("ref=\""), 0),
                        ),
                        Option::None => (xml, Seq::empty()),
                    }
                },
            }
        },
    }
}

/// The second extraction stage: the `<hyperlinks>…</hyperlinks>` block is
/// removed and its `<hyperlink …/>` nodes collected; a self-closing
/// `<hyperlinks …/>` is removed without collecting anything.
pub open spec fn spec_extract_links(xml: Seq<u8>) -> (Seq<u8>, Seq<(Seq<u8>, Seq<u8>, Seq<u8>)>) {
    match spec_find(xml, lit("<hyperlinks"), 0) {
        Option::None => (xml, Seq::empty()),
        Option::Some(s) => {
            match spec_find(xml, lit("</hyperlinks>"), s) {
                Option::Some(e) => {
                    let end = e + lit("</hyperlinks>").len();
                    (
                        xml.subrange(0, s) + xml.subrange(end, xml.len() as int),
                        spec_hyperlink_nodes(xml.subrange(s, end), 0),
                    )
                },
                Option::None => {
                    match spec_find(xml, lit("/>"), s) {
                        Option::Some(e2) => (
                            xml.subrange(0, s) + xml.subrange(e2 + 2, xml.len() as int),
                            Seq::empty(),
                        ),
                        Option::None => (xml, Seq::empty()),
                    }
                },
            }
        },
    }
}

/// Collects the values of every `key` attribute in `block`.
fn collect_attr_values(block: &[u8], key: &[u8]) -> (r: Vec<Vec<u8>>)
    requires
        key@.len() >= 1,
        key@ == lit("ref=\""),
    ensures
        vecs_view(r@) == spec_attr_values(block@, key@, 0),
{
    let quote = lit_bytes("\"");
    let bl = block.len();
    proof {
        proof_strlit_facts();
    }
    let mut out: Vec<Vec<u8>> = Vec::new();
    let mut pos: usize = 0;
    loop
        invariant
            key@.len() >= 1,
            quote@ == lit("\""),
            bl == block@.len(),
            0 <= pos <= bl,
            spec_attr_values(block@, key@, 0) == vecs_view(out@) + spec_attr_values(
                block@,
                key@,
                pos as int,
            ),
        decreases block@.len() - pos,
    {
        proof {
            lemma_spec_find(block@, key@, pos as int);
        }
        match find(block, key, pos) {
            Option::None => {
                proof {
                    assert(vecs_view(out@) + spec_attr_values(block@, key@, pos as int)
                        =~= vecs_view(out@));
                }
                return out;
            },
            Option::Some(p) => {
                let vstart = p + key.len();
                proof {
                    lemma_spec_find(block@, lit("\""), vstart as int);
                }
                match find(block, quote.as_slice(), vstart) {
                    Option::None => {
                        proof {
                            assert(vecs_view(out@) + spec_attr_values(block@, key@, pos as int)
                                =~= vecs_view(out@));
                        }
                        return out;
                    },
                    Option::Some(q) => {
                        let ghost out0 = vecs_view(out@);
                        let value = copy_range(block, vstart, q);
                        out.push(value);
                        proof {
                            assert(vecs_view(out@) =~= out0.push(block@.subrange(
                                vstart as int,
                                q as int,
                            )));
                            assert(vecs_view(out@) + spec_attr_values(block@, key@, q as int)
                                =~= out0 + (seq![block@.subrange(vstart as int, q as int)]
                                + spec_attr_values(block@, key@, q as int)));
                        }
                        pos = q;
                        proof {
                            assert(spec_attr_values(block@, key@, 0) == vecs_view(out@)
                                + spec_attr_values(block@, key@, pos as int));
                        }
                    },
                }
            },
        }
    }
}

/// The value of the first `key` attribute in `tag`, or empty.
fn first_attr(tag: &[u8], key: &[u8]) -> (r: Vec<u8>)
    requires
        key@.len() >= 1,
    ensures
        r@ == spec_first_attr(tag@, key@),
{
    let quote = lit_bytes("\"");
    let tl = tag.len();
    proof {
        proof_strlit_facts();
    }
    match find(tag, key, 0) {
        Option::None => Vec::new(),
        Option::Some(p) => {
            proof {
                lemma_spec_find(tag@, key@, 0);
                assert(p + key@.len() <= tl);
                lemma_spec_find(tag@, lit("\""), p as int + key@.len());
            }
            match find(tag, quote.as_slice(), p + key.len()) {
                Option::None => Vec::new(),
                Option::Some(q) => copy_range(tag, p + key.len(), q),
            }
        },
    }
}

/// Collects the hyperlink nodes of a `<hyperlinks>` block.
fn collect_hyperlink_nodes(block: &[u8]) -> (r: Vec<HyperlinkInfo>)
    ensures
        links_view(r@) == spec_hyperlink_nodes(block@, 0),
{
    let open = lit_bytes("<hyperlink ");
    let close = lit_bytes("/>");
    let key_ref = lit_bytes("ref=\"");
    let key_loc = lit_bytes("location=\"");
    let key_disp = lit_bytes("display=\"");
    let bl = block.len();
    proof {
        proof_strlit_facts();
    }
    let mut out: Vec<HyperlinkInfo> = Vec::new();
    let mut pos: usize = 0;
    loop
        invariant
            open@ == lit("<hyperlink "),
            close@ == lit("/>"),
            key_ref@ == lit("ref=\""),
            key_loc@ == lit("location=\""),
            key_disp@ == lit("display=\""),
            bl == block@.len(),
            0 <= pos <= bl,
            spec_hyperlink_nodes(block@, 0) == links_view(out@) + spec_hyperlink_nodes(
                block@,
                pos as int,
            ),
        decreases block@.len() - pos,
    {
        proof {
            proof_strlit_facts();
            lemma_spec_find(block@, lit("<hyperlink "), pos as int);
        }
        match find(block, open.as_slice(), pos) {
            Option::None => {
                proof {
                    assert(links_view(out@) + spec_hyperlink_nodes(block@, pos as int)
                        =~= links_view(out@));
                }
                return out;
            },
            Option::Some(p) => {
                proof {
                    lemma_spec_find(block@, lit("/>"), p as int);
                }
                match find(block, close.as_slice(), p) {
                    Option::None => {
                        proof {
                            assert(links_view(out@) + spec_hyperlink_nodes(block@, pos as int)
                                =~= links_view(out@));
                        }
                        return out;
                    },
                    Option::Some(q) => {
                        proof {
                            assert(q + 2 <= bl);
                        }
                        let tag = copy_range(block, p, q + 2);
                        let r = first_attr(tag.as_slice(), key_ref.as_slice());
                        let l = first_attr(tag.as_slice(), key_loc.as_slice());
                        let d = first_attr(tag.as_slice(), key_disp.as_slice());
                        let ghost out0 = out@;
                        if r.len() > 0 && l.len() > 0 {
                            out.push(HyperlinkInfo { ref_cell: r, location: l, display: d });
                            proof {
                                assert(links_view(out@) =~= links_view(out0).push(out@[out@.len()
                                    - 1]@));
                                assert(links_view(out@) + spec_hyperlink_nodes(block@, q as int + 2)
                                    =~= links_view(out0) + spec_hyperlink_nodes(
                                    block@,
                                    pos as int,
                                ));
                            }
                        }
                        pos = q + 2;
                        proof {
                            assert(spec_hyperlink_nodes(block@, 0) == links_view(out@)
                                + spec_hyperlink_nodes(block@, pos as int));
                        }
                    },
                }
            },
        }
    }
}

/// Extracts one block delimited by `open … close` (or self-closing `/>`)
/// and returns the XML without it together with the block's own text.
fn remove_block(xml: &[u8], open: &[u8], close: &[u8]) -> (r: Option<(Vec<u8>, Vec<u8>, bool)>)
    requires
        open@.len() >= 1,
        close@.len() >= 1,
    ensures
        match r {
            Some(t) => {
                &&& spec_find(xml@, open@, 0) matches Some(s)
                &&& {
                    let s = spec_find(xml@, open@, 0).unwrap();
                    if t.2 {
                        &&& spec_find(xml@, close@, s) matches Some(e)
                        &&& {
                            let e = spec_find(xml@, close@, s).unwrap();
                            t.0@ == xml@.subrange(0, s) + xml@.subrange(
                                e + close@.len(),
                                xml@.len() as int,
                            ) && t.1@ == xml@.subrange(s, e + close@.len())
                        }
                    } else {
                        &&& spec_find(xml@, close@, s) is None
                        &&& spec_find(xml@, lit("/>"), s) matches Some(e2)
                        &&& {
                            let e2 = spec_find(xml@, lit("/>"), s).unwrap();
                            t.0@ == xml@.subrange(0, s) + xml@.subrange(
                                e2 + 2,
                                xml@.len() as int,
                            ) && t.1@ == xml@.subrange(s, e2 + 2)
                        }
                    }
                }
            },
            None => spec_find(xml@, open@, 0) is None || (spec_find(
                xml@,
                close@,
                spec_find(xml@, open@, 0).unwrap(),
            ) is None && spec_find(xml@, lit("/>"), spec_find(xml@, open@, 0).unwrap()) is None),
        },
{
    let selfclose = lit_bytes("/>");
    let xl = xml.len();
    proof {
        proof_strlit_facts();
    }
    match find(xml, open, 0) {
        Option::None => None,
        Option::Some(s) => {
            proof {
                lemma_spec_find(xml@, open@, 0);
            }
            match find(xml, close, s) {
                Option::Some(e) => {
                    proof {
                        lemma_spec_find(xml@, close@, s as int);
                        assert(e + close@.len() <= xl);
                    }
                    let end = e + close.len();
                    let mut kept: Vec<u8> = Vec::new();
                    append_bytes(&mut kept, vstd::slice::slice_subrange(xml, 0, s));
                    append_bytes(&mut kept, vstd::slice::slice_subrange(xml, end, xml.len()));
                    let block = copy_range(xml, s, end);
                    Some((kept, block, true))
                },
                Option::None => {
                    proof {
                        lemma_spec_find(xml@, lit("/>"), s as int);
                    }
                    match find(xml, selfclose.as_slice(), s) {
                        Option::Some(e2) => {
                            proof {
                                assert(e2 + 2 <= xl);
                            }
                            let end = e2 + 2;
                            let mut kept: Vec<u8> = Vec::new();
                            append_bytes(&mut kept, vstd::slice::slice_subrange(xml, 0, s));
                            append_bytes(
                                &mut kept,
                                vstd::slice::slice_subrange(xml, end, xml.len()),
                            );
                            let block = copy_range(xml, s, end);
                            Some((kept, block, false))
                        },
                        Option::None => None,
                    }
                },
            }
        },
    }
}

/// Extracts the static `<mergeCells>` ranges and `<hyperlinks>` records of
/// a sheet and removes both blocks from the XML. Returns the stripped XML,
/// the merge range strings, and the hyperlink records.
pub fn extract_and_remove_merge_cells_and_hyperlinks(sheet_xml: &[u8]) -> (r: (
    Vec<u8>,
    Vec<Vec<u8>>,
    Vec<HyperlinkInfo>,
))
    ensures
        r.0@ == spec_extract_links(spec_extract_merges(sheet_xml@).0).0,
        vecs_view(r.1@) == spec_extract_merges(sheet_xml@).1,
        links_view(r.2@) == spec_extract_links(spec_extract_merges(sheet_xml@).0).1,
{
    proof {
        proof_strlit_facts();
    }
    let m_open = lit_bytes("<mergeCells");
    let m_close = lit_bytes("</mergeCells>");
    let key_ref = lit_bytes("ref=\"");
    let (xml1, merge_refs) = match remove_block(sheet_xml, m_open.as_slice(), m_close.as_slice()) {
        Some((kept, block, _full)) => {
            let refs = collect_attr_values(block.as_slice(), key_ref.as_slice());
            (kept, refs)
        },
        None => {
            let mut x: Vec<u8> = Vec::new();
            append_bytes(&mut x, sheet_xml);
            proof {
                assert(x@ =~= sheet_xml@);
            }
            (x, Vec::new())
        },
    };
    proof {
        assert(xml1@ == spec_extract_merges(sheet_xml@).0);
        assert(vecs_view(merge_refs@) =~= spec_extract_merges(sheet_xml@).1);
    }
    let h_open = lit_bytes("<hyperlinks");
    let h_close = lit_bytes("</hyperlinks>");
    let (xml2, links) = match remove_block(xml1.as_slice(), h_open.as_slice(), h_close.as_slice()) {
        Some((kept, block, full)) => {
            if full {
                let ls = collect_hyperlink_nodes(block.as_slice());
                (kept, ls)
            } else {
                (kept, Vec::new())
            }
        },
        None => {
            let mut x: Vec<u8> = Vec::new();
            append_bytes(&mut x, xml1.as_slice());
            proof {
                assert(x@ =~= xml1@);
            }
            (x, Vec::new())
        },
    };
    proof {
        assert(xml2@ == spec_extract_links(xml1@).0);
        assert(links_view(links@) =~= spec_extract_links(xml1@).1);
    }
    (xml2, merge_refs, links)
}


/// A byte is an ASCII letter.
pub open spec fn is_ascii_alpha(b: u8) -> bool {
    (65 <= b <= 90) || (97 <= b <= 122)
}

/// The length of the longest prefix of ASCII letters.
pub open spec fn spec_alpha_prefix_len(s: Seq<u8>) -> int
    decreases s.len(),
{
    if s.len() == 0 || !is_ascii_alpha(s[0]) {
        0
    } else {
        1 + spec_alpha_prefix_len(s.drop_first())
    }
}

pub fn alpha_prefix_len(s: &[u8]) -> (r: usize)
    ensures
        r == spec_alpha_prefix_len(s@),
        0 <= r <= s@.len(),
{
    let n = s.len();
    let mut i: usize = 0;
    proof {
        assert(s@.skip(0) =~= s@);
        lemma_alpha_prefix_nonneg(s@);
    }
    loop
        invariant
            n == s@.len(),
            0 <= i <= n,
            spec_alpha_prefix_len(s@) == i + spec_alpha_prefix_len(s@.skip(i as int)),
            spec_alpha_prefix_len(s@.skip(i as int)) >= 0,
        decreases n - i,
    {
        proof {
            lemma_alpha_prefix_nonneg(s@.skip(i as int + 1));
        }
        if i == n {
            return i;
        }
        let b = s[i];
        if !((65 <= b && b <= 90) || (97 <= b && b <= 122)) {
            proof {
                assert(s@.skip(i as int)[0] == s@[i as int]);
            }
            return i;
        }
        proof {
            assert(s@.skip(i as int)[0] == s@[i as int]);
            assert(s@.skip(i as int).drop_first() =~= s@.skip(i as int + 1));
        }
        i = i + 1;
    }
}

proof fn lemma_alpha_prefix_nonneg(s: Seq<u8>)
    ensures
        spec_alpha_prefix_len(s) >= 0,
    decreases s.len(),
{
    if s.len() > 0 && is_ascii_alpha(s[0]) {
        lemma_alpha_prefix_nonneg(s.drop_first());
    }
}

/// The helper call injected for a merge whose range ends at column
/// `end_col`, row `end_row`.
pub open spec fn spec_merge_helper(end_col: Seq<u8>, end_row: Seq<u8>) -> Seq<u8> {
    lit("{{mergeCell (concat (_cr) \":\" (_cr \"") + end_col + lit("\" ") + end_row + lit("))}}")
}

/// The helper call injected for a hyperlink with the given location and
/// display text.
pub open spec fn spec_link_helper(location: Seq<u8>, display: Seq<u8>) -> Seq<u8> {
    lit("{{hyperlink (_cr) \"") + location + lit("\" \"") + display + lit("\"}}")
}

/// The shared-string index of the cell named `cell`: the decimal value in
/// the first `<v>` tag after the first `<c r="cell"` occurrence.
pub open spec fn spec_target_index(xml: Seq<u8>, cell: Seq<u8>) -> Option<int> {
    let pat = lit("<c r=\"") + cell + lit("\"");
    match spec_find(xml, pat, 0) {
        Option::None => Option::None,
        Option::Some(c) => match spec_find(xml, lit("<v>"), c) {
            Option::None => Option::None,
            Option::Some(v) => match spec_find(xml, lit("</v>"), v + 3) {
                Option::None => Option::None,
                Option::Some(ve) => {
                    let digits = xml.subrange(v + 3, ve);
                    if crate::scan::is_dec_digits(digits) && crate::scan::spec_dec_value(digits)
                        <= u32::MAX {
                        Option::Some(crate::scan::spec_dec_value(digits))
                    } else {
                        Option::None
                    }
                },
            },
        },
    }
}

/// One injection: when the origin cell resolves to a shared-string index
/// inside the table, `call` is inserted right after the first `<t>` of
/// that entry; otherwise the table is unchanged.
pub open spec fn spec_inject_call(
    xml: Seq<u8>,
    shared: Seq<Seq<u8>>,
    cell: Seq<u8>,
    call: Seq<u8>,
) -> Seq<Seq<u8>> {
    match spec_target_index(xml, cell) {
        Option::None => shared,
        Option::Some(i) => if i < shared.len() {
            let orig = shared[i];
            match spec_find(orig, lit("<t>"), 0) {
                Option::None => shared,
                Option::Some(t) => shared.update(
                    i,
                    orig.subrange(0, t + 3) + call + orig.subrange(t + 3, orig.len() as int),
                ),
            }
        } else {
            shared
        },
    }
}

/// The injections of all merge ranges from index `k` on.
pub open spec fn spec_inject_merges(
    xml: Seq<u8>,
    shared: Seq<Seq<u8>>,
    refs: Seq<Seq<u8>>,
    k: int,
) -> Seq<Seq<u8>>
    decreases refs.len() - k,
{
    if k < 0 || k >= refs.len() {
        shared
    } else {
        let r = refs[k];
        let shared2 = match spec_find(r, lit(":"), 0) {
            Option::None => shared,
            Option::Some(c) => {
                let start_cell = r.subrange(0, c);
                let end_cell = r.subrange(c + 1, r.len() as int);
                let plen = spec_alpha_prefix_len(end_cell);
                let end_col = end_cell.subrange(0, plen);
                let end_row = end_cell.subrange(plen, end_cell.len() as int);
                spec_inject_call(xml, shared, start_cell, spec_merge_helper(end_col, end_row))
            },
        };
        spec_inject_merges(xml, shared2, refs, k + 1)
    }
}

/// The injections of all hyperlink records from index `k` on.
pub open spec fn spec_inject_links(
    xml: Seq<u8>,
    shared: Seq<Seq<u8>>,
    links: Seq<(Seq<u8>, Seq<u8>, Seq<u8>)>,
    k: int,
) -> Seq<Seq<u8>>
    decreases links.len() - k,
{
    if k < 0 || k >= links.len() {
        shared
    } else {
        let l = links[k];
        let shared2 = spec_inject_call(xml, shared, l.0, spec_link_helper(l.1, l.2));
        spec_inject_links(xml, shared2, links, k + 1)
    }
}

/// Performs one injection into the shared-string table.
fn inject_call(xml: &[u8], shared: &mut Vec<Vec<u8>>, cell: &[u8], call: &[u8])
    ensures
        vecs_view(final(shared)@) == spec_inject_call(xml@, vecs_view(old(shared)@), cell@, call@),
{
    proof {
        proof_strlit_facts();
    }
    let xl = xml.len();
    let mut pat = lit_bytes("<c r=\"");
    append_bytes(&mut pat, cell);
    let q = lit_bytes("\"");
    append_bytes(&mut pat, q.as_slice());
    proof {
        assert(pat@ =~= lit("<c r=\"") + cell@ + lit("\""));
    }
    let c = match find(xml, pat.as_slice(), 0) {
        Option::None => {
            return ;
        },
        Option::Some(c) => c,
    };
    let v_open = lit_bytes("<v>");
    let v = match find(xml, v_open.as_slice(), c) {
        Option::None => {
            return ;
        },
        Option::Some(v) => v,
    };
    proof {
        lemma_spec_find(xml@, lit("<v>"), c as int);
        assert(v + 3 <= xl);
    }
    let v_close = lit_bytes("</v>");
    let ve = match find(xml, v_close.as_slice(), v + 3) {
        Option::None => {
            return ;
        },
        Option::Some(ve) => ve,
    };
    proof {
        lemma_spec_find(xml@, lit("</v>"), v as int + 3);
    }
    let digits = copy_range(xml, v + 3, ve);
    let idx32 = match crate::scan::parse_u32(digits.as_slice()) {
        Option::None => {
            return ;
        },
        Option::Some(i) => i,
    };
    let idx = idx32 as usize;
    if idx < shared.len() {
        let ghost shared0 = vecs_view(shared@);
        let orig = shared.remove(idx);
        let t_open = lit_bytes("<t>");
        match find(orig.as_slice(), t_open.as_slice(), 0) {
            Option::None => {
                shared.insert(idx, orig);
                proof {
                    assert(shared@ =~= old(shared)@);
                    assert(vecs_view(shared@) =~= shared0);
                }
            },
            Option::Some(t) => {
                let ol = orig.len();
                proof {
                    lemma_spec_find(orig@, lit("<t>"), 0);
                    assert(t + 3 <= ol);
                }
                let updated = crate::scan::splice(orig.as_slice(), t + 3, t + 3, call);
                proof {
                    assert(updated@ =~= orig@.subrange(0, t as int + 3) + call@ + orig@.subrange(
                        t as int + 3,
                        orig@.len() as int,
                    ));
                }
                shared.insert(idx, updated);
                proof {
                    assert(shared@ =~= old(shared)@.update(idx as int, updated));
                    assert(vecs_view(shared@) =~= shared0.update(idx as int, updated@));
                }
            },
        }
    }
}

/// Injects a `mergeCell` helper call into the shared string of each merge
/// range's origin cell, and a `hyperlink` helper call into the shared
/// string of each hyperlink's cell. Entries that cannot be resolved (no
/// such cell, no `<v>` index, an index out of range, or no `<t>` in the
/// shared string) are left unchanged.
pub fn inject_helpers_into_shared_strings(
    xml_content: &[u8],
    shared_strings: &mut Vec<Vec<u8>>,
    merge_refs: &[Vec<u8>],
    hyperlinks: &[HyperlinkInfo],
)
    ensures
        vecs_view(final(shared_strings)@) == spec_inject_links(
            xml_content@,
            spec_inject_merges(xml_content@, vecs_view(old(shared_strings)@), vecs_view(merge_refs@), 0),
            links_view(hyperlinks@),
            0,
        ),
{
    proof {
        proof_strlit_facts();
    }
    let ghost shared0 = vecs_view(shared_strings@);
    let colon = lit_bytes(":");
    let nrefs = merge_refs.len();
    let mut k: usize = 0;
    while k < nrefs
        invariant
            colon@ == lit(":"),
            nrefs == merge_refs@.len(),
            0 <= k <= nrefs,
            spec_inject_merges(xml_content@, shared0, vecs_view(merge_refs@), 0)
                == spec_inject_merges(
                xml_content@,
                vecs_view(shared_strings@),
                vecs_view(merge_refs@),
                k as int,
            ),
        decreases nrefs - k,
    {
        proof {
            proof_strlit_facts();
        }
        let r = &merge_refs[k];
        let ghost shared_k = vecs_view(shared_strings@);
        match find(r.as_slice(), colon.as_slice(), 0) {
            Option::None => {},
            Option::Some(c) => {
                proof {
                    lemma_spec_find(r@, lit(":"), 0);
                }
                let rl = r.len();
                let start_cell = copy_range(r.as_slice(), 0, c);
                let end_cell = copy_range(r.as_slice(), c + 1, rl);
                let plen = alpha_prefix_len(end_cell.as_slice());
                let end_col = copy_range(end_cell.as_slice(), 0, plen);
                let end_row = copy_range(end_cell.as_slice(), plen, end_cell.len());
                let mut call = lit_bytes("{{mergeCell (concat (_cr) \":\" (_cr \"");
                append_bytes(&mut call, end_col.as_slice());
                let mid = lit_bytes("\" ");
                append_bytes(&mut call, mid.as_slice());
                append_bytes(&mut call, end_row.as_slice());
                let tail = lit_bytes("))}}");
                append_bytes(&mut call, tail.as_slice());
                proof {
                    assert(call@ =~= spec_merge_helper(end_col@, end_row@));
                }
                inject_call(xml_content, shared_strings, start_cell.as_slice(), call.as_slice());
            },
        }
        proof {
            assert(vecs_view(merge_refs@)[k as int] == merge_refs@[k as int]@);
            assert(spec_inject_merges(
                xml_content@,
                shared_k,
                vecs_view(merge_refs@),
                k as int,
            ) == spec_inject_merges(
                xml_content@,
                vecs_view(shared_strings@),
                vecs_view(merge_refs@),
                k as int + 1,
            ));
        }
        k = k + 1;
    }
    let ghost shared1 = vecs_view(shared_strings@);
    let nlinks = hyperlinks.len();
    let mut j: usize = 0;
    while j < nlinks
        invariant
            nlinks == hyperlinks@.len(),
            0 <= j <= nlinks,
            shared1 == spec_inject_merges(
                xml_content@,
                shared0,
                vecs_view(merge_refs@),
                0,
            ),
            spec_inject_links(xml_content@, shared1, links_view(hyperlinks@), 0)
                == spec_inject_links(
                xml_content@,
                vecs_view(shared_strings@),
                links_view(hyperlinks@),
                j as int,
            ),
        decreases nlinks - j,
    {
        proof {
            proof_strlit_facts();
        }
        let l = &hyperlinks[j];
        let ghost shared_j = vecs_view(shared_strings@);
        let mut call = lit_bytes("{{hyperlink (_cr) \"");
        append_bytes(&mut call, l.location.as_slice());
        let mid = lit_bytes("\" \"");
        append_bytes(&mut call, mid.as_slice());
        append_bytes(&mut call, l.display.as_slice());
        let tail = lit_bytes("\"}}");
        append_bytes(&mut call, tail.as_slice());
        proof {
            assert(call@ =~= spec_link_helper(l.location@, l.display@));
        }
        inject_call(xml_content, shared_strings, l.ref_cell.as_slice(), call.as_slice());
        proof {
            assert(links_view(hyperlinks@)[j as int] == hyperlinks@[j as int]@);
            assert(spec_inject_links(
                xml_content@,
                shared_j,
                links_view(hyperlinks@),
                j as int,
            ) == spec_inject_links(
                xml_content@,
                vecs_view(shared_strings@),
                links_view(hyperlinks@),
                j as int + 1,
            ));
        }
        j = j + 1;
    }
}

} // verus!