//! The shared-string table and its inlining into sheet cells.
//!
//! The workbook's `<si>…</si>` entries are lifted into an ordered list of
//! `<is>…</is>` inline-string fragments, the part itself is replaced by an
//! empty `sst` stub, and each `<c t="s"><v>K</v></c>` cell of a sheet is
//! rewritten into an inline-string cell holding the K-th fragment.
//!
//! Tag spans are delimited by `<` and the next `>`, and an element's body
//! runs to the next matching closing tag; the rewrites below rely on cells
//! and inline strings not nesting, which holds of worksheet XML.

use vstd::prelude::*;

verus! {

use crate::scan::{
    append_bytes,
    copy_range,
    find,
    is_end_tag,
    is_start_tag,
    lemma_spec_find,
    lit,
    lit_bytes,
    parse_u32,
    spec_find,
    spec_is_end_tag,
    spec_is_start_tag,
    spec_replace_all,
    replace_all,
    vecs_view,
};
use crate::merges::lemma_ascii_lit_len;

/// Lengths of the fixed patterns used in this module.
pub proof fn strlit_facts()
    ensures
        lit("<").len() == 1,
        lit(">").len() == 1,
        lit("<si>").len() == 4,
        lit("</si>").len() == 5,
        lit("<is>").len() == 4,
        lit("</is>").len() == 5,
        lit("t").len() == 1,
        lit("r").len() == 1,
        lit("c").len() == 1,
        lit("<t>").len() == 3,
        lit("</t>").len() == 4,
        lit("<r><t>").len() == 6,
        lit("</t></r>").len() == 8,
        lit("</c>").len() == 4,
        lit("<v>").len() == 3,
        lit("</v>").len() == 4,
        lit("<f").len() == 2,
        lit("{{#each").len() == 7,
        lit("{{/each").len() == 7,
        lit(" t=\"s\"").len() == 6,
        lit(" t=\"inlineStr\"").len() == 14,
{
    reveal_strlit("<");
    reveal_strlit(">");
    reveal_strlit("<si>");
    reveal_strlit("</si>");
    reveal_strlit("<is>");
    reveal_strlit("</is>");
    reveal_strlit("t");
    reveal_strlit("r");
    reveal_strlit("c");
    reveal_strlit("<t>");
    reveal_strlit("</t>");
    reveal_strlit("<r><t>");
    reveal_strlit("</t></r>");
    reveal_strlit("</c>");
    reveal_strlit("<v>");
    reveal_strlit("</v>");
    reveal_strlit("<f");
    reveal_strlit("{{#each");
    reveal_strlit("{{/each");
    reveal_strlit(" t=\"s\"");
    reveal_strlit(" t=\"inlineStr\"");
    lemma_ascii_lit_len("<", 1);
    lemma_ascii_lit_len(">", 1);
    lemma_ascii_lit_len("<si>", 4);
    lemma_ascii_lit_len("</si>", 5);
    lemma_ascii_lit_len("<is>", 4);
    lemma_ascii_lit_len("</is>", 5);
    lemma_ascii_lit_len("t", 1);
    lemma_ascii_lit_len("r", 1);
    lemma_ascii_lit_len("c", 1);
    lemma_ascii_lit_len("<t>", 3);
    lemma_ascii_lit_len("</t>", 4);
    lemma_ascii_lit_len("<r><t>", 6);
    lemma_ascii_lit_len("</t></r>", 8);
    lemma_ascii_lit_len("</c>", 4);
    lemma_ascii_lit_len("<v>", 3);
    lemma_ascii_lit_len("</v>", 4);
    lemma_ascii_lit_len("<f", 2);
    lemma_ascii_lit_len("{{#each", 7);
    lemma_ascii_lit_len("{{/each", 7);
    lemma_ascii_lit_len(" t=\"s\"", 6);
    lemma_ascii_lit_len(" t=\"inlineStr\"", 14);
}

/// The `<si>…</si>` spans of the shared-string part, in order, each with
/// its `si` tags renamed to `is`. An unterminated `<si>` truncates the
/// table at that point.
pub open spec fn spec_si_fragments(xml: Seq<u8>, pos: int) -> Seq<Seq<u8>>
    decreases xml.len() - pos,
    via spec_si_fragments_decreases
{
    match spec_find(xml, lit("<si>"), pos) {
        Option::None => Seq::empty(),
        Option::Some(s) => {
            match spec_find(xml, lit("</si>"), s) {
                Option::None => Seq::empty(),
                Option::Some(e) => {
                    let span = xml.subrange(s, e + 5);
                    let frag = spec_replace_all(
                        spec_replace_all(span, lit("<si>"), lit("<is>")),
                        lit("</si>"),
                        lit("</is>"),
                    );
                    seq![frag] + spec_si_fragments(xml, e + 5)
                },
            }
        },
    }
}

#[via_fn]
proof fn spec_si_fragments_decreases(xml: Seq<u8>, pos: int) {
    strlit_facts();
    if pos < 0 {
        crate::merges::lemma_spec_find_neg(xml, lit("<si>"), pos);
    } else {
        lemma_spec_find(xml, lit("<si>"), pos);
        match spec_find(xml, lit("<si>"), pos) {
            Option::Some(s) => lemma_spec_find(xml, lit("</si>"), s),
            Option::None => (),
        }
    }
}

/// Extracts the shared strings of `xl/sharedStrings.xml` as inline-string
/// fragments: each `<si>…</si>` span in order, with the tags renamed to
/// `<is>…</is>`.
pub fn extract_si_fragments(xml: &[u8]) -> (r: Vec<Vec<u8>>)
    ensures
        vecs_view(r@) == spec_si_fragments(xml@, 0),
{
    let si_open = lit_bytes("<si>");
    let si_close = lit_bytes("</si>");
    let is_open = lit_bytes("<is>");
    let is_close = lit_bytes("</is>");
    let xl = xml.len();
    proof {
        strlit_facts();
    }
    let mut out: Vec<Vec<u8>> = Vec::new();
    let mut pos: usize = 0;
    loop
        invariant
            si_open@ == lit("<si>"),
            si_close@ == lit("</si>"),
            is_open@ == lit("<is>"),
            is_close@ == lit("</is>"),
            xl == xml@.len(),
            0 <= pos <= xl,
            spec_si_fragments(xml@, 0) == vecs_view(out@) + spec_si_fragments(xml@, pos as int),
        decreases xml@.len() - pos,
    {
        proof {
            strlit_facts();
            lemma_spec_find(xml@, lit("<si>"), pos as int);
        }
        match find(xml, si_open.as_slice(), pos) {
            Option::None => {
                proof {
                    assert(vecs_view(out@) + spec_si_fragments(xml@, pos as int)
                        =~= vecs_view(out@));
                }
                return out;
            },
            Option::Some(s) => {
                proof {
                    lemma_spec_find(xml@, lit("</si>"), s as int);
                }
                match find(xml, si_close.as_slice(), s) {
                    Option::None => {
                        proof {
                            assert(vecs_view(out@) + spec_si_fragments(xml@, pos as int)
                                =~= vecs_view(out@));
                        }
                        return out;
                    },
                    Option::Some(e) => {
                        let span = copy_range(xml, s, e + 5);
                        let step1 = replace_all(span.as_slice(), si_open.as_slice(),
                            is_open.as_slice());
                        let frag = replace_all(step1.as_slice(), si_close.as_slice(),
                            is_close.as_slice());
                        let ghost out0 = vecs_view(out@);
                        out.push(frag);
                        pos = e + 5;
                        proof {
                            assert(vecs_view(out@) =~= out0.push(out@[out@.len() - 1]@));
                            assert(vecs_view(out@) + spec_si_fragments(xml@, pos as int)
                                =~= out0 + (seq![out@[out@.len() - 1]@] + spec_si_fragments(
                                xml@,
                                pos as int,
                            )));
                        }
                    },
                }
            },
        }
    }
}

/// The replacement for the consumed shared-string part: a valid empty
/// `sst` element.
pub fn empty_sst_part() -> (r: Vec<u8>)
    ensures
        r@ == lit(
            "<?xml version=\"1.0\" encoding=\"UTF-8\" standalone=\"yes\"?><sst xmlns=\"http://schemas.openxmlformats.org/spreadsheetml/2006/main\" count=\"0\" uniqueCount=\"0\"></sst>",
        ),
{
    lit_bytes(
        "<?xml version=\"1.0\" encoding=\"UTF-8\" standalone=\"yes\"?><sst xmlns=\"http://schemas.openxmlformats.org/spreadsheetml/2006/main\" count=\"0\" uniqueCount=\"0\"></sst>",
    )
}

/// One rewriting pass over a shared-string fragment: every `<t>` element
/// whose text holds a loop delimiter (`{{#each` or `{{/each`) and does not
/// already sit inside an `<r>` run is wrapped in one, so that the
/// template rewriting later keeps the inline-string structure. Every `<t>`
/// open tag is re-emitted bare (its attributes are dropped), as the
/// element is reassembled.
pub open spec fn spec_si_rewrite(xml: Seq<u8>, pos: int, in_r: bool) -> Seq<u8>
    decreases xml.len() - pos,
    via spec_si_rewrite_decreases
{
    if pos < 0 || pos >= xml.len() {
        Seq::empty()
    } else {
        match spec_find(xml, lit("<"), pos) {
            Option::None => xml.subrange(pos, xml.len() as int),
            Option::Some(p) => {
                if p > pos {
                    xml.subrange(pos, p) + spec_si_rewrite(xml, p, in_r)
                } else {
                    match spec_find(xml, lit(">"), pos) {
                        Option::None => xml.subrange(pos, xml.len() as int),
                        Option::Some(q) => {
                            let tag = xml.subrange(pos, q + 1);
                            if spec_is_start_tag(tag, lit("t")) {
                                match spec_find(xml, lit("</t>"), q + 1) {
                                    Option::None => Seq::empty(),
                                    Option::Some(ce) => {
                                        let content = xml.subrange(q + 1, ce);
                                        let has_each = spec_find(content, lit("{{#each"), 0)
                                            is Some || spec_find(content, lit("{{/each"), 0)
                                            is Some;
                                        let rendered = if has_each && !in_r {
                                            lit("<r><t>") + content + lit("</t></r>")
                                        } else {
                                            lit("<t>") + content + lit("</t>")
                                        };
                                        rendered + spec_si_rewrite(xml, ce + 4, in_r)
                                    },
                                }
                            } else if spec_is_start_tag(tag, lit("r")) {
                                tag + spec_si_rewrite(xml, q + 1, true)
                            } else if spec_is_end_tag(tag, lit("r")) {
                                tag + spec_si_rewrite(xml, q + 1, false)
                            } else {
                                tag + spec_si_rewrite(xml, q + 1, in_r)
                            }
                        },
                    }
                }
            },
        }
    }
}

#[via_fn]
proof fn spec_si_rewrite_decreases(xml: Seq<u8>, pos: int, in_r: bool) {
    strlit_facts();
    if 0 <= pos < xml.len() {
        lemma_spec_find(xml, lit("<"), pos);
        match spec_find(xml, lit("<"), pos) {
            Option::Some(p) => {
                if p == pos {
                    lemma_spec_find(xml, lit(">"), pos);
                    match spec_find(xml, lit(">"), pos) {
                        Option::Some(q) => lemma_spec_find(xml, lit("</t>"), q + 1),
                        Option::None => (),
                    }
                }
            },
            Option::None => (),
        }
    }
}

/// Wraps loop-delimiter `<t>` elements of a shared-string fragment in `<r>`
/// runs where they are not already inside one.
pub fn replace_shared_string_si_with_handlebars(si_xml: &[u8]) -> (r: Vec<u8>)
    ensures
        r@ == spec_si_rewrite(si_xml@, 0, false),
{
    let lt = lit_bytes("<");
    let gt = lit_bytes(">");
    let t_name = lit_bytes("t");
    let r_name = lit_bytes("r");
    let t_close = lit_bytes("</t>");
    let each_open = lit_bytes("{{#each");
    let each_close = lit_bytes("{{/each");
    let wrap_open = lit_bytes("<r><t>");
    let wrap_close = lit_bytes("</t></r>");
    let t_open_bare = lit_bytes("<t>");
    let xl = si_xml.len();
    proof {
        strlit_facts();
    }
    let mut out: Vec<u8> = Vec::new();
    let mut pos: usize = 0;
    let mut in_r = false;
    loop
        invariant
            lt@ == lit("<"),
            gt@ == lit(">"),
            t_name@ == lit("t"),
            r_name@ == lit("r"),
            t_close@ == lit("</t>"),
            each_open@ == lit("{{#each"),
            each_close@ == lit("{{/each"),
            wrap_open@ == lit("<r><t>"),
            wrap_close@ == lit("</t></r>"),
            t_open_bare@ == lit("<t>"),
            xl == si_xml@.len(),
            0 <= pos <= xl,
            spec_si_rewrite(si_xml@, 0, false) == out@ + spec_si_rewrite(
                si_xml@,
                pos as int,
                in_r,
            ),
        decreases xl - pos,
    {
        proof {
            strlit_facts();
        }
        if pos >= xl {
            proof {
                assert(out@ + spec_si_rewrite(si_xml@, pos as int, in_r) =~= out@);
            }
            return out;
        }
        proof {
            lemma_spec_find(si_xml@, lit("<"), pos as int);
        }
        match find(si_xml, lt.as_slice(), pos) {
            Option::None => {
                append_bytes(&mut out, vstd::slice::slice_subrange(si_xml, pos, xl));
                return out;
            },
            Option::Some(p) => {
                if p > pos {
                    append_bytes(&mut out, vstd::slice::slice_subrange(si_xml, pos, p));
                    pos = p;
                } else {
                    proof {
                        lemma_spec_find(si_xml@, lit(">"), pos as int);
                    }
                    match find(si_xml, gt.as_slice(), pos) {
                        Option::None => {
                            append_bytes(&mut out, vstd::slice::slice_subrange(si_xml, pos, xl));
                            return out;
                        },
                        Option::Some(q) => {
                            let tag = copy_range(si_xml, pos, q + 1);
                            if is_start_tag(tag.as_slice(), t_name.as_slice()) {
                                proof {
                                    lemma_spec_find(si_xml@, lit("</t>"), q as int + 1);
                                }
                                match find(si_xml, t_close.as_slice(), q + 1) {
                                    Option::None => {
                                        return out;
                                    },
                                    Option::Some(ce) => {
                                        let content = copy_range(si_xml, q + 1, ce);
                                        let has_each = crate::scan::contains(
                                            content.as_slice(),
                                            each_open.as_slice(),
                                        ) || crate::scan::contains(
                                            content.as_slice(),
                                            each_close.as_slice(),
                                        );
                                        if has_each && !in_r {
                                            append_bytes(&mut out, wrap_open.as_slice());
                                            append_bytes(&mut out, content.as_slice());
                                            append_bytes(&mut out, wrap_close.as_slice());
                                        } else {
                                            append_bytes(&mut out, t_open_bare.as_slice());
                                            append_bytes(&mut out, content.as_slice());
                                            append_bytes(&mut out, t_close.as_slice());
                                        }
                                        pos = ce + 4;
                                    },
                                }
                            } else if is_start_tag(tag.as_slice(), r_name.as_slice()) {
                                append_bytes(&mut out, tag.as_slice());
                                in_r = true;
                                pos = q + 1;
                            } else if is_end_tag(tag.as_slice(), r_name.as_slice()) {
                                append_bytes(&mut out, tag.as_slice());
                                in_r = false;
                                pos = q + 1;
                            } else {
                                append_bytes(&mut out, tag.as_slice());
                                pos = q + 1;
                            }
                        },
                    }
                }
            },
        }
    }
}

/// The first `<v>…</v>` element of a cell body, removed.
pub open spec fn spec_remove_v(inner: Seq<u8>) -> Seq<u8> {
    match spec_find(inner, lit("<v>"), 0) {
        Option::None => inner,
        Option::Some(s) => {
            match spec_find(inner, lit("</v>"), s + 3) {
                Option::None => inner,
                Option::Some(e) => inner.subrange(0, s) + inner.subrange(
                    e + 4,
                    inner.len() as int,
                ),
            }
        },
    }
}

/// The first `<v>…</v>` element of a cell body, replaced by `repl`; the
/// body is unchanged when it has no complete `<v>` element.
pub open spec fn spec_replace_v(inner: Seq<u8>, repl: Seq<u8>) -> Seq<u8> {
    match spec_find(inner, lit("<v>"), 0) {
        Option::None => inner,
        Option::Some(s) => {
            match spec_find(inner, lit("</v>"), s + 3) {
                Option::None => inner,
                Option::Some(e) => inner.subrange(0, s) + repl + inner.subrange(
                    e + 4,
                    inner.len() as int,
                ),
            }
        },
    }
}

/// The shared-string index held in the cell body's `<v>` element, when it
/// parses as a decimal number.
pub open spec fn spec_v_index(inner: Seq<u8>) -> Option<int> {
    match spec_find(inner, lit("<v>"), 0) {
        Option::None => Option::None,
        Option::Some(s) => {
            match spec_find(inner, lit("</v>"), s + 3) {
                Option::None => Option::None,
                Option::Some(e) => {
                    let digits = inner.subrange(s + 3, e);
                    if crate::scan::is_dec_digits(digits) && crate::scan::spec_dec_value(digits)
                        <= u32::MAX {
                        Option::Some(crate::scan::spec_dec_value(digits))
                    } else {
                        Option::None
                    }
                },
            }
        },
    }
}

/// One cell rewritten: a `t="s"` cell becomes `t="inlineStr"` and its `<v>`
/// index is replaced by the indexed shared-string fragment (normalized by
/// `spec_si_rewrite`); with a formula present, or an unusable index, the
/// `<v>` is only dropped. A cell without `t="s"` passes through
/// untouched.
pub open spec fn spec_inline_cell(tag: Seq<u8>, inner: Seq<u8>, shared: Seq<Seq<u8>>) -> Seq<u8> {
    let has_ts = spec_find(tag, lit(" t=\"s\""), 0) is Some;
    let has_f = spec_find(inner, lit("<f"), 0) is Some;
    if has_ts {
        let new_tag = spec_replace_all(tag, lit(" t=\"s\""), lit(" t=\"inlineStr\""));
        if has_f {
            new_tag + spec_remove_v(inner) + lit("</c>")
        } else {
            match spec_v_index(inner) {
                Option::Some(k) => {
                    if 0 <= k < shared.len() {
                        new_tag + spec_replace_v(inner, spec_si_rewrite(shared[k], 0, false))
                            + lit("</c>")
                    } else {
                        new_tag + spec_remove_v(inner) + lit("</c>")
                    }
                },
                Option::None => new_tag + spec_remove_v(inner) + lit("</c>"),
            }
        }
    } else {
        tag + inner + lit("</c>")
    }
}

/// The sheet with every `<c>` element rewritten by `spec_inline_cell`.
pub open spec fn spec_inline_pass(xml: Seq<u8>, pos: int, shared: Seq<Seq<u8>>) -> Seq<u8>
    decreases xml.len() - pos,
    via spec_inline_pass_decreases
{
    if pos < 0 || pos >= xml.len() {
        Seq::empty()
    } else {
        match spec_find(xml, lit("<"), pos) {
            Option::None => xml.subrange(pos, xml.len() as int),
            Option::Some(p) => {
                if p > pos {
                    xml.subrange(pos, p) + spec_inline_pass(xml, p, shared)
                } else {
                    match spec_find(xml, lit(">"), pos) {
                        Option::None => xml.subrange(pos, xml.len() as int),
                        Option::Some(q) => {
                            let tag = xml.subrange(pos, q + 1);
                            if spec_is_start_tag(tag, lit("c")) {
                                match spec_find(xml, lit("</c>"), q + 1) {
                                    Option::None => tag + spec_inline_pass(xml, q + 1, shared),
                                    Option::Some(ce) => spec_inline_cell(
                                        tag,
                                        xml.subrange(q + 1, ce),
                                        shared,
                                    ) + spec_inline_pass(xml, ce + 4, shared),
                                }
                            } else {
                                tag + spec_inline_pass(xml, q + 1, shared)
                            }
                        },
                    }
                }
            },
        }
    }
}

#[via_fn]
proof fn spec_inline_pass_decreases(xml: Seq<u8>, pos: int, shared: Seq<Seq<u8>>) {
    strlit_facts();
    if 0 <= pos < xml.len() {
        lemma_spec_find(xml, lit("<"), pos);
        match spec_find(xml, lit("<"), pos) {
            Option::Some(p) => {
                if p == pos {
                    lemma_spec_find(xml, lit(">"), pos);
                    match spec_find(xml, lit(">"), pos) {
                        Option::Some(q) => lemma_spec_find(xml, lit("</c>"), q + 1),
                        Option::None => (),
                    }
                }
            },
            Option::None => (),
        }
    }
}

/// Rewrites one cell into `out`.
#[verifier::rlimit(60)]
fn inline_cell(tag: &[u8], inner: &[u8], shared: &[Vec<u8>], out: &mut Vec<u8>)
    ensures
        final(out)@ == old(out)@ + spec_inline_cell(tag@, inner@, vecs_view(shared@)),
{
    let ts = lit_bytes(" t=\"s\"");
    let t_inline = lit_bytes(" t=\"inlineStr\"");
    let f_open = lit_bytes("<f");
    let v_open = lit_bytes("<v>");
    let v_close = lit_bytes("</v>");
    let c_close = lit_bytes("</c>");
    let il = inner.len();
    proof {
        strlit_facts();
    }
    let has_ts = crate::scan::contains(tag, ts.as_slice());
    let has_f = crate::scan::contains(inner, f_open.as_slice());
    if has_ts {
        let new_tag = replace_all(tag, ts.as_slice(), t_inline.as_slice());
        append_bytes(out, new_tag.as_slice());
        if has_f {
            append_v_removed(inner, out);
        } else {
            proof {
                lemma_spec_find(inner@, lit("<v>"), 0);
            }
            let mut replaced = false;
            match find(inner, v_open.as_slice(), 0) {
                Option::None => {},
                Option::Some(s) => {
                    proof {
                        lemma_spec_find(inner@, lit("</v>"), s as int + 3);
                    }
                    match find(inner, v_close.as_slice(), s + 3) {
                        Option::None => {},
                        Option::Some(e) => {
                            let digits = copy_range(inner, s + 3, e);
                            match parse_u32(digits.as_slice()) {
                                Option::None => {},
                                Option::Some(k32) => {
                                    let k = k32 as usize;
                                    if k < shared.len() {
                                        let frag = replace_shared_string_si_with_handlebars(
                                            shared[k].as_slice(),
                                        );
                                        append_bytes(
                                            out,
                                            vstd::slice::slice_subrange(inner, 0, s),
                                        );
                                        append_bytes(out, frag.as_slice());
                                        append_bytes(
                                            out,
                                            vstd::slice::slice_subrange(inner, e + 4, il),
                                        );
                                        replaced = true;
                                        proof {
                                            assert(vecs_view(shared@)[k as int] == shared@[
                                                k as int]@);
                                        }
                                    }
                                },
                            }
                        },
                    }
                },
            }
            if !replaced {
                append_v_removed(inner, out);
            }
        }
    } else {
        append_bytes(out, tag);
        append_bytes(out, inner);
    }
    append_bytes(out, c_close.as_slice());
    proof {
        assert(out@ =~= old(out)@ + spec_inline_cell(tag@, inner@, vecs_view(shared@)));
    }
}

/// Appends `inner` with its first `<v>` element removed.
#[verifier::rlimit(60)]
fn append_v_removed(inner: &[u8], out: &mut Vec<u8>)
    ensures
        final(out)@ == old(out)@ + spec_remove_v(inner@),
{
    let v_open = lit_bytes("<v>");
    let v_close = lit_bytes("</v>");
    let il = inner.len();
    proof {
        strlit_facts();
        lemma_spec_find(inner@, lit("<v>"), 0);
    }
    match find(inner, v_open.as_slice(), 0) {
        Option::None => {
            append_bytes(out, inner);
        },
        Option::Some(s) => {
            proof {
                lemma_spec_find(inner@, lit("</v>"), s as int + 3);
            }
            match find(inner, v_close.as_slice(), s + 3) {
                Option::None => {
                    append_bytes(out, inner);
                },
                Option::Some(e) => {
                    proof {
                        assert(spec_find(inner@, lit("<v>"), 0) == Option::Some(s as int));
                        assert(spec_find(inner@, lit("</v>"), s as int + 3) == Option::Some(
                            e as int));
                        assert(spec_remove_v(inner@) =~= inner@.subrange(0, s as int)
                            + inner@.subrange(e as int + 4, il as int));
                    }
                    append_bytes(out, vstd::slice::slice_subrange(inner, 0, s));
                    append_bytes(out, vstd::slice::slice_subrange(inner, e + 4, il));
                    proof {
                        assert(out@ =~= old(out)@ + spec_remove_v(inner@));
                    }
                },
            }
        },
    }
}

/// Rewrites every shared-string cell `<c t="s"><v>K</v></c>` of a sheet
/// into an inline-string cell holding the K-th fragment (a shared-string
/// formula cell only loses its cached `<v>`); other cells pass through
/// untouched.
pub fn replace_shared_strings_in_sheet(sheet_xml: &[u8], shared_strings: &[Vec<u8>]) -> (r: Vec<
    u8,
>)
    ensures
        r@ == spec_inline_pass(sheet_xml@, 0, vecs_view(shared_strings@)),
{
    let lt = lit_bytes("<");
    let gt = lit_bytes(">");
    let c_name = lit_bytes("c");
    let c_close = lit_bytes("</c>");
    let xl = sheet_xml.len();
    proof {
        strlit_facts();
    }
    let mut out: Vec<u8> = Vec::new();
    let mut pos: usize = 0;
    loop
        invariant
            lt@ == lit("<"),
            gt@ == lit(">"),
            c_name@ == lit("c"),
            c_close@ == lit("</c>"),
            xl == sheet_xml@.len(),
            0 <= pos <= xl,
            spec_inline_pass(sheet_xml@, 0, vecs_view(shared_strings@)) == out@
                + spec_inline_pass(sheet_xml@, pos as int, vecs_view(shared_strings@)),
        decreases xl - pos,
    {
        proof {
            strlit_facts();
        }
        if pos >= xl {
            proof {
                assert(out@ + spec_inline_pass(sheet_xml@, pos as int, vecs_view(shared_strings@))
                    =~= out@);
            }
            return out;
        }
        proof {
            lemma_spec_find(sheet_xml@, lit("<"), pos as int);
        }
        match find(sheet_xml, lt.as_slice(), pos) {
            Option::None => {
                append_bytes(&mut out, vstd::slice::slice_subrange(sheet_xml, pos, xl));
                return out;
            },
            Option::Some(p) => {
                if p > pos {
                    append_bytes(&mut out, vstd::slice::slice_subrange(sheet_xml, pos, p));
                    pos = p;
                } else {
                    proof {
                        lemma_spec_find(sheet_xml@, lit(">"), pos as int);
                    }
                    match find(sheet_xml, gt.as_slice(), pos) {
                        Option::None => {
                            append_bytes(
                                &mut out,
                                vstd::slice::slice_subrange(sheet_xml, pos, xl),
                            );
                            return out;
                        },
                        Option::Some(q) => {
                            let tag = copy_range(sheet_xml, pos, q + 1);
                            if is_start_tag(tag.as_slice(), c_name.as_slice()) {
                                proof {
                                    lemma_spec_find(sheet_xml@, lit("</c>"), q as int + 1);
                                }
                                match find(sheet_xml, c_close.as_slice(), q + 1) {
                                    Option::None => {
                                        append_bytes(&mut out, tag.as_slice());
                                        pos = q + 1;
                                    },
                                    Option::Some(ce) => {
                                        let inner = copy_range(sheet_xml, q + 1, ce);
                                        inline_cell(
                                            tag.as_slice(),
                                            inner.as_slice(),
                                            shared_strings,
                                            &mut out,
                                        );
                                        pos = ce + 4;
                                    },
                                }
                            } else {
                                append_bytes(&mut out, tag.as_slice());
                                pos = q + 1;
                            }
                        },
                    }
                }
            },
        }
    }
}

} // verus!
