//! The post-processing pass over a rendered sheet.
//!
//! Rows tagged with the remove sentinel are dropped; cells tagged with the
//! number or formula sentinel are rebuilt into `<v>` / `<f>` forms; the
//! collected merge ranges are re-emitted after `</sheetData>` (deduplicated
//! and sorted), and the collected hyperlinks are re-emitted immediately
//! before `<pageMargins>`, or before `</worksheet>` in a sheet without
//! page margins.

use vstd::prelude::*;

verus! {

use crate::scan::{
    append_bytes,
    contains,
    copy_range,
    find,
    format_u32,
    is_end_tag,
    is_self_closing_tag,
    is_start_tag,
    lemma_spec_find,
    lit,
    lit_bytes,
    replace_all,
    spec_find,
    spec_is_end_tag,
    spec_is_self_closing_tag,
    spec_is_start_tag,
    spec_replace_all,
    spec_u32_numeral,
    vecs_view,
};
use crate::merges::lemma_ascii_lit_len;

/// Lengths of the fixed patterns used in this module.
pub proof fn strlit_facts()
    ensures
        lit("<").len() == 1,
        lit(">").len() == 1,
        lit("row").len() == 3,
        lit("</row>").len() == 6,
        lit("c").len() == 1,
        lit("</c>").len() == 4,
        lit("<t>").len() == 3,
        lit("</t>").len() == 4,
        lit("<f>").len() == 3,
        lit("</f>").len() == 4,
        lit("<is").len() == 3,
        lit("</is>").len() == 5,
        lit(" t=\"").len() == 4,
        lit("\"").len() == 1,
        lit("sheetData").len() == 9,
        lit("pageMargins").len() == 11,
        lit("worksheet").len() == 9,
{
    reveal_strlit("<");
    reveal_strlit(">");
    reveal_strlit("row");
    reveal_strlit("</row>");
    reveal_strlit("c");
    reveal_strlit("</c>");
    reveal_strlit("<t>");
    reveal_strlit("</t>");
    reveal_strlit("<f>");
    reveal_strlit("</f>");
    reveal_strlit("<is");
    reveal_strlit("</is>");
    reveal_strlit(" t=\"");
    reveal_strlit("\"");
    reveal_strlit("sheetData");
    reveal_strlit("pageMargins");
    reveal_strlit("worksheet");
    lemma_ascii_lit_len("<", 1);
    lemma_ascii_lit_len(">", 1);
    lemma_ascii_lit_len("row", 3);
    lemma_ascii_lit_len("</row>", 6);
    lemma_ascii_lit_len("c", 1);
    lemma_ascii_lit_len("</c>", 4);
    lemma_ascii_lit_len("<t>", 3);
    lemma_ascii_lit_len("</t>", 4);
    lemma_ascii_lit_len("<f>", 3);
    lemma_ascii_lit_len("</f>", 4);
    lemma_ascii_lit_len("<is", 3);
    lemma_ascii_lit_len("</is>", 5);
    lemma_ascii_lit_len(" t=\"", 4);
    lemma_ascii_lit_len("\"", 1);
    lemma_ascii_lit_len("sheetData", 9);
    lemma_ascii_lit_len("pageMargins", 11);
    lemma_ascii_lit_len("worksheet", 9);
}

/// Lexicographic order on byte strings.
pub open spec fn spec_lex_le(a: Seq<u8>, b: Seq<u8>) -> bool
    decreases a.len(),
{
    if a.len() == 0 {
        true
    } else if b.len() == 0 {
        false
    } else if a[0] < b[0] {
        true
    } else if a[0] > b[0] {
        false
    } else {
        spec_lex_le(a.drop_first(), b.drop_first())
    }
}

pub proof fn lemma_lex_le_total(a: Seq<u8>, b: Seq<u8>)
    ensures
        spec_lex_le(a, b) || spec_lex_le(b, a),
        spec_lex_le(a, b) && spec_lex_le(b, a) ==> a == b,
    decreases a.len(),
{
    if a.len() > 0 && b.len() > 0 && a[0] == b[0] {
        lemma_lex_le_total(a.drop_first(), b.drop_first());
        if spec_lex_le(a, b) && spec_lex_le(b, a) {
            assert(a.drop_first() == b.drop_first());
            assert(a =~= b) by {
                assert(forall|i: int|
                    1 <= i < a.len() ==> a[i] == a.drop_first()[i - 1]
                        && b[i] == b.drop_first()[i - 1]);
            }
        }
    }
}

pub proof fn lemma_lex_le_trans(a: Seq<u8>, b: Seq<u8>, c: Seq<u8>)
    requires
        spec_lex_le(a, b),
        spec_lex_le(b, c),
    ensures
        spec_lex_le(a, c),
    decreases a.len(),
{
    if a.len() > 0 && b.len() > 0 && c.len() > 0 && a[0] == b[0] && b[0] == c[0] {
        lemma_lex_le_trans(a.drop_first(), b.drop_first(), c.drop_first());
    }
}

/// Whether the byte strings are strictly increasing.
pub open spec fn spec_strictly_sorted(v: Seq<Seq<u8>>) -> bool {
    forall|i: int, j: int|
        0 <= i < j < v.len() ==> spec_lex_le(#[trigger] v[i], #[trigger] v[j]) && v[i] != v[j]
}

/// Lexicographic comparison of two byte strings.
pub fn lex_le(a: &[u8], b: &[u8]) -> (r: bool)
    ensures
        r == spec_lex_le(a@, b@),
{
    let al = a.len();
    let bl = b.len();
    let mut i: usize = 0;
    proof {
        assert(a@.skip(0) =~= a@);
        assert(b@.skip(0) =~= b@);
    }
    loop
        invariant
            al == a@.len(),
            bl == b@.len(),
            0 <= i <= al,
            i <= bl,
            spec_lex_le(a@, b@) == spec_lex_le(a@.skip(i as int), b@.skip(i as int)),
        decreases al - i,
    {
        if i == al {
            proof {
                assert(a@.skip(i as int).len() == 0);
            }
            return true;
        }
        if i == bl {
            proof {
                assert(b@.skip(i as int).len() == 0);
                assert(a@.skip(i as int).len() > 0);
            }
            return false;
        }
        proof {
            assert(a@.skip(i as int)[0] == a@[i as int]);
            assert(b@.skip(i as int)[0] == b@[i as int]);
            assert(a@.skip(i as int).drop_first() =~= a@.skip(i as int + 1));
            assert(b@.skip(i as int).drop_first() =~= b@.skip(i as int + 1));
        }
        if a[i] < b[i] {
            return true;
        }
        if a[i] > b[i] {
            return false;
        }
        i = i + 1;
    }
}

/// The position at which `item` belongs in the strictly sorted list
/// `out`, or the position of an equal entry.
fn find_insert_pos(out: &Vec<Vec<u8>>, item: &Vec<u8>) -> (r: (usize, bool))
    requires
        spec_strictly_sorted(vecs_view(out@)),
    ensures
        r.1 ==> r.0 < out@.len() && vecs_view(out@)[r.0 as int] == item@,
        !r.1 ==> {
            &&& 0 <= r.0 <= out@.len()
            &&& forall|i: int|
                0 <= i < r.0 ==> spec_lex_le(#[trigger] vecs_view(out@)[i], item@)
                    && vecs_view(out@)[i] != item@
            &&& forall|i: int|
                r.0 <= i < out@.len() ==> spec_lex_le(item@, #[trigger] vecs_view(out@)[i])
                    && vecs_view(out@)[i] != item@
        },
{
    let m = out.len();
    let mut j: usize = 0;
    while j < m
        invariant
            m == out@.len(),
            spec_strictly_sorted(vecs_view(out@)),
            0 <= j <= m,
            forall|i: int| 0 <= i < j ==> spec_lex_le(#[trigger] vecs_view(out@)[i], item@)
                && vecs_view(out@)[i] != item@,
        decreases m - j,
    {
        let le1 = lex_le(out[j].as_slice(), item.as_slice());
        let le2 = lex_le(item.as_slice(), out[j].as_slice());
        proof {
            lemma_lex_le_total(out@[j as int]@, item@);
            assert(vecs_view(out@)[j as int] == out@[j as int]@);
        }
        if le1 && le2 {
            return (j, true);
        } else if le1 {
            j = j + 1;
        } else {
            proof {
                assert(spec_lex_le(item@, vecs_view(out@)[j as int]));
                assert forall|i: int| j <= i < out@.len() implies spec_lex_le(
                    item@,
                    #[trigger] vecs_view(out@)[i],
                ) && vecs_view(out@)[i] != item@ by {
                    if i > j {
                        lemma_lex_le_trans(item@, vecs_view(out@)[j as int], vecs_view(out@)[i]);
                        if vecs_view(out@)[i] == item@ {
                            lemma_lex_le_total(vecs_view(out@)[j as int], item@);
                        }
                    } else {
                        if vecs_view(out@)[i] == item@ {
                            lemma_lex_le_total(vecs_view(out@)[j as int], item@);
                        }
                    }
                }
            }
            return (j, false);
        }
    }
    (m, false)
}

/// Sorts the merge ranges lexicographically and removes duplicates. The
/// result is strictly sorted and holds exactly the byte strings of the
/// input.
pub fn sort_dedup(refs: &[Vec<u8>]) -> (r: Vec<Vec<u8>>)
    ensures
        spec_strictly_sorted(vecs_view(r@)),
        forall|x: Seq<u8>| vecs_view(r@).contains(x) <==> vecs_view(refs@).contains(x),
{
    let n = refs.len();
    let mut out: Vec<Vec<u8>> = Vec::new();
    let mut k: usize = 0;
    while k < n
        invariant
            n == refs@.len(),
            0 <= k <= n,
            spec_strictly_sorted(vecs_view(out@)),
            forall|x: Seq<u8>|
                vecs_view(out@).contains(x) <==> vecs_view(refs@.take(k as int)).contains(x),
        decreases n - k,
    {
        let ghost out0 = vecs_view(out@);
        let item = &refs[k];
        let (insert_at, duplicate) = find_insert_pos(&out, item);
        if duplicate {
            proof {
                assert(vecs_view(out@).contains(item@)) by {
                    assert(vecs_view(out@)[insert_at as int] == item@);
                }
                assert(refs@.take(k as int + 1).drop_last() =~= refs@.take(k as int));
                assert(vecs_view(refs@.take(k as int + 1)) =~= vecs_view(refs@.take(k as int)).push(
                    item@,
                ));
                assert forall|x: Seq<u8>| vecs_view(out@).contains(x) implies vecs_view(
                    refs@.take(k as int + 1),
                ).contains(x) by {
                    if x == item@ {
                        assert(vecs_view(refs@.take(k as int + 1))[k as int] == item@);
                    } else {
                        let u = choose|u: int|
                            0 <= u < vecs_view(refs@.take(k as int)).len() && #[trigger] vecs_view(
                                refs@.take(k as int),
                            )[u] == x;
                        assert(vecs_view(refs@.take(k as int + 1))[u] == x);
                    }
                }
                assert forall|x: Seq<u8>|
                    vecs_view(refs@.take(k as int + 1)).contains(x) implies vecs_view(
                    out@,
                ).contains(x) by {
                    let w = choose|w: int|
                        0 <= w < vecs_view(refs@.take(k as int + 1)).len() && #[trigger] vecs_view(
                            refs@.take(k as int + 1),
                        )[w] == x;
                    if w == k as int {
                        assert(x == item@);
                    } else {
                        assert(vecs_view(refs@.take(k as int))[w] == x);
                        assert(vecs_view(refs@.take(k as int)).contains(x));
                    }
                }
            }
        } else {
            let pos = insert_at;
            out.insert(pos, item.clone());
            proof {
                assert(out@[pos as int]@ == item@);
                assert(vecs_view(out@) =~= out0.insert(pos as int, item@));
                assert(spec_strictly_sorted(vecs_view(out@))) by {
                    let v = vecs_view(out@);
                    assert(forall|i: int| 0 <= i < pos ==> v[i] == out0[i]);
                    assert(forall|i: int| pos < i < v.len() ==> v[i] == out0[i - 1]);
                    assert(v[pos as int] == item@);
                    assert(forall|i: int, j: int|
                        0 <= i < j < v.len() ==> spec_lex_le(#[trigger] v[i], #[trigger] v[j])
                            && v[i] != v[j]) by {
                        assert(forall|i: int|
                            0 <= i < pos ==> spec_lex_le(#[trigger] out0[i], item@) && out0[i]
                                != item@);
                        assert(forall|i: int|
                            pos <= i < out0.len() ==> spec_lex_le(item@, #[trigger] out0[i])
                                && out0[i] != item@) by {
                            if pos < out0.len() {
                                assert(spec_lex_le(item@, out0[pos as int]) && out0[pos as int]
                                    != item@) by {
                                    lemma_lex_le_total(out0[pos as int], item@);
                                }
                                assert(forall|i: int|
                                    pos < i < out0.len() ==> spec_lex_le(
                                        item@,
                                        #[trigger] out0[i],
                                    ) && out0[i] != item@) by {
                                    assert(forall|i: int|
                                        pos < i < out0.len() ==> spec_lex_le(
                                            out0[pos as int],
                                            #[trigger] out0[i],
                                        ) && out0[pos as int] != out0[i]);
                                    assert forall|i: int| pos < i < out0.len() implies
                                        spec_lex_le(item@, #[trigger] out0[i]) && out0[i]
                                        != item@ by {
                                        lemma_lex_le_trans(item@, out0[pos as int], out0[i]);
                                        if out0[i] == item@ {
                                            lemma_lex_le_total(out0[pos as int], item@);
                                        }
                                    }
                                }
                            }
                        }
                    }
                }
                assert(forall|x: Seq<u8>|
                    vecs_view(out@).contains(x) <==> vecs_view(refs@.take(k as int + 1)).contains(
                        x,
                    )) by {
                    assert(refs@.take(k as int + 1).drop_last() =~= refs@.take(k as int));
                    assert(vecs_view(refs@.take(k as int + 1)) =~= vecs_view(
                        refs@.take(k as int),
                    ).push(item@));
                    assert forall|x: Seq<u8>| vecs_view(out@).contains(x) implies vecs_view(
                        refs@.take(k as int + 1),
                    ).contains(x) by {
                        let w = choose|w: int|
                            0 <= w < vecs_view(out@).len() && vecs_view(out@)[w] == x;
                        if w == pos {
                            assert(vecs_view(refs@.take(k as int + 1))[k as int] == item@);
                        } else {
                            let w0: int = if w < pos {
                                w
                            } else {
                                w - 1
                            };
                            assert(out0[w0] == x);
                            assert(out0.contains(x));
                            let u = choose|u: int|
                                0 <= u < vecs_view(refs@.take(k as int)).len() && vecs_view(
                                    refs@.take(k as int),
                                )[u] == x;
                            assert(vecs_view(refs@.take(k as int + 1))[u] == x);
                        }
                    }
                    assert forall|x: Seq<u8>|
                        vecs_view(refs@.take(k as int + 1)).contains(x) implies vecs_view(
                        out@,
                    ).contains(x) by {
                        let w = choose|w: int|
                            0 <= w < vecs_view(refs@.take(k as int + 1)).len() && #[trigger] vecs_view(
                                refs@.take(k as int + 1),
                            )[w] == x;
                        if w == k as int {
                            assert(vecs_view(out@)[pos as int] == item@);
                        } else {
                            assert(vecs_view(refs@.take(k as int))[w] == x);
                            assert(vecs_view(refs@.take(k as int)).contains(x));
                            assert(out0.contains(x));
                            let u = choose|u: int| 0 <= u < out0.len() && out0[u] == x;
                            let u2: int = if u < pos {
                                u
                            } else {
                                u + 1
                            };
                            assert(vecs_view(out@)[u2] == x);
                        }
                    }
                }
            }
        }
        k = k + 1;
    }
    proof {
        assert(refs@.take(n as int) =~= refs@);
    }
    out
}


/// The concatenated text of the `<t>…</t>` spans of `content` at or after
/// `pos`.
pub open spec fn spec_t_texts(content: Seq<u8>, pos: int) -> Seq<u8>
    decreases content.len() - pos,
    via spec_t_texts_decreases
{
    match spec_find(content, lit("<t>"), pos) {
        Option::None => Seq::empty(),
        Option::Some(s) => {
            match spec_find(content, lit("</t>"), s + 3) {
                Option::None => Seq::empty(),
                Option::Some(e) => content.subrange(s + 3, e) + spec_t_texts(content, e + 4),
            }
        },
    }
}

#[via_fn]
proof fn spec_t_texts_decreases(content: Seq<u8>, pos: int) {
    strlit_facts();
    if pos < 0 {
        crate::merges::lemma_spec_find_neg(content, lit("<t>"), pos);
    } else {
        lemma_spec_find(content, lit("<t>"), pos);
        match spec_find(content, lit("<t>"), pos) {
            Option::Some(s) => lemma_spec_find(content, lit("</t>"), s + 3),
            Option::None => (),
        }
    }
}

/// Concatenates the `<t>…</t>` texts of `content` and removes every
/// occurrence of the sentinel `key`.
pub fn extract_text_simple(content: &[u8], to_number_key: &[u8]) -> (r: Vec<u8>)
    requires
        to_number_key@.len() >= 1,
    ensures
        r@ == spec_replace_all(spec_t_texts(content@, 0), to_number_key@, Seq::empty()),
{
    let t_open = lit_bytes("<t>");
    let t_close = lit_bytes("</t>");
    let cl = content.len();
    proof {
        strlit_facts();
    }
    let mut texts: Vec<u8> = Vec::new();
    let mut pos: usize = 0;
    loop
        invariant
            to_number_key@.len() >= 1,
            t_open@ == lit("<t>"),
            t_close@ == lit("</t>"),
            cl == content@.len(),
            0 <= pos <= cl,
            spec_t_texts(content@, 0) == texts@ + spec_t_texts(content@, pos as int),
        decreases cl - pos,
    {
        proof {
            strlit_facts();
            lemma_spec_find(content@, lit("<t>"), pos as int);
        }
        match find(content, t_open.as_slice(), pos) {
            Option::None => {
                proof {
                    assert(texts@ + spec_t_texts(content@, pos as int) =~= texts@);
                }
                let empty: Vec<u8> = Vec::new();
                return replace_all(texts.as_slice(), to_number_key, empty.as_slice());
            },
            Option::Some(st) => {
                proof {
                    lemma_spec_find(content@, lit("</t>"), st as int + 3);
                }
                match find(content, t_close.as_slice(), st + 3) {
                    Option::None => {
                        proof {
                            assert(texts@ + spec_t_texts(content@, pos as int) =~= texts@);
                        }
                        let empty: Vec<u8> = Vec::new();
                        return replace_all(texts.as_slice(), to_number_key, empty.as_slice());
                    },
                    Option::Some(e) => {
                        append_bytes(
                            &mut texts,
                            vstd::slice::slice_subrange(content, st + 3, e),
                        );
                        pos = e + 4;
                        proof {
                            assert(spec_t_texts(content@, 0) == texts@ + spec_t_texts(
                                content@,
                                pos as int,
                            ));
                        }
                    },
                }
            },
        }
    }
}

/// The text of a number cell: the `<t>` texts of its `<is>…</is>` block
/// when one is complete, else of the whole cell body, with the sentinel
/// removed.
pub open spec fn spec_number_text(inner: Seq<u8>, key: Seq<u8>) -> Seq<u8> {
    let src = match spec_find(inner, lit("<is"), 0) {
        Option::Some(s) => match spec_find(inner, lit("</is>"), s) {
            Option::Some(e) => inner.subrange(s, e + 5),
            Option::None => inner,
        },
        Option::None => inner,
    };
    spec_replace_all(spec_t_texts(src, 0), key, Seq::empty())
}

/// Extracts the number text of a cell body: from its `<is>` block when
/// present, else from the body itself.
pub fn extract_text_from_is(cell_content: &[u8], to_number_key: &[u8]) -> (r: Vec<u8>)
    requires
        to_number_key@.len() >= 1,
    ensures
        r@ == spec_number_text(cell_content@, to_number_key@),
{
    let is_open = lit_bytes("<is");
    let is_close = lit_bytes("</is>");
    let cl = cell_content.len();
    proof {
        strlit_facts();
        lemma_spec_find(cell_content@, lit("<is"), 0);
    }
    match find(cell_content, is_open.as_slice(), 0) {
        Option::Some(s) => {
            proof {
                lemma_spec_find(cell_content@, lit("</is>"), s as int);
            }
            match find(cell_content, is_close.as_slice(), s) {
                Option::Some(e) => {
                    let span = copy_range(cell_content, s, e + 5);
                    extract_text_simple(span.as_slice(), to_number_key)
                },
                Option::None => extract_text_simple(cell_content, to_number_key),
            }
        },
        Option::None => extract_text_simple(cell_content, to_number_key),
    }
}

/// The formula text of a cell body: the `<t>` texts of a complete `<is>`
/// block; else the body of a complete `<f>…</f>` element; else the `<t>`
/// texts of the whole body. The sentinel is removed.
pub open spec fn spec_formula_text(inner: Seq<u8>, key: Seq<u8>) -> Seq<u8> {
    let is_span = match spec_find(inner, lit("<is"), 0) {
        Option::Some(s) => match spec_find(inner, lit("</is>"), s) {
            Option::Some(e) => Option::Some(inner.subrange(s, e + 5)),
            Option::None => Option::None,
        },
        Option::None => Option::None,
    };
    match is_span {
        Option::Some(span) => spec_replace_all(spec_t_texts(span, 0), key, Seq::empty()),
        Option::None => {
            match spec_find(inner, lit("<f>"), 0) {
                Option::Some(f) => {
                    match spec_find(inner, lit("</f>"), f + 3) {
                        Option::Some(fe) => spec_replace_all(
                            inner.subrange(f + 3, fe),
                            key,
                            Seq::empty(),
                        ),
                        Option::None => spec_replace_all(
                            spec_t_texts(inner, 0),
                            key,
                            Seq::empty(),
                        ),
                    }
                },
                Option::None => spec_replace_all(spec_t_texts(inner, 0), key, Seq::empty()),
            }
        },
    }
}

/// Extracts the formula text of a cell body from its `<f>…</f>` element
/// when one is complete, else from its `<t>` texts.
pub fn extract_formula_simple(content: &[u8], to_formula_key: &[u8]) -> (r: Vec<u8>)
    requires
        to_formula_key@.len() >= 1,
    ensures
        r@ == (match spec_find(content@, lit("<f>"), 0) {
            Option::Some(f) => {
                match spec_find(content@, lit("</f>"), f + 3) {
                    Option::Some(fe) => spec_replace_all(
                        content@.subrange(f + 3, fe),
                        to_formula_key@,
                        Seq::empty(),
                    ),
                    Option::None => spec_replace_all(
                        spec_t_texts(content@, 0),
                        to_formula_key@,
                        Seq::empty(),
                    ),
                }
            },
            Option::None => spec_replace_all(
                spec_t_texts(content@, 0),
                to_formula_key@,
                Seq::empty(),
            ),
        }),
{
    let f_open = lit_bytes("<f>");
    let f_close = lit_bytes("</f>");
    let cl = content.len();
    proof {
        strlit_facts();
        lemma_spec_find(content@, lit("<f>"), 0);
    }
    match find(content, f_open.as_slice(), 0) {
        Option::Some(f) => {
            proof {
                lemma_spec_find(content@, lit("</f>"), f as int + 3);
            }
            match find(content, f_close.as_slice(), f + 3) {
                Option::Some(fe) => {
                    let body = copy_range(content, f + 3, fe);
                    let empty: Vec<u8> = Vec::new();
                    replace_all(body.as_slice(), to_formula_key, empty.as_slice())
                },
                Option::None => extract_text_simple(content, to_formula_key),
            }
        },
        Option::None => extract_text_simple(content, to_formula_key),
    }
}

/// Extracts the formula text of a cell body: from its `<is>` block when
/// complete, else from its `<f>` element, else from its `<t>` texts.
pub fn extract_formula_from_cell(cell_content: &[u8], to_formula_key: &[u8]) -> (r: Vec<u8>)
    requires
        to_formula_key@.len() >= 1,
    ensures
        r@ == spec_formula_text(cell_content@, to_formula_key@),
{
    let is_open = lit_bytes("<is");
    let is_close = lit_bytes("</is>");
    let cl = cell_content.len();
    proof {
        strlit_facts();
        lemma_spec_find(cell_content@, lit("<is"), 0);
    }
    match find(cell_content, is_open.as_slice(), 0) {
        Option::Some(s) => {
            proof {
                lemma_spec_find(cell_content@, lit("</is>"), s as int);
            }
            match find(cell_content, is_close.as_slice(), s) {
                Option::Some(e) => {
                    proof {
                        assert(e + 5 <= cl);
                    }
                    let span = copy_range(cell_content, s, e + 5);
                    extract_text_simple(span.as_slice(), to_formula_key)
                },
                Option::None => extract_formula_simple(cell_content, to_formula_key),
            }
        },
        Option::None => extract_formula_simple(cell_content, to_formula_key),
    }
}

/// The cell's open tag with its ` t="…"` attribute removed.
pub open spec fn spec_strip_t_attr(tag: Seq<u8>) -> Seq<u8> {
    match spec_find(tag, lit(" t=\""), 0) {
        Option::None => tag,
        Option::Some(a) => {
            match spec_find(tag, lit("\""), a + 4) {
                Option::None => tag,
                Option::Some(q) => tag.subrange(0, a) + tag.subrange(q + 1, tag.len() as int),
            }
        },
    }
}

fn strip_t_attr(tag: &[u8]) -> (r: Vec<u8>)
    ensures
        r@ == spec_strip_t_attr(tag@),
{
    let key = lit_bytes(" t=\"");
    let quote = lit_bytes("\"");
    let tl = tag.len();
    proof {
        strlit_facts();
        lemma_spec_find(tag@, lit(" t=\""), 0);
    }
    match find(tag, key.as_slice(), 0) {
        Option::None => {
            let mut out: Vec<u8> = Vec::new();
            append_bytes(&mut out, tag);
            proof {
                assert(out@ =~= tag@);
            }
            out
        },
        Option::Some(a) => {
            proof {
                lemma_spec_find(tag@, lit("\""), a as int + 4);
            }
            match find(tag, quote.as_slice(), a + 4) {
                Option::None => {
                    let mut out: Vec<u8> = Vec::new();
                    append_bytes(&mut out, tag);
                    proof {
                        assert(out@ =~= tag@);
                    }
                    out
                },
                Option::Some(q) => {
                    let mut out: Vec<u8> = Vec::new();
                    append_bytes(&mut out, vstd::slice::slice_subrange(tag, 0, a));
                    append_bytes(&mut out, vstd::slice::slice_subrange(tag, q + 1, tl));
                    out
                },
            }
        },
    }
}

/// One cell of a row during the number pass: a cell whose body holds the
/// sentinel is rebuilt as an untyped cell holding `<v>text</v>`.
pub open spec fn spec_number_cell(tag: Seq<u8>, inner: Seq<u8>, key: Seq<u8>) -> Seq<u8> {
    if spec_find(inner, key, 0) is Some {
        spec_strip_t_attr(tag) + lit("<v>") + spec_number_text(inner, key) + lit("</v>") + lit(
            "</c>",
        )
    } else {
        tag + inner + lit("</c>")
    }
}

/// One cell of a row during the formula pass: a cell whose body holds the
/// sentinel is rebuilt as an untyped cell holding `<f>text</f>`.
pub open spec fn spec_formula_cell(tag: Seq<u8>, inner: Seq<u8>, key: Seq<u8>) -> Seq<u8> {
    if spec_find(inner, key, 0) is Some {
        spec_strip_t_attr(tag) + lit("<f>") + spec_formula_text(inner, key) + lit("</f>") + lit(
            "</c>",
        )
    } else {
        tag + inner + lit("</c>")
    }
}

/// A scan over a row's text that rewrites each `<c>` element: with
/// `as_formula` false by `spec_number_cell`, else by `spec_formula_cell`.
pub open spec fn spec_cell_pass(xml: Seq<u8>, pos: int, key: Seq<u8>, as_formula: bool) -> Seq<u8>
    decreases xml.len() - pos,
    via spec_cell_pass_decreases
{
    if pos < 0 || pos >= xml.len() {
        Seq::empty()
    } else {
        match spec_find(xml, lit("<"), pos) {
            Option::None => xml.subrange(pos, xml.len() as int),
            Option::Some(p) => {
                if p > pos {
                    xml.subrange(pos, p) + spec_cell_pass(xml, p, key, as_formula)
                } else {
                    match spec_find(xml, lit(">"), pos) {
                        Option::None => xml.subrange(pos, xml.len() as int),
                        Option::Some(q) => {
                            let tag = xml.subrange(pos, q + 1);
                            if spec_is_start_tag(tag, lit("c")) {
                                match spec_find(xml, lit("</c>"), q + 1) {
                                    Option::None => tag + spec_cell_pass(
                                        xml,
                                        q + 1,
                                        key,
                                        as_formula,
                                    ),
                                    Option::Some(ce) => {
                                        let inner = xml.subrange(q + 1, ce);
                                        let cell = if as_formula {
                                            spec_formula_cell(tag, inner, key)
                                        } else {
                                            spec_number_cell(tag, inner, key)
                                        };
                                        cell + spec_cell_pass(xml, ce + 4, key, as_formula)
                                    },
                                }
                            } else {
                                tag + spec_cell_pass(xml, q + 1, key, as_formula)
                            }
                        },
                    }
                }
            },
        }
    }
}

#[via_fn]
proof fn spec_cell_pass_decreases(xml: Seq<u8>, pos: int, key: Seq<u8>, as_formula: bool) {
    strlit_facts();
    if 0 <= pos < xml.len() {
        lemma_spec_find(xml, lit("<"), pos);
        match spec_find(xml, lit("<"), pos) {
            Option::Some(p) => {
                if p == pos {
                    lemma_spec_find(xml, lit(">"), pos);
                    match spec_find(xml, lit(">"), pos) {
                        Option::Some(q) => lemma_spec_find(xml, lit("</c>"), q + 1),
                        Option::None => (),
                    }
                }
            },
            Option::None => (),
        }
    }
}

/// Rewrites the sentinel-tagged cells of a row: number cells with
/// `as_formula` false, formula cells otherwise.
#[verifier::rlimit(60)]
fn cell_pass(xml: &[u8], key: &[u8], as_formula: bool) -> (r: Vec<u8>)
    requires
        key@.len() >= 1,
    ensures
        r@ == spec_cell_pass(xml@, 0, key@, as_formula),
{
    let lt = lit_bytes("<");
    let gt = lit_bytes(">");
    let c_name = lit_bytes("c");
    let c_close = lit_bytes("</c>");
    let v_open = lit_bytes("<v>");
    let v_close = lit_bytes("</v>");
    let f_open = lit_bytes("<f>");
    let f_close = lit_bytes("</f>");
    let xl = xml.len();
    proof {
        strlit_facts();
    }
    let mut out: Vec<u8> = Vec::new();
    let mut pos: usize = 0;
    loop
        invariant
            key@.len() >= 1,
            lt@ == lit("<"),
            gt@ == lit(">"),
            c_name@ == lit("c"),
            c_close@ == lit("</c>"),
            v_open@ == lit("<v>"),
            v_close@ == lit("</v>"),
            f_open@ == lit("<f>"),
            f_close@ == lit("</f>"),
            xl == xml@.len(),
            0 <= pos <= xl,
            spec_cell_pass(xml@, 0, key@, as_formula) == out@ + spec_cell_pass(
                xml@,
                pos as int,
                key@,
                as_formula,
            ),
        decreases xl - pos,
    {
        proof {
            strlit_facts();
        }
        if pos >= xl {
            proof {
                assert(out@ + spec_cell_pass(xml@, pos as int, key@, as_formula) =~= out@);
            }
            return out;
        }
        proof {
            lemma_spec_find(xml@, lit("<"), pos as int);
        }
        match find(xml, lt.as_slice(), pos) {
            Option::None => {
                append_bytes(&mut out, vstd::slice::slice_subrange(xml, pos, xl));
                return out;
            },
            Option::Some(p) => {
                if p > pos {
                    append_bytes(&mut out, vstd::slice::slice_subrange(xml, pos, p));
                    pos = p;
                } else {
                    proof {
                        lemma_spec_find(xml@, lit(">"), pos as int);
                    }
                    match find(xml, gt.as_slice(), pos) {
                        Option::None => {
                            append_bytes(&mut out, vstd::slice::slice_subrange(xml, pos, xl));
                            return out;
                        },
                        Option::Some(q) => {
                            let tag = copy_range(xml, pos, q + 1);
                            if is_start_tag(tag.as_slice(), c_name.as_slice()) {
                                proof {
                                    lemma_spec_find(xml@, lit("</c>"), q as int + 1);
                                }
                                match find(xml, c_close.as_slice(), q + 1) {
                                    Option::None => {
                                        append_bytes(&mut out, tag.as_slice());
                                        pos = q + 1;
                                    },
                                    Option::Some(ce) => {
                                        let inner = copy_range(xml, q + 1, ce);
                                        if contains(inner.as_slice(), key) {
                                            let stripped = strip_t_attr(tag.as_slice());
                                            append_bytes(&mut out, stripped.as_slice());
                                            if as_formula {
                                                let text = extract_formula_from_cell(
                                                    inner.as_slice(),
                                                    key,
                                                );
                                                append_bytes(&mut out, f_open.as_slice());
                                                append_bytes(&mut out, text.as_slice());
                                                append_bytes(&mut out, f_close.as_slice());
                                            } else {
                                                let text = extract_text_from_is(
                                                    inner.as_slice(),
                                                    key,
                                                );
                                                append_bytes(&mut out, v_open.as_slice());
                                                append_bytes(&mut out, text.as_slice());
                                                append_bytes(&mut out, v_close.as_slice());
                                            }
                                            append_bytes(&mut out, c_close.as_slice());
                                        } else {
                                            append_bytes(&mut out, tag.as_slice());
                                            append_bytes(&mut out, inner.as_slice());
                                            append_bytes(&mut out, c_close.as_slice());
                                        }
                                        pos = ce + 4;
                                        proof {
                                            assert(spec_cell_pass(xml@, 0, key@, as_formula)
                                                == out@ + spec_cell_pass(
                                                xml@,
                                                pos as int,
                                                key@,
                                                as_formula,
                                            ));
                                        }
                                    },
                                }
                            } else {
                                append_bytes(&mut out, tag.as_slice());
                                pos = q + 1;
                            }
                        },
                    }
                }
            },
        }
    }
}

/// Rewrites the cells of a row that hold the number sentinel into untyped
/// `<v>` cells.
pub fn process_number_cells(row_content: &[u8], to_number_key: &[u8]) -> (r: Vec<u8>)
    requires
        to_number_key@.len() >= 1,
    ensures
        r@ == spec_cell_pass(row_content@, 0, to_number_key@, false),
{
    cell_pass(row_content, to_number_key, false)
}

/// Rewrites the cells of a row that hold the formula sentinel into untyped
/// `<f>` cells.
pub fn process_formula_cells(row_content: &[u8], to_formula_key: &[u8]) -> (r: Vec<u8>)
    requires
        to_formula_key@.len() >= 1,
    ensures
        r@ == spec_cell_pass(row_content@, 0, to_formula_key@, true),
{
    cell_pass(row_content, to_formula_key, true)
}


/// One pending hyperlink with its fresh revision id already attached.
pub struct LinkWithUid {
    pub ref_cell: Vec<u8>,
    pub location: Vec<u8>,
    pub display: Vec<u8>,
    pub uid: Vec<u8>,
}

impl View for LinkWithUid {
    type V = (Seq<u8>, Seq<u8>, Seq<u8>, Seq<u8>);

    open spec fn view(&self) -> (Seq<u8>, Seq<u8>, Seq<u8>, Seq<u8>) {
        (self.ref_cell@, self.location@, self.display@, self.uid@)
    }
}

/// The views of a sequence of hyperlink records with ids.
pub open spec fn links4_view(v: Seq<LinkWithUid>) -> Seq<(Seq<u8>, Seq<u8>, Seq<u8>, Seq<u8>)> {
    Seq::new(v.len(), |i: int| v[i]@)
}

/// Uppercases ASCII letters in place of a copied byte string.
pub fn ascii_upper(s: &[u8]) -> (r: Vec<u8>)
    ensures
        r@ == Seq::new(s@.len(), |i: int| if 97 <= s@[i] <= 122 {
            (s@[i] - 32) as u8
        } else {
            s@[i]
        }),
{
    let n = s.len();
    let mut out: Vec<u8> = Vec::new();
    let mut i: usize = 0;
    while i < n
        invariant
            n == s@.len(),
            0 <= i <= n,
            out@ =~= Seq::new(i as nat, |m: int| if 97 <= s@[m] <= 122 {
                (s@[m] - 32) as u8
            } else {
                s@[m]
            }),
        decreases n - i,
    {
        let b = s[i];
        if 97 <= b && b <= 122 {
            out.push(b - 32);
        } else {
            out.push(b);
        }
        i = i + 1;
    }
    out
}

/// Attaches a fresh `{…}` revision id, in upper-case hexadecimal, to each
/// hyperlink record; the other fields are copied unchanged.
pub fn attach_link_uids(links: &[crate::merges::HyperlinkInfo]) -> (r: Vec<LinkWithUid>)
    ensures
        r@.len() == links@.len(),
        forall|i: int|
            0 <= i < links@.len() ==> {
                &&& (#[trigger] r@[i]).ref_cell@ == links@[i].ref_cell@
                &&& r@[i].location@ == links@[i].location@
                &&& r@[i].display@ == links@[i].display@
                &&& r@[i].uid@.len() == 38
            },
{
    let n = links.len();
    let mut out: Vec<LinkWithUid> = Vec::new();
    let mut i: usize = 0;
    let brace_open = lit_bytes("{");
    let brace_close = lit_bytes("}");
    proof {
        reveal_strlit("{");
        reveal_strlit("}");
        crate::merges::lemma_ascii_lit_len("{", 1);
        crate::merges::lemma_ascii_lit_len("}", 1);
    }
    while i < n
        invariant
            n == links@.len(),
            0 <= i <= n,
            brace_open@.len() == 1,
            brace_close@.len() == 1,
            out@.len() == i,
            forall|k: int|
                0 <= k < i ==> {
                    &&& (#[trigger] out@[k]).ref_cell@ == links@[k].ref_cell@
                    &&& out@[k].location@ == links@[k].location@
                    &&& out@[k].display@ == links@[k].display@
                    &&& out@[k].uid@.len() == 38
                },
        decreases n - i,
    {
        let raw = crate::outside_codecs::fresh_uuid_ascii();
        let upper = ascii_upper(raw.as_slice());
        let mut uid: Vec<u8> = Vec::new();
        append_bytes(&mut uid, brace_open.as_slice());
        append_bytes(&mut uid, upper.as_slice());
        append_bytes(&mut uid, brace_close.as_slice());
        let l = &links[i];
        let mut rc: Vec<u8> = Vec::new();
        append_bytes(&mut rc, l.ref_cell.as_slice());
        let mut lo: Vec<u8> = Vec::new();
        append_bytes(&mut lo, l.location.as_slice());
        let mut di: Vec<u8> = Vec::new();
        append_bytes(&mut di, l.display.as_slice());
        out.push(LinkWithUid { ref_cell: rc, location: lo, display: di, uid });
        i = i + 1;
    }
    out
}

/// The `<mergeCell …/>` items of the regenerated block, from index `k` on.
pub open spec fn spec_merge_items(merges: Seq<Seq<u8>>, k: int) -> Seq<u8>
    decreases merges.len() - k,
{
    if k < 0 || k >= merges.len() {
        Seq::empty()
    } else {
        lit("<mergeCell ref=\"") + merges[k] + lit("\"/>") + spec_merge_items(merges, k + 1)
    }
}

/// The regenerated `<mergeCells>` block, empty when there are no ranges.
pub open spec fn spec_merge_block(merges: Seq<Seq<u8>>) -> Seq<u8> {
    if merges.len() == 0 {
        Seq::empty()
    } else {
        lit("<mergeCells count=\"") + spec_u32_numeral(merges.len() as int) + lit("\">")
            + spec_merge_items(merges, 0) + lit("</mergeCells>")
    }
}

/// One regenerated `<hyperlink …/>` node; the display attribute appears
/// only when the display text is nonempty.
pub open spec fn spec_link_item(l: (Seq<u8>, Seq<u8>, Seq<u8>, Seq<u8>)) -> Seq<u8> {
    if l.2.len() == 0 {
        lit("<hyperlink ref=\"") + l.0 + lit("\" location=\"") + l.1 + lit("\" xr:uid=\"") + l.3
            + lit("\"/>")
    } else {
        lit("<hyperlink ref=\"") + l.0 + lit("\" location=\"") + l.1 + lit("\" display=\"") + l.2
            + lit("\" xr:uid=\"") + l.3 + lit("\"/>")
    }
}

pub open spec fn spec_link_items(links: Seq<(Seq<u8>, Seq<u8>, Seq<u8>, Seq<u8>)>, k: int) -> Seq<
    u8,
>
    decreases links.len() - k,
{
    if k < 0 || k >= links.len() {
        Seq::empty()
    } else {
        spec_link_item(links[k]) + spec_link_items(links, k + 1)
    }
}

/// The regenerated `<hyperlinks>` block with its namespace declarations,
/// empty when there are no records.
pub open spec fn spec_links_block(links: Seq<(Seq<u8>, Seq<u8>, Seq<u8>, Seq<u8>)>) -> Seq<u8> {
    if links.len() == 0 {
        Seq::empty()
    } else {
        lit(
            "<hyperlinks xmlns:r=\"http://schemas.openxmlformats.org/officeDocument/2006/relationships\" xmlns:xr=\"http://schemas.microsoft.com/office/spreadsheetml/2014/revision\">",
        ) + spec_link_items(links, 0) + lit("</hyperlinks>")
    }
}

/// The whole post-processing pass. Rows whose text holds the remove
/// sentinel are dropped; other rows run through the number pass and then
/// the formula pass; the merge block is emitted right after
/// `</sheetData>`, and the hyperlink block right before the first
/// `pageMargins` tag — or, in a sheet without one, right before
/// `</worksheet>`.
pub open spec fn spec_post_process(
    xml: Seq<u8>,
    pos: int,
    rm: Seq<u8>,
    num: Seq<u8>,
    fm: Seq<u8>,
    merges: Seq<Seq<u8>>,
    links: Seq<(Seq<u8>, Seq<u8>, Seq<u8>, Seq<u8>)>,
    inserted: bool,
) -> Seq<u8>
    decreases xml.len() - pos,
    via spec_post_process_decreases
{
    if pos < 0 || pos >= xml.len() {
        Seq::empty()
    } else {
        match spec_find(xml, lit("<"), pos) {
            Option::None => xml.subrange(pos, xml.len() as int),
            Option::Some(p) => {
                if p > pos {
                    xml.subrange(pos, p) + spec_post_process(
                        xml,
                        p,
                        rm,
                        num,
                        fm,
                        merges,
                        links,
                        inserted,
                    )
                } else {
                    match spec_find(xml, lit(">"), pos) {
                        Option::None => xml.subrange(pos, xml.len() as int),
                        Option::Some(q) => {
                            let tag = xml.subrange(pos, q + 1);
                            if spec_is_start_tag(tag, lit("row")) {
                                match spec_find(xml, lit("</row>"), q + 1) {
                                    Option::None => Seq::empty(),
                                    Option::Some(re) => {
                                        let row = xml.subrange(pos, re + 6);
                                        let rest = spec_post_process(
                                            xml,
                                            re + 6,
                                            rm,
                                            num,
                                            fm,
                                            merges,
                                            links,
                                            inserted,
                                        );
                                        if spec_find(row, rm, 0) is Some {
                                            rest
                                        } else {
                                            spec_cell_pass(
                                                spec_cell_pass(row, 0, num, false),
                                                0,
                                                fm,
                                                true,
                                            ) + rest
                                        }
                                    },
                                }
                            } else if spec_is_end_tag(tag, lit("sheetData")) {
                                tag + spec_merge_block(merges) + spec_post_process(
                                    xml,
                                    q + 1,
                                    rm,
                                    num,
                                    fm,
                                    merges,
                                    links,
                                    inserted,
                                )
                            } else if (spec_is_start_tag(tag, lit("pageMargins"))
                                || spec_is_self_closing_tag(tag, lit("pageMargins")))
                                && !inserted {
                                spec_links_block(links) + tag + spec_post_process(
                                    xml,
                                    q + 1,
                                    rm,
                                    num,
                                    fm,
                                    merges,
                                    links,
                                    true,
                                )
                            } else if spec_is_end_tag(tag, lit("worksheet")) && !inserted {
                                spec_links_block(links) + tag + spec_post_process(
                                    xml,
                                    q + 1,
                                    rm,
                                    num,
                                    fm,
                                    merges,
                                    links,
                                    true,
                                )
                            } else {
                                tag + spec_post_process(
                                    xml,
                                    q + 1,
                                    rm,
                                    num,
                                    fm,
                                    merges,
                                    links,
                                    inserted,
                                )
                            }
                        },
                    }
                }
            },
        }
    }
}

#[via_fn]
proof fn spec_post_process_decreases(
    xml: Seq<u8>,
    pos: int,
    rm: Seq<u8>,
    num: Seq<u8>,
    fm: Seq<u8>,
    merges: Seq<Seq<u8>>,
    links: Seq<(Seq<u8>, Seq<u8>, Seq<u8>, Seq<u8>)>,
    inserted: bool,
) {
    strlit_facts();
    if 0 <= pos < xml.len() {
        lemma_spec_find(xml, lit("<"), pos);
        match spec_find(xml, lit("<"), pos) {
            Option::Some(p) => {
                if p == pos {
                    lemma_spec_find(xml, lit(">"), pos);
                    match spec_find(xml, lit(">"), pos) {
                        Option::Some(q) => lemma_spec_find(xml, lit("</row>"), q + 1),
                        Option::None => (),
                    }
                }
            },
            Option::None => (),
        }
    }
}

/// Emits the `<mergeCell …/>` items.
fn emit_merge_items(merges: &[Vec<u8>], out: &mut Vec<u8>)
    ensures
        final(out)@ == old(out)@ + spec_merge_items(vecs_view(merges@), 0),
{
    let pre = lit_bytes("<mergeCell ref=\"");
    let post = lit_bytes("\"/>");
    let n = merges.len();
    let mut k: usize = 0;
    while k < n
        invariant
            pre@ == lit("<mergeCell ref=\""),
            post@ == lit("\"/>"),
            n == merges@.len(),
            0 <= k <= n,
            old(out)@ + spec_merge_items(vecs_view(merges@), 0) == out@ + spec_merge_items(
                vecs_view(merges@),
                k as int,
            ),
        decreases n - k,
    {
        append_bytes(out, pre.as_slice());
        append_bytes(out, merges[k].as_slice());
        append_bytes(out, post.as_slice());
        proof {
            assert(vecs_view(merges@)[k as int] == merges@[k as int]@);
            assert(old(out)@ + spec_merge_items(vecs_view(merges@), 0) == out@
                + spec_merge_items(vecs_view(merges@), k as int + 1));
        }
        k = k + 1;
    }
    proof {
        assert(out@ =~= old(out)@ + spec_merge_items(vecs_view(merges@), 0));
    }
}

/// Emits the regenerated merge block.
fn emit_merge_block(merges: &[Vec<u8>], out: &mut Vec<u8>)
    requires
        merges@.len() <= 0xffff_ffff,
    ensures
        final(out)@ == old(out)@ + spec_merge_block(vecs_view(merges@)),
{
    if merges.len() == 0 {
        return ;
    }
    let head = lit_bytes("<mergeCells count=\"");
    let mid = lit_bytes("\">");
    let tail = lit_bytes("</mergeCells>");
    append_bytes(out, head.as_slice());
    let count = format_u32(merges.len() as u32);
    append_bytes(out, count.as_slice());
    append_bytes(out, mid.as_slice());
    emit_merge_items(merges, out);
    append_bytes(out, tail.as_slice());
    proof {
        assert(out@ =~= old(out)@ + spec_merge_block(vecs_view(merges@)));
    }
}

/// Emits one `<hyperlink …/>` node.
fn emit_link_item(l: &LinkWithUid, out: &mut Vec<u8>)
    ensures
        final(out)@ == old(out)@ + spec_link_item(l@),
{
    let p1 = lit_bytes("<hyperlink ref=\"");
    let p2 = lit_bytes("\" location=\"");
    let p3 = lit_bytes("\" display=\"");
    let p4 = lit_bytes("\" xr:uid=\"");
    let p5 = lit_bytes("\"/>");
    append_bytes(out, p1.as_slice());
    append_bytes(out, l.ref_cell.as_slice());
    append_bytes(out, p2.as_slice());
    append_bytes(out, l.location.as_slice());
    if l.display.len() > 0 {
        append_bytes(out, p3.as_slice());
        append_bytes(out, l.display.as_slice());
    }
    append_bytes(out, p4.as_slice());
    append_bytes(out, l.uid.as_slice());
    append_bytes(out, p5.as_slice());
    proof {
        assert(out@ =~= old(out)@ + spec_link_item(l@));
    }
}

/// Emits the regenerated hyperlink block.
fn emit_links_block(links: &[LinkWithUid], out: &mut Vec<u8>)
    ensures
        final(out)@ == old(out)@ + spec_links_block(links4_view(links@)),
{
    if links.len() == 0 {
        return ;
    }
    let head = lit_bytes(
        "<hyperlinks xmlns:r=\"http://schemas.openxmlformats.org/officeDocument/2006/relationships\" xmlns:xr=\"http://schemas.microsoft.com/office/spreadsheetml/2014/revision\">",
    );
    let tail = lit_bytes("</hyperlinks>");
    append_bytes(out, head.as_slice());
    let n = links.len();
    let mut k: usize = 0;
    while k < n
        invariant
            tail@ == lit("</hyperlinks>"),
            n == links@.len(),
            0 <= k <= n,
            old(out)@ + spec_links_block(links4_view(links@)) == out@ + spec_link_items(
                links4_view(links@),
                k as int,
            ) + tail@,
        decreases n - k,
    {
        let ghost out0 = out@;
        emit_link_item(&links[k], out);
        proof {
            assert(links4_view(links@)[k as int] == links@[k as int]@);
            assert(out@ + spec_link_items(links4_view(links@), k as int + 1) + tail@ =~= out0
                + (spec_link_item(links@[k as int]@) + spec_link_items(
                links4_view(links@),
                k as int + 1,
            )) + tail@);
        }
        k = k + 1;
    }
    append_bytes(out, tail.as_slice());
    proof {
        assert(out@ =~= old(out)@ + spec_links_block(links4_view(links@)));
    }
}

/// Post-processes a rendered sheet against the given sentinel keys,
/// already-deduplicated merge ranges, and hyperlink records.
#[verifier::rlimit(100)]
pub fn post_process_xml(
    xml: &[u8],
    remove_key: &[u8],
    number_key: &[u8],
    formula_key: &[u8],
    merges_sorted: &[Vec<u8>],
    links: &[LinkWithUid],
) -> (r: Vec<u8>)
    requires
        remove_key@.len() >= 1,
        number_key@.len() >= 1,
        formula_key@.len() >= 1,
        merges_sorted@.len() <= 0xffff_ffff,
    ensures
        r@ == spec_post_process(
            xml@,
            0,
            remove_key@,
            number_key@,
            formula_key@,
            vecs_view(merges_sorted@),
            links4_view(links@),
            false,
        ),
{
    let lt = lit_bytes("<");
    let gt = lit_bytes(">");
    let row_name = lit_bytes("row");
    let row_close = lit_bytes("</row>");
    let sheet_data = lit_bytes("sheetData");
    let page_margins = lit_bytes("pageMargins");
    let worksheet_name = lit_bytes("worksheet");
    let xl = xml.len();
    proof {
        strlit_facts();
    }
    let mut out: Vec<u8> = Vec::new();
    let mut pos: usize = 0;
    let mut inserted = false;
    loop
        invariant
            remove_key@.len() >= 1,
            number_key@.len() >= 1,
            formula_key@.len() >= 1,
            merges_sorted@.len() <= 0xffff_ffff,
            lt@ == lit("<"),
            gt@ == lit(">"),
            row_name@ == lit("row"),
            row_close@ == lit("</row>"),
            sheet_data@ == lit("sheetData"),
            page_margins@ == lit("pageMargins"),
            worksheet_name@ == lit("worksheet"),
            xl == xml@.len(),
            0 <= pos <= xl,
            spec_post_process(
                xml@,
                0,
                remove_key@,
                number_key@,
                formula_key@,
                vecs_view(merges_sorted@),
                links4_view(links@),
                false,
            ) == out@ + spec_post_process(
                xml@,
                pos as int,
                remove_key@,
                number_key@,
                formula_key@,
                vecs_view(merges_sorted@),
                links4_view(links@),
                inserted,
            ),
        decreases xl - pos,
    {
        proof {
            strlit_facts();
        }
        if pos >= xl {
            proof {
                assert(out@ + spec_post_process(
                    xml@,
                    pos as int,
                    remove_key@,
                    number_key@,
                    formula_key@,
                    vecs_view(merges_sorted@),
                    links4_view(links@),
                    inserted,
                ) =~= out@);
            }
            return out;
        }
        proof {
            lemma_spec_find(xml@, lit("<"), pos as int);
        }
        match find(xml, lt.as_slice(), pos) {
            Option::None => {
                append_bytes(&mut out, vstd::slice::slice_subrange(xml, pos, xl));
                return out;
            },
            Option::Some(p) => {
                if p > pos {
                    append_bytes(&mut out, vstd::slice::slice_subrange(xml, pos, p));
                    pos = p;
                } else {
                    proof {
                        lemma_spec_find(xml@, lit(">"), pos as int);
                    }
                    match find(xml, gt.as_slice(), pos) {
                        Option::None => {
                            append_bytes(&mut out, vstd::slice::slice_subrange(xml, pos, xl));
                            return out;
                        },
                        Option::Some(q) => {
                            let tag = copy_range(xml, pos, q + 1);
                            if is_start_tag(tag.as_slice(), row_name.as_slice()) {
                                proof {
                                    lemma_spec_find(xml@, lit("</row>"), q as int + 1);
                                }
                                match find(xml, row_close.as_slice(), q + 1) {
                                    Option::None => {
                                        return out;
                                    },
                                    Option::Some(re) => {
                                        let row = copy_range(xml, pos, re + 6);
                                        if !contains(row.as_slice(), remove_key) {
                                            let pass1 = process_number_cells(
                                                row.as_slice(),
                                                number_key,
                                            );
                                            let pass2 = process_formula_cells(
                                                pass1.as_slice(),
                                                formula_key,
                                            );
                                            append_bytes(&mut out, pass2.as_slice());
                                        }
                                        pos = re + 6;
                                        proof {
                                            assert(spec_post_process(
                                                xml@,
                                                0,
                                                remove_key@,
                                                number_key@,
                                                formula_key@,
                                                vecs_view(merges_sorted@),
                                                links4_view(links@),
                                                false,
                                            ) == out@ + spec_post_process(
                                                xml@,
                                                pos as int,
                                                remove_key@,
                                                number_key@,
                                                formula_key@,
                                                vecs_view(merges_sorted@),
                                                links4_view(links@),
                                                inserted,
                                            ));
                                        }
                                    },
                                }
                            } else if is_end_tag(tag.as_slice(), sheet_data.as_slice()) {
                                append_bytes(&mut out, tag.as_slice());
                                emit_merge_block(merges_sorted, &mut out);
                                pos = q + 1;
                            } else if (is_start_tag(tag.as_slice(), page_margins.as_slice())
                                || is_self_closing_tag(tag.as_slice(), page_margins.as_slice()))
                                && !inserted {
                                emit_links_block(links, &mut out);
                                append_bytes(&mut out, tag.as_slice());
                                inserted = true;
                                pos = q + 1;
                            } else if is_end_tag(tag.as_slice(), worksheet_name.as_slice())
                                && !inserted {
                                emit_links_block(links, &mut out);
                                append_bytes(&mut out, tag.as_slice());
                                inserted = true;
                                pos = q + 1;
                            } else {
                                append_bytes(&mut out, tag.as_slice());
                                pos = q + 1;
                            }
                        },
                    }
                }
            },
        }
    }
}


/// Remove-row invariant, post-processing side: a row whose text holds the
/// remove sentinel contributes nothing to the output; the scan continues
/// directly after its closing tag, so the block region has no rows in the
/// output and everything after it is unaffected.
pub proof fn lemma_removed_row_dropped(
    xml: Seq<u8>,
    pos: int,
    rm: Seq<u8>,
    num: Seq<u8>,
    fm: Seq<u8>,
    merges: Seq<Seq<u8>>,
    links: Seq<(Seq<u8>, Seq<u8>, Seq<u8>, Seq<u8>)>,
    inserted: bool,
    q: int,
    re: int,
)
    requires
        0 <= pos < xml.len(),
        spec_find(xml, lit("<"), pos) == Some(pos),
        spec_find(xml, lit(">"), pos) == Some(q),
        spec_is_start_tag(xml.subrange(pos, q + 1), lit("row")),
        spec_find(xml, lit("</row>"), q + 1) == Some(re),
        spec_find(xml.subrange(pos, re + 6), rm, 0) is Some,
    ensures
        spec_post_process(xml, pos, rm, num, fm, merges, links, inserted) == spec_post_process(
            xml,
            re + 6,
            rm,
            num,
            fm,
            merges,
            links,
            inserted,
        ),
{
    strlit_facts();
}

} // verus!
