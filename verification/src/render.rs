//! The per-render pipeline steps around the template engine: lifting the
//! shared strings out of the bundle, listing the sheets in deterministic
//! order, and preparing one sheet's XML for evaluation. The engine itself
//! is an outside collaborator: it takes the prepared XML and a data
//! context, calls back into the helper state, and hands the rendered text
//! to the post-processor.

use vstd::prelude::*;

verus! {

use crate::scan::{append_bytes, lit, lit_bytes, starts_with, ends_with, vecs_view};
use crate::bundle::{PartBundle, spec_get_part, spec_set_part};
use crate::merges::{
    spec_extract_links,
    spec_extract_merges,
    spec_inject_links,
    spec_inject_merges,
    extract_and_remove_merge_cells_and_hyperlinks,
    inject_helpers_into_shared_strings,
};
use crate::shared_strings::{
    extract_si_fragments,
    empty_sst_part,
    replace_shared_strings_in_sheet,
    spec_si_fragments,
    spec_inline_pass,
};
use crate::stitch::{merge_handlebars_in_xml, spec_stitch, StitchState};

/// A deep copy of a list of byte vectors.
pub fn copy_vecs(v: &Vec<Vec<u8>>) -> (r: Vec<Vec<u8>>)
    ensures
        vecs_view(r@) == vecs_view(v@),
{
    let n = v.len();
    let mut out: Vec<Vec<u8>> = Vec::new();
    let mut i: usize = 0;
    while i < n
        invariant
            n == v@.len(),
            0 <= i <= n,
            out@.len() == i,
            forall|j: int| 0 <= j < i ==> (#[trigger] out@[j])@ == v@[j]@,
        decreases n - i,
    {
        let mut c: Vec<u8> = Vec::new();
        append_bytes(&mut c, v[i].as_slice());
        proof {
            assert(c@ == v@[i as int]@);
        }
        out.push(c);
        i = i + 1;
    }
    proof {
        assert(vecs_view(out@) =~= vecs_view(v@));
    }
    out
}

/// Lifts the shared strings out of the bundle: the `<si>` spans of
/// `xl/sharedStrings.xml` become the fragment table, and the part itself
/// is replaced by a valid empty `sst`. A bundle without the part gets the
/// empty stub too, so the output always holds exactly one shared-string
/// part.
pub fn take_shared_strings(parts: &mut PartBundle) -> (r: Vec<Vec<u8>>)
    ensures
        match spec_get_part(old(parts)@, lit("xl/sharedStrings.xml")) {
            Option::Some(data) => {
                &&& vecs_view(r@) == spec_si_fragments(data, 0)
                &&& final(parts)@ == spec_set_part(
                    old(parts)@,
                    lit("xl/sharedStrings.xml"),
                    lit(
                        "<?xml version=\"1.0\" encoding=\"UTF-8\" standalone=\"yes\"?><sst xmlns=\"http://schemas.openxmlformats.org/spreadsheetml/2006/main\" count=\"0\" uniqueCount=\"0\"></sst>",
                    ),
                )
            },
            Option::None => r@.len() == 0 && final(parts)@ == spec_set_part(
                old(parts)@,
                lit("xl/sharedStrings.xml"),
                lit(
                    "<?xml version=\"1.0\" encoding=\"UTF-8\" standalone=\"yes\"?><sst xmlns=\"http://schemas.openxmlformats.org/spreadsheetml/2006/main\" count=\"0\" uniqueCount=\"0\"></sst>",
                ),
            ),
        },
{
    let path = lit_bytes("xl/sharedStrings.xml");
    match parts.get_copy(path.as_slice()) {
        Option::Some(data) => {
            let frags = extract_si_fragments(data.as_slice());
            let stub = empty_sst_part();
            parts.set(path, stub);
            frags
        },
        Option::None => {
            let stub = empty_sst_part();
            parts.set(path, stub);
            Vec::new()
        },
    }
}

/// The worksheet part paths of the bundle, each of the form
/// `xl/worksheets/sheet….xml`, sorted lexicographically so that sheets
/// render in a deterministic order.
pub fn sheet_paths(parts: &PartBundle) -> (r: Vec<Vec<u8>>)
    ensures
        crate::postprocess::spec_strictly_sorted(vecs_view(r@)),
        forall|x: Seq<u8>|
            vecs_view(r@).contains(x) <==> exists|i: int|
                0 <= i < parts@.len() && (#[trigger] parts@[i]).0 == x && x.len() >= 23
                    && x.subrange(0, 19) == lit("xl/worksheets/sheet") && x.subrange(
                    x.len() - 4,
                    x.len() as int,
                ) == lit(".xml"),
{
    let prefix = lit_bytes("xl/worksheets/sheet");
    let suffix = lit_bytes(".xml");
    proof {
        crate::sheet_ops::strlit_facts();
    }
    let n = parts.len();
    let mut found: Vec<Vec<u8>> = Vec::new();
    let mut i: usize = 0;
    while i < n
        invariant
            prefix@ == lit("xl/worksheets/sheet"),
            suffix@ == lit(".xml"),
            lit("xl/worksheets/sheet").len() == 19,
            lit(".xml").len() == 4,
            n == parts@.len(),
            0 <= i <= n,
            forall|x: Seq<u8>|
                vecs_view(found@).contains(x) <==> exists|m: int|
                    0 <= m < i && (#[trigger] parts@[m]).0 == x && x.len() >= 23 && x.subrange(
                        0,
                        19,
                    ) == lit("xl/worksheets/sheet") && x.subrange(x.len() - 4, x.len() as int)
                        == lit(".xml"),
        decreases n - i,
    {
        let name = &parts.parts[i].name;
        let ghost found0 = vecs_view(found@);
        if name.len() >= 23 && starts_with(name.as_slice(), prefix.as_slice()) && ends_with(
            name.as_slice(),
            suffix.as_slice(),
        ) {
            let mut c: Vec<u8> = Vec::new();
            append_bytes(&mut c, name.as_slice());
            found.push(c);
            proof {
                assert(vecs_view(found@) =~= found0.push(name@));
                assert(parts@[i as int].0 == name@);
                assert forall|x: Seq<u8>| vecs_view(found@).contains(x) implies exists|m: int|
                    0 <= m < i + 1 && (#[trigger] parts@[m]).0 == x && x.len() >= 23
                        && x.subrange(0, 19) == lit("xl/worksheets/sheet") && x.subrange(
                        x.len() - 4,
                        x.len() as int,
                    ) == lit(".xml") by {
                    let w = choose|w: int|
                        0 <= w < vecs_view(found@).len() && vecs_view(found@)[w] == x;
                    if w < found0.len() {
                        assert(found0.contains(x));
                    } else {
                        assert(x == name@);
                        assert(parts@[i as int].0 == x);
                    }
                }
                assert forall|x: Seq<u8>|
                    (exists|m: int|
                        0 <= m < i + 1 && (#[trigger] parts@[m]).0 == x && x.len() >= 23
                            && x.subrange(0, 19) == lit("xl/worksheets/sheet") && x.subrange(
                            x.len() - 4,
                            x.len() as int,
                        ) == lit(".xml")) implies vecs_view(found@).contains(x) by {
                    let m = choose|m: int|
                        0 <= m < i + 1 && (#[trigger] parts@[m]).0 == x && x.len() >= 23
                            && x.subrange(0, 19) == lit("xl/worksheets/sheet") && x.subrange(
                            x.len() - 4,
                            x.len() as int,
                        ) == lit(".xml");
                    if m < i {
                        assert(found0.contains(x));
                        let u = choose|u: int| 0 <= u < found0.len() && found0[u] == x;
                        assert(vecs_view(found@)[u] == x);
                    } else {
                        assert(vecs_view(found@)[found0.len() as int] == x);
                    }
                }
            }
        } else {
            proof {
                assert forall|x: Seq<u8>|
                    (exists|m: int|
                        0 <= m < i + 1 && (#[trigger] parts@[m]).0 == x && x.len() >= 23
                            && x.subrange(0, 19) == lit("xl/worksheets/sheet") && x.subrange(
                            x.len() - 4,
                            x.len() as int,
                        ) == lit(".xml")) implies vecs_view(found@).contains(x) by {
                    let m = choose|m: int|
                        0 <= m < i + 1 && (#[trigger] parts@[m]).0 == x && x.len() >= 23
                            && x.subrange(0, 19) == lit("xl/worksheets/sheet") && x.subrange(
                            x.len() - 4,
                            x.len() as int,
                        ) == lit(".xml");
                    assert(m < i || parts@[i as int].0 == x);
                    if m == i {
                        assert(name@ == x);
                        assert(false);
                    }
                }
            }
        }
        i = i + 1;
    }
    crate::postprocess::sort_dedup(found.as_slice())
}

/// Prepares one sheet's XML for template evaluation: the offset reset is
/// prefixed; the static merges and hyperlinks are extracted, removed, and
/// injected as helper calls into a sheet-local copy of the shared
/// strings; the shared strings are inlined into their cells; and the
/// split template expressions are stitched while every address is
/// rewritten into helper calls.
pub fn prepare_sheet(sheet_xml: &[u8], shared_strings: &Vec<Vec<u8>>) -> (r: Vec<u8>)
    ensures
        ({
            let with_reset = lit("{{row_offset_reset}}") + sheet_xml@;
            let stripped = spec_extract_links(spec_extract_merges(with_reset).0).0;
            let merges = spec_extract_merges(with_reset).1;
            let links = spec_extract_links(spec_extract_merges(with_reset).0).1;
            let injected = spec_inject_links(
                stripped,
                spec_inject_merges(stripped, vecs_view(shared_strings@), merges, 0),
                links,
                0,
            );
            let inlined = spec_inline_pass(stripped, 0, injected);
            r@ == spec_stitch(
                inlined,
                0,
                StitchState {
                    brace: 0,
                    in_hb: false,
                    buffer: Seq::empty(),
                    cur_row: 0,
                    cur_col: 0,
                    stack: Seq::empty(),
                },
            )
        }),
{
    let mut with_reset = lit_bytes("{{row_offset_reset}}");
    append_bytes(&mut with_reset, sheet_xml);
    let (stripped, merge_refs, links) = extract_and_remove_merge_cells_and_hyperlinks(
        with_reset.as_slice(),
    );
    let mut local_shared = copy_vecs(shared_strings);
    inject_helpers_into_shared_strings(
        stripped.as_slice(),
        &mut local_shared,
        merge_refs.as_slice(),
        links.as_slice(),
    );
    let inlined = replace_shared_strings_in_sheet(stripped.as_slice(), local_shared.as_slice());
    merge_handlebars_in_xml(inlined.as_slice())
}

} // verus!
