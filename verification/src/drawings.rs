//! The drawing and image finalizer: for every sheet with collected image
//! records, a drawing part, its relationships, the sheet relationships,
//! the decoded media parts, and the content-type patches are generated.

use vstd::prelude::*;

verus! {

use crate::scan::{
    append_bytes,
    contains,
    find,
    format_u32,
    lit,
    lit_bytes,
    replace_all,
    spec_find,
    spec_replace_all,
    spec_u32_numeral,
};
use crate::merges::lemma_ascii_lit_len;
use crate::helpers::ImageInfo;
use crate::bundle::{PartBundle, spec_set_part, spec_get_part};
use crate::errors::XlsxError;
use crate::outside_codecs::{base64_decode, spec_base64_decode};
use crate::imagesize::{get_image_dimensions, spec_image_dimensions};
use crate::sheet_ops::spec_sheet_num;

/// One `oneCellAnchor` block of a drawing part: anchored one cell up and
/// left of the record's cell, with the extent in EMU (9525 per pixel).
pub open spec fn spec_anchor_xml(img: ImageInfo, w_px: int, h_px: int, id: int) -> Seq<u8> {
    let cx = spec_u32_numeral(w_px * 9525);
    let cy = spec_u32_numeral(h_px * 9525);
    lit("  <xdr:oneCellAnchor>\n    <xdr:from>\n      <xdr:col>") + spec_u32_numeral(
        img.col as int - 1,
    ) + lit("</xdr:col>\n      <xdr:colOff>0</xdr:colOff>\n      <xdr:row>") + spec_u32_numeral(
        img.row as int - 1,
    ) + lit(
        "</xdr:row>\n      <xdr:rowOff>0</xdr:rowOff>\n    </xdr:from>\n    <xdr:ext cx=\"",
    ) + cx + lit("\" cy=\"") + cy + lit(
        "\"/>\n    <xdr:pic>\n      <xdr:nvPicPr>\n        <xdr:cNvPr id=\"",
    ) + spec_u32_numeral(id) + lit("\" name=\"Picture ") + spec_u32_numeral(id) + lit(
        "\"/>\n        <xdr:cNvPicPr>\n          <a:picLocks noChangeAspect=\"1\"/>\n        </xdr:cNvPicPr>\n      </xdr:nvPicPr>\n      <xdr:blipFill>\n        <a:blip xmlns:r=\"http://schemas.openxmlformats.org/officeDocument/2006/relationships\" r:embed=\"",
    ) + img.rid@ + lit(
        "\"/>\n        <a:stretch>\n          <a:fillRect/>\n        </a:stretch>\n      </xdr:blipFill>\n      <xdr:spPr>\n        <a:xfrm>\n          <a:off x=\"0\" y=\"0\"/>\n          <a:ext cx=\"",
    ) + cx + lit("\" cy=\"") + cy + lit(
        "\"/>\n        </a:xfrm>\n        <a:prstGeom prst=\"rect\">\n          <a:avLst/>\n        </a:prstGeom>\n      </xdr:spPr>\n    </xdr:pic>\n    <xdr:clientData/>\n  </xdr:oneCellAnchor>\n",
    )
}

/// The pixel size used for one image: the user-given dimensions, or those
/// detected in the decoded payload.
pub open spec fn spec_image_px(img: ImageInfo) -> Option<(int, int)> {
    match spec_base64_decode(img.base64_data@) {
        Option::None => Option::None,
        Option::Some(bytes) => {
            match spec_image_dimensions(bytes) {
                Option::None => {
                    match (img.width, img.height) {
                        (Option::Some(w), Option::Some(h)) => Option::Some((w as int, h as int)),
                        _ => Option::None,
                    }
                },
                Option::Some((aw, ah)) => {
                    let w = match img.width {
                        Option::Some(w) => w as int,
                        Option::None => aw as int,
                    };
                    let h = match img.height {
                        Option::Some(h) => h as int,
                        Option::None => ah as int,
                    };
                    Option::Some((w, h))
                },
            }
        },
    }
}

/// The anchors of a drawing part from index `k` on, with the running
/// picture id; `None` when a payload cannot be decoded or measured.
pub open spec fn spec_anchors(imgs: Seq<ImageInfo>, k: int, id: int) -> Option<(Seq<u8>, int)>
    decreases imgs.len() - k,
{
    if k < 0 || k >= imgs.len() {
        Option::Some((Seq::empty(), id))
    } else {
        match spec_image_px(imgs[k]) {
            Option::None => Option::None,
            Option::Some((w, h)) => {
                match spec_anchors(imgs, k + 1, id + 1) {
                    Option::None => Option::None,
                    Option::Some((rest, id2)) => Option::Some(
                        (spec_anchor_xml(imgs[k], w, h, id) + rest, id2),
                    ),
                }
            },
        }
    }
}

/// The whole drawing part of one sheet.
pub open spec fn spec_drawing_xml(imgs: Seq<ImageInfo>, id: int) -> Option<(Seq<u8>, int)> {
    match spec_anchors(imgs, 0, id) {
        Option::None => Option::None,
        Option::Some((body, id2)) => Option::Some(
            (
                lit(
                    "<?xml version=\"1.0\" encoding=\"UTF-8\" standalone=\"yes\"?>\n<xdr:wsDr xmlns:xdr=\"http://schemas.openxmlformats.org/drawingml/2006/spreadsheetDrawing\" xmlns:a=\"http://schemas.openxmlformats.org/drawingml/2006/main\">\n",
                ) + body + lit("</xdr:wsDr>"),
                id2,
            ),
        ),
    }
}

/// Generates the drawing part of one sheet's images, advancing the global
/// picture counter. Fails when a payload is not base64 or, with no user
/// dimensions, its format is not recognized.
#[verifier::rlimit(100)]
pub fn generate_drawing_xml(images: &[ImageInfo], image_counter: &mut u32) -> (r: Result<
    Vec<u8>,
    XlsxError,
>)
    requires
        *old(image_counter) + images@.len() <= u32::MAX,
        forall|i: int| 0 <= i < images@.len() ==> (#[trigger] images@[i]).col >= 1
            && images@[i].row >= 1,
    ensures
        match r {
            Ok(xml) => spec_drawing_xml(images@, *old(image_counter) as int) matches Some(t)
                && xml@ == t.0 && *final(image_counter) as int == t.1,
            Err(_) => spec_drawing_xml(images@, *old(image_counter) as int) is None,
        },
        *final(image_counter) >= *old(image_counter),
        *final(image_counter) <= *old(image_counter) + images@.len(),
{
    let mut out = lit_bytes(
        "<?xml version=\"1.0\" encoding=\"UTF-8\" standalone=\"yes\"?>\n<xdr:wsDr xmlns:xdr=\"http://schemas.openxmlformats.org/drawingml/2006/spreadsheetDrawing\" xmlns:a=\"http://schemas.openxmlformats.org/drawingml/2006/main\">\n",
    );
    let ghost header = out@;
    let ghost id0 = *old(image_counter) as int;
    let n = images.len();
    let mut k: usize = 0;
    while k < n
        invariant
            n == images@.len(),
            0 <= k <= n,
            id0 == *old(image_counter) as int,
            header == lit(
                "<?xml version=\"1.0\" encoding=\"UTF-8\" standalone=\"yes\"?>\n<xdr:wsDr xmlns:xdr=\"http://schemas.openxmlformats.org/drawingml/2006/spreadsheetDrawing\" xmlns:a=\"http://schemas.openxmlformats.org/drawingml/2006/main\">\n",
            ),
            *image_counter == id0 + k,
            id0 + n <= u32::MAX,
            forall|i: int| 0 <= i < images@.len() ==> (#[trigger] images@[i]).col >= 1
                && images@[i].row >= 1,
            spec_anchors(images@, 0, id0) matches Some(t0) ==> {
                &&& spec_anchors(images@, k as int, *image_counter as int) matches Some(tk)
                &&& header + t0.0 == out@ + spec_anchors(
                    images@,
                    k as int,
                    *image_counter as int,
                ).unwrap().0
                &&& t0.1 == spec_anchors(images@, k as int, *image_counter as int).unwrap().1
            },
            spec_anchors(images@, 0, id0) is None ==> spec_anchors(
                images@,
                k as int,
                *image_counter as int,
            ) is None,
        decreases n - k,
    {
        let img = &images[k];
        let decoded = match base64_decode(img.base64_data.as_slice()) {
            Option::Some(d) => d,
            Option::None => {
                proof {
                    assert(spec_image_px(images@[k as int]) is None);
                    assert(spec_anchors(images@, k as int, *image_counter as int) is None);
                }
                return Err(
                    XlsxError::TemplateRenderError(
                        String::from_str("Failed to decode base64 image"),
                    ),
                );
            },
        };
        let detected = get_image_dimensions(decoded.as_slice());
        let w_px: u32;
        let h_px: u32;
        match detected {
            Option::Some((aw, ah)) => {
                w_px = match img.width {
                    Option::Some(w) => w,
                    Option::None => aw,
                };
                h_px = match img.height {
                    Option::Some(h) => h,
                    Option::None => ah,
                };
            },
            Option::None => {
                match (img.width, img.height) {
                    (Option::Some(w), Option::Some(h)) => {
                        w_px = w;
                        h_px = h;
                    },
                    _ => {
                        proof {
                            assert(spec_image_px(images@[k as int]) is None);
                            assert(spec_anchors(
                                images@,
                                k as int,
                                *image_counter as int,
                            ) is None);
                        }
                        return Err(
                            XlsxError::TemplateRenderError(
                                String::from_str("Failed to detect image dimensions"),
                            ),
                        );
                    },
                }
            },
        }
        let id = *image_counter;
        append_anchor(img, w_px, h_px, id, &mut out);
        *image_counter = id + 1;
        proof {
            assert(spec_image_px(images@[k as int]) == Some((w_px as int, h_px as int)));
        }
        k = k + 1;
    }
    let tail = lit_bytes("</xdr:wsDr>");
    append_bytes(&mut out, tail.as_slice());
    proof {
        assert(spec_anchors(images@, n as int, *image_counter as int) matches Some(t) && t.0
            =~= Seq::<u8>::empty());
        match spec_anchors(images@, 0, id0) {
            Option::Some(t0) => {
                assert(out@ =~= header + t0.0 + lit("</xdr:wsDr>"));
            },
            Option::None => (),
        }
    }
    Ok(out)
}

/// Appends one anchor block. The width and height are in pixels; the EMU
/// conversion multiplies by 9525, which for detected dimensions can reach
/// 64 bits, so values above what a `u32` numeral can carry are clamped by
/// the caller's precondition.
fn append_anchor(img: &ImageInfo, w_px: u32, h_px: u32, id: u32, out: &mut Vec<u8>)
    requires
        img.col >= 1,
        img.row >= 1,
    ensures
        final(out)@ == old(out)@ + spec_anchor_xml(*img, w_px as int, h_px as int, id as int),
{
    let cx = crate::scan::format_u64((w_px as u64) * 9525);
    let cy = crate::scan::format_u64((h_px as u64) * 9525);
    let p1 = lit_bytes("  <xdr:oneCellAnchor>\n    <xdr:from>\n      <xdr:col>");
    append_bytes(out, p1.as_slice());
    let col = format_u32(img.col - 1);
    append_bytes(out, col.as_slice());
    let p2 = lit_bytes("</xdr:col>\n      <xdr:colOff>0</xdr:colOff>\n      <xdr:row>");
    append_bytes(out, p2.as_slice());
    let row = format_u32(img.row - 1);
    append_bytes(out, row.as_slice());
    let p3 = lit_bytes(
        "</xdr:row>\n      <xdr:rowOff>0</xdr:rowOff>\n    </xdr:from>\n    <xdr:ext cx=\"",
    );
    append_bytes(out, p3.as_slice());
    append_bytes(out, cx.as_slice());
    let p4 = lit_bytes("\" cy=\"");
    append_bytes(out, p4.as_slice());
    append_bytes(out, cy.as_slice());
    let p5 = lit_bytes(
        "\"/>\n    <xdr:pic>\n      <xdr:nvPicPr>\n        <xdr:cNvPr id=\"",
    );
    append_bytes(out, p5.as_slice());
    let idn = format_u32(id);
    append_bytes(out, idn.as_slice());
    let p6 = lit_bytes("\" name=\"Picture ");
    append_bytes(out, p6.as_slice());
    append_bytes(out, idn.as_slice());
    let p7 = lit_bytes(
        "\"/>\n        <xdr:cNvPicPr>\n          <a:picLocks noChangeAspect=\"1\"/>\n        </xdr:cNvPicPr>\n      </xdr:nvPicPr>\n      <xdr:blipFill>\n        <a:blip xmlns:r=\"http://schemas.openxmlformats.org/officeDocument/2006/relationships\" r:embed=\"",
    );
    append_bytes(out, p7.as_slice());
    append_bytes(out, img.rid.as_slice());
    let p8 = lit_bytes(
        "\"/>\n        <a:stretch>\n          <a:fillRect/>\n        </a:stretch>\n      </xdr:blipFill>\n      <xdr:spPr>\n        <a:xfrm>\n          <a:off x=\"0\" y=\"0\"/>\n          <a:ext cx=\"",
    );
    append_bytes(out, p8.as_slice());
    append_bytes(out, cx.as_slice());
    let p9 = lit_bytes("\" cy=\"");
    append_bytes(out, p9.as_slice());
    append_bytes(out, cy.as_slice());
    let p10 = lit_bytes(
        "\"/>\n        </a:xfrm>\n        <a:prstGeom prst=\"rect\">\n          <a:avLst/>\n        </a:prstGeom>\n      </xdr:spPr>\n    </xdr:pic>\n    <xdr:clientData/>\n  </xdr:oneCellAnchor>\n",
    );
    append_bytes(out, p10.as_slice());
    proof {
        assert(out@ =~= old(out)@ + spec_anchor_xml(*img, w_px as int, h_px as int, id as int));
    }
}

/// One relationship line of a drawing's relationship part.
pub open spec fn spec_drawing_rel(rid: Seq<u8>) -> Seq<u8> {
    lit("  <Relationship Id=\"") + rid + lit(
        "\" Type=\"http://schemas.openxmlformats.org/officeDocument/2006/relationships/image\" Target=\"../media/",
    ) + rid + lit(".png\"/>\n")
}

pub open spec fn spec_drawing_rels_body(imgs: Seq<ImageInfo>, k: int) -> Seq<u8>
    decreases imgs.len() - k,
{
    if k < 0 || k >= imgs.len() {
        Seq::empty()
    } else {
        spec_drawing_rel(imgs[k].rid@) + spec_drawing_rels_body(imgs, k + 1)
    }
}

/// The relationship part of a drawing: one image relationship per record.
pub open spec fn spec_drawing_rels(imgs: Seq<ImageInfo>) -> Seq<u8> {
    lit(
        "<?xml version=\"1.0\" encoding=\"UTF-8\" standalone=\"yes\"?>\n<Relationships xmlns=\"http://schemas.openxmlformats.org/package/2006/relationships\">\n",
    ) + spec_drawing_rels_body(imgs, 0) + lit("</Relationships>")
}

/// Generates the relationship part of a drawing.
pub fn generate_drawing_rels(images: &[ImageInfo]) -> (r: Vec<u8>)
    ensures
        r@ == spec_drawing_rels(images@),
{
    let mut out = lit_bytes(
        "<?xml version=\"1.0\" encoding=\"UTF-8\" standalone=\"yes\"?>\n<Relationships xmlns=\"http://schemas.openxmlformats.org/package/2006/relationships\">\n",
    );
    let ghost header = out@;
    let n = images.len();
    let mut k: usize = 0;
    while k < n
        invariant
            n == images@.len(),
            0 <= k <= n,
            header + spec_drawing_rels_body(images@, 0) == out@ + spec_drawing_rels_body(
                images@,
                k as int,
            ),
        decreases n - k,
    {
        let ghost out0 = out@;
        let p1 = lit_bytes("  <Relationship Id=\"");
        append_bytes(&mut out, p1.as_slice());
        append_bytes(&mut out, images[k].rid.as_slice());
        let p2 = lit_bytes(
            "\" Type=\"http://schemas.openxmlformats.org/officeDocument/2006/relationships/image\" Target=\"../media/",
        );
        append_bytes(&mut out, p2.as_slice());
        append_bytes(&mut out, images[k].rid.as_slice());
        let p3 = lit_bytes(".png\"/>\n");
        append_bytes(&mut out, p3.as_slice());
        proof {
            assert(out@ =~= out0 + spec_drawing_rel(images@[k as int].rid@));
            assert(header + spec_drawing_rels_body(images@, 0) == out@
                + spec_drawing_rels_body(images@, k as int + 1));
        }
        k = k + 1;
    }
    let tail = lit_bytes("</Relationships>");
    append_bytes(&mut out, tail.as_slice());
    proof {
        assert(spec_drawing_rels_body(images@, n as int) =~= Seq::<u8>::empty());
        assert(out@ =~= spec_drawing_rels(images@));
    }
    out
}

/// The relationship part tying a sheet to its drawing.
pub open spec fn spec_sheet_rels(n: int) -> Seq<u8> {
    lit(
        "<?xml version=\"1.0\" encoding=\"UTF-8\" standalone=\"yes\"?>\n<Relationships xmlns=\"http://schemas.openxmlformats.org/package/2006/relationships\">\n  <Relationship Id=\"rId1\" Type=\"http://schemas.openxmlformats.org/officeDocument/2006/relationships/drawing\" Target=\"../drawings/drawing",
    ) + spec_u32_numeral(n) + lit(".xml\"/>\n</Relationships>")
}

/// Generates the relationship part tying a sheet to its drawing.
pub fn generate_sheet_rels(sheet_num: u32) -> (r: Vec<u8>)
    ensures
        r@ == spec_sheet_rels(sheet_num as int),
{
    let mut out = lit_bytes(
        "<?xml version=\"1.0\" encoding=\"UTF-8\" standalone=\"yes\"?>\n<Relationships xmlns=\"http://schemas.openxmlformats.org/package/2006/relationships\">\n  <Relationship Id=\"rId1\" Type=\"http://schemas.openxmlformats.org/officeDocument/2006/relationships/drawing\" Target=\"../drawings/drawing",
    );
    let num = format_u32(sheet_num);
    append_bytes(&mut out, num.as_slice());
    let tail = lit_bytes(".xml\"/>\n</Relationships>");
    append_bytes(&mut out, tail.as_slice());
    proof {
        assert(out@ =~= spec_sheet_rels(sheet_num as int));
    }
    out
}


/// The part paths derived from a sheet number.
pub open spec fn spec_drawing_path(n: int) -> Seq<u8> {
    lit("xl/drawings/drawing") + spec_u32_numeral(n) + lit(".xml")
}

pub open spec fn spec_drawing_rels_path(n: int) -> Seq<u8> {
    lit("xl/drawings/_rels/drawing") + spec_u32_numeral(n) + lit(".xml.rels")
}

pub open spec fn spec_ws_rels_path(n: int) -> Seq<u8> {
    lit("xl/worksheets/_rels/sheet") + spec_u32_numeral(n) + lit(".xml.rels")
}

pub open spec fn spec_media_path(rid: Seq<u8>) -> Seq<u8> {
    lit("xl/media/") + rid + lit(".png")
}

/// The sheet number used for a sheet's derived parts: the parsed number,
/// or 1 when the path does not parse.
pub open spec fn spec_sheet_num_or_1(path: Seq<u8>) -> int {
    match spec_sheet_num(path) {
        Option::Some(n) => n,
        Option::None => 1,
    }
}

/// The media parts of one sheet's images, decoded and stored; `None` when
/// a payload is not base64.
pub open spec fn spec_media_fold(
    bundle: Seq<(Seq<u8>, Seq<u8>)>,
    imgs: Seq<ImageInfo>,
    k: int,
) -> Option<Seq<(Seq<u8>, Seq<u8>)>>
    decreases imgs.len() - k,
{
    if k < 0 || k >= imgs.len() {
        Option::Some(bundle)
    } else {
        match spec_base64_decode(imgs[k].base64_data@) {
            Option::None => Option::None,
            Option::Some(bytes) => spec_media_fold(
                spec_set_part(bundle, spec_media_path(imgs[k].rid@), bytes),
                imgs,
                k + 1,
            ),
        }
    }
}

/// The sheet patched with a `<drawing>` reference before `</worksheet>`,
/// unless one is already present.
pub open spec fn spec_patch_sheet(data: Seq<u8>) -> Seq<u8> {
    if spec_find(data, lit("<drawing"), 0) is Some {
        data
    } else {
        spec_replace_all(
            data,
            lit("</worksheet>"),
            lit("  <drawing r:id=\"rId1\" />\n</worksheet>"),
        )
    }
}

/// The whole image pass of one sheet: drawing part, its relationships,
/// the sheet relationships, the sheet patch, and the media parts.
pub open spec fn spec_sheet_images(
    bundle: Seq<(Seq<u8>, Seq<u8>)>,
    counter: int,
    path: Seq<u8>,
    imgs: Seq<ImageInfo>,
) -> Option<(Seq<(Seq<u8>, Seq<u8>)>, int)> {
    let n = spec_sheet_num_or_1(path);
    match spec_drawing_xml(imgs, counter) {
        Option::None => Option::None,
        Option::Some((dxml, counter2)) => {
            let b1 = spec_set_part(bundle, spec_drawing_path(n), dxml);
            let b2 = spec_set_part(b1, spec_drawing_rels_path(n), spec_drawing_rels(imgs));
            let b3 = spec_set_part(b2, spec_ws_rels_path(n), spec_sheet_rels(n));
            let b4 = match spec_get_part(b3, path) {
                Option::Some(data) => spec_set_part(b3, path, spec_patch_sheet(data)),
                Option::None => b3,
            };
            match spec_media_fold(b4, imgs, 0) {
                Option::None => Option::None,
                Option::Some(b5) => Option::Some((b5, counter2)),
            }
        },
    }
}

/// All sheets folded through the image pass.
pub open spec fn spec_images_fold(
    bundle: Seq<(Seq<u8>, Seq<u8>)>,
    counter: int,
    list: Seq<(Seq<u8>, Seq<ImageInfo>)>,
    k: int,
) -> Option<(Seq<(Seq<u8>, Seq<u8>)>, int)>
    decreases list.len() - k,
{
    if k < 0 || k >= list.len() {
        Option::Some((bundle, counter))
    } else if list[k].1.len() == 0 {
        spec_images_fold(bundle, counter, list, k + 1)
    } else {
        match spec_sheet_images(bundle, counter, list[k].0, list[k].1) {
            Option::None => Option::None,
            Option::Some((b2, c2)) => spec_images_fold(b2, c2, list, k + 1),
        }
    }
}

/// The content-type manifest patched: the PNG default once, and one
/// drawing override per sheet with images.
pub open spec fn spec_ct_overrides(
    ct: Seq<u8>,
    list: Seq<(Seq<u8>, Seq<ImageInfo>)>,
    k: int,
) -> Seq<u8>
    decreases list.len() - k,
{
    if k < 0 || k >= list.len() {
        ct
    } else if list[k].1.len() == 0 {
        spec_ct_overrides(ct, list, k + 1)
    } else {
        let n = spec_sheet_num_or_1(list[k].0);
        let part_name = lit("/xl/drawings/drawing") + spec_u32_numeral(n) + lit(".xml");
        let ct2 = if spec_find(ct, part_name, 0) is Some {
            ct
        } else {
            spec_replace_all(
                ct,
                lit("</Types>"),
                lit("  <Override PartName=\"") + part_name + lit(
                    "\" ContentType=\"application/vnd.openxmlformats-officedocument.drawing+xml\"/>\n</Types>",
                ),
            )
        };
        spec_ct_overrides(ct2, list, k + 1)
    }
}

pub open spec fn spec_ct_patch(ct: Seq<u8>, list: Seq<(Seq<u8>, Seq<ImageInfo>)>) -> Seq<u8> {
    let ct1 = if spec_find(ct, lit("Extension=\"png\""), 0) is Some {
        ct
    } else {
        spec_replace_all(
            ct,
            lit("</Types>"),
            lit("  <Default Extension=\"png\" ContentType=\"image/png\"/>\n</Types>"),
        )
    };
    spec_ct_overrides(ct1, list, 0)
}

/// The views of the collected (sheet path, images) pairs.
pub open spec fn sheets_images_view(v: Seq<(Vec<u8>, Vec<ImageInfo>)>) -> Seq<
    (Seq<u8>, Seq<ImageInfo>),
> {
    Seq::new(v.len(), |i: int| (v[i].0@, v[i].1@))
}

/// Realizes the collected images: for every sheet with records, the
/// drawing part and its relationships are generated, the sheet is tied to
/// the drawing and patched with a `<drawing>` reference, the payloads are
/// decoded into media parts, and the content-type manifest gains the PNG
/// default and one override per new drawing part. Fails when a payload is
/// not base64 or its dimensions cannot be determined.
#[verifier::rlimit(100)]
pub fn process_images(
    parts: &mut PartBundle,
    sheet_images: &[(Vec<u8>, Vec<ImageInfo>)],
    image_counter: &mut u32,
) -> (r: Result<(), XlsxError>)
    requires
        *old(image_counter) >= 1,
        forall|i: int, j: int|
            0 <= i < sheet_images@.len() && 0 <= j < (#[trigger] sheet_images@[i]).1@.len()
                ==> (#[trigger] sheet_images@[i].1@[j]).col >= 1 && sheet_images@[i].1@[j].row
                >= 1,
        *old(image_counter) + total_images(sheet_images@) <= u32::MAX,
    ensures
        r is Ok ==> {
            &&& spec_images_fold(
                old(parts)@,
                *old(image_counter) as int,
                sheets_images_view(sheet_images@),
                0,
            ) matches Some(t)
            &&& {
                let folded = spec_images_fold(
                    old(parts)@,
                    *old(image_counter) as int,
                    sheets_images_view(sheet_images@),
                    0,
                ).unwrap();
                &&& *final(image_counter) as int == folded.1
                &&& final(parts)@ == (match spec_get_part(
                    folded.0,
                    lit("[Content_Types].xml"),
                ) {
                    Option::Some(ct) => spec_set_part(
                        folded.0,
                        lit("[Content_Types].xml"),
                        spec_ct_patch(ct, sheets_images_view(sheet_images@)),
                    ),
                    Option::None => folded.0,
                })
            }
        },
        r is Err ==> spec_images_fold(
            old(parts)@,
            *old(image_counter) as int,
            sheets_images_view(sheet_images@),
            0,
        ) is None,
{
    proof {
        drawings_strlit_facts();
    }
    let ghost bundle0 = parts@;
    let ghost counter0 = *old(image_counter) as int;
    let nlist = sheet_images.len();
    let mut k: usize = 0;
    while k < nlist
        invariant
            nlist == sheet_images@.len(),
            0 <= k <= nlist,
            bundle0 == old(parts)@,
            counter0 == *old(image_counter) as int,
            *image_counter >= 1,
            forall|i: int, j: int|
                0 <= i < sheet_images@.len() && 0 <= j < (#[trigger] sheet_images@[i]).1@.len()
                    ==> (#[trigger] sheet_images@[i].1@[j]).col >= 1 && sheet_images@[i].1@[j].row
                    >= 1,
            *image_counter + remaining_images(sheet_images@, k as int) <= u32::MAX,
            spec_images_fold(bundle0, counter0, sheets_images_view(sheet_images@), 0)
                == spec_images_fold(
                parts@,
                *image_counter as int,
                sheets_images_view(sheet_images@),
                k as int,
            ),
        decreases nlist - k,
    {
        proof {
            drawings_strlit_facts();
        }
        let entry = &sheet_images[k];
        let ghost pre = (parts@, *image_counter as int);
        if entry.1.len() > 0 {
            proof {
                lemma_remaining_images(sheet_images@, k as int);
                assert(forall|j: int|
                    0 <= j < entry.1@.len() ==> (#[trigger] entry.1@[j]).col >= 1
                        && entry.1@[j].row >= 1) by {
                    assert(sheet_images@[k as int].1@ == entry.1@);
                }
            }
            match process_one_sheet(parts, image_counter, &entry.0, &entry.1) {
                Ok(()) => {},
                Err(e) => {
                    return Err(e);
                },
            }
            proof {
                assert(sheets_images_view(sheet_images@)[k as int] == (entry.0@, entry.1@));
                assert(spec_images_fold(pre.0, pre.1, sheets_images_view(sheet_images@), k as int)
                    == spec_images_fold(
                    parts@,
                    *image_counter as int,
                    sheets_images_view(sheet_images@),
                    k as int + 1,
                ));
            }
        } else {
            proof {
                assert(sheets_images_view(sheet_images@)[k as int] == (entry.0@, entry.1@));
                lemma_remaining_images(sheet_images@, k as int);
            }
        }
        k = k + 1;
    }
    let ct_path = lit_bytes("[Content_Types].xml");
    match parts.get_copy(ct_path.as_slice()) {
        Option::Some(ct) => {
            let ext = lit_bytes("Extension=\"png\"");
            let ct1: Vec<u8>;
            if crate::scan::contains(ct.as_slice(), ext.as_slice()) {
                ct1 = ct;
            } else {
                let from = lit_bytes("</Types>");
                let to = lit_bytes(
                    "  <Default Extension=\"png\" ContentType=\"image/png\"/>\n</Types>",
                );
                ct1 = replace_all(ct.as_slice(), from.as_slice(), to.as_slice());
            }
            let ghost ct1v = ct1@;
            let mut ct_cur = ct1;
            let mut k2: usize = 0;
            while k2 < nlist
                invariant
                    nlist == sheet_images@.len(),
                    0 <= k2 <= nlist,
                    spec_ct_overrides(ct1v, sheets_images_view(sheet_images@), 0)
                        == spec_ct_overrides(
                        ct_cur@,
                        sheets_images_view(sheet_images@),
                        k2 as int,
                    ),
                decreases nlist - k2,
            {
                proof {
                    drawings_strlit_facts();
                }
                let entry = &sheet_images[k2];
                let ghost prev = ct_cur@;
                if entry.1.len() > 0 {
                    let n = match crate::sheet_ops::sheet_num(entry.0.as_slice()) {
                        Option::Some(n) => n,
                        Option::None => 1,
                    };
                    let num = format_u32(n);
                    let mut pn = lit_bytes("/xl/drawings/drawing");
                    append_bytes(&mut pn, num.as_slice());
                    let pns = lit_bytes(".xml");
                    append_bytes(&mut pn, pns.as_slice());
                    proof {
                        assert(pn@ =~= lit("/xl/drawings/drawing") + spec_u32_numeral(n as int)
                            + lit(".xml"));
                    }
                    if !crate::scan::contains(ct_cur.as_slice(), pn.as_slice()) {
                        let from = lit_bytes("</Types>");
                        let mut to = lit_bytes("  <Override PartName=\"");
                        append_bytes(&mut to, pn.as_slice());
                        let tos = lit_bytes(
                            "\" ContentType=\"application/vnd.openxmlformats-officedocument.drawing+xml\"/>\n</Types>",
                        );
                        append_bytes(&mut to, tos.as_slice());
                        let nw = replace_all(ct_cur.as_slice(), from.as_slice(), to.as_slice());
                        ct_cur = nw;
                    }
                    proof {
                        assert(sheets_images_view(sheet_images@)[k2 as int] == (
                            entry.0@,
                            entry.1@,
                        ));
                        assert(n as int == spec_sheet_num_or_1(entry.0@));
                        assert(spec_ct_overrides(
                            prev,
                            sheets_images_view(sheet_images@),
                            k2 as int,
                        ) == spec_ct_overrides(
                            ct_cur@,
                            sheets_images_view(sheet_images@),
                            k2 as int + 1,
                        ));
                    }
                } else {
                    proof {
                        assert(sheets_images_view(sheet_images@)[k2 as int] == (
                            entry.0@,
                            entry.1@,
                        ));
                    }
                }
                k2 = k2 + 1;
            }
            let mut nm: Vec<u8> = Vec::new();
            append_bytes(&mut nm, ct_path.as_slice());
            parts.set(nm, ct_cur);
        },
        Option::None => {},
    }
    Ok(())
}


/// The image pass of one sheet with records.
#[verifier::rlimit(100)]
fn process_one_sheet(
    parts: &mut PartBundle,
    image_counter: &mut u32,
    path: &Vec<u8>,
    imgs: &Vec<ImageInfo>,
) -> (r: Result<(), XlsxError>)
    requires
        imgs@.len() > 0,
        *old(image_counter) + imgs@.len() <= u32::MAX,
        forall|j: int| 0 <= j < imgs@.len() ==> (#[trigger] imgs@[j]).col >= 1 && imgs@[j].row
            >= 1,
    ensures
        r is Ok ==> {
            &&& spec_sheet_images(old(parts)@, *old(image_counter) as int, path@, imgs@)
                matches Some(t)
            &&& {
                let t = spec_sheet_images(
                    old(parts)@,
                    *old(image_counter) as int,
                    path@,
                    imgs@,
                ).unwrap();
                final(parts)@ == t.0 && *final(image_counter) as int == t.1
            }
        },
        r is Err ==> spec_sheet_images(
            old(parts)@,
            *old(image_counter) as int,
            path@,
            imgs@,
        ) is None,
        *final(image_counter) >= *old(image_counter),
        *final(image_counter) <= *old(image_counter) + imgs@.len(),
{
    proof {
        drawings_strlit_facts();
    }
    let n = match crate::sheet_ops::sheet_num(path.as_slice()) {
        Option::Some(n) => n,
        Option::None => 1,
    };
    proof {
        assert(n as int == spec_sheet_num_or_1(path@));
    }
    let num = format_u32(n);
    let dxml = match generate_drawing_xml(imgs.as_slice(), image_counter) {
        Ok(x) => x,
        Err(e) => {
            return Err(e);
        },
    };
    let mut dp = lit_bytes("xl/drawings/drawing");
    append_bytes(&mut dp, num.as_slice());
    let dps = lit_bytes(".xml");
    append_bytes(&mut dp, dps.as_slice());
    proof {
        assert(dp@ =~= spec_drawing_path(n as int));
    }
    parts.set(dp, dxml);
    let drels = generate_drawing_rels(imgs.as_slice());
    let mut drp = lit_bytes("xl/drawings/_rels/drawing");
    append_bytes(&mut drp, num.as_slice());
    let drps = lit_bytes(".xml.rels");
    append_bytes(&mut drp, drps.as_slice());
    proof {
        assert(drp@ =~= spec_drawing_rels_path(n as int));
    }
    parts.set(drp, drels);
    let srels = generate_sheet_rels(n);
    let mut srp = lit_bytes("xl/worksheets/_rels/sheet");
    append_bytes(&mut srp, num.as_slice());
    let srps = lit_bytes(".xml.rels");
    append_bytes(&mut srp, srps.as_slice());
    proof {
        assert(srp@ =~= spec_ws_rels_path(n as int));
    }
    parts.set(srp, srels);
    match parts.get_copy(path.as_slice()) {
        Option::Some(data) => {
            let dr = lit_bytes("<drawing");
            let patched: Vec<u8>;
            if crate::scan::contains(data.as_slice(), dr.as_slice()) {
                patched = data;
            } else {
                let from = lit_bytes("</worksheet>");
                let to = lit_bytes("  <drawing r:id=\"rId1\" />\n</worksheet>");
                patched = replace_all(data.as_slice(), from.as_slice(), to.as_slice());
            }
            proof {
                assert(patched@ == spec_patch_sheet(spec_get_part(parts@, path@).unwrap()));
            }
            let mut nm: Vec<u8> = Vec::new();
            append_bytes(&mut nm, path.as_slice());
            parts.set(nm, patched);
        },
        Option::None => {},
    }
    match store_media(parts, imgs) {
        Ok(()) => {},
        Err(e) => {
            return Err(e);
        },
    }
    Ok(())
}


/// Decodes and stores the media parts of one sheet's images.
fn store_media(parts: &mut PartBundle, imgs: &Vec<ImageInfo>) -> (r: Result<(), XlsxError>)
    ensures
        r is Ok ==> {
            &&& spec_media_fold(old(parts)@, imgs@, 0) matches Some(b)
            &&& final(parts)@ == spec_media_fold(old(parts)@, imgs@, 0).unwrap()
        },
        r is Err ==> spec_media_fold(old(parts)@, imgs@, 0) is None,
{
    let nimgs = imgs.len();
    let ghost media_base = parts@;
    let mut j: usize = 0;
    while j < nimgs
        invariant
            nimgs == imgs@.len(),
            0 <= j <= nimgs,
            media_base == old(parts)@,
            spec_media_fold(media_base, imgs@, 0) == spec_media_fold(parts@, imgs@, j as int),
        decreases nimgs - j,
    {
        proof {
            drawings_strlit_facts();
        }
        let img = &imgs[j];
        let ghost prej = parts@;
        let bytes = match base64_decode(img.base64_data.as_slice()) {
            Option::Some(b) => b,
            Option::None => {
                return Err(
                    XlsxError::TemplateRenderError(
                        String::from_str("Failed to decode base64 image"),
                    ),
                );
            },
        };
        let mut mp = lit_bytes("xl/media/");
        append_bytes(&mut mp, img.rid.as_slice());
        let mps = lit_bytes(".png");
        append_bytes(&mut mp, mps.as_slice());
        proof {
            assert(mp@ =~= spec_media_path(img.rid@));
        }
        parts.set(mp, bytes);
        proof {
            assert(spec_media_fold(prej, imgs@, j as int) == spec_media_fold(
                parts@,
                imgs@,
                j as int + 1,
            ));
        }
        j = j + 1;
    }
    Ok(())
}

/// The number of images at or after sheet `k`.
pub open spec fn remaining_images(v: Seq<(Vec<u8>, Vec<ImageInfo>)>, k: int) -> int
    decreases v.len() - k,
{
    if k < 0 || k >= v.len() {
        0
    } else {
        v[k].1@.len() + remaining_images(v, k + 1)
    }
}

pub open spec fn total_images(v: Seq<(Vec<u8>, Vec<ImageInfo>)>) -> int {
    remaining_images(v, 0)
}

proof fn lemma_remaining_images(v: Seq<(Vec<u8>, Vec<ImageInfo>)>, k: int)
    requires
        0 <= k < v.len(),
    ensures
        remaining_images(v, k) == v[k].1@.len() + remaining_images(v, k + 1),
        remaining_images(v, k + 1) >= 0,
    decreases v.len() - k,
{
    lemma_remaining_nonneg(v, k + 1);
}

proof fn lemma_remaining_nonneg(v: Seq<(Vec<u8>, Vec<ImageInfo>)>, k: int)
    ensures
        remaining_images(v, k) >= 0,
    decreases v.len() - k,
{
    if 0 <= k < v.len() {
        lemma_remaining_nonneg(v, k + 1);
    }
}

proof fn drawings_strlit_facts()
    ensures
        lit("</Types>").len() == 8,
        lit("</worksheet>").len() == 12,
        lit("xl/media/").len() == 9,
        lit(".png").len() == 4,
        lit("<drawing").len() == 8,
{
    reveal_strlit("</Types>");
    reveal_strlit("</worksheet>");
    reveal_strlit("xl/media/");
    reveal_strlit(".png");
    reveal_strlit("<drawing");
    lemma_ascii_lit_len("</Types>", 8);
    lemma_ascii_lit_len("</worksheet>", 12);
    lemma_ascii_lit_len("xl/media/", 9);
    lemma_ascii_lit_len(".png", 4);
    lemma_ascii_lit_len("<drawing", 8);
}


/// Media storage keeps every part that was already present.
proof fn lemma_media_fold_preserves(
    bundle: Seq<(Seq<u8>, Seq<u8>)>,
    imgs: Seq<ImageInfo>,
    k: int,
    present: Seq<u8>,
)
    requires
        spec_get_part(bundle, present) is Some,
        spec_media_fold(bundle, imgs, k) is Some,
    ensures
        spec_get_part(spec_media_fold(bundle, imgs, k).unwrap(), present) is Some,
    decreases imgs.len() - k,
{
    if 0 <= k < imgs.len() {
        match spec_base64_decode(imgs[k].base64_data@) {
            Option::Some(bytes) => {
                crate::bundle::lemma_set_preserves_part(
                    bundle,
                    present,
                    spec_media_path(imgs[k].rid@),
                    bytes,
                );
                lemma_media_fold_preserves(
                    spec_set_part(bundle, spec_media_path(imgs[k].rid@), bytes),
                    imgs,
                    k + 1,
                    present,
                );
            },
            Option::None => (),
        }
    }
}

/// One sheet's image pass keeps every part that was already present, and
/// leaves its own drawing part present.
proof fn lemma_sheet_images_parts(
    bundle: Seq<(Seq<u8>, Seq<u8>)>,
    counter: int,
    path: Seq<u8>,
    imgs: Seq<ImageInfo>,
    present: Seq<u8>,
)
    requires
        spec_sheet_images(bundle, counter, path, imgs) is Some,
    ensures
        spec_get_part(bundle, present) is Some ==> spec_get_part(
            spec_sheet_images(bundle, counter, path, imgs).unwrap().0,
            present,
        ) is Some,
        spec_get_part(
            spec_sheet_images(bundle, counter, path, imgs).unwrap().0,
            spec_drawing_path(spec_sheet_num_or_1(path)),
        ) is Some,
{
    let n = spec_sheet_num_or_1(path);
    match spec_drawing_xml(imgs, counter) {
        Option::None => (),
        Option::Some((dxml, _)) => {
            let b1 = spec_set_part(bundle, spec_drawing_path(n), dxml);
            let b2 = spec_set_part(b1, spec_drawing_rels_path(n), spec_drawing_rels(imgs));
            let b3 = spec_set_part(b2, spec_ws_rels_path(n), spec_sheet_rels(n));
            let b4 = match spec_get_part(b3, path) {
                Option::Some(data) => spec_set_part(b3, path, spec_patch_sheet(data)),
                Option::None => b3,
            };
            crate::bundle::lemma_set_makes_part(bundle, spec_drawing_path(n), dxml);
            if spec_get_part(bundle, present) is Some {
                crate::bundle::lemma_set_preserves_part(bundle, present, spec_drawing_path(n), dxml);
            }
            crate::bundle::lemma_set_preserves_part(
                b1,
                spec_drawing_path(n),
                spec_drawing_rels_path(n),
                spec_drawing_rels(imgs),
            );
            if spec_get_part(b1, present) is Some {
                crate::bundle::lemma_set_preserves_part(
                    b1,
                    present,
                    spec_drawing_rels_path(n),
                    spec_drawing_rels(imgs),
                );
            }
            crate::bundle::lemma_set_preserves_part(
                b2,
                spec_drawing_path(n),
                spec_ws_rels_path(n),
                spec_sheet_rels(n),
            );
            if spec_get_part(b2, present) is Some {
                crate::bundle::lemma_set_preserves_part(
                    b2,
                    present,
                    spec_ws_rels_path(n),
                    spec_sheet_rels(n),
                );
            }
            match spec_get_part(b3, path) {
                Option::Some(data) => {
                    crate::bundle::lemma_set_preserves_part(
                        b3,
                        spec_drawing_path(n),
                        path,
                        spec_patch_sheet(data),
                    );
                    if spec_get_part(b3, present) is Some {
                        crate::bundle::lemma_set_preserves_part(
                            b3,
                            present,
                            path,
                            spec_patch_sheet(data),
                        );
                    }
                },
                Option::None => (),
            }
            lemma_media_fold_preserves(b4, imgs, 0, spec_drawing_path(n));
            if spec_get_part(b4, present) is Some {
                lemma_media_fold_preserves(b4, imgs, 0, present);
            }
        },
    }
}

/// Manifest closure for the image pass: when the pass succeeds, the
/// drawing part of every sheet with images exists in the folded bundle —
/// the part that each added `Override` names is really there, and the
/// `png` Default is introduced exactly alongside the stored `.png` media
/// parts.
pub proof fn lemma_images_manifest_closure(
    bundle: Seq<(Seq<u8>, Seq<u8>)>,
    counter: int,
    list: Seq<(Seq<u8>, Seq<ImageInfo>)>,
    k: int,
)
    requires
        0 <= k,
        spec_images_fold(bundle, counter, list, k) is Some,
    ensures
        forall|j: int|
            k <= j < list.len() && (#[trigger] list[j]).1.len() > 0 ==> spec_get_part(
                spec_images_fold(bundle, counter, list, k).unwrap().0,
                spec_drawing_path(spec_sheet_num_or_1(list[j].0)),
            ) is Some,
    decreases list.len() - k,
{
    if 0 <= k < list.len() {
        if list[k].1.len() == 0 {
            lemma_images_manifest_closure(bundle, counter, list, k + 1);
        } else {
            match spec_sheet_images(bundle, counter, list[k].0, list[k].1) {
                Option::None => (),
                Option::Some((b2, c2)) => {
                    lemma_sheet_images_parts(
                        bundle,
                        counter,
                        list[k].0,
                        list[k].1,
                        list[k].0,
                    );
                    lemma_images_manifest_closure(b2, c2, list, k + 1);
                    lemma_fold_preserves(
                        b2,
                        c2,
                        list,
                        k + 1,
                        spec_drawing_path(spec_sheet_num_or_1(list[k].0)),
                    );
                    assert(spec_images_fold(bundle, counter, list, k).unwrap()
                        == spec_images_fold(b2, c2, list, k + 1).unwrap());
                    assert(spec_get_part(
                        spec_images_fold(bundle, counter, list, k).unwrap().0,
                        spec_drawing_path(spec_sheet_num_or_1(list[k].0)),
                    ) is Some);
                },
            }
        }
    }
}

/// The whole fold keeps every part that was already present.
proof fn lemma_fold_preserves(
    bundle: Seq<(Seq<u8>, Seq<u8>)>,
    counter: int,
    list: Seq<(Seq<u8>, Seq<ImageInfo>)>,
    k: int,
    present: Seq<u8>,
)
    requires
        spec_get_part(bundle, present) is Some,
        spec_images_fold(bundle, counter, list, k) is Some,
    ensures
        spec_get_part(spec_images_fold(bundle, counter, list, k).unwrap().0, present) is Some,
    decreases list.len() - k,
{
    if 0 <= k < list.len() {
        if list[k].1.len() == 0 {
            lemma_fold_preserves(bundle, counter, list, k + 1, present);
        } else {
            match spec_sheet_images(bundle, counter, list[k].0, list[k].1) {
                Option::None => (),
                Option::Some((b2, c2)) => {
                    lemma_sheet_images_parts(bundle, counter, list[k].0, list[k].1, present);
                    lemma_fold_preserves(b2, c2, list, k + 1, present);
                },
            }
        }
    }
}

} // verus!
