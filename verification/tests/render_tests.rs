//! End-to-end scenarios: a template workbook is built, rendered against a
//! data context with a Handlebars engine wired to the library's helper
//! state, and the resulting archive is inspected.

use std::io::{Read, Write};
use std::sync::{Arc, Mutex};

use handlebars::{Context, Handlebars, Helper, HelperResult, Output, RenderContext};
use xlsx_handlebars::errors::XlsxError;
use xlsx_handlebars::helpers::{CrCol, ImageInfo, RenderState};

fn text(bytes: Vec<u8>) -> String {
    String::from_utf8(bytes).unwrap()
}

fn param_u32(h: &Helper, i: usize) -> Option<u32> {
    h.param(i).and_then(|v| v.value().as_u64()).map(|v| v as u32)
}

fn register_helpers(hb: &mut Handlebars, st: Arc<Mutex<RenderState>>) {
    let s = st.clone();
    hb.register_helper(
        "row_offset_plus",
        Box::new(
        move |h: &Helper, _: &Handlebars, _: &Context, _: &mut RenderContext, _: &mut dyn Output| -> HelperResult {
            if let Some(n) = param_u32(h, 0) {
                s.lock().unwrap().row_offset_plus(n);
            }
            Ok(())
        }),
    );
    let s = st.clone();
    hb.register_helper(
        "row_offset_reset",
        Box::new(
        move |_: &Helper, _: &Handlebars, _: &Context, _: &mut RenderContext, _: &mut dyn Output| -> HelperResult {
            s.lock().unwrap().row_offset_reset();
            Ok(())
        }),
    );
    let s = st.clone();
    hb.register_helper(
        "get_row_offset",
        Box::new(
        move |_: &Helper, _: &Handlebars, _: &Context, _: &mut RenderContext, out: &mut dyn Output| -> HelperResult {
            out.write(&text(s.lock().unwrap().get_row_offset()))?;
            Ok(())
        }),
    );
    let s = st.clone();
    hb.register_helper(
        "set_row_inline",
        Box::new(
        move |h: &Helper, _: &Handlebars, _: &Context, _: &mut RenderContext, _: &mut dyn Output| -> HelperResult {
            if let Some(n) = param_u32(h, 0) {
                s.lock().unwrap().set_row_inline(n);
            }
            Ok(())
        }),
    );
    let s = st.clone();
    hb.register_helper(
        "_r",
        Box::new(
        move |_: &Helper, _: &Handlebars, _: &Context, _: &mut RenderContext, out: &mut dyn Output| -> HelperResult {
            out.write(&text(s.lock().unwrap().helper_r()))?;
            Ok(())
        }),
    );
    let s = st.clone();
    hb.register_helper(
        "col_offset_plus",
        Box::new(
        move |h: &Helper, _: &Handlebars, _: &Context, _: &mut RenderContext, _: &mut dyn Output| -> HelperResult {
            if let Some(n) = param_u32(h, 0) {
                s.lock().unwrap().col_offset_plus(n);
            }
            Ok(())
        }),
    );
    let s = st.clone();
    hb.register_helper(
        "col_offset_reset",
        Box::new(
        move |_: &Helper, _: &Handlebars, _: &Context, _: &mut RenderContext, out: &mut dyn Output| -> HelperResult {
            s.lock().unwrap().col_offset_reset();
            out.write("")?;
            Ok(())
        }),
    );
    let s = st.clone();
    hb.register_helper(
        "set_col_inline",
        Box::new(
        move |h: &Helper, _: &Handlebars, _: &Context, _: &mut RenderContext, _: &mut dyn Output| -> HelperResult {
            if let Some(n) = param_u32(h, 0) {
                s.lock().unwrap().set_col_inline(n);
            }
            Ok(())
        }),
    );
    let s = st.clone();
    hb.register_helper(
        "_c",
        Box::new(
        move |_: &Helper, _: &Handlebars, _: &Context, _: &mut RenderContext, out: &mut dyn Output| -> HelperResult {
            out.write(&text(s.lock().unwrap().helper_c()))?;
            Ok(())
        }),
    );
    let s = st.clone();
    hb.register_helper(
        "_cr",
        Box::new(
        move |h: &Helper, _: &Handlebars, _: &Context, _: &mut RenderContext, out: &mut dyn Output| -> HelperResult {
            let col = match h.param(0) {
                None => CrCol::Absent,
                Some(p) => {
                    if let Some(sv) = p.value().as_str() {
                        CrCol::Letters(sv.as_bytes().to_vec())
                    } else if let Some(n) = p.value().as_u64() {
                        CrCol::Number(n as u32)
                    } else {
                        CrCol::Other
                    }
                },
            };
            let row = param_u32(h, 1);
            out.write(&text(s.lock().unwrap().helper_cr(col, row)))?;
            Ok(())
        }),
    );
    let s = st.clone();
    hb.register_helper(
        "removeRow",
        Box::new(
        move |_: &Helper, _: &Handlebars, _: &Context, _: &mut RenderContext, out: &mut dyn Output| -> HelperResult {
            out.write(&text(s.lock().unwrap().remove_row()))?;
            Ok(())
        }),
    );
    hb.register_helper(
        "num",
        Box::new(
        move |h: &Helper, _: &Handlebars, _: &Context, _: &mut RenderContext, out: &mut dyn Output| -> HelperResult {
            out.write(&text(xlsx_handlebars::helpers::to_number_key()))?;
            match h.param(0) {
                Some(p) if p.value().is_number() => out.write(&p.value().to_string())?,
                Some(p) if p.value().is_string() => {
                    let sv = p.value().as_str().unwrap();
                    match sv.parse::<f64>() {
                        Ok(n) => out.write(&n.to_string())?,
                        Err(_) => out.write("0")?,
                    }
                },
                _ => out.write("0")?,
            }
            Ok(())
        }),
    );
    hb.register_helper(
        "formula",
        Box::new(
        move |h: &Helper, _: &Handlebars, _: &Context, _: &mut RenderContext, out: &mut dyn Output| -> HelperResult {
            out.write(&text(xlsx_handlebars::helpers::to_formula_key()))?;
            if let Some(p) = h.param(0) {
                if let Some(sv) = p.value().as_str() {
                    out.write(sv)?;
                }
            }
            Ok(())
        }),
    );
    hb.register_helper(
        "concat",
        Box::new(
        move |h: &Helper, _: &Handlebars, _: &Context, _: &mut RenderContext, out: &mut dyn Output| -> HelperResult {
            let mut result = String::new();
            for p in h.params() {
                let v = p.value();
                if let Some(sv) = v.as_str() {
                    result.push_str(sv);
                } else if !v.is_null() {
                    result.push_str(&v.to_string());
                }
            }
            out.write(&result)?;
            Ok(())
        }),
    );
    let s = st.clone();
    hb.register_helper(
        "mergeCell",
        Box::new(
        move |h: &Helper, _: &Handlebars, _: &Context, _: &mut RenderContext, _: &mut dyn Output| -> HelperResult {
            if let Some(rv) = h.param(0).and_then(|v| v.value().as_str()) {
                s.lock().unwrap().merge_cell(rv.as_bytes());
            }
            Ok(())
        }),
    );
    let s = st.clone();
    hb.register_helper(
        "hyperlink",
        Box::new(
        move |h: &Helper, _: &Handlebars, _: &Context, _: &mut RenderContext, _: &mut dyn Output| -> HelperResult {
            let rc = h.param(0).and_then(|v| v.value().as_str()).unwrap_or("");
            let loc = h.param(1).and_then(|v| v.value().as_str()).unwrap_or("");
            let disp = h.param(2).and_then(|v| v.value().as_str()).unwrap_or("");
            s.lock().unwrap().hyperlink(rc.as_bytes(), loc.as_bytes(), disp.as_bytes());
            Ok(())
        }),
    );
    let s = st.clone();
    hb.register_helper(
        "img",
        Box::new(
        move |h: &Helper, _: &Handlebars, _: &Context, _: &mut RenderContext, _: &mut dyn Output| -> HelperResult {
            let data = h.param(0).and_then(|v| v.value().as_str()).unwrap_or("");
            let w = param_u32(h, 1);
            let hh = param_u32(h, 2);
            s.lock().unwrap().img(data.as_bytes(), w, hh);
            Ok(())
        }),
    );
    let s = st.clone();
    hb.register_helper(
        "deleteCurrentSheet",
        Box::new(
        move |_: &Helper, _: &Handlebars, _: &Context, _: &mut RenderContext, _: &mut dyn Output| -> HelperResult {
            s.lock().unwrap().delete_current_sheet();
            Ok(())
        }),
    );
    let s = st.clone();
    hb.register_helper(
        "setCurrentSheetName",
        Box::new(
        move |h: &Helper, _: &Handlebars, _: &Context, _: &mut RenderContext, _: &mut dyn Output| -> HelperResult {
            if let Some(n) = h.param(0).and_then(|v| v.value().as_str()) {
                s.lock().unwrap().set_current_sheet_name(n.as_bytes());
            }
            Ok(())
        }),
    );
    let s = st.clone();
    hb.register_helper(
        "hideCurrentSheet",
        Box::new(
        move |h: &Helper, _: &Handlebars, _: &Context, _: &mut RenderContext, _: &mut dyn Output| -> HelperResult {
            let kind = h.param(0).and_then(|v| v.value().as_str()).map(|k| k.as_bytes().to_vec());
            s.lock().unwrap().hide_current_sheet(kind.as_ref());
            Ok(())
        }),
    );
}

/// Renders a template archive against a data context: the unverified
/// engine loop around the library's verified pipeline steps.
fn render_workbook(zip_bytes: Vec<u8>, data: &serde_json::Value) -> Result<Vec<u8>, XlsxError> {
    let mut parts = xlsx_handlebars::zipio::unpack_xlsx(zip_bytes)?;
    let shared = xlsx_handlebars::render::take_shared_strings(&mut parts);
    let paths = xlsx_handlebars::render::sheet_paths(&parts);

    let state = Arc::new(Mutex::new(RenderState::new()));
    let mut hb = Handlebars::new();
    hb.set_strict_mode(false);
    register_helpers(&mut hb, state.clone());

    let rm = xlsx_handlebars::helpers::remove_row_key();
    let num_key = xlsx_handlebars::helpers::to_number_key();
    let fm = xlsx_handlebars::helpers::to_formula_key();

    let mut sheet_images: Vec<(Vec<u8>, Vec<ImageInfo>)> = Vec::new();
    for path in &paths {
        state.lock().unwrap().current_sheet = path.clone();
        let xml = parts.get_copy(path).expect("listed sheet exists");
        let prepared = xlsx_handlebars::render::prepare_sheet(&xml, &shared);
        let template = String::from_utf8(prepared)
            .map_err(|e| XlsxError::TemplateRenderError(e.to_string()))?;
        let rendered = hb
            .render_template(&template, data)
            .map_err(|e| XlsxError::TemplateRenderError(e.to_string()))?;
        let (merges, links, images) = {
            let mut st = state.lock().unwrap();
            (
                std::mem::take(&mut st.merge_cells),
                std::mem::take(&mut st.hyperlinks),
                std::mem::take(&mut st.images),
            )
        };
        let sorted = xlsx_handlebars::postprocess::sort_dedup(&merges);
        let with_uids = xlsx_handlebars::postprocess::attach_link_uids(&links);
        let done = xlsx_handlebars::postprocess::post_process_xml(
            rendered.as_bytes(),
            &rm,
            &num_key,
            &fm,
            &sorted,
            &with_uids,
        );
        parts.set(path.clone(), done);
        if !images.is_empty() {
            sheet_images.push((path.clone(), images));
        }
    }

    if !sheet_images.is_empty() {
        let mut counter: u32 = 1;
        xlsx_handlebars::drawings::process_images(&mut parts, &sheet_images, &mut counter)?;
    }
    let (deletes, renames, hides) = {
        let mut st = state.lock().unwrap();
        (
            std::mem::take(&mut st.sheets_to_delete),
            std::mem::take(&mut st.sheets_to_rename),
            std::mem::take(&mut st.sheets_to_hide),
        )
    };
    xlsx_handlebars::sheet_ops::delete_sheets(&mut parts, &deletes)?;
    xlsx_handlebars::sheet_ops::rename_sheets(&mut parts, &renames)?;
    xlsx_handlebars::sheet_ops::hide_sheets(&mut parts, &hides)?;

    xlsx_handlebars::zipio::pack_xlsx(&parts)
}

const CONTENT_TYPES: &str = r#"<?xml version="1.0" encoding="UTF-8" standalone="yes"?>
<Types xmlns="http://schemas.openxmlformats.org/package/2006/content-types">
  <Default Extension="rels" ContentType="application/vnd.openxmlformats-package.relationships+xml"/>
  <Default Extension="xml" ContentType="application/xml"/>
  <Override PartName="/xl/workbook.xml" ContentType="application/vnd.openxmlformats-officedocument.spreadsheetml.sheet.main+xml"/>
  <Override PartName="/xl/worksheets/sheet1.xml" ContentType="application/vnd.openxmlformats-officedocument.spreadsheetml.worksheet+xml"/>
</Types>"#;

const WORKBOOK: &str = r#"<?xml version="1.0" encoding="UTF-8" standalone="yes"?>
<workbook xmlns="http://schemas.openxmlformats.org/spreadsheetml/2006/main" xmlns:r="http://schemas.openxmlformats.org/officeDocument/2006/relationships">
  <sheets>
    <sheet name="Sheet1" sheetId="1" r:id="rId1"/>
  </sheets>
</workbook>"#;

const WORKBOOK_RELS: &str = r#"<?xml version="1.0" encoding="UTF-8" standalone="yes"?>
<Relationships xmlns="http://schemas.openxmlformats.org/package/2006/relationships">
  <Relationship Id="rId1" Type="http://schemas.openxmlformats.org/officeDocument/2006/relationships/worksheet" Target="worksheets/sheet1.xml"/>
</Relationships>"#;

fn build_xlsx(sheet1: &str, shared_strings: Option<&str>) -> Vec<u8> {
    let mut w = zip::ZipWriter::new(std::io::Cursor::new(Vec::new()));
    let opt = zip::write::SimpleFileOptions::default();
    w.start_file("[Content_Types].xml", opt).unwrap();
    w.write_all(CONTENT_TYPES.as_bytes()).unwrap();
    w.start_file("xl/workbook.xml", opt).unwrap();
    w.write_all(WORKBOOK.as_bytes()).unwrap();
    w.start_file("xl/_rels/workbook.xml.rels", opt).unwrap();
    w.write_all(WORKBOOK_RELS.as_bytes()).unwrap();
    w.start_file("xl/worksheets/sheet1.xml", opt).unwrap();
    w.write_all(sheet1.as_bytes()).unwrap();
    if let Some(ss) = shared_strings {
        w.start_file("xl/sharedStrings.xml", opt).unwrap();
        w.write_all(ss.as_bytes()).unwrap();
    }
    w.finish().unwrap().into_inner()
}

fn read_part(archive_bytes: &[u8], name: &str) -> Option<String> {
    let mut a = zip::ZipArchive::new(std::io::Cursor::new(archive_bytes.to_vec())).unwrap();
    let mut f = match a.by_name(name) {
        Ok(f) => f,
        Err(_) => return None,
    };
    let mut s = String::new();
    f.read_to_string(&mut s).unwrap();
    Some(s)
}

#[test]
fn trivial_substitution() {
    let sheet = r#"<?xml version="1.0" encoding="UTF-8" standalone="yes"?>
<worksheet xmlns="http://schemas.openxmlformats.org/spreadsheetml/2006/main"><sheetData><row r="1"><c r="A1" t="s"><v>0</v></c></row></sheetData><pageMargins left="0.7"/></worksheet>"#;
    let shared = r#"<?xml version="1.0" encoding="UTF-8" standalone="yes"?>
<sst xmlns="http://schemas.openxmlformats.org/spreadsheetml/2006/main" count="1" uniqueCount="1"><si><t>Hello {{name}}</t></si></sst>"#;
    let template = build_xlsx(sheet, Some(shared));
    let data: serde_json::Value = serde_json::from_str(r#"{"name":"World"}"#).unwrap();
    let out = render_workbook(template, &data).unwrap();
    let sheet_out = read_part(&out, "xl/worksheets/sheet1.xml").unwrap();
    assert!(sheet_out.contains(r#"<c r="A1" t="inlineStr"><is><t>Hello World</t></is></c>"#));
    let sst_out = read_part(&out, "xl/sharedStrings.xml").unwrap();
    assert!(sst_out.contains(r#"count="0" uniqueCount="0""#));
    assert!(read_part(&out, "xl/drawings/drawing1.xml").is_none());
}

#[test]
fn number_coercion() {
    let sheet = r#"<worksheet><sheetData><row r="2"><c r="B2" t="s"><v>0</v></c></row></sheetData><pageMargins left="0.7"/></worksheet>"#;
    let shared = r#"<sst count="1" uniqueCount="1"><si><t>{{num price}}</t></si></sst>"#;
    let template = build_xlsx(sheet, Some(shared));
    let data: serde_json::Value = serde_json::from_str(r#"{"price":"42.5"}"#).unwrap();
    let out = render_workbook(template, &data).unwrap();
    let sheet_out = read_part(&out, "xl/worksheets/sheet1.xml").unwrap();
    assert!(sheet_out.contains(r#"<c r="B2"><v>42.5</v></c>"#));
    assert!(!sheet_out.contains("t=\"inlineStr\""));
}

#[test]
fn formula_emission() {
    let sheet = r#"<worksheet><sheetData><row r="3"><c r="C3" t="s"><v>0</v></c></row></sheetData><pageMargins left="0.7"/></worksheet>"#;
    let shared = r#"<sst count="1" uniqueCount="1"><si><t>{{formula (concat "=SUM(A" (_r) ":B" (_r) ")")}}</t></si></sst>"#;
    let template = build_xlsx(sheet, Some(shared));
    let data: serde_json::Value = serde_json::from_str("{}").unwrap();
    let out = render_workbook(template, &data).unwrap();
    let sheet_out = read_part(&out, "xl/worksheets/sheet1.xml").unwrap();
    assert!(sheet_out.contains(r#"<c r="C3"><f>=SUM(A3:B3)</f></c>"#));
}

#[test]
fn sheet_delete_guard() {
    let sheet = r#"<worksheet><sheetData><row r="1"><c r="A1" t="s"><v>0</v></c></row></sheetData><pageMargins left="0.7"/></worksheet>"#;
    let shared = r#"<sst count="1" uniqueCount="1"><si><t>{{deleteCurrentSheet}}</t></si></sst>"#;
    let template = build_xlsx(sheet, Some(shared));
    let data: serde_json::Value = serde_json::from_str("{}").unwrap();
    let out = render_workbook(template, &data);
    assert!(out.is_err());
    match out {
        Err(XlsxError::TemplateRenderError(_)) => {},
        _ => panic!("deleting the only sheet must fail the render"),
    }
}

#[test]
fn image_insertion() {
    // A PNG header declaring a 2 by 2 image; the dimension detector reads
    // only the header.
    let mut png = vec![0x89u8, b'P', b'N', b'G', 0x0d, 0x0a, 0x1a, 0x0a];
    png.extend_from_slice(&[0, 0, 0, 13]);
    png.extend_from_slice(b"IHDR");
    png.extend_from_slice(&[0, 0, 0, 2]);
    png.extend_from_slice(&[0, 0, 0, 2]);
    png.extend_from_slice(&[8, 6, 0, 0, 0]);
    let b64 = <base64::engine::GeneralPurpose as base64::Engine>::encode(
        &base64::engine::general_purpose::STANDARD,
        &png,
    );

    let sheet = r#"<worksheet><sheetData><row r="4"><c r="D4" t="s"><v>0</v></c></row></sheetData><pageMargins left="0.7"/></worksheet>"#;
    let shared = r#"<sst count="1" uniqueCount="1"><si><t>{{img photo.b64 100 50}}</t></si></sst>"#;
    let template = build_xlsx(sheet, Some(shared));
    let data: serde_json::Value =
        serde_json::from_str(&format!(r#"{{"photo":{{"b64":"{}"}}}}"#, b64)).unwrap();
    let out = render_workbook(template, &data).unwrap();

    let drawing = read_part(&out, "xl/drawings/drawing1.xml").unwrap();
    assert!(drawing.contains("<xdr:oneCellAnchor>"));
    assert!(drawing.contains("<xdr:col>3</xdr:col>"));
    assert!(drawing.contains("<xdr:row>3</xdr:row>"));
    assert!(drawing.contains(r#"<xdr:ext cx="952500" cy="476250"/>"#));

    let ct = read_part(&out, "[Content_Types].xml").unwrap();
    assert!(ct.contains(r#"<Default Extension="png" ContentType="image/png"/>"#));
    assert!(ct.contains(r#"<Override PartName="/xl/drawings/drawing1.xml""#));

    let sheet_out = read_part(&out, "xl/worksheets/sheet1.xml").unwrap();
    assert!(sheet_out.contains(r#"<drawing r:id="rId1" />"#));

    // The decoded payload landed under a fresh media part.
    let mut a = zip::ZipArchive::new(std::io::Cursor::new(out.clone())).unwrap();
    let names: Vec<String> = a.file_names().map(|n| n.to_string()).collect();
    let media: Vec<&String> = names.iter().filter(|n| n.starts_with("xl/media/rId")).collect();
    assert_eq!(media.len(), 1);
    let mut f = a.by_name(media[0]).unwrap();
    let mut bytes = Vec::new();
    f.read_to_end(&mut bytes).unwrap();
    assert_eq!(bytes, png);
}

#[test]
fn hide_and_rename_current_sheet() {
    let sheet = r#"<worksheet><sheetData><row r="1"><c r="A1" t="s"><v>0</v></c></row></sheetData><pageMargins left="0.7"/></worksheet>"#;
    let shared =
        r#"<sst count="1" uniqueCount="1"><si><t>{{setCurrentSheetName "Re/port"}}</t></si></sst>"#;
    let template = build_xlsx(sheet, Some(shared));
    let data: serde_json::Value = serde_json::from_str("{}").unwrap();
    let out = render_workbook(template, &data).unwrap();
    let wb = read_part(&out, "xl/workbook.xml").unwrap();
    assert!(wb.contains(r#"name="Report""#));
}

#[test]
fn row_loop() {
    // A row-axis block: the opener sits in row 5, the closer in row 6, so
    // the block body spans the row boundary and each expansion advances
    // the row offset by the block height of one.
    let sheet = r#"<worksheet><sheetData><row r="5"><c r="A5" t="s"><v>0</v></c></row><row r="6"><c r="A6" t="s"><v>1</v></c></row></sheetData><pageMargins left="0.7"/></worksheet>"#;
    let shared = r#"<sst count="2" uniqueCount="2"><si><t>{{#each items}}{{this}}</t></si><si><t>{{/each}}</t></si></sst>"#;
    let template = build_xlsx(sheet, Some(shared));
    let data: serde_json::Value = serde_json::from_str(r#"{"items":["a","b","c"]}"#).unwrap();
    let out = render_workbook(template, &data).unwrap();
    let sheet_out = read_part(&out, "xl/worksheets/sheet1.xml").unwrap();
    assert!(sheet_out.contains(r#"<c r="A5" t="inlineStr"><is><r><t>a</t></r></is></c>"#));
    assert!(sheet_out.contains(r#"<c r="A6" t="inlineStr"><is><r><t>b</t></r></is></c>"#));
    assert!(sheet_out.contains(r#"<c r="A7" t="inlineStr"><is><r><t>c</t></r></is></c>"#));
    // The closing row of the block keeps its intrinsic number plus the
    // offset of two accumulated before its final instance.
    assert!(sheet_out.contains(r#"<row r="8">"#));
}

#[test]
fn remove_row_on_empty_list() {
    // An each-block over an empty list whose else branch marks the row
    // for removal: the block region has no rows in the output and the row
    // after it keeps its intrinsic address.
    let sheet = r#"<worksheet><sheetData><row r="5"><c r="A5" t="s"><v>0</v></c></row><row r="6"><c r="A6" t="s"><v>1</v></c></row></sheetData><pageMargins left="0.7"/></worksheet>"#;
    let shared = r#"<sst count="2" uniqueCount="2"><si><t>{{#each xs}}{{this}}{{else}}{{removeRow}}{{/each}}</t></si><si><t>kept</t></si></sst>"#;
    let template = build_xlsx(sheet, Some(shared));
    let data: serde_json::Value = serde_json::from_str(r#"{"xs":[]}"#).unwrap();
    let out = render_workbook(template, &data).unwrap();
    let sheet_out = read_part(&out, "xl/worksheets/sheet1.xml").unwrap();
    assert!(!sheet_out.contains(r#"<row r="5">"#));
    assert!(sheet_out.contains(r#"<row r="6"><c r="A6" t="inlineStr"><is><t>kept</t></is></c></row>"#));
}

#[test]
fn merge_faithfulness_in_row_loop() {
    // A merge whose origin cell sits inside a row-axis block of height
    // two: each expansion records the range shifted by the block height.
    let sheet = r#"<worksheet><sheetData><row r="4"><c r="A4" t="s"><v>0</v></c></row><row r="5"><c r="A5" t="s"><v>1</v></c></row><row r="6"><c r="A6" t="s"><v>2</v></c></row></sheetData><mergeCells count="1"><mergeCell ref="A5:B5"/></mergeCells><pageMargins left="0.7"/></worksheet>"#;
    let shared = r#"<sst count="3" uniqueCount="3"><si><t>{{#each items}}</t></si><si><t>{{this}}</t></si><si><t>{{/each}}</t></si></sst>"#;
    let template = build_xlsx(sheet, Some(shared));
    let data: serde_json::Value = serde_json::from_str(r#"{"items":["a","b","c"]}"#).unwrap();
    let out = render_workbook(template, &data).unwrap();
    let sheet_out = read_part(&out, "xl/worksheets/sheet1.xml").unwrap();
    assert!(sheet_out.contains(
        r#"<mergeCells count="3"><mergeCell ref="A5:B5"/><mergeCell ref="A7:B7"/><mergeCell ref="A9:B9"/></mergeCells>"#
    ));
}

const CONTENT_TYPES_2: &str = r#"<?xml version="1.0" encoding="UTF-8" standalone="yes"?>
<Types xmlns="http://schemas.openxmlformats.org/package/2006/content-types">
  <Default Extension="rels" ContentType="application/vnd.openxmlformats-package.relationships+xml"/>
  <Default Extension="xml" ContentType="application/xml"/>
  <Override PartName="/xl/workbook.xml" ContentType="application/vnd.openxmlformats-officedocument.spreadsheetml.sheet.main+xml"/>
  <Override PartName="/xl/worksheets/sheet1.xml" ContentType="application/vnd.openxmlformats-officedocument.spreadsheetml.worksheet+xml"/>
  <Override PartName="/xl/worksheets/sheet2.xml" ContentType="application/vnd.openxmlformats-officedocument.spreadsheetml.worksheet+xml"/>
</Types>"#;

const WORKBOOK_2: &str = r#"<?xml version="1.0" encoding="UTF-8" standalone="yes"?>
<workbook xmlns="http://schemas.openxmlformats.org/spreadsheetml/2006/main" xmlns:r="http://schemas.openxmlformats.org/officeDocument/2006/relationships">
  <sheets>
    <sheet name="Sheet1" sheetId="1" r:id="rId1"/>
    <sheet name="Sheet2" sheetId="2" r:id="rId2"/>
  </sheets>
</workbook>"#;

const WORKBOOK_RELS_2: &str = r#"<?xml version="1.0" encoding="UTF-8" standalone="yes"?>
<Relationships xmlns="http://schemas.openxmlformats.org/package/2006/relationships">
  <Relationship Id="rId1" Type="http://schemas.openxmlformats.org/officeDocument/2006/relationships/worksheet" Target="worksheets/sheet1.xml"/>
  <Relationship Id="rId2" Type="http://schemas.openxmlformats.org/officeDocument/2006/relationships/worksheet" Target="worksheets/sheet2.xml"/>
</Relationships>"#;

fn build_xlsx_two_sheets(sheet1: &str, sheet2: &str, shared_strings: &str) -> Vec<u8> {
    let mut w = zip::ZipWriter::new(std::io::Cursor::new(Vec::new()));
    let opt = zip::write::SimpleFileOptions::default();
    w.start_file("[Content_Types].xml", opt).unwrap();
    w.write_all(CONTENT_TYPES_2.as_bytes()).unwrap();
    w.start_file("xl/workbook.xml", opt).unwrap();
    w.write_all(WORKBOOK_2.as_bytes()).unwrap();
    w.start_file("xl/_rels/workbook.xml.rels", opt).unwrap();
    w.write_all(WORKBOOK_RELS_2.as_bytes()).unwrap();
    w.start_file("xl/worksheets/sheet1.xml", opt).unwrap();
    w.write_all(sheet1.as_bytes()).unwrap();
    w.start_file("xl/worksheets/sheet2.xml", opt).unwrap();
    w.write_all(sheet2.as_bytes()).unwrap();
    w.start_file("xl/sharedStrings.xml", opt).unwrap();
    w.write_all(shared_strings.as_bytes()).unwrap();
    w.finish().unwrap().into_inner()
}

#[test]
fn sheet_count_after_delete() {
    // Two sheets, one delete operation: the output keeps exactly one
    // sheet, and the surviving sheet id still resolves in the
    // relationships.
    let plain = r#"<worksheet><sheetData><row r="1"><c r="A1" t="s"><v>1</v></c></row></sheetData><pageMargins left="0.7"/></worksheet>"#;
    let deleting = r#"<worksheet><sheetData><row r="1"><c r="A1" t="s"><v>0</v></c></row></sheetData><pageMargins left="0.7"/></worksheet>"#;
    let shared = r#"<sst count="2" uniqueCount="2"><si><t>{{deleteCurrentSheet}}</t></si><si><t>stays</t></si></sst>"#;
    let template = build_xlsx_two_sheets(deleting, plain, shared);
    let data: serde_json::Value = serde_json::from_str("{}").unwrap();
    let out = render_workbook(template, &data).unwrap();

    let wb = read_part(&out, "xl/workbook.xml").unwrap();
    assert_eq!(wb.matches("<sheet ").count(), 1);
    assert!(wb.contains(r#"r:id="rId2""#));
    let rels = read_part(&out, "xl/_rels/workbook.xml.rels").unwrap();
    assert!(rels.contains(r#"Id="rId2""#));
    assert!(!rels.contains(r#"Id="rId1""#));
    assert!(read_part(&out, "xl/worksheets/sheet1.xml").is_none());
    assert!(read_part(&out, "xl/worksheets/sheet2.xml").is_some());
    let ct = read_part(&out, "[Content_Types].xml").unwrap();
    assert!(!ct.contains("/xl/worksheets/sheet1.xml"));
    assert!(ct.contains("/xl/worksheets/sheet2.xml"));
}

#[test]
fn hide_current_sheet() {
    let hiding = r#"<worksheet><sheetData><row r="1"><c r="A1" t="s"><v>0</v></c></row></sheetData><pageMargins left="0.7"/></worksheet>"#;
    let plain = r#"<worksheet><sheetData><row r="1"><c r="A1" t="s"><v>1</v></c></row></sheetData><pageMargins left="0.7"/></worksheet>"#;
    let shared = r#"<sst count="2" uniqueCount="2"><si><t>{{hideCurrentSheet "veryHidden"}}</t></si><si><t>visible</t></si></sst>"#;
    let template = build_xlsx_two_sheets(hiding, plain, shared);
    let data: serde_json::Value = serde_json::from_str("{}").unwrap();
    let out = render_workbook(template, &data).unwrap();
    let wb = read_part(&out, "xl/workbook.xml").unwrap();
    assert!(wb.contains(r#"<sheet name="Sheet1" sheetId="1" r:id="rId1" state="veryHidden"/>"#));
    assert!(!wb.contains(r#"sheetId="2" r:id="rId2" state"#));
}

#[test]
fn shared_strings_stub_added_when_part_missing() {
    // A template without a shared-string part still leaves exactly one
    // emptied sst part in the output.
    let sheet = r#"<worksheet><sheetData><row r="1"><c r="A1"><v>7</v></c></row></sheetData><pageMargins left="0.7"/></worksheet>"#;
    let template = build_xlsx(sheet, None);
    let data: serde_json::Value = serde_json::from_str("{}").unwrap();
    let out = render_workbook(template, &data).unwrap();
    let sst = read_part(&out, "xl/sharedStrings.xml").unwrap();
    assert!(sst.contains(r#"count="0" uniqueCount="0""#));
}
