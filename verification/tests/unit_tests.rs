use xlsx_handlebars::dates::{excel_date_ms_to_timestamp, timestamp_to_excel_date_ms};
use xlsx_handlebars::imagesize::get_image_dimensions;
use xlsx_handlebars::helpers::RenderState;

const MS_PER_DAY: i64 = 86400000;

#[test]
fn test_excel_date_conversion_ms() {
    // 2024-01-01 00:00:00 UTC is Excel serial 45294 (with the leap-day shift).
    let timestamp_2024 = 1704067200000i64;
    let excel_ms = timestamp_to_excel_date_ms(timestamp_2024);
    assert_eq!(excel_ms, 45294 * MS_PER_DAY);

    let back = excel_date_ms_to_timestamp(excel_ms);
    assert_eq!(back, Some(timestamp_2024));

    // The Unix epoch is Excel serial 25571.
    let excel_1970 = timestamp_to_excel_date_ms(0);
    assert_eq!(excel_1970, 25571 * MS_PER_DAY);

    // Serial 59 (1900-02-28) converts; the phantom serial 60 does not.
    assert!(excel_date_ms_to_timestamp(59 * MS_PER_DAY).is_some());
    assert!(excel_date_ms_to_timestamp(60 * MS_PER_DAY).is_none());

    // Negative serials are invalid.
    assert!(excel_date_ms_to_timestamp(-MS_PER_DAY).is_none());
}

#[test]
fn test_image_dimensions() {
    // A PNG header with width 2 and height 3.
    let mut png = vec![0x89u8, b'P', b'N', b'G', 0x0d, 0x0a, 0x1a, 0x0a];
    png.extend_from_slice(&[0, 0, 0, 13]);
    png.extend_from_slice(b"IHDR");
    png.extend_from_slice(&[0, 0, 0, 2]);
    png.extend_from_slice(&[0, 0, 0, 3]);
    png.extend_from_slice(&[8, 6, 0, 0, 0]);
    assert_eq!(get_image_dimensions(&png), Some((2, 3)));

    // A GIF89a header with width 4 and height 5.
    let mut gif = b"GIF89a".to_vec();
    gif.extend_from_slice(&[4, 0, 5, 0]);
    assert_eq!(get_image_dimensions(&gif), Some((4, 5)));

    // A BMP header with width 6 and height 7.
    let mut bmp = b"BM".to_vec();
    bmp.extend_from_slice(&[0; 16]);
    bmp.extend_from_slice(&[6, 0, 0, 0]);
    bmp.extend_from_slice(&[7, 0, 0, 0]);
    assert_eq!(get_image_dimensions(&bmp), Some((6, 7)));

    assert_eq!(get_image_dimensions(b"not an image"), None);
}

#[test]
fn test_number_cell_rewrite() {
    let key = xlsx_handlebars::helpers::to_number_key();
    let mut row = b"<row r=\"2\"><c r=\"B2\" t=\"inlineStr\"><is><t>".to_vec();
    row.extend_from_slice(&key);
    row.extend_from_slice(b"42.5</t></is></c></row>");
    let out = String::from_utf8(xlsx_handlebars::postprocess::process_number_cells(&row, &key))
        .unwrap();
    assert_eq!(out, "<row r=\"2\"><c r=\"B2\"><v>42.5</v></c></row>");
}

#[test]
fn test_formula_cell_rewrite() {
    let key = xlsx_handlebars::helpers::to_formula_key();
    let mut row = b"<row r=\"3\"><c r=\"C3\" t=\"inlineStr\"><is><t>".to_vec();
    row.extend_from_slice(&key);
    row.extend_from_slice(b"=SUM(A3:B3)</t></is></c></row>");
    let out =
        String::from_utf8(xlsx_handlebars::postprocess::process_formula_cells(&row, &key))
            .unwrap();
    assert_eq!(out, "<row r=\"3\"><c r=\"C3\"><f>=SUM(A3:B3)</f></c></row>");
}

#[test]
fn test_sort_dedup_merge_ranges() {
    let refs = vec![
        b"C2:D3".to_vec(),
        b"A1:B1".to_vec(),
        b"C2:D3".to_vec(),
        b"A1:B1".to_vec(),
    ];
    let sorted = xlsx_handlebars::postprocess::sort_dedup(&refs);
    assert_eq!(sorted.len(), 2);
    assert_eq!(sorted[0], b"A1:B1");
    assert_eq!(sorted[1], b"C2:D3");
}

#[test]
fn test_remove_row_sentinel_drops_row() {
    let rm = xlsx_handlebars::helpers::remove_row_key();
    let num = xlsx_handlebars::helpers::to_number_key();
    let fm = xlsx_handlebars::helpers::to_formula_key();
    let mut xml = b"<sheetData><row r=\"1\"><c r=\"A1\"><v>".to_vec();
    xml.extend_from_slice(&rm);
    xml.extend_from_slice(b"</v></c></row><row r=\"2\"><c r=\"A2\"><v>kept</v></c></row></sheetData>");
    let out = String::from_utf8(xlsx_handlebars::postprocess::post_process_xml(
        &xml, &rm, &num, &fm, &[], &[],
    ))
    .unwrap();
    assert!(!out.contains("A1"));
    assert!(out.contains("<row r=\"2\"><c r=\"A2\"><v>kept</v></c></row>"));
}

#[test]
fn test_merge_block_emitted_after_sheet_data() {
    let rm = xlsx_handlebars::helpers::remove_row_key();
    let num = xlsx_handlebars::helpers::to_number_key();
    let fm = xlsx_handlebars::helpers::to_formula_key();
    let xml = b"<worksheet><sheetData></sheetData><pageMargins left=\"0.7\"/></worksheet>";
    let merges = vec![b"B2:C3".to_vec(), b"A1:B1".to_vec()];
    let sorted = xlsx_handlebars::postprocess::sort_dedup(&merges);
    let out = String::from_utf8(xlsx_handlebars::postprocess::post_process_xml(
        xml, &rm, &num, &fm, &sorted, &[],
    ))
    .unwrap();
    assert!(out.contains(
        "</sheetData><mergeCells count=\"2\"><mergeCell ref=\"A1:B1\"/><mergeCell ref=\"B2:C3\"/></mergeCells>"
    ));
}

#[test]
fn test_hyperlink_block_emitted_before_page_margins() {
    let rm = xlsx_handlebars::helpers::remove_row_key();
    let num = xlsx_handlebars::helpers::to_number_key();
    let fm = xlsx_handlebars::helpers::to_formula_key();
    let xml = b"<worksheet><sheetData></sheetData><pageMargins left=\"0.7\"/></worksheet>";
    let links = vec![xlsx_handlebars::merges::HyperlinkInfo {
        ref_cell: b"A1".to_vec(),
        location: b"Sheet2!A1".to_vec(),
        display: b"Go".to_vec(),
    }];
    let with_uids = xlsx_handlebars::postprocess::attach_link_uids(&links);
    let out = String::from_utf8(xlsx_handlebars::postprocess::post_process_xml(
        xml, &rm, &num, &fm, &[], &with_uids,
    ))
    .unwrap();
    let hpos = out.find("<hyperlinks").unwrap();
    let ppos = out.find("<pageMargins").unwrap();
    assert!(hpos < ppos);
    assert!(out.contains("<hyperlink ref=\"A1\" location=\"Sheet2!A1\" display=\"Go\" xr:uid=\"{"));
}

#[test]
fn test_row_loop_addresses_advance_with_offset() {
    // Three expansions of a row-axis block of height one: the first row
    // keeps its intrinsic address and each later one sits one below.
    let mut st = RenderState::new();
    st.set_row_inline(5);
    st.set_col_inline(1);
    let mut addresses = Vec::new();
    for _ in 0..3 {
        addresses.push(String::from_utf8(st.helper_cr(
            xlsx_handlebars::helpers::CrCol::Absent,
            None,
        ))
        .unwrap());
        st.row_offset_plus(1);
    }
    assert_eq!(addresses, vec!["A5", "A6", "A7"]);
    // The row that follows the block carries the accumulated offset.
    st.set_row_inline(6);
    assert_eq!(String::from_utf8(st.helper_r()).unwrap(), "9");
}

#[test]
fn test_remove_row_decrements_offset() {
    let mut st = RenderState::new();
    st.row_offset_plus(1);
    let sentinel = st.remove_row();
    assert_eq!(sentinel, xlsx_handlebars::helpers::remove_row_key());
    assert_eq!(String::from_utf8(st.get_row_offset()).unwrap(), "0");
    // At zero the offset stays put.
    let _ = st.remove_row();
    assert_eq!(String::from_utf8(st.get_row_offset()).unwrap(), "0");
}

#[test]
fn test_merge_offsets_per_iteration() {
    // The same merge helper call made in states whose row offsets grow by
    // the block height names ranges shifted by that height.
    let mut st = RenderState::new();
    st.set_row_inline(2);
    st.set_col_inline(1);
    let mut recorded = Vec::new();
    for _ in 0..3 {
        let start = st.helper_cr(xlsx_handlebars::helpers::CrCol::Absent, None);
        let end = st.helper_cr(
            xlsx_handlebars::helpers::CrCol::Letters(b"B".to_vec()),
            Some(2),
        );
        let mut range = start.clone();
        range.push(b':');
        range.extend_from_slice(&end);
        st.merge_cell(&range);
        st.row_offset_plus(2);
        recorded.push(String::from_utf8(range).unwrap());
    }
    assert_eq!(recorded, vec!["A2:B2", "A4:B4", "A6:B6"]);
    assert_eq!(st.merge_cells.len(), 3);
}

#[test]
fn test_validate_xlsx_format() {
    assert!(xlsx_handlebars::zipio::validate_xlsx_format(b"short").is_err());
    let mut not_zip = vec![0u8; 30];
    not_zip[0] = b'X';
    assert!(xlsx_handlebars::zipio::validate_xlsx_format(&not_zip).is_err());
    let mut ok = vec![0u8; 30];
    ok[0] = 0x50;
    ok[1] = 0x4b;
    ok[2] = 0x03;
    ok[3] = 0x04;
    assert!(xlsx_handlebars::zipio::validate_xlsx_format(&ok).is_ok());
}

#[test]
fn test_clean_sheet_name() {
    let cleaned = xlsx_handlebars::helpers::clean_sheet_name(b"a/b\\c?d*e[f]g");
    assert_eq!(cleaned, b"abcdefg");
    let long = xlsx_handlebars::helpers::clean_sheet_name(
        b"abcdefghijklmnopqrstuvwxyz0123456789",
    );
    assert_eq!(long.len(), 31);
}

#[test]
fn test_hyperlink_block_fallback_without_page_margins() {
    let rm = xlsx_handlebars::helpers::remove_row_key();
    let num = xlsx_handlebars::helpers::to_number_key();
    let fm = xlsx_handlebars::helpers::to_formula_key();
    let xml = b"<worksheet><sheetData></sheetData></worksheet>";
    let links = vec![xlsx_handlebars::merges::HyperlinkInfo {
        ref_cell: b"A1".to_vec(),
        location: b"Sheet2!A1".to_vec(),
        display: Vec::new(),
    }];
    let with_uids = xlsx_handlebars::postprocess::attach_link_uids(&links);
    let out = String::from_utf8(xlsx_handlebars::postprocess::post_process_xml(
        xml, &rm, &num, &fm, &[], &with_uids,
    ))
    .unwrap();
    let hpos = out.find("<hyperlinks").unwrap();
    let wpos = out.find("</worksheet>").unwrap();
    assert!(hpos < wpos);
    assert!(out.contains("<hyperlink ref=\"A1\" location=\"Sheet2!A1\" xr:uid=\"{"));
}

#[test]
fn test_formula_cell_without_shared_string_passes_through() {
    let row = b"<row r=\"1\"><c r=\"A1\"><f>1+1</f><v>2</v></c></row>";
    let out = String::from_utf8(xlsx_handlebars::shared_strings::replace_shared_strings_in_sheet(
        row,
        &[],
    ))
    .unwrap();
    assert_eq!(out, "<row r=\"1\"><c r=\"A1\"><f>1+1</f><v>2</v></c></row>");
}
