use xlsx_handlebars::merges::extract_and_remove_merge_cells_and_hyperlinks;
use xlsx_handlebars::shared_strings::replace_shared_string_si_with_handlebars;

#[test]
fn test_extract_and_remove_merge_cells_and_hyperlinks() {
    let input_with_merge = br#"<?xml version="1.0"?>
<worksheet>
  <sheetData>
    <row r="1">
      <c r="A1"><v>Test</v></c>
    </row>
  </sheetData>
  <mergeCells count="2">
    <mergeCell ref="A1:B1"/>
    <mergeCell ref="C2:D3"/>
  </mergeCells>
  <pageMargins left="0.7" right="0.7"/>
</worksheet>"#;

    let (result_xml, merge_refs, hyperlinks) =
        extract_and_remove_merge_cells_and_hyperlinks(input_with_merge);

    assert_eq!(merge_refs.len(), 2);
    assert_eq!(merge_refs[0], b"A1:B1");
    assert_eq!(merge_refs[1], b"C2:D3");
    assert_eq!(hyperlinks.len(), 0);

    let result_str = String::from_utf8(result_xml).unwrap();
    assert!(!result_str.contains("<mergeCells"));
    assert!(!result_str.contains("</mergeCells>"));
    assert!(!result_str.contains("mergeCell"));

    assert!(result_str.contains("<sheetData>"));
    assert!(result_str.contains("<pageMargins"));

    let input_with_hyperlinks = br#"<?xml version="1.0"?>
<worksheet>
  <sheetData>
    <row r="1">
      <c r="A1"><v>Link</v></c>
    </row>
  </sheetData>
  <hyperlinks>
    <hyperlink ref="A1" location="Sheet2!A1" display="Go to Sheet2"/>
    <hyperlink ref="B2" location="https://example.com" display="Example"/>
  </hyperlinks>
</worksheet>"#;

    let (result_xml2, merge_refs2, hyperlinks2) =
        extract_and_remove_merge_cells_and_hyperlinks(input_with_hyperlinks);
    assert_eq!(merge_refs2.len(), 0);
    assert_eq!(hyperlinks2.len(), 2);
    assert_eq!(hyperlinks2[0].ref_cell, b"A1");
    assert_eq!(hyperlinks2[0].location, b"Sheet2!A1");
    assert_eq!(hyperlinks2[0].display, b"Go to Sheet2");
    assert_eq!(hyperlinks2[1].ref_cell, b"B2");
    assert_eq!(hyperlinks2[1].location, b"https://example.com");
    let result_str2 = String::from_utf8(result_xml2).unwrap();
    assert!(!result_str2.contains("<hyperlinks"));

    let input_both = br#"<?xml version="1.0"?>
<worksheet>
  <sheetData/>
  <mergeCells count="1">
    <mergeCell ref="A1:B2"/>
  </mergeCells>
  <hyperlinks>
    <hyperlink ref="C3" location="Sheet1!A1" display="Link"/>
  </hyperlinks>
</worksheet>"#;

    let (result_xml3, merge_refs3, hyperlinks3) =
        extract_and_remove_merge_cells_and_hyperlinks(input_both);
    assert_eq!(merge_refs3.len(), 1);
    assert_eq!(hyperlinks3.len(), 1);
    let result_str3 = String::from_utf8(result_xml3).unwrap();
    assert!(!result_str3.contains("mergeCells"));
    assert!(!result_str3.contains("hyperlinks"));
}

#[test]
fn test_replace_shared_string_si_with_handlebars() {
    let input_with_each_in_r = r#"<si>
  <r>
    <t>a</t>
  </r>
  <r>
    <rPr>
      <sz val="11" />
      <color rgb="FFFF0000" />
    </rPr>
    <t>{{#each projects}}</t>
  </r>
  <phoneticPr fontId="1" type="noConversion" />
</si>"#;

    let result =
        String::from_utf8(replace_shared_string_si_with_handlebars(input_with_each_in_r.as_bytes()))
            .unwrap();

    assert!(result.contains("{{#each projects}}"));
    assert!(result.contains("<r>"));
    assert!(result.contains("<t>{{#each projects}}</t>"));

    let input_with_each_not_in_r = r#"<si>
  <t>{{#each projects}}</t>
  <phoneticPr fontId="1" type="noConversion" />
</si>"#;

    let result2 = String::from_utf8(replace_shared_string_si_with_handlebars(
        input_with_each_not_in_r.as_bytes(),
    ))
    .unwrap();
    assert!(result2.contains("{{#each projects}}"));
    assert!(result2.contains("<r><t>{{#each projects}}</t></r>"));

    let input_with_end_each_not_in_r = r#"<si>
  <t>{{/each}}</t>
</si>"#;

    let result3 = String::from_utf8(replace_shared_string_si_with_handlebars(
        input_with_end_each_not_in_r.as_bytes(),
    ))
    .unwrap();
    assert!(result3.contains("{{/each}}"));
    assert!(result3.contains("<r><t>{{/each}}</t></r>"));

    let input_normal = r#"<si>
  <r>
    <t>normal text</t>
  </r>
  <r>
    <rPr>
      <sz val="11" />
    </rPr>
    <t>{{name}}</t>
  </r>
</si>"#;

    let result4 =
        String::from_utf8(replace_shared_string_si_with_handlebars(input_normal.as_bytes()))
            .unwrap();
    assert!(result4.contains("<r>"));
    assert!(result4.contains("{{name}}"));
}

#[test]
fn test_stitching_joins_split_expressions() {
    // An expression split across formatting runs is joined into one token,
    // and the runs' tags inside it are dropped.
    let input = br#"<is><r><t>{</t></r><r><t>{name}</t></r><r><t>}</t></r></is>"#;
    let out =
        String::from_utf8(xlsx_handlebars::stitch::merge_handlebars_in_xml(input)).unwrap();
    assert!(out.contains("{{name}}"));
    assert!(!out.contains("<t>{</t>"));
}

#[test]
fn test_stitching_rewrites_addresses() {
    let input = br#"<sheetData><row r="5" spans="1:1"><c r="A5" s="2"><v>1</v></c></row></sheetData>"#;
    let out =
        String::from_utf8(xlsx_handlebars::stitch::merge_handlebars_in_xml(input)).unwrap();
    assert!(out.contains(r#"<row r="{{col_offset_reset}}{{set_row_inline 5}}{{_r}}" spans="1:1">"#));
    assert!(out.contains(r#"<c r="{{set_col_inline 1}}{{_cr}}" s="2">"#));
}

#[test]
fn test_stitching_decodes_entities() {
    let input = b"<t>{{formula &quot;=SUM(A1:B1)&quot;}}</t>";
    let out =
        String::from_utf8(xlsx_handlebars::stitch::merge_handlebars_in_xml(input)).unwrap();
    assert!(out.contains(r#"{{formula "=SUM(A1:B1)"}}"#));
}

#[test]
fn test_inject_merge_helper_into_shared_strings() {
    let xml = br#"<sheetData><row r="1"><c r="A1" t="s"><v>0</v></c></row></sheetData>"#;
    let mut shared = vec![b"<is><t>Title</t></is>".to_vec()];
    let merges = vec![b"A1:B2".to_vec()];
    let links = vec![];
    xlsx_handlebars::merges::inject_helpers_into_shared_strings(
        xml,
        &mut shared,
        &merges,
        &links,
    );
    let si = String::from_utf8(shared[0].clone()).unwrap();
    assert_eq!(si, r#"<is><t>{{mergeCell (concat (_cr) ":" (_cr "B" 2))}}Title</t></is>"#);
}
