//! The cooperative render state and the decisions of the template helpers.
//!
//! During one render the engine invokes helpers serially; every helper
//! reads or writes this state and returns the text it emits. The engine
//! binding itself lives outside the library; each helper's decision is a
//! method here, from plain argument values to plain output bytes.

use vstd::prelude::*;

verus! {

use crate::scan::{
    append_bytes,
    contains,
    format_u32,
    lit,
    lit_bytes,
    spec_find,
    spec_u32_numeral,
    vecs_view,
};
use crate::merges::HyperlinkInfo;
use crate::outside_codecs::{fresh_uuid_ascii, is_uuid_ascii};

/// The sentinel marking a row for removal.
pub fn remove_row_key() -> (r: Vec<u8>)
    ensures
        r@ == lit("|e5nBk+z4RMKqlyBo+xQ48A-remove-row|"),
        r@.len() >= 1,
{
    proof {
        reveal_strlit("|e5nBk+z4RMKqlyBo+xQ48A-remove-row|");
        crate::merges::lemma_ascii_lit_len("|e5nBk+z4RMKqlyBo+xQ48A-remove-row|", 35);
    }
    lit_bytes("|e5nBk+z4RMKqlyBo+xQ48A-remove-row|")
}

/// The sentinel marking a cell as numeric.
pub fn to_number_key() -> (r: Vec<u8>)
    ensures
        r@ == lit("|e5nBk+z4RMKqlyBo+xQ48A-num|"),
        r@.len() >= 1,
{
    proof {
        reveal_strlit("|e5nBk+z4RMKqlyBo+xQ48A-num|");
        crate::merges::lemma_ascii_lit_len("|e5nBk+z4RMKqlyBo+xQ48A-num|", 28);
    }
    lit_bytes("|e5nBk+z4RMKqlyBo+xQ48A-num|")
}

/// The sentinel marking a cell as a formula.
pub fn to_formula_key() -> (r: Vec<u8>)
    ensures
        r@ == lit("|e5nBk+z4RMKqlyBo+xQ48A-formula|"),
        r@.len() >= 1,
{
    proof {
        reveal_strlit("|e5nBk+z4RMKqlyBo+xQ48A-formula|");
        crate::merges::lemma_ascii_lit_len("|e5nBk+z4RMKqlyBo+xQ48A-formula|", 32);
    }
    lit_bytes("|e5nBk+z4RMKqlyBo+xQ48A-formula|")
}

/// Saturating addition on `u32` coordinates.
pub open spec fn sat_add(a: int, b: int) -> int {
    if a + b > u32::MAX {
        u32::MAX as int
    } else {
        a + b
    }
}

/// One collected image: its anchor cell, base64 payload, optional user
/// dimensions, and its fresh relationship id.
pub struct ImageInfo {
    pub col: u32,
    pub row: u32,
    pub base64_data: Vec<u8>,
    pub width: Option<u32>,
    pub height: Option<u32>,
    pub rid: Vec<u8>,
}

/// The column-letter argument of the `_cr` helper: absent, letters, a
/// 1-based number, or a value of another type.
pub enum CrCol {
    Absent,
    Letters(Vec<u8>),
    Number(u32),
    Other,
}

/// The cooperative state one render threads through all helper calls.
pub struct RenderState {
    /// Intrinsic row of the current template row.
    pub row_inline: u32,
    /// Intrinsic 1-based column of the current template cell.
    pub col_inline: u32,
    /// Rows by which coordinates are currently shifted.
    pub row_offset: u32,
    /// Columns by which coordinates are currently shifted.
    pub col_offset: u32,
    /// Part path of the sheet being rendered.
    pub current_sheet: Vec<u8>,
    /// Merge ranges collected by the `mergeCell` helper for this sheet.
    pub merge_cells: Vec<Vec<u8>>,
    /// Hyperlinks collected by the `hyperlink` helper for this sheet.
    pub hyperlinks: Vec<HyperlinkInfo>,
    /// Images collected by the `img` helper for this sheet.
    pub images: Vec<ImageInfo>,
    /// Sheets marked for deletion.
    pub sheets_to_delete: Vec<Vec<u8>>,
    /// Sheets marked for renaming, with the cleaned new name.
    pub sheets_to_rename: Vec<(Vec<u8>, Vec<u8>)>,
    /// Sheets marked for hiding, with the visibility kind.
    pub sheets_to_hide: Vec<(Vec<u8>, Vec<u8>)>,
}

/// The letters of the 1-based column index `n` as bytes; empty for 0.
pub open spec fn spec_col_letters(n: int) -> Seq<u8>
    decreases n,
{
    if n <= 0 {
        Seq::empty()
    } else {
        spec_col_letters((n - 1) / 26).push((65 + (n - 1) % 26) as u8)
    }
}

/// The letters of the 1-based column index `n`.
pub fn col_letters(n: u32) -> (r: Vec<u8>)
    ensures
        r@ == spec_col_letters(n as int),
{
    let mut m: u32 = n;
    let mut rev: Vec<u8> = Vec::new();
    while m > 0
        invariant
            spec_col_letters(n as int) =~= spec_col_letters(m as int) + Seq::new(
                rev@.len(),
                |i: int| rev@[rev@.len() - 1 - i],
            ),
        decreases m,
    {
        let ghost m0 = m as int;
        let ghost rev0 = rev@;
        let rem: u32 = (m - 1) % 26;
        rev.push((65 + rem) as u8);
        m = (m - 1) / 26;
        proof {
            assert(spec_col_letters(m0) == spec_col_letters((m0 - 1) / 26).push(
                ((65 + (m0 - 1) % 26) as u8),
            ));
            assert(Seq::new(rev@.len(), |i: int| rev@[rev@.len() - 1 - i]) =~= seq![
                ((65 + (m0 - 1) % 26) as u8),
            ] + Seq::new(rev0.len(), |i: int| rev0[rev0.len() - 1 - i]));
        }
    }
    let mut out: Vec<u8> = Vec::new();
    let len = rev.len();
    let mut j: usize = 0;
    while j < len
        invariant
            len == rev@.len(),
            0 <= j <= len,
            out@ =~= Seq::new(j as nat, |i: int| rev@[rev@.len() - 1 - i]),
        decreases len - j,
    {
        out.push(rev[len - 1 - j]);
        j = j + 1;
    }
    proof {
        assert(out@ =~= Seq::new(rev@.len(), |i: int| rev@[rev@.len() - 1 - i]));
        assert(spec_col_letters(n as int) =~= spec_col_letters(0) + out@);
        assert(out@ =~= spec_col_letters(n as int));
    }
    out
}

/// The text the `_cr` helper emits in a given state with given arguments:
/// the column letters, then the row number, both with the current offsets
/// applied (saturating).
pub open spec fn spec_cr_col(col_inline: int, col_offset: int, col_arg: CrCol) -> int {
    match col_arg {
        CrCol::Absent => sat_add(col_inline, col_offset),
        CrCol::Letters(s) => sat_add(spec_letters_value(s@), col_offset),
        CrCol::Number(n) => sat_add(n as int, col_offset),
        CrCol::Other => sat_add(col_inline, col_offset),
    }
}

pub open spec fn spec_cr_row(row_inline: int, row_offset: int, row_arg: Option<u32>) -> int {
    match row_arg {
        Option::Some(n) => sat_add(n as int, row_offset),
        Option::None => sat_add(row_inline, row_offset),
    }
}

pub open spec fn spec_cr(
    col_inline: int,
    col_offset: int,
    row_inline: int,
    row_offset: int,
    col_arg: CrCol,
    row_arg: Option<u32>,
) -> Seq<u8> {
    spec_col_letters(spec_cr_col(col_inline, col_offset, col_arg)) + spec_u32_numeral(
        spec_cr_row(row_inline, row_offset, row_arg),
    )
}

fn sat_add_exec(a: u32, b: u32) -> (r: u32)
    ensures
        r as int == sat_add(a as int, b as int),
{
    if a <= u32::MAX - b {
        a + b
    } else {
        u32::MAX
    }
}

impl RenderState {
    /// A fresh state: coordinates at their defaults, nothing collected.
    pub fn new() -> (r: RenderState)
        ensures
            r.row_inline == 1,
            r.col_inline == 1,
            r.row_offset == 0,
            r.col_offset == 0,
            r.current_sheet@ == Seq::<u8>::empty(),
            r.merge_cells@.len() == 0,
            r.hyperlinks@.len() == 0,
            r.images@.len() == 0,
            r.sheets_to_delete@.len() == 0,
            r.sheets_to_rename@.len() == 0,
            r.sheets_to_hide@.len() == 0,
    {
        RenderState {
            row_inline: 1,
            col_inline: 1,
            row_offset: 0,
            col_offset: 0,
            current_sheet: Vec::new(),
            merge_cells: Vec::new(),
            hyperlinks: Vec::new(),
            images: Vec::new(),
            sheets_to_delete: Vec::new(),
            sheets_to_rename: Vec::new(),
            sheets_to_hide: Vec::new(),
        }
    }

    /// `row_offset_plus n`: advances the row offset.
    pub fn row_offset_plus(&mut self, n: u32)
        ensures
            final(self).row_offset as int == sat_add(old(self).row_offset as int, n as int),
            *final(self) == (RenderState { row_offset: final(self).row_offset, ..*old(self) }),
    {
        self.row_offset = sat_add_exec(self.row_offset, n);
    }

    /// `row_offset_reset`: clears the row offset.
    pub fn row_offset_reset(&mut self)
        ensures
            final(self).row_offset == 0,
            *final(self) == (RenderState { row_offset: 0, ..*old(self) }),
    {
        self.row_offset = 0;
    }

    /// `get_row_offset`: the current row offset as text.
    pub fn get_row_offset(&self) -> (r: Vec<u8>)
        ensures
            r@ == spec_u32_numeral(self.row_offset as int),
    {
        format_u32(self.row_offset)
    }

    /// `set_row_inline N`: records the intrinsic row of the current row.
    pub fn set_row_inline(&mut self, n: u32)
        ensures
            final(self).row_inline == n,
            *final(self) == (RenderState { row_inline: n, ..*old(self) }),
    {
        self.row_inline = n;
    }

    /// `_r`: the current row number, offset applied.
    pub fn helper_r(&self) -> (r: Vec<u8>)
        ensures
            r@ == spec_u32_numeral(sat_add(self.row_inline as int, self.row_offset as int)),
    {
        format_u32(sat_add_exec(self.row_inline, self.row_offset))
    }

    /// `col_offset_plus n`: advances the column offset.
    pub fn col_offset_plus(&mut self, n: u32)
        ensures
            final(self).col_offset as int == sat_add(old(self).col_offset as int, n as int),
            *final(self) == (RenderState { col_offset: final(self).col_offset, ..*old(self) }),
    {
        self.col_offset = sat_add_exec(self.col_offset, n);
    }

    /// `col_offset_reset`: clears the column offset.
    pub fn col_offset_reset(&mut self)
        ensures
            final(self).col_offset == 0,
            *final(self) == (RenderState { col_offset: 0, ..*old(self) }),
    {
        self.col_offset = 0;
    }

    /// `get_col_offset`: the current column offset as text.
    pub fn get_col_offset(&self) -> (r: Vec<u8>)
        ensures
            r@ == spec_u32_numeral(self.col_offset as int),
    {
        format_u32(self.col_offset)
    }

    /// `set_col_inline N`: records the intrinsic column of the current cell.
    pub fn set_col_inline(&mut self, n: u32)
        ensures
            final(self).col_inline == n,
            *final(self) == (RenderState { col_inline: n, ..*old(self) }),
    {
        self.col_inline = n;
    }

    /// `_c`: the current column letters, offset applied.
    pub fn helper_c(&self) -> (r: Vec<u8>)
        ensures
            r@ == spec_col_letters(sat_add(self.col_inline as int, self.col_offset as int)),
    {
        col_letters(sat_add_exec(self.col_inline, self.col_offset))
    }

    /// `_cr [col] [row]`: a full cell reference with the offsets applied;
    /// without arguments, at the current position.
    pub fn helper_cr(&self, col_arg: CrCol, row_arg: Option<u32>) -> (r: Vec<u8>)
        ensures
            r@ == spec_cr(
                self.col_inline as int,
                self.col_offset as int,
                self.row_inline as int,
                self.row_offset as int,
                col_arg,
                row_arg,
            ),
    {
        let col_index: u32 = match &col_arg {
            CrCol::Absent => sat_add_exec(self.col_inline, self.col_offset),
            CrCol::Letters(s) => sat_add_exec(letters_value(s.as_slice()), self.col_offset),
            CrCol::Number(n) => sat_add_exec(*n, self.col_offset),
            CrCol::Other => sat_add_exec(self.col_inline, self.col_offset),
        };
        let row: u32 = match row_arg {
            Option::Some(n) => sat_add_exec(n, self.row_offset),
            Option::None => sat_add_exec(self.row_inline, self.row_offset),
        };
        let mut out = col_letters(col_index);
        let num = format_u32(row);
        append_bytes(&mut out, num.as_slice());
        out
    }

    /// `removeRow`: emits the remove sentinel and takes one row back off
    /// the offset, so that following rows close the gap.
    pub fn remove_row(&mut self) -> (r: Vec<u8>)
        ensures
            r@ == lit("|e5nBk+z4RMKqlyBo+xQ48A-remove-row|"),
            final(self).row_offset == if old(self).row_offset > 0 {
                (old(self).row_offset - 1) as u32
            } else {
                0u32
            },
            *final(self) == (RenderState { row_offset: final(self).row_offset, ..*old(self) }),
    {
        if self.row_offset > 0 {
            self.row_offset = self.row_offset - 1;
        }
        remove_row_key()
    }

    /// `mergeCell ref`: records a merge range; a value without a colon is
    /// ignored.
    pub fn merge_cell(&mut self, ref_str: &[u8])
        ensures
            vecs_view(final(self).merge_cells@) == if spec_find(ref_str@, lit(":"), 0) is Some {
                vecs_view(old(self).merge_cells@).push(ref_str@)
            } else {
                vecs_view(old(self).merge_cells@)
            },
            final(self).hyperlinks@ == old(self).hyperlinks@,
            final(self).images@ == old(self).images@,
            final(self).row_offset == old(self).row_offset,
            final(self).col_offset == old(self).col_offset,
            final(self).row_inline == old(self).row_inline,
            final(self).col_inline == old(self).col_inline,
    {
        proof {
            reveal_strlit(":");
            crate::merges::lemma_ascii_lit_len(":", 1);
        }
        let colon = lit_bytes(":");
        if contains(ref_str, colon.as_slice()) {
            let mut v: Vec<u8> = Vec::new();
            append_bytes(&mut v, ref_str);
            let ghost before = vecs_view(self.merge_cells@);
            self.merge_cells.push(v);
            proof {
                assert(vecs_view(self.merge_cells@) =~= before.push(ref_str@));
            }
        }
    }

    /// `hyperlink ref location display`: records a hyperlink; nothing is
    /// recorded without a cell, a location, or a current sheet.
    pub fn hyperlink(&mut self, ref_cell: &[u8], location: &[u8], display: &[u8])
        ensures
            crate::merges::links_view(final(self).hyperlinks@) == if ref_cell@.len() > 0
                && location@.len() > 0 && old(self).current_sheet@.len() > 0 {
                crate::merges::links_view(old(self).hyperlinks@).push(
                    (ref_cell@, location@, display@),
                )
            } else {
                crate::merges::links_view(old(self).hyperlinks@)
            },
            final(self).merge_cells@ == old(self).merge_cells@,
            final(self).images@ == old(self).images@,
    {
        if ref_cell.len() > 0 && location.len() > 0 && self.current_sheet.len() > 0 {
            let mut r: Vec<u8> = Vec::new();
            append_bytes(&mut r, ref_cell);
            let mut l: Vec<u8> = Vec::new();
            append_bytes(&mut l, location);
            let mut d: Vec<u8> = Vec::new();
            append_bytes(&mut d, display);
            let ghost before = crate::merges::links_view(self.hyperlinks@);
            self.hyperlinks.push(HyperlinkInfo { ref_cell: r, location: l, display: d });
            proof {
                assert(crate::merges::links_view(self.hyperlinks@) =~= before.push(
                    (ref_cell@, location@, display@),
                ));
            }
        }
    }

    /// `img base64 [w] [h]`: records an image at the current cell with a
    /// fresh opaque relationship id; nothing is recorded without payload
    /// or without a current sheet.
    pub fn img(&mut self, base64_data: &[u8], width: Option<u32>, height: Option<u32>)
        ensures
            old(self).current_sheet@.len() > 0 && base64_data@.len() > 0 ==> {
                &&& final(self).images@.len() == old(self).images@.len() + 1
                &&& final(self).images@.last().col as int == sat_add(
                    old(self).col_inline as int,
                    old(self).col_offset as int,
                )
                &&& final(self).images@.last().row as int == sat_add(
                    old(self).row_inline as int,
                    old(self).row_offset as int,
                )
                &&& final(self).images@.last().base64_data@ == base64_data@
                &&& final(self).images@.last().width == width
                &&& final(self).images@.last().height == height
                &&& final(self).images@.last().rid@.len() == 19
                &&& final(self).images@ =~= old(self).images@.push(final(self).images@.last())
            },
            !(old(self).current_sheet@.len() > 0 && base64_data@.len() > 0)
                ==> final(self).images@ == old(self).images@,
            final(self).merge_cells@ == old(self).merge_cells@,
            final(self).hyperlinks@ == old(self).hyperlinks@,
    {
        if base64_data.len() > 0 && self.current_sheet.len() > 0 {
            let col = sat_add_exec(self.col_inline, self.col_offset);
            let row = sat_add_exec(self.row_inline, self.row_offset);
            let mut data: Vec<u8> = Vec::new();
            append_bytes(&mut data, base64_data);
            let rid = fresh_rid();
            self.images.push(ImageInfo { col, row, base64_data: data, width, height, rid });
        }
    }

    /// `deleteCurrentSheet`: marks the sheet being rendered for deletion.
    pub fn delete_current_sheet(&mut self)
        ensures
            vecs_view(final(self).sheets_to_delete@) == if old(self).current_sheet@.len() > 0 {
                vecs_view(old(self).sheets_to_delete@).push(old(self).current_sheet@)
            } else {
                vecs_view(old(self).sheets_to_delete@)
            },
    {
        if self.current_sheet.len() > 0 {
            let mut v: Vec<u8> = Vec::new();
            append_bytes(&mut v, self.current_sheet.as_slice());
            let ghost before = vecs_view(self.sheets_to_delete@);
            self.sheets_to_delete.push(v);
            proof {
                assert(vecs_view(self.sheets_to_delete@) =~= before.push(
                    old(self).current_sheet@,
                ));
            }
        }
    }

    /// `setCurrentSheetName s`: marks the sheet for renaming; the name is
    /// cleaned of `\\ / ? * [ ]` and clamped to 31 bytes on a character
    /// boundary. An empty cleaned name records nothing.
    pub fn set_current_sheet_name(&mut self, new_name: &[u8])
        ensures
            final(self).sheets_to_rename@.len() >= old(self).sheets_to_rename@.len(),
            final(self).sheets_to_rename@.len() <= old(self).sheets_to_rename@.len() + 1,
            final(self).sheets_to_rename@.len() == old(self).sheets_to_rename@.len() + 1 ==> {
                &&& final(self).sheets_to_rename@.last().0@ == old(self).current_sheet@
                &&& final(self).sheets_to_rename@.last().1@ == spec_clean_sheet_name(new_name@)
                &&& final(self).sheets_to_rename@.drop_last() == old(self).sheets_to_rename@
            },
            old(self).current_sheet@.len() == 0 || new_name@.len() == 0
                || spec_clean_sheet_name(new_name@).len() == 0 ==> final(self).sheets_to_rename@
                == old(self).sheets_to_rename@,
            old(self).current_sheet@.len() > 0 && spec_clean_sheet_name(new_name@).len() > 0
                && new_name@.len() > 0 ==> final(self).sheets_to_rename@.len()
                == old(self).sheets_to_rename@.len() + 1,
    {
        if self.current_sheet.len() == 0 || new_name.len() == 0 {
            return ;
        }
        let clean = clean_sheet_name(new_name);
        if clean.len() > 0 {
            let mut sheet: Vec<u8> = Vec::new();
            append_bytes(&mut sheet, self.current_sheet.as_slice());
            self.sheets_to_rename.push((sheet, clean));
        }
    }

    /// `hideCurrentSheet [kind]`: marks the sheet for hiding; any kind
    /// other than `veryHidden` is normalized to `hidden`.
    pub fn hide_current_sheet(&mut self, kind: Option<&Vec<u8>>)
        ensures
            final(self).sheets_to_hide@.len() >= old(self).sheets_to_hide@.len(),
            old(self).current_sheet@.len() > 0 ==> {
                &&& final(self).sheets_to_hide@.len() == old(self).sheets_to_hide@.len() + 1
                &&& final(self).sheets_to_hide@.last().0@ == old(self).current_sheet@
                &&& final(self).sheets_to_hide@.last().1@ == (match kind {
                    Option::Some(k) if k@ == lit("veryHidden") => lit("veryHidden"),
                    _ => lit("hidden"),
                })
                &&& final(self).sheets_to_hide@.drop_last() == old(self).sheets_to_hide@
            },
            old(self).current_sheet@.len() == 0
                ==> final(self).sheets_to_hide@ == old(self).sheets_to_hide@,
    {
        if self.current_sheet.len() == 0 {
            return ;
        }
        let very = lit_bytes("veryHidden");
        let normalized: Vec<u8> = match kind {
            Option::Some(k) => {
                if crate::scan::bytes_eq(k.as_slice(), very.as_slice()) {
                    very
                } else {
                    lit_bytes("hidden")
                }
            },
            Option::None => lit_bytes("hidden"),
        };
        let mut sheet: Vec<u8> = Vec::new();
        append_bytes(&mut sheet, self.current_sheet.as_slice());
        self.sheets_to_hide.push((sheet, normalized));
    }
}

/// A sheet name with the characters `\\ / ? * [ ]` removed, clamped to 31
/// bytes without splitting a UTF-8 character.
pub open spec fn spec_clean_sheet_name(s: Seq<u8>) -> Seq<u8> {
    spec_clamp_31(spec_filter_name(s))
}

pub open spec fn spec_is_forbidden_name_byte(b: u8) -> bool {
    b == 92 || b == 47 || b == 63 || b == 42 || b == 91 || b == 93
}

pub open spec fn spec_filter_name(s: Seq<u8>) -> Seq<u8>
    decreases s.len(),
{
    if s.len() == 0 {
        Seq::empty()
    } else if spec_is_forbidden_name_byte(s[0]) {
        spec_filter_name(s.drop_first())
    } else {
        seq![s[0]] + spec_filter_name(s.drop_first())
    }
}

/// Clamped to at most 31 bytes, backing off over UTF-8 continuation bytes.
pub open spec fn spec_clamp_31(s: Seq<u8>) -> Seq<u8> {
    if s.len() <= 31 {
        s
    } else {
        s.subrange(0, spec_boundary_at(s, 31))
    }
}

/// The largest position at most `i` that does not split a UTF-8 sequence.
pub open spec fn spec_boundary_at(s: Seq<u8>, i: int) -> int
    decreases i,
{
    if i <= 0 {
        0
    } else if 0 <= i < s.len() && (s[i] & 0xc0) == 0x80 {
        spec_boundary_at(s, i - 1)
    } else {
        i
    }
}

/// Cleans a sheet name: forbidden characters removed, length clamped.
pub fn clean_sheet_name(s: &[u8]) -> (r: Vec<u8>)
    ensures
        r@ == spec_clean_sheet_name(s@),
{
    let n = s.len();
    let mut kept: Vec<u8> = Vec::new();
    let mut i: usize = 0;
    while i < n
        invariant
            n == s@.len(),
            0 <= i <= n,
            kept@ =~= spec_filter_name(s@.take(i as int)),
        decreases n - i,
    {
        let b = s[i];
        proof {
            lemma_filter_name_step(s@, i as int);
        }
        if !(b == 92 || b == 47 || b == 63 || b == 42 || b == 91 || b == 93) {
            kept.push(b);
        }
        i = i + 1;
    }
    proof {
        assert(s@.take(n as int) =~= s@);
    }
    if kept.len() <= 31 {
        return kept;
    }
    let mut cut: usize = 31;
    while cut > 0 && (kept[cut] & 0xc0) == 0x80
        invariant
            kept@.len() > 31,
            0 <= cut <= 31,
            spec_boundary_at(kept@, 31) == spec_boundary_at(kept@, cut as int),
        decreases cut,
    {
        cut = cut - 1;
    }
    proof {
        assert(spec_boundary_at(kept@, cut as int) == cut as int);
    }
    crate::scan::copy_range(kept.as_slice(), 0, cut)
}

proof fn lemma_filter_name_step(s: Seq<u8>, i: int)
    requires
        0 <= i < s.len(),
    ensures
        spec_filter_name(s.take(i + 1)) =~= if spec_is_forbidden_name_byte(s[i]) {
            spec_filter_name(s.take(i))
        } else {
            spec_filter_name(s.take(i)) + seq![s[i]]
        },
    decreases i,
{
    lemma_filter_name_snoc(s.take(i + 1));
    assert(s.take(i + 1).drop_last() =~= s.take(i));
    assert(s.take(i + 1).last() == s[i]);
}

proof fn lemma_filter_name_snoc(s: Seq<u8>)
    requires
        s.len() > 0,
    ensures
        spec_filter_name(s) =~= if spec_is_forbidden_name_byte(s.last()) {
            spec_filter_name(s.drop_last())
        } else {
            spec_filter_name(s.drop_last()) + seq![s.last()]
        },
    decreases s.len(),
{
    if s.len() == 1 {
        assert(s.drop_last() =~= Seq::<u8>::empty());
        assert(s.drop_first() =~= Seq::<u8>::empty());
    } else {
        lemma_filter_name_snoc(s.drop_first());
        let dl = s.drop_last();
        let df = s.drop_first();
        assert(df.drop_last() =~= dl.drop_first());
        assert(df.last() == s.last());
        assert(dl.len() > 0);
        assert(dl[0] == s[0]);
        if spec_is_forbidden_name_byte(s[0]) {
            assert(spec_filter_name(s) == spec_filter_name(df));
            assert(spec_filter_name(dl) == spec_filter_name(dl.drop_first()));
            if spec_is_forbidden_name_byte(s.last()) {
                assert(spec_filter_name(df) =~= spec_filter_name(dl.drop_first()));
            } else {
                assert(spec_filter_name(df) =~= spec_filter_name(dl.drop_first()) + seq![
                    s.last(),
                ]);
            }
        } else {
            assert(spec_filter_name(s) == seq![s[0]] + spec_filter_name(df));
            assert(spec_filter_name(dl) == seq![s[0]] + spec_filter_name(dl.drop_first()));
            if spec_is_forbidden_name_byte(s.last()) {
                assert(spec_filter_name(s) =~= spec_filter_name(dl));
            } else {
                assert(spec_filter_name(s) =~= seq![s[0]] + (spec_filter_name(dl.drop_first())
                    + seq![s.last()]));
                assert(spec_filter_name(s) =~= spec_filter_name(dl) + seq![s.last()]);
            }
        }
    }
}

/// The base-26 value of a string of column letters, zero when the string
/// is empty, overlong, or holds a byte that is not a letter.
pub open spec fn spec_letters_value(s: Seq<u8>) -> int {
    if s.len() > 6 || exists|i: int| 0 <= i < s.len() && !crate::merges::is_ascii_alpha(s[i]) {
        0
    } else {
        crate::stitch::spec_letters_horner(s)
    }
}

/// The column value of the letters handed to the `_cr` helper.
fn letters_value(s: &[u8]) -> (r: u32)
    ensures
        r == spec_letters_value(s@),
{
    let n = s.len();
    let mut all_alpha = true;
    let mut i: usize = 0;
    while i < n
        invariant
            n == s@.len(),
            0 <= i <= n,
            all_alpha ==> forall|m: int|
                0 <= m < i ==> crate::merges::is_ascii_alpha(#[trigger] s@[m]),
            !all_alpha ==> i == n && exists|m: int|
                0 <= m < n && !crate::merges::is_ascii_alpha(#[trigger] s@[m]),
        decreases n - i,
    {
        let b = s[i];
        if !((65 <= b && b <= 90) || (97 <= b && b <= 122)) {
            proof {
                assert(!crate::merges::is_ascii_alpha(s@[i as int]));
            }
            all_alpha = false;
            i = n;
        } else {
            proof {
                assert(crate::merges::is_ascii_alpha(s@[i as int]));
                assert(forall|m: int|
                    0 <= m < i + 1 ==> crate::merges::is_ascii_alpha(#[trigger] s@[m]));
            }
            i = i + 1;
        }
    }
    if all_alpha && n <= 6 {
        proof {
            assert(!(exists|m: int|
                0 <= m < s@.len() && !crate::merges::is_ascii_alpha(s@[m])));
            assert(spec_letters_value(s@) == crate::stitch::spec_letters_index(s@));
        }
        crate::stitch::letters_index(s)
    } else {
        proof {
            if !all_alpha {
                let w = choose|m: int|
                    0 <= m < s@.len() && !crate::merges::is_ascii_alpha(#[trigger] s@[m]);
            }
        }
        0
    }
}

/// A fresh opaque relationship id: `rId` followed by the first 16
/// hexadecimal digits of a random UUID.
pub fn fresh_rid() -> (r: Vec<u8>)
    ensures
        r@.len() == 19,
        r@.subrange(0, 3) == lit("rId"),
{
    proof {
        reveal_strlit("rId");
        crate::merges::lemma_ascii_lit_len("rId", 3);
    }
    let raw = fresh_uuid_ascii();
    let mut hex: Vec<u8> = Vec::new();
    let mut i: usize = 0;
    while i < 36 && hex.len() < 16
        invariant
            is_uuid_ascii(raw@),
            0 <= i <= 36,
            hex@.len() <= 16,
            hex@.len() <= i,
        decreases 36 - i,
    {
        let b = raw[i];
        if b != 45 {
            hex.push(b);
        }
        i = i + 1;
    }
    let mut out = lit_bytes("rId");
    let ghost pre = out@;
    append_bytes(&mut out, hex.as_slice());
    let mut j = out.len();
    while j < 19
        invariant
            out@.len() == j,
            3 <= j <= 19,
            out@.subrange(0, 3) =~= lit("rId"),
        decreases 19 - j,
    {
        out.push(48);
        proof {
            assert(out@.subrange(0, 3) =~= lit("rId"));
        }
        j = j + 1;
    }
    if out.len() > 19 {
        out.truncate(19);
        proof {
            assert(out@.subrange(0, 3) =~= lit("rId"));
        }
    }
    out
}


/// Merge faithfulness. A merge range is recorded through two `_cr` calls
/// made in the same state, so both of its cells carry the state's row
/// offset. A row-axis each-block of body height `h` advances the row
/// offset by `h` once per expansion (`row_offset_plus h` stands before
/// its closing delimiter), so the range recorded during the expansion
/// whose offset has grown by `i * h` names rows exactly `i * h` below
/// those of the first expansion, and its column letters are unchanged:
/// the |xs| recorded ranges are pairwise offset by multiples of `h` rows.
pub proof fn lemma_merge_faithfulness(
    col_inline: int,
    col_offset: int,
    row_inline: int,
    base_offset: int,
    i: int,
    h: int,
    col_arg: CrCol,
    row_arg: Option<u32>,
)
    requires
        0 <= base_offset,
        0 <= i,
        0 <= h,
        spec_cr_row(row_inline, base_offset, row_arg) + i * h <= u32::MAX,
        0 <= row_inline <= u32::MAX,
        row_arg matches Some(n) ==> n <= u32::MAX,
    ensures
        spec_cr_row(row_inline, base_offset + i * h, row_arg) == spec_cr_row(
            row_inline,
            base_offset,
            row_arg,
        ) + i * h,
        spec_cr_col(col_inline, col_offset, col_arg) == spec_cr_col(
            col_inline,
            col_offset,
            col_arg,
        ),
        spec_cr(col_inline, col_offset, row_inline, base_offset + i * h, col_arg, row_arg)
            == spec_col_letters(spec_cr_col(col_inline, col_offset, col_arg))
            + spec_u32_numeral(spec_cr_row(row_inline, base_offset, row_arg) + i * h),
{
    assert(i * h >= 0) by (nonlinear_arith)
        requires
            i >= 0,
            h >= 0,
    ;
}

/// Remove-row invariant, helper side. The removeRow helper takes exactly
/// one row back off the offset (stopping at zero), cancelling the row
/// that the block's offset advance counted for the removed row; when the
/// two cancel, the offset is back where it started, and the row that
/// follows the block keeps its intrinsic address: `_r` emits
/// `row_inline + offset`, so with the offset restored the address is
/// unchanged.
pub proof fn lemma_remove_row_cancels(offset: int, row_inline: int)
    requires
        0 <= offset <= u32::MAX - 1,
        0 <= row_inline,
        row_inline + offset <= u32::MAX,
    ensures
        sat_add(if offset + 1 > 0 { offset + 1 - 1 } else { 0int }, 0) == offset,
        spec_u32_numeral(spec_cr_row(row_inline, offset, Option::None)) == spec_u32_numeral(
            row_inline + offset,
        ),
{
}

} // verus!
