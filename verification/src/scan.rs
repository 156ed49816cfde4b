//! Byte-level scanning primitives: substring search, slicing, splicing,
//! search-and-replace, and decimal numerals. The XML rewriting passes are
//! built from these, and their contracts are stated over the spec functions
//! defined here.

use vstd::prelude::*;

verus! {

use vstd::string::StringSliceAdditionalSpecFns;
use vstd::string::StrSliceExecFns;

/// The UTF-8 bytes of a string; the patterns that the scanning passes look
/// for are written as string literals and handled as their bytes.
pub open spec fn lit(s: &str) -> Seq<u8> {
    s.spec_bytes()
}

/// The UTF-8 bytes of a string, as a vector.
pub fn lit_bytes(s: &str) -> (r: Vec<u8>)
    ensures
        r@ == lit(s),
{
    s.as_bytes_vec()
}

/// The byte-sequence views of a sequence of byte vectors.
pub open spec fn vecs_view(v: Seq<Vec<u8>>) -> Seq<Seq<u8>> {
    Seq::new(v.len(), |i: int| v[i]@)
}

/// `needle` occurs in `hay` starting at position `i`.
pub open spec fn is_match_at(hay: Seq<u8>, needle: Seq<u8>, i: int) -> bool {
    &&& 0 <= i
    &&& i + needle.len() <= hay.len()
    &&& hay.subrange(i, i + needle.len()) == needle
}

/// Position of the first occurrence of `needle` in `hay` at or after `from`,
/// or `None` when there is none.
pub open spec fn spec_find(hay: Seq<u8>, needle: Seq<u8>, from: int) -> Option<int>
    decreases hay.len() - from,
{
    if from < 0 || from + needle.len() > hay.len() {
        None
    } else if needle.len() == 0 {
        Some(from)
    } else if hay.subrange(from, from + needle.len()) == needle {
        Some(from)
    } else {
        spec_find(hay, needle, from + 1)
    }
}

pub proof fn lemma_spec_find(hay: Seq<u8>, needle: Seq<u8>, from: int)
    requires
        0 <= from,
    ensures
        spec_find(hay, needle, from) matches Some(i) ==> {
            &&& from <= i
            &&& is_match_at(hay, needle, i)
            &&& forall|j: int| from <= j < i ==> !is_match_at(hay, needle, j)
        },
        spec_find(hay, needle, from) is None ==> forall|j: int|
            from <= j ==> !is_match_at(hay, needle, j),
    decreases hay.len() - from,
{
    if from + needle.len() > hay.len() {
        assert(forall|j: int| from <= j ==> !is_match_at(hay, needle, j));
    } else if needle.len() == 0 {
        assert(hay.subrange(from, from + needle.len()) =~= needle);
    } else if hay.subrange(from, from + needle.len()) == needle {
    } else {
        lemma_spec_find(hay, needle, from + 1);
    }
}

/// First occurrence of `needle` in `hay` at or after `from`.
pub fn find(hay: &[u8], needle: &[u8], from: usize) -> (r: Option<usize>)
    ensures
        r matches Some(i) ==> spec_find(hay@, needle@, from as int) == Some(i as int),
        r is None ==> spec_find(hay@, needle@, from as int) is None,
{
    let hl = hay.len();
    let nl = needle.len();
    if from > hl || nl > hl - from {
        proof {
            lemma_spec_find(hay@, needle@, from as int);
        }
        return None;
    }
    let mut i: usize = from;
    while i <= hl - nl
        invariant
            hl == hay@.len(),
            nl == needle@.len(),
            nl <= hl,
            from <= i <= hl,
            spec_find(hay@, needle@, from as int) == spec_find(hay@, needle@, i as int),
        decreases hl - i,
    {
        let mut k: usize = 0;
        let mut matches = true;
        while k < nl
            invariant
                hl == hay@.len(),
                nl == needle@.len(),
                i + nl <= hl,
                0 <= k <= nl,
                matches ==> forall|m: int| 0 <= m < k ==> hay@[i + m] == #[trigger] needle@[m],
                !matches ==> k == nl && exists|m: int|
                    0 <= m < nl && hay@[i + m] != #[trigger] needle@[m],
            decreases nl - k,
        {
            if hay[i + k] != needle[k] {
                proof {
                    assert(hay@[i + k] != needle@[k as int]);
                }
                matches = false;
                k = nl;
            } else {
                proof {
                    assert(forall|m: int|
                        0 <= m < k + 1 ==> hay@[i + m] == #[trigger] needle@[m]);
                }
                k = k + 1;
            }
        }
        if matches {
            proof {
                assert(hay@.subrange(i as int, i + nl) =~= needle@);
            }
            return Some(i);
        }
        proof {
            assert(hay@.subrange(i as int, i + nl) != needle@) by {
                let w = choose|m: int| 0 <= m < nl && hay@[i + m] != #[trigger] needle@[m];
                assert(hay@.subrange(i as int, i + nl)[w] != needle@[w]);
            }
        }
        if i == hl - nl {
            proof {
                assert(spec_find(hay@, needle@, i as int + 1) is None);
                assert(spec_find(hay@, needle@, i as int) is None);
            }
            return None;
        }
        i = i + 1;
    }
    proof {
        assert(spec_find(hay@, needle@, i as int) is None);
    }
    None
}

/// Whether `needle` occurs in `hay` at or after `from`.
pub fn contains_from(hay: &[u8], needle: &[u8], from: usize) -> (r: bool)
    ensures
        r == (spec_find(hay@, needle@, from as int) is Some),
{
    find(hay, needle, from).is_some()
}

/// Whether `needle` occurs anywhere in `hay`.
pub fn contains(hay: &[u8], needle: &[u8]) -> (r: bool)
    ensures
        r == (spec_find(hay@, needle@, 0) is Some),
{
    find(hay, needle, 0).is_some()
}

/// Byte-wise equality of two slices.
pub fn bytes_eq(a: &[u8], b: &[u8]) -> (r: bool)
    ensures
        r == (a@ == b@),
{
    if a.len() != b.len() {
        return false;
    }
    let n = a.len();
    let mut i: usize = 0;
    while i < n
        invariant
            n == a@.len() == b@.len(),
            0 <= i <= n,
            forall|m: int| 0 <= m < i ==> a@[m] == #[trigger] b@[m],
        decreases n - i,
    {
        if a[i] != b[i] {
            return false;
        }
        i = i + 1;
    }
    proof {
        assert(a@ =~= b@);
    }
    true
}

/// Whether `hay` starts with `prefix`.
pub fn starts_with(hay: &[u8], prefix: &[u8]) -> (r: bool)
    ensures
        r == (prefix@.len() <= hay@.len() && hay@.subrange(0, prefix@.len() as int)
            == prefix@),
{
    if prefix.len() > hay.len() {
        return false;
    }
    let h = vstd::slice::slice_subrange(hay, 0, prefix.len());
    bytes_eq(h, prefix)
}

/// Whether `hay` ends with `suffix`.
pub fn ends_with(hay: &[u8], suffix: &[u8]) -> (r: bool)
    ensures
        r == (suffix@.len() <= hay@.len() && hay@.subrange(
            hay@.len() - suffix@.len(),
            hay@.len() as int,
        ) == suffix@),
{
    if suffix.len() > hay.len() {
        return false;
    }
    let h = vstd::slice::slice_subrange(hay, hay.len() - suffix.len(), hay.len());
    bytes_eq(h, suffix)
}

/// Appends all of `s` to `out`.
pub fn append_bytes(out: &mut Vec<u8>, s: &[u8])
    ensures
        final(out)@ == old(out)@ + s@,
{
    let n = s.len();
    let mut i: usize = 0;
    while i < n
        invariant
            n == s@.len(),
            0 <= i <= n,
            out@ == old(out)@ + s@.take(i as int),
        decreases n - i,
    {
        out.push(s[i]);
        proof {
            assert(old(out)@ + s@.take(i as int + 1) =~= (old(out)@ + s@.take(i as int)).push(
                s@[i as int],
            ));
        }
        i = i + 1;
    }
    proof {
        assert(s@.take(n as int) =~= s@);
    }
}

/// A copy of `v[i..j]` as a new vector.
pub fn copy_range(v: &[u8], i: usize, j: usize) -> (r: Vec<u8>)
    requires
        0 <= i <= j <= v@.len(),
    ensures
        r@ == v@.subrange(i as int, j as int),
{
    vstd::slice::slice_to_vec(vstd::slice::slice_subrange(v, i, j))
}

/// `hay` with the range `i..j` replaced by `mid`.
pub open spec fn spec_splice(hay: Seq<u8>, i: int, j: int, mid: Seq<u8>) -> Seq<u8> {
    hay.subrange(0, i) + mid + hay.subrange(j, hay.len() as int)
}

/// Replaces the byte range `i..j` of `hay` with `mid`.
pub fn splice(hay: &[u8], i: usize, j: usize, mid: &[u8]) -> (r: Vec<u8>)
    requires
        0 <= i <= j <= hay@.len(),
    ensures
        r@ == spec_splice(hay@, i as int, j as int, mid@),
{
    let mut out: Vec<u8> = Vec::new();
    append_bytes(&mut out, vstd::slice::slice_subrange(hay, 0, i));
    append_bytes(&mut out, mid);
    append_bytes(&mut out, vstd::slice::slice_subrange(hay, j, hay.len()));
    out
}

/// `hay` with every occurrence of `pat` replaced by `to`, scanning left to
/// right and never rescanning replaced text.
pub open spec fn spec_replace_all(hay: Seq<u8>, pat: Seq<u8>, to: Seq<u8>) -> Seq<u8>
    decreases hay.len(),
    via spec_replace_all_decreases
{
    if pat.len() == 0 {
        hay
    } else {
        match spec_find(hay, pat, 0) {
            Option::None => hay,
            Option::Some(i) => hay.subrange(0, i) + to + spec_replace_all(
                hay.subrange(i + pat.len(), hay.len() as int),
                pat,
                to,
            ),
        }
    }
}

#[via_fn]
proof fn spec_replace_all_decreases(hay: Seq<u8>, pat: Seq<u8>, to: Seq<u8>) {
    if pat.len() > 0 {
        lemma_spec_find(hay, pat, 0);
    }
}

/// Replaces every occurrence of `pat` in `hay` by `to`.
pub fn replace_all(hay: &[u8], pat: &[u8], to: &[u8]) -> (r: Vec<u8>)
    requires
        pat@.len() >= 1,
    ensures
        r@ == spec_replace_all(hay@, pat@, to@),
    decreases hay@.len(),
{
    match find(hay, pat, 0) {
        Option::None => {
            let mut out: Vec<u8> = Vec::new();
            append_bytes(&mut out, hay);
            proof {
                assert(out@ =~= hay@);
            }
            out
        },
        Option::Some(i) => {
            let hl = hay.len();
            proof {
                lemma_spec_find(hay@, pat@, 0);
                assert(is_match_at(hay@, pat@, i as int));
                assert(i + pat@.len() <= hl);
            }
            let rest = vstd::slice::slice_subrange(hay, i + pat.len(), hl);
            let tail = replace_all(rest, pat, to);
            let mut out: Vec<u8> = Vec::new();
            append_bytes(&mut out, vstd::slice::slice_subrange(hay, 0, i));
            append_bytes(&mut out, to);
            append_bytes(&mut out, tail.as_slice());
            out
        },
    }
}

/// All bytes are ASCII decimal digits, and there is at least one.
pub open spec fn is_dec_digits(s: Seq<u8>) -> bool {
    s.len() > 0 && forall|i: int| 0 <= i < s.len() ==> 48 <= #[trigger] s[i] <= 57
}

/// The number denoted by a sequence of ASCII decimal digits.
pub open spec fn spec_dec_value(s: Seq<u8>) -> int
    decreases s.len(),
{
    if s.len() == 0 {
        0
    } else {
        spec_dec_value(s.drop_last()) * 10 + (s.last() - 48)
    }
}

/// The ASCII decimal digits of `n`, without leading zeros; empty for `n <= 0`.
pub open spec fn spec_dec_digits(n: int) -> Seq<u8>
    decreases n,
{
    if n <= 0 {
        Seq::empty()
    } else {
        spec_dec_digits(n / 10).push((48 + n % 10) as u8)
    }
}

/// The ASCII decimal numeral of `n`: "0" for 0, no leading zeros otherwise.
pub open spec fn spec_u32_numeral(n: int) -> Seq<u8> {
    if n == 0 {
        seq![48u8]
    } else {
        spec_dec_digits(n)
    }
}

pub proof fn lemma_dec_value_nonneg(s: Seq<u8>)
    requires
        forall|i: int| 0 <= i < s.len() ==> 48 <= #[trigger] s[i] <= 57,
    ensures
        spec_dec_value(s) >= 0,
    decreases s.len(),
{
    if s.len() > 0 {
        assert(forall|i: int|
            0 <= i < s.len() - 1 ==> 48 <= #[trigger] s.drop_last()[i] <= 57);
        lemma_dec_value_nonneg(s.drop_last());
    }
}

/// Parses an unsigned decimal numeral. Returns `None` on empty input, a
/// non-digit byte, or a value that does not fit in `u32`.
pub fn parse_u32(s: &[u8]) -> (r: Option<u32>)
    ensures
        r matches Some(v) ==> is_dec_digits(s@) && v == spec_dec_value(s@),
        r is None ==> !is_dec_digits(s@) || spec_dec_value(s@) > u32::MAX,
{
    let n = s.len();
    if n == 0 {
        return None;
    }
    let mut acc: u64 = 0;
    let mut i: usize = 0;
    while i < n
        invariant
            n == s@.len(),
            0 <= i <= n,
            forall|m: int| 0 <= m < i ==> 48 <= #[trigger] s@[m] <= 57,
            acc == spec_dec_value(s@.take(i as int)),
            acc <= u32::MAX,
        decreases n - i,
    {
        let b = s[i];
        if b < 48 || b > 57 {
            return None;
        }
        proof {
            assert(s@.take(i as int + 1).drop_last() =~= s@.take(i as int));
        }
        acc = acc * 10 + ((b - 48) as u64);
        i = i + 1;
        if acc > 0xffff_ffff {
            proof {
                if is_dec_digits(s@) {
                    lemma_dec_value_grows(s@, i as int);
                }
            }
            return None;
        }
    }
    proof {
        assert(s@.take(n as int) =~= s@);
    }
    Some(acc as u32)
}

/// With digit bytes, the value of a longer prefix is at least the value of a
/// shorter one.
proof fn lemma_dec_value_grows(s: Seq<u8>, i: int)
    requires
        0 <= i <= s.len(),
        forall|m: int| 0 <= m < s.len() ==> 48 <= #[trigger] s[m] <= 57,
    ensures
        spec_dec_value(s) >= spec_dec_value(s.take(i)),
    decreases s.len() - i,
{
    if i < s.len() {
        lemma_dec_value_grows(s, i + 1);
        assert(s.take(i + 1).drop_last() =~= s.take(i));
        assert(forall|m: int| 0 <= m < i + 1 ==> 48 <= #[trigger] s.take(i + 1)[m] <= 57);
        lemma_dec_value_nonneg(s.take(i));
        assert(spec_dec_value(s.take(i + 1)) == spec_dec_value(s.take(i)) * 10 + (s[i] - 48));
    } else {
        assert(s.take(i) =~= s);
    }
}

/// The ASCII decimal numeral of `n`.
pub fn format_u32(n: u32) -> (r: Vec<u8>)
    ensures
        r@ == spec_u32_numeral(n as int),
        r@.len() >= 1,
        forall|i: int| 0 <= i < r@.len() ==> 48 <= #[trigger] r@[i] <= 57,
{
    if n == 0 {
        let mut out: Vec<u8> = Vec::new();
        out.push(48);
        proof {
            assert(out@ =~= seq![48u8]);
        }
        return out;
    }
    let mut rev: Vec<u8> = Vec::new();
    let mut m: u32 = n;
    while m > 0
        invariant
            spec_dec_digits(n as int) =~= spec_dec_digits(m as int) + Seq::new(
                rev@.len(),
                |i: int| rev@[rev@.len() - 1 - i],
            ),
            forall|i: int| 0 <= i < rev@.len() ==> 48 <= #[trigger] rev@[i] <= 57,
        decreases m,
    {
        let ghost m0 = m as int;
        let ghost rev0 = rev@;
        rev.push(48 + (m % 10) as u8);
        m = m / 10;
        proof {
            assert(spec_dec_digits(m0) == spec_dec_digits(m0 / 10).push((48 + m0 % 10) as u8));
            assert(Seq::new(rev@.len(), |i: int| rev@[rev@.len() - 1 - i]) =~= seq![
                (48 + m0 % 10) as u8,
            ] + Seq::new(rev0.len(), |i: int| rev0[rev0.len() - 1 - i]));
        }
    }
    let mut out: Vec<u8> = Vec::new();
    let len = rev.len();
    let mut j: usize = 0;
    while j < len
        invariant
            len == rev@.len(),
            0 <= j <= len,
            out@ =~= Seq::new(j as nat, |i: int| rev@[rev@.len() - 1 - i]),
            forall|i: int| 0 <= i < rev@.len() ==> 48 <= #[trigger] rev@[i] <= 57,
        decreases len - j,
    {
        out.push(rev[len - 1 - j]);
        j = j + 1;
    }
    proof {
        assert(out@ =~= Seq::new(rev@.len(), |i: int| rev@[rev@.len() - 1 - i]));
        assert(spec_dec_digits(n as int) =~= spec_dec_digits(0) + out@);
        assert(out@ =~= spec_dec_digits(n as int));
    }
    out
}


/// A byte that can end an XML tag name: whitespace, `/`, or `>`.
pub open spec fn is_name_end_byte(b: u8) -> bool {
    b == 32 || b == 9 || b == 10 || b == 13 || b == 47 || b == 62
}

/// `tag` (a full `<…>` span) is an opening tag named `name`, and not
/// self-closing.
pub open spec fn spec_is_start_tag(tag: Seq<u8>, name: Seq<u8>) -> bool {
    &&& tag.len() >= name.len() + 2
    &&& tag[0] == 60
    &&& tag.subrange(1, 1 + name.len() as int) == name
    &&& is_name_end_byte(tag[1 + name.len() as int])
    &&& !(tag.len() >= 2 && tag[tag.len() - 2] == 47 && tag[tag.len() - 1] == 62)
}

/// `tag` is a closing tag named `name`.
pub open spec fn spec_is_end_tag(tag: Seq<u8>, name: Seq<u8>) -> bool {
    &&& tag.len() >= name.len() + 3
    &&& tag[0] == 60
    &&& tag[1] == 47
    &&& tag.subrange(2, 2 + name.len() as int) == name
    &&& is_name_end_byte(tag[2 + name.len() as int])
}

/// Whether `tag` is an opening tag named `name` (not self-closing).
pub fn is_start_tag(tag: &[u8], name: &[u8]) -> (r: bool)
    ensures
        r == spec_is_start_tag(tag@, name@),
{
    let tl = tag.len();
    let nl = name.len();
    if nl >= tl || tl - nl < 2 {
        return false;
    }
    if tag[0] != 60 {
        return false;
    }
    if !bytes_eq(vstd::slice::slice_subrange(tag, 1, 1 + nl), name) {
        return false;
    }
    let e = tag[1 + nl];
    if !(e == 32 || e == 9 || e == 10 || e == 13 || e == 47 || e == 62) {
        return false;
    }
    if tl >= 2 && tag[tl - 2] == 47 && tag[tl - 1] == 62 {
        return false;
    }
    true
}

/// Whether `tag` is a closing tag named `name`.
pub fn is_end_tag(tag: &[u8], name: &[u8]) -> (r: bool)
    ensures
        r == spec_is_end_tag(tag@, name@),
{
    let tl = tag.len();
    let nl = name.len();
    if nl >= tl || tl - nl < 3 {
        return false;
    }
    if tag[0] != 60 || tag[1] != 47 {
        return false;
    }
    if !bytes_eq(vstd::slice::slice_subrange(tag, 2, 2 + nl), name) {
        return false;
    }
    let e = tag[2 + nl];
    e == 32 || e == 9 || e == 10 || e == 13 || e == 47 || e == 62
}


/// `tag` is a self-closing tag named `name`.
pub open spec fn spec_is_self_closing_tag(tag: Seq<u8>, name: Seq<u8>) -> bool {
    &&& tag.len() >= name.len() + 2
    &&& tag[0] == 60
    &&& tag.subrange(1, 1 + name.len() as int) == name
    &&& is_name_end_byte(tag[1 + name.len() as int])
    &&& tag.len() >= 2
    &&& tag[tag.len() - 2] == 47
    &&& tag[tag.len() - 1] == 62
}

/// Whether `tag` is a self-closing tag named `name`.
pub fn is_self_closing_tag(tag: &[u8], name: &[u8]) -> (r: bool)
    ensures
        r == spec_is_self_closing_tag(tag@, name@),
{
    let tl = tag.len();
    let nl = name.len();
    if nl >= tl || tl - nl < 2 {
        return false;
    }
    if tag[0] != 60 {
        return false;
    }
    if !bytes_eq(vstd::slice::slice_subrange(tag, 1, 1 + nl), name) {
        return false;
    }
    let e = tag[1 + nl];
    if !(e == 32 || e == 9 || e == 10 || e == 13 || e == 47 || e == 62) {
        return false;
    }
    tl >= 2 && tag[tl - 2] == 47 && tag[tl - 1] == 62
}


/// Replacing a pattern by text no longer than it never grows the string.
pub proof fn lemma_replace_all_shrinks(hay: Seq<u8>, pat: Seq<u8>, to: Seq<u8>)
    requires
        to.len() <= pat.len(),
    ensures
        spec_replace_all(hay, pat, to).len() <= hay.len(),
    decreases hay.len(),
{
    if pat.len() > 0 {
        lemma_spec_find(hay, pat, 0);
        match spec_find(hay, pat, 0) {
            Option::Some(i) => {
                lemma_replace_all_shrinks(hay.subrange(i + pat.len(), hay.len() as int), pat, to);
            },
            Option::None => (),
        }
    }
}


/// The number of non-overlapping occurrences of `pat` in `hay` at or
/// after `pos`, scanning left to right.
pub open spec fn spec_count_occ(hay: Seq<u8>, pat: Seq<u8>, pos: int) -> int
    decreases hay.len() + pat.len() - pos,
    via spec_count_occ_decreases
{
    if pat.len() == 0 {
        0
    } else {
        match spec_find(hay, pat, pos) {
            Option::None => 0,
            Option::Some(p) => 1 + spec_count_occ(hay, pat, p + pat.len()),
        }
    }
}

#[via_fn]
proof fn spec_count_occ_decreases(hay: Seq<u8>, pat: Seq<u8>, pos: int) {
    if pat.len() > 0 {
        if pos >= 0 {
            lemma_spec_find(hay, pat, pos);
        }
    }
}

pub proof fn lemma_count_occ_bounds(hay: Seq<u8>, pat: Seq<u8>, pos: int)
    requires
        pat.len() >= 1,
    ensures
        spec_count_occ(hay, pat, pos) >= 0,
        0 <= pos <= hay.len() + pat.len() ==> spec_count_occ(hay, pat, pos) * pat.len() + pos
            <= hay.len() + pat.len(),
    decreases hay.len() + pat.len() - pos,
{
    if pos >= 0 {
        lemma_spec_find(hay, pat, pos);
    }
    match spec_find(hay, pat, pos) {
        Option::Some(p) => {
            lemma_count_occ_bounds(hay, pat, p + pat.len());
            if 0 <= pos <= hay.len() + pat.len() {
                let c = spec_count_occ(hay, pat, p + pat.len());
                let pl = pat.len() as int;
                assert(c * pl + (p + pl) <= hay.len() + pl);
                assert((1 + c) * pl == pl + c * pl) by (nonlinear_arith);
                assert(spec_count_occ(hay, pat, pos) == 1 + c);
            }
        },
        Option::None => (),
    }
}

/// Counts the non-overlapping occurrences of `pat` in `hay`.
pub fn count_occ(hay: &[u8], pat: &[u8]) -> (r: usize)
    requires
        pat@.len() >= 1,
    ensures
        r == spec_count_occ(hay@, pat@, 0),
{
    let hl = hay.len();
    let pl = pat.len();
    proof {
        lemma_count_occ_bounds(hay@, pat@, 0);
    }
    let mut n: usize = 0;
    let mut pos: usize = 0;
    loop
        invariant
            hl == hay@.len(),
            pl == pat@.len(),
            pl >= 1,
            0 <= pos <= hl,
            n + spec_count_occ(hay@, pat@, pos as int) == spec_count_occ(hay@, pat@, 0),
            spec_count_occ(hay@, pat@, pos as int) >= 0,
            n <= pos,
        decreases hl - pos,
    {
        proof {
            lemma_spec_find(hay@, pat@, pos as int);
        }
        match find(hay, pat, pos) {
            Option::None => {
                return n;
            },
            Option::Some(p) => {
                proof {
                    lemma_count_occ_bounds(hay@, pat@, p + pl);
                }
                n = n + 1;
                if hl - p == pl {
                    proof {
                        assert(spec_count_occ(hay@, pat@, p + pl) == 0);
                    }
                    return n;
                }
                pos = p + pl;
            },
        }
    }
}

/// The last position at or before `from` where `needle` occurs.
pub open spec fn spec_rfind(hay: Seq<u8>, needle: Seq<u8>, from: int) -> Option<int>
    decreases from + 1,
{
    if from < 0 {
        None
    } else if is_match_at(hay, needle, from) {
        Some(from)
    } else {
        spec_rfind(hay, needle, from - 1)
    }
}

/// The last occurrence of `needle` that lies entirely within
/// `hay[..limit]`.
pub fn rfind_before(hay: &[u8], needle: &[u8], limit: usize) -> (r: Option<usize>)
    requires
        limit <= hay@.len(),
    ensures
        r matches Some(i) ==> spec_rfind(hay@, needle@, limit - needle@.len()) == Some(i as int),
        r is None ==> spec_rfind(hay@, needle@, limit - needle@.len()) is None,
{
    let nl = needle.len();
    if nl > limit {
        proof {
            lemma_rfind_none_neg(hay@, needle@, limit - nl);
        }
        return None;
    }
    let mut i: usize = limit - nl;
    loop
        invariant
            nl == needle@.len(),
            limit <= hay@.len(),
            nl <= limit,
            0 <= i <= limit - nl,
            spec_rfind(hay@, needle@, limit - nl) == spec_rfind(hay@, needle@, i as int),
        decreases i,
    {
        let h = vstd::slice::slice_subrange(hay, i, i + nl);
        if bytes_eq(h, needle) {
            proof {
                assert(is_match_at(hay@, needle@, i as int));
            }
            return Some(i);
        }
        proof {
            assert(!is_match_at(hay@, needle@, i as int));
        }
        if i == 0 {
            proof {
                lemma_rfind_none_neg(hay@, needle@, -1);
            }
            return None;
        }
        i = i - 1;
    }
}

proof fn lemma_rfind_none_neg(hay: Seq<u8>, needle: Seq<u8>, from: int)
    requires
        from < 0,
    ensures
        spec_rfind(hay, needle, from) is None,
{
}


/// The ASCII decimal numeral of a 64-bit value.
pub fn format_u64(n: u64) -> (r: Vec<u8>)
    ensures
        r@ == spec_u32_numeral(n as int),
        r@.len() >= 1,
{
    if n == 0 {
        let mut out: Vec<u8> = Vec::new();
        out.push(48);
        proof {
            assert(out@ =~= seq![48u8]);
        }
        return out;
    }
    let mut rev: Vec<u8> = Vec::new();
    let mut m: u64 = n;
    while m > 0
        invariant
            spec_dec_digits(n as int) =~= spec_dec_digits(m as int) + Seq::new(
                rev@.len(),
                |i: int| rev@[rev@.len() - 1 - i],
            ),
        decreases m,
    {
        let ghost m0 = m as int;
        let ghost rev0 = rev@;
        rev.push(48 + (m % 10) as u8);
        m = m / 10;
        proof {
            assert(spec_dec_digits(m0) == spec_dec_digits(m0 / 10).push((48 + m0 % 10) as u8));
            assert(Seq::new(rev@.len(), |i: int| rev@[rev@.len() - 1 - i]) =~= seq![
                (48 + m0 % 10) as u8,
            ] + Seq::new(rev0.len(), |i: int| rev0[rev0.len() - 1 - i]));
        }
    }
    let mut out: Vec<u8> = Vec::new();
    let len = rev.len();
    let mut j: usize = 0;
    while j < len
        invariant
            len == rev@.len(),
            0 <= j <= len,
            out@ =~= Seq::new(j as nat, |i: int| rev@[rev@.len() - 1 - i]),
        decreases len - j,
    {
        out.push(rev[len - 1 - j]);
        j = j + 1;
    }
    proof {
        assert(out@ =~= Seq::new(rev@.len(), |i: int| rev@[rev@.len() - 1 - i]));
        assert(spec_dec_digits(n as int) =~= spec_dec_digits(0) + out@);
        assert(out@ =~= spec_dec_digits(n as int));
    }
    out
}

} // verus!
