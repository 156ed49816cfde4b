//! Conversions between Excel column letters and 1-based column indices.
//!
//! Column letters form a base-26 numeral system whose digits `A..Z` have the
//! values 1..26: `A` is column 1, `Z` is 26, `AA` is 27, `ZZZ` is 18278.

use vstd::prelude::*;

verus! {

use vstd::arithmetic::div_mod::lemma_fundamental_div_mod_converse;

/// 1-based value of a single column letter: 'A' is 1, ..., 'Z' is 26.
pub open spec fn letter_value(c: char) -> int {
    c as u32 - 64
}

/// All characters are upper-case ASCII letters.
pub open spec fn is_upper_letters(s: Seq<char>) -> bool {
    forall|i: int| 0 <= i < s.len() ==> 'A' <= #[trigger] s[i] <= 'Z'
}

/// The 1-based column index denoted by a string of column letters,
/// read as a base-26 numeral with digit values 1..26.
pub open spec fn spec_col_index(s: Seq<char>) -> int
    decreases s.len(),
{
    if s.len() == 0 {
        0
    } else {
        spec_col_index(s.drop_last()) * 26 + letter_value(s.last())
    }
}

/// The column letters that denote the 1-based column index `n`;
/// the empty sequence for `n <= 0`.
pub open spec fn spec_col_name(n: int) -> Seq<char>
    decreases n,
{
    if n <= 0 {
        Seq::empty()
    } else {
        spec_col_name((n - 1) / 26).push(((65 + (n - 1) % 26) as u8) as char)
    }
}

/// The largest index denoted by `n` letters (the value of "Z" repeated `n` times).
pub open spec fn max_col_index(n: int) -> int
    decreases n,
{
    if n <= 0 {
        0
    } else {
        26 * max_col_index(n - 1) + 26
    }
}

pub proof fn lemma_col_index_bounds(s: Seq<char>)
    requires
        is_upper_letters(s),
    ensures
        0 <= spec_col_index(s) <= max_col_index(s.len() as int),
        s.len() >= 1 ==> 1 <= spec_col_index(s),
    decreases s.len(),
{
    if s.len() > 0 {
        assert(is_upper_letters(s.drop_last())) by {
            assert(forall|i: int|
                0 <= i < s.len() - 1 ==> s.drop_last()[i] == #[trigger] s[i]);
        }
        lemma_col_index_bounds(s.drop_last());
        assert(1 <= letter_value(s.last()) <= 26);
    }
}

pub proof fn lemma_max_col_index_6()
    ensures
        max_col_index(6) == 321272406,
{
    assert(max_col_index(0) == 0);
    assert(max_col_index(1) == 26);
    assert(max_col_index(2) == 702);
    assert(max_col_index(3) == 18278);
    assert(max_col_index(4) == 475254);
    assert(max_col_index(5) == 12356630);
    assert(max_col_index(6) == 321272406);
}

pub proof fn lemma_max_col_index_mono(m: int, n: int)
    requires
        m <= n,
    ensures
        0 <= max_col_index(m) <= max_col_index(n),
    decreases n,
{
    if n <= 0 {
    } else if m == n {
        lemma_max_col_index_mono(m - 1, n - 1);
    } else {
        lemma_max_col_index_mono(m, n - 1);
    }
}

/// Converts column letters to the 1-based column index:
/// "A" is 1, "Z" is 26, "AA" is 27; the empty string is 0.
pub fn to_column_index(col_name: &str) -> (r: u32)
    requires
        col_name@.len() <= 6,
        is_upper_letters(col_name@),
    ensures
        r == spec_col_index(col_name@),
{
    proof {
        lemma_col_index_bounds(col_name@);
        lemma_max_col_index_6();
    }
    let s = col_name;
    let n = s.unicode_len();
    let mut idx: u32 = 0;
    let mut i: usize = 0;
    while i < n
        invariant
            n == s@.len(),
            n <= 6,
            is_upper_letters(s@),
            0 <= i <= n,
            idx == spec_col_index(s@.take(i as int)),
            idx <= max_col_index(i as int),
        decreases n - i,
    {
        proof {
            assert(is_upper_letters(s@.take(i as int + 1))) by {
                assert(forall|j: int|
                    0 <= j < i + 1 ==> s@.take(i as int + 1)[j] == #[trigger] s@[j]);
            }
            assert(s@.take(i as int + 1).drop_last() =~= s@.take(i as int));
            assert(s@.take(i as int + 1).last() == s@[i as int]);
            lemma_max_col_index_6();
            lemma_max_col_index_mono(i as int + 1, 6);
            assert(max_col_index(i as int + 1) == 26 * max_col_index(i as int) + 26);
            assert(26 * idx + 26 <= max_col_index(i as int + 1) <= 321272406);
        }
        let b = s.get_ascii(i);
        assert(s@[i as int] as u8 == b);
        assert(65 <= b <= 90) by {
            assert('A' <= s@[i as int] <= 'Z');
        }
        idx = idx * 26 + ((b - 64) as u32);
        assert(idx == spec_col_index(s@.take(i as int + 1)));
        i = i + 1;
    }
    proof {
        assert(s@.take(n as int) =~= s@);
    }
    idx
}

/// Relies on String::from_utf8: a vector of bytes that are valid UTF-8
/// becomes the string holding exactly those bytes; ASCII bytes decode
/// one byte per character, each to the character of the same code point.
#[verifier::external_body]
fn string_from_ascii(bytes: Vec<u8>) -> (r: String)
    requires
        forall|i: int| 0 <= i < bytes@.len() ==> bytes@[i] < 128,
    ensures
        r@ == Seq::new(bytes@.len(), |i: int| bytes@[i] as char),
{
    String::from_utf8(bytes).expect("ASCII bytes are valid UTF-8")
}

/// Advances column letters by an increment: the result names the column
/// `increment` places to the right of `current`.
/// `to_column_name("A", 0)` is "A", `to_column_name("Z", 1)` is "AA".
/// The sum of index and increment must fit the `u32` it is computed in.
pub fn to_column_name(current: &str, increment: u32) -> (r: String)
    requires
        current@.len() <= 6,
        is_upper_letters(current@),
        spec_col_index(current@) + increment <= u32::MAX,
    ensures
        r@ == spec_col_name(spec_col_index(current@) + increment),
{
    let idx: u32 = to_column_index(current) + increment;
    let mut n: u32 = idx;
    let mut rev: Vec<u8> = Vec::new();
    while n > 0
        invariant
            spec_col_name(idx as int) =~= spec_col_name(n as int) + Seq::new(
                rev@.len(),
                |i: int| rev@[rev@.len() - 1 - i] as char,
            ),
            forall|i: int| 0 <= i < rev@.len() ==> 65 <= #[trigger] rev@[i] <= 90,
        decreases n,
    {
        let ghost n0 = n as int;
        let ghost rev0 = rev@;
        let rem: u32 = (n - 1) % 26;
        rev.push((65 + rem) as u8);
        n = (n - 1) / 26;
        proof {
            assert(spec_col_name(n0) == spec_col_name((n0 - 1) / 26).push(
                ((65 + (n0 - 1) % 26) as u8) as char,
            ));
            assert(Seq::new(rev@.len(), |i: int| rev@[rev@.len() - 1 - i] as char)
                =~= seq![((65 + (n0 - 1) % 26) as u8) as char] + Seq::new(
                    rev0.len(),
                    |i: int| rev0[rev0.len() - 1 - i] as char,
                ));
        }
    }
    let mut out: Vec<u8> = Vec::new();
    let len = rev.len();
    let mut j: usize = 0;
    while j < len
        invariant
            len == rev@.len(),
            0 <= j <= len,
            forall|i: int| 0 <= i < rev@.len() ==> 65 <= #[trigger] rev@[i] <= 90,
            out@ =~= Seq::new(j as nat, |i: int| rev@[rev@.len() - 1 - i]),
        decreases len - j,
    {
        out.push(rev[len - 1 - j]);
        j = j + 1;
    }
    let s = string_from_ascii(out);
    proof {
        assert(s@ =~= Seq::new(rev@.len(), |i: int| rev@[rev@.len() - 1 - i] as char));
        assert(spec_col_name(idx as int) =~= spec_col_name(0) + Seq::new(
            rev@.len(),
            |i: int| rev@[rev@.len() - 1 - i] as char,
        ));
        assert(spec_col_name(idx as int) =~= s@);
    }
    s
}

/// Column round-trip: converting column letters to their 1-based index and
/// back is the identity, and so is converting an index to letters and back.
pub proof fn lemma_column_round_trip(s: Seq<char>, n: int)
    requires
        1 <= s.len(),
        is_upper_letters(s),
        1 <= n,
    ensures
        spec_col_name(spec_col_index(s)) == s,
        spec_col_index(spec_col_name(n)) == n,
    decreases s.len(), n,
{
    lemma_name_of_index(s);
    lemma_index_of_name(n);
}

proof fn lemma_name_of_index(s: Seq<char>)
    requires
        1 <= s.len(),
        is_upper_letters(s),
    ensures
        spec_col_name(spec_col_index(s)) == s,
    decreases s.len(),
{
    let a = s.drop_last();
    let c = s.last();
    let v = letter_value(c);
    assert(is_upper_letters(a)) by {
        assert(forall|i: int| 0 <= i < s.len() - 1 ==> a[i] == #[trigger] s[i]);
    }
    lemma_col_index_bounds(a);
    let ia = spec_col_index(a);
    let idx = spec_col_index(s);
    assert(idx == ia * 26 + v);
    assert(1 <= v <= 26);
    lemma_fundamental_div_mod_converse(idx - 1, 26, ia, v - 1);
    assert((idx - 1) / 26 == ia);
    assert((idx - 1) % 26 == v - 1);
    assert(spec_col_name(idx) == spec_col_name(ia).push(((65 + (v - 1)) as u8) as char));
    assert(((64 + v) as u8) as char == c) by {
        assert(c as u32 == 64 + v);
        assert(65 <= c as u32 <= 90);
        vstd::utf8::char_u32_cast(c, c as u32);
        assert(((64 + v) as u8) as u32 == 64 + v);
    }
    if a.len() == 0 {
        assert(spec_col_name(ia) == Seq::<char>::empty());
        assert(spec_col_name(idx) =~= s);
    } else {
        lemma_name_of_index(a);
        assert(spec_col_name(idx) =~= s);
    }
}

proof fn lemma_index_of_name(n: int)
    requires
        1 <= n,
    ensures
        spec_col_index(spec_col_name(n)) == n,
        is_upper_letters(spec_col_name(n)),
        1 <= spec_col_name(n).len(),
    decreases n,
{
    vstd::arithmetic::div_mod::lemma_fundamental_div_mod(n - 1, 26);
    let q = (n - 1) / 26;
    let r = (n - 1) % 26;
    assert(0 <= r < 26);
    assert(0 <= q < n) by {
        vstd::arithmetic::div_mod::lemma_div_pos_is_pos(n - 1, 26);
        vstd::arithmetic::div_mod::lemma_div_nonincreasing(n - 1, 26);
    }
    let c = ((65 + r) as u8) as char;
    assert(c as u32 == 65 + r);
    assert('A' <= c <= 'Z');
    assert(letter_value(c) == r + 1);
    let name = spec_col_name(n);
    assert(name == spec_col_name(q).push(c));
    assert(name.drop_last() =~= spec_col_name(q));
    assert(name.last() == c);
    if q == 0 {
        assert(spec_col_name(q) == Seq::<char>::empty());
        assert(spec_col_index(Seq::<char>::empty()) == 0);
        assert(spec_col_index(name) == 0 * 26 + r + 1);
        assert(n == 26 * q + r + 1);
        assert(is_upper_letters(name)) by {
            assert(forall|i: int| 0 <= i < name.len() ==> name[i] == c);
        }
    } else {
        lemma_index_of_name(q);
        assert(spec_col_index(name) == q * 26 + r + 1);
        assert(n == 26 * q + r + 1);
        assert(is_upper_letters(name)) by {
            let prev = spec_col_name(q);
            assert(forall|i: int| 0 <= i < prev.len() ==> name[i] == #[trigger] prev[i]);
            assert(name[name.len() - 1] == c);
        }
    }
}

} // verus!
