//! The font model: layout bitmask constants, glyphs, and the font loader,
//! which turns the lines of a font-definition file into an indexed glyph
//! table.

use std::collections::HashMap;
use vstd::prelude::*;

use crate::strsmush::{
    chars_of, is_space, is_space_char, lemma_views_of_push, push_char, string_of, trailing_spaces,
    views_of,
};
use crate::Error;

verus! {

broadcast use vstd::std_specs::hash::group_hash_axioms;

/// Layout rule: two equal sub-characters merge.
pub const SMUSH_EQUAL: u32 = 1;
/// Layout rule: an underscore yields to a border character.
pub const SMUSH_UNDERLINE: u32 = 2;
/// Layout rule: between two border classes the later class wins.
pub const SMUSH_HIERARCHY: u32 = 4;
/// Layout rule: opposing bracket pairs collapse to a vertical bar.
pub const SMUSH_PAIR: u32 = 8;
/// Layout rule: slash pairs and `><` form big-X shapes.
pub const SMUSH_BIGX: u32 = 16;
/// Layout rule: two hardblanks merge into one.
pub const SMUSH_HARDBLANK: u32 = 32;
/// Layout flag: glyphs touch with whitespace trimmed but no substitution.
pub const SMUSH_KERN: u32 = 64;
/// Layout flag: rule-based smushing is enabled.
pub const SMUSH_ENABLE: u32 = 128;

/// One large character of a font: a fixed number of rows, all of the same
/// width in code points, built from printable code points and the font's
/// hardblank placeholder.
#[derive(Debug, Clone)]
pub struct FIGchar {
    rows: Vec<Vec<char>>,
}

impl View for FIGchar {
    type V = Seq<Seq<char>>;

    closed spec fn view(&self) -> Seq<Seq<char>> {
        views_of(self.rows@)
    }
}

/// All rows of a glyph carry the same number of code points.
pub open spec fn equal_widths(rows: Seq<Seq<char>>) -> bool {
    forall|i: int| 0 <= i < rows.len() ==> (#[trigger] rows[i]).len() == rows[0].len()
}

impl FIGchar {
    /// A glyph of `num` empty rows: the shape of the fallback glyph for
    /// code points a font does not define.
    pub(crate) fn with_lines(num: usize) -> (res: FIGchar)
        ensures
            res@ =~= Seq::new(num as nat, |i: int| Seq::<char>::empty()),
    {
        let mut rows: Vec<Vec<char>> = Vec::new();
        let mut i: usize = 0;
        while i < num
            invariant
                i <= num,
                rows@.len() == i,
                forall|j: int| 0 <= j < i ==> (#[trigger] rows@[j])@.len() == 0,
            decreases num - i,
        {
            rows.push(Vec::new());
            i = i + 1;
        }
        proof {
            assert(views_of(rows@) =~~= Seq::new(num as nat, |i: int| Seq::<char>::empty()));
        }
        FIGchar { rows }
    }

    /// Create a glyph from the given rows.  All rows must carry the same
    /// number of code points; otherwise the glyph is rejected with a
    /// `FontFormat` error.
    pub fn from_lines(lines: &Vec<&str>) -> (res: Result<FIGchar, Error>)
        ensures
            res is Ok <==> equal_widths(views_of(lines@)),
            res matches Ok(c) ==> c@ == views_of(lines@),
            res matches Err(e) ==> e matches Error::FontFormat(m) && m@
                == "invalid character width"@,
    {
        let ghost lv = views_of(lines@);
        let mut rows: Vec<Vec<char>> = Vec::new();
        let mut i: usize = 0;
        let width: usize = if lines.len() > 0 {
            chars_of(lines[0]).len()
        } else {
            0
        };
        while i < lines.len()
            invariant
                i <= lines@.len(),
                lv == views_of(lines@),
                lv.len() == lines@.len(),
                lines@.len() > 0 ==> width as int == lv[0].len(),
                rows@.len() == i,
                forall|j: int| 0 <= j < i ==> (#[trigger] rows@[j])@ == lv[j],
                forall|j: int| 0 <= j < i ==> (#[trigger] lv[j]).len() == width,
            decreases lines@.len() - i,
        {
            let v = chars_of(lines[i]);
            proof {
                assert(lv[i as int] == lines@[i as int]@);
            }
            if v.len() != width {
                return Err(Error::FontFormat("invalid character width"));
            }
            rows.push(v);
            i = i + 1;
        }
        proof {
            assert(views_of(rows@) =~~= lv);
        }
        Ok(FIGchar { rows })
    }

    /// One row of the glyph.
    pub fn row(&self, i: usize) -> (res: &Vec<char>)
        requires
            i < self@.len(),
        ensures
            res@ == self@[i as int],
    {
        &self.rows[i]
    }

    /// Retrieve the rows of this glyph.
    pub fn get(&self) -> (res: Vec<String>)
        ensures
            views_of(res@) == self@,
    {
        rows_to_strings(&self.rows)
    }

    /// The glyph's rows joined into one text, each row followed by a line
    /// break.
    pub fn text(&self) -> (res: String)
        ensures
            res@ == spec_joined(self@),
    {
        let mut res = String::new();
        let mut i: usize = 0;
        while i < self.rows.len()
            invariant
                i <= self.rows@.len(),
                res@ == spec_joined(self@.take(i as int)),
                self@.len() == self.rows@.len(),
                self@ == views_of(self.rows@),
            decreases self.rows@.len() - i,
        {
            let row_len = self.rows[i].len();
            let mut j: usize = 0;
            while j < row_len
                invariant
                    j <= row_len,
                    i < self.rows@.len(),
                    row_len == self.rows@[i as int]@.len(),
                    self@.len() == self.rows@.len(),
                    self@ == views_of(self.rows@),
                    res@ == spec_joined(self@.take(i as int)) + self.rows@[i as int]@.take(j as int),
                decreases row_len - j,
            {
                push_char(&mut res, self.rows[i][j]);
                proof {
                    assert(res@ =~= spec_joined(self@.take(i as int)) + self.rows@[i as int]@.take(
                        j + 1 as int,
                    ));
                }
                j = j + 1;
            }
            push_char(&mut res, '\n');
            proof {
                assert(self@.take(i + 1 as int).drop_last() =~= self@.take(i as int));
                assert(self@.take(i + 1 as int).last() == self.rows@[i as int]@);
                assert(self.rows@[i as int]@.take(row_len as int) =~= self.rows@[i as int]@);
                assert(res@ =~= spec_joined(self@.take(i + 1 as int)));
            }
            i = i + 1;
        }
        proof {
            assert(self@.take(self@.len() as int) =~= self@);
        }
        res
    }
}

/// The rows of a glyph, one after the other, each followed by a line break.
pub open spec fn spec_joined(rows: Seq<Seq<char>>) -> Seq<char>
    decreases rows.len(),
{
    if rows.len() == 0 {
        Seq::empty()
    } else {
        spec_joined(rows.drop_last()) + rows.last() + seq!['\n']
    }
}

pub(crate) fn rows_to_strings(rows: &Vec<Vec<char>>) -> (res: Vec<String>)
    ensures
        views_of(res@) == views_of(rows@),
{
    let mut res: Vec<String> = Vec::new();
    let mut i: usize = 0;
    while i < rows.len()
        invariant
            i <= rows@.len(),
            res@.len() == i,
            forall|j: int| 0 <= j < i ==> (#[trigger] res@[j])@ == rows@[j]@,
        decreases rows@.len() - i,
    {
        res.push(string_of(&rows[i]));
        i = i + 1;
    }
    proof {
        assert(views_of(res@) =~~= views_of(rows@));
    }
    res
}

/// Number of code points equal to `c` at the back of `s`.
pub open spec fn trailing_matching(s: Seq<char>, c: char) -> int
    decreases s.len(),
{
    if s.len() == 0 {
        0
    } else if s.last() == c {
        1 + trailing_matching(s.drop_last(), c)
    } else {
        0
    }
}

proof fn lemma_trailing_matching_is(s: Seq<char>, c: char, n: int)
    requires
        0 <= n <= s.len(),
        forall|i: int| s.len() - n <= i < s.len() ==> s[i] == c,
        n < s.len() ==> s[s.len() - 1 - n] != c,
    ensures
        trailing_matching(s, c) == n,
    decreases n,
{
    if n == 0 {
    } else {
        let t = s.drop_last();
        assert forall|i: int| t.len() - (n - 1) <= i < t.len() implies t[i] == c by {
            assert(t[i] == s[i]);
        }
        assert(n - 1 < t.len() ==> t[t.len() - 1 - (n - 1)] != c) by {
            if n - 1 < t.len() {
                assert(t[t.len() - 1 - (n - 1)] == s[s.len() - 1 - n]);
            }
        }
        lemma_trailing_matching_is(t, c, n - 1);
    }
}

proof fn lemma_trailing_matching_bounds(s: Seq<char>, c: char)
    ensures
        0 <= trailing_matching(s, c) <= s.len(),
    decreases s.len(),
{
    if s.len() > 0 && s.last() == c {
        lemma_trailing_matching_bounds(s.drop_last(), c);
    }
}

/// A raw font line turned into one glyph row: trailing white space goes,
/// then the trailing run of the line's own end-marker character goes with
/// it.  A line that is blank before a marker can be found is rejected.
pub open spec fn spec_strip_row(line: Seq<char>) -> Option<Seq<char>> {
    let t = line.take(line.len() - trailing_spaces(line));
    if t.len() == 0 {
        None
    } else {
        let mark = t.last();
        let u = t.drop_last();
        Some(u.take(u.len() - trailing_matching(u, mark)))
    }
}

fn count_trailing_matching(v: &Vec<char>, upto: usize, c: char) -> (n: usize)
    requires
        upto <= v@.len(),
    ensures
        n as int == trailing_matching(v@.take(upto as int), c),
        n <= upto,
{
    let ghost s = v@.take(upto as int);
    let mut i: usize = 0;
    while i < upto && v[upto - 1 - i] == c
        invariant
            i <= upto <= v@.len(),
            s == v@.take(upto as int),
            forall|j: int| s.len() - i <= j < s.len() ==> s[j] == c,
        decreases upto - i,
    {
        proof {
            assert(s[upto - 1 - i] == v@[upto - 1 - i]);
        }
        i = i + 1;
    }
    proof {
        if i < upto {
            assert(s[s.len() - 1 - i] == v@[upto - 1 - i]);
        }
        lemma_trailing_matching_is(s, c, i as int);
    }
    i
}

fn count_trailing_spaces_upto(v: &Vec<char>, upto: usize) -> (n: usize)
    requires
        upto <= v@.len(),
    ensures
        n as int == trailing_spaces(v@.take(upto as int)),
        n <= upto,
{
    let ghost s = v@.take(upto as int);
    let mut i: usize = 0;
    while i < upto && is_space(v[upto - 1 - i])
        invariant
            i <= upto <= v@.len(),
            s == v@.take(upto as int),
            forall|j: int| s.len() - i <= j < s.len() ==> is_space_char(s[j]),
        decreases upto - i,
    {
        proof {
            assert(s[upto - 1 - i] == v@[upto - 1 - i]);
        }
        i = i + 1;
    }
    proof {
        if i < upto {
            assert(s[s.len() - 1 - i] == v@[upto - 1 - i]);
        }
        crate::strsmush::lemma_trailing_spaces_is(s, i as int);
    }
    i
}

/// Strip one raw font line into a glyph row, as `spec_strip_row` says.
fn strip_row(v: &Vec<char>) -> (res: Option<Vec<char>>)
    ensures
        res is Some <==> spec_strip_row(v@) is Some,
        res matches Some(r) ==> Some(r@) == spec_strip_row(v@),
{
    proof {
        assert(v@.take(v@.len() as int) =~= v@);
    }
    let ws = count_trailing_spaces_upto(v, v.len());
    let tlen = v.len() - ws;
    if tlen == 0 {
        return None;
    }
    let mark = v[tlen - 1];
    let ulen = tlen - 1;
    let ghost t = v@.take(tlen as int);
    let ghost u = t.drop_last();
    proof {
        assert(u =~= v@.take(ulen as int));
        assert(t.last() == v@[tlen - 1]);
    }
    let run = count_trailing_matching(v, ulen, mark);
    let keep = ulen - run;
    let mut res: Vec<char> = Vec::new();
    let mut i: usize = 0;
    while i < keep
        invariant
            i <= keep <= v@.len(),
            res@ =~= v@.take(keep as int).take(i as int),
        decreases keep - i,
    {
        proof {
            assert(v@.take(keep as int)[i as int] == v@[i as int]);
        }
        res.push(v[i]);
        proof {
            assert(res@ =~= v@.take(keep as int).take(i + 1 as int));
        }
        i = i + 1;
    }
    proof {
        assert(res@ =~= v@.take(keep as int));
        assert(u.take(keep as int) =~= v@.take(keep as int));
    }
    Some(res)
}

/// An ASCII digit of the given base (only bases 10 and 16 occur in the font
/// format).
pub open spec fn is_radix_digit(c: char, radix: int) -> bool {
    let u = c as u32;
    ||| (0x30 <= u && u <= 0x39)
    ||| (radix == 16 && ((0x61 <= u && u <= 0x66) || (0x41 <= u && u <= 0x46)))
}

pub open spec fn radix_digit_val(c: char) -> int {
    let u = c as u32;
    if 0x30 <= u && u <= 0x39 {
        u - 0x30
    } else if 0x61 <= u && u <= 0x66 {
        u - 0x61 + 10
    } else if 0x41 <= u && u <= 0x46 {
        u - 0x41 + 10
    } else {
        0
    }
}

/// The integer written by a sequence of digits in the given base.
pub open spec fn radix_value(s: Seq<char>, radix: int) -> int
    decreases s.len(),
{
    if s.len() == 0 {
        0
    } else {
        radix_value(s.drop_last(), radix) * radix + radix_digit_val(s.last())
    }
}

/// A numeral may start with one plus sign, which changes nothing.
pub open spec fn strip_plus(s: Seq<char>) -> Seq<char> {
    if s.len() > 0 && s[0] == '+' {
        s.drop_first()
    } else {
        s
    }
}

pub open spec fn all_digits(s: Seq<char>, radix: int) -> bool {
    s.len() > 0 && forall|i: int| 0 <= i < s.len() ==> is_radix_digit(#[trigger] s[i], radix)
}

/// A well-formed unsigned numeral whose value stays within `bound`.
pub open spec fn spec_parse_ok(s: Seq<char>, radix: int, bound: int) -> bool {
    all_digits(strip_plus(s), radix) && radix_value(strip_plus(s), radix) <= bound
}

proof fn lemma_radix_value_nonneg(s: Seq<char>, radix: int)
    requires
        radix >= 1,
    ensures
        radix_value(s, radix) >= 0,
    decreases s.len(),
{
    if s.len() > 0 {
        lemma_radix_value_nonneg(s.drop_last(), radix);
        let v = radix_value(s.drop_last(), radix);
        assert(v * radix >= 0) by (nonlinear_arith)
            requires
                v >= 0,
                radix >= 1,
        ;
        assert(radix_digit_val(s.last()) >= 0);
    }
}

proof fn lemma_radix_value_take_succ(s: Seq<char>, radix: int, j: int)
    requires
        0 <= j < s.len(),
    ensures
        radix_value(s.take(j + 1), radix) == radix_value(s.take(j), radix) * radix
            + radix_digit_val(s[j]),
{
    assert(s.take(j + 1).drop_last() =~= s.take(j));
    assert(s.take(j + 1).last() == s[j]);
}

/// A numeral's value never shrinks as more digits arrive on the right.
proof fn lemma_radix_value_prefix_le(s: Seq<char>, radix: int, j: int)
    requires
        radix >= 2,
        0 <= j <= s.len(),
    ensures
        radix_value(s.take(j), radix) <= radix_value(s, radix),
    decreases s.len() - j,
{
    if j == s.len() {
        assert(s.take(j) =~= s);
    } else {
        lemma_radix_value_take_succ(s, radix, j);
        lemma_radix_value_nonneg(s.take(j), radix);
        let v = radix_value(s.take(j), radix);
        assert(v * radix >= v) by (nonlinear_arith)
            requires
                v >= 0,
                radix >= 2,
        ;
        assert(radix_digit_val(s[j]) >= 0);
        lemma_radix_value_prefix_le(s, radix, j + 1);
    }
}

fn digit_of(c: char, radix: u32) -> (res: Option<u32>)
    requires
        radix == 10 || radix == 16,
    ensures
        res is Some <==> is_radix_digit(c, radix as int),
        res matches Some(d) ==> d as int == radix_digit_val(c) && d < radix,
{
    let u = c as u32;
    if 0x30 <= u && u <= 0x39 {
        Some(u - 0x30)
    } else if radix == 16 && 0x61 <= u && u <= 0x66 {
        Some(u - 0x61 + 10)
    } else if radix == 16 && 0x41 <= u && u <= 0x46 {
        Some(u - 0x41 + 10)
    } else {
        None
    }
}

/// Parse the digits of `v` from position `from` on as an unsigned numeral
/// in the given base, refusing anything but digits and any value beyond
/// `bound`.
fn parse_mag(v: &Vec<char>, from: usize, radix: u32, bound: u64) -> (res: Option<u64>)
    requires
        radix == 10 || radix == 16,
        from <= v@.len(),
    ensures
        res is Some <==> (all_digits(v@.skip(from as int), radix as int) && radix_value(
            v@.skip(from as int),
            radix as int,
        ) <= bound as int),
        res matches Some(x) ==> x as int == radix_value(v@.skip(from as int), radix as int),
{
    let ghost s = v@.skip(from as int);
    let n = v.len() - from;
    if n == 0 {
        return None;
    }
    let mut acc: u64 = 0;
    let mut j: usize = 0;
    proof {
        assert(s.take(0) =~= Seq::<char>::empty());
    }
    while j < n
        invariant
            j <= n,
            n == s.len(),
            from + n == v@.len(),
            v@.len() <= usize::MAX,
            s == v@.skip(from as int),
            radix == 10 || radix == 16,
            forall|k: int| 0 <= k < j ==> is_radix_digit(#[trigger] s[k], radix as int),
            acc as int == radix_value(s.take(j as int), radix as int),
            acc <= bound,
        decreases n - j,
    {
        let c = v[from + j];
        proof {
            assert(s[j as int] == v@[from + j]);
        }
        match digit_of(c, radix) {
            None => {
                return None;
            },
            Some(d) => {
                proof {
                    let a = acc as int;
                    let r = radix as int;
                    assert(a * r + 15 < u128::MAX) by (nonlinear_arith)
                        requires
                            0 <= a <= u64::MAX,
                            r == 10 || r == 16,
                    ;
                }
                let t: u128 = acc as u128 * radix as u128 + d as u128;
                proof {
                    lemma_radix_value_take_succ(s, radix as int, j as int);
                }
                if t > bound as u128 {
                    proof {
                        lemma_radix_value_prefix_le(s, radix as int, j + 1);
                    }
                    return None;
                }
                acc = t as u64;
            },
        }
        j = j + 1;
    }
    proof {
        assert(s.take(n as int) =~= s);
    }
    Some(acc)
}

/// Parse a decimal numeral as the standard library does: an optional plus
/// sign, then digits, the value fitting the machine word.
pub(crate) fn parse_usize_tok(v: &Vec<char>) -> (res: Option<usize>)
    ensures
        res is Some <==> spec_parse_ok(v@, 10, usize::MAX as int),
        res matches Some(x) ==> x as int == radix_value(strip_plus(v@), 10),
{
    let from: usize = if v.len() > 0 && v[0] == '+' {
        1
    } else {
        0
    };
    proof {
        assert(strip_plus(v@) =~= v@.skip(from as int));
    }
    match parse_mag(v, from, 10, usize::MAX as u64) {
        Some(x) => Some(x as usize),
        None => None,
    }
}

/// Parse a decimal numeral with optional sign into a 32-bit unsigned value.
pub(crate) fn parse_u32_tok(v: &Vec<char>, radix: u32) -> (res: Option<u32>)
    requires
        radix == 10 || radix == 16,
    ensures
        res is Some <==> spec_parse_ok(v@, radix as int, u32::MAX as int),
        res matches Some(x) ==> x as int == radix_value(strip_plus(v@), radix as int),
{
    let from: usize = if v.len() > 0 && v[0] == '+' {
        1
    } else {
        0
    };
    proof {
        assert(strip_plus(v@) =~= v@.skip(from as int));
    }
    match parse_mag(v, from, radix, u32::MAX as u64) {
        Some(x) => Some(x as u32),
        None => None,
    }
}

/// The body of a signed numeral, after its optional sign.
pub open spec fn signed_body(s: Seq<char>) -> Seq<char> {
    if s.len() > 0 && (s[0] == '+' || s[0] == '-') {
        s.drop_first()
    } else {
        s
    }
}

pub open spec fn signed_neg(s: Seq<char>) -> bool {
    s.len() > 0 && s[0] == '-'
}

/// A well-formed signed decimal numeral within the 32-bit signed range.
pub open spec fn spec_parse_i32_ok(s: Seq<char>) -> bool {
    all_digits(signed_body(s), 10) && (if signed_neg(s) {
        radix_value(signed_body(s), 10) <= 0x8000_0000
    } else {
        radix_value(signed_body(s), 10) <= 0x7FFF_FFFF
    })
}

pub open spec fn spec_i32_value(s: Seq<char>) -> int {
    if signed_neg(s) {
        -radix_value(signed_body(s), 10)
    } else {
        radix_value(signed_body(s), 10)
    }
}

/// Parse a signed decimal numeral as the standard library does.
pub(crate) fn parse_i32_tok(v: &Vec<char>) -> (res: Option<i32>)
    ensures
        res is Some <==> spec_parse_i32_ok(v@),
        res matches Some(x) ==> x as int == spec_i32_value(v@),
{
    let neg = v.len() > 0 && v[0] == '-';
    let from: usize = if v.len() > 0 && (v[0] == '+' || v[0] == '-') {
        1
    } else {
        0
    };
    proof {
        assert(signed_body(v@) =~= v@.skip(from as int));
    }
    let bound: u64 = if neg {
        0x8000_0000
    } else {
        0x7FFF_FFFF
    };
    match parse_mag(v, from, 10, bound) {
        Some(x) => {
            if neg {
                let y: i64 = -(x as i64);
                Some(y as i32)
            } else {
                Some(x as i32)
            }
        },
        None => None,
    }
}

/// Number of non-white-space code points at the front of `s`.
pub open spec fn leading_nonspaces(s: Seq<char>) -> int
    decreases s.len(),
{
    if s.len() == 0 {
        0
    } else if !is_space_char(s[0]) {
        1 + leading_nonspaces(s.drop_first())
    } else {
        0
    }
}

pub(crate) proof fn lemma_leading_nonspaces_bounds(s: Seq<char>)
    ensures
        0 <= leading_nonspaces(s) <= s.len(),
    decreases s.len(),
{
    if s.len() > 0 && !is_space_char(s[0]) {
        lemma_leading_nonspaces_bounds(s.drop_first());
    }
}

pub(crate) proof fn lemma_leading_nonspaces_is(s: Seq<char>, n: int)
    requires
        0 <= n <= s.len(),
        forall|i: int| 0 <= i < n ==> !is_space_char(s[i]),
        n < s.len() ==> is_space_char(s[n]),
    ensures
        leading_nonspaces(s) == n,
    decreases n,
{
    if n == 0 {
    } else {
        let t = s.drop_first();
        assert forall|i: int| 0 <= i < n - 1 implies !is_space_char(t[i]) by {
            assert(t[i] == s[i + 1]);
        }
        assert(n - 1 < t.len() ==> is_space_char(t[n - 1])) by {
            if n - 1 < t.len() {
                assert(t[n - 1] == s[n]);
            }
        }
        lemma_leading_nonspaces_is(t, n - 1);
    }
}

/// The white-space-separated tokens of a line, in order.
pub open spec fn spec_tokens(s: Seq<char>) -> Seq<Seq<char>>
    decreases s.len(),
    via spec_tokens_decreases
{
    if s.len() == 0 {
        Seq::empty()
    } else if is_space_char(s[0]) {
        spec_tokens(s.drop_first())
    } else {
        let n = 1 + leading_nonspaces(s.drop_first());
        seq![s.take(n)] + spec_tokens(s.skip(n))
    }
}

#[via_fn]
proof fn spec_tokens_decreases(s: Seq<char>) {
    if s.len() > 0 && !is_space_char(s[0]) {
        lemma_leading_nonspaces_bounds(s.drop_first());
    }
}

/// Split a line into its white-space-separated tokens.
pub(crate) fn tokens_of(v: &Vec<char>) -> (res: Vec<Vec<char>>)
    ensures
        views_of(res@) == spec_tokens(v@),
{
    let mut res: Vec<Vec<char>> = Vec::new();
    let mut p: usize = 0;
    proof {
        assert(v@.skip(0) =~= v@);
        assert(views_of(res@) + spec_tokens(v@) =~~= spec_tokens(v@));
    }
    while p < v.len()
        invariant
            p <= v@.len(),
            spec_tokens(v@) == views_of(res@) + spec_tokens(v@.skip(p as int)),
        decreases v@.len() - p,
    {
        if is_space(v[p]) {
            proof {
                assert(v@.skip(p as int).drop_first() =~= v@.skip(p + 1 as int));
                assert(v@.skip(p as int)[0] == v@[p as int]);
            }
            p = p + 1;
        } else {
            let start = p;
            let mut q = p + 1;
            while q < v.len() && !is_space(v[q])
                invariant
                    start < q <= v@.len(),
                    forall|k: int| start <= k < q ==> !is_space_char(v@[k]),
                decreases v@.len() - q,
            {
                q = q + 1;
            }
            let mut tok: Vec<char> = Vec::new();
            let mut i = start;
            while i < q
                invariant
                    start <= i <= q <= v@.len(),
                    tok@ =~= v@.subrange(start as int, i as int),
                decreases q - i,
            {
                tok.push(v[i]);
                proof {
                    assert(tok@ =~= v@.subrange(start as int, i + 1 as int));
                }
                i = i + 1;
            }
            proof {
                let s = v@.skip(start as int);
                assert forall|k: int| 0 <= k < q - start implies !is_space_char(s[k]) by {
                    assert(s[k] == v@[start + k]);
                }
                assert(q - start < s.len() ==> is_space_char(s[q - start])) by {
                    if q - start < s.len() {
                        assert(s[q - start] == v@[q as int]);
                    }
                }
                lemma_leading_nonspaces_is(s, q - start);
                assert(s[0] == v@[start as int]);
                let n = 1 + leading_nonspaces(s.drop_first());
                assert(n == q - start);
                assert(s.take(n) =~= v@.subrange(start as int, q as int));
                assert(tok@ == s.take(n));
                assert(s.skip(n) =~= v@.skip(q as int));
                assert(spec_tokens(s) == seq![tok@] + spec_tokens(v@.skip(q as int)));
                lemma_views_of_push(res@, tok);
                assert(views_of(res@.push(tok)) + spec_tokens(v@.skip(q as int)) =~~= views_of(
                    res@,
                ) + spec_tokens(s));
            }
            res.push(tok);
            p = q;
        }
    }
    proof {
        assert(v@.skip(v@.len() as int) =~= Seq::<char>::empty());
        assert(views_of(res@) + spec_tokens(Seq::<char>::empty()) =~~= views_of(res@));
    }
    res
}

/// `s` without its leading and trailing white space.
pub open spec fn spec_trim(s: Seq<char>) -> Seq<char> {
    if crate::strsmush::leading_spaces(s) == s.len() {
        Seq::empty()
    } else {
        s.subrange(crate::strsmush::leading_spaces(s), s.len() - trailing_spaces(s))
    }
}

proof fn lemma_trim_bounds(s: Seq<char>)
    ensures
        crate::strsmush::leading_spaces(s) < s.len() ==> crate::strsmush::leading_spaces(s)
            + trailing_spaces(s) <= s.len(),
    decreases s.len(),
{
    crate::strsmush::lemma_leading_spaces_bounds(s);
    crate::strsmush::lemma_trailing_spaces_bounds(s);
    let lead = crate::strsmush::leading_spaces(s);
    let trail = trailing_spaces(s);
    if lead < s.len() && lead + trail > s.len() {
        assert(s.len() - trail <= lead < s.len());
        assert(is_space_char(s[lead]));
        assert(false);
    }
}

fn trim_chars(v: &Vec<char>) -> (res: Vec<char>)
    ensures
        res@ == spec_trim(v@),
{
    let lead = crate::strsmush::count_leading(v);
    if lead == v.len() {
        proof {
            assert(Seq::<char>::empty() =~= spec_trim(v@));
        }
        return Vec::new();
    }
    proof {
        lemma_trim_bounds(v@);
        crate::strsmush::lemma_leading_spaces_bounds(v@);
        crate::strsmush::lemma_trailing_spaces_bounds(v@);
    }
    let trail = crate::strsmush::count_trailing(v);
    let end = v.len() - trail;
    let mut res: Vec<char> = Vec::new();
    let mut i = lead;
    proof {
        assert(res@ =~= v@.subrange(lead as int, lead as int));
    }
    while i < end
        invariant
            lead <= i <= end <= v@.len(),
            res@ =~= v@.subrange(lead as int, i as int),
        decreases end - i,
    {
        res.push(v[i]);
        proof {
            assert(res@ =~= v@.subrange(lead as int, i + 1 as int));
        }
        i = i + 1;
    }
    res
}

/// The value of a code tag as the loader reads it: a token that starts with
/// a minus marks an unused translation slot and maps to the unreachable
/// placeholder code point 1; a `0x` or `0X` prefix selects hexadecimal;
/// anything else must be a decimal numeral.
pub open spec fn spec_u32_from(s: Seq<char>) -> Option<u32> {
    spec_u32_from_token(spec_trim(s))
}

/// `spec_u32_from` on a token already free of surrounding white space.
pub open spec fn spec_u32_from_token(t: Seq<char>) -> Option<u32> {
    if t.len() > 0 && t[0] == '-' {
        Some(1u32)
    } else {
        let hex = t.len() >= 2 && t[0] == '0' && (t[1] == 'x' || t[1] == 'X');
        let rest = if hex {
            t.skip(2)
        } else {
            t
        };
        let radix: int = if hex {
            16
        } else {
            10
        };
        if spec_parse_ok(rest, radix, u32::MAX as int) {
            Some(radix_value(strip_plus(rest), radix) as u32)
        } else {
            None
        }
    }
}

/// Read a code tag, written as a decimal integer, a `0x`/`0X`-prefixed
/// hexadecimal integer, or a negative number standing for an unused
/// translation slot, which maps to code point 1.  A malformed tag is
/// rejected with a `Parse` error wrapping the offending field.
pub fn u32_from_str(s: &str) -> (res: Result<u32, Error>)
    ensures
        spec_u32_from(s@) matches Some(v) ==> res == Ok::<u32, Error>(v),
        spec_u32_from(s@) is None ==> (res matches Err(e) && e matches Error::Parse(t) && t@
            == spec_trim(s@)),
{
    let v = chars_of(s);
    let t = trim_chars(&v);
    u32_from_chars_trimmed(&t)
}

/// Read a code tag from a token already free of surrounding white space.
pub(crate) fn u32_from_chars_trimmed(t: &Vec<char>) -> (res: Result<u32, Error>)
    ensures
        spec_u32_from_token(t@) matches Some(v) ==> res == Ok::<u32, Error>(v),
        spec_u32_from_token(t@) is None ==> (res matches Err(e) && e matches Error::Parse(u) && u@
            == t@),
{
    if t.len() > 0 && t[0] == '-' {
        return Ok(1);
    }
    let hex = t.len() >= 2 && t[0] == '0' && (t[1] == 'x' || t[1] == 'X');
    let parsed = if hex {
        let mut rest: Vec<char> = Vec::new();
        let mut i: usize = 2;
        while i < t.len()
            invariant
                2 <= i <= t@.len(),
                rest@ =~= t@.subrange(2, i as int),
            decreases t@.len() - i,
        {
            rest.push(t[i]);
            proof {
                assert(rest@ =~= t@.subrange(2, i + 1 as int));
            }
            i = i + 1;
        }
        proof {
            assert(rest@ =~= t@.skip(2));
        }
        parse_u32_tok(&rest, 16)
    } else {
        parse_u32_tok(t, 10)
    };
    match parsed {
        Some(x) => Ok(x),
        None => Err(Error::Parse(string_of(t))),
    }
}

/// Relies on core::char::from_u32: the result is `Some` exactly on Unicode
/// scalar values, that is, outside the surrogate range and at most
/// 0x10FFFF, and the returned character carries the given scalar value.
pub assume_specification[ core::char::from_u32 ](n: u32) -> (res: Option<char>)
    ensures
        res is Some <==> (n < 0xD800 || (0xE000 <= n && n <= 0x10FFFF)),
        res matches Some(c) ==> c as u32 == n,
;

/// Turn a numeric code tag into the code point it names, rejecting values
/// that are no Unicode scalar value with a `CodeTag` error.
pub fn char_from_u32(num: u32) -> (res: Result<char, Error>)
    ensures
        (num < 0xD800 || (0xE000 <= num && num <= 0x10FFFF)) <==> res is Ok,
        res matches Ok(c) ==> c as u32 == num,
        res is Err ==> res == Err::<char, Error>(Error::CodeTag(num)),
{
    match core::char::from_u32(num) {
        Some(c) => Ok(c),
        None => Err(Error::CodeTag(num)),
    }
}

/// Whether a numeric value names a Unicode scalar value.
pub open spec fn is_scalar_value(n: u32) -> bool {
    n < 0xD800 || (0xE000 <= n && n <= 0x10FFFF)
}

/// The fields of a font-definition header line.
#[derive(Debug, Clone, Copy, PartialEq, Eq, Structural)]
pub struct HeaderInfo {
    pub version: char,
    pub hardblank: char,
    pub height: usize,
    pub baseline: usize,
    pub max_length: usize,
    pub old_layout: i32,
    pub comment_lines: usize,
    pub right_to_left: bool,
    pub layout: u32,
    pub count: u32,
}

/// The header line must begin with the four-byte magic tag of one of the two
/// accepted format variants.
pub open spec fn spec_magic_ok(s: Seq<char>) -> bool {
    s.len() >= 4 && (s[0] == 'f' || s[0] == 't') && s[1] == 'l' && s[2] == 'f' && s[3] == '2'
}

/// The parsed header, when the line is well formed: the magic tag, at least
/// nine whitespace-separated fields, a first field long enough to carry the
/// version and hardblank characters, and integer fields that parse.
pub open spec fn spec_parse_header(s: Seq<char>) -> Option<HeaderInfo> {
    let toks = spec_tokens(s);
    if !spec_magic_ok(s) || toks.len() < 9 || toks[0].len() < 6 {
        None
    } else if !spec_parse_ok(toks[1], 10, usize::MAX as int) || !spec_parse_ok(
        toks[2],
        10,
        usize::MAX as int,
    ) || !spec_parse_ok(toks[3], 10, usize::MAX as int) || !spec_parse_i32_ok(toks[4])
        || !spec_parse_ok(toks[5], 10, usize::MAX as int) || !spec_parse_ok(
        toks[7],
        10,
        u32::MAX as int,
    ) || !spec_parse_ok(toks[8], 10, u32::MAX as int) {
        None
    } else {
        Some(
            HeaderInfo {
                version: toks[0][4],
                hardblank: toks[0][5],
                height: radix_value(strip_plus(toks[1]), 10) as usize,
                baseline: radix_value(strip_plus(toks[2]), 10) as usize,
                max_length: radix_value(strip_plus(toks[3]), 10) as usize,
                old_layout: spec_i32_value(toks[4]) as i32,
                comment_lines: radix_value(strip_plus(toks[5]), 10) as usize,
                right_to_left: toks[6] == seq!['1'],
                layout: radix_value(strip_plus(toks[7]), 10) as u32,
                count: radix_value(strip_plus(toks[8]), 10) as u32,
            },
        )
    }
}

/// When header parsing fails on an integer field, the first field that
/// failed; `None` when the failure is structural (magic tag, too few
/// fields, short first field).
pub open spec fn spec_header_bad_field(s: Seq<char>) -> Option<Seq<char>> {
    let toks = spec_tokens(s);
    if !spec_magic_ok(s) || toks.len() < 9 || toks[0].len() < 6 {
        None
    } else if !spec_parse_ok(toks[1], 10, usize::MAX as int) {
        Some(toks[1])
    } else if !spec_parse_ok(toks[2], 10, usize::MAX as int) {
        Some(toks[2])
    } else if !spec_parse_ok(toks[3], 10, usize::MAX as int) {
        Some(toks[3])
    } else if !spec_parse_i32_ok(toks[4]) {
        Some(toks[4])
    } else if !spec_parse_ok(toks[5], 10, usize::MAX as int) {
        Some(toks[5])
    } else if !spec_parse_ok(toks[7], 10, u32::MAX as int) {
        Some(toks[7])
    } else if !spec_parse_ok(toks[8], 10, u32::MAX as int) {
        Some(toks[8])
    } else {
        None
    }
}

/// Parse the header line of a font definition.
fn parse_header(line: &Vec<char>) -> (res: Result<HeaderInfo, Error>)
    ensures
        res is Ok <==> spec_parse_header(line@) is Some,
        res matches Ok(h) ==> Some(h) == spec_parse_header(line@),
        res is Err && spec_header_bad_field(line@) is Some ==> (res matches Err(e) && e matches
            Error::Parse(t) && Some(t@) == spec_header_bad_field(line@)),
        res is Err && spec_header_bad_field(line@) is None ==> (res matches Err(e) && e matches
            Error::FontFormat(m) && m@ == "unsupported font format"@),
{
    if !(line.len() >= 4 && (line[0] == 'f' || line[0] == 't') && line[1] == 'l' && line[2] == 'f'
        && line[3] == '2') {
        return Err(Error::FontFormat("unsupported font format"));
    }
    let toks = tokens_of(line);
    let ghost tv = spec_tokens(line@);
    if toks.len() < 9 {
        return Err(Error::FontFormat("unsupported font format"));
    }
    proof {
        assert forall|j: int| 0 <= j < 9 implies (#[trigger] toks@[j])@ == tv[j] by {
            assert(views_of(toks@)[j] == toks@[j]@);
        }
    }
    if toks[0].len() < 6 {
        return Err(Error::FontFormat("unsupported font format"));
    }
    let height = match parse_usize_tok(&toks[1]) {
        Some(x) => x,
        None => {
            return Err(Error::Parse(string_of(&toks[1])));
        },
    };
    let baseline = match parse_usize_tok(&toks[2]) {
        Some(x) => x,
        None => {
            return Err(Error::Parse(string_of(&toks[2])));
        },
    };
    let max_length = match parse_usize_tok(&toks[3]) {
        Some(x) => x,
        None => {
            return Err(Error::Parse(string_of(&toks[3])));
        },
    };
    let old_layout = match parse_i32_tok(&toks[4]) {
        Some(x) => x,
        None => {
            return Err(Error::Parse(string_of(&toks[4])));
        },
    };
    let comment_lines = match parse_usize_tok(&toks[5]) {
        Some(x) => x,
        None => {
            return Err(Error::Parse(string_of(&toks[5])));
        },
    };
    let right_to_left = toks[6].len() == 1 && toks[6][0] == '1';
    proof {
        if right_to_left {
            assert(tv[6] =~= seq!['1']);
        } else {
            if tv[6] == seq!['1'] {
                assert(tv[6].len() == 1 && tv[6][0] == '1');
                assert(false);
            }
        }
    }
    let layout = match parse_u32_tok(&toks[7], 10) {
        Some(x) => x,
        None => {
            return Err(Error::Parse(string_of(&toks[7])));
        },
    };
    let count = match parse_u32_tok(&toks[8], 10) {
        Some(x) => x,
        None => {
            return Err(Error::Parse(string_of(&toks[8])));
        },
    };
    Ok(
        HeaderInfo {
            version: toks[0][4],
            hardblank: toks[0][5],
            height,
            baseline,
            max_length,
            old_layout,
            comment_lines,
            right_to_left,
            layout,
            count,
        },
    )
}

/// The lines of a font definition as handed to the loader: `None` marks a
/// line that could not be read at all (the stream failed or the bytes were
/// no valid text).
pub open spec fn lines_view(lines: Seq<Option<String>>) -> Seq<Option<Seq<char>>> {
    Seq::new(
        lines.len(),
        |i: int|
            match lines[i] {
                Some(s) => Some(s@),
                None => None,
            },
    )
}

/// The rows of the synthetic blank glyph: `height` empty rows.
pub open spec fn blank_rows(height: nat) -> Seq<Seq<char>> {
    Seq::new(height, |j: int| Seq::<char>::empty())
}

/// Reading the rows of one glyph, one row per line: a line that is missing
/// altogether (the stream ended) makes the glyph invalid; a line that could
/// not be read makes the whole glyph blank, a deliberate leniency for
/// slightly malformed fonts; a row that strips to nothing makes the glyph
/// invalid.
pub open spec fn spec_glyph_scan(
    lv: Seq<Option<Seq<char>>>,
    pos: int,
    height: nat,
    i: nat,
    acc: Seq<Seq<char>>,
) -> Option<Seq<Seq<char>>>
    decreases height - i,
{
    if i >= height {
        Some(acc)
    } else if !(0 <= pos + i < lv.len()) {
        None
    } else if lv[pos + i] is None {
        Some(blank_rows(height))
    } else {
        match spec_strip_row(lv[pos + i]->0) {
            None => None,
            Some(row) => spec_glyph_scan(lv, pos, height, i + 1, acc.push(row)),
        }
    }
}

/// The rows of the glyph whose definition starts at line `pos`, if they are
/// well formed and of equal width.
pub open spec fn spec_load_glyph(lv: Seq<Option<Seq<char>>>, pos: int, height: nat) -> Option<
    Seq<Seq<char>>,
> {
    match spec_glyph_scan(lv, pos, height, 0, Seq::empty()) {
        None => None,
        Some(rows) => if equal_widths(rows) {
            Some(rows)
        } else {
            None
        },
    }
}

/// Read the `height` rows of one glyph starting at line `pos`.
fn load_glyph(lines: &Vec<Option<String>>, pos: usize, height: usize) -> (res: Result<
    FIGchar,
    Error,
>)
    ensures
        res is Ok <==> spec_load_glyph(lines_view(lines@), pos as int, height as nat) is Some,
        res matches Ok(c) ==> Some(c@) == spec_load_glyph(
            lines_view(lines@),
            pos as int,
            height as nat,
        ),
        res matches Ok(c) ==> c@.len() == height && equal_widths(c@),
        res matches Err(e) ==> (e matches Error::FontFormat(m) && m@
            == "invalid character width"@),
{
    let ghost lv = lines_view(lines@);
    let mut rows: Vec<Vec<char>> = Vec::new();
    let mut i: usize = 0;
    proof {
        assert(views_of(rows@) =~= Seq::<Seq<char>>::empty());
    }
    while i < height
        invariant
            i <= height,
            lv == lines_view(lines@),
            lv.len() == lines@.len(),
            rows@.len() == i,
            spec_glyph_scan(lv, pos as int, height as nat, 0, Seq::empty()) == spec_glyph_scan(
                lv,
                pos as int,
                height as nat,
                i as nat,
                views_of(rows@),
            ),
        decreases height - i,
    {
        if pos >= lines.len() || i >= lines.len() - pos {
            return Err(Error::FontFormat("invalid character width"));
        }
        let idx = pos + i;
        match &lines[idx] {
            None => {
                proof {
                    assert(lv[idx as int] is None);
                    assert(equal_widths(blank_rows(height as nat)));
                }
                return Ok(FIGchar::with_lines(height));
            },
            Some(s) => {
                let v = chars_of(s.as_str());
                proof {
                    assert(lv[idx as int] == Some(s@));
                }
                match strip_row(&v) {
                    None => {
                        return Err(Error::FontFormat("invalid character width"));
                    },
                    Some(r) => {
                        proof {
                            lemma_views_of_push(rows@, r);
                        }
                        rows.push(r);
                    },
                }
            },
        }
        i = i + 1;
    }
    let width = if rows.len() > 0 {
        rows[0].len()
    } else {
        0
    };
    let mut j: usize = 1;
    while j < rows.len()
        invariant
            1 <= j,
            lv == lines_view(lines@),
            spec_glyph_scan(lv, pos as int, height as nat, 0, Seq::empty()) == Some(
                views_of(rows@),
            ),
            rows@.len() > 0 ==> width as int == views_of(rows@)[0].len(),
            forall|k: int| 0 <= k < j && k < rows@.len() ==> (#[trigger] views_of(rows@)[k]).len()
                == width as int,
        decreases rows@.len() - j,
    {
        if rows[j].len() != width {
            proof {
                assert(views_of(rows@)[j as int].len() != views_of(rows@)[0].len());
                assert(!equal_widths(views_of(rows@)));
            }
            return Err(Error::FontFormat("invalid character width"));
        }
        j = j + 1;
    }
    proof {
        assert(equal_widths(views_of(rows@)));
    }
    Ok(FIGchar { rows })
}

/// How the code-tagged section of a font definition ends: cleanly, at the
/// end of the stream or a blank line, or at the first offending line.
pub enum TagOutcome {
    /// The section ends cleanly.
    Done,
    /// A tag line could not be read at all.
    Unreadable,
    /// A tag token is not a valid number; holds the token.
    BadNumber(Seq<char>),
    /// A tag value names no code point; holds the value.
    BadCode(u32),
    /// The glyph rows after a tag are malformed.
    BadGlyph,
}

/// The line from which the next glyph is read, after one glyph of `height`
/// rows was read from line `pos`: the stream does not run backwards past
/// its end.
pub open spec fn next_pos(pos: int, height: nat, len: int) -> int {
    if pos + height <= len {
        pos + height
    } else {
        len
    }
}

/// Scan the code-tagged section that starts at line `pos`: each glyph is
/// announced by a line whose first token is its code point, and stops at
/// the end of the stream or at a line without tokens.
pub open spec fn spec_tag_scan(lv: Seq<Option<Seq<char>>>, pos: int, height: nat) -> TagOutcome
    decreases lv.len() - pos,
{
    if !(0 <= pos < lv.len()) {
        TagOutcome::Done
    } else if lv[pos] is None {
        TagOutcome::Unreadable
    } else {
        let toks = spec_tokens(lv[pos]->0);
        if toks.len() == 0 {
            TagOutcome::Done
        } else {
            match spec_u32_from_token(toks[0]) {
                None => TagOutcome::BadNumber(toks[0]),
                Some(code) => {
                    if !is_scalar_value(code) {
                        TagOutcome::BadCode(code)
                    } else {
                        match spec_load_glyph(lv, pos + 1, height) {
                            None => TagOutcome::BadGlyph,
                            Some(_) => spec_tag_scan(
                                lv,
                                next_pos(pos + 1, height, lv.len() as int),
                                height,
                            ),
                        }
                    }
                },
            }
        }
    }
}

/// The glyphs that the code-tagged section starting at line `pos` adds to
/// the table `acc`, as far as the section is well formed.
pub open spec fn spec_tag_table(
    lv: Seq<Option<Seq<char>>>,
    pos: int,
    height: nat,
    acc: Map<u32, Seq<Seq<char>>>,
) -> Map<u32, Seq<Seq<char>>>
    decreases lv.len() - pos,
{
    if !(0 <= pos < lv.len()) {
        acc
    } else if lv[pos] is None {
        acc
    } else {
        let toks = spec_tokens(lv[pos]->0);
        if toks.len() == 0 {
            acc
        } else {
            match spec_u32_from_token(toks[0]) {
                None => acc,
                Some(code) => {
                    if !is_scalar_value(code) {
                        acc
                    } else {
                        match spec_load_glyph(lv, pos + 1, height) {
                            None => acc,
                            Some(rows) => spec_tag_table(
                                lv,
                                next_pos(pos + 1, height, lv.len() as int),
                                height,
                                acc.insert(code, rows),
                            ),
                        }
                    }
                },
            }
        }
    }
}

/// The code points every font must define, in the order their glyphs stand
/// in the file: printable ASCII, then the seven Latin-1 supplement code
/// points the format requires.
pub open spec fn spec_required_codes() -> Seq<u32> {
    Seq::new(95, |i: int| (32 + i) as u32) + seq![196u32, 215u32, 220u32, 228u32, 246u32, 252u32, 223u32]
}

/// The line from which the code-tagged section is read, after `k` more
/// required glyphs are read from line `pos` on; `None` when one of them is
/// malformed.
pub open spec fn spec_req_scan(lv: Seq<Option<Seq<char>>>, pos: int, height: nat, k: nat) -> Option<
    int,
>
    decreases k,
{
    if k == 0 {
        Some(pos)
    } else {
        match spec_load_glyph(lv, pos, height) {
            None => None,
            Some(_) => spec_req_scan(
                lv,
                next_pos(pos, height, lv.len() as int),
                height,
                (k - 1) as nat,
            ),
        }
    }
}

/// The glyphs that the next `k` required code points add to the table
/// `acc`, reading from line `pos` on.
pub open spec fn spec_req_table(
    lv: Seq<Option<Seq<char>>>,
    pos: int,
    height: nat,
    k: nat,
    codes: Seq<u32>,
    acc: Map<u32, Seq<Seq<char>>>,
) -> Map<u32, Seq<Seq<char>>>
    decreases k,
{
    if k == 0 || codes.len() == 0 {
        acc
    } else {
        match spec_load_glyph(lv, pos, height) {
            None => acc,
            Some(rows) => spec_req_table(
                lv,
                next_pos(pos, height, lv.len() as int),
                height,
                (k - 1) as nat,
                codes.drop_first(),
                acc.insert(codes[0], rows),
            ),
        }
    }
}

/// Every line of the comment block that exists can be read.
pub open spec fn spec_comments_ok(lv: Seq<Option<Seq<char>>>, comment_lines: int) -> bool {
    forall|i: int| 1 <= i <= comment_lines && i < lv.len() ==> lv[i] is Some
}

/// The first line read after the header and the comment block.
pub open spec fn spec_start_pos(lv: Seq<Option<Seq<char>>>, comment_lines: int) -> int {
    if comment_lines + 1 <= lv.len() {
        comment_lines + 1
    } else {
        lv.len() as int
    }
}

/// A font definition loads cleanly: the header line is readable and well
/// formed with a height of at least one, the comment block is readable, all
/// required glyphs are well formed, and the code-tagged section ends
/// cleanly.
pub open spec fn spec_load_ok(lv: Seq<Option<Seq<char>>>) -> bool {
    &&& lv.len() >= 1
    &&& lv[0] is Some
    &&& spec_parse_header(lv[0]->0) is Some
    &&& {
        let h = spec_parse_header(lv[0]->0)->0;
        &&& h.height >= 1
        &&& spec_comments_ok(lv, h.comment_lines as int)
        &&& spec_req_scan(lv, spec_start_pos(lv, h.comment_lines as int), h.height as nat, 102)
            is Some
        &&& spec_tag_scan(
            lv,
            spec_req_scan(lv, spec_start_pos(lv, h.comment_lines as int), h.height as nat, 102)->0,
            h.height as nat,
        ) is Done
    }
}

/// The whole glyph table of a well-formed font definition: the synthetic
/// blank glyph at code point zero, the required glyphs, and the code-tagged
/// glyphs.
pub open spec fn spec_full_table(lv: Seq<Option<Seq<char>>>) -> Map<u32, Seq<Seq<char>>> {
    let h = spec_parse_header(lv[0]->0)->0;
    let start = spec_start_pos(lv, h.comment_lines as int);
    let base = Map::<u32, Seq<Seq<char>>>::empty().insert(0, blank_rows(h.height as nat));
    let req = spec_req_table(lv, start, h.height as nat, 102, spec_required_codes(), base);
    spec_tag_table(lv, spec_req_scan(lv, start, h.height as nat, 102)->0, h.height as nat, req)
}

/// Which error a malformed font definition is rejected with.
pub open spec fn spec_load_err(lv: Seq<Option<Seq<char>>>, e: Error) -> bool {
    if lv.len() == 0 {
        e matches Error::FontFormat(m) && m@ == "unsupported font format"@
    } else if lv[0] is None {
        e is Io
    } else if spec_parse_header(lv[0]->0) is None {
        match spec_header_bad_field(lv[0]->0) {
            Some(t) => e matches Error::Parse(p) && p@ == t,
            None => e matches Error::FontFormat(m) && m@ == "unsupported font format"@,
        }
    } else {
        let h = spec_parse_header(lv[0]->0)->0;
        let start = spec_start_pos(lv, h.comment_lines as int);
        if h.height == 0 {
            e matches Error::FontFormat(m) && m@ == "unsupported font format"@
        } else if !spec_comments_ok(lv, h.comment_lines as int) {
            e is Io
        } else if spec_req_scan(lv, start, h.height as nat, 102) is None {
            e matches Error::FontFormat(m) && m@ == "invalid character width"@
        } else {
            match spec_tag_scan(lv, spec_req_scan(lv, start, h.height as nat, 102)->0, h.height as nat) {
                TagOutcome::Done => false,
                TagOutcome::Unreadable => e is Io,
                TagOutcome::BadNumber(t) => e matches Error::Parse(p) && p@ == t,
                TagOutcome::BadCode(c) => e matches Error::CodeTag(x) && x == c,
                TagOutcome::BadGlyph => e matches Error::FontFormat(m) && m@
                    == "invalid character width"@,
            }
        }
    }
}

/// The glyph table as mathematics: each glyph replaced by its rows.
pub open spec fn table_view(m: Map<u32, FIGchar>) -> Map<u32, Seq<Seq<char>>> {
    Map::new(|k: u32| m.contains_key(k), |k: u32| m[k]@)
}

proof fn lemma_table_view_insert(m: Map<u32, FIGchar>, k: u32, v: FIGchar)
    ensures
        table_view(m.insert(k, v)) =~= table_view(m).insert(k, v@),
{
}

/// The definition lines as handed over when every line was readable.
pub open spec fn spec_lines_of(lines: Seq<String>) -> Seq<Option<Seq<char>>> {
    Seq::new(lines.len(), |i: int| Some(lines[i]@))
}

/// The code point of required glyph number `k`.
fn required_code(k: usize) -> (code: u32)
    requires
        k < 102,
    ensures
        code == spec_required_codes()[k as int],
{
    proof {
        if k >= 95 {
            assert(spec_required_codes()[k as int] == seq![
                196u32,
                215u32,
                220u32,
                228u32,
                246u32,
                252u32,
                223u32,
            ][k - 95]);
        }
    }
    if k < 95 {
        (32 + k) as u32
    } else if k == 95 {
        196
    } else if k == 96 {
        215
    } else if k == 97 {
        220
    } else if k == 98 {
        228
    } else if k == 99 {
        246
    } else if k == 100 {
        252
    } else {
        223
    }
}

/// A font made of large text-art characters.
///
/// A FIGfont defines a set of glyphs for single code points together with a
/// layout mode that controls how adjacent glyphs are fitted together on a
/// line.
#[derive(Debug)]
pub struct FIGfont {
    /// Font standard version character.
    pub version: char,
    /// The sub-character standing for a blank that still takes part in
    /// smushing.
    pub hardblank: char,
    /// Number of rows every glyph occupies.
    pub height: usize,
    /// Rows from the baseline of a glyph; kept but not used by rendering.
    pub baseline: usize,
    /// Maximum length of any line describing a glyph; kept but not used by
    /// rendering.
    pub max_length: usize,
    /// Legacy layout indicator; -1 means full width.
    pub old_layout: i32,
    /// Number of comment lines at the start of the file.
    pub comment_lines: usize,
    /// Whether the font was designed right to left.
    pub right_to_left: bool,
    /// The layout rule bitmask.
    pub layout: u32,
    /// Number of code-tagged glyphs the header announces.
    pub count: u32,
    /// The glyph definitions, keyed by code point.
    pub chars: HashMap<u32, FIGchar>,
}

impl FIGfont {
    /// The glyph table.
    pub open spec fn glyphs(&self) -> Map<u32, FIGchar> {
        self.chars@
    }

    /// A usable font: at least one row per glyph, a glyph at code point
    /// zero to fall back to, a glyph for every printable ASCII code point,
    /// and every glyph of the right height with rows of one width.
    pub open spec fn wf(&self) -> bool {
        &&& self.height >= 1
        &&& self.glyphs().contains_key(0)
        &&& forall|k: u32| 32 <= k <= 126 ==> self.glyphs().contains_key(k)
        &&& forall|k: u32|
            self.glyphs().contains_key(k) ==> ((#[trigger] self.glyphs()[k])@.len() == self.height
                && equal_widths(self.glyphs()[k]@))
    }

    /// The glyph the font renders for a code point: the glyph at that code
    /// point; for a tab character, the glyph of the space; for anything
    /// else the font does not define, the blank fallback glyph.
    pub open spec fn spec_get(&self, ch: char) -> FIGchar {
        if self.glyphs().contains_key(ch as u32) {
            self.glyphs()[ch as u32]
        } else if ch == '\t' && self.glyphs().contains_key(32) {
            self.glyphs()[32]
        } else {
            self.glyphs()[0]
        }
    }

    /// Build a font from the lines of a font definition; `None` stands for
    /// a line that could not be read at all.
    pub fn load(lines: &Vec<Option<String>>) -> (res: Result<FIGfont, Error>)
        ensures
            res is Ok <==> spec_load_ok(lines_view(lines@)),
            res matches Ok(f) ==> ({
                let lv = lines_view(lines@);
                let h = spec_parse_header(lv[0]->0)->0;
                &&& f.wf()
                &&& f.version == h.version
                &&& f.hardblank == h.hardblank
                &&& f.height == h.height
                &&& f.baseline == h.baseline
                &&& f.max_length == h.max_length
                &&& f.old_layout == h.old_layout
                &&& f.comment_lines == h.comment_lines
                &&& f.right_to_left == h.right_to_left
                &&& f.layout == h.layout
                &&& f.count == h.count
                &&& table_view(f.glyphs()) == spec_full_table(lv)
            }),
            res matches Err(e) ==> spec_load_err(lines_view(lines@), e),
    {
        let ghost lv = lines_view(lines@);
        if lines.len() == 0 {
            return Err(Error::FontFormat("unsupported font format"));
        }
        let header_line = match &lines[0] {
            None => {
                proof {
                    assert(lv[0] is None);
                }
                return Err(Error::Io);
            },
            Some(s) => chars_of(s.as_str()),
        };
        proof {
            assert(lv[0] == Some(header_line@));
        }
        let h = match parse_header(&header_line) {
            Ok(h) => h,
            Err(e) => {
                return Err(e);
            },
        };
        if h.height == 0 {
            return Err(Error::FontFormat("unsupported font format"));
        }

        // The comment block is skipped verbatim, but every line of it that
        // exists must at least be readable.
        let mut ci: usize = 1;
        while ci <= h.comment_lines && ci < lines.len()
            invariant
                1 <= ci,
                lv == lines_view(lines@),
                lv.len() == lines@.len(),
                lv.len() >= 1,
                lv[0] is Some,
                spec_parse_header(lv[0]->0) == Some(h),
                h.height >= 1,
                forall|j: int| 1 <= j < ci && j < lv.len() ==> lv[j] is Some,
            decreases lines@.len() - ci,
        {
            match &lines[ci] {
                None => {
                    proof {
                        assert(lv[ci as int] is None);
                    }
                    return Err(Error::Io);
                },
                Some(_) => {},
            }
            ci = ci + 1;
        }
        proof {
            assert(spec_comments_ok(lv, h.comment_lines as int));
        }
        let start: usize = if h.comment_lines < lines.len() {
            h.comment_lines + 1
        } else {
            lines.len()
        };
        proof {
            assert(start as int == spec_start_pos(lv, h.comment_lines as int));
        }

        // The synthetic blank glyph every font gets at code point zero.
        let mut chars: HashMap<u32, FIGchar> = HashMap::new();
        let blank = FIGchar::with_lines(h.height);
        proof {
            lemma_table_view_insert(chars@, 0, blank);
            assert(equal_widths(blank_rows(h.height as nat)));
        }
        chars.insert(0, blank);
        let ghost base = Map::<u32, Seq<Seq<char>>>::empty().insert(0, blank_rows(h.height as nat));
        proof {
            assert(table_view(Map::<u32, FIGchar>::empty()) =~~= Map::<
                u32,
                Seq<Seq<char>>,
            >::empty());
            assert(table_view(chars@) =~~= base);
        }

        // The required glyphs, one immediately after the other.
        let ghost codes = spec_required_codes();
        let mut k: usize = 0;
        let mut pos: usize = start;
        proof {
            assert(codes.skip(0) =~= codes);
        }
        while k < 102
            invariant
                k <= 102,
                lv == lines_view(lines@),
                lv.len() == lines@.len(),
                lv.len() >= 1,
                lv[0] is Some,
                spec_parse_header(lv[0]->0) == Some(h),
                h.height >= 1,
                spec_comments_ok(lv, h.comment_lines as int),
                start as int == spec_start_pos(lv, h.comment_lines as int),
                base == Map::<u32, Seq<Seq<char>>>::empty().insert(0, blank_rows(h.height as nat)),
                pos <= lines@.len(),
                codes == spec_required_codes(),
                spec_req_scan(lv, start as int, h.height as nat, 102) == spec_req_scan(
                    lv,
                    pos as int,
                    h.height as nat,
                    (102 - k) as nat,
                ),
                spec_req_table(lv, start as int, h.height as nat, 102, codes, base)
                    == spec_req_table(
                    lv,
                    pos as int,
                    h.height as nat,
                    (102 - k) as nat,
                    codes.skip(k as int),
                    table_view(chars@),
                ),
                chars@.contains_key(0),
                forall|j: int| 0 <= j < k ==> chars@.contains_key(#[trigger] codes[j]),
                forall|key: u32|
                    chars@.contains_key(key) ==> ((#[trigger] chars@[key])@.len() == h.height
                        && equal_widths(chars@[key]@)),
            decreases 102 - k,
        {
            let code: u32 = required_code(k);
            let c = match load_glyph(lines, pos, h.height) {
                Ok(c) => c,
                Err(e) => {
                    return Err(e);
                },
            };
            proof {
                lemma_table_view_insert(chars@, code, c);
                assert(codes.skip(k as int)[0] == codes[k as int]);
                assert(codes.skip(k as int).drop_first() =~= codes.skip(k + 1 as int));
            }
            chars.insert(code, c);
            let ghost p0 = pos as int;
            pos = if h.height <= lines.len() - pos {
                pos + h.height
            } else {
                lines.len()
            };
            proof {
                assert(pos as int == next_pos(p0, h.height as nat, lv.len() as int));
            }
            k = k + 1;
        }
        let ghost reqend = pos as int;
        let ghost t_afterreq = table_view(chars@);
        proof {
            assert(spec_req_scan(lv, start as int, h.height as nat, 102) == Some(reqend));
            assert(spec_req_table(lv, start as int, h.height as nat, 102, codes, base)
                == t_afterreq);
        }

        // The code-tagged glyphs: each announced by a line whose first
        // token names its code point; the section ends at the end of the
        // stream or at a line without tokens.
        let mut done = false;
        while pos < lines.len() && !done
            invariant
                lv == lines_view(lines@),
                lv.len() == lines@.len(),
                lv.len() >= 1,
                lv[0] is Some,
                spec_parse_header(lv[0]->0) == Some(h),
                h.height >= 1,
                spec_comments_ok(lv, h.comment_lines as int),
                start as int == spec_start_pos(lv, h.comment_lines as int),
                codes == spec_required_codes(),
                base == Map::<u32, Seq<Seq<char>>>::empty().insert(0, blank_rows(h.height as nat)),
                spec_req_scan(lv, start as int, h.height as nat, 102) == Some(reqend),
                spec_req_table(lv, start as int, h.height as nat, 102, codes, base) == t_afterreq,
                pos <= lines@.len(),
                spec_tag_scan(lv, reqend, h.height as nat) == spec_tag_scan(
                    lv,
                    pos as int,
                    h.height as nat,
                ),
                spec_tag_table(lv, reqend, h.height as nat, t_afterreq) == spec_tag_table(
                    lv,
                    pos as int,
                    h.height as nat,
                    table_view(chars@),
                ),
                done ==> spec_tag_scan(lv, pos as int, h.height as nat) is Done && spec_tag_table(
                    lv,
                    pos as int,
                    h.height as nat,
                    table_view(chars@),
                ) == table_view(chars@),
                chars@.contains_key(0),
                forall|j: int| 0 <= j < 102 ==> chars@.contains_key(#[trigger] codes[j]),
                forall|key: u32|
                    chars@.contains_key(key) ==> ((#[trigger] chars@[key])@.len() == h.height
                        && equal_widths(chars@[key]@)),
            decreases lines@.len() - pos, 1int - (if done { 1int } else { 0int }),
        {
            let tag_line = match &lines[pos] {
                None => {
                    proof {
                        assert(lv[pos as int] is None);
                    }
                    return Err(Error::Io);
                },
                Some(s) => chars_of(s.as_str()),
            };
            proof {
                assert(lv[pos as int] == Some(tag_line@));
            }
            let toks = tokens_of(&tag_line);
            if toks.len() == 0 {
                proof {
                    assert(spec_tokens(tag_line@).len() == 0);
                }
                done = true;
            } else {
                proof {
                    assert(toks@[0]@ == spec_tokens(tag_line@)[0]) by {
                        assert(views_of(toks@)[0] == toks@[0]@);
                    }
                }
                let code = match u32_from_chars_trimmed(&toks[0]) {
                    Ok(c) => c,
                    Err(e) => {
                        return Err(e);
                    },
                };
                let ch = match char_from_u32(code) {
                    Ok(c) => c,
                    Err(e) => {
                        return Err(e);
                    },
                };
                let gpos = pos + 1;
                let c = match load_glyph(lines, gpos, h.height) {
                    Ok(c) => c,
                    Err(e) => {
                        return Err(e);
                    },
                };
                proof {
                    lemma_table_view_insert(chars@, ch as u32, c);
                    assert(ch as u32 == code);
                }
                chars.insert(ch as u32, c);
                let ghost p0 = pos as int;
                pos = if h.height <= lines.len() - gpos {
                    gpos + h.height
                } else {
                    lines.len()
                };
                proof {
                    assert(pos as int == next_pos(p0 + 1, h.height as nat, lv.len() as int));
                }
            }
        }
        proof {
            assert(spec_tag_scan(lv, reqend, h.height as nat) is Done);
            assert(spec_tag_table(lv, reqend, h.height as nat, t_afterreq) == table_view(chars@));
            assert(spec_load_ok(lv));
        }
        let f = FIGfont {
            version: h.version,
            hardblank: h.hardblank,
            height: h.height,
            baseline: h.baseline,
            max_length: h.max_length,
            old_layout: h.old_layout,
            comment_lines: h.comment_lines,
            right_to_left: h.right_to_left,
            layout: h.layout,
            count: h.count,
            chars,
        };
        proof {
            assert(table_view(f.glyphs()) == spec_full_table(lv));
            assert forall|key: u32| 32 <= key <= 126 implies f.glyphs().contains_key(key) by {
                let j = key - 32;
                assert(codes[j as int] == key);
                assert(f.glyphs().contains_key(codes[j as int]));
            }
        }
        Ok(f)
    }

    /// Build a font from fully readable definition lines.
    pub fn from_lines(lines: &Vec<String>) -> (res: Result<FIGfont, Error>)
        ensures
            res is Ok <==> spec_load_ok(spec_lines_of(lines@)),
            res matches Ok(f) ==> ({
                let lv = spec_lines_of(lines@);
                let h = spec_parse_header(lv[0]->0)->0;
                &&& f.wf()
                &&& f.hardblank == h.hardblank
                &&& f.height == h.height
                &&& f.old_layout == h.old_layout
                &&& f.layout == h.layout
                &&& f.right_to_left == h.right_to_left
                &&& table_view(f.glyphs()) == spec_full_table(lv)
            }),
            res matches Err(e) ==> spec_load_err(spec_lines_of(lines@), e),
    {
        let mut opt: Vec<Option<String>> = Vec::new();
        let mut i: usize = 0;
        while i < lines.len()
            invariant
                i <= lines@.len(),
                opt@.len() == i,
                forall|j: int| 0 <= j < i ==> ((#[trigger] opt@[j]) matches Some(s) && s@
                    == lines@[j]@),
            decreases lines@.len() - i,
        {
            opt.push(Some(lines[i].clone()));
            i = i + 1;
        }
        proof {
            assert(lines_view(opt@) =~~= spec_lines_of(lines@));
        }
        Self::load(&opt)
    }

    /// Obtain the glyph this font renders for the given code point.
    pub fn get(&self, ch: char) -> (res: &FIGchar)
        requires
            self.wf(),
        ensures
            *res == self.spec_get(ch),
            res@.len() == self.height,
            equal_widths(res@),
    {
        let key = ch as u32;
        match self.chars.get(&key) {
            Some(g) => g,
            None => {
                let fb: u32 = if ch == '\t' {
                    32
                } else {
                    0
                };
                match self.chars.get(&fb) {
                    Some(g) => g,
                    None => self.chars.get(&0u32).unwrap(),
                }
            },
        }
    }
}

} // verus!
