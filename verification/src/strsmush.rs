//! Row smushing: computes how far two rows of text may safely overlap and
//! produces the merged row, consulting the sub-character rules at the
//! overlap boundary.
//!
//! Rows are sequences of code points, never raw bytes, so multi-byte encoded
//! characters are never split.

use vstd::prelude::*;

use crate::charsmush;
use crate::charsmush::spec_smush;

verus! {

/// Unicode white space: the code points carrying the White_Space property.
pub open spec fn is_space_char(c: char) -> bool {
    ||| c == ' '
    ||| (0x09 <= c as u32 && c as u32 <= 0x0D)
    ||| c as u32 == 0x85
    ||| c as u32 == 0xA0
    ||| c as u32 == 0x1680
    ||| (0x2000 <= c as u32 && c as u32 <= 0x200A)
    ||| c as u32 == 0x2028
    ||| c as u32 == 0x2029
    ||| c as u32 == 0x202F
    ||| c as u32 == 0x205F
    ||| c as u32 == 0x3000
}

/// Whether `c` is Unicode white space.
pub fn is_space(c: char) -> (res: bool)
    ensures
        res == is_space_char(c),
{
    let u = c as u32;
    u == 0x20 || (0x09 <= u && u <= 0x0D) || u == 0x85 || u == 0xA0 || u == 0x1680 || (0x2000 <= u
        && u <= 0x200A) || u == 0x2028 || u == 0x2029 || u == 0x202F || u == 0x205F || u == 0x3000
}

/// Number of white-space code points at the front of `s`.
pub open spec fn leading_spaces(s: Seq<char>) -> int
    decreases s.len(),
{
    if s.len() == 0 {
        0
    } else if is_space_char(s[0]) {
        1 + leading_spaces(s.drop_first())
    } else {
        0
    }
}

/// Number of white-space code points at the back of `s`.
pub open spec fn trailing_spaces(s: Seq<char>) -> int
    decreases s.len(),
{
    if s.len() == 0 {
        0
    } else if is_space_char(s.last()) {
        1 + trailing_spaces(s.drop_last())
    } else {
        0
    }
}

pub proof fn lemma_leading_spaces_bounds(s: Seq<char>)
    ensures
        0 <= leading_spaces(s) <= s.len(),
        leading_spaces(s) < s.len() ==> !is_space_char(s[leading_spaces(s)]),
        forall|i: int| 0 <= i < leading_spaces(s) ==> is_space_char(s[i]),
    decreases s.len(),
{
    if s.len() > 0 && is_space_char(s[0]) {
        lemma_leading_spaces_bounds(s.drop_first());
        assert forall|i: int| 0 <= i < leading_spaces(s) implies is_space_char(s[i]) by {
            if i > 0 {
                assert(s[i] == s.drop_first()[i - 1]);
            }
        }
    }
}

pub proof fn lemma_trailing_spaces_bounds(s: Seq<char>)
    ensures
        0 <= trailing_spaces(s) <= s.len(),
        trailing_spaces(s) < s.len() ==> !is_space_char(s[s.len() - 1 - trailing_spaces(s)]),
        forall|i: int| s.len() - trailing_spaces(s) <= i < s.len() ==> is_space_char(s[i]),
    decreases s.len(),
{
    if s.len() > 0 && is_space_char(s.last()) {
        lemma_trailing_spaces_bounds(s.drop_last());
        assert forall|i: int| s.len() - trailing_spaces(s) <= i < s.len() implies is_space_char(
            s[i],
        ) by {
            if i < s.len() - 1 {
                assert(s[i] == s.drop_last()[i]);
            }
        }
    }
}

pub(crate) proof fn lemma_leading_spaces_is(s: Seq<char>, n: int)
    requires
        0 <= n <= s.len(),
        forall|i: int| 0 <= i < n ==> is_space_char(s[i]),
        n < s.len() ==> !is_space_char(s[n]),
    ensures
        leading_spaces(s) == n,
    decreases n,
{
    if n == 0 {
        if s.len() > 0 {
            assert(!is_space_char(s[0]));
        }
    } else {
        assert(is_space_char(s[0]));
        let t = s.drop_first();
        assert forall|i: int| 0 <= i < n - 1 implies is_space_char(t[i]) by {
            assert(t[i] == s[i + 1]);
        }
        assert(n - 1 < t.len() ==> !is_space_char(t[n - 1])) by {
            if n - 1 < t.len() {
                assert(t[n - 1] == s[n]);
            }
        }
        lemma_leading_spaces_is(t, n - 1);
    }
}

pub(crate) proof fn lemma_trailing_spaces_is(s: Seq<char>, n: int)
    requires
        0 <= n <= s.len(),
        forall|i: int| s.len() - n <= i < s.len() ==> is_space_char(s[i]),
        n < s.len() ==> !is_space_char(s[s.len() - 1 - n]),
    ensures
        trailing_spaces(s) == n,
    decreases n,
{
    if n == 0 {
        if s.len() > 0 {
            assert(!is_space_char(s.last()));
        }
    } else {
        assert(is_space_char(s.last()));
        let t = s.drop_last();
        assert forall|i: int| t.len() - (n - 1) <= i < t.len() implies is_space_char(t[i]) by {
            assert(t[i] == s[i]);
        }
        assert(n - 1 < t.len() ==> !is_space_char(t[t.len() - 1 - (n - 1)])) by {
            if n - 1 < t.len() {
                assert(t[t.len() - 1 - (n - 1)] == s[s.len() - 1 - n]);
            }
        }
        lemma_trailing_spaces_is(t, n - 1);
    }
}

/// Clamp an unbounded count to what a machine word can carry.
pub open spec fn sat_usize(x: int) -> int {
    if x > usize::MAX {
        usize::MAX as int
    } else {
        x
    }
}

/// How many columns the row `s2` may overlap the row `s1`: the trailing
/// white space of `s1` plus the leading white space of `s2`, plus one more
/// column when the pair of code points that would meet at the boundary —
/// the last non-space of `s1` against the first non-space of `s2` — can be
/// merged by the sub-character rules.
pub open spec fn spec_amount(s1: Seq<char>, s2: Seq<char>, hardblank: char, mode: u32) -> int {
    let base = trailing_spaces(s1) + leading_spaces(s2);
    if trailing_spaces(s1) < s1.len() && leading_spaces(s2) < s2.len() {
        let l = s1[s1.len() - 1 - trailing_spaces(s1)];
        let r = s2[leading_spaces(s2)];
        if spec_smush(l, r, hardblank, false, mode) is Some {
            base + 1
        } else {
            base
        }
    } else {
        base
    }
}

/// Collect the code points of `s`.
pub fn chars_of(s: &str) -> (res: Vec<char>)
    ensures
        res@ == s@,
{
    let n = s.unicode_len();
    let mut res: Vec<char> = Vec::new();
    let mut i: usize = 0;
    while i < n
        invariant
            i <= n,
            n == s@.len(),
            res@ == s@.take(i as int),
        decreases n - i,
    {
        res.push(s.get_char(i));
        proof {
            assert(res@ =~= s@.take(i + 1 as int));
        }
        i = i + 1;
    }
    proof {
        assert(res@ =~= s@);
    }
    res
}

/// Relies on String::push: appends one code point at the end of the string.
#[verifier::external_body]
pub(crate) fn push_char(s: &mut String, c: char)
    ensures
        final(s)@ == old(s)@.push(c),
{
    s.push(c);
}

/// Build a string out of a sequence of code points.
pub fn string_of(v: &Vec<char>) -> (res: String)
    ensures
        res@ == v@,
{
    let mut res = String::new();
    let mut i: usize = 0;
    while i < v.len()
        invariant
            i <= v.len(),
            res@ == v@.take(i as int),
        decreases v.len() - i,
    {
        push_char(&mut res, v[i]);
        proof {
            assert(res@ =~= v@.take(i + 1 as int));
        }
        i = i + 1;
    }
    proof {
        assert(res@ =~= v@);
    }
    res
}

pub(crate) fn count_leading(v: &Vec<char>) -> (n: usize)
    ensures
        n as int == leading_spaces(v@),
{
    let mut i: usize = 0;
    while i < v.len() && is_space(v[i])
        invariant
            i <= v.len(),
            forall|j: int| 0 <= j < i ==> is_space_char(v@[j]),
        decreases v.len() - i,
    {
        i = i + 1;
    }
    proof {
        lemma_leading_spaces_is(v@, i as int);
    }
    i
}

pub(crate) fn count_trailing(v: &Vec<char>) -> (n: usize)
    ensures
        n as int == trailing_spaces(v@),
{
    let mut i: usize = 0;
    while i < v.len() && is_space(v[v.len() - 1 - i])
        invariant
            i <= v.len(),
            forall|j: int| v@.len() - i <= j < v@.len() ==> is_space_char(v@[j]),
        decreases v.len() - i,
    {
        i = i + 1;
    }
    proof {
        lemma_trailing_spaces_is(v@, i as int);
    }
    i
}

pub(crate) fn amount_vec(v1: &Vec<char>, v2: &Vec<char>, hardblank: char, mode: u32) -> (res:
    usize)
    ensures
        res as int == sat_usize(spec_amount(v1@, v2@, hardblank, mode)),
{
    let a1 = count_trailing(v1);
    let a2 = count_leading(v2);
    proof {
        lemma_trailing_spaces_bounds(v1@);
        lemma_leading_spaces_bounds(v2@);
    }
    let base = if a1 <= usize::MAX - a2 {
        a1 + a2
    } else {
        usize::MAX
    };
    if a1 < v1.len() && a2 < v2.len() {
        let l = v1[v1.len() - 1 - a1];
        let r = v2[a2];
        if charsmush::smush(l, r, hardblank, false, mode).is_some() {
            if base < usize::MAX {
                base + 1
            } else {
                base
            }
        } else {
            base
        }
    } else {
        base
    }
}

/// Compute the number of columns the row `s2` can be smushed into the row
/// `s1`, clamped to what a machine word can carry.
pub fn amount(s1: &str, s2: &str, hardblank: char, mode: u32) -> (res: usize)
    ensures
        res as int == sat_usize(spec_amount(s1@, s2@, hardblank, mode)),
{
    let v1 = chars_of(s1);
    let v2 = chars_of(s2);
    amount_vec(&v1, &v2, hardblank, mode)
}

/// What one overlapping column holds: where both sides are visible the
/// sub-character rules decide, the newer side winning when they refuse; a
/// space yields to the other side.
pub open spec fn spec_merge_char(l: char, r: char, hardblank: char, mode: u32) -> char {
    if l != ' ' && r != ' ' {
        match spec_smush(l, r, hardblank, false, mode) {
            Some(c) => c,
            None => r,
        }
    } else if l == ' ' {
        r
    } else {
        l
    }
}

/// The row `s2` merged into the row `s1` with `amt` columns of overlap: the
/// untouched head of `s1`, then each overlapping column merged pairwise
/// (positions beyond the end of `s1` counting as spaces), then whatever of
/// either row extends past the overlap.  When `amt` exceeds the length of
/// `s1`, the head of `s2` is first truncated by the excess.
pub open spec fn spec_smush_row(
    s1: Seq<char>,
    s2: Seq<char>,
    amt: int,
    hardblank: char,
    mode: u32,
) -> Seq<char>
    recommends
        0 <= amt,
{
    if s2.len() == 0 {
        s1
    } else {
        let s2t = if amt > s1.len() {
            if amt - s1.len() >= s2.len() {
                Seq::<char>::empty()
            } else {
                s2.skip(amt - s1.len())
            }
        } else {
            s2
        };
        let a = if amt > s1.len() {
            s1.len() as int
        } else {
            amt
        };
        let m1 = s1.len() - a;
        let merged = Seq::new(
            s2t.len(),
            |i: int|
                spec_merge_char(
                    if m1 + i < s1.len() {
                        s1[m1 + i]
                    } else {
                        ' '
                    },
                    s2t[i],
                    hardblank,
                    mode,
                ),
        );
        if m1 + s2t.len() < s1.len() {
            s1.take(m1) + merged + s1.skip(m1 + s2t.len())
        } else {
            s1.take(m1) + merged
        }
    }
}

pub(crate) fn merge_char(l: char, r: char, hardblank: char, mode: u32) -> (res: char)
    ensures
        res == spec_merge_char(l, r, hardblank, mode),
{
    if l != ' ' && r != ' ' {
        match charsmush::smush(l, r, hardblank, false, mode) {
            Some(c) => c,
            None => r,
        }
    } else if l == ' ' {
        r
    } else {
        l
    }
}

pub(crate) fn smush_vec(s1: &Vec<char>, s2: &Vec<char>, amt: usize, hardblank: char, mode: u32)
    -> (res: Vec<char>)
    ensures
        res@ == spec_smush_row(s1@, s2@, amt as int, hardblank, mode),
{
    if s2.len() == 0 {
        return s1.clone();
    }
    let len1 = s1.len();

    // When the overlap exceeds the left row, the right row loses its head.
    let (start2, eff_amt): (usize, usize) = if amt > len1 {
        let k = amt - len1;
        if k >= s2.len() {
            (s2.len(), len1)
        } else {
            (k, len1)
        }
    } else {
        (0, amt)
    };
    let l2 = s2.len() - start2;
    let m1 = len1 - eff_amt;

    let ghost s2t = s2@.skip(start2 as int);
    let ghost merged = Seq::new(
        s2t.len(),
        |i: int|
            spec_merge_char(
                if m1 + i < s1@.len() {
                    s1@[m1 + i]
                } else {
                    ' '
                },
                s2t[i],
                hardblank,
                mode,
            ),
    );

    let mut res: Vec<char> = Vec::new();

    // The head of the left row, untouched by the overlap.
    let mut i: usize = 0;
    proof {
        assert(res@ =~= s1@.take(0));
    }
    while i < m1
        invariant
            i <= m1,
            m1 <= len1 == s1@.len(),
            res@ == s1@.take(i as int),
        decreases m1 - i,
    {
        res.push(s1[i]);
        proof {
            assert(res@ =~= s1@.take(i + 1 as int));
        }
        i = i + 1;
    }
    proof {
        assert(res@ =~= s1@.take(m1 as int) + merged.take(0));
    }

    // The overlap region, merged column by column; `k` walks the left row
    // and stops at its end, the missing columns counting as spaces.
    let mut k: usize = m1;
    let mut j: usize = 0;
    while j < l2
        invariant
            j <= l2,
            m1 <= len1 == s1@.len(),
            start2 + l2 == s2@.len(),
            s2@.len() <= usize::MAX,
            s2t == s2@.skip(start2 as int),
            l2 == s2t.len(),
            k as int == if m1 + j <= len1 {
                m1 + j
            } else {
                len1 as int
            },
            merged == Seq::new(
                s2t.len(),
                |i: int|
                    spec_merge_char(
                        if m1 + i < s1@.len() {
                            s1@[m1 + i]
                        } else {
                            ' '
                        },
                        s2t[i],
                        hardblank,
                        mode,
                    ),
            ),
            res@ == s1@.take(m1 as int) + merged.take(j as int),
        decreases l2 - j,
    {
        let l = if k < len1 {
            let c = s1[k];
            k = k + 1;
            c
        } else {
            ' '
        };
        let r = s2[start2 + j];
        proof {
            assert(s2t[j as int] == s2@[start2 + j]);
        }
        res.push(merge_char(l, r, hardblank, mode));
        proof {
            assert(res@ =~= s1@.take(m1 as int) + merged.take(j + 1 as int));
        }
        j = j + 1;
    }

    // Whatever of the left row extends past the overlap.
    proof {
        assert(merged.take(l2 as int) =~= merged);
        if m1 + l2 <= len1 {
            assert(s1@.subrange(m1 + l2 as int, k as int) =~= Seq::<char>::empty());
            assert(res@ =~= s1@.take(m1 as int) + merged + s1@.subrange(
                m1 + l2 as int,
                k as int,
            ));
        }
    }
    while k < len1
        invariant
            k <= len1,
            len1 == s1@.len(),
            merged.len() == l2,
            m1 + l2 <= len1 ==> m1 + l2 <= k && res@ == s1@.take(m1 as int) + merged
                + s1@.subrange(m1 + l2 as int, k as int),
            m1 + l2 > len1 ==> k == len1 && res@ == s1@.take(m1 as int) + merged,
        decreases len1 - k,
    {
        res.push(s1[k]);
        proof {
            assert(res@ =~= s1@.take(m1 as int) + merged + s1@.subrange(
                m1 + l2 as int,
                k + 1 as int,
            ));
        }
        k = k + 1;
    }

    proof {
        if m1 + l2 < len1 {
            assert(res@ =~= spec_smush_row(s1@, s2@, amt as int, hardblank, mode));
        } else {
            if m1 + l2 == len1 {
                assert(s1@.subrange(m1 + l2 as int, len1 as int) =~= Seq::<char>::empty());
            }
            assert(res@ =~= s1@.take(m1 as int) + merged);
            assert(res@ =~= spec_smush_row(s1@, s2@, amt as int, hardblank, mode));
        }
    }
    res
}

/// Merge the row `s2` into the row `s1` with `amt` columns of overlap.
pub fn smush(s1: &str, s2: &str, amt: usize, hardblank: char, mode: u32) -> (res: String)
    ensures
        res@ == spec_smush_row(s1@, s2@, amt as int, hardblank, mode),
{
    let v1 = chars_of(s1);
    let v2 = chars_of(s2);
    let res = smush_vec(&v1, &v2, amt, hardblank, mode);
    string_of(&res)
}

/// The merged row is never shorter than the left row, nor than what remains
/// of the right row after the overlap is taken out.
pub proof fn lemma_smush_row_len(s1: Seq<char>, s2: Seq<char>, amt: int, hardblank: char, mode: u32)
    requires
        0 <= amt,
    ensures
        spec_smush_row(s1, s2, amt, hardblank, mode).len() >= s1.len(),
        spec_smush_row(s1, s2, amt, hardblank, mode).len() >= s2.len() - amt,
{
}

/// With no overlap at all, merging is plain concatenation of the two rows,
/// whatever the mode.
pub proof fn lemma_smush_row_concat(s1: Seq<char>, s2: Seq<char>, hardblank: char, mode: u32)
    ensures
        spec_smush_row(s1, s2, 0, hardblank, mode) == s1 + s2,
{
    if s2.len() == 0 {
        assert(spec_smush_row(s1, s2, 0, hardblank, mode) =~= s1 + s2);
    } else {
        let merged = Seq::new(
            s2.len(),
            |i: int|
                spec_merge_char(
                    if s1.len() + i < s1.len() {
                        s1[s1.len() + i]
                    } else {
                        ' '
                    },
                    s2[i],
                    hardblank,
                    mode,
                ),
        );
        assert(merged =~= s2);
        assert(spec_smush_row(s1, s2, 0, hardblank, mode) =~= s1 + s2);
    }
}

/// The pair of code points that sit at the boundary columns when the row
/// `s2` overlaps the row `s1` by `amt`: scanning the overlap from its
/// rightmost column leftwards, the first column where both rows hold a
/// visible (non-space) code point.
pub open spec fn spec_get_pair_from(s1: Seq<char>, s2: Seq<char>, amt: int, i: int) -> Option<
    (char, char),
>
    decreases i + 1,
{
    if i < 0 {
        None
    } else if s1.len() + i < amt {
        None
    } else if s1[s1.len() + i - amt] != ' ' && s2[i] != ' ' {
        Some((s1[s1.len() + i - amt], s2[i]))
    } else {
        spec_get_pair_from(s1, s2, amt, i - 1)
    }
}

/// See `get_pair`.
pub open spec fn spec_get_pair(s1: Seq<char>, s2: Seq<char>, amt: int) -> Option<(char, char)> {
    if s1.len() == 0 || s2.len() == 0 {
        None
    } else {
        let overlap = if amt < s2.len() {
            amt
        } else {
            s2.len() as int
        };
        spec_get_pair_from(s1, s2, amt, overlap - 1)
    }
}

/// Retrieve the pair of visible code points that meet at the boundary when
/// the row `s2` overlaps the row `s1` by `amt` columns, if any column of the
/// overlap holds a visible code point on both sides.
pub fn get_pair(s1: &str, s2: &str, amt: usize) -> (res: Option<(char, char)>)
    ensures
        res == spec_get_pair(s1@, s2@, amt as int),
{
    let v1 = chars_of(s1);
    let v2 = chars_of(s2);
    let len1 = v1.len();
    let len2 = v2.len();

    if len1 == 0 || len2 == 0 {
        return None;
    }

    let overlap = if amt < len2 {
        amt
    } else {
        len2
    };

    let mut i: usize = overlap;
    while i > 0
        invariant
            i <= overlap,
            overlap <= len2 == v2@.len(),
            overlap <= amt,
            len1 == v1@.len(),
            v1@ == s1@,
            v2@ == s2@,
            len1 >= 1 && len2 >= 1,
            spec_get_pair(s1@, s2@, amt as int) == spec_get_pair_from(
                s1@,
                s2@,
                amt as int,
                i - 1,
            ),
        decreases i,
    {
        let j = i - 1;
        // The column of the left row that faces column `j` of the right
        // row; when the overlap reaches back past the start of the left
        // row, no pair exists there or further left.
        if amt > len1 && j < amt - len1 {
            return None;
        }
        let d = amt - j;
        let l = v1[len1 - d];
        let r = v2[j];
        if l != ' ' && r != ' ' {
            return Some((l, r));
        }
        i = j;
    }
    None
}

/// The views of the elements of a sequence: the rows of an output buffer or
/// glyph as mathematical sequences of code points.
pub open spec fn views_of<T: View>(v: Seq<T>) -> Seq<T::V> {
    Seq::new(v.len(), |i: int| v[i]@)
}

pub proof fn lemma_views_of_push<T: View>(v: Seq<T>, x: T)
    ensures
        views_of(v.push(x)) =~= views_of(v).push(x@),
{
}

/// Code-point-based access to text, complementing the byte-based methods of
/// the standard library.
pub trait CharExt {
    /// The code points of this text.
    spec fn chars_view(&self) -> Seq<char>;

    /// Length in code points rather than bytes.
    fn char_len(&self) -> (n: usize)
        ensures
            n == self.chars_view().len(),
    ;

    /// The code point at position `i`.
    fn char_nth(&self, i: usize) -> (c: char)
        requires
            i < self.chars_view().len(),
        ensures
            c == self.chars_view()[i as int],
    ;
}

impl CharExt for str {
    open spec fn chars_view(&self) -> Seq<char> {
        self@
    }

    fn char_len(&self) -> usize {
        self.unicode_len()
    }

    fn char_nth(&self, i: usize) -> char {
        self.get_char(i)
    }
}

} // verus!
