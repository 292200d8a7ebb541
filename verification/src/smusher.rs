//! The compositor: owns one output row per font row and pushes one glyph at
//! a time, merging it with the existing output column by column.
//!
//! Every row of a glyph is merged with the same overlap — the smallest of
//! the per-row overlaps — so that the glyph's rows stay vertically aligned.

use vstd::prelude::*;

use crate::figfont::{equal_widths, FIGchar, FIGfont};
use crate::strsmush;
use crate::strsmush::{push_char, sat_usize, spec_amount, spec_smush_row, views_of};

verus! {

/// Creates a message written with large text-art characters.
///
/// The Smusher adds glyphs to an output buffer and controls how they fit
/// together in a line: at full width, kerned, or smushed, as its layout
/// mode says.
#[derive(Debug)]
pub struct Smusher<'a> {
    /// The layout mode in effect for this compositor.
    pub mode: u32,
    /// Append glyphs with no overlap at all, bypassing the rule system.
    pub full_width: bool,
    /// Compose right to left; read only by universal smushing.
    pub right2left: bool,
    /// The font glyphs are taken from.
    pub font: &'a FIGfont,
    /// The output rows, one per font row, as raw code points with the
    /// hardblank still in place.
    pub output: Vec<Vec<char>>,
}

/// The length of a row after another row is merged into it with the given
/// overlap; it depends only on the two lengths and the overlap.
pub open spec fn smushed_len(l1: int, l2: int, amt: int) -> int {
    let l2t = if amt > l1 {
        if amt - l1 >= l2 {
            0
        } else {
            l2 - (amt - l1)
        }
    } else {
        l2
    };
    let m1 = l1 - (if amt > l1 {
        l1
    } else {
        amt
    });
    if m1 + l2t < l1 {
        l1
    } else {
        m1 + l2t
    }
}

/// The merged row is exactly as long as `smushed_len` says.
pub proof fn lemma_smush_row_len_exact(
    s1: Seq<char>,
    s2: Seq<char>,
    amt: int,
    hardblank: char,
    mode: u32,
)
    requires
        0 <= amt,
    ensures
        spec_smush_row(s1, s2, amt, hardblank, mode).len() == smushed_len(
            s1.len() as int,
            s2.len() as int,
            amt,
        ),
{
}

/// The shared overlap for one glyph: the smallest of the overlaps that the
/// first `n` rows allow, so that no row is overlapped further than every
/// other row can bear.
pub open spec fn spec_min_amount(
    rows: Seq<Seq<char>>,
    glyph: Seq<Seq<char>>,
    hardblank: char,
    mode: u32,
    n: int,
) -> int
    decreases n,
{
    if n <= 1 {
        sat_usize(spec_amount(rows[0], glyph[0], hardblank, mode))
    } else {
        let prev = spec_min_amount(rows, glyph, hardblank, mode, n - 1);
        let cur = sat_usize(spec_amount(rows[n - 1], glyph[n - 1], hardblank, mode));
        if cur < prev {
            cur
        } else {
            prev
        }
    }
}

/// One glyph pushed into the output rows: no overlap at all at full width,
/// otherwise the shared overlap, applied to every row alike.
pub open spec fn spec_push_glyph(
    rows: Seq<Seq<char>>,
    glyph: Seq<Seq<char>>,
    hardblank: char,
    full_width: bool,
    mode: u32,
) -> Seq<Seq<char>> {
    let amt = if full_width {
        0
    } else {
        spec_min_amount(rows, glyph, hardblank, mode, rows.len() as int)
    };
    Seq::new(rows.len(), |i: int| spec_smush_row(rows[i], glyph[i], amt, hardblank, mode))
}

/// The output rows after one code point is pushed: its glyph is looked up
/// in the font and merged in.
pub open spec fn spec_push_char(
    font: FIGfont,
    full_width: bool,
    mode: u32,
    rows: Seq<Seq<char>>,
    ch: char,
) -> Seq<Seq<char>> {
    spec_push_glyph(rows, font.spec_get(ch)@, font.hardblank, full_width, mode)
}

/// The output rows after every code point of `s` is pushed in turn.
pub open spec fn spec_push_text(
    font: FIGfont,
    full_width: bool,
    mode: u32,
    rows: Seq<Seq<char>>,
    s: Seq<char>,
) -> Seq<Seq<char>>
    decreases s.len(),
{
    if s.len() == 0 {
        rows
    } else {
        spec_push_text(
            font,
            full_width,
            mode,
            spec_push_char(font, full_width, mode, rows, s[0]),
            s.drop_first(),
        )
    }
}

/// Pushing text one code point at a time, from the left, is pushing the
/// text: the fold unrolls at its right end.
pub proof fn lemma_push_text_snoc(
    font: FIGfont,
    full_width: bool,
    mode: u32,
    rows: Seq<Seq<char>>,
    s: Seq<char>,
    c: char,
)
    ensures
        spec_push_text(font, full_width, mode, rows, s.push(c)) == spec_push_char(
            font,
            full_width,
            mode,
            spec_push_text(font, full_width, mode, rows, s),
            c,
        ),
    decreases s.len(),
{
    if s.len() == 0 {
        let rows2 = spec_push_char(font, full_width, mode, rows, c);
        assert(s.push(c)[0] == c);
        assert(s.push(c).drop_first() =~= Seq::<char>::empty());
        assert(spec_push_text(font, full_width, mode, rows2, s.push(c).drop_first()) == rows2);
        assert(spec_push_text(font, full_width, mode, rows, s.push(c)) == rows2);
    } else {
        let rows1 = spec_push_char(font, full_width, mode, rows, s[0]);
        assert(s.push(c)[0] == s[0]);
        assert(s.push(c).drop_first() =~= s.drop_first().push(c));
        lemma_push_text_snoc(font, full_width, mode, rows1, s.drop_first(), c);
        assert(spec_push_text(font, full_width, mode, rows, s.push(c)) == spec_push_text(
            font,
            full_width,
            mode,
            rows1,
            s.drop_first().push(c),
        ));
        assert(spec_push_text(font, full_width, mode, rows, s) == spec_push_text(
            font,
            full_width,
            mode,
            rows1,
            s.drop_first(),
        ));
    }
}

/// Pushing one text after another is pushing their concatenation.
pub proof fn lemma_push_text_append(
    font: FIGfont,
    full_width: bool,
    mode: u32,
    rows: Seq<Seq<char>>,
    a: Seq<char>,
    b: Seq<char>,
)
    ensures
        spec_push_text(font, full_width, mode, rows, a + b) == spec_push_text(
            font,
            full_width,
            mode,
            spec_push_text(font, full_width, mode, rows, a),
            b,
        ),
    decreases a.len(),
{
    if a.len() == 0 {
        assert(a + b =~= b);
    } else {
        let rows1 = spec_push_char(font, full_width, mode, rows, a[0]);
        assert((a + b)[0] == a[0]);
        assert((a + b).drop_first() =~= a.drop_first() + b);
        lemma_push_text_append(font, full_width, mode, rows1, a.drop_first(), b);
        assert(spec_push_text(font, full_width, mode, rows, a + b) == spec_push_text(
            font,
            full_width,
            mode,
            rows1,
            a.drop_first() + b,
        ));
        assert(spec_push_text(font, full_width, mode, rows, a) == spec_push_text(
            font,
            full_width,
            mode,
            rows1,
            a.drop_first(),
        ));
    }
}

/// The output with the hardblank placeholder replaced by a real space, as
/// the buffer is shown to the outside.
pub open spec fn spec_shown(rows: Seq<Seq<char>>, hardblank: char) -> Seq<Seq<char>> {
    Seq::new(
        rows.len(),
        |i: int|
            Seq::new(
                rows[i].len(),
                |j: int|
                    if rows[i][j] == hardblank {
                        ' '
                    } else {
                        rows[i][j]
                    },
            ),
    )
}

/// Every row cut to its first `width` code points.
pub open spec fn spec_trim_rows(rows: Seq<Seq<char>>, width: int) -> Seq<Seq<char>> {
    Seq::new(
        rows.len(),
        |i: int|
            rows[i].take(
                if width < rows[i].len() {
                    width
                } else {
                    rows[i].len() as int
                },
            ),
    )
}

/// Composing a glyph at full width is plain concatenation of its rows to
/// the output rows, with no shared columns, whatever the layout mode.
pub proof fn lemma_push_full_width(font: FIGfont, mode: u32, rows: Seq<Seq<char>>, ch: char)
    ensures
        spec_push_char(font, true, mode, rows, ch) == Seq::new(
            rows.len(),
            |i: int| rows[i] + font.spec_get(ch)@[i],
        ),
{
    let g = font.spec_get(ch)@;
    assert forall|i: int| 0 <= i < rows.len() implies spec_smush_row(
        rows[i],
        g[i],
        0,
        font.hardblank,
        mode,
    ) == rows[i] + g[i] by {
        strsmush::lemma_smush_row_concat(rows[i], g[i], font.hardblank, mode);
    }
    assert(spec_push_char(font, true, mode, rows, ch) =~= Seq::new(
        rows.len(),
        |i: int| rows[i] + g[i],
    ));
}

impl<'a> Smusher<'a> {
    /// The output rows as mathematics: one sequence of code points per font
    /// row.
    pub open spec fn rows(&self) -> Seq<Seq<char>> {
        views_of(self.output@)
    }

    /// The font this compositor renders with.
    pub open spec fn spec_font(&self) -> FIGfont {
        *self.font
    }

    /// Structurally sound: a usable font, one output row per font row, and
    /// all output rows of one width.
    pub open spec fn wf(&self) -> bool {
        &&& self.spec_font().wf()
        &&& self.rows().len() == self.spec_font().height
        &&& equal_widths(self.rows())
    }

    /// Width of the output in sub-characters.
    pub open spec fn spec_len(&self) -> int {
        self.rows()[0].len() as int
    }

    /// Create a new smusher using the given font, with the font's own
    /// layout mode and an empty output buffer.
    pub fn new(font: &'a FIGfont) -> (res: Smusher<'a>)
        requires
            font.wf(),
        ensures
            res.wf(),
            res.spec_font() == *font,
            res.mode == font.layout,
            res.full_width == (font.old_layout == -1),
            res.right2left == false,
            res.rows() == Seq::new(font.height as nat, |i: int| Seq::<char>::empty()),
            res.spec_len() == 0,
    {
        let mut output: Vec<Vec<char>> = Vec::new();
        let mut i: usize = 0;
        while i < font.height
            invariant
                i <= font.height,
                output@.len() == i,
                forall|j: int| 0 <= j < i ==> (#[trigger] output@[j])@.len() == 0,
            decreases font.height - i,
        {
            output.push(Vec::new());
            i = i + 1;
        }
        proof {
            assert(views_of(output@) =~~= Seq::new(font.height as nat, |i: int| Seq::<char>::empty()));
        }
        Smusher { mode: font.layout, full_width: font.old_layout == -1, right2left: false, font, output }
    }

    /// Get the contents of the output buffer, with the hardblank
    /// placeholder shown as a real space.
    pub fn get(&self) -> (res: Vec<String>)
        ensures
            views_of(res@) == spec_shown(self.rows(), self.spec_font().hardblank),
    {
        let hardblank = self.font.hardblank;
        let mut res: Vec<String> = Vec::new();
        let mut i: usize = 0;
        while i < self.output.len()
            invariant
                i <= self.output@.len(),
                hardblank == self.spec_font().hardblank,
                res@.len() == i,
                forall|j: int| 0 <= j < i ==> (#[trigger] res@[j])@ == spec_shown(
                    self.rows(),
                    hardblank,
                )[j],
            decreases self.output@.len() - i,
        {
            let row = &self.output[i];
            let mut line = String::new();
            let mut j: usize = 0;
            while j < row.len()
                invariant
                    j <= row@.len(),
                    line@.len() == j,
                    forall|k: int| 0 <= k < j ==> line@[k] == (if row@[k] == hardblank {
                        ' '
                    } else {
                        row@[k]
                    }),
                decreases row@.len() - j,
            {
                let c = row[j];
                push_char(&mut line, if c == hardblank {
                    ' '
                } else {
                    c
                });
                j = j + 1;
            }
            proof {
                assert(line@ =~= spec_shown(self.rows(), hardblank)[i as int]);
            }
            res.push(line);
            i = i + 1;
        }
        proof {
            assert(views_of(res@) =~~= spec_shown(self.rows(), self.spec_font().hardblank));
        }
        res
    }

    /// Whether the output buffer holds nothing yet.
    pub fn is_empty(&self) -> (res: bool)
        ensures
            res == (self.rows().len() == 0 || self.rows()[0].len() == 0),
    {
        self.output.len() == 0 || self.output[0].len() == 0
    }

    /// Clear the output buffer; the mode, width flag and font stay.
    pub fn clear(&mut self)
        ensures
            final(self).rows() == Seq::new(
                old(self).rows().len(),
                |i: int| Seq::<char>::empty(),
            ),
            final(self).mode == old(self).mode,
            final(self).full_width == old(self).full_width,
            final(self).right2left == old(self).right2left,
            final(self).spec_font() == old(self).spec_font(),
            old(self).wf() ==> final(self).wf(),
    {
        let n = self.output.len();
        let mut output: Vec<Vec<char>> = Vec::new();
        let mut i: usize = 0;
        while i < n
            invariant
                i <= n,
                output@.len() == i,
                forall|j: int| 0 <= j < i ==> (#[trigger] output@[j])@.len() == 0,
            decreases n - i,
        {
            output.push(Vec::new());
            i = i + 1;
        }
        self.output = output;
        proof {
            assert(self.rows() =~~= Seq::new(old(self).rows().len(), |i: int| Seq::<char>::empty()));
        }
    }

    /// Obtain the size, in sub-characters, of any line of the output
    /// buffer.
    pub fn len(&self) -> (res: usize)
        requires
            self.wf(),
        ensures
            res as int == self.spec_len(),
    {
        self.output[0].len()
    }

    /// The number of sub-characters by which the given glyph would overlap
    /// the current output under this compositor's layout mode.
    pub fn amount(&self, fc: &FIGchar) -> (res: usize)
        requires
            self.wf(),
            fc@.len() == self.rows().len(),
        ensures
            res as int == spec_min_amount(
                self.rows(),
                fc@,
                self.spec_font().hardblank,
                self.mode,
                self.rows().len() as int,
            ),
    {
        min_amount(&self.output, fc, self.font.hardblank, self.mode)
    }

    /// Add a character to the output buffer, applying the smushing rules
    /// given by the layout mode.
    pub fn push(&mut self, ch: char)
        requires
            old(self).wf(),
        ensures
            final(self).wf(),
            final(self).rows() == spec_push_char(
                old(self).spec_font(),
                old(self).full_width,
                old(self).mode,
                old(self).rows(),
                ch,
            ),
            final(self).mode == old(self).mode,
            final(self).full_width == old(self).full_width,
            final(self).right2left == old(self).right2left,
            final(self).spec_font() == old(self).spec_font(),
    {
        let font: &FIGfont = self.font;
        let fc = font.get(ch);
        let hardblank = font.hardblank;
        let amt: usize = if self.full_width {
            0
        } else {
            min_amount(&self.output, fc, hardblank, self.mode)
        };
        let ghost rows0 = self.rows();
        let ghost target = Seq::new(
            rows0.len(),
            |i: int| spec_smush_row(rows0[i], fc@[i], amt as int, hardblank, self.mode),
        );
        let mut out: Vec<Vec<char>> = Vec::new();
        let mut i: usize = 0;
        while i < self.output.len()
            invariant
                i <= self.output@.len(),
                self.output@.len() == rows0.len(),
                rows0 == views_of(self.output@),
                fc@.len() == rows0.len(),
                hardblank == self.spec_font().hardblank,
                target == Seq::new(
                    rows0.len(),
                    |k: int| spec_smush_row(rows0[k], fc@[k], amt as int, hardblank, self.mode),
                ),
                out@.len() == i,
                forall|j: int| 0 <= j < i ==> (#[trigger] out@[j])@ == target[j],
            decreases self.output@.len() - i,
        {
            let merged = strsmush::smush_vec(&self.output[i], fc.row(i), amt, hardblank, self.mode);
            proof {
                assert(rows0[i as int] == self.output@[i as int]@);
            }
            out.push(merged);
            i = i + 1;
        }
        self.output = out;
        proof {
            assert(self.rows() =~~= target);
            assert(self.rows() == spec_push_char(
                old(self).spec_font(),
                old(self).full_width,
                old(self).mode,
                rows0,
                ch,
            ));
            // All rows come out the same length: each row's new length
            // depends only on the old width, the glyph width and the shared
            // overlap, which are the same for every row.
            assert forall|a: int, b: int| 0 <= a < target.len() && 0 <= b < target.len() implies
                target[a].len() == target[b].len() by {
                lemma_smush_row_len_exact(rows0[a], fc@[a], amt as int, hardblank, self.mode);
                lemma_smush_row_len_exact(rows0[b], fc@[b], amt as int, hardblank, self.mode);
            }
            assert(equal_widths(self.rows()));
        }
    }

    /// Add a string to the output buffer, one code point after the other,
    /// applying the smushing rules given by the layout mode.
    pub fn push_str(&mut self, s: &str)
        requires
            old(self).wf(),
        ensures
            final(self).wf(),
            final(self).rows() == spec_push_text(
                old(self).spec_font(),
                old(self).full_width,
                old(self).mode,
                old(self).rows(),
                s@,
            ),
            final(self).mode == old(self).mode,
            final(self).full_width == old(self).full_width,
            final(self).right2left == old(self).right2left,
            final(self).spec_font() == old(self).spec_font(),
    {
        let v = strsmush::chars_of(s);
        let ghost rows0 = self.rows();
        let ghost font = self.spec_font();
        let ghost fw = self.full_width;
        let ghost mode0 = self.mode;
        let mut i: usize = 0;
        proof {
            assert(v@.take(0) =~= Seq::<char>::empty());
        }
        while i < v.len()
            invariant
                i <= v@.len(),
                v@ == s@,
                self.wf(),
                self.spec_font() == font,
                self.full_width == fw,
                self.mode == mode0,
                self.right2left == old(self).right2left,
                self.rows() == spec_push_text(font, fw, mode0, rows0, v@.take(i as int)),
            decreases v@.len() - i,
    {
            self.push(v[i]);
            proof {
                assert(v@.take(i + 1 as int) =~= v@.take(i as int).push(v@[i as int]));
                lemma_push_text_snoc(font, fw, mode0, rows0, v@.take(i as int), v@[i as int]);
            }
            i = i + 1;
        }
        proof {
            assert(v@.take(v@.len() as int) =~= s@);
        }
    }

    /// Limit the size, in sub-characters, of the output buffer: every row
    /// keeps only its first `width` code points.
    pub fn trim(&mut self, width: usize)
        ensures
            final(self).rows() == spec_trim_rows(old(self).rows(), width as int),
            final(self).mode == old(self).mode,
            final(self).full_width == old(self).full_width,
            final(self).right2left == old(self).right2left,
            final(self).spec_font() == old(self).spec_font(),
            old(self).wf() ==> final(self).wf(),
    {
        let ghost rows0 = self.rows();
        let mut out: Vec<Vec<char>> = Vec::new();
        let mut i: usize = 0;
        while i < self.output.len()
            invariant
                i <= self.output@.len(),
                rows0 == views_of(self.output@),
                out@.len() == i,
                forall|j: int| 0 <= j < i ==> (#[trigger] out@[j])@ == spec_trim_rows(
                    rows0,
                    width as int,
                )[j],
            decreases self.output@.len() - i,
        {
            let row = &self.output[i];
            let keep = if width < row.len() {
                width
            } else {
                row.len()
            };
            let mut cut: Vec<char> = Vec::new();
            let mut j: usize = 0;
            while j < keep
                invariant
                    j <= keep <= row@.len(),
                    cut@ =~= row@.take(j as int),
                decreases keep - j,
            {
                cut.push(row[j]);
                proof {
                    assert(cut@ =~= row@.take(j + 1 as int));
                }
                j = j + 1;
            }
            proof {
                assert(rows0[i as int] == row@);
                assert(cut@ =~= spec_trim_rows(rows0, width as int)[i as int]);
            }
            out.push(cut);
            i = i + 1;
        }
        self.output = out;
        proof {
            assert(self.rows() =~~= spec_trim_rows(rows0, width as int));
            if old(self).wf() {
                assert(equal_widths(self.rows()));
            }
        }
    }
}

/// The smallest per-row overlap of a glyph against output rows of the same
/// count.
pub(crate) fn min_amount(output: &Vec<Vec<char>>, fc: &FIGchar, hardblank: char, mode: u32) -> (res:
    usize)
    requires
        output@.len() >= 1,
        fc@.len() == output@.len(),
    ensures
        res as int == spec_min_amount(views_of(output@), fc@, hardblank, mode, output@.len() as int),
{
    let mut m: usize = strsmush::amount_vec(&output[0], fc.row(0), hardblank, mode);
    proof {
        assert(views_of(output@)[0] == output@[0]@);
    }
    let mut i: usize = 1;
    while i < output.len()
        invariant
            1 <= i <= output@.len(),
            fc@.len() == output@.len(),
            m as int == spec_min_amount(views_of(output@), fc@, hardblank, mode, i as int),
        decreases output@.len() - i,
    {
        let a = strsmush::amount_vec(&output[i], fc.row(i), hardblank, mode);
        proof {
            assert(views_of(output@)[i as int] == output@[i as int]@);
        }
        if a < m {
            m = a;
        }
        i = i + 1;
    }
    m
}

/// The smallest of the per-row overlaps of a glyph against the given output
/// lines: how far the glyph may be smushed into them.
pub fn amount(output: &Vec<String>, c: &FIGchar, hardblank: char, mode: u32) -> (res: usize)
    requires
        output@.len() >= 1,
        c@.len() == output@.len(),
    ensures
        res as int == spec_min_amount(views_of(output@), c@, hardblank, mode, output@.len() as int),
{
    let mut rows: Vec<Vec<char>> = Vec::new();
    let mut i: usize = 0;
    while i < output.len()
        invariant
            i <= output@.len(),
            rows@.len() == i,
            forall|j: int| 0 <= j < i ==> (#[trigger] rows@[j])@ == output@[j]@,
        decreases output@.len() - i,
    {
        rows.push(strsmush::chars_of(output[i].as_str()));
        i = i + 1;
    }
    proof {
        assert(views_of(rows@) =~~= views_of(output@));
    }
    min_amount(&rows, c, hardblank, mode)
}

/// Every line cut to its first `width` code points.
pub fn trim(output: &Vec<String>, width: usize) -> (res: Vec<String>)
    ensures
        views_of(res@) == spec_trim_rows(views_of(output@), width as int),
{
    let mut res: Vec<String> = Vec::new();
    let mut i: usize = 0;
    while i < output.len()
        invariant
            i <= output@.len(),
            res@.len() == i,
            forall|j: int| 0 <= j < i ==> (#[trigger] res@[j])@ == spec_trim_rows(
                views_of(output@),
                width as int,
            )[j],
        decreases output@.len() - i,
    {
        let row = strsmush::chars_of(output[i].as_str());
        let keep = if width < row.len() {
            width
        } else {
            row.len()
        };
        let mut cut = String::new();
        let mut j: usize = 0;
        while j < keep
            invariant
                j <= keep <= row@.len(),
                cut@ =~= row@.take(j as int),
            decreases keep - j,
        {
            push_char(&mut cut, row[j]);
            proof {
                assert(cut@ =~= row@.take(j + 1 as int));
            }
            j = j + 1;
        }
        proof {
            assert(views_of(output@)[i as int] == output@[i as int]@);
            assert(cut@ =~= spec_trim_rows(views_of(output@), width as int)[i as int]);
        }
        res.push(cut);
        i = i + 1;
    }
    proof {
        assert(views_of(res@) =~~= spec_trim_rows(views_of(output@), width as int));
    }
    res
}

} // verus!
