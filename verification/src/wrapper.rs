//! The line wrapper: a word-wrap state machine on top of one compositor.
//!
//! Text is pushed speculatively; when the composed line would exceed the
//! width budget, the push is rolled back by replaying the raw buffer, and
//! the caller is told to flush.  Completed lines are aligned within the
//! width budget before they are handed out.

use vstd::prelude::*;

use crate::figfont::FIGfont;
use crate::smusher::{spec_push_text, spec_shown, spec_trim_rows, Smusher};
use crate::strsmush::{push_char, string_of, views_of};
use crate::Error;

verus! {

/// How a completed line sits inside the width budget.
#[derive(Debug, Clone, Copy, PartialEq, Eq, Structural)]
pub enum Align {
    Left,
    Right,
    Center,
}

/// Render smushed text-art characters with word wrapping.
///
/// The wrapper receives string or character input and renders the
/// corresponding glyphs as long as the output fits inside the maximum width
/// given at creation; longer output is refused with `LineFull`, and the
/// word-wrap driver flushes finished lines and re-flows the rest.
#[derive(Debug)]
pub struct Wrapper<'a> {
    /// The glyph compositor.
    pub sm: Smusher<'a>,
    /// The plain-text reconstruction of everything in the compositor, used
    /// to rebuild it after a rolled-back push.
    pub buffer: Vec<char>,
    /// Whether the next token needs no inter-word space before it.
    pub has_space: bool,
    /// The width budget in sub-characters.
    pub width: usize,
    /// The alignment applied when lines are handed out.
    pub align: Align,
}

/// The output rows that replaying `s` into an empty compositor yields.
pub open spec fn spec_render(
    font: FIGfont,
    full_width: bool,
    mode: u32,
    s: Seq<char>,
) -> Seq<Seq<char>> {
    spec_push_text(
        font,
        full_width,
        mode,
        Seq::new(font.height as nat, |i: int| Seq::<char>::empty()),
        s,
    )
}

/// The width of composed output rows.
pub open spec fn rows_width(rows: Seq<Seq<char>>) -> int {
    if rows.len() == 0 {
        0
    } else {
        rows[0].len() as int
    }
}

/// `n` spaces.
pub open spec fn spec_spaces(n: int) -> Seq<char> {
    Seq::new(
        if n < 0 {
            0
        } else {
            n as nat
        },
        |i: int| ' ',
    )
}

/// What `get` hands out: the rows cut to the width budget as a last
/// resort, the hardblank shown as a space, and the remaining slack laid
/// out left, centred or right.
pub open spec fn spec_aligned(
    rows: Seq<Seq<char>>,
    width: int,
    align: Align,
    hardblank: char,
) -> Seq<Seq<char>> {
    let t = if rows_width(rows) > width {
        spec_trim_rows(rows, width)
    } else {
        rows
    };
    let slack = width - rows_width(t);
    let pad = match align {
        Align::Left => 0int,
        Align::Center => slack / 2,
        Align::Right => slack,
    };
    let shown = spec_shown(t, hardblank);
    Seq::new(shown.len(), |i: int| spec_spaces(pad) + shown[i])
}

impl<'a> Wrapper<'a> {
    /// Structurally sound: the compositor is.
    pub open spec fn wf(&self) -> bool {
        self.sm.wf()
    }

    /// The raw buffer replayed through the same push sequence reproduces
    /// the compositor's output exactly; this is what makes rollback
    /// correct.
    pub open spec fn synced(&self) -> bool {
        self.sm.rows() == spec_render(
            self.sm.spec_font(),
            self.sm.full_width,
            self.sm.mode,
            self.buffer@,
        )
    }

    /// The width the composed output would have after `s` is appended to
    /// the raw buffer.
    pub open spec fn width_after(&self, s: Seq<char>) -> int {
        rows_width(
            spec_render(
                self.sm.spec_font(),
                self.sm.full_width,
                self.sm.mode,
                self.buffer@ + s,
            ),
        )
    }

    /// Create a new wrapper around a fresh compositor and a width budget.
    pub fn new(sm: Smusher<'a>, width: usize) -> (res: Wrapper<'a>)
        requires
            sm.wf(),
            sm.rows() == Seq::new(sm.spec_font().height as nat, |i: int| Seq::<char>::empty()),
        ensures
            res.wf(),
            res.synced(),
            res.sm == sm,
            res.buffer@ == Seq::<char>::empty(),
            res.has_space == true,
            res.width == width,
            res.align == Align::Left,
    {
        let res = Wrapper { sm, buffer: Vec::new(), has_space: true, width, align: Align::Left };
        proof {
            assert(res.synced());
        }
        res
    }

    /// Clear the accumulated line; the font, mode and width budget stay.
    pub fn clear(&mut self)
        requires
            old(self).wf(),
        ensures
            final(self).wf(),
            final(self).synced(),
            final(self).buffer@ == Seq::<char>::empty(),
            final(self).has_space == true,
            final(self).width == old(self).width,
            final(self).align == old(self).align,
            final(self).sm.spec_font() == old(self).sm.spec_font(),
            final(self).sm.mode == old(self).sm.mode,
            final(self).sm.full_width == old(self).sm.full_width,
            final(self).sm.rows() == Seq::new(
                old(self).sm.spec_font().height as nat,
                |i: int| Seq::<char>::empty(),
            ),
    {
        self.sm.clear();
        self.buffer = Vec::new();
        self.has_space = true;
    }

    /// The length in sub-characters of the composed line.
    pub fn len(&self) -> (res: usize)
        requires
            self.wf(),
        ensures
            res as int == self.sm.spec_len(),
    {
        self.sm.len()
    }

    /// Whether nothing is composed yet.
    pub fn is_empty(&self) -> (res: bool)
        ensures
            res == (self.sm.rows().len() == 0 || self.sm.rows()[0].len() == 0),
    {
        self.sm.is_empty()
    }

    /// Add a character to the composed line.
    ///
    /// If the addition would make the line wider than the width budget, the
    /// compositor is rebuilt from the raw buffer instead — nothing changes —
    /// and `LineFull` is returned.
    pub fn push(&mut self, ch: char) -> (res: Result<(), Error>)
        requires
            old(self).wf(),
            old(self).synced(),
        ensures
            final(self).wf(),
            final(self).synced(),
            final(self).width == old(self).width,
            final(self).align == old(self).align,
            final(self).has_space == old(self).has_space,
            final(self).sm.spec_font() == old(self).sm.spec_font(),
            final(self).sm.mode == old(self).sm.mode,
            final(self).sm.full_width == old(self).sm.full_width,
            res is Ok <==> old(self).width_after(seq![ch]) <= old(self).width,
            res is Ok ==> final(self).buffer@ == old(self).buffer@ + seq![ch],
            res is Err ==> res == Err::<(), Error>(Error::LineFull) && final(self).buffer
                == old(self).buffer && final(self).sm.rows() == old(self).sm.rows(),
    {
        let ghost font = self.sm.spec_font();
        let ghost fw = self.sm.full_width;
        let ghost mode = self.sm.mode;
        let ghost b0 = self.buffer@;
        self.sm.push(ch);
        proof {
            assert(b0.push(ch) =~= b0 + seq![ch]);
            crate::smusher::lemma_push_text_snoc(
                font,
                fw,
                mode,
                Seq::new(font.height as nat, |i: int| Seq::<char>::empty()),
                b0,
                ch,
            );
        }
        if self.sm.len() > self.width {
            self.sm.clear();
            let b = string_of(&self.buffer);
            self.sm.push_str(b.as_str());
            return Err(Error::LineFull);
        }
        self.buffer.push(ch);
        proof {
            assert(self.buffer@ =~= b0 + seq![ch]);
        }
        Ok(())
    }

    /// Add a string to the composed line.
    ///
    /// If the addition would make the line wider than the width budget, the
    /// compositor is rebuilt from the raw buffer instead — nothing changes —
    /// and `LineFull` is returned.
    pub fn push_str(&mut self, s: &str) -> (res: Result<(), Error>)
        requires
            old(self).wf(),
            old(self).synced(),
        ensures
            final(self).wf(),
            final(self).synced(),
            final(self).width == old(self).width,
            final(self).align == old(self).align,
            final(self).has_space == old(self).has_space,
            final(self).sm.spec_font() == old(self).sm.spec_font(),
            final(self).sm.mode == old(self).sm.mode,
            final(self).sm.full_width == old(self).sm.full_width,
            res is Ok <==> old(self).width_after(s@) <= old(self).width,
            res is Ok ==> final(self).buffer@ == old(self).buffer@ + s@,
            res is Err ==> res == Err::<(), Error>(Error::LineFull) && final(self).buffer
                == old(self).buffer && final(self).sm.rows() == old(self).sm.rows(),
    {
        let ghost font = self.sm.spec_font();
        let ghost fw = self.sm.full_width;
        let ghost mode = self.sm.mode;
        let ghost b0 = self.buffer@;
        self.sm.push_str(s);
        proof {
            crate::smusher::lemma_push_text_append(
                font,
                fw,
                mode,
                Seq::new(font.height as nat, |i: int| Seq::<char>::empty()),
                b0,
                s@,
            );
        }
        if self.sm.len() > self.width {
            self.sm.clear();
            let b = string_of(&self.buffer);
            self.sm.push_str(b.as_str());
            return Err(Error::LineFull);
        }
        let v = crate::strsmush::chars_of(s);
        let ghost sm1 = self.sm;
        let mut i: usize = 0;
        proof {
            assert(self.buffer@ =~= b0 + v@.take(0));
        }
        while i < v.len()
            invariant
                i <= v@.len(),
                v@ == s@,
                self.buffer@ == b0 + v@.take(i as int),
                self.sm == sm1,
                self.width == old(self).width,
                self.align == old(self).align,
                self.has_space == old(self).has_space,
            decreases v@.len() - i,
        {
            self.buffer.push(v[i]);
            proof {
                assert(b0 + v@.take(i + 1 as int) =~= (b0 + v@.take(i as int)).push(v@[i as int]));
            }
            i = i + 1;
        }
        proof {
            assert(self.buffer@ =~= b0 + s@);
        }
        Ok(())
    }

    /// Add a character without any width check: the escape hatch for a
    /// character that alone exceeds the width budget.
    pub fn push_nowrap(&mut self, ch: char)
        requires
            old(self).wf(),
            old(self).synced(),
        ensures
            final(self).wf(),
            final(self).synced(),
            final(self).width == old(self).width,
            final(self).align == old(self).align,
            final(self).has_space == old(self).has_space,
            final(self).sm.spec_font() == old(self).sm.spec_font(),
            final(self).sm.mode == old(self).sm.mode,
            final(self).sm.full_width == old(self).sm.full_width,
            final(self).buffer@ == old(self).buffer@ + seq![ch],
    {
        let ghost font = self.sm.spec_font();
        let ghost fw = self.sm.full_width;
        let ghost mode = self.sm.mode;
        let ghost b0 = self.buffer@;
        self.sm.push(ch);
        proof {
            assert(b0.push(ch) =~= b0 + seq![ch]);
            crate::smusher::lemma_push_text_snoc(
                font,
                fw,
                mode,
                Seq::new(font.height as nat, |i: int| Seq::<char>::empty()),
                b0,
                ch,
            );
        }
        self.buffer.push(ch);
        proof {
            assert(self.buffer@ =~= b0 + seq![ch]);
        }
    }

    /// Retrieve the composed line, aligned within the width budget; an
    /// over-wide line is first cut down to the budget as a last resort.
    pub fn get(&mut self) -> (res: Vec<String>)
        requires
            old(self).wf(),
        ensures
            final(self).wf(),
            final(self).width == old(self).width,
            final(self).align == old(self).align,
            final(self).has_space == old(self).has_space,
            final(self).buffer == old(self).buffer,
            final(self).sm.spec_font() == old(self).sm.spec_font(),
            final(self).sm.mode == old(self).sm.mode,
            final(self).sm.full_width == old(self).sm.full_width,
            final(self).sm.rows() == (if old(self).sm.spec_len() > old(self).width {
                spec_trim_rows(old(self).sm.rows(), old(self).width as int)
            } else {
                old(self).sm.rows()
            }),
            views_of(res@) == spec_aligned(
                old(self).sm.rows(),
                old(self).width as int,
                old(self).align,
                old(self).sm.spec_font().hardblank,
            ),
            old(self).sm.spec_len() <= old(self).width ==> final(self).sm == old(self).sm,
    {
        if self.sm.len() > self.width {
            self.sm.trim(self.width);
        }
        proof {
            assert(self.sm.spec_len() <= self.width);
        }
        let w = self.width - self.sm.len();
        let v = self.sm.get();
        match self.align {
            Align::Left => {
                proof {
                    assert(views_of(v@) =~~= spec_aligned(
                        old(self).sm.rows(),
                        old(self).width as int,
                        old(self).align,
                        old(self).sm.spec_font().hardblank,
                    ));
                }
                v
            },
            Align::Center => {
                let res = add_pad(&v, w / 2);
                proof {
                    assert(views_of(res@) =~~= spec_aligned(
                        old(self).sm.rows(),
                        old(self).width as int,
                        old(self).align,
                        old(self).sm.spec_font().hardblank,
                    ));
                }
                res
            },
            Align::Right => {
                let res = add_pad(&v, w);
                proof {
                    assert(views_of(res@) =~~= spec_aligned(
                        old(self).sm.rows(),
                        old(self).width as int,
                        old(self).align,
                        old(self).sm.spec_font().hardblank,
                    ));
                }
                res
            },
        }
    }
}

/// Every code point of the token is white space, or there is none.
pub open spec fn all_space(s: Seq<char>) -> bool {
    forall|i: int| 0 <= i < s.len() ==> crate::strsmush::is_space_char(#[trigger] s[i])
}

fn all_space_vec(v: &Vec<char>) -> (res: bool)
    ensures
        res == all_space(v@),
{
    let mut i: usize = 0;
    while i < v.len()
        invariant
            i <= v@.len(),
            forall|j: int| 0 <= j < i ==> crate::strsmush::is_space_char(#[trigger] v@[j]),
        decreases v@.len() - i,
    {
        if !crate::strsmush::is_space(v[i]) {
            return false;
        }
        i = i + 1;
    }
    true
}

/// Whether text composes within the width budget.
pub open spec fn spec_fits(
    font: FIGfont,
    full_width: bool,
    mode: u32,
    width: int,
    b: Seq<char>,
) -> bool {
    rows_width(spec_render(font, full_width, mode, b)) <= width
}

/// One flushed line: the aligned view of the buffer `b` as composed.
pub open spec fn spec_flush_of(
    font: FIGfont,
    full_width: bool,
    mode: u32,
    width: int,
    align: Align,
    b: Seq<char>,
) -> Seq<Seq<char>> {
    spec_aligned(spec_render(font, full_width, mode, b), width, align, font.hardblank)
}

/// The flushed lines of a group of them, as mathematics.
pub open spec fn group_views(v: Seq<Vec<String>>) -> Seq<Seq<Seq<char>>> {
    Seq::new(v.len(), |i: int| views_of(v[i]@))
}

/// Wrapping one word code point by code point, starting from the buffered
/// text `b`: each code point is pushed; when one does not fit, the line so
/// far is flushed — if there is one — and the code point starts the next
/// line with no further check, so a single code point wider than the budget
/// is taken as it is.  Yields the flushed lines, the remaining buffer, and
/// whether anything was flushed.
pub open spec fn spec_wrap_word(
    font: FIGfont,
    full_width: bool,
    mode: u32,
    width: int,
    align: Align,
    b: Seq<char>,
    s: Seq<char>,
) -> (Seq<Seq<Seq<char>>>, Seq<char>, bool)
    decreases s.len(),
{
    if s.len() == 0 {
        (Seq::empty(), b, false)
    } else {
        let c = s[0];
        if spec_fits(font, full_width, mode, width, b.push(c)) {
            spec_wrap_word(font, full_width, mode, width, align, b.push(c), s.drop_first())
        } else if b.len() != 0 {
            let rest = spec_wrap_word(font, full_width, mode, width, align, seq![c], s.drop_first());
            (seq![spec_flush_of(font, full_width, mode, width, align, b)] + rest.0, rest.1, true)
        } else {
            let rest = spec_wrap_word(font, full_width, mode, width, align, seq![c], s.drop_first());
            (rest.0, rest.1, rest.2)
        }
    }
}

/// Wrapping one token: an inter-word space goes in first unless the line
/// is fresh or the token is itself white space; if the token then does not
/// fit, the line so far is flushed and the token is retried on an empty
/// line, falling back to code-point-level wrapping when it alone exceeds
/// the budget.  Yields the flushed lines, the remaining buffer, and the
/// space state left behind.
pub open spec fn spec_wrap_str(
    font: FIGfont,
    full_width: bool,
    mode: u32,
    width: int,
    align: Align,
    b: Seq<char>,
    has_space: bool,
    s: Seq<char>,
) -> (Seq<Seq<Seq<char>>>, Seq<char>, bool) {
    let empty_tok = all_space(s);
    let b1 = if !has_space && !empty_tok {
        if spec_fits(font, full_width, mode, width, b + seq![' ']) {
            b + seq![' ']
        } else {
            b
        }
    } else {
        b
    };
    if spec_fits(font, full_width, mode, width, b1 + s) {
        (Seq::empty(), b1 + s, empty_tok)
    } else if b1.len() != 0 {
        let fl0 = seq![spec_flush_of(font, full_width, mode, width, align, b1)];
        if spec_fits(font, full_width, mode, width, s) {
            (fl0, s, false)
        } else {
            let r = spec_wrap_word(font, full_width, mode, width, align, Seq::empty(), s);
            (fl0 + r.0, r.1, false)
        }
    } else {
        let r = spec_wrap_word(font, full_width, mode, width, align, b1, s);
        (r.0, r.1, false)
    }
}

impl<'a> Wrapper<'a> {
    /// Add a word to the composed line, breaking it between code points
    /// where it must: each code point is pushed in turn, a full line is
    /// flushed into `out` and cleared, and a code point that alone exceeds
    /// the width budget is force-inserted rather than subdivided further.
    pub fn wrap_word(&mut self, word: &str, out: &mut Vec<Vec<String>>)
        requires
            old(self).wf(),
            old(self).synced(),
        ensures
            final(self).wf(),
            final(self).synced(),
            final(self).width == old(self).width,
            final(self).align == old(self).align,
            final(self).sm.spec_font() == old(self).sm.spec_font(),
            final(self).sm.mode == old(self).sm.mode,
            final(self).sm.full_width == old(self).sm.full_width,
            ({
                let r = spec_wrap_word(
                    old(self).sm.spec_font(),
                    old(self).sm.full_width,
                    old(self).sm.mode,
                    old(self).width as int,
                    old(self).align,
                    old(self).buffer@,
                    word@,
                );
                &&& group_views(final(out)@) == group_views(old(out)@) + r.0
                &&& final(self).buffer@ == r.1
                &&& final(self).has_space == (if r.2 {
                    true
                } else {
                    old(self).has_space
                })
            }),
    {
        let ghost font = self.sm.spec_font();
        let ghost fw = self.sm.full_width;
        let ghost mode = self.sm.mode;
        let ghost width = self.width as int;
        let ghost align0 = self.align;
        let ghost out0 = out@;
        let ghost hs0 = self.has_space;
        let v = crate::strsmush::chars_of(word);
        let mut i: usize = 0;
        proof {
            assert(v@.skip(0) =~= v@);
            assert(group_views(out@).skip(out0.len() as int) =~= Seq::<Seq<Seq<char>>>::empty());
            let r0 = spec_wrap_word(font, fw, mode, width, align0, self.buffer@, v@);
            assert(group_views(out@).skip(out0.len() as int) + r0.0 =~= r0.0);
            assert(group_views(out@).take(out0.len() as int) =~= group_views(out0));
        }
        while i < v.len()
            invariant
                i <= v@.len(),
                v@ == word@,
                self.wf(),
                self.synced(),
                self.width as int == width,
                self.align == align0,
                self.sm.spec_font() == font,
                self.sm.mode == mode,
                self.sm.full_width == fw,
                ({
                    let r_full = spec_wrap_word(font, fw, mode, width, align0, old(self).buffer@, v@);
                    let r_cur = spec_wrap_word(font, fw, mode, width, align0, self.buffer@, v@.skip(i as int));
                    &&& r_full.0 == group_views(out@).skip(out0.len() as int) + r_cur.0
                    &&& r_full.1 == r_cur.1
                    &&& r_full.2 == (group_views(out@).skip(out0.len() as int).len() > 0 || r_cur.2)
                }),
                group_views(out@).take(out0.len() as int) == group_views(out0),
                out@.len() >= out0.len(),
                self.has_space == (if out@.len() > out0.len() {
                    true
                } else {
                    hs0
                }),
            decreases v@.len() - i,
        {
            let c = v[i];
            proof {
                assert(v@.skip(i as int)[0] == v@[i as int]);
                assert(v@.skip(i as int).drop_first() =~= v@.skip(i + 1 as int));
                assert(self.buffer@.push(c) =~= self.buffer@ + seq![c]);
            }
            match self.push(c) {
                Ok(_) => {},
                Err(_) => {
                    let ghost b_here = self.buffer@;
                    if self.buffer.len() > 0 {
                        let flushed = self.get();
                        proof {
                            assert(views_of(flushed@) == spec_flush_of(font, fw, mode, width, align0, b_here));
                        }
                        out.push(flushed);
                        self.clear();
                        proof {
                            assert(group_views(out@) =~~= group_views(out@.take(out@.len() - 1)) + seq![views_of(out@.last()@)]);
                            assert(group_views(out@.take(out@.len() - 1)) =~~= group_views(out@).take(out@.len() - 1));
                        }
                    }
                    self.push_nowrap(c);
                    proof {
                        assert(Seq::<char>::empty() + seq![c] =~= seq![c]);
                        assert(b_here + seq![c] =~= b_here.push(c));
                    }
                },
            }
            i = i + 1;
        }
        proof {
            assert(v@.skip(v@.len() as int) =~= Seq::<char>::empty());
            assert(group_views(out@) =~= group_views(out0) + (group_views(out@).skip(out0.len() as int)));
        }
    }

    /// Add a token to the composed line, wrapping as needed: an inter-word
    /// space first unless the line is fresh or the token is white space;
    /// when the token does not fit, the finished line is flushed into `out`
    /// and the token is retried on the empty line, wrapped between code
    /// points if it alone exceeds the width budget.
    pub fn wrap_str(&mut self, s: &str, out: &mut Vec<Vec<String>>)
        requires
            old(self).wf(),
            old(self).synced(),
        ensures
            final(self).wf(),
            final(self).synced(),
            final(self).width == old(self).width,
            final(self).align == old(self).align,
            final(self).sm.spec_font() == old(self).sm.spec_font(),
            final(self).sm.mode == old(self).sm.mode,
            final(self).sm.full_width == old(self).sm.full_width,
            ({
                let r = spec_wrap_str(
                    old(self).sm.spec_font(),
                    old(self).sm.full_width,
                    old(self).sm.mode,
                    old(self).width as int,
                    old(self).align,
                    old(self).buffer@,
                    old(self).has_space,
                    s@,
                );
                &&& group_views(final(out)@) == group_views(old(out)@) + r.0
                &&& final(self).buffer@ == r.1
                &&& final(self).has_space == r.2
            }),
    {
        let ghost font = self.sm.spec_font();
        let ghost fw = self.sm.full_width;
        let ghost mode = self.sm.mode;
        let ghost width = self.width as int;
        let ghost align0 = self.align;
        let ghost b0 = self.buffer@;
        let v = crate::strsmush::chars_of(s);
        let empty_tok = all_space_vec(&v);
        if !self.has_space && !empty_tok {
            let _ = self.push(' ');
        }
        self.has_space = empty_tok;
        let ghost b1 = self.buffer@;
        match self.push_str(s) {
            Ok(_) => {
                proof {
                    assert(group_views(out@) =~~= group_views(out@) + Seq::<Seq<Seq<char>>>::empty());
                }
            },
            Err(_) => {
                if self.buffer.len() > 0 {
                    let flushed = self.get();
                    proof {
                        assert(views_of(flushed@) == spec_flush_of(font, fw, mode, width, align0, b1));
                    }
                    out.push(flushed);
                    self.clear();
                    proof {
                        assert(group_views(out@) =~~= group_views(out@.take(out@.len() - 1)) + seq![views_of(out@.last()@)]);
                        assert(group_views(out@.take(out@.len() - 1)) =~~= group_views(out@).take(out@.len() - 1));
                    }
                    match self.push_str(s) {
                        Ok(_) => {
                            proof {
                                assert(Seq::<char>::empty() + s@ =~= s@);
                            }
                        },
                        Err(_) => {
                            self.wrap_word(s, out);
                            proof {
                                assert(Seq::<char>::empty() + s@ =~= s@);
                            }
                        },
                    }
                } else {
                    match self.push_str(s) {
                        Ok(_) => {
                            proof {
                                assert(b1 + s@ =~= s@);
                            }
                        },
                        Err(_) => {
                            self.wrap_word(s, out);
                        },
                    }
                }
                self.has_space = false;
            },
        }
    }
}

/// The maximal runs of a line of input: alternating stretches of white
/// space and of visible code points, in order — the tokens the wrapper is
/// fed one by one.
pub open spec fn spec_runs(s: Seq<char>) -> Seq<Seq<char>>
    decreases s.len(),
    via spec_runs_decreases
{
    if s.len() == 0 {
        Seq::empty()
    } else {
        let n = if crate::strsmush::is_space_char(s[0]) {
            1 + crate::strsmush::leading_spaces(s.drop_first())
        } else {
            1 + crate::figfont::leading_nonspaces(s.drop_first())
        };
        seq![s.take(n)] + spec_runs(s.skip(n))
    }
}

#[via_fn]
proof fn spec_runs_decreases(s: Seq<char>) {
    if s.len() > 0 {
        crate::strsmush::lemma_leading_spaces_bounds(s.drop_first());
        crate::figfont::lemma_leading_nonspaces_bounds(s.drop_first());
    }
}

/// Split a line of input into the tokens the wrapper takes: maximal runs of
/// white space and of visible code points, in order.
pub fn split_tokens(s: &str) -> (res: Vec<String>)
    ensures
        views_of(res@) == spec_runs(s@),
{
    let v = crate::strsmush::chars_of(s);
    let mut res: Vec<String> = Vec::new();
    let mut p: usize = 0;
    proof {
        assert(v@.skip(0) =~= v@);
        assert(views_of(res@) + spec_runs(v@) =~~= spec_runs(v@));
    }
    while p < v.len()
        invariant
            p <= v@.len(),
            v@ == s@,
            spec_runs(s@) == views_of(res@) + spec_runs(v@.skip(p as int)),
        decreases v@.len() - p,
    {
        let space_run = crate::strsmush::is_space(v[p]);
        let start = p;
        let mut q = p + 1;
        while q < v.len() && crate::strsmush::is_space(v[q]) == space_run
            invariant
                start < q <= v@.len(),
                space_run == crate::strsmush::is_space_char(v@[start as int]),
                forall|k: int| start <= k < q ==> crate::strsmush::is_space_char(#[trigger] v@[k])
                    == space_run,
            decreases v@.len() - q,
        {
            q = q + 1;
        }
        let mut tok = String::new();
        let mut i = start;
        while i < q
            invariant
                start <= i <= q <= v@.len(),
                tok@ =~= v@.subrange(start as int, i as int),
            decreases q - i,
        {
            push_char(&mut tok, v[i]);
            proof {
                assert(tok@ =~= v@.subrange(start as int, i + 1 as int));
            }
            i = i + 1;
        }
        proof {
            let t = v@.skip(start as int);
            assert(t[0] == v@[start as int]);
            assert forall|k: int| 0 <= k < q - start - 1 implies crate::strsmush::is_space_char(
                #[trigger] t.drop_first()[k],
            ) == space_run by {
                assert(t.drop_first()[k] == v@[start + 1 + k]);
            }
            assert(q - start - 1 < t.drop_first().len() ==> crate::strsmush::is_space_char(
                t.drop_first()[q - start - 1],
            ) != space_run) by {
                if q - start - 1 < t.drop_first().len() {
                    assert(t.drop_first()[q - start - 1] == v@[q as int]);
                }
            }
            if space_run {
                crate::strsmush::lemma_leading_spaces_is(t.drop_first(), q - start - 1);
            } else {
                crate::figfont::lemma_leading_nonspaces_is(t.drop_first(), q - start - 1);
            }
            let n = q - start;
            assert(t.take(n) =~= v@.subrange(start as int, q as int));
            assert(tok@ == t.take(n));
            assert(t.skip(n) =~= v@.skip(q as int));
            assert(spec_runs(t) == seq![tok@] + spec_runs(v@.skip(q as int)));
            crate::strsmush::lemma_views_of_push(res@, tok);
            assert(views_of(res@.push(tok)) + spec_runs(v@.skip(q as int)) =~~= views_of(res@)
                + spec_runs(t));
        }
        res.push(tok);
        p = q;
    }
    proof {
        assert(v@.skip(v@.len() as int) =~= Seq::<char>::empty());
        assert(views_of(res@) + spec_runs(Seq::<char>::empty()) =~~= views_of(res@));
    }
    res
}

/// Retrieving the composed line leaves a line that retrieves to the very
/// same output: trimming to the width budget and aligning once is as good
/// as doing it twice.
pub proof fn lemma_get_idempotent(rows: Seq<Seq<char>>, width: int, align: Align, hardblank: char)
    requires
        width >= 0,
    ensures
        ({
            let t = if rows_width(rows) > width {
                spec_trim_rows(rows, width)
            } else {
                rows
            };
            spec_aligned(t, width, align, hardblank) == spec_aligned(rows, width, align, hardblank)
        }),
{
    let t = if rows_width(rows) > width {
        spec_trim_rows(rows, width)
    } else {
        rows
    };
    assert(rows_width(t) <= width);
    assert(spec_aligned(t, width, align, hardblank) =~~= spec_aligned(
        rows,
        width,
        align,
        hardblank,
    ));
}

/// `num` spaces as a string.
pub fn pad(num: usize) -> (res: String)
    ensures
        res@ == spec_spaces(num as int),
{
    let mut res = String::new();
    let mut i: usize = 0;
    while i < num
        invariant
            i <= num,
            res@ =~= spec_spaces(i as int),
        decreases num - i,
    {
        push_char(&mut res, ' ');
        proof {
            assert(res@ =~= spec_spaces(i + 1 as int));
        }
        i = i + 1;
    }
    res
}

/// Every line with `pad_size` spaces put in front.
pub fn add_pad(v: &Vec<String>, pad_size: usize) -> (res: Vec<String>)
    ensures
        views_of(res@) == Seq::new(v@.len(), |i: int| spec_spaces(pad_size as int) + v@[i]@),
{
    let mut res: Vec<String> = Vec::new();
    let mut i: usize = 0;
    while i < v.len()
        invariant
            i <= v@.len(),
            res@.len() == i,
            forall|j: int| 0 <= j < i ==> (#[trigger] res@[j])@ == spec_spaces(pad_size as int)
                + v@[j]@,
        decreases v@.len() - i,
    {
        let mut line = pad(pad_size);
        line.append(v[i].as_str());
        res.push(line);
        i = i + 1;
    }
    proof {
        assert(views_of(res@) =~~= Seq::new(
            v@.len(),
            |i: int| spec_spaces(pad_size as int) + v@[i]@,
        ));
    }
    res
}

/// Every line centred by the legacy rule: padded by half of one less than
/// the given slack.
pub fn align_center(v: &Vec<String>, width: usize) -> (res: Vec<String>)
    requires
        width >= 1,
    ensures
        views_of(res@) == Seq::new(
            v@.len(),
            |i: int| spec_spaces((width - 1) as int / 2) + v@[i]@,
        ),
{
    add_pad(v, (width - 1) / 2)
}

/// Every line pushed right by the legacy rule: padded by one less than the
/// given slack.
pub fn align_right(v: &Vec<String>, width: usize) -> (res: Vec<String>)
    requires
        width >= 1,
    ensures
        views_of(res@) == Seq::new(v@.len(), |i: int| spec_spaces((width - 1) as int) + v@[i]@),
{
    add_pad(v, width - 1)
}

} // verus!
