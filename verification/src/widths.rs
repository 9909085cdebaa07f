//! The widths of the lines that were measured, and which of them is the widest.

use std::collections::HashMap;

use vstd::prelude::*;

verus! {

broadcast use vstd::std_specs::hash::group_hash_axioms;

/// The widths of lines as far as they are known, the widest line among them, and whether all lines
/// have to be measured anew.
#[derive(Debug)]
pub struct WidthCache {
    pub widths: HashMap<usize, u64>,
    pub widest: Option<usize>,
    pub line_count: usize,
    pub dirty: bool,
}

/// What has to be measured before the lines are drawn.
#[derive(Clone, Copy, Debug, PartialEq, Eq, Structural)]
pub enum Measuring {
    AllLines,
    CursorLine,
    Nothing,
}

/// Whether a line is the widest of those that are known.
pub open spec fn is_widest(widths: Map<usize, u64>, line: usize) -> bool {
    widths.contains_key(line) && forall|other: usize| #[trigger]
        widths.contains_key(other) ==> widths[other] <= widths[line]
}

/// The first of the first `n` widths that is as great as any of them.
pub open spec fn first_widest(widths: Seq<u64>, n: int) -> int
    decreases n,
{
    if n <= 1 || n > widths.len() {
        0
    } else if widths[n - 1] > widths[first_widest(widths, n - 1)] {
        n - 1
    } else {
        first_widest(widths, n - 1)
    }
}

proof fn lemma_first_widest(widths: Seq<u64>, n: int)
    requires
        0 < n <= widths.len(),
    ensures
        0 <= first_widest(widths, n) < n,
        forall|k: int| 0 <= k < n ==> #[trigger] widths[k] <= widths[first_widest(widths, n)],
        forall|k: int|
            0 <= k < first_widest(widths, n) ==> #[trigger] widths[k] < widths[first_widest(
                widths,
                n,
            )],
    decreases n,
{
    if n > 1 {
        lemma_first_widest(widths, n - 1);
    }
}

/// The widths of lines by their numbers.
pub open spec fn numbered(widths: Seq<u64>) -> Map<usize, u64> {
    Map::new(|line: usize| line < widths.len(), |line: usize| widths[line as int])
}

impl WidthCache {
    /// Where nothing has to be measured anew, the widest line is the widest of those that are known,
    /// and there is one where any is known.
    pub open spec fn wf(&self) -> bool {
        !self.dirty ==> match self.widest {
            Some(line) => is_widest(self.widths@, line),
            None => self.widths@ == Map::<usize, u64>::empty(),
        }
    }

    /// Nothing is known.
    pub fn new() -> (r: Self)
        ensures
            r.wf(),
            r.widths@ == Map::<usize, u64>::empty(),
            r.widest is None,
            r.line_count == 0,
            r.dirty,
    {
        WidthCache { widths: HashMap::new(), widest: None, line_count: 0, dirty: true }
    }

    /// Forgets all widths, since the document is another one, of some number of lines.
    pub fn forget(&mut self, line_count: usize)
        ensures
            final(self).wf(),
            final(self).widths@ == Map::<usize, u64>::empty(),
            final(self).widest is None,
            final(self).line_count == line_count,
            final(self).dirty,
    {
        self.widths = HashMap::new();
        self.widest = None;
        self.line_count = line_count;
        self.dirty = true;
    }

    /// Forgets the width of a line that was edited. Where it was the widest, all lines have to be
    /// measured anew.
    pub fn edit(&mut self, line: usize)
        requires
            old(self).wf(),
        ensures
            final(self).wf(),
            final(self).widths@ == old(self).widths@.remove(line),
            final(self).widest == old(self).widest,
            final(self).line_count == old(self).line_count,
            final(self).dirty == (old(self).dirty || old(self).widest == Some(line)),
    {
        self.widths.remove(&line);
        if let Some(widest) = self.widest {
            if widest == line {
                self.dirty = true;
            }
        }
        assert(self.widest is None && !self.dirty ==> self.widths@ =~= Map::<usize, u64>::empty());
    }

    /// Begins to draw a document of some number of lines, with the caret on one of them: what has to
    /// be measured. Another number of lines than before makes all that is known worthless.
    pub fn begin_frame(&mut self, line_count: usize, cursor_line: usize) -> (r: Measuring)
        requires
            old(self).wf(),
        ensures
            final(self).wf(),
            final(self).line_count == line_count,
            if line_count != old(self).line_count {
                &&& final(self).widths@ == Map::<usize, u64>::empty()
                &&& final(self).widest is None
                &&& final(self).dirty
            } else {
                &&& final(self).widths == old(self).widths
                &&& final(self).widest == old(self).widest
                &&& final(self).dirty == old(self).dirty
            },
            r == (if final(self).dirty {
                Measuring::AllLines
            } else if final(self).widths@.contains_key(cursor_line) {
                Measuring::Nothing
            } else {
                Measuring::CursorLine
            }),
    {
        if line_count != self.line_count {
            self.widths.clear();
            self.widest = None;
            self.line_count = line_count;
            self.dirty = true;
        }
        if self.dirty {
            Measuring::AllLines
        } else if self.widths.contains_key(&cursor_line) {
            Measuring::Nothing
        } else {
            Measuring::CursorLine
        }
    }

    /// Takes the widths of all lines. The first of the widest ones is the widest.
    pub fn measured_all(&mut self, measured: &Vec<u64>)
        ensures
            final(self).wf(),
            final(self).widths@ == numbered(measured@),
            final(self).widest == (if measured@.len() == 0 {
                None
            } else {
                Some(first_widest(measured@, measured@.len() as int) as usize)
            }),
            final(self).line_count == old(self).line_count,
            !final(self).dirty,
    {
        self.widths.clear();
        self.widest = None;
        let mut best: usize = 0;
        let mut line: usize = 0;
        while line < measured.len()
            invariant
                line <= measured@.len(),
                self.widths@ =~= numbered(measured@.take(line as int)),
                self.line_count == old(self).line_count,
                line > 0 ==> best == first_widest(measured@, line as int) && best < line,
                self.widest == (if line == 0 {
                    None
                } else {
                    Some(best)
                }),
            decreases measured@.len() - line,
        {
            let width: u64 = measured[line];
            self.widths.insert(line, width);
            if line == 0 || width > measured[best] {
                best = line;
                self.widest = Some(line);
            }
            line += 1;
            assert(self.widths@ =~= numbered(measured@.take(line as int)));
        }
        self.dirty = false;
        proof {
            assert(measured@.take(line as int) =~= measured@);
            assert(self.widths@ =~= numbered(measured@));
            if measured@.len() > 0 {
                lemma_first_widest(measured@, measured@.len() as int);
                assert(is_widest(self.widths@, best));
            } else {
                assert(self.widths@ =~= Map::<usize, u64>::empty());
            }
        }
    }

    /// Takes the width of the line with the caret. It is the widest where it is wider than the one
    /// that was.
    pub fn measured_line(&mut self, line: usize, width: u64)
        requires
            old(self).wf(),
            !old(self).dirty,
            !old(self).widths@.contains_key(line),
        ensures
            final(self).wf(),
            final(self).widths@ == old(self).widths@.insert(line, width),
            final(self).widest == (match old(self).widest {
                Some(widest) => if old(self).widths@[widest] >= width {
                    Some(widest)
                } else {
                    Some(line)
                },
                None => Some(line),
            }),
            final(self).line_count == old(self).line_count,
            !final(self).dirty,
    {
        let ghost before = self.widths@;
        let keeps = match self.widest {
            Some(widest) => match self.widths.get(&widest) {
                Some(greatest) => *greatest >= width,
                None => false,
            },
            None => false,
        };
        self.widths.insert(line, width);
        if !keeps {
            self.widest = Some(line);
        }
        assert(is_widest(self.widths@, self.widest->0)) by {
            assert forall|other: usize| #[trigger]
                self.widths@.contains_key(other) implies self.widths@[other]
                <= self.widths@[self.widest->0] by {
                if other != line {
                    assert(before.contains_key(other));
                }
            }
        }
    }

    /// How wide the text is: as its widest line, or a given width where no line is known.
    pub fn content_width(&self, unknown: u64) -> (r: u64)
        requires
            self.wf(),
            !self.dirty,
        ensures
            r == (match self.widest {
                Some(line) => self.widths@[line],
                None => unknown,
            }),
    {
        match self.widest {
            Some(line) => match self.widths.get(&line) {
                Some(width) => *width,
                None => unknown,
            },
            None => unknown,
        }
    }
}

/// No line that is known is wider than the text is said to be.
pub proof fn law_no_known_line_is_wider(cache: WidthCache, line: usize)
    requires
        cache.wf(),
        !cache.dirty,
        cache.widths@.contains_key(line),
    ensures
        cache.widest is Some,
        cache.widths@[line] <= cache.widths@[cache.widest->0],
{
}

} // verus!
