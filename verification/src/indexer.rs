//! Line indexing of a source text: the byte offsets at which each line
//! starts, and the line, column and line-span queries renderers use to
//! expand a byte range into a line-bounded snippet.

use vstd::prelude::*;
use vstd::slice::slice_subrange;
use vstd::string::*;

verus! {

/// An indexable source text: line and column of a byte position, the
/// enclosing line of a byte position, and a byte range expanded by
/// whole context lines.
pub trait Indexer {
    /// The line and column of the byte at `pos`, both zero-based.
    fn line_col_at(&self, pos: usize) -> (usize, usize);

    /// The start and end of the line containing the byte at `pos`.
    fn line_span_at(&self, pos: usize) -> (usize, usize);

    /// The range from `start` to `end` widened to whole lines, with up
    /// to `context_lines_before` extra lines before and
    /// `context_lines_after` after, clamped at the text's boundaries.
    fn span_with_context_lines(
        &self,
        start: usize,
        end: usize,
        context_lines_before: usize,
        context_lines_after: usize,
    ) -> (usize, usize);
}

/// A newline byte: line feed, vertical tab, form feed or carriage
/// return.
pub open spec fn spec_is_nl(b: u8) -> bool {
    b == 10 || b == 11 || b == 12 || b == 13
}

/// The positions just past each newline of the text, a carriage return
/// followed by a line feed counting as one newline, followed by the
/// text's length — as if an implicit newline ended the text.
pub open spec fn spec_line_starts(bytes: Seq<u8>, cur: int) -> Seq<usize>
    decreases bytes.len() - cur,
{
    if !(0 <= cur < bytes.len()) {
        seq![bytes.len() as usize]
    } else if spec_is_nl(bytes[cur]) {
        let e = if bytes[cur] == 13 && cur + 1 < bytes.len() && bytes[cur + 1] == 10 {
            cur + 2
        } else {
            cur + 1
        };
        seq![e as usize] + spec_line_starts(bytes, e)
    } else {
        spec_line_starts(bytes, cur + 1)
    }
}

/// The number of line starts at or before `pos`: the zero-based number
/// of the line containing the byte at `pos`.
pub open spec fn spec_count_le(starts: Seq<usize>, pos: usize) -> int
    decreases starts.len(),
{
    if starts.len() == 0 {
        0
    } else {
        spec_count_le(starts.drop_last(), pos) + if starts.last() <= pos {
            1int
        } else {
            0int
        }
    }
}

/// An [`Indexer`] that stores the position just past every newline of
/// the text (with an implicit newline at its end), and answers queries
/// by binary search.  Lines and columns are zero-based; positions are
/// byte offsets.
#[derive(Debug)]
pub struct LineIndexer {
    starts: Vec<usize>,
}

impl View for LineIndexer {
    type V = Seq<usize>;

    closed spec fn view(&self) -> Seq<usize> {
        self.starts@
    }
}

impl LineIndexer {
    /// The stored line starts are non-decreasing and end at the text's
    /// length, and there is at least one entry.
    #[verifier::type_invariant]
    pub closed spec fn wf(&self) -> bool {
        self.starts@.len() >= 1 && (forall|a: int, b: int|
            0 <= a <= b < self.starts@.len() ==> #[trigger] self.starts@[a] <= #[trigger] self.starts@[b])
    }

    /// Relies on stringzilla's find_char_from: the index of the first
    /// byte of the haystack that belongs to the needle set, here the
    /// four newline bytes, or nothing when no byte of the haystack is
    /// one.
    #[verifier::external_body]
    fn find_newline_byte(bytes: &[u8]) -> (r: Option<usize>)
        ensures
            match r {
                Some(p) => p < bytes@.len() && spec_is_nl(bytes@[p as int]) && forall|k: int|
                    0 <= k < p ==> !spec_is_nl(#[trigger] bytes@[k]),
                None => forall|k: int| 0 <= k < bytes@.len() ==> !spec_is_nl(#[trigger] bytes@[k]),
            },
    {
        stringzilla::sz::find_char_from(bytes, b"\n\x0b\x0c\r")
    }

    /// Build the index of a text: one entry just past each newline, a
    /// carriage return followed by a line feed counting as one, and a
    /// final entry at the text's length.
    pub fn new(s: &str) -> (r: LineIndexer)
        ensures
            r@ == spec_line_starts(s.spec_bytes(), 0),
    {
        let bytes = s.as_bytes();
        let len = bytes.len();
        let mut starts: Vec<usize> = Vec::new();
        let mut cur: usize = 0;
        proof {
            assert(starts@ =~= Seq::<usize>::empty());
            assert(Seq::<usize>::empty() + spec_line_starts(bytes@, 0) =~= spec_line_starts(
                bytes@,
                0,
            ));
        }
        loop
            invariant
                cur <= len,
                len == bytes@.len(),
                forall|a: int, b: int|
                    0 <= a <= b < starts@.len() ==> #[trigger] starts@[a] <= #[trigger] starts@[b],
                forall|k: int| 0 <= k < starts@.len() ==> #[trigger] starts@[k] <= cur,
                spec_line_starts(bytes@, 0) == starts@ + spec_line_starts(bytes@, cur as int),
            ensures
                cur <= len,
                forall|a: int, b: int|
                    0 <= a <= b < starts@.len() ==> #[trigger] starts@[a] <= #[trigger] starts@[b],
                forall|k: int| 0 <= k < starts@.len() ==> #[trigger] starts@[k] <= cur,
                spec_line_starts(bytes@, 0) == starts@ + spec_line_starts(bytes@, cur as int),
                spec_line_starts(bytes@, cur as int) == seq![len],
            decreases len - cur,
        {
            let sub = slice_subrange(bytes, cur, len);
            match Self::find_newline_byte(sub) {
                None => {
                    proof {
                        assert forall|k: int| cur <= k < bytes@.len() implies !spec_is_nl(
                            #[trigger] bytes@[k],
                        ) by {
                            assert(sub@[k - cur] == bytes@[k]);
                        }
                        lemma_line_starts_no_nl(bytes@, cur as int);
                    }
                    break;
                },
                Some(p) => {
                    let abs = cur + p;
                    proof {
                        assert(sub@[p as int] == bytes@[abs as int]);
                        assert forall|k: int| cur <= k < abs implies !spec_is_nl(
                            #[trigger] bytes@[k],
                        ) by {
                            assert(sub@[k - cur] == bytes@[k]);
                        }
                        lemma_line_starts_skip(bytes@, cur as int, abs as int);
                    }
                    let e = if bytes[abs] == 13 && abs + 1 < len && bytes[abs + 1] == 10 {
                        abs + 2
                    } else {
                        abs + 1
                    };
                    let ghost old_starts = starts@;
                    starts.push(e);
                    cur = e;
                    proof {
                        assert(spec_line_starts(bytes@, abs as int) == seq![e] + spec_line_starts(
                            bytes@,
                            e as int,
                        ));
                        assert(old_starts + (seq![e] + spec_line_starts(bytes@, e as int))
                            =~= starts@ + spec_line_starts(bytes@, e as int));
                    }
                },
            }
        }
        let ghost old_starts = starts@;
        starts.push(len);
        proof {
            assert(old_starts + seq![len] =~= starts@);
            assert(s.spec_bytes() == bytes@);
        }
        LineIndexer { starts }
    }

    /// The number of stored line starts at or before `pos`, by binary
    /// search.
    #[verifier::loop_isolation(false)]
    fn upper_bound(&self, pos: usize) -> (r: usize)
        ensures
            r == spec_count_le(self@, pos),
            r <= self@.len(),
            forall|k: int| 0 <= k < r ==> #[trigger] self@[k] <= pos,
            forall|k: int| r <= k < self@.len() ==> #[trigger] self@[k] > pos,
    {
        proof {
            use_type_invariant(self);
        }
        let mut lo: usize = 0;
        let mut hi: usize = self.starts.len();
        while lo < hi
            invariant
                lo <= hi <= self@.len(),
                forall|k: int| 0 <= k < lo ==> #[trigger] self@[k] <= pos,
                forall|k: int| hi <= k < self@.len() ==> #[trigger] self@[k] > pos,
            decreases hi - lo,
        {
            let mid = lo + (hi - lo) / 2;
            if self.starts[mid] <= pos {
                lo = mid + 1;
            } else {
                hi = mid;
            }
        }
        proof {
            lemma_count_le_split(self@, pos, lo as int);
        }
        lo
    }

    /// The zero-based number of the line containing the byte at `pos`.
    pub fn line_at(&self, pos: usize) -> (r: usize)
        ensures
            r == spec_count_le(self@, pos),
    {
        self.upper_bound(pos)
    }

    /// The line number and the starting position of the line containing
    /// the byte at `pos`.
    pub fn line_and_start_at(&self, pos: usize) -> (r: (usize, usize))
        ensures
            r.0 == spec_count_le(self@, pos),
            r.1 == spec_line_start(self@, pos),
    {
        let ub = self.upper_bound(pos);
        if ub == 0 {
            (0, 0)
        } else {
            (ub, self.starts[ub - 1])
        }
    }

    /// The starting position of the line containing the byte at `pos`.
    pub fn line_start_at(&self, pos: usize) -> (r: usize)
        ensures
            r == spec_line_start(self@, pos),
    {
        let (_, start) = self.line_and_start_at(pos);
        start
    }
}

/// The starting position of the line containing the byte at `pos`: the
/// greatest stored start at or before `pos`, or the beginning of the
/// text.
pub open spec fn spec_line_start(starts: Seq<usize>, pos: usize) -> usize {
    let ub = spec_count_le(starts, pos);
    if ub == 0 {
        0
    } else {
        starts[ub - 1]
    }
}

/// The enclosing line of the byte at `pos`: from its line's start to
/// the next line's start; the empty final position once past the last
/// stored start.
pub open spec fn spec_line_span(starts: Seq<usize>, pos: usize) -> (usize, usize) {
    let ub = spec_count_le(starts, pos);
    if ub == 0 {
        (0, starts[0])
    } else if ub == starts.len() {
        (starts[starts.len() - 1], starts[starts.len() - 1])
    } else {
        (starts[ub - 1], starts[ub])
    }
}

/// Text without newlines contributes only the final sentinel entry.
proof fn lemma_line_starts_no_nl(bytes: Seq<u8>, cur: int)
    requires
        0 <= cur <= bytes.len(),
        forall|k: int| cur <= k < bytes.len() ==> !spec_is_nl(#[trigger] bytes[k]),
    ensures
        spec_line_starts(bytes, cur) == seq![bytes.len() as usize],
    decreases bytes.len() - cur,
{
    if cur < bytes.len() {
        lemma_line_starts_no_nl(bytes, cur + 1);
    }
}

/// Scanning over text without newlines reaches the next newline.
proof fn lemma_line_starts_skip(bytes: Seq<u8>, cur: int, abs: int)
    requires
        0 <= cur <= abs <= bytes.len(),
        forall|k: int| cur <= k < abs ==> !spec_is_nl(#[trigger] bytes[k]),
    ensures
        spec_line_starts(bytes, cur) == spec_line_starts(bytes, abs),
    decreases abs - cur,
{
    if cur < abs {
        lemma_line_starts_skip(bytes, cur + 1, abs);
    }
}

/// In a sorted sequence split at `m` — everything before at or below
/// `pos`, everything after above it — the count of entries at or below
/// `pos` is `m`.
proof fn lemma_count_le_split(starts: Seq<usize>, pos: usize, m: int)
    requires
        0 <= m <= starts.len(),
        forall|k: int| 0 <= k < m ==> #[trigger] starts[k] <= pos,
        forall|k: int| m <= k < starts.len() ==> #[trigger] starts[k] > pos,
    ensures
        spec_count_le(starts, pos) == m,
    decreases starts.len(),
{
    if starts.len() > 0 {
        if m == starts.len() {
            lemma_count_le_split(starts.drop_last(), pos, m - 1);
        } else {
            lemma_count_le_split(starts.drop_last(), pos, m);
        }
    }
}

impl Indexer for LineIndexer {
    /// The line and column of the byte at `pos`, both zero-based: the
    /// line number is the count of line starts at or before `pos`, the
    /// column the distance from that line's start.
    fn line_col_at(&self, pos: usize) -> (r: (usize, usize))
        ensures
            r.0 == spec_count_le(self@, pos),
            r.1 == pos - spec_line_start(self@, pos),
    {
        proof {
            use_type_invariant(self);
        }
        let (line, line_start) = self.line_and_start_at(pos);
        proof {
            if spec_count_le(self@, pos) > 0 {
                lemma_count_le_members(self@, pos);
            }
        }
        (line, pos - line_start)
    }

    /// The start and end of the line containing the byte at `pos`.
    fn line_span_at(&self, pos: usize) -> (r: (usize, usize))
        ensures
            r == spec_line_span(self@, pos),
    {
        proof {
            use_type_invariant(self);
        }
        let ub = self.upper_bound(pos);
        if ub == 0 {
            (0, self.starts[0])
        } else if ub == self.starts.len() {
            (self.starts[self.starts.len() - 1], self.starts[self.starts.len() - 1])
        } else {
            (self.starts[ub - 1], self.starts[ub])
        }
    }

    /// The range from `start` to `end` widened to whole lines with the
    /// requested number of context lines on each side, clamped at the
    /// text's boundaries.
    fn span_with_context_lines(
        &self,
        start: usize,
        end: usize,
        context_lines_before: usize,
        context_lines_after: usize,
    ) -> (r: (usize, usize))
        ensures
            r == spec_span_with_context(
                self@,
                start,
                end,
                context_lines_before,
                context_lines_after,
            ),
    {
        proof {
            use_type_invariant(self);
        }
        let s = if context_lines_before == 0 {
            self.line_start_at(start)
        } else {
            let l = self.upper_bound(start);
            let ls = if l >= context_lines_before {
                l - context_lines_before
            } else {
                0
            };
            if ls == 0 {
                0
            } else {
                self.starts[ls - 1]
            }
        };
        let e = if context_lines_after == 0 {
            let (_, le) = self.line_span_at(end);
            le
        } else {
            let l = self.upper_bound(end);
            let la = if l <= usize::MAX - context_lines_after {
                l + context_lines_after
            } else {
                usize::MAX
            };
            let idx = if la < self.starts.len() - 1 {
                la
            } else {
                self.starts.len() - 1
            };
            self.starts[idx]
        };
        (s, e)
    }
}

/// A stored line start counted at or before `pos` is itself at or
/// before `pos`.
proof fn lemma_count_le_members(starts: Seq<usize>, pos: usize)
    requires
        forall|a: int, b: int| 0 <= a <= b < starts.len() ==> #[trigger] starts[a] <= #[trigger] starts[b],
        spec_count_le(starts, pos) > 0,
    ensures
        0 < spec_count_le(starts, pos) <= starts.len(),
        starts[spec_count_le(starts, pos) - 1] <= pos,
    decreases starts.len(),
{
    lemma_count_le_bounds(starts, pos);
    if starts.len() > 0 {
        if starts.last() <= pos {
            if spec_count_le(starts, pos) == starts.len() {
            } else {
                lemma_count_le_bounds(starts.drop_last(), pos);
            }
        } else {
            lemma_count_le_members(starts.drop_last(), pos);
        }
    }
}

/// The count of entries at or below a position is at most the length.
proof fn lemma_count_le_bounds(starts: Seq<usize>, pos: usize)
    ensures
        0 <= spec_count_le(starts, pos) <= starts.len(),
    decreases starts.len(),
{
    if starts.len() > 0 {
        lemma_count_le_bounds(starts.drop_last(), pos);
    }
}

/// The widened range of [`Indexer::span_with_context_lines`] on a
/// [`LineIndexer`]: without context lines each side snaps to the
/// enclosing line's boundary; with context lines each side moves the
/// requested number of line starts outward, clamped at the text's
/// boundaries.
pub open spec fn spec_span_with_context(
    starts: Seq<usize>,
    start: usize,
    end: usize,
    before: usize,
    after: usize,
) -> (usize, usize) {
    let s = if before == 0 {
        spec_line_start(starts, start)
    } else {
        let ls = spec_count_le(starts, start) - before;
        if ls <= 0 {
            0
        } else {
            starts[ls - 1]
        }
    };
    let e = if after == 0 {
        spec_line_span(starts, end).1
    } else {
        let la = spec_count_le(starts, end) + after;
        let idx = if la < starts.len() - 1 {
            la
        } else {
            starts.len() - 1
        };
        starts[idx]
    };
    (s, e)
}

} // verus!
