//! Byte positions, spans between them, and the lines of a text.

use vstd::prelude::*;
use vstd::string::StringSliceAdditionalSpecFns;

verus! {

/// A position in the program text, counted in bytes from its start.
#[derive(Debug, Copy, Clone, PartialEq, PartialOrd, Eq, Ord, Default, Structural)]
pub struct BytePos(pub u32);

/// The number of bytes that the character takes in UTF-8.
pub open spec fn utf8_width(ch: char) -> int {
    if (ch as u32) < 0x80 {
        1
    } else if (ch as u32) < 0x800 {
        2
    } else if (ch as u32) < 0x10000 {
        3
    } else {
        4
    }
}

impl BytePos {
    /// The position behind the character that starts at this position.
    pub fn shift(self, ch: char) -> (next: Self)
        requires
            self.0 + utf8_width(ch) <= u32::MAX,
        ensures
            next.0 == self.0 + utf8_width(ch),
    {
        let code = ch as u32;
        let width: u32 = if code < 0x80 {
            1
        } else if code < 0x800 {
            2
        } else if code < 0x10000 {
            3
        } else {
            4
        };
        BytePos(self.0 + width)
    }
}

impl core::ops::Add<u32> for BytePos {
    type Output = Self;

    fn add(self, other: u32) -> (sum: Self) {
        BytePos(self.0 + other)
    }
}

impl vstd::std_specs::ops::AddSpecImpl<u32> for BytePos {
    open spec fn obeys_add_spec() -> bool {
        true
    }

    open spec fn add_req(self, other: u32) -> bool {
        self.0 + other <= u32::MAX
    }

    open spec fn add_spec(self, other: u32) -> Self {
        BytePos((self.0 + other) as u32)
    }
}

/// The text from `start` up to `end`.
#[derive(Debug, Clone, Copy, PartialEq, PartialOrd, Eq, Structural)]
pub struct Span {
    pub start: BytePos,
    pub end: BytePos,
}

impl Span {
    /// The span between two positions, whichever way round they are.
    pub fn new_unchecked(start: u32, end: u32) -> (span: Self)
        ensures
            span == (Span { start: BytePos(start), end: BytePos(end) }),
    {
        Span { start: BytePos(start), end: BytePos(end) }
    }

    /// The span of no text, at the start.
    pub fn empty() -> (span: Self)
        ensures
            span == (Span { start: BytePos(0), end: BytePos(0) }),
    {
        Span { start: BytePos(0), end: BytePos(0) }
    }

    /// The smallest span that covers both: from the earlier start to the later end.
    pub open spec fn spec_union_span(a: Self, b: Self) -> Self {
        Span {
            start: if a.start.0 <= b.start.0 {
                a.start
            } else {
                b.start
            },
            end: if a.end.0 >= b.end.0 {
                a.end
            } else {
                b.end
            },
        }
    }

    /// The smallest span that covers both: from the earlier start to the later end.
    pub fn union_span(a: Self, b: Self) -> (span: Self)
        ensures
            span == Self::spec_union_span(a, b),
    {
        Span {
            start: if a.start.0 <= b.start.0 {
                a.start
            } else {
                b.start
            },
            end: if a.end.0 >= b.end.0 {
                a.end
            } else {
                b.end
            },
        }
    }

    /// The smallest span that covers the spans of both values.
    pub fn union<A, B>(a: &WithSpan<A>, b: &WithSpan<B>) -> (span: Self)
        ensures
            span == Self::spec_union_span(a.span, b.span),
    {
        Self::union_span(a.span, b.span)
    }
}

/// A value together with the span of the text that it was read from.
#[derive(Debug, Clone, PartialEq, Eq)]
pub struct WithSpan<T> {
    pub value: T,
    pub span: Span,
}

impl<T> WithSpan<T> {
    /// The value with the given span.
    pub fn new(value: T, span: Span) -> (w: Self)
        ensures
            w == (WithSpan { value, span }),
    {
        WithSpan { value, span }
    }

    /// The value with the span of no text.
    pub fn empty(value: T) -> (w: Self)
        ensures
            w == (WithSpan { value, span: Span { start: BytePos(0), end: BytePos(0) } }),
    {
        Self { value, span: Span { start: BytePos(0), end: BytePos(0) } }
    }

    /// The value with the span between two positions.
    pub fn new_unchecked(value: T, start: u32, end: u32) -> (w: Self)
        ensures
            w == (WithSpan { value, span: Span { start: BytePos(start), end: BytePos(end) } }),
    {
        Self { value, span: Span { start: BytePos(start), end: BytePos(end) } }
    }

    /// A reference to the value, with the same span.
    pub fn as_ref(&self) -> (w: WithSpan<&T>)
        ensures
            w.span == self.span,
            *w.value == self.value,
    {
        WithSpan { span: self.span, value: &self.value }
    }
}

impl<T> From<&WithSpan<T>> for Span {
    fn from(with_span: &WithSpan<T>) -> (span: Span) {
        with_span.span
    }
}

impl<T> vstd::std_specs::convert::FromSpecImpl<&WithSpan<T>> for Span {
    open spec fn obeys_from_spec() -> bool {
        true
    }

    open spec fn from_spec(with_span: &WithSpan<T>) -> Span {
        with_span.span
    }
}

impl<T> From<WithSpan<T>> for Span {
    fn from(with_span: WithSpan<T>) -> (span: Span) {
        with_span.span
    }
}

impl<T> vstd::std_specs::convert::FromSpecImpl<WithSpan<T>> for Span {
    open spec fn obeys_from_spec() -> bool {
        true
    }

    open spec fn from_spec(with_span: WithSpan<T>) -> Span {
        with_span.span
    }
}

/// A message about a span of the program text.
#[derive(Debug, Clone, PartialEq, Eq)]
pub struct Diagnostic {
    pub span: Span,
    pub message: String,
}

/// The positions at which the lines of a text start: 0, and each position behind a newline.
pub open spec fn line_starts(bytes: Seq<u8>) -> Seq<int>
    decreases bytes.len(),
{
    if bytes.len() == 0 {
        seq![0int]
    } else if bytes.last() == 10u8 {
        line_starts(bytes.drop_last()).push(bytes.len() as int)
    } else {
        line_starts(bytes.drop_last())
    }
}

/// How many of the first `pos` bytes are newlines.
pub open spec fn newlines_before(bytes: Seq<u8>, pos: int) -> int
    decreases pos,
{
    if pos <= 0 {
        0
    } else {
        newlines_before(bytes, pos - 1) + if pos <= bytes.len() && bytes[pos - 1] == 10u8 {
            1int
        } else {
            0int
        }
    }
}

/// Line starts begin with 0, grow strictly, and do not pass the end of the text.
pub proof fn lemma_line_starts_sorted(bytes: Seq<u8>)
    ensures
        line_starts(bytes).len() >= 1,
        line_starts(bytes)[0] == 0,
        forall|i: int|
            0 <= i < line_starts(bytes).len() ==> 0 <= #[trigger] line_starts(bytes)[i]
                <= bytes.len(),
        forall|i: int, j: int|
            0 <= i < j < line_starts(bytes).len() ==> line_starts(bytes)[i] < line_starts(
                bytes,
            )[j],
    decreases bytes.len(),
{
    if bytes.len() > 0 {
        lemma_line_starts_sorted(bytes.drop_last());
    }
}

/// The lines of a text, to find the line of a position.
pub struct LineOffsets {
    offsets: Vec<u32>,
    len: u32,
}

impl LineOffsets {
    /// The positions at which lines start, in growing order.
    pub closed spec fn starts(&self) -> Seq<int> {
        self.offsets@.map_values(|o: u32| o as int)
    }

    /// The length of the text in bytes.
    pub closed spec fn text_len(&self) -> int {
        self.len as int
    }

    /// The starts are those of some text of the recorded length.
    pub open spec fn wf(&self) -> bool {
        exists|bytes: Seq<u8>|
            bytes.len() == self.text_len() && self.starts() == #[trigger] line_starts(bytes)
    }

    /// The line starts of the text.
    pub fn new(data: &str) -> (lines: Self)
        requires
            data.spec_bytes().len() <= u32::MAX,
        ensures
            lines.starts() == line_starts(data.spec_bytes()),
            lines.text_len() == data.spec_bytes().len(),
            lines.wf(),
    {
        let bytes = data.as_bytes();
        let mut offsets: Vec<u32> = Vec::new();
        offsets.push(0);
        let mut i: usize = 0;
        proof {
            assert(bytes@.take(0) == Seq::<u8>::empty());
            assert(offsets@.map_values(|o: u32| o as int) == seq![0int]);
        }
        while i < bytes.len()
            invariant
                i <= bytes.len(),
                bytes@.len() <= u32::MAX,
                offsets@.map_values(|o: u32| o as int) == line_starts(bytes@.take(i as int)),
            decreases bytes.len() - i,
        {
            proof {
                assert(bytes@.take(i + 1).drop_last() == bytes@.take(i as int));
                assert(bytes@.take(i + 1).last() == bytes@[i as int]);
            }
            if bytes[i] == 10u8 {
                let ghost before = offsets@;
                offsets.push((i + 1) as u32);
                proof {
                    assert(offsets@.map_values(|o: u32| o as int) == before.map_values(
                        |o: u32| o as int,
                    ).push(i + 1));
                }
            }
            i += 1;
        }
        proof {
            assert(bytes@.take(bytes@.len() as int) == bytes@);
        }
        LineOffsets { offsets, len: data.len() as u32 }
    }

    /// The line of the position, counted from 1: the number of lines that start at or
    /// before it, which is one more than the number of newlines before it.
    pub fn line(&self, pos: BytePos) -> (line: usize)
        requires
            self.wf(),
            pos.0 <= self.text_len(),
        ensures
            1 <= line <= self.starts().len(),
            self.starts()[line - 1] <= pos.0,
            line < self.starts().len() ==> pos.0 < self.starts()[line as int],
            forall|bytes: Seq<u8>|
                bytes.len() == self.text_len() && self.starts() == #[trigger] line_starts(bytes)
                    ==> line == 1 + newlines_before(bytes, pos.0 as int),
    {
        let offset = pos.0;
        proof {
            let bytes = choose|bytes: Seq<u8>|
                bytes.len() == self.text_len() && self.starts() == #[trigger] line_starts(bytes);
            lemma_line_starts_sorted(bytes);
        }
        let mut low: usize = 1;
        let mut high: usize = self.offsets.len();
        while low < high
            invariant
                1 <= low <= high <= self.offsets.len(),
                self.offsets@.len() == self.starts().len(),
                self.starts()[low - 1] <= offset,
                high < self.offsets.len() ==> offset < self.starts()[high as int],
                forall|i: int, j: int|
                    0 <= i < j < self.starts().len() ==> self.starts()[i] < self.starts()[j],
            decreases high - low,
        {
            let mid = low + (high - low) / 2;
            if self.offsets[mid] <= offset {
                low = mid + 1;
            } else {
                high = mid;
            }
        }
        proof {
            assert forall|bytes: Seq<u8>|
                bytes.len() == self.text_len() && self.starts() == #[trigger] line_starts(
                    bytes,
                ) implies low == 1 + newlines_before(bytes, pos.0 as int) by {
                lemma_line_counts_newlines(bytes, pos.0 as int, low as int);
            }
        }
        low
    }
}

/// The line of a position is one more than the number of newlines before it.
pub proof fn lemma_line_counts_newlines(bytes: Seq<u8>, pos: int, line: int)
    requires
        0 <= pos <= bytes.len(),
        1 <= line <= line_starts(bytes).len(),
        line_starts(bytes)[line - 1] <= pos,
        line < line_starts(bytes).len() ==> pos < line_starts(bytes)[line],
    ensures
        line == 1 + newlines_before(bytes, pos),
    decreases bytes.len(),
{
    lemma_line_starts_sorted(bytes);
    if bytes.len() == 0 {
        assert(newlines_before(bytes, 0) == 0);
    } else {
        let front = bytes.drop_last();
        let starts = line_starts(bytes);
        let front_starts = line_starts(front);
        lemma_line_starts_sorted(front);
        lemma_newlines_prefix(bytes, front, if pos < bytes.len() {
            pos
        } else {
            bytes.len() - 1
        });
        if bytes.last() == 10u8 {
            assert(starts == front_starts.push(bytes.len() as int));
            if pos == bytes.len() {
                assert(line == starts.len());
                let k = front_starts.len() as int;
                lemma_line_counts_newlines(front, pos - 1, k);
            } else {
                assert(line < starts.len());
                assert(starts[line - 1] == front_starts[line - 1]);
                if line < front_starts.len() {
                    assert(starts[line] == front_starts[line]);
                }
                lemma_line_counts_newlines(front, pos, line);
            }
        } else {
            assert(starts == front_starts);
            if pos == bytes.len() {
                assert(line == starts.len());
                lemma_line_counts_newlines(front, pos - 1, line);
            } else {
                lemma_line_counts_newlines(front, pos, line);
            }
        }
    }
}

/// Newlines before a position are counted in the text up to that position alone.
proof fn lemma_newlines_prefix(bytes: Seq<u8>, front: Seq<u8>, pos: int)
    requires
        0 <= pos <= front.len() <= bytes.len(),
        forall|i: int| 0 <= i < front.len() ==> front[i] == bytes[i],
    ensures
        newlines_before(bytes, pos) == newlines_before(front, pos),
    decreases pos,
{
    if pos > 0 {
        lemma_newlines_prefix(bytes, front, pos - 1);
    }
}

} // verus!
