use sio::frontend::position::{BytePos, Diagnostic, LineOffsets, Span, WithSpan};

#[test]
fn shift_adds_the_width_of_the_character() {
    assert_eq!(BytePos(0).shift('a'), BytePos(1));
    assert_eq!(BytePos(3).shift('\u{7f}'), BytePos(4));
    assert_eq!(BytePos(3).shift('\u{80}'), BytePos(5));
    assert_eq!(BytePos(3).shift('é'), BytePos(5));
    assert_eq!(BytePos(3).shift('\u{7ff}'), BytePos(5));
    assert_eq!(BytePos(3).shift('\u{800}'), BytePos(6));
    assert_eq!(BytePos(3).shift('€'), BytePos(6));
    assert_eq!(BytePos(3).shift('\u{ffff}'), BytePos(6));
    assert_eq!(BytePos(3).shift('\u{10000}'), BytePos(7));
    assert_eq!(BytePos(3).shift('😀'), BytePos(7));
    assert_eq!(BytePos(u32::MAX - 4).shift('😀'), BytePos(u32::MAX));
}

#[test]
fn shift_agrees_with_the_encoding() {
    for ch in ['a', 'é', '€', '😀', '\0', '\u{10ffff}'] {
        assert_eq!(BytePos(10).shift(ch).0 as usize, 10 + ch.len_utf8());
    }
}

#[test]
fn positions_add_up() {
    assert_eq!(BytePos(3) + 4, BytePos(7));
    assert_eq!(BytePos(0) + 0, BytePos(0));
    assert_eq!(BytePos::default(), BytePos(0));
    assert!(BytePos(1) < BytePos(2));
}

#[test]
fn spans_are_built_from_positions() {
    assert_eq!(Span::new_unchecked(2, 5), Span { start: BytePos(2), end: BytePos(5) });
    assert_eq!(Span::new_unchecked(5, 2), Span { start: BytePos(5), end: BytePos(2) });
    assert_eq!(Span::empty(), Span { start: BytePos(0), end: BytePos(0) });
}

#[test]
fn union_covers_both_spans() {
    let a = Span::new_unchecked(2, 5);
    let b = Span::new_unchecked(4, 9);
    assert_eq!(Span::union_span(a, b), Span::new_unchecked(2, 9));
    assert_eq!(Span::union_span(b, a), Span::new_unchecked(2, 9));
    assert_eq!(Span::union_span(a, a), a);
    assert_eq!(Span::union_span(Span::new_unchecked(0, 10), Span::new_unchecked(3, 4)), Span::new_unchecked(0, 10));
    assert_eq!(Span::union_span(Span::new_unchecked(7, 8), Span::new_unchecked(1, 2)), Span::new_unchecked(1, 8));
    let x = WithSpan::new_unchecked("x", 1, 3);
    let y = WithSpan::new_unchecked(5u8, 2, 8);
    assert_eq!(Span::union(&x, &y), Span::new_unchecked(1, 8));
}

#[test]
fn values_carry_their_spans() {
    let w = WithSpan::new(7, Span::new_unchecked(1, 2));
    assert_eq!(w.value, 7);
    assert_eq!(w.span, Span::new_unchecked(1, 2));
    assert_eq!(WithSpan::empty("e"), WithSpan { value: "e", span: Span::empty() });
    assert_eq!(WithSpan::new_unchecked('c', 4, 6), WithSpan { value: 'c', span: Span::new_unchecked(4, 6) });
    let s = WithSpan::new_unchecked("text".to_string(), 4, 8);
    let r = s.as_ref();
    assert_eq!(r.span, s.span);
    assert_eq!(r.value, &s.value);
    assert_ne!(WithSpan::new_unchecked(1, 0, 1), WithSpan::new_unchecked(1, 0, 2));
    assert_ne!(WithSpan::new_unchecked(1, 0, 1), WithSpan::new_unchecked(2, 0, 1));
}

#[test]
fn diagnostics_compare_by_span_and_message() {
    let d = Diagnostic { span: Span::new_unchecked(0, 1), message: "Unexpected".to_string() };
    assert_eq!(d.clone(), d);
    assert_ne!(d, Diagnostic { span: Span::new_unchecked(0, 2), message: "Unexpected".to_string() });
}

#[test]
fn lines_are_counted_from_one() {
    let offsets = LineOffsets::new("abc\ndef");
    assert_eq!(offsets.line(BytePos(0)), 1);
    assert_eq!(offsets.line(BytePos(1)), 1);
    assert_eq!(offsets.line(BytePos(4)), 2);
    assert_eq!(offsets.line(BytePos(3)), 1);
    assert_eq!(offsets.line(BytePos(7)), 2);
}

#[test]
fn empty_text_has_one_line() {
    let offsets = LineOffsets::new("");
    assert_eq!(offsets.line(BytePos(0)), 1);
}

#[test]
fn a_newline_belongs_to_the_line_that_it_ends() {
    let offsets = LineOffsets::new("\n\nx\n");
    assert_eq!(offsets.line(BytePos(0)), 1);
    assert_eq!(offsets.line(BytePos(1)), 2);
    assert_eq!(offsets.line(BytePos(2)), 3);
    assert_eq!(offsets.line(BytePos(3)), 3);
    assert_eq!(offsets.line(BytePos(4)), 4);
}

#[test]
fn line_is_one_more_than_the_newlines_before() {
    let text = "one\ntwo é\n\nfour\n";
    let offsets = LineOffsets::new(text);
    for pos in 0..=text.len() {
        let newlines = text.as_bytes()[..pos].iter().filter(|b| **b == b'\n').count();
        assert_eq!(offsets.line(BytePos(pos as u32)), 1 + newlines);
    }
}

#[test]
fn span_of_a_value_with_span() {
    let w = WithSpan::new_unchecked("x", 3, 9);
    assert_eq!(Span::from(&w), Span::new_unchecked(3, 9));
    assert_eq!(Span::from(w), Span::new_unchecked(3, 9));
}
