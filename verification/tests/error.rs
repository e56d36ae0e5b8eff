use std::ops::Range;

use re_bridge::error::{convert_re_spans, nth_line, position_fits_text, Position, Span};

#[test]
fn test_span_offset() {
    let s = "abc😊\ndef";
    assert_eq!(
        Span::from_offsets(s, 0..1),
        (make_span(0..1, 1..2, 0..1), make_span(0..1, 1..2, 0..1))
    );
    assert_eq!(
        Span::from_offsets(s, 2..9),
        (make_span(2..9, 1..3, 2..1), make_span(2..7, 1..3, 2..1))
    );
}

fn make_span(offset: Range<usize>, line: Range<usize>, column: Range<usize>) -> Span {
    Span::new(
        Position::new(offset.start, line.start, column.start),
        Position::new(offset.end, line.end, column.end),
    )
}

#[test]
fn position_from_offset() {
    let s = "a😀\nb😀c\n";
    assert_eq!(
        Position::from_offset(s, 0),
        (Position::new(0, 1, 0), Position::new(0, 1, 0))
    );
    assert_eq!(
        Position::from_offset(s, 5),
        (Position::new(5, 1, 5), Position::new(3, 1, 3))
    );
    assert_eq!(
        Position::from_offset(s, 6),
        (Position::new(6, 2, 0), Position::new(4, 2, 0))
    );
    assert_eq!(
        Position::from_offset(s, 11),
        (Position::new(11, 2, 5), Position::new(7, 2, 3))
    );
    assert_eq!(
        Position::from_offset(s, 13),
        (Position::new(13, 3, 0), Position::new(9, 3, 0))
    );
    let mut p = Position::new(4, 5, 6);
    p.increment_line();
    assert_eq!(p, Position::new(4, 6, 6));
    assert_eq!(Position::default(), Position::new(0, 0, 0));
    assert_eq!(Span::default(), Span::new(Position::default(), Position::default()));
}

#[test]
fn lines_as_the_standard_library_splits_them() {
    for s in [
        "",
        "a",
        "a\n",
        "\n",
        "\n\n",
        "a\nb",
        "a\r\nb\r\n",
        "a\r",
        "a\r\n\r",
        "\r\n",
        "x\n\r\ny",
        "é😀\né",
        "a\n\nb\n",
        "\r\r\n",
    ] {
        let lines: Vec<&str> = s.lines().collect();
        for n in 0..lines.len() + 3 {
            assert_eq!(nth_line(s, n), lines.get(n).copied(), "line {} of {:?}", n, s);
        }
    }
}

#[test]
fn parser_span_to_utf16() {
    // `😀(é😀\n(a` with a span from the second emoji to the `a`
    let s = "😀(é😀\n(a";
    let span = Span::new(Position::new(7, 1, 4), Position::new(13, 2, 2));
    assert!(position_fits_text(s, &span.start));
    assert!(position_fits_text(s, &span.end));
    let (bytes, units) = convert_re_spans(s, &span);
    assert_eq!(bytes, span);
    assert_eq!(units, Span::new(Position::new(4, 1, 5), Position::new(8, 2, 2)));
    // a column past the end of the line counts the whole line
    let far = Span::new(Position::new(0, 1, 1), Position::new(11, 1, 40));
    let (_, units) = convert_re_spans(s, &far);
    assert_eq!(units, Span::new(Position::new(0, 1, 1), Position::new(6, 1, 7)));
}

#[test]
fn positions_that_do_not_fit() {
    let s = "a😀\n";
    assert!(position_fits_text(s, &Position::new(0, 1, 1)));
    assert!(position_fits_text(s, &Position::new(6, 1, 4)));
    // inside the emoji
    assert!(!position_fits_text(s, &Position::new(2, 1, 2)));
    // past the end
    assert!(!position_fits_text(s, &Position::new(7, 1, 1)));
    // the line feed at the end starts no second line
    assert!(!position_fits_text(s, &Position::new(6, 2, 1)));
    assert!(!position_fits_text(s, &Position::new(0, 0, 1)));
    assert!(!position_fits_text(s, &Position::new(0, 1, 0)));
    assert!(!position_fits_text("", &Position::new(0, 1, 1)));
}

#[test]
fn span_from_offsets_over_lines() {
    let s = "é\n😀x\n";
    // the emoji on the second line
    let (bytes, units) = Span::from_offsets(s, 3..7);
    assert_eq!(bytes, Span::new(Position::new(3, 2, 0), Position::new(7, 3, 4)));
    assert_eq!(units, Span::new(Position::new(2, 2, 0), Position::new(4, 3, 2)));
    // up to the very end, after the last line feed
    let (bytes, units) = Span::from_offsets(s, 0..9);
    assert_eq!(bytes, Span::new(Position::new(0, 1, 0), Position::new(9, 4, 0)));
    assert_eq!(units, Span::new(Position::new(0, 1, 0), Position::new(6, 4, 0)));
}
