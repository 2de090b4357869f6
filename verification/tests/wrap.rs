use tokad::wrap::{split_lines, split_pieces, wrap_text};

#[test]
fn lines_are_split_as_the_standard_library_does() {
    for text in ["", "\n", "a", "a\n", "a\r\nb", "a\n\nb\r", "\r\n", "a\rb\nc"] {
        let expected: Vec<String> = text.lines().map(|l| l.to_string()).collect();
        assert_eq!(split_lines(text), expected, "{:?}", text);
    }
}

#[test]
fn pieces_are_split_at_every_space() {
    for text in ["", " ", "a", "a b", " a  b "] {
        let expected: Vec<String> = text.split(' ').map(|l| l.to_string()).collect();
        assert_eq!(split_pieces(text), expected, "{:?}", text);
    }
}

#[test]
fn short_text_stays_on_one_line() {
    assert_eq!(wrap_text("hello", 5), vec!["hello"]);
    assert_eq!(wrap_text("", 5), vec![""]);
}

#[test]
fn no_width_gives_no_lines() {
    assert!(wrap_text("hello", 0).is_empty());
}

#[test]
fn long_text_is_broken_at_spaces() {
    assert_eq!(wrap_text("one two three", 7), vec!["one two", "three"]);
    assert_eq!(wrap_text("one  two", 4), vec!["one ", "two"]);
}

#[test]
fn a_long_word_is_not_broken() {
    assert_eq!(wrap_text("a incomprehensible b", 5), vec!["a", "incomprehensible", "b"]);
}

#[test]
fn line_feeds_break_and_empty_lines_stay() {
    assert_eq!(wrap_text("a\n\nb", 80), vec!["a", "", "b"]);
}

#[test]
fn a_line_of_spaces_vanishes() {
    assert_eq!(wrap_text("   \nx", 2), vec!["x"]);
}

#[test]
fn width_counts_bytes() {
    assert_eq!(wrap_text("éé éé", 5), vec!["éé", "éé"]);
}

#[test]
fn every_wrapped_line_fits_or_holds_no_space() {
    let text = "the quick brown fox  jumps over\nthe lazy dog supercalifragilistic end";
    for width in 1..40 {
        for line in wrap_text(text, width) {
            assert!(line.len() <= width || !line.contains(' '), "{} {:?}", width, line);
        }
    }
}

#[test]
fn wrapping_keeps_words_and_drops_line_feeds() {
    let text = "the quick  brown\r\nfox jumps\n\nover the lazy dog";
    let words: Vec<String> = text.split_whitespace().map(|w| w.to_string()).collect();
    for width in 1..60 {
        let lines = wrap_text(text, width);
        assert!(lines.iter().all(|l| !l.contains('\n')));
        let kept: Vec<String> =
            lines.iter().flat_map(|l| l.split(' ')).filter(|w| !w.is_empty()).map(|w| w.to_string())
                .collect();
        assert_eq!(kept, words, "{}", width);
    }
}
