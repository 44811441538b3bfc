use maki_transcript::snapshot::{SnapshotLine, SnapshotSpan, SpanStyle};
use maki_transcript::wrap::{wrap_lines, Glyph};

const BOLD: &str = "bold";
const ITALIC: &str = "italic";

fn styled(text: &str, style: SpanStyle) -> SnapshotSpan {
    SnapshotSpan {
        text: text.into(),
        style,
    }
}

fn named(text: &str, style: &str) -> SnapshotSpan {
    styled(text, SpanStyle::Named(style.into()))
}

fn texts(lines: &[SnapshotLine]) -> Vec<String> {
    lines
        .iter()
        .map(|line| line.spans.iter().map(|span| span.text.as_str()).collect())
        .collect()
}

fn wrap(text: &str, width: u16) -> Vec<String> {
    texts(&wrap_lines(&[styled(text, SpanStyle::Default)], width))
}

#[test]
fn ascii_wrap_cases_breaks_at_the_space() {
    assert_eq!(wrap("hello world", 5), ["hello", "world"]);
}

#[test]
fn ascii_wrap_cases_fits_on_one_line() {
    assert_eq!(wrap("hello world", 11), ["hello world"]);
}

#[test]
fn ascii_wrap_cases_interior_spacing_stays() {
    assert_eq!(wrap("a  b", 10), ["a  b"]);
}

#[test]
fn ascii_wrap_cases_whitespace_at_the_break_is_dropped() {
    assert_eq!(wrap("aaa   bb", 6), ["aaa", "bb"]);
}

#[test]
fn ascii_wrap_cases_trailing_whitespace_stays() {
    assert_eq!(wrap("hi   ", 10), ["hi   "]);
}

#[test]
fn overlong_word_breaks_at_width_cuts_at_the_width() {
    assert_eq!(wrap("abcdefghij", 4), ["abcd", "efgh", "ij"]);
}

#[test]
fn overlong_word_breaks_at_width_width_one_breaks_every_character() {
    assert_eq!(
        wrap("abcdefghij", 1),
        ["a", "b", "c", "d", "e", "f", "g", "h", "i", "j"]
    );
}

#[test]
fn explicit_newlines_are_hard_breaks() {
    assert_eq!(wrap("a\nbb\n\nccc", 80), ["a", "bb", "", "ccc"]);
    assert_eq!(wrap("a\n", 80), ["a", ""]);
    assert_eq!(wrap("", 80), [""]);
}

#[test]
fn wide_characters_count_two_cells_two_per_line() {
    assert_eq!(wrap("你好世界", 4), ["你好", "世界"]);
}

#[test]
fn wide_characters_count_two_cells_one_per_line_when_only_two_fit() {
    assert_eq!(wrap("你好世界", 3), ["你", "好", "世", "界"]);
}

#[test]
fn span_style_survives_a_split() {
    let line = [named("abcdef", BOLD)];
    let lines = wrap_lines(&line, 3);
    assert_eq!(texts(&lines), ["abc", "def"]);
    for row in &lines {
        assert_eq!(row.spans.len(), 1);
        assert_eq!(row.spans[0].style, SpanStyle::Named(BOLD.into()));
    }
}

#[test]
fn each_wrapped_span_keeps_its_own_style() {
    let line = [named("ab", BOLD), named("cd", ITALIC)];
    let lines = wrap_lines(&line, 1);
    assert_eq!(texts(&lines), ["a", "b", "c", "d"]);
    let styles: Vec<SpanStyle> = lines.iter().map(|row| row.spans[0].style.clone()).collect();
    assert_eq!(
        styles,
        [
            SpanStyle::Named(BOLD.into()),
            SpanStyle::Named(BOLD.into()),
            SpanStyle::Named(ITALIC.into()),
            SpanStyle::Named(ITALIC.into()),
        ]
    );
}

#[test]
fn whitespace_across_a_span_boundary_wraps_like_plain_text() {
    let line = [named("hello ", BOLD), named("world", ITALIC)];
    let lines = wrap_lines(&line, 5);
    assert_eq!(texts(&lines), ["hello", "world"]);
}

#[test]
fn a_fitting_line_wraps_to_itself() {
    let line = [named("ab ", BOLD), named("cd", ITALIC)];
    let lines = wrap_lines(&line, 5);
    assert_eq!(lines.len(), 1);
    assert_eq!(lines[0].spans, line);
}

#[test]
fn width_zero_still_makes_progress() {
    assert_eq!(wrap("ab", 0), wrap("ab", 1));
}

#[test]
fn control_characters_take_no_cell() {
    assert_eq!(wrap("a\u{1}b", 2), ["a\u{1}b"]);
}

#[test]
fn a_wide_space_separates_words() {
    assert_eq!(wrap("ab\u{3000}cd", 3), ["ab", "cd"]);
}

#[test]
fn wrapping_again_changes_nothing() {
    let text = "  one  two\tthree\u{3000}世界 \u{301}世\u{301}四 longwordthatiscut\n\nlast \u{3000}\u{3000}";
    for width in 0..12 {
        let lines = wrap(text, width);
        assert_eq!(wrap(&lines.join("\n"), width), lines);
        for line in &lines {
            assert_eq!(wrap(line, width), [line.as_str()]);
        }
    }
}

#[test]
fn an_overwide_glyph_keeps_its_line_when_wrapped_again() {
    assert_eq!(wrap("\u{301}世\u{301}", 1), ["\u{301}世", "\u{301}"]);
    assert_eq!(wrap("\u{301}世", 1), ["\u{301}世"]);
    assert_eq!(wrap("\t世", 1), ["\t", "世"]);
    assert_eq!(wrap("\t\u{3000}", 1), ["\t\u{3000}"]);
}

#[test]
fn breaks_are_the_same_however_the_text_is_cut_into_spans() {
    let text = "one two  three longerthanthat";
    for width in 1..12 {
        let plain = wrap(text, width);
        for cut in 1..text.len() {
            let parts = [named(&text[..cut], BOLD), named(&text[cut..], ITALIC)];
            assert_eq!(texts(&wrap_lines(&parts, width)), plain);
        }
    }
}

#[test]
fn a_word_that_fits_is_on_one_line() {
    let text = "a bcd efghij klm no";
    for width in 6..20 {
        let lines = wrap(text, width);
        for word in text.split(' ') {
            assert!(lines
                .iter()
                .any(|line| line.split(' ').any(|found| found == word)));
        }
    }
}

#[test]
fn a_break_comes_only_where_the_line_overflows() {
    assert_eq!(wrap("ab cd", 5), ["ab cd"]);
    assert_eq!(wrap("ab cd", 4), ["ab", "cd"]);
    assert_eq!(wrap("ab cdefg", 4), ["ab", "cdef", "g"]);
}

#[test]
fn a_glyph_knows_its_cells_and_whether_it_is_whitespace() {
    let glyph = |ch: char| {
        let made = Glyph::new(ch, 3);
        assert_eq!((made.ch, made.span), (ch, 3));
        (made.width, made.is_space())
    };
    assert_eq!(glyph('x'), (1, false));
    assert_eq!(glyph(' '), (1, true));
    assert_eq!(glyph('\t'), (0, true));
    assert_eq!(glyph('\u{1b}'), (0, false));
    assert_eq!(glyph('世'), (2, false));
}

#[test]
fn these_characters_are_whitespace_and_no_others() {
    for code in 0..0x11_0000u32 {
        if let Some(ch) = char::from_u32(code) {
            let space = matches!(
                code,
                0x9..=0xd
                    | 0x20
                    | 0x85
                    | 0xa0
                    | 0x1680
                    | 0x2000..=0x200a
                    | 0x2028
                    | 0x2029
                    | 0x202f
                    | 0x205f
                    | 0x3000
            );
            assert_eq!(Glyph::new(ch, 0).is_space(), space);
        }
    }
}
