use maki_transcript::overlay::{clip, Placement, RawOverlay, Rect};
use maki_transcript::raw::{apc, csi, escape, validate, RawViolation};
use maki_transcript::raw_writer::write_sequences;

fn accept(seq: &str) {
    assert_eq!(validate(seq), Ok(()));
}

fn refuse(seq: &str, violation: RawViolation) {
    assert!(validate(seq).is_err());
    assert_eq!(validate(seq), Err(violation));
}

#[test]
fn accepted_sgr() {
    accept("\u{1b}[31m");
}

#[test]
fn accepted_cursor_position() {
    accept("\u{1b}[1;2H");
}

#[test]
fn accepted_cursor_up() {
    accept("\u{1b}[2A");
}

#[test]
fn accepted_save_restore() {
    accept("\u{1b}7\u{1b}8");
}

#[test]
fn accepted_scosc_scorc() {
    accept("\u{1b}[s\u{1b}[u");
}

#[test]
fn accepted_kitty_apc() {
    accept("\u{1b}_Ga=T,f=100;\u{1b}\\");
}

#[test]
fn accepted_every_cursor_final_and_no_other() {
    for byte in 0x40u8..=0x7e {
        let seq = format!("\u{1b}[1{}", byte as char);
        let cursor = "ABCDEFGHfmsu".contains(byte as char);
        assert_eq!(
            validate(&seq),
            if cursor {
                Ok(())
            } else {
                Err(RawViolation::ScreenControl)
            }
        );
    }
}

#[test]
fn accepted_text_between_sequences() {
    accept("é\u{1b}[1mü\u{1b}[0m");
}

#[test]
fn accepted_sequences_join() {
    let first = "\u{1b}[31m";
    let second = "\u{1b}_x\u{1b}\\";
    accept(first);
    accept(second);
    accept(&format!("{first}{second}"));
}

#[test]
fn refused_empty() {
    refuse("", RawViolation::Empty);
}

#[test]
fn refused_osc() {
    refuse("\u{1b}]0;title\u{7}", RawViolation::Osc);
}

#[test]
fn refused_private_mode() {
    refuse("\u{1b}[?25l", RawViolation::PrivateMode);
}

#[test]
fn refused_alternate_screen() {
    refuse("\u{1b}[?1049h", RawViolation::PrivateMode);
}

#[test]
fn refused_erase_display() {
    refuse("\u{1b}[2J", RawViolation::ScreenControl);
}

#[test]
fn refused_scroll_up() {
    refuse("\u{1b}[3S", RawViolation::ScreenControl);
}

#[test]
fn refused_scroll_region() {
    refuse("\u{1b}[r", RawViolation::ScreenControl);
}

#[test]
fn refused_reset() {
    refuse("\u{1b}c", RawViolation::Unfinished);
}

#[test]
fn refused_unfinished_csi() {
    refuse("\u{1b}[31", RawViolation::Unfinished);
}

#[test]
fn refused_lone_escape() {
    refuse("\u{1b}", RawViolation::Unfinished);
}

#[test]
fn refused_unterminated_apc() {
    refuse("\u{1b}_Ga=T", RawViolation::Unfinished);
}

#[test]
fn refused_bare_control() {
    refuse("\u{7}", RawViolation::Control);
}

#[test]
fn refused_control_inside_an_apc() {
    refuse("\u{1b}_a\nb\u{1b}\\", RawViolation::Control);
}

#[test]
fn walkers_answer_where_a_sequence_ends() {
    let bytes = "\u{1b}[1;2Hx\u{1b}_p\u{1b}\\".as_bytes();
    assert_eq!(escape(bytes, 0), Ok(6));
    assert_eq!(csi(bytes, 2), Ok(6));
    assert_eq!(escape(bytes, 7), Ok(12));
    assert_eq!(apc(bytes, 9), Ok(12));
    assert_eq!(csi(bytes, 100), Err(RawViolation::Unfinished));
}

#[test]
fn clip_keeps_the_visible_part() {
    let viewport = Rect::new(0, 10, 80, 10);
    assert_eq!(
        clip(Rect::new(2, 12, 4, 2), viewport),
        Some(Rect::new(2, 12, 4, 2))
    );
    assert_eq!(
        clip(Rect::new(2, 8, 4, 4), viewport),
        Some(Rect::new(2, 10, 4, 2))
    );
    assert_eq!(clip(Rect::new(2, 0, 4, 4), viewport), None);
    assert_eq!(clip(Rect::new(200, 12, 4, 2), viewport), None);
}

#[test]
fn a_rect_is_cut_at_the_last_cell() {
    let rect = Rect::new(u16::MAX - 1, 0, 4, 1);
    assert_eq!(rect.width, 1);
}

#[test]
fn unchanged_placement_needs_no_invalidation() {
    let mut overlay = RawOverlay::default();
    let viewport = Rect::new(0, 0, 80, 24);
    let rect = Rect::new(1, 1, 2, 1);
    overlay.begin();
    overlay.place(rect, "\u{1b}[31m", viewport).unwrap();
    overlay.begin();
    overlay.place(rect, "\u{1b}[31m", viewport).unwrap();
    assert!(overlay.invalidate().is_empty());
}

#[test]
fn moving_or_changing_placement_invalidates_both_rects() {
    let mut overlay = RawOverlay::default();
    let viewport = Rect::new(0, 0, 80, 24);
    overlay.begin();
    overlay
        .place(Rect::new(1, 1, 2, 1), "\u{1b}[31m", viewport)
        .unwrap();
    overlay.begin();
    overlay
        .place(Rect::new(1, 5, 2, 1), "\u{1b}[32m", viewport)
        .unwrap();
    let rects = overlay.invalidate();
    assert!(rects.contains(&Rect::new(1, 1, 2, 1)));
    assert!(rects.contains(&Rect::new(1, 5, 2, 1)));
}

#[test]
fn vanished_placement_invalidates_its_rect() {
    let mut overlay = RawOverlay::default();
    let viewport = Rect::new(0, 0, 80, 24);
    overlay.begin();
    overlay
        .place(Rect::new(1, 1, 2, 1), "\u{1b}[31m", viewport)
        .unwrap();
    overlay.begin();
    assert_eq!(overlay.invalidate(), vec![Rect::new(1, 1, 2, 1)]);
}

#[test]
fn scrolling_away_clips_the_placement_out() {
    let mut overlay = RawOverlay::default();
    overlay.begin();
    overlay
        .place(Rect::new(1, 1, 2, 1), "\u{1b}[31m", Rect::new(0, 0, 80, 24))
        .unwrap();
    overlay.begin();
    overlay
        .place(Rect::new(1, 1, 2, 1), "\u{1b}[31m", Rect::new(0, 5, 80, 24))
        .unwrap();
    assert_eq!(overlay.invalidate(), vec![Rect::new(1, 1, 2, 1)]);
}

#[test]
fn refused_sequence_leaves_no_placement() {
    let mut overlay = RawOverlay::default();
    assert_eq!(
        overlay.place(
            Rect::new(0, 0, 1, 1),
            "\u{1b}]0;x\u{7}",
            Rect::new(0, 0, 80, 24)
        ),
        Err(RawViolation::Osc)
    );
    assert!(overlay.invalidate().is_empty());
    assert!(overlay.placements().is_empty());
}

#[test]
fn a_changed_sequence_on_the_same_rect_is_repainted() {
    let mut overlay = RawOverlay::default();
    let viewport = Rect::new(0, 0, 80, 24);
    let rect = Rect::new(1, 1, 2, 1);
    overlay.begin();
    overlay.place(rect, "\u{1b}[31m", viewport).unwrap();
    overlay.begin();
    overlay.place(rect, "\u{1b}[32m", viewport).unwrap();
    assert_eq!(overlay.invalidate(), vec![rect, rect]);
}

const SEQ: &str = "\u{1b}[31m";
const RESET: &str = "\u{1b}[0m";
const X: u16 = 3;
const Y: u16 = 4;
// `MoveTo` is one-based, so its target cell is `(Y + 1, X + 1)`.
const MOVE_TO: &str = "\u{1b}[5;4H";

fn placement() -> Placement {
    Placement {
        rect: Rect::new(X, Y, 1, 1),
        seq: SEQ.to_owned(),
    }
}

#[test]
fn establishes_and_restores_state_around_the_sequence() {
    let mut out = Vec::new();
    write_sequences(&mut out, &[placement()]);
    let text = String::from_utf8(out).unwrap();
    let move_at = text.find(MOVE_TO).expect("cursor move");
    let seq_at = text.find(SEQ).expect("sequence");
    let reset_at = text.find(RESET).expect("rendition reset");
    assert!(move_at < seq_at && seq_at < reset_at);
}

#[test]
fn empty_placements_write_nothing() {
    let mut out = Vec::new();
    write_sequences(&mut out, &[]);
    assert!(out.is_empty());
}

#[test]
fn a_placement_is_written_byte_for_byte() {
    let mut out = Vec::new();
    write_sequences(&mut out, &[placement(), placement()]);
    let one = "\u{1b}7\u{1b}[5;4H\u{1b}[31m\u{1b}[0m\u{1b}8";
    assert_eq!(String::from_utf8(out).unwrap(), format!("{one}{one}"));
}

#[test]
fn what_the_overlay_holds_is_written_as_an_accepted_sequence() {
    let mut overlay = RawOverlay::default();
    overlay.begin();
    let viewport = Rect::new(0, 0, 1200, 24);
    overlay.place(Rect::new(1024, 9, 2, 1), "x", viewport).unwrap();
    let mut out = Vec::new();
    write_sequences(&mut out, overlay.placements());
    let text = String::from_utf8(out).unwrap();
    assert_eq!(text, "\u{1b}7\u{1b}[10;1025Hx\u{1b}[0m\u{1b}8");
    accept(&text);
}

#[test]
fn after_an_accepted_sequence_the_verdict_is_the_next_ones() {
    let first = "\u{1b}[31mred\u{1b}_G\u{1b}\\";
    accept(first);
    accept(&format!("{first}x"));
    refuse(&format!("{first}\u{1b}]0;t\u{7}"), RawViolation::Osc);
    refuse(&format!("{first}\u{1b}[?25h"), RawViolation::PrivateMode);
}
