//! Which raw sequences are accepted, why the others are not, and what reaches
//! the terminal of those that are.

use crate::overlay::{absent, PlacementView, Rect};
use crate::raw::{
    accepted_is_cursor_local, csi_end, csi_end_bounds, cut_into, is_csi_body, is_unit, joined,
    payload_end, payload_end_bounds, scan, step_bounds, step_is_a_unit, step_scan, units_are_walked,
    verdict, RawViolation,
};
use crate::raw_writer::{placed, placed_all};
use crate::section_laws::{a_numeral_has_its_value, numeral_value};
use crate::text::{decimal, decimal_is_digits};
use vstd::prelude::*;

verus! {

/// A byte between the `[` of a control sequence and its last: a space or
/// punctuation up to the slash, a digit, a colon or a semicolon.
pub open spec fn is_parameter(byte: u8) -> bool {
    0x20 <= byte && byte <= 0x3b
}

/// The last byte of a control sequence that moves the cursor (`A` to `H`,
/// `f`), paints (`m`), or saves or restores the cursor (`s`, `u`).
pub open spec fn moves_or_paints(byte: u8) -> bool {
    ||| byte == 0x41
    ||| byte == 0x42
    ||| byte == 0x43
    ||| byte == 0x44
    ||| byte == 0x45
    ||| byte == 0x46
    ||| byte == 0x47
    ||| byte == 0x48
    ||| byte == 0x66
    ||| byte == 0x6d
    ||| byte == 0x73
    ||| byte == 0x75
}

/// A piece of an accepted sequence: a byte that is no control, `ESC 7` or
/// `ESC 8`, a control sequence that moves or paints, or a payload between
/// `ESC _` and `ESC \`.
pub open spec fn is_piece(piece: Seq<u8>) -> bool {
    let last = piece.len() - 1;
    ||| piece.len() == 1 && piece[0] >= 0x20
    ||| piece.len() == 2 && piece[0] == 0x1b && (piece[1] == 0x37 || piece[1] == 0x38)
    ||| {
        &&& piece.len() >= 3 && piece[0] == 0x1b && piece[1] == 0x5b
        &&& forall|k: int| 2 <= k < last ==> is_parameter(#[trigger] piece[k])
        &&& moves_or_paints(piece[last])
    }
    ||| {
        &&& piece.len() >= 4 && piece[0] == 0x1b && piece[1] == 0x5f
        &&& forall|k: int| 2 <= k < last - 1 ==> (#[trigger] piece[k]) >= 0x20
        &&& piece[last - 1] == 0x1b && piece[last] == 0x5c
    }
}

/// The bytes are those pieces, one behind the other.
pub open spec fn made_of(bytes: Seq<u8>, pieces: Seq<Seq<u8>>) -> bool {
    &&& bytes == pieces.flatten()
    &&& forall|k: int| 0 <= k < pieces.len() ==> is_piece(#[trigger] pieces[k])
}

/// From `i` on there are only parameter bytes up to `end`, and none there.
pub open spec fn parameters_end(bytes: Seq<u8>, i: int, end: int) -> bool {
    &&& i <= end <= bytes.len()
    &&& forall|k: int| i <= k < end ==> is_parameter(#[trigger] bytes[k])
    &&& end < bytes.len() ==> !is_parameter(bytes[end])
}

/// From `i` on there is no control byte up to `end`, where there is one.
pub open spec fn text_ends(bytes: Seq<u8>, i: int, end: int) -> bool {
    &&& i <= end <= bytes.len()
    &&& forall|k: int| i <= k < end ==> (#[trigger] bytes[k]) >= 0x20
    &&& end < bytes.len() ==> bytes[end] < 0x20
}

/// Why the control sequence whose parameters are from `i` to `end` is refused.
pub open spec fn control_fault(bytes: Seq<u8>, i: int, end: int, why: RawViolation) -> bool {
    &&& parameters_end(bytes, i, end)
    &&& match why {
        RawViolation::PrivateMode => end < bytes.len() && 0x3c <= bytes[end] && bytes[end] <= 0x3f,
        RawViolation::ScreenControl => end < bytes.len() && 0x40 <= bytes[end] && bytes[end] <= 0x7e
            && !moves_or_paints(bytes[end]),
        RawViolation::Unfinished => end == bytes.len() || bytes[end] < 0x20 || bytes[end] > 0x7e,
        _ => false,
    }
}

/// Why the payload from `i` to `end` is refused.
pub open spec fn payload_fault(bytes: Seq<u8>, i: int, end: int, why: RawViolation) -> bool {
    &&& text_ends(bytes, i, end)
    &&& match why {
        RawViolation::Control => end < bytes.len() && bytes[end] != 0x1b,
        RawViolation::Unfinished => end == bytes.len() || (bytes[end] == 0x1b && !(end + 1
            < bytes.len() && bytes[end + 1] == 0x5c)),
        _ => false,
    }
}

/// Why what stands at `i` is refused.
pub open spec fn fault_at(bytes: Seq<u8>, i: int, why: RawViolation) -> bool {
    &&& 0 <= i < bytes.len()
    &&& if bytes[i] != 0x1b {
        bytes[i] < 0x20 && why == RawViolation::Control
    } else if i + 1 == bytes.len() {
        why == RawViolation::Unfinished
    } else if bytes[i + 1] == 0x5b {
        exists|end: int| #[trigger] control_fault(bytes, i + 2, end, why)
    } else if bytes[i + 1] == 0x5f {
        exists|end: int| #[trigger] payload_fault(bytes, i + 2, end, why)
    } else if bytes[i + 1] == 0x5d {
        why == RawViolation::Osc
    } else {
        bytes[i + 1] != 0x37 && bytes[i + 1] != 0x38 && why == RawViolation::Unfinished
    }
}

/// Up to `i` the bytes are accepted pieces, and what stands there is refused.
pub open spec fn refused_at(
    bytes: Seq<u8>,
    i: int,
    pieces: Seq<Seq<u8>>,
    why: RawViolation,
) -> bool {
    &&& 0 <= i < bytes.len()
    &&& made_of(bytes.take(i), pieces)
    &&& fault_at(bytes, i, why)
}

proof fn pieces_are_units(piece: Seq<u8>)
    ensures
        is_piece(piece) <==> is_unit(piece),
{
    if is_piece(piece) {
        assert(forall|k: int|
            2 <= k < piece.len() - 1 && is_parameter(piece[k]) ==> is_csi_body(
                #[trigger] piece[k],
            ));
    }
    if is_unit(piece) {
        assert(forall|k: int|
            2 <= k < piece.len() - 1 && is_csi_body(piece[k]) ==> is_parameter(
                #[trigger] piece[k],
            ));
    }
}

proof fn joined_is_flat(pieces: Seq<Seq<u8>>)
    ensures
        joined(pieces) == pieces.flatten(),
    decreases pieces.len(),
{
    reveal(Seq::flatten);
    if pieces.len() > 0 {
        joined_is_flat(pieces.drop_first());
    }
}

proof fn made_is_cut(bytes: Seq<u8>, pieces: Seq<Seq<u8>>)
    ensures
        made_of(bytes, pieces) <==> cut_into(bytes, pieces),
{
    joined_is_flat(pieces);
    assert forall|k: int| 0 <= k < pieces.len() implies is_piece(#[trigger] pieces[k]) == is_unit(
        pieces[k],
    ) by {
        pieces_are_units(pieces[k]);
    }
}

proof fn a_fault_is_a_refused_step(bytes: Seq<u8>, i: int, why: RawViolation)
    requires
        0 <= i < bytes.len(),
    ensures
        fault_at(bytes, i, why) <==> step_scan(bytes, i) == Err::<int, RawViolation>(why),
{
    csi_end_bounds(bytes, i + 2);
    payload_end_bounds(bytes, i + 2);
    if bytes[i] == 0x1b && i + 1 < bytes.len() {
        if bytes[i + 1] == 0x5b {
            let end = csi_end(bytes, i + 2);
            assert(parameters_end(bytes, i + 2, end)) by {
                assert forall|k: int| i + 2 <= k < end implies is_parameter(
                    #[trigger] bytes[k],
                ) by {
                    assert(is_csi_body(bytes[k]));
                }
            }
            if step_scan(bytes, i) == Err::<int, RawViolation>(why) {
                assert(control_fault(bytes, i + 2, end, why));
            }
            if exists|e: int| #[trigger] control_fault(bytes, i + 2, e, why) {
                let e = choose|e: int| #[trigger] control_fault(bytes, i + 2, e, why);
                if e < end {
                    assert(is_parameter(bytes[e]));
                } else if end < e {
                    assert(is_parameter(bytes[end]));
                }
            }
        } else if bytes[i + 1] == 0x5f {
            let end = payload_end(bytes, i + 2);
            assert(text_ends(bytes, i + 2, end));
            if step_scan(bytes, i) == Err::<int, RawViolation>(why) {
                assert(payload_fault(bytes, i + 2, end, why));
            }
            if exists|e: int| #[trigger] payload_fault(bytes, i + 2, e, why) {
                let e = choose|e: int| #[trigger] payload_fault(bytes, i + 2, e, why);
                if e < end {
                    assert(bytes[e] >= 0x20);
                } else if end < e {
                    assert(bytes[end] >= 0x20);
                }
            }
        }
    }
}

proof fn a_refusal_is_somewhere(bytes: Seq<u8>, i: int, pieces: Seq<Seq<u8>>, why: RawViolation)
    requires
        0 <= i < bytes.len(),
        made_of(bytes.take(i), pieces),
        scan(bytes, i) == Err::<(), RawViolation>(why),
    ensures
        exists|at: int, before: Seq<Seq<u8>>| #[trigger] refused_at(bytes, at, before, why),
    decreases bytes.len() - i,
{
    a_fault_is_a_refused_step(bytes, i, why);
    match step_scan(bytes, i) {
        Err(_) => {
            assert(refused_at(bytes, i, pieces, why));
        },
        Ok(next) => {
            step_bounds(bytes, i);
            step_is_a_unit(bytes, i);
            let piece = bytes.subrange(i, next);
            pieces_are_units(piece);
            let more = pieces.push(piece);
            pieces.lemma_flatten_push(piece);
            assert(bytes.take(next) =~= bytes.take(i) + piece);
            a_refusal_is_somewhere(bytes, next, more, why);
        },
    }
}

/// A sequence is accepted exactly when it is not empty and made of bytes that
/// are no control, cursor saves and restores, control sequences that move the
/// cursor or paint, and payloads.
pub proof fn accepted_only_moves_and_paints(bytes: Seq<u8>)
    ensures
        verdict(bytes) is Ok <==> bytes.len() > 0 && exists|pieces: Seq<Seq<u8>>| #[trigger]
            made_of(bytes, pieces),
{
    accepted_is_cursor_local(bytes);
    if exists|pieces: Seq<Seq<u8>>| #[trigger] made_of(bytes, pieces) {
        let pieces = choose|pieces: Seq<Seq<u8>>| #[trigger] made_of(bytes, pieces);
        made_is_cut(bytes, pieces);
    }
    if exists|pieces: Seq<Seq<u8>>| #[trigger] cut_into(bytes, pieces) {
        let pieces = choose|pieces: Seq<Seq<u8>>| #[trigger] cut_into(bytes, pieces);
        made_is_cut(bytes, pieces);
    }
}

/// A refused sequence is refused for the first thing in it that is not an
/// accepted piece, and the violation names what that is.
pub proof fn a_refusal_names_the_first_fault(bytes: Seq<u8>, why: RawViolation)
    ensures
        verdict(bytes) == Err::<(), RawViolation>(why) <==> if bytes.len() == 0 {
            why == RawViolation::Empty
        } else {
            exists|at: int, pieces: Seq<Seq<u8>>| #[trigger] refused_at(bytes, at, pieces, why)
        },
{
    if bytes.len() > 0 {
        if verdict(bytes) == Err::<(), RawViolation>(why) {
            let none: Seq<Seq<u8>> = seq![];
            assert(bytes.take(0) =~= none.flatten()) by {
                reveal(Seq::flatten);
            }
            a_refusal_is_somewhere(bytes, 0, none, why);
        }
        if exists|at: int, pieces: Seq<Seq<u8>>| #[trigger] refused_at(bytes, at, pieces, why) {
            let (at, pieces) = choose|at: int, pieces: Seq<Seq<u8>>| #[trigger]
                refused_at(bytes, at, pieces, why);
            made_is_cut(bytes.take(at), pieces);
            assert(bytes.subrange(0, at) =~= bytes.take(at));
            units_are_walked(bytes, 0, pieces);
            a_fault_is_a_refused_step(bytes, at, why);
        }
    }
}

/// A number in decimal digits without leading zeros.
pub open spec fn is_numeral(text: Seq<char>, n: int) -> bool {
    &&& text.len() > 0
    &&& forall|k: int| 0 <= k < text.len() ==> '0' <= #[trigger] text[k] <= '9'
    &&& text.len() > 1 ==> text[0] != '0'
    &&& numeral_value(text) == n
}

/// What one placement writes: it saves the cursor, moves to the rectangle, row
/// first and both counted from one, writes the sequence, resets the graphic
/// rendition, and restores the cursor.
pub open spec fn is_written(
    text: Seq<char>,
    placement: PlacementView,
    row: Seq<char>,
    column: Seq<char>,
) -> bool {
    &&& is_numeral(row, placement.rect.y + 1)
    &&& is_numeral(column, placement.rect.x + 1)
    &&& text == seq!['\u{1b}', '7', '\u{1b}', '['] + row + seq![';'] + column + seq!['H']
        + placement.seq + seq!['\u{1b}', '[', '0', 'm', '\u{1b}', '8']
}

/// A frame's placements write one behind the other, in order, and each its own
/// sequence between moving there and putting everything back.
pub proof fn every_placement_is_written(front: Seq<PlacementView>, placement: PlacementView)
    ensures
        placed_all(seq![]) == Seq::<char>::empty(),
        exists|text: Seq<char>, row: Seq<char>, column: Seq<char>| #[trigger]
            is_written(text, placement, row, column) && placed_all(front.push(placement))
                == placed_all(front) + text,
{
    let row = decimal((placement.rect.y + 1) as nat);
    let column = decimal((placement.rect.x + 1) as nat);
    a_numeral_has_its_value((placement.rect.y + 1) as nat);
    a_numeral_has_its_value((placement.rect.x + 1) as nat);
    decimal_is_digits((placement.rect.y + 1) as nat);
    decimal_is_digits((placement.rect.x + 1) as nat);
    let text = placed(placement);
    assert(text =~= seq!['\u{1b}', '7', '\u{1b}', '['] + row + seq![';'] + column + seq!['H']
        + placement.seq + seq!['\u{1b}', '[', '0', 'm', '\u{1b}', '8']);
    assert(is_written(text, placement, row, column));
    assert(front.push(placement).drop_last() =~= front);
}

/// The rectangles of those placements of `from` that are not, unchanged, in
/// `to`.
pub open spec fn left_out(from: Seq<PlacementView>, to: Seq<PlacementView>) -> Seq<Rect> {
    from.filter(|placement: PlacementView| !to.contains(placement)).map_values(
        |placement: PlacementView| placement.rect,
    )
}

/// What is repainted is the rectangle of each placement that one of the two
/// frames has and the other has not, in the order they were recorded.
pub proof fn what_is_repainted(from: Seq<PlacementView>, to: Seq<PlacementView>)
    ensures
        absent(from, to) == left_out(from, to),
    decreases from.len(),
{
    reveal(Seq::filter);
    if from.len() > 0 {
        let rest = from.drop_last();
        what_is_repainted(rest, to);
        let missing = |placement: PlacementView| !to.contains(placement);
        let rect_of = |placement: PlacementView| placement.rect;
        let kept = rest.filter(missing);
        if !to.contains(from.last()) {
            assert(from.filter(missing) =~= kept.push(from.last()));
            assert(kept.push(from.last()).map_values(rect_of) =~= kept.map_values(rect_of).push(
                from.last().rect,
            ));
        }
    }
}

} // verus!
