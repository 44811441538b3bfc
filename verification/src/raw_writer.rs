//! The bytes a frame's raw sequences put on the terminal.
//!
//! Each placement establishes and restores terminal state itself: it saves
//! the cursor, moves to its rectangle, emits the sequence, resets the graphic
//! rendition, and restores the cursor, so a sequence can never leak
//! attributes or leave the cursor somewhere else.

use crate::overlay::{all_placeable, placement_views, Placement, PlacementView};
use crate::raw::{
    accepted_is_cursor_local, accepted_sequences_can_be_joined, cut_into, is_csi_body, is_unit,
    joined, verdict,
};
use crate::text::{bytes_of_concat, decimal, decimal_is_digits};
use crossterm::cursor::{MoveTo, RestorePosition, SavePosition};
use crossterm::style::{Attribute, SetAttribute};
use crossterm::Command;
use vstd::prelude::*;
use vstd::utf8::{encode_utf8, is_ascii_chars, is_ascii_chars_encode_utf8};

verus! {

/// DECSC: saves the cursor.
pub open spec fn save() -> Seq<char> {
    seq!['\u{1b}', '7']
}

/// DECRC: restores the cursor.
pub open spec fn restore() -> Seq<char> {
    seq!['\u{1b}', '8']
}

/// SGR 0: resets the graphic rendition.
pub open spec fn reset() -> Seq<char> {
    seq!['\u{1b}', '[', '0', 'm']
}

/// CUP: moves the cursor to a cell. Rows and columns on the wire are
/// one-based, the row first.
pub open spec fn move_to(x: nat, y: nat) -> Seq<char> {
    seq!['\u{1b}', '['] + decimal(y + 1) + seq![';'] + decimal(x + 1)
        + seq!['H']
}

/// Appends what [`SavePosition`] writes: `ESC 7`.
#[verifier::external_body]
fn queue_save(out: &mut String)
    ensures
        final(out)@ == old(out)@ + save(),
{
    let _ = SavePosition.write_ansi(out);
}

/// Appends what [`MoveTo`] writes: `ESC [`, the row, `;`, the column, `H`,
/// both counted from one. It adds one to each coordinate, so neither may be
/// the largest.
#[verifier::external_body]
fn queue_move_to(out: &mut String, x: u16, y: u16)
    requires
        x < u16::MAX,
        y < u16::MAX,
    ensures
        final(out)@ == old(out)@ + move_to(x as nat, y as nat),
{
    let _ = MoveTo(x, y).write_ansi(out);
}

/// Appends what [`SetAttribute`] writes for [`Attribute::Reset`]: `ESC [ 0 m`.
#[verifier::external_body]
fn queue_reset(out: &mut String)
    ensures
        final(out)@ == old(out)@ + reset(),
{
    let _ = SetAttribute(Attribute::Reset).write_ansi(out);
}

/// Appends what [`RestorePosition`] writes: `ESC 8`.
#[verifier::external_body]
fn queue_restore(out: &mut String)
    ensures
        final(out)@ == old(out)@ + restore(),
{
    let _ = RestorePosition.write_ansi(out);
}

/// What one placement writes.
pub open spec fn placed(placement: PlacementView) -> Seq<char> {
    save() + move_to(placement.rect.x as nat, placement.rect.y as nat) + placement.seq + reset()
        + restore()
}

/// What the placements write, one after another.
pub open spec fn placed_all(placements: Seq<PlacementView>) -> Seq<char>
    decreases placements.len(),
{
    if placements.len() == 0 {
        seq![]
    } else {
        placed_all(placements.drop_last()) + placed(placements.last())
    }
}

/// Appends the bytes of a frame's placements, in order. A placement in the
/// last addressable row or column cannot be moved to and is left out by the
/// precondition; a clipped placement never lies there.
pub fn write_sequences(out: &mut Vec<u8>, placements: &[Placement])
    requires
        forall|k: int|
            0 <= k < placements@.len() ==> (#[trigger] placements@[k]).rect.x < u16::MAX
                && placements@[k].rect.y < u16::MAX,
    ensures
        final(out)@ == old(out)@ + encode_utf8(
            placed_all(placement_views(placements@)),
        ),
{
    let ghost views = placement_views(placements@);
    let mut text = String::new();
    let mut i: usize = 0;
    assert(views.take(0) =~= seq![]);
    while i < placements.len()
        invariant
            views == placement_views(placements@),
            forall|k: int|
                0 <= k < placements@.len() ==> (#[trigger] placements@[k]).rect.x < u16::MAX
                    && placements@[k].rect.y < u16::MAX,
            i <= placements@.len(),
            text@ == placed_all(views.take(i as int)),
        decreases placements@.len() - i,
    {
        let placement = &placements[i];
        let ghost before = text@;
        queue_save(&mut text);
        queue_move_to(&mut text, placement.rect.x, placement.rect.y);
        text.append(placement.seq.as_str());
        queue_reset(&mut text);
        queue_restore(&mut text);
        proof {
            assert(text@ =~= before + placed(placement@));
            assert(views.take(i + 1).drop_last() =~= views.take(i as int));
            assert(views.take(i + 1).last() == placement@);
        }
        i += 1;
    }
    assert(views.take(i as int) =~= views);
    out.extend_from_slice(text.as_str().as_bytes());
}

/// A placement that can be drawn can be written: its rectangle never starts in
/// the last addressable row or column.
pub proof fn a_placeable_sequence_can_be_written(placement: PlacementView)
    requires
        placement.placeable(),
    ensures
        placement.rect.x < u16::MAX,
        placement.rect.y < u16::MAX,
{
}

/// One unit alone is an accepted sequence.
proof fn a_unit_is_accepted(text: Seq<char>)
    requires
        is_ascii_chars(text),
        is_unit(Seq::new(text.len(), |k: int| text[k] as u8)),
    ensures
        verdict(encode_utf8(text)) is Ok,
{
    let bytes = encode_utf8(text);
    is_ascii_chars_encode_utf8(text);
    assert(bytes =~= Seq::new(text.len(), |k: int| text[k] as u8));
    let units = seq![bytes];
    assert(units.drop_first() =~= seq![]);
    assert(joined(units.drop_first()) =~= seq![]);
    assert(joined(units) =~= bytes);
    assert(cut_into(bytes, units));
    accepted_is_cursor_local(bytes);
}

proof fn a_move_is_accepted(x: nat, y: nat)
    ensures
        verdict(encode_utf8(move_to(x, y))) is Ok,
{
    let text = move_to(x, y);
    let rows = decimal(y + 1);
    let columns = decimal(x + 1);
    decimal_is_digits(y + 1);
    decimal_is_digits(x + 1);
    let unit = Seq::new(text.len(), |k: int| text[k] as u8);
    assert forall|k: int| 2 <= k < text.len() - 1 implies '0' <= #[trigger] text[k] <= ';' by {
        if k < 2 + rows.len() {
            assert(text[k] == rows[k - 2]);
        } else if k == 2 + rows.len() {
            assert(text[k] == ';');
        } else {
            assert(text[k] == columns[k - 3 - rows.len()]);
        }
    }
    assert(text[text.len() - 1] == 'H');
    assert(is_ascii_chars(text));
    assert forall|k: int| 2 <= k < unit.len() - 1 implies is_csi_body(
        #[trigger] unit[k],
    ) by {
        assert('0' <= text[k] <= ';');
    }
    a_unit_is_accepted(text);
}

proof fn a_placed_sequence_is_accepted(placement: PlacementView)
    requires
        placement.placeable(),
    ensures
        verdict(encode_utf8(placed(placement))) is Ok,
{
    let there = move_to(placement.rect.x as nat, placement.rect.y as nat);
    a_unit_is_accepted(save());
    a_unit_is_accepted(restore());
    a_unit_is_accepted(reset());
    a_move_is_accepted(placement.rect.x as nat, placement.rect.y as nat);
    accepted_texts_can_be_joined(save(), there);
    accepted_texts_can_be_joined(save() + there, placement.seq);
    accepted_texts_can_be_joined(save() + there + placement.seq, reset());
    accepted_texts_can_be_joined(save() + there + placement.seq + reset(), restore());
}

proof fn accepted_texts_can_be_joined(a: Seq<char>, b: Seq<char>)
    requires
        verdict(encode_utf8(a)) is Ok,
        verdict(encode_utf8(b)) is Ok,
    ensures
        verdict(encode_utf8(a + b)) is Ok,
{
    bytes_of_concat(a, b);
    accepted_sequences_can_be_joined(
        encode_utf8(a),
        encode_utf8(b),
    );
}

/// A frame's placements together put nothing on the terminal that a single
/// accepted sequence could not: no mode change, no scroll, no screen switch,
/// no OSC.
pub proof fn what_is_written_is_cursor_local(placements: Seq<PlacementView>)
    requires
        all_placeable(placements),
        placements.len() > 0,
    ensures
        verdict(encode_utf8(placed_all(placements))) is Ok,
    decreases placements.len(),
{
    let rest = placements.drop_last();
    a_placed_sequence_is_accepted(placements.last());
    if rest.len() == 0 {
        assert(placed_all(rest) == Seq::<char>::empty());
        assert(placed_all(placements) =~= placed(placements.last()));
    } else {
        what_is_written_is_cursor_local(rest);
        accepted_texts_can_be_joined(placed_all(rest), placed(placements.last()));
    }
}

} // verus!
