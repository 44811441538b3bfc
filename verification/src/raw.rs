//! Raw terminal sequences emitted by the block renderer.
//!
//! A raw object is a constrained final-writer primitive, not arbitrary
//! terminal text. It owns an explicit `width x height` rectangle; the host
//! paints a placeholder there and writes the sequence only after the frame
//! draw. The host, not the renderer, decides absolute placement and clipping.
//!
//! A sequence must be cursor-local: it may set graphic rendition, move the
//! cursor, save or restore it, and carry an APC payload (kitty graphics). It
//! must not change modes, scroll, touch the alternate screen, or use OSC, so a
//! plugin cannot hijack terminal state. Anything else is refused and the
//! block falls back to its native rendering.

use vstd::prelude::*;
use vstd::utf8::encode_utf8;

verus! {

/// Why a raw sequence was refused.
#[derive(Debug, Clone, Copy, PartialEq, Eq, Structural)]
pub enum RawViolation {
    Empty,
    Unfinished,
    Control,
    Osc,
    PrivateMode,
    ScreenControl,
}

/// The escape byte that opens every control sequence.
pub const ESC: u8 = 0x1b;

/// The byte that, behind an escape, ends an APC.
pub const BACKSLASH: u8 = 0x5c;

/// A parameter byte of a private CSI: `<`, `=`, `>` or `?`.
pub open spec fn is_private(byte: u8) -> bool {
    0x3c <= byte <= 0x3f
}

/// A parameter or intermediate byte of a plain CSI.
pub open spec fn is_csi_body(byte: u8) -> bool {
    0x20 <= byte <= 0x3b
}

/// A final byte that only moves, saves or restores the cursor or sets graphic
/// rendition: CUU CUD CUF CUB CNL CPL CHA CUP HVP SGR SCOSC SCORC.
pub open spec fn is_cursor_final(byte: u8) -> bool {
    ||| 0x41 <= byte <= 0x48  // A to H
    ||| byte == 0x66  // f
    ||| byte == 0x6d  // m
    ||| byte == 0x73  // s
    ||| byte == 0x75  // u
}

/// The first position from `i` on that is not part of a plain CSI's body.
pub open spec fn csi_end(bytes: Seq<u8>, i: int) -> int
    decreases bytes.len() - i,
{
    if 0 <= i < bytes.len() && is_csi_body(bytes[i]) {
        csi_end(bytes, i + 1)
    } else {
        i
    }
}

/// Where a CSI whose body starts at `i` ends, or why it is refused.
pub open spec fn csi_scan(bytes: Seq<u8>, i: int) -> Result<int, RawViolation> {
    let end = csi_end(bytes, i);
    if end >= bytes.len() {
        Err(RawViolation::Unfinished)
    } else if is_private(bytes[end]) {
        Err(RawViolation::PrivateMode)
    } else if is_cursor_final(bytes[end]) {
        Ok(end + 1)
    } else if 0x40 <= bytes[end] <= 0x7e {
        Err(RawViolation::ScreenControl)
    } else {
        Err(RawViolation::Unfinished)
    }
}

/// The first control byte from `i` on.
pub open spec fn payload_end(bytes: Seq<u8>, i: int) -> int
    decreases bytes.len() - i,
{
    if 0 <= i < bytes.len() && bytes[i] >= 0x20 {
        payload_end(bytes, i + 1)
    } else {
        i
    }
}

/// Where an APC whose payload starts at `i` ends, or why it is refused. Only
/// a String Terminator ends it.
pub open spec fn apc_scan(bytes: Seq<u8>, i: int) -> Result<int, RawViolation> {
    let end = payload_end(bytes, i);
    if end >= bytes.len() {
        Err(RawViolation::Unfinished)
    } else if bytes[end] != ESC {
        Err(RawViolation::Control)
    } else if end + 1 < bytes.len() && bytes[end + 1] == BACKSLASH {
        Ok(end + 2)
    } else {
        Err(RawViolation::Unfinished)
    }
}

/// Where the escape sequence at `i` ends, or why it is refused.
pub open spec fn escape_scan(bytes: Seq<u8>, i: int) -> Result<int, RawViolation> {
    if i + 1 >= bytes.len() {
        Err(RawViolation::Unfinished)
    } else if bytes[i + 1] == 0x5b {  // [
        csi_scan(bytes, i + 2)
    } else if bytes[i + 1] == 0x37 || bytes[i + 1] == 0x38 {  // 7 8
        Ok(i + 2)
    } else if bytes[i + 1] == 0x5f {  // _
        apc_scan(bytes, i + 2)
    } else if bytes[i + 1] == 0x5d {  // ]
        Err(RawViolation::Osc)
    } else {
        Err(RawViolation::Unfinished)
    }
}

/// Where the text or escape sequence at `i` ends, or why it is refused.
pub open spec fn step_scan(bytes: Seq<u8>, i: int) -> Result<int, RawViolation> {
    if bytes[i] == ESC {
        escape_scan(bytes, i)
    } else if bytes[i] < 0x20 {
        Err(RawViolation::Control)
    } else {
        Ok(i + 1)
    }
}

/// The first violation from `i` on.
pub open spec fn scan(bytes: Seq<u8>, i: int) -> Result<(), RawViolation>
    decreases bytes.len() - i,
{
    if i >= bytes.len() {
        Ok(())
    } else {
        match step_scan(bytes, i) {
            Ok(next) => if i < next <= bytes.len() {
                scan(bytes, next)
            } else {
                Ok(())
            },
            Err(violation) => Err(violation),
        }
    }
}

/// The verdict on a whole sequence.
pub open spec fn verdict(bytes: Seq<u8>) -> Result<(), RawViolation> {
    if bytes.len() == 0 {
        Err(RawViolation::Empty)
    } else {
        scan(bytes, 0)
    }
}

pub(crate) proof fn csi_end_bounds(bytes: Seq<u8>, i: int)
    requires
        0 <= i,
    ensures
        i <= csi_end(bytes, i),
        i <= bytes.len() ==> csi_end(bytes, i) <= bytes.len(),
        forall|k: int| i <= k < csi_end(bytes, i) ==> is_csi_body(#[trigger] bytes[k]),
        csi_end(bytes, i) < bytes.len() ==> !is_csi_body(bytes[csi_end(bytes, i)]),
    decreases bytes.len() - i,
{
    if i < bytes.len() && is_csi_body(bytes[i]) {
        csi_end_bounds(bytes, i + 1);
    }
}

pub(crate) proof fn payload_end_bounds(bytes: Seq<u8>, i: int)
    requires
        0 <= i,
    ensures
        i <= payload_end(bytes, i),
        i <= bytes.len() ==> payload_end(bytes, i) <= bytes.len(),
        forall|k: int| i <= k < payload_end(bytes, i) ==> (#[trigger] bytes[k]) >= 0x20,
        payload_end(bytes, i) < bytes.len() ==> bytes[payload_end(bytes, i)] < 0x20,
    decreases bytes.len() - i,
{
    if i < bytes.len() && bytes[i] >= 0x20 {
        payload_end_bounds(bytes, i + 1);
    }
}

/// A step never goes back or past the end.
pub(crate) proof fn step_bounds(bytes: Seq<u8>, i: int)
    requires
        0 <= i < bytes.len(),
    ensures
        step_scan(bytes, i) matches Ok(next) ==> i < next <= bytes.len(),
{
    csi_end_bounds(bytes, i + 2);
    payload_end_bounds(bytes, i + 2);
}

/// Walks a CSI to its final byte. Private parameters and every final but
/// the cursor and rendition ones are refused.
pub fn csi(bytes: &[u8], start: usize) -> (end: Result<usize, RawViolation>)
    ensures
        end is Ok <==> csi_scan(bytes@, start as int) is Ok,
        end matches Ok(next) ==> csi_scan(bytes@, start as int) == Ok::<int, RawViolation>(
            next as int,
        ),
        end matches Err(violation) ==> csi_scan(bytes@, start as int) == Err::<int, RawViolation>(
            violation,
        ),
{
    let mut i = start;
    while i < bytes.len()
        invariant
            csi_end(bytes@, i as int) == csi_end(bytes@, start as int),
        decreases bytes@.len() - i,
    {
        let byte = bytes[i];
        if 0x30 <= byte && byte <= 0x3f {
            if byte == 0x3f || byte == 0x3e || byte == 0x3d || byte == 0x3c {
                return Err(RawViolation::PrivateMode);
            }
            i += 1;
        } else if 0x20 <= byte && byte <= 0x2f {
            i += 1;
        } else if 0x40 <= byte && byte <= 0x7e {
            // A to H, f, m, s, u.
            return match byte {
                0x41 | 0x42 | 0x43 | 0x44 | 0x45 | 0x46 | 0x47 | 0x48 | 0x66 | 0x6d | 0x73
                | 0x75 => Ok(i + 1),
                _ => Err(RawViolation::ScreenControl),
            };
        } else {
            return Err(RawViolation::Unfinished);
        }
    }
    Err(RawViolation::Unfinished)
}

/// Walks an APC payload to its String Terminator.
pub fn apc(bytes: &[u8], start: usize) -> (end: Result<usize, RawViolation>)
    ensures
        end is Ok <==> apc_scan(bytes@, start as int) is Ok,
        end matches Ok(next) ==> apc_scan(bytes@, start as int) == Ok::<int, RawViolation>(
            next as int,
        ),
        end matches Err(violation) ==> apc_scan(bytes@, start as int) == Err::<int, RawViolation>(
            violation,
        ),
{
    let mut i = start;
    while i < bytes.len()
        invariant
            payload_end(bytes@, i as int) == payload_end(bytes@, start as int),
        decreases bytes@.len() - i,
    {
        let byte = bytes[i];
        if byte == ESC {
            return if i + 1 < bytes.len() && bytes[i + 1] == BACKSLASH {
                Ok(i + 2)
            } else {
                Err(RawViolation::Unfinished)
            };
        } else if byte < 0x20 {
            return Err(RawViolation::Control);
        }
        i += 1;
    }
    Err(RawViolation::Unfinished)
}

/// Walks the escape sequence that starts at `i`.
pub fn escape(bytes: &[u8], i: usize) -> (end: Result<usize, RawViolation>)
    requires
        i < usize::MAX,
    ensures
        end is Ok <==> escape_scan(bytes@, i as int) is Ok,
        end matches Ok(next) ==> escape_scan(bytes@, i as int) == Ok::<int, RawViolation>(
            next as int,
        ),
        end matches Err(violation) ==> escape_scan(bytes@, i as int) == Err::<int, RawViolation>(
            violation,
        ),
{
    let len = bytes.len();
    if i + 1 >= len {
        return Err(RawViolation::Unfinished);
    }
    match bytes[i + 1] {
        // [, a CSI.
        0x5b => csi(bytes, i + 2),
        // 7 and 8, DECSC and DECRC.
        0x37 | 0x38 => Ok(i + 2),
        // _, the APC introducer kitty graphics use.
        0x5f => apc(bytes, i + 2),
        // ], an OSC.
        0x5d => Err(RawViolation::Osc),
        _ => Err(RawViolation::Unfinished),
    }
}

/// Accepts only cursor-local sequences. See the module docs for the rule.
pub fn validate(seq: &str) -> (checked: Result<(), RawViolation>)
    ensures
        checked == verdict(encode_utf8(seq@)),
{
    let bytes = seq.as_bytes();
    if bytes.len() == 0 {
        return Err(RawViolation::Empty);
    }
    let mut i: usize = 0;
    while i < bytes.len()
        invariant
            bytes@ == encode_utf8(seq@),
            bytes@.len() > 0,
            i <= bytes@.len(),
            scan(bytes@, i as int) == verdict(bytes@),
        decreases bytes@.len() - i,
    {
        proof {
            step_bounds(bytes@, i as int);
        }
        if bytes[i] == ESC {
            match escape(bytes, i) {
                Ok(next) => i = next,
                Err(violation) => return Err(violation),
            }
        } else if bytes[i] < 0x20 {
            return Err(RawViolation::Control);
        } else {
            i += 1;
        }
    }
    Ok(())
}

/// A sequence that `validate` lets through on its own and that cannot be cut
/// into smaller ones: a printable byte, a cursor save or restore, a CSI that
/// only moves the cursor or sets graphic rendition, or a terminated APC.
pub open spec fn is_unit(unit: Seq<u8>) -> bool {
    ||| unit.len() == 1 && unit[0] >= 0x20
    ||| unit.len() == 2 && unit[0] == ESC && (unit[1] == 0x37 || unit[1] == 0x38)
    ||| {
        &&& unit.len() >= 3
        &&& unit[0] == ESC
        &&& unit[1] == 0x5b
        &&& forall|k: int| 2 <= k < unit.len() - 1 ==> is_csi_body(#[trigger] unit[k])
        &&& is_cursor_final(unit[unit.len() - 1])
    }
    ||| {
        &&& unit.len() >= 4
        &&& unit[0] == ESC
        &&& unit[1] == 0x5f
        &&& forall|k: int| 2 <= k < unit.len() - 2 ==> (#[trigger] unit[k]) >= 0x20
        &&& unit[unit.len() - 2] == ESC
        &&& unit[unit.len() - 1] == BACKSLASH
    }
}

/// The units one after another.
pub open spec fn joined(units: Seq<Seq<u8>>) -> Seq<u8>
    decreases units.len(),
{
    if units.len() == 0 {
        seq![]
    } else {
        units[0] + joined(units.drop_first())
    }
}

/// A way to cut `bytes` into units.
pub open spec fn cut_into(bytes: Seq<u8>, units: Seq<Seq<u8>>) -> bool {
    &&& bytes == joined(units)
    &&& forall|k: int| 0 <= k < units.len() ==> is_unit(#[trigger] units[k])
}

/// A step that succeeds covers one unit.
pub(crate) proof fn step_is_a_unit(bytes: Seq<u8>, i: int)
    requires
        0 <= i < bytes.len(),
        step_scan(bytes, i) is Ok,
    ensures
        is_unit(bytes.subrange(i, step_scan(bytes, i)->Ok_0)),
{
    step_bounds(bytes, i);
    csi_end_bounds(bytes, i + 2);
    payload_end_bounds(bytes, i + 2);
    let next = step_scan(bytes, i)->Ok_0;
    let unit = bytes.subrange(i, next);
    if bytes[i] == ESC && bytes[i + 1] == 0x5b {
        assert forall|k: int| 2 <= k < unit.len() - 1 implies is_csi_body(#[trigger] unit[k]) by {
            assert(unit[k] == bytes[i + k]);
        }
    } else if bytes[i] == ESC && bytes[i + 1] == 0x5f {
        assert forall|k: int| 2 <= k < unit.len() - 2 implies (#[trigger] unit[k]) >= 0x20 by {
            assert(unit[k] == bytes[i + k]);
        }
    }
}

proof fn csi_end_is(bytes: Seq<u8>, i: int, end: int)
    requires
        0 <= i <= end < bytes.len(),
        forall|k: int| i <= k < end ==> is_csi_body(#[trigger] bytes[k]),
        !is_csi_body(bytes[end]),
    ensures
        csi_end(bytes, i) == end,
    decreases end - i,
{
    if i < end {
        csi_end_is(bytes, i + 1, end);
    }
}

proof fn payload_end_is(bytes: Seq<u8>, i: int, end: int)
    requires
        0 <= i <= end < bytes.len(),
        forall|k: int| i <= k < end ==> (#[trigger] bytes[k]) >= 0x20,
        bytes[end] < 0x20,
    ensures
        payload_end(bytes, i) == end,
    decreases end - i,
{
    if i < end {
        payload_end_is(bytes, i + 1, end);
    }
}

/// Where a unit starts, a step covers exactly it.
proof fn a_unit_is_a_step(bytes: Seq<u8>, i: int, unit: Seq<u8>)
    requires
        0 <= i,
        i + unit.len() <= bytes.len(),
        bytes.subrange(i, i + unit.len()) == unit,
        is_unit(unit),
    ensures
        step_scan(bytes, i) == Ok::<int, RawViolation>(i + unit.len()),
{
    let end = i + unit.len();
    assert forall|k: int| 0 <= k < unit.len() implies bytes[i + k] == unit[k] by {
        assert(bytes.subrange(i, end)[k] == unit[k]);
    }
    assert(bytes[i] == unit[0]);
    if unit.len() >= 2 && unit[0] == ESC {
        assert(bytes[i + 1] == unit[1]);
        if unit[1] == 0x5b {
            assert forall|k: int| i + 2 <= k < end - 1 implies is_csi_body(
                #[trigger] bytes[k],
            ) by {
                assert(bytes[k] == unit[k - i]);
            }
            assert(bytes[end - 1] == unit[unit.len() - 1]);
            csi_end_is(bytes, i + 2, end - 1);
        } else if unit[1] == 0x5f {
            assert forall|k: int| i + 2 <= k < end - 2 implies (#[trigger] bytes[k]) >= 0x20 by {
                assert(bytes[k] == unit[k - i]);
            }
            assert(bytes[end - 2] == unit[unit.len() - 2]);
            assert(bytes[end - 1] == unit[unit.len() - 1]);
            payload_end_is(bytes, i + 2, end - 2);
        }
    }
}

proof fn scanned_is_cut(bytes: Seq<u8>, i: int) -> (units: Seq<Seq<u8>>)
    requires
        0 <= i <= bytes.len(),
        scan(bytes, i) is Ok,
    ensures
        cut_into(bytes.skip(i), units),
    decreases bytes.len() - i,
{
    if i == bytes.len() {
        assert(bytes.skip(i) =~= joined(seq![]));
        seq![]
    } else {
        step_bounds(bytes, i);
        step_is_a_unit(bytes, i);
        let next = step_scan(bytes, i)->Ok_0;
        let rest = scanned_is_cut(bytes, next);
        let units = seq![bytes.subrange(i, next)] + rest;
        assert(units.drop_first() =~= rest);
        assert(bytes.skip(i) =~= bytes.subrange(i, next) + bytes.skip(next));
        units
    }
}

/// The scan walks through a run of units to what follows them.
pub(crate) proof fn units_are_walked(bytes: Seq<u8>, i: int, units: Seq<Seq<u8>>)
    requires
        0 <= i <= i + joined(units).len() <= bytes.len(),
        cut_into(bytes.subrange(i, i + joined(units).len()), units),
    ensures
        scan(bytes, i) == scan(bytes, i + joined(units).len()),
    decreases units.len(),
{
    if units.len() > 0 {
        let rest = joined(units.drop_first());
        let next = i + units[0].len();
        let all = bytes.subrange(i, i + joined(units).len());
        assert(all.len() == units[0].len() + rest.len());
        assert(bytes.subrange(i, next) =~= all.subrange(0, units[0].len() as int));
        assert(bytes.subrange(i, next) =~= units[0]);
        a_unit_is_a_step(bytes, i, units[0]);
        assert(bytes.subrange(next, next + rest.len()) =~= all.skip(units[0].len() as int));
        assert(bytes.subrange(next, next + rest.len()) =~= rest);
        assert forall|k: int| 0 <= k < units.drop_first().len() implies is_unit(
            #[trigger] units.drop_first()[k],
        ) by {
            assert(units.drop_first()[k] == units[k + 1]);
        }
        units_are_walked(bytes, next, units.drop_first());
        assert(is_unit(units[0]));
        assert(i < bytes.len());
    }
}

/// What stands before a position has no bearing on the scan from there.
proof fn scan_is_local(front: Seq<u8>, bytes: Seq<u8>, i: int)
    requires
        0 <= i <= bytes.len(),
    ensures
        scan(front + bytes, front.len() + i) == scan(bytes, i),
    decreases bytes.len() - i,
{
    if i < bytes.len() {
        let all = front + bytes;
        let at = front.len() + i;
        csi_end_is_local(front, bytes, i + 2);
        payload_end_is_local(front, bytes, i + 2);
        csi_end_bounds(bytes, i + 2);
        payload_end_bounds(bytes, i + 2);
        step_bounds(bytes, i);
        step_bounds(all, at);
        assert(all[at] == bytes[i]);
        if i + 1 < bytes.len() {
            assert(all[at + 1] == bytes[i + 1]);
        }
        let end = csi_end(bytes, i + 2);
        if end < bytes.len() {
            assert(all[front.len() + end] == bytes[end]);
        }
        let end = payload_end(bytes, i + 2);
        if end < bytes.len() {
            assert(all[front.len() + end] == bytes[end]);
            if end + 1 < bytes.len() {
                assert(all[front.len() + end + 1] == bytes[end + 1]);
            }
        }
        if let Ok(next) = step_scan(bytes, i) {
            assert(step_scan(all, at) == Ok::<int, RawViolation>(front.len() + next));
            scan_is_local(front, bytes, next);
        }
    }
}

proof fn csi_end_is_local(front: Seq<u8>, bytes: Seq<u8>, i: int)
    requires
        0 <= i,
    ensures
        csi_end(front + bytes, front.len() + i) == front.len() + csi_end(bytes, i),
    decreases bytes.len() - i,
{
    if i < bytes.len() {
        assert((front + bytes)[front.len() + i] == bytes[i]);
        csi_end_is_local(front, bytes, i + 1);
    }
}

proof fn payload_end_is_local(front: Seq<u8>, bytes: Seq<u8>, i: int)
    requires
        0 <= i,
    ensures
        payload_end(front + bytes, front.len() + i) == front.len() + payload_end(bytes, i),
    decreases bytes.len() - i,
{
    if i < bytes.len() {
        assert((front + bytes)[front.len() + i] == bytes[i]);
        payload_end_is_local(front, bytes, i + 1);
    }
}

/// Exactly the cursor-local sequences are accepted: those that are not empty
/// and can be cut into printable bytes, cursor saves and restores, CSIs that
/// move the cursor or set graphic rendition, and terminated APCs.
pub proof fn accepted_is_cursor_local(bytes: Seq<u8>)
    ensures
        verdict(bytes) is Ok <==> bytes.len() > 0 && exists|units: Seq<Seq<u8>>| #[trigger]
            cut_into(bytes, units),
{
    assert(bytes.skip(0) =~= bytes);
    if verdict(bytes) is Ok {
        let units = scanned_is_cut(bytes, 0);
        assert(cut_into(bytes, units));
    }
    if bytes.len() > 0 && exists|units: Seq<Seq<u8>>| #[trigger] cut_into(bytes, units) {
        let units = choose|units: Seq<Seq<u8>>| #[trigger] cut_into(bytes, units);
        assert(bytes.subrange(0, bytes.len() as int) =~= bytes);
        units_are_walked(bytes, 0, units);
    }
}

/// An accepted sequence changes nothing of what follows it: with a sequence
/// written after it, the verdict is that sequence's own, and two accepted ones
/// are an accepted one.
pub proof fn accepted_sequences_can_be_joined(first: Seq<u8>, second: Seq<u8>)
    requires
        verdict(first) is Ok,
    ensures
        verdict(first + second) == if second.len() == 0 {
            Ok(())
        } else {
            verdict(second)
        },
{
    accepted_is_cursor_local(first);
    let units = choose|units: Seq<Seq<u8>>| #[trigger] cut_into(first, units);
    assert((first + second).subrange(0, first.len() as int) =~= first);
    units_are_walked(first + second, 0, units);
    scan_is_local(first, second, 0);
}

} // verus!
