//! Where raw sequences land on screen, and what must be repainted when they
//! move.

use crate::raw::{validate, verdict, RawViolation};
use vstd::prelude::*;
use vstd::utf8::encode_utf8;

verus! {

/// A rectangle of terminal cells.
#[derive(Debug, Clone, Copy, PartialEq, Eq, Structural)]
pub struct Rect {
    pub x: u16,
    pub y: u16,
    pub width: u16,
    pub height: u16,
}

impl Rect {
    /// A rectangle whose far edges are still cell coordinates.
    pub open spec fn in_range(self) -> bool {
        self.x + self.width <= u16::MAX && self.y + self.height <= u16::MAX
    }

    /// Whether the cell at column `x` and row `y` lies inside.
    pub open spec fn covers(self, x: int, y: int) -> bool {
        self.x <= x < self.x + self.width && self.y <= y < self.y + self.height
    }

    /// The rectangle at `(x, y)`, its size cut so that its far edges stay
    /// cell coordinates.
    pub fn new(x: u16, y: u16, width: u16, height: u16) -> (rect: Self)
        ensures
            rect.in_range(),
            rect.x == x,
            rect.y == y,
            rect.width == if x + width <= u16::MAX {
                width as int
            } else {
                u16::MAX - x
            },
            rect.height == if y + height <= u16::MAX {
                height as int
            } else {
                u16::MAX - y
            },
    {
        Rect { x, y, width: x.saturating_add(width) - x, height: y.saturating_add(height) - y }
    }
}

/// The larger of two coordinates.
pub open spec fn larger(a: int, b: int) -> int {
    if a >= b {
        a
    } else {
        b
    }
}

/// The smaller of two coordinates.
pub open spec fn smaller(a: int, b: int) -> int {
    if a <= b {
        a
    } else {
        b
    }
}

/// The part of `rect` inside `viewport`, if there is any.
pub open spec fn clipped(rect: Rect, viewport: Rect) -> Option<Rect> {
    let x1 = larger(rect.x as int, viewport.x as int);
    let y1 = larger(rect.y as int, viewport.y as int);
    let x2 = smaller(rect.x + rect.width, viewport.x + viewport.width);
    let y2 = smaller(rect.y + rect.height, viewport.y + viewport.height);
    if x2 > x1 && y2 > y1 {
        Some(
            Rect {
                x: x1 as u16,
                y: y1 as u16,
                width: (x2 - x1) as u16,
                height: (y2 - y1) as u16,
            },
        )
    } else {
        None
    }
}

/// Clips `rect` to `viewport`, `None` when nothing of it is visible.
pub fn clip(rect: Rect, viewport: Rect) -> (part: Option<Rect>)
    requires
        rect.in_range(),
        viewport.in_range(),
    ensures
        part == clipped(rect, viewport),
{
    let x1 = if rect.x >= viewport.x {
        rect.x
    } else {
        viewport.x
    };
    let y1 = if rect.y >= viewport.y {
        rect.y
    } else {
        viewport.y
    };
    let right = rect.x + rect.width;
    let view_right = viewport.x + viewport.width;
    let x2 = if right <= view_right {
        right
    } else {
        view_right
    };
    let bottom = rect.y + rect.height;
    let view_bottom = viewport.y + viewport.height;
    let y2 = if bottom <= view_bottom {
        bottom
    } else {
        view_bottom
    };
    if x2 > x1 && y2 > y1 {
        Some(Rect::new(x1, y1, x2 - x1, y2 - y1))
    } else {
        None
    }
}

/// Clipping keeps exactly the visible part: a cell is in the clipped
/// rectangle when it is in both, and there is no clipped rectangle when no
/// cell is.
pub proof fn clipping_keeps_the_visible_part(rect: Rect, viewport: Rect, x: int, y: int)
    requires
        rect.in_range(),
        viewport.in_range(),
    ensures
        rect.covers(x, y) && viewport.covers(x, y) <==> match clipped(rect, viewport) {
            Some(part) => part.covers(x, y),
            None => false,
        },
        clipped(rect, viewport) matches Some(part) ==> part.in_range() && part.width > 0
            && part.height > 0,
{
}

/// Clipping what is already clipped changes nothing.
pub proof fn clipping_twice_is_clipping_once(rect: Rect, viewport: Rect)
    requires
        rect.in_range(),
        viewport.in_range(),
    ensures
        clipped(rect, viewport) matches Some(part) ==> clipped(part, viewport) == Some(part),
{
}

/// A raw sequence and the rectangle it occupies.
#[derive(Debug, PartialEq)]
pub struct Placement {
    pub rect: Rect,
    pub seq: String,
}

impl Clone for Placement {
    fn clone(&self) -> (copy: Self)
        ensures
            copy == *self,
    {
        Placement { rect: self.rect, seq: self.seq.clone() }
    }
}

/// A placement as a mathematical value.
pub struct PlacementView {
    pub rect: Rect,
    pub seq: Seq<char>,
}

impl View for Placement {
    type V = PlacementView;

    open spec fn view(&self) -> PlacementView {
        PlacementView { rect: self.rect, seq: self.seq@ }
    }
}

impl PlacementView {
    /// Something is visible of the rectangle, and the sequence is accepted.
    pub open spec fn placeable(self) -> bool {
        &&& self.rect.in_range()
        &&& self.rect.width > 0
        &&& self.rect.height > 0
        &&& verdict(encode_utf8(self.seq)) is Ok
    }
}

/// The placements as mathematical values.
pub open spec fn placement_views(placements: Seq<Placement>) -> Seq<PlacementView> {
    placements.map_values(|placement: Placement| placement@)
}

/// Every placement can be drawn.
pub open spec fn all_placeable(placements: Seq<PlacementView>) -> bool {
    forall|k: int| 0 <= k < placements.len() ==> (#[trigger] placements[k]).placeable()
}

/// The placements of this frame and of the one before.
pub struct RawOverlay {
    current: Vec<Placement>,
    previous: Vec<Placement>,
}

/// An overlay as a mathematical value.
pub struct OverlayView {
    pub current: Seq<PlacementView>,
    pub previous: Seq<PlacementView>,
}

impl View for RawOverlay {
    type V = OverlayView;

    closed spec fn view(&self) -> OverlayView {
        OverlayView {
            current: placement_views(self.current@),
            previous: placement_views(self.previous@),
        }
    }
}

/// The rectangles of those in `from` that are not in `to`, in order.
pub open spec fn absent(from: Seq<PlacementView>, to: Seq<PlacementView>) -> Seq<Rect>
    decreases from.len(),
{
    if from.len() == 0 {
        seq![]
    } else if to.contains(from.last()) {
        absent(from.drop_last(), to)
    } else {
        absent(from.drop_last(), to).push(from.last().rect)
    }
}

/// Whether the placement is one of `list`.
fn holds(list: &Vec<Placement>, placement: &Placement) -> (held: bool)
    ensures
        held == placement_views(list@).contains(placement@),
{
    let ghost views = placement_views(list@);
    let mut i: usize = 0;
    while i < list.len()
        invariant
            views == placement_views(list@),
            i <= list@.len(),
            forall|k: int| 0 <= k < i ==> views[k] != placement@,
        decreases list@.len() - i,
    {
        assert(views[i as int] == list@[i as int]@);
        if list[i].rect == placement.rect && list[i].seq == placement.seq {
            return true;
        }
        i += 1;
    }
    false
}

/// Appends the rectangles of those in `from` that are not in `to`.
fn push_absent(rects: &mut Vec<Rect>, from: &Vec<Placement>, to: &Vec<Placement>)
    ensures
        final(rects)@ == old(rects)@ + absent(placement_views(from@), placement_views(to@)),
{
    let ghost before = rects@;
    let ghost views = placement_views(from@);
    let ghost others = placement_views(to@);
    let mut i: usize = 0;
    assert(views.take(0) =~= seq![]);
    while i < from.len()
        invariant
            views == placement_views(from@),
            others == placement_views(to@),
            i <= from@.len(),
            rects@ == before + absent(views.take(i as int), others),
        decreases from@.len() - i,
    {
        proof {
            assert(views.take(i + 1).drop_last() =~= views.take(i as int));
            assert(views.take(i + 1).last() == from@[i as int]@);
        }
        if !holds(to, &from[i]) {
            rects.push(from[i].rect);
        }
        i += 1;
    }
    assert(views.take(i as int) =~= views);
}

impl RawOverlay {
    /// Everything placed can be drawn.
    pub open spec fn wf(&self) -> bool {
        all_placeable(self@.current) && all_placeable(self@.previous)
    }

    /// Starts a frame, rotating last frame's placements into the set the
    /// next [`Self::invalidate`] compares against.
    pub fn begin(&mut self)
        requires
            old(self).wf(),
        ensures
            final(self).wf(),
            final(self)@ == (OverlayView { current: seq![], previous: old(self)@.current }),
    {
        let mut last: Vec<Placement> = Vec::new();
        std::mem::swap(&mut last, &mut self.current);
        self.previous = last;
        assert(self@.current =~= seq![]);
    }

    /// Records a placement clipped to `viewport`.
    pub fn place(&mut self, rect: Rect, seq: &str, viewport: Rect) -> (placed: Result<
        (),
        RawViolation,
    >)
        requires
            old(self).wf(),
            rect.in_range(),
            viewport.in_range(),
        ensures
            final(self).wf(),
            placed == verdict(encode_utf8(seq@)),
            final(self)@.previous == old(self)@.previous,
            final(self)@.current == match (placed, clipped(rect, viewport)) {
                (Ok(_), Some(part)) => old(self)@.current.push(
                    PlacementView { rect: part, seq: seq@ },
                ),
                _ => old(self)@.current,
            },
    {
        let checked = validate(seq);
        if checked.is_err() {
            return checked;
        }
        if let Some(part) = clip(rect, viewport) {
            let placement = Placement { rect: part, seq: seq.to_owned() };
            self.current.push(placement);
            assert(self@.current =~= old(self)@.current.push(
                PlacementView { rect: part, seq: seq@ },
            ));
        }
        checked
    }

    /// This frame's placements, in the order they were recorded.
    pub fn placements(&self) -> (placements: &Vec<Placement>)
        ensures
            placement_views(placements@) == self@.current,
    {
        &self.current
    }

    /// Rects to force-repaint this frame: every placement that left, moved,
    /// changed, or scrolled away.
    pub fn invalidate(&self) -> (rects: Vec<Rect>)
        ensures
            rects@ == absent(self@.previous, self@.current) + absent(
                self@.current,
                self@.previous,
            ),
    {
        let mut rects: Vec<Rect> = Vec::new();
        push_absent(&mut rects, &self.previous, &self.current);
        push_absent(&mut rects, &self.current, &self.previous);
        rects
    }
}

impl Default for RawOverlay {
    fn default() -> (overlay: Self)
        ensures
            overlay.wf(),
            overlay@ == (OverlayView { current: seq![], previous: seq![] }),
    {
        let overlay = RawOverlay { current: Vec::new(), previous: Vec::new() };
        assert(overlay@.current =~= seq![]);
        assert(overlay@.previous =~= seq![]);
        overlay
    }
}

proof fn absent_holds(from: Seq<PlacementView>, to: Seq<PlacementView>, rect: Rect)
    ensures
        absent(from, to).contains(rect) <==> exists|p: PlacementView|
            p.rect == rect && #[trigger] from.contains(p) && !to.contains(p),
    decreases from.len(),
{
    if from.len() > 0 {
        let rest = from.drop_last();
        let last = from.last();
        absent_holds(rest, to, rect);
        assert(from =~= rest.push(last));
        assert forall|p: PlacementView| #[trigger] from.contains(p) <==> rest.contains(p) || p
            == last by {
            if from.contains(p) && p != last {
                let k = choose|k: int| 0 <= k < from.len() && from[k] == p;
                assert(rest[k] == p);
            }
            if rest.contains(p) {
                let k = choose|k: int| 0 <= k < rest.len() && rest[k] == p;
                assert(from[k] == p);
            }
            if p == last {
                assert(from[from.len() - 1] == p);
            }
        }
        let kept = absent(rest, to);
        assert(kept.push(last.rect).contains(rect) <==> kept.contains(rect) || last.rect == rect)
            by {
            let all = kept.push(last.rect);
            if kept.contains(rect) {
                let k = choose|k: int| 0 <= k < kept.len() && kept[k] == rect;
                assert(all[k] == rect);
            }
            if last.rect == rect {
                assert(all[kept.len() as int] == rect);
            }
            if all.contains(rect) && last.rect != rect {
                let k = choose|k: int| 0 <= k < all.len() && all[k] == rect;
                assert(kept[k] == rect);
            }
        }
        if kept.contains(rect) {
            let p = choose|p: PlacementView|
                p.rect == rect && #[trigger] rest.contains(p) && !to.contains(p);
            assert(from.contains(p));
        }
        if !to.contains(last) && last.rect == rect {
            assert(from.contains(last));
        }
        if exists|p: PlacementView|
            p.rect == rect && #[trigger] from.contains(p) && !to.contains(p) {
            let p = choose|p: PlacementView|
                p.rect == rect && #[trigger] from.contains(p) && !to.contains(p);
            assert(rest.contains(p) || p == last);
        }
    }
}

/// A rectangle is repainted exactly when a placement on it was there in the
/// one frame and not, unchanged, in the other.
pub proof fn what_changed_is_repainted(
    previous: Seq<PlacementView>,
    current: Seq<PlacementView>,
    rect: Rect,
)
    ensures
        (absent(previous, current) + absent(current, previous)).contains(rect) <==> exists|
            p: PlacementView,
        |
            p.rect == rect && #[trigger] previous.contains(p) != current.contains(p),
{
    absent_holds(previous, current, rect);
    absent_holds(current, previous, rect);
    let gone = absent(previous, current);
    let come = absent(current, previous);
    let all = gone + come;
    assert(all.contains(rect) <==> gone.contains(rect) || come.contains(rect)) by {
        if gone.contains(rect) {
            let k = choose|k: int| 0 <= k < gone.len() && gone[k] == rect;
            assert(all[k] == rect);
        }
        if come.contains(rect) {
            let k = choose|k: int| 0 <= k < come.len() && come[k] == rect;
            assert(all[gone.len() + k] == rect);
        }
        if all.contains(rect) {
            let k = choose|k: int| 0 <= k < all.len() && all[k] == rect;
            if k < gone.len() {
                assert(gone[k] == rect);
            } else {
                assert(come[k - gone.len()] == rect);
            }
        }
    }
    if come.contains(rect) {
        let p = choose|p: PlacementView|
            p.rect == rect && #[trigger] current.contains(p) && !previous.contains(p);
        assert(previous.contains(p) != current.contains(p));
    }
    if exists|p: PlacementView|
        p.rect == rect && #[trigger] previous.contains(p) != current.contains(p) {
        let p = choose|p: PlacementView|
            p.rect == rect && #[trigger] previous.contains(p) != current.contains(p);
        assert(previous.contains(p) || current.contains(p));
    }
}

/// Nothing is repainted exactly when both frames hold the same placements,
/// in whatever order.
pub proof fn nothing_changed_is_nothing_repainted(
    previous: Seq<PlacementView>,
    current: Seq<PlacementView>,
)
    ensures
        absent(previous, current) + absent(current, previous) == Seq::<Rect>::empty()
            <==> forall|p: PlacementView| #[trigger]
            previous.contains(p) == current.contains(p),
{
    let all = absent(previous, current) + absent(current, previous);
    if all.len() == 0 {
        assert(all =~= Seq::<Rect>::empty());
        assert forall|p: PlacementView| #[trigger] previous.contains(p) == current.contains(p) by {
            what_changed_is_repainted(previous, current, p.rect);
            if previous.contains(p) != current.contains(p) {
                assert(all.contains(p.rect));
            }
        }
    } else {
        what_changed_is_repainted(previous, current, all[0]);
        assert(all.contains(all[0]));
    }
}

} // verus!
