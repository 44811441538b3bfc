//! Terminal styles: `ratatui` values that the library carries, lays one over
//! another, and never looks into.

use ratatui::style::Style;
use vstd::prelude::*;

verus! {

/// `ratatui::style::Style`, carried as a whole.
#[verifier::external_type_specification]
#[verifier::external_body]
pub struct ExStyle(ratatui::style::Style);

/// The style that `Style::patch` makes of a style and one laid over it.
pub uninterp spec fn style_patch(under: ratatui::style::Style, over: ratatui::style::Style) -> Style;

/// Lays `over` over `under` with `Style::patch`. As documented, the combined
/// style has the effect of the two one after the other. What it sets of
/// either is left to the name.
#[verifier::external_body]
pub(crate) fn patch(under: Style, over: Style) -> (both: Style)
    ensures
        both == style_patch(under, over),
        forall|s: Style| #[trigger]
            style_patch(style_patch(s, under), over) == style_patch(s, both),
{
    under.patch(over)
}

/// A style that changes nothing over or under any other.
pub open spec fn is_plain(style: Style) -> bool {
    &&& forall|s: Style| #[trigger] style_patch(s, style) == s
    &&& forall|s: Style| #[trigger] style_patch(style, s) == s
}

/// `Style::default`, which sets nothing: laid over another style, or under
/// one, it leaves the other as it is.
#[verifier::external_body]
fn default_style() -> (style: Style)
    ensures
        is_plain(style),
{
    Style::default()
}

/// The plain style.
pub open spec fn plain_style() -> Style {
    choose|style: Style| is_plain(style)
}

/// There is one plain style.
pub proof fn the_plain_style_is_unique(a: Style, b: Style)
    requires
        is_plain(a),
        is_plain(b),
    ensures
        a == b,
{
    assert(style_patch(a, b) == a);
    assert(style_patch(a, b) == b);
}

/// The plain style.
pub(crate) fn plain() -> (style: Style)
    ensures
        style == plain_style(),
        is_plain(style),
{
    let style = default_style();
    proof {
        the_plain_style_is_unique(style, plain_style());
    }
    style
}

} // verus!
