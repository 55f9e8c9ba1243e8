//! Icons of the bundled icon font and their code points.

use vstd::prelude::*;

verus! {

/// A glyph of the icon font used by the pane and menu controls.
#[derive(Clone, Copy, PartialEq, Eq, Structural, Debug)]
pub enum Icon {
    File,
    Save,
    Refresh,
    HorizontalSplit,
    VerticalSplit,
    Close,
    Pin,
    Unpin,
}

/// The code point each icon occupies in the icon font.
pub open spec fn icon_char(icon: Icon) -> char {
    match icon {
        Icon::File => '\u{e800}',
        Icon::Save => '\u{e801}',
        Icon::Refresh => '\u{e802}',
        Icon::HorizontalSplit => '\u{e803}',
        Icon::VerticalSplit => '\u{e804}',
        Icon::Close => '\u{e805}',
        Icon::Pin => '\u{e806}',
        Icon::Unpin => '\u{e807}',
    }
}

impl From<Icon> for char {
    fn from(icon: Icon) -> (c: char)
        ensures
            c == icon_char(icon),
    {
        match icon {
            Icon::File => '\u{e800}',
            Icon::Save => '\u{e801}',
            Icon::Refresh => '\u{e802}',
            Icon::HorizontalSplit => '\u{e803}',
            Icon::VerticalSplit => '\u{e804}',
            Icon::Close => '\u{e805}',
            Icon::Pin => '\u{e806}',
            Icon::Unpin => '\u{e807}',
        }
    }
}

impl vstd::std_specs::convert::FromSpecImpl<Icon> for char {
    open spec fn obeys_from_spec() -> bool {
        true
    }

    open spec fn from_spec(icon: Icon) -> char {
        icon_char(icon)
    }
}

} // verus!
