//! The top menu component: it only remembers which highlight palette the
//! user picked, so the palette selector can show the current choice.

use vstd::prelude::*;

use crate::editor_core::no_effects;
use crate::event::{Effect, EffectV, Event, HighlightTheme};

verus! {

/// What one event does to the menu's palette choice.
pub open spec fn menu_step(pre: HighlightTheme, ev: Event) -> HighlightTheme {
    match ev {
        Event::ThemeChanged(t) => t,
        _ => pre,
    }
}

/// The top menu: open, save and reload controls plus the palette picker.
/// Only the picked palette is state; the controls are pure view.
#[derive(Debug, PartialEq)]
pub struct TopMenu {
    pub theme: HighlightTheme,
}

impl TopMenu {
    /// The menu starts on the default palette.
    pub fn new() -> (r: TopMenu)
        ensures
            r.theme == HighlightTheme::Base16Ocean,
    {
        TopMenu { theme: HighlightTheme::Base16Ocean }
    }

    /// One reduction step: remember a palette change, ignore everything
    /// else; the menu never asks for I/O.
    pub fn update(&mut self, event: &Event) -> (effs: Vec<Effect>)
        ensures
            final(self).theme == menu_step(old(self).theme, *event),
            effs.deep_view() == Seq::<EffectV>::empty(),
    {
        match event {
            Event::ThemeChanged(t) => {
                self.theme = *t;
            },
            _ => {},
        }
        no_effects()
    }
}

} // verus!
