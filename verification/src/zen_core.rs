//! The application core: the window title, the window theme, and the two
//! session components — the top menu and the pane editor.  The component
//! set is closed: every event is handed to both, in that order, and their
//! follow-up effects are sequenced, never interleaved.

use vstd::prelude::*;

use crate::editor::{session_step, Editor, EditorV};
use crate::editor_core::no_effects;
use crate::event::{Effect, EffectV, Event, HighlightTheme, UiTheme};
use crate::top_menu::{menu_step, TopMenu};

verus! {

/// Mathematical image of a [`ZenCore`].
#[verifier::ext_equal]
pub struct ZenV {
    pub title: Seq<char>,
    pub theme: UiTheme,
    pub menu_theme: HighlightTheme,
    pub editor: EditorV,
}

/// One reduction step of the application: a palette change flips the
/// window between its dark and light theme and is then handed on to both
/// components, as every other event is; an empty event does nothing.
pub open spec fn zen_step(pre: ZenV, ev: Event) -> (ZenV, Seq<EffectV>) {
    match ev {
        Event::Nothing => (pre, Seq::empty()),
        _ => {
            let theme = match ev {
                Event::ThemeChanged(t) => if t.is_dark_spec() {
                    UiTheme::Dark
                } else {
                    UiTheme::Light
                },
                _ => pre.theme,
            };
            let r = session_step(pre.editor, ev);
            (
            ZenV {
                title: pre.title,
                theme,
                menu_theme: menu_step(pre.menu_theme, ev),
                editor: r.0,
            },
            r.1,
            )
        },
    }
}

/// The application core.
#[derive(Debug)]
pub struct ZenCore {
    pub title: String,
    pub theme: UiTheme,
    pub top_menu: TopMenu,
    pub editor: Editor,
}

impl View for ZenCore {
    type V = ZenV;

    open spec fn view(&self) -> ZenV {
        ZenV {
            title: self.title@,
            theme: self.theme,
            menu_theme: self.top_menu.theme,
            editor: self.editor@,
        }
    }
}

impl Default for ZenCore {
    /// The stock application: the default title, the dark theme, fresh
    /// components.
    fn default() -> (r: ZenCore)
        ensures
            r@.title == "Zen"@,
            r@.theme == UiTheme::Dark,
            r@.menu_theme == HighlightTheme::Base16Ocean,
            r@.editor == EditorV::init(),
            r.wf(),
    {
        ZenCore::new("Zen".to_string(), UiTheme::Dark)
    }
}

impl ZenCore {
    pub open spec fn wf(&self) -> bool {
        self@.editor.inv()
    }

    /// A core with fresh components.
    pub fn new(title: String, theme: UiTheme) -> (r: ZenCore)
        ensures
            r@.title == title@,
            r@.theme == theme,
            r@.menu_theme == HighlightTheme::Base16Ocean,
            r@.editor == EditorV::init(),
            r.wf(),
    {
        ZenCore { title, theme, top_menu: TopMenu::new(), editor: Editor::new() }
    }

    /// A core around the given components.
    pub fn new_with(title: String, theme: UiTheme, top_menu: TopMenu, editor: Editor) -> (r:
        ZenCore)
        requires
            editor.wf(),
        ensures
            r@.title == title@,
            r@.theme == theme,
            r@.menu_theme == top_menu.theme,
            r@.editor == editor@,
            r.wf(),
    {
        ZenCore { title, theme, top_menu, editor }
    }

    /// One reduction step: hand the event to the menu and then to the
    /// editor session, and chain their effects in that order.
    pub fn update(&mut self, event: &Event) -> (effs: Vec<Effect>)
        requires
            old(self).wf(),
        ensures
            final(self).wf(),
            final(self)@ == zen_step(old(self)@, *event).0,
            effs.deep_view() == zen_step(old(self)@, *event).1,
    {
        match event {
            Event::Nothing => no_effects(),
            _ => {
                match event {
                    Event::ThemeChanged(t) => {
                        self.theme = if t.is_dark() {
                            UiTheme::Dark
                        } else {
                            UiTheme::Light
                        };
                    },
                    _ => {},
                }
                let mut effs = self.top_menu.update(event);
                let mut e2 = self.editor.update(event);
                let ghost e1v = effs.deep_view();
                let ghost e2v = e2.deep_view();
                effs.append(&mut e2);
                proof {
                    assert(effs.deep_view() =~= e1v + e2v);
                    assert(e1v + e2v =~= e2v);
                }
                effs
            },
        }
    }

    /// The window title.
    pub fn title(&self) -> (r: String)
        ensures
            r@ == self@.title,
    {
        self.title.clone()
    }

    /// The window theme.
    pub fn theme(&self) -> (r: UiTheme)
        ensures
            r == self@.theme,
    {
        self.theme
    }
}

} // verus!
