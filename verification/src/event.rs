//! The closed vocabulary exchanged between the session's components: input
//! events, I/O completion events, and the effects a reduction step asks for.

use vstd::prelude::*;

use crate::fileinfo::{FileInfo, FileInfoV};

verus! {

/// Direction of a pane split.
#[derive(Clone, Copy, PartialEq, Eq, Structural, Debug)]
pub enum Axis {
    Horizontal,
    Vertical,
}

/// Colour palette used by the syntax-highlighting collaborator.  The session
/// only stores the choice and reports whether it is a dark palette.
#[derive(Clone, Copy, PartialEq, Eq, Structural, Debug)]
pub enum HighlightTheme {
    SolarizedDark,
    Base16Mocha,
    Base16Ocean,
    Base16Eighties,
    InspiredGitHub,
}

impl HighlightTheme {
    /// Whether the palette is dark.  Of the bundled palettes only
    /// `InspiredGitHub` is light.
    pub fn is_dark(&self) -> (r: bool)
        ensures
            r == self.is_dark_spec(),
    {
        !matches!(self, HighlightTheme::InspiredGitHub)
    }

    pub open spec fn is_dark_spec(&self) -> bool {
        !(*self is InspiredGitHub)
    }
}

/// Overall window theme of the shell.
#[derive(Clone, Copy, PartialEq, Eq, Structural, Debug)]
pub enum UiTheme {
    Dark,
    Light,
    Dracula,
}

/// A pane being dragged, as reported by the layout surface.
#[derive(Clone, Copy, PartialEq, Eq, Structural, Debug)]
pub enum DragEvent {
    Picked { pane: usize },
    Dropped { pane: usize, target: usize },
    Canceled { pane: usize },
}

/// Everything that can happen to the session: user input, tab and pane
/// manipulation, and the completions of earlier I/O requests.
#[derive(Clone, Debug, PartialEq)]
pub enum Event {
    Nothing,
    Save,
    Saved,
    OpenFile,
    Opened(Option<FileInfo>),
    Quit(Option<usize>),
    Quited(String),
    RefreshEditorContent,
    ScanAllFiles,
    ScanFile(Option<String>),
    Scanned(String, String),
    ScannedAll(Vec<(String, String)>),
    IoFailed(String),
    EditorAction(String),
    TabSelected(usize),
    TabClosed(usize),
    NewTab,
    PaneClicked(usize),
    PaneDragged(DragEvent),
    PaneResized(usize, u32),
    TogglePin(usize),
    Close(usize),
    Maximize(usize),
    Restore,
    Split(Axis, usize),
    ThemeChanged(HighlightTheme),
}

/// Mathematical image of an [`Event`].
#[verifier::ext_equal]
pub enum EventV {
    Nothing,
    Save,
    Saved,
    OpenFile,
    Opened(Option<FileInfoV>),
    Quit(Option<usize>),
    Quited(Seq<char>),
    RefreshEditorContent,
    ScanAllFiles,
    ScanFile(Option<Seq<char>>),
    Scanned(Seq<char>, Seq<char>),
    ScannedAll(Seq<(Seq<char>, Seq<char>)>),
    IoFailed(Seq<char>),
    EditorAction(Seq<char>),
    TabSelected(usize),
    TabClosed(usize),
    NewTab,
    PaneClicked(usize),
    PaneDragged(DragEvent),
    PaneResized(usize, u32),
    TogglePin(usize),
    Close(usize),
    Maximize(usize),
    Restore,
    Split(Axis, usize),
    ThemeChanged(HighlightTheme),
}

impl View for Event {
    type V = EventV;

    open spec fn view(&self) -> EventV {
        match self {
            Event::Nothing => EventV::Nothing,
            Event::Save => EventV::Save,
            Event::Saved => EventV::Saved,
            Event::OpenFile => EventV::OpenFile,
            Event::Opened(o) => EventV::Opened(o.deep_view()),
            Event::Quit(i) => EventV::Quit(*i),
            Event::Quited(p) => EventV::Quited(p@),
            Event::RefreshEditorContent => EventV::RefreshEditorContent,
            Event::ScanAllFiles => EventV::ScanAllFiles,
            Event::ScanFile(o) => EventV::ScanFile(o.deep_view()),
            Event::Scanned(p, c) => EventV::Scanned(p@, c@),
            Event::ScannedAll(v) => EventV::ScannedAll(v.deep_view()),
            Event::IoFailed(p) => EventV::IoFailed(p@),
            Event::EditorAction(t) => EventV::EditorAction(t@),
            Event::TabSelected(i) => EventV::TabSelected(*i),
            Event::TabClosed(i) => EventV::TabClosed(*i),
            Event::NewTab => EventV::NewTab,
            Event::PaneClicked(i) => EventV::PaneClicked(*i),
            Event::PaneDragged(d) => EventV::PaneDragged(*d),
            Event::PaneResized(s, r) => EventV::PaneResized(*s, *r),
            Event::TogglePin(i) => EventV::TogglePin(*i),
            Event::Close(i) => EventV::Close(*i),
            Event::Maximize(i) => EventV::Maximize(*i),
            Event::Restore => EventV::Restore,
            Event::Split(a, i) => EventV::Split(*a, *i),
            Event::ThemeChanged(t) => EventV::ThemeChanged(*t),
        }
    }
}

impl DeepView for Event {
    type V = EventV;

    open spec fn deep_view(&self) -> EventV {
        self.view()
    }
}

impl Event {
    /// A copy that denotes the same occurrence.
    pub fn duplicate(&self) -> (r: Event)
        ensures
            r@ == self@,
    {
        match self {
            Event::Nothing => Event::Nothing,
            Event::Save => Event::Save,
            Event::Saved => Event::Saved,
            Event::OpenFile => Event::OpenFile,
            Event::Opened(o) => Event::Opened(
                match o {
                    Some(f) => Some(f.duplicate()),
                    None => None,
                },
            ),
            Event::Quit(i) => Event::Quit(*i),
            Event::Quited(p) => Event::Quited(p.clone()),
            Event::RefreshEditorContent => Event::RefreshEditorContent,
            Event::ScanAllFiles => Event::ScanAllFiles,
            Event::ScanFile(o) => Event::ScanFile(
                match o {
                    Some(p) => Some(p.clone()),
                    None => None,
                },
            ),
            Event::Scanned(p, c) => Event::Scanned(p.clone(), c.clone()),
            Event::ScannedAll(v) => {
                let mut out: Vec<(String, String)> = Vec::new();
                let mut i: usize = 0;
                while i < v.len()
                    invariant
                        i <= v.len(),
                        out@.len() == i as int,
                        forall|j: int|
                            0 <= j < i as int ==> out.deep_view()[j] == v.deep_view()[j],
                    decreases v.len() - i,
                {
                    out.push((v[i].0.clone(), v[i].1.clone()));
                    i += 1;
                    proof {
                        assert(out.deep_view()[i - 1] == v.deep_view()[i - 1]);
                    }
                }
                proof {
                    assert(out.deep_view() =~= v.deep_view());
                }
                Event::ScannedAll(out)
            },
            Event::IoFailed(p) => Event::IoFailed(p.clone()),
            Event::EditorAction(t) => Event::EditorAction(t.clone()),
            Event::TabSelected(i) => Event::TabSelected(*i),
            Event::TabClosed(i) => Event::TabClosed(*i),
            Event::NewTab => Event::NewTab,
            Event::PaneClicked(i) => Event::PaneClicked(*i),
            Event::PaneDragged(d) => Event::PaneDragged(*d),
            Event::PaneResized(s, r) => Event::PaneResized(*s, *r),
            Event::TogglePin(i) => Event::TogglePin(*i),
            Event::Close(i) => Event::Close(*i),
            Event::Maximize(i) => Event::Maximize(*i),
            Event::Restore => Event::Restore,
            Event::Split(a, i) => Event::Split(*a, *i),
            Event::ThemeChanged(t) => Event::ThemeChanged(*t),
        }
    }
}

/// A blocking operation the shell is asked to run off the reduction path.
/// Each request completes by feeding exactly one follow-up [`Event`] back
/// into the reducer.
#[derive(Clone, Debug, PartialEq)]
pub enum IoRequest {
    /// Show the native open-file picker, read the chosen file, and answer
    /// with `Opened`.
    PickOpen,
    /// Read one file and answer with `Scanned` (or `IoFailed`).
    ReadFile { path: String },
    /// Read every listed file and answer with `ScannedAll`, leaving out the
    /// files that could not be read.
    ReadAll { paths: Vec<String> },
    /// Persist `content` to `path` and answer with `Saved` (or `IoFailed`).
    WriteFile { path: String, content: String },
}

/// Mathematical image of an [`IoRequest`].
#[verifier::ext_equal]
pub enum IoRequestV {
    PickOpen,
    ReadFile { path: Seq<char> },
    ReadAll { paths: Seq<Seq<char>> },
    WriteFile { path: Seq<char>, content: Seq<char> },
}

impl View for IoRequest {
    type V = IoRequestV;

    open spec fn view(&self) -> IoRequestV {
        match self {
            IoRequest::PickOpen => IoRequestV::PickOpen,
            IoRequest::ReadFile { path } => IoRequestV::ReadFile { path: path@ },
            IoRequest::ReadAll { paths } => IoRequestV::ReadAll { paths: paths.deep_view() },
            IoRequest::WriteFile { path, content } => (IoRequestV::WriteFile {
                path: path@,
                content: content@,
            }),
        }
    }
}

impl DeepView for IoRequest {
    type V = IoRequestV;

    open spec fn deep_view(&self) -> IoRequestV {
        self.view()
    }
}

/// What one reduction step hands back besides the new state: events to feed
/// straight back in, and I/O requests for the shell.
#[derive(Clone, Debug, PartialEq)]
pub enum Effect {
    Emit(Event),
    Io(IoRequest),
}

/// Mathematical image of an [`Effect`].
#[verifier::ext_equal]
pub enum EffectV {
    Emit(EventV),
    Io(IoRequestV),
}

impl View for Effect {
    type V = EffectV;

    open spec fn view(&self) -> EffectV {
        match self {
            Effect::Emit(e) => EffectV::Emit(e@),
            Effect::Io(r) => EffectV::Io(r@),
        }
    }
}

impl DeepView for Effect {
    type V = EffectV;

    open spec fn deep_view(&self) -> EffectV {
        self.view()
    }
}

} // verus!
