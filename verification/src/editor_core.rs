//! The document buffer registry of one pane: the open documents in tab
//! order, the active index, the mirror of the editing surface's text, and
//! the highlight palette.  Its reduction step is pure: every disk read or
//! write leaves as an [`Effect`] and re-enters as an [`Event`].

use vstd::prelude::*;
use vstd::pervasive::VecAdditionalExecFns;

use crate::event::{Effect, EffectV, Event, EventV, HighlightTheme, IoRequest, IoRequestV};
use crate::fileinfo::FileInfo;

verus! {

/// Mathematical image of an [`EditorCore`].
#[verifier::ext_equal]
pub struct CoreV {
    pub content: Seq<char>,
    pub files: Seq<FileInfo>,
    pub active_file: int,
    pub theme: HighlightTheme,
}

impl CoreV {
    /// A non-empty registry keeps the active index in bounds; an empty one
    /// pins it at zero.
    pub open spec fn inv(self) -> bool {
        if self.files.len() == 0 {
            self.active_file == 0
        } else {
            0 <= self.active_file < self.files.len()
        }
    }

    /// The registry of a freshly created pane: no documents, empty surface.
    pub open spec fn init() -> CoreV {
        CoreV {
            content: Seq::empty(),
            files: Seq::empty(),
            active_file: 0,
            theme: HighlightTheme::Base16Ocean,
        }
    }
}

/// Index of the first document at or after `i` whose path is exactly
/// `path`, or the number of documents if none matches.  Paths compare by
/// exact character equality: byte-different paths are different documents.
pub open spec fn first_match_from(files: Seq<FileInfo>, path: Seq<char>, i: int) -> int
    decreases files.len() - i,
{
    if i < 0 || i >= files.len() {
        files.len() as int
    } else if files[i].path@ == path {
        i
    } else {
        first_match_from(files, path, i + 1)
    }
}

/// Index of the first document whose path is exactly `path`, or the number
/// of documents if none matches.
pub open spec fn first_match(files: Seq<FileInfo>, path: Seq<char>) -> int {
    first_match_from(files, path, 0)
}

/// The active index recomputed after closing index `closed` of a registry
/// left with `remaining` documents: strictly past the midpoint of the
/// remaining list the last document is selected, otherwise the first.
pub open spec fn recenter(closed: int, remaining: int) -> int {
    if closed > remaining / 2 {
        remaining - 1
    } else {
        0
    }
}

/// The registry after removing the document at index `i` and recomputing
/// the active index.
pub open spec fn close_at(pre: CoreV, i: int) -> CoreV {
    CoreV {
        content: pre.content,
        files: pre.files.remove(i),
        active_file: recenter(i, pre.files.len() - 1),
        theme: pre.theme,
    }
}

/// The first read answer recorded for `path` by a bulk reload, if any.
pub open spec fn lookup_from(pairs: Seq<(String, String)>, path: Seq<char>, i: int) -> Option<
    String,
>
    decreases pairs.len() - i,
{
    if i < 0 || i >= pairs.len() {
        None
    } else if pairs[i].0@ == path {
        Some(pairs[i].1)
    } else {
        lookup_from(pairs, path, i + 1)
    }
}

/// The read answer for `path`, if any.
pub open spec fn lookup_read(pairs: Seq<(String, String)>, path: Seq<char>) -> Option<String> {
    lookup_from(pairs, path, 0)
}

/// One document after a bulk reload: its content is overwritten with the
/// read answer for its path, if there is one; otherwise it is untouched.
pub open spec fn scanned_file(f: FileInfo, pairs: Seq<(String, String)>) -> FileInfo {
    match lookup_read(pairs, f.path@) {
        Some(c) => FileInfo { path: f.path, content: c, last_mod: f.last_mod },
        None => f,
    }
}

/// Every document after a bulk reload.
pub open spec fn apply_reads(files: Seq<FileInfo>, pairs: Seq<(String, String)>) -> Seq<FileInfo> {
    files.map_values(|f: FileInfo| scanned_file(f, pairs))
}

/// One reduction step of the registry: the state after `ev`, and the
/// effects the step asks for.  The step is pure in-memory: reads and
/// writes leave as I/O requests whose completions re-enter as events.
pub open spec fn step(pre: CoreV, ev: Event) -> (CoreV, Seq<EffectV>) {
    match ev {
        Event::EditorAction(t) => {
            if pre.files.len() == 0 {
                (pre, Seq::empty())
            } else {
                let f = pre.files[pre.active_file];
                (
                CoreV {
                    content: t@,
                    files: pre.files.update(
                        pre.active_file,
                        FileInfo { path: f.path, content: t, last_mod: f.last_mod },
                    ),
                    active_file: pre.active_file,
                    theme: pre.theme,
                },
                Seq::empty(),
                )
            }
        },
        Event::Save => {
            if pre.files.len() == 0 {
                (pre, Seq::empty())
            } else {
                let f = pre.files[pre.active_file];
                (
                pre,
                seq![
                    EffectV::Io(IoRequestV::WriteFile { path: f.path@, content: f.content@ }),
                ],
                )
            }
        },
        Event::OpenFile => (pre, seq![EffectV::Io(IoRequestV::PickOpen)]),
        Event::Opened(opt) => {
            match opt {
                Some(f) => (
                    CoreV {
                        content: pre.content,
                        files: pre.files.push(f),
                        active_file: pre.files.len() as int,
                        theme: pre.theme,
                    },
                    seq![EffectV::Emit(EventV::RefreshEditorContent)],
                ),
                None => (pre, Seq::empty()),
            }
        },
        Event::Quit(opt) => {
            let i: int = match opt {
                Some(k) => k as int,
                None => pre.active_file,
            };
            if pre.files.len() == 0 {
                (pre, seq![EffectV::Emit(EventV::RefreshEditorContent)])
            } else if i >= pre.files.len() {
                (pre, Seq::empty())
            } else {
                (pre, seq![EffectV::Emit(EventV::Quited(pre.files[i].path@))])
            }
        },
        Event::Quited(p) => {
            let i = first_match(pre.files, p@);
            let post = if i < pre.files.len() {
                close_at(pre, i)
            } else {
                pre
            };
            (post, seq![EffectV::Emit(EventV::RefreshEditorContent)])
        },
        Event::RefreshEditorContent => (
            CoreV {
                content: if pre.files.len() > 0 {
                    pre.files[pre.active_file].content@
                } else {
                    Seq::empty()
                },
                files: pre.files,
                active_file: pre.active_file,
                theme: pre.theme,
            },
            Seq::empty(),
        ),
        Event::ScanFile(opt) => {
            match opt {
                Some(p) => (pre, seq![EffectV::Io(IoRequestV::ReadFile { path: p@ })]),
                None => {
                    if pre.files.len() == 0 {
                        (pre, Seq::empty())
                    } else {
                        (
                        pre,
                        seq![
                            EffectV::Io(
                                IoRequestV::ReadFile { path: pre.files[pre.active_file].path@ },
                            ),
                        ],
                        )
                    }
                },
            }
        },
        Event::Scanned(p, c) => {
            let i = first_match(pre.files, p@);
            if i < pre.files.len() {
                let f = pre.files[i];
                (
                CoreV {
                    content: pre.content,
                    files: pre.files.update(
                        i,
                        FileInfo { path: f.path, content: c, last_mod: f.last_mod },
                    ),
                    active_file: pre.active_file,
                    theme: pre.theme,
                },
                if i == pre.active_file {
                    seq![EffectV::Emit(EventV::RefreshEditorContent)]
                } else {
                    Seq::empty()
                },
                )
            } else {
                (pre, Seq::empty())
            }
        },
        Event::ScanAllFiles => (
            pre,
            seq![
                EffectV::Io(
                    IoRequestV::ReadAll { paths: pre.files.map_values(|f: FileInfo| f.path@) },
                ),
            ],
        ),
        Event::ScannedAll(v) => (
            CoreV {
                content: pre.content,
                files: apply_reads(pre.files, v@),
                active_file: pre.active_file,
                theme: pre.theme,
            },
            seq![EffectV::Emit(EventV::RefreshEditorContent)],
        ),
        Event::TabSelected(i) => {
            if (i as int) < pre.files.len() {
                (
                CoreV {
                    content: pre.content,
                    files: pre.files,
                    active_file: i as int,
                    theme: pre.theme,
                },
                seq![EffectV::Emit(EventV::RefreshEditorContent)],
                )
            } else {
                (pre, Seq::empty())
            }
        },
        Event::TabClosed(i) => (pre, seq![EffectV::Emit(EventV::Quit(Some(i)))]),
        Event::NewTab => (pre, seq![EffectV::Emit(EventV::OpenFile)]),
        Event::ThemeChanged(t) => (
            CoreV { content: pre.content, files: pre.files, active_file: pre.active_file, theme: t },
            Seq::empty(),
        ),
        _ => (pre, Seq::empty()),
    }
}

/// The document buffer registry of one pane.
#[derive(Debug, PartialEq)]
pub struct EditorCore {
    /// Mirror of the text shown by the editing surface.
    pub content: String,
    /// The open documents, in tab order.
    pub files: Vec<FileInfo>,
    /// Which document is shown and edited.
    pub active_file: usize,
    /// The highlight palette in use.
    pub theme: HighlightTheme,
}

impl View for EditorCore {
    type V = CoreV;

    open spec fn view(&self) -> CoreV {
        CoreV {
            content: self.content@,
            files: self.files@,
            active_file: self.active_file as int,
            theme: self.theme,
        }
    }
}

/// No effects.
pub(crate) fn no_effects() -> (v: Vec<Effect>)
    ensures
        v.deep_view() == Seq::<EffectV>::empty(),
{
    let v: Vec<Effect> = Vec::new();
    proof {
        assert(v.deep_view() =~= Seq::<EffectV>::empty());
    }
    v
}

/// Exactly one effect.
pub(crate) fn one_effect(e: Effect) -> (v: Vec<Effect>)
    ensures
        v.deep_view() == seq![e@],
{
    let mut v: Vec<Effect> = Vec::new();
    let ghost ev = e@;
    v.push(e);
    proof {
        assert(v.deep_view() =~= seq![ev]);
    }
    v
}

/// Index of the first document whose path equals `path`, or the number of
/// documents if none matches.
fn find_path_index(files: &Vec<FileInfo>, path: &String) -> (i: usize)
    ensures
        i as int == first_match(files@, path@),
        i <= files.len(),
{
    let mut i: usize = 0;
    while i < files.len()
        invariant
            i <= files.len(),
            first_match(files@, path@) == first_match_from(files@, path@, i as int),
        decreases files.len() - i,
    {
        if files[i].path == *path {
            proof {
                assert(first_match_from(files@, path@, i as int) == i as int);
            }
            return i;
        }
        proof {
            assert(first_match_from(files@, path@, i as int) == first_match_from(
                files@,
                path@,
                i as int + 1,
            ));
        }
        i += 1;
    }
    proof {
        assert(first_match_from(files@, path@, i as int) == files@.len() as int);
    }
    i
}

/// The content recorded for `path` among the read answers, if any.
fn find_read(pairs: &Vec<(String, String)>, path: &String) -> (r: Option<String>)
    ensures
        r == lookup_read(pairs@, path@),
{
    let mut i: usize = 0;
    while i < pairs.len()
        invariant
            i <= pairs.len(),
            lookup_read(pairs@, path@) == lookup_from(pairs@, path@, i as int),
        decreases pairs.len() - i,
    {
        if pairs[i].0 == *path {
            proof {
                assert(lookup_from(pairs@, path@, i as int) == Some(pairs@[i as int].1));
            }
            return Some(pairs[i].1.clone());
        }
        proof {
            assert(lookup_from(pairs@, path@, i as int) == lookup_from(
                pairs@,
                path@,
                i as int + 1,
            ));
        }
        i += 1;
    }
    proof {
        assert(lookup_from(pairs@, path@, i as int) is None);
    }
    None
}

impl EditorCore {
    /// Registry invariant, stated over the view.
    pub open spec fn wf(&self) -> bool {
        self@.inv()
    }

    /// An empty registry with an empty editing surface.
    pub fn new() -> (r: EditorCore)
        ensures
            r@ == CoreV::init(),
            r.wf(),
    {
        EditorCore {
            content: String::new(),
            files: Vec::new(),
            active_file: 0,
            theme: HighlightTheme::Base16Ocean,
        }
    }

    /// A registry equal to `t`, document by document.
    pub fn new_from(t: &EditorCore) -> (r: EditorCore)
        ensures
            r@ == t@,
    {
        let mut files: Vec<FileInfo> = Vec::new();
        let mut i: usize = 0;
        while i < t.files.len()
            invariant
                i <= t.files.len(),
                files@ =~= t.files@.subrange(0, i as int),
            decreases t.files.len() - i,
        {
            files.push(t.files[i].duplicate());
            i += 1;
        }
        proof {
            assert(files@ =~= t.files@);
        }
        EditorCore {
            content: t.content.clone(),
            files,
            active_file: t.active_file,
            theme: t.theme,
        }
    }

    /// Overwrite this registry with the state of `other`, document by
    /// document.
    pub fn copy(&mut self, other: &EditorCore)
        ensures
            final(self)@ == other@,
    {
        let fresh = EditorCore::new_from(other);
        *self = fresh;
    }

    /// The text currently shown by the editing surface.
    pub fn get_content(&self) -> (r: String)
        ensures
            r@ == self@.content,
    {
        self.content.clone()
    }

    /// Remove the document at `idx` and recompute the active index per the
    /// re-centering rule; hands back the removed document.
    fn remove_and_recenter(&mut self, idx: usize) -> (f: FileInfo)
        requires
            old(self).wf(),
            idx < old(self).files.len(),
        ensures
            f == old(self)@.files[idx as int],
            final(self)@ == close_at(old(self)@, idx as int),
            final(self).wf(),
    {
        let f = self.files.remove(idx);
        let remaining = self.files.len();
        if idx > remaining / 2 {
            self.active_file = remaining - 1;
        } else {
            self.active_file = 0;
        }
        f
    }

    /// Close the document at `idx`: remove it, recompute the active index,
    /// and hand back its path so the caller can react.  Closing an empty
    /// registry, or an index out of bounds, is a safe no-op.
    pub fn quit_file(&mut self, idx: usize) -> (r: Option<String>)
        requires
            old(self).wf(),
        ensures
            final(self).wf(),
            idx < old(self).files.len() ==> {
                &&& final(self)@ == close_at(old(self)@, idx as int)
                &&& r == Some(old(self)@.files[idx as int].path)
            },
            idx >= old(self).files.len() ==> final(self)@ == old(self)@ && r is None,
    {
        if idx >= self.files.len() {
            return None;
        }
        let f = self.remove_and_recenter(idx);
        Some(f.path)
    }

    /// One reduction step: apply `event` and hand back the effects.
    pub fn update(&mut self, event: &Event) -> (effs: Vec<Effect>)
        requires
            old(self).wf(),
        ensures
            final(self).wf(),
            final(self)@ == step(old(self)@, *event).0,
            effs.deep_view() == step(old(self)@, *event).1,
    {
        match event {
            Event::EditorAction(t) => {
                if self.files.len() == 0 {
                    no_effects()
                } else {
                    let j = self.active_file;
                    let fpath = self.files[j].path.clone();
                    let flm = self.files[j].last_mod;
                    self.content = t.clone();
                    self.files.set(j, FileInfo { path: fpath, content: t.clone(), last_mod: flm });
                    no_effects()
                }
            },
            Event::Save => {
                if self.files.len() == 0 {
                    no_effects()
                } else {
                    let j = self.active_file;
                    one_effect(
                        Effect::Io(
                            IoRequest::WriteFile {
                                path: self.files[j].path.clone(),
                                content: self.files[j].content.clone(),
                            },
                        ),
                    )
                }
            },
            Event::OpenFile => one_effect(Effect::Io(IoRequest::PickOpen)),
            Event::Opened(opt) => {
                match opt {
                    Some(f) => {
                        self.files.push(f.duplicate());
                        self.active_file = self.files.len() - 1;
                        one_effect(Effect::Emit(Event::RefreshEditorContent))
                    },
                    None => no_effects(),
                }
            },
            Event::Quit(opt) => {
                let i = match opt {
                    Some(k) => *k,
                    None => self.active_file,
                };
                if self.files.len() == 0 {
                    one_effect(Effect::Emit(Event::RefreshEditorContent))
                } else if i >= self.files.len() {
                    no_effects()
                } else {
                    one_effect(Effect::Emit(Event::Quited(self.files[i].path.clone())))
                }
            },
            Event::Quited(p) => {
                let i = find_path_index(&self.files, p);
                if i < self.files.len() {
                    let _ = self.remove_and_recenter(i);
                }
                one_effect(Effect::Emit(Event::RefreshEditorContent))
            },
            Event::RefreshEditorContent => {
                if self.files.len() > 0 {
                    let j = self.active_file;
                    self.content = self.files[j].content.clone();
                } else {
                    self.content = String::new();
                }
                no_effects()
            },
            Event::ScanFile(opt) => {
                match opt {
                    Some(p) => one_effect(Effect::Io(IoRequest::ReadFile { path: p.clone() })),
                    None => {
                        if self.files.len() == 0 {
                            no_effects()
                        } else {
                            let j = self.active_file;
                            one_effect(
                                Effect::Io(
                                    IoRequest::ReadFile { path: self.files[j].path.clone() },
                                ),
                            )
                        }
                    },
                }
            },
            Event::Scanned(p, c) => {
                let i = find_path_index(&self.files, p);
                if i < self.files.len() {
                    let fpath = self.files[i].path.clone();
                    let flm = self.files[i].last_mod;
                    self.files.set(
                        i,
                        FileInfo { path: fpath, content: c.clone(), last_mod: flm },
                    );
                    if i == self.active_file {
                        one_effect(Effect::Emit(Event::RefreshEditorContent))
                    } else {
                        no_effects()
                    }
                } else {
                    no_effects()
                }
            },
            Event::ScanAllFiles => {
                let mut paths: Vec<String> = Vec::new();
                let mut k: usize = 0;
                while k < self.files.len()
                    invariant
                        k <= self.files.len(),
                        paths@.len() == k as int,
                        forall|j: int| 0 <= j < k ==> paths@[j] == self.files@[j].path,
                    decreases self.files.len() - k,
                {
                    paths.push(self.files[k].path.clone());
                    k += 1;
                }
                proof {
                    assert(paths.deep_view() =~= self@.files.map_values(|f: FileInfo| f.path@));
                }
                one_effect(Effect::Io(IoRequest::ReadAll { paths }))
            },
            Event::ScannedAll(v) => {
                let ghost pre_files = self.files@;
                let mut j: usize = 0;
                while j < self.files.len()
                    invariant
                        old(self).wf(),
                        j <= self.files.len(),
                        self.files@.len() == pre_files.len(),
                        self.content@ == old(self)@.content,
                        self.active_file == old(self).active_file,
                        self.theme == old(self).theme,
                        forall|k: int|
                            0 <= k < j ==> self.files@[k] == scanned_file(pre_files[k], v@),
                        forall|k: int| j <= k < pre_files.len() ==> self.files@[k] == pre_files[k],
                    decreases self.files.len() - j,
                {
                    let fpath = self.files[j].path.clone();
                    match find_read(v, &fpath) {
                        Some(c) => {
                            let flm = self.files[j].last_mod;
                            self.files.set(
                                j,
                                FileInfo { path: fpath, content: c, last_mod: flm },
                            );
                        },
                        None => {},
                    }
                    j += 1;
                }
                proof {
                    assert(self.files@ =~= apply_reads(pre_files, v@));
                }
                one_effect(Effect::Emit(Event::RefreshEditorContent))
            },
            Event::TabSelected(i) => {
                if *i < self.files.len() {
                    self.active_file = *i;
                    one_effect(Effect::Emit(Event::RefreshEditorContent))
                } else {
                    no_effects()
                }
            },
            Event::TabClosed(i) => one_effect(Effect::Emit(Event::Quit(Some(*i)))),
            Event::NewTab => one_effect(Effect::Emit(Event::OpenFile)),
            Event::ThemeChanged(t) => {
                self.theme = *t;
                no_effects()
            },
            _ => no_effects(),
        }
    }
}

/// Closing any document of a valid registry leaves a valid registry: after
/// the re-centering rule the active index is in bounds, or the registry is
/// empty and the index is pinned at zero.
pub proof fn lemma_close_keeps_active_valid(pre: CoreV, i: int)
    requires
        pre.inv(),
        0 <= i < pre.files.len(),
    ensures
        close_at(pre, i).inv(),
{
}

/// Immediately after every open, the newly opened document is the active
/// one: the active index equals the number of documents minus one.
pub proof fn lemma_open_sets_active_last(pre: CoreV, f: FileInfo)
    requires
        pre.inv(),
    ensures
        ({
            let post = step(pre, Event::Opened(Some(f))).0;
            &&& post.files.len() == pre.files.len() + 1
            &&& post.active_file == post.files.len() - 1
            &&& post.inv()
        }),
{
}

/// Every reduction step preserves the registry invariant.
pub proof fn lemma_step_preserves_inv(pre: CoreV, ev: Event)
    requires
        pre.inv(),
    ensures
        step(pre, ev).0.inv(),
{
    match ev {
        Event::Quited(p) => {
            let i = first_match(pre.files, p@);
            lemma_first_match_in_range(pre.files, p@);
            if i < pre.files.len() {
                lemma_close_keeps_active_valid(pre, i);
            }
        },
        Event::ScannedAll(v) => {
            assert(apply_reads(pre.files, v@).len() == pre.files.len());
        },
        Event::Scanned(p, c) => {
            lemma_first_match_in_range(pre.files, p@);
        },
        _ => {},
    }
}

/// `first_match` stays within `0 .. files.len()`.
pub proof fn lemma_first_match_in_range(files: Seq<FileInfo>, path: Seq<char>)
    ensures
        0 <= first_match(files, path) <= files.len(),
{
    lemma_first_match_from_in_range(files, path, 0);
}

proof fn lemma_first_match_from_in_range(files: Seq<FileInfo>, path: Seq<char>, i: int)
    requires
        0 <= i <= files.len(),
    ensures
        i <= first_match_from(files, path, i) <= files.len(),
    decreases files.len() - i,
{
    if i < files.len() && files[i].path@ != path {
        lemma_first_match_from_in_range(files, path, i + 1);
    }
}

/// Reloading every document twice from the same disk snapshot leaves the
/// registry exactly as one reload does: a reload never changes a document's
/// path, so the second pass overwrites each content with the same text.
pub proof fn lemma_reload_all_idempotent(files: Seq<FileInfo>, pairs: Seq<(String, String)>)
    ensures
        apply_reads(apply_reads(files, pairs), pairs) == apply_reads(files, pairs),
{
    let once = apply_reads(files, pairs);
    assert forall|i: int| 0 <= i < once.len() implies scanned_file(once[i], pairs) == once[i] by {
        assert(once[i] == scanned_file(files[i], pairs));
        assert(once[i].path == files[i].path);
    }
    assert(apply_reads(once, pairs) =~= once);
}

} // verus!
