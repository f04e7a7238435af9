//! What keys and pointer buttons do to the state of the wall.

use crate::dates::FileTimes;
use crate::edit::clamped;
use crate::library::{is_view, Query};
use crate::manifest::{existing, gather_from_json};
use crate::media::{
    gather_from_files, gather_sources, gathered, is_library_of, path_key, paths_view, rank_of_path,
    sources_view, Kind, OpenKind, Source, SourceView,
};
use crate::order::same_ranks;
use crate::paths::{parent, parent_bytes, path_bytes, path_view};
use crate::pool::empty_pool;
use crate::state::{
    back_effects, has_char, removed_fields, typed_fields, Effect, Fields, FieldsView, Flags,
    Lightbox, State,
};
use crate::video::Command;
use crate::wall::{countable_tiles, no_gifs};
use std::path::PathBuf;
use vstd::prelude::*;

verus! {

/// A key that edits a text field.
#[derive(Clone, Copy, PartialEq, Eq, Structural, Debug)]
pub enum EditKey {
    Backspace,
    Delete,
    Left,
    Right,
    Home,
    End,
    /// Enter or Escape: leave the field.
    Done,
    /// Any other key; what it types counts.
    Other,
}

/// A key of the wall and the lightbox.
#[derive(Clone, Copy, PartialEq, Eq, Structural, Debug)]
pub enum Key {
    Left,
    Right,
    Up,
    Down,
    O,
    I,
    F,
    Space,
    A,
    S,
    Escape,
}

/// The open item next to another one: `dir` further, but not beyond the ends.
pub open spec fn stepped(focus: Option<usize>, dir: int, total: nat) -> Option<usize> {
    match focus {
        Some(f) => if total > 0 {
            let to = f + dir;
            if to < 0 {
                Some(0)
            } else if to > total - 1 {
                Some((total - 1) as usize)
            } else {
                Some(to as usize)
            }
        } else {
            focus
        },
        None => None,
    }
}

impl State {
    /// Only the flags may differ.
    pub open spec fn same_but_flags(self, other: State) -> bool {
        self.fields == other.fields && self.lightbox == other.lightbox && self.wall == other.wall
    }

    /// Whether a fullscreen toggle was asked for since the last time.
    pub fn take_fullscreen_request(&mut self) -> (asked: bool)
        requires
            old(self).wf(),
        ensures
            asked == old(self).flags.fullscreen_requested,
            final(self).flags == (Flags { fullscreen_requested: false, ..old(self).flags }),
            final(self).same_but_flags(*old(self)),
            final(self).wf(),
    {
        let asked: bool = self.flags.fullscreen_requested;
        self.flags.fullscreen_requested = false;
        asked
    }

    /// Which picker was asked for since the last time.
    pub fn take_open_request(&mut self) -> (asked: Option<OpenKind>)
        requires
            old(self).wf(),
        ensures
            asked == old(self).flags.open_request,
            final(self).flags == (Flags { open_request: None, ..old(self).flags }),
            final(self).same_but_flags(*old(self)),
            final(self).wf(),
    {
        let asked: Option<OpenKind> = self.flags.open_request;
        self.flags.open_request = None;
        asked
    }

    /// Whether the query has changed since the last time.
    pub fn take_view_dirty(&mut self) -> (dirty: bool)
        requires
            old(self).wf(),
        ensures
            dirty == old(self).flags.view_dirty,
            final(self).flags == (Flags { view_dirty: false, ..old(self).flags }),
            final(self).same_but_flags(*old(self)),
            final(self).wf(),
    {
        let dirty: bool = self.flags.view_dirty;
        self.flags.view_dirty = false;
        dirty
    }

    /// Shows or hides the info card.
    pub fn toggle_info(&mut self)
        requires
            old(self).wf(),
        ensures
            final(self).flags == (Flags {
                show_info: !old(self).flags.show_info,
                ..old(self).flags
            }),
            final(self).same_but_flags(*old(self)),
            final(self).wf(),
    {
        self.flags.show_info = !self.flags.show_info;
    }

    /// Closes the open menu or dialog.
    pub fn close_menu(&mut self)
        requires
            old(self).wf(),
        ensures
            final(self).flags == (Flags { open_menu: None, ..old(self).flags }),
            final(self).fields@ == (FieldsView { date_active: 0, ..old(self).fields@ }),
            final(self).lightbox == old(self).lightbox,
            final(self).wall == old(self).wall,
            final(self).wf(),
    {
        self.flags.open_menu = None;
        self.fields.date_active = 0;
    }

    /// Marks that a library is being picked or scanned. A new scan has found nothing yet.
    pub fn set_scanning(&mut self, scanning: bool)
        requires
            old(self).wf(),
        ensures
            final(self).flags == (Flags {
                scanning,
                scan_count: if scanning {
                    0
                } else {
                    old(self).flags.scan_count
                },
                ..old(self).flags
            }),
            final(self).same_but_flags(*old(self)),
            final(self).wf(),
    {
        self.flags.scanning = scanning;
        if scanning {
            self.flags.scan_count = 0;
        }
    }

    /// Notes how many files the scan has found.
    pub fn set_scan_count(&mut self, n: usize)
        requires
            old(self).wf(),
        ensures
            final(self).flags == (Flags { scan_count: n, ..old(self).flags }),
            final(self).same_but_flags(*old(self)),
            final(self).wf(),
    {
        self.flags.scan_count = n;
    }

    /// The folder of the library.
    pub fn current_folder(&self) -> (folder: Option<&PathBuf>)
        ensures
            match folder {
                Some(p) => self.wall.folder == Some(*p),
                None => self.wall.folder is None,
            },
    {
        match &self.wall.folder {
            Some(p) => Some(p),
            None => None,
        }
    }

    /// Whether an item is open.
    pub fn is_focused(&self) -> (yes: bool)
        ensures
            yes == (self.lightbox.focus is Some),
    {
        self.lightbox.focus.is_some()
    }

    /// The open item is a video.
    pub open spec fn video_is_open(self) -> bool {
        self.lightbox.focus matches Some(f) && self.wall.is_kind(f as int, Kind::Video)
    }

    /// Whether the open item is a video. Music plays too, but shows its cover like a photo.
    pub fn focused_is_video(&self) -> (yes: bool)
        requires
            self.wf(),
        ensures
            yes == self.video_is_open(),
    {
        match self.lightbox.focus {
            Some(f) => self.wall.is_video(f),
            None => false,
        }
    }

    /// Whether a text field takes what is typed.
    pub fn input_active(&self) -> (yes: bool)
        ensures
            yes == self.fields@.active(),
    {
        self.fields.search_active || self.fields.date_active != 0
    }

    pub(crate) fn neighbour(&self, dir: i64) -> (to: Option<usize>)
        requires
            self.wf(),
            self.lightbox.focus matches Some(f) ==> f + dir <= i64::MAX,
        ensures
            to == stepped(self.lightbox.focus, dir as int, self.wall.shown@.len()),
    {
        match self.lightbox.focus {
            Some(f) => {
                let last: i64 = self.wall.shown.len() as i64 - 1;
                let to: i64 = f as i64 + dir;
                if to < 0 {
                    Some(0)
                } else if to > last {
                    Some(last as usize)
                } else {
                    Some(to as usize)
                }
            },
            None => None,
        }
    }

    /// Opens the item `dir` further, but not beyond the ends.
    pub fn navigate(&mut self, dir: i64) -> (effects: Vec<Effect>)
        requires
            old(self).wf(),
            old(self).lightbox.focus matches Some(f) ==> f + dir <= i64::MAX,
        ensures
            final(self).wf(),
            final(self).lightbox == (Lightbox {
                focus: stepped(
                    old(self).lightbox.focus,
                    dir as int,
                    old(self).wall.shown@.len(),
                ),
                ..old(self).lightbox
            }),
            final(self).flags == old(self).flags,
            final(self).fields == old(self).fields,
            final(self).wall == old(self).wall,
            effects@ == if old(self).lightbox.focus is Some {
                seq![Effect::ResetLightbox]
            } else {
                seq![]
            },
    {
        let mut effects: Vec<Effect> = Vec::new();
        if self.is_focused() {
            effects.push(Effect::ResetLightbox);
            assert(effects@ =~= seq![Effect::ResetLightbox]);
        }
        self.lightbox = Lightbox { focus: self.neighbour(dir), ..self.lightbox };
        effects
    }

    /// Closes the open item; the wall is left on its column.
    pub fn back(&mut self) -> (effects: Vec<Effect>)
        requires
            old(self).wf(),
        ensures
            final(self).wf(),
            final(self).lightbox == (Lightbox { focus: None, ..old(self).lightbox }),
            final(self).flags == old(self).flags,
            final(self).fields == old(self).fields,
            final(self).wall == old(self).wall,
            effects@ == back_effects(old(self).lightbox.focus),
    {
        let mut effects: Vec<Effect> = Vec::new();
        match self.lightbox.focus {
            Some(f) => {
                effects.push(Effect::Recenter(f / 3));
                assert(effects@ =~= back_effects(self.lightbox.focus));
            },
            None => {},
        }
        self.lightbox.focus = None;
        effects
    }

    /// Scrolls the wall while an arrow key is held: -1 left, 1 right, 0 released.
    pub fn set_dir(&mut self, dir: i8) -> (effects: Vec<Effect>)
        requires
            old(self).wf(),
        ensures
            final(self).wf(),
            final(self).flags == (Flags { input_dir: dir, ..old(self).flags }),
            final(self).same_but_flags(*old(self)),
            effects@ == if dir != 0 {
                seq![Effect::DropScrollTarget]
            } else {
                seq![]
            },
    {
        let mut effects: Vec<Effect> = Vec::new();
        self.flags.input_dir = dir;
        if dir != 0 {
            effects.push(Effect::DropScrollTarget);
            assert(effects@ =~= seq![Effect::DropScrollTarget]);
        }
        effects
    }
}

/// The fields after a key that edits them. `text` is what the key types.
pub open spec fn edited_fields(f: FieldsView, key: EditKey, text: Option<Seq<char>>) -> FieldsView {
    match key {
        EditKey::Backspace => if has_char(f, f.caret - 1) {
            FieldsView { caret: (f.caret - 1) as usize, ..removed_fields(f, f.caret - 1) }
        } else {
            f
        },
        EditKey::Delete => removed_fields(f, f.caret as int),
        EditKey::Left => FieldsView {
            caret: (if f.caret > 0 {
                f.caret - 1
            } else {
                0
            }) as usize,
            ..f
        },
        EditKey::Right => FieldsView {
            caret: clamped(f.caret + 1, f.active_len() as int) as usize,
            ..f
        },
        EditKey::Home => FieldsView { caret: 0, ..f },
        EditKey::End => FieldsView { caret: f.active_len() as usize, ..f },
        EditKey::Done => FieldsView { search_active: false, date_active: 0, ..f },
        EditKey::Other => match text {
            Some(t) => typed_fields(f, t),
            None => f,
        },
    }
}

/// Whether a key edits the field that takes what is typed.
pub open spec fn edits(f: FieldsView, key: EditKey, text: Option<Seq<char>>) -> bool {
    match key {
        EditKey::Backspace => has_char(f, f.caret - 1),
        EditKey::Delete => has_char(f, f.caret as int),
        EditKey::Other => text is Some && f.target() is Some,
        _ => false,
    }
}

/// The flags after a key that edits the fields: an edit asks for a new view, and typing counts as
/// activity.
pub open spec fn edited_flags(
    g: Flags,
    f: FieldsView,
    key: EditKey,
    text: Option<Seq<char>>,
    now: u64,
) -> Flags {
    Flags {
        view_dirty: g.view_dirty || edits(f, key, text),
        last_activity: if key is Other && edits(f, key, text) {
            now
        } else {
            g.last_activity
        },
        ..g
    }
}

/// An optional text.
pub open spec fn typed_view(text: Option<&str>) -> Option<Seq<char>> {
    match text {
        Some(t) => Some(t@),
        None => None,
    }
}

impl Fields {
    fn edit(&mut self, key: EditKey, text: Option<&str>) -> (edited: bool)
        requires
            old(self)@.wf(),
            text matches Some(t) ==> old(self)@.active_len() + t@.len() <= usize::MAX,
        ensures
            final(self)@.wf(),
            final(self)@ == edited_fields(old(self)@, key, typed_view(text)),
            edited == edits(old(self)@, key, typed_view(text)),
    {
        match key {
            EditKey::Backspace => {
                if self.caret == 0 {
                    return false;
                }
                let at: usize = self.caret - 1;
                let removed: bool = self.remove_char(at);
                if removed {
                    self.caret = at;
                }
                removed
            },
            EditKey::Delete => self.remove_char(self.caret),
            EditKey::Left => {
                if self.caret > 0 {
                    self.caret = self.caret - 1;
                }
                false
            },
            EditKey::Right => {
                let len: usize = self.active_len();
                self.caret = if self.caret < len {
                    self.caret + 1
                } else {
                    len
                };
                false
            },
            EditKey::Home => {
                self.caret = 0;
                false
            },
            EditKey::End => {
                self.caret = self.active_len();
                false
            },
            EditKey::Done => {
                self.search_active = false;
                self.date_active = 0;
                false
            },
            EditKey::Other => match text {
                Some(t) => self.type_text(t),
                None => false,
            },
        }
    }
}

/// Which way an arrow key points.
pub open spec fn key_dir(key: Key) -> int {
    if key is Right {
        1
    } else {
        -1
    }
}

/// Whether a key is an arrow that scrolls or steps.
pub open spec fn steps(key: Key) -> bool {
    key is Left || key is Right
}

/// The open item after a key.
pub open spec fn keyed_focus(s: State, key: Key, pressed: bool) -> Option<usize> {
    if !pressed {
        s.lightbox.focus
    } else if steps(key) && !s.video_is_open() {
        stepped(s.lightbox.focus, key_dir(key), s.wall.shown@.len())
    } else if key is Escape {
        None
    } else {
        s.lightbox.focus
    }
}

/// Which way the wall scrolls after a key.
pub open spec fn keyed_dir(s: State, key: Key, pressed: bool) -> i8 {
    if steps(key) && s.lightbox.focus is None {
        if pressed {
            key_dir(key) as i8
        } else {
            0
        }
    } else {
        s.flags.input_dir
    }
}

/// The flags after a key.
pub open spec fn keyed_flags(s: State, key: Key, pressed: bool) -> Flags {
    let scans = key is O && pressed;
    Flags {
        input_dir: keyed_dir(s, key, pressed),
        scanning: s.flags.scanning || scans,
        scan_count: if scans {
            0
        } else {
            s.flags.scan_count
        },
        show_info: s.flags.show_info != (key is I && pressed),
        ..s.flags
    }
}

/// What is left to do after a key. The arrows seek in an open video, step from one open picture
/// to the next, and scroll the wall; Escape leaves what is open, then fullscreen, then the
/// program.
pub open spec fn keyed_effects(
    s: State,
    key: Key,
    pressed: bool,
    fullscreen: bool,
) -> Seq<Effect> {
    if !pressed {
        seq![]
    } else {
        match key {
            Key::Left | Key::Right => if s.video_is_open() {
                seq![Effect::Player(Command::Seek((10 * key_dir(key)) as i32))]
            } else if s.lightbox.focus is Some {
                seq![Effect::ResetLightbox]
            } else {
                seq![Effect::DropScrollTarget]
            },
            Key::Up => seq![Effect::Player(Command::AddVolume(5))],
            Key::Down => seq![Effect::Player(Command::AddVolume(-5i32))],
            Key::O => seq![Effect::PickFolder],
            Key::I => seq![],
            Key::F => seq![Effect::ToggleFullscreen],
            Key::Space => seq![Effect::Player(Command::CyclePause)],
            Key::A => seq![Effect::Player(Command::CycleAudio)],
            Key::S => seq![Effect::Player(Command::CycleSubs)],
            Key::Escape => if s.lightbox.focus is Some {
                back_effects(s.lightbox.focus)
            } else if fullscreen {
                seq![Effect::LeaveFullscreen]
            } else {
                seq![Effect::Quit]
            },
        }
    }
}

/// What is left to do after a press: the picker that was asked for, and then fullscreen.
pub open spec fn asked_effects(g: Flags) -> Seq<Effect> {
    (match g.open_request {
        Some(OpenKind::Files) => seq![Effect::PickFiles],
        Some(OpenKind::Folder) => seq![Effect::PickFolder],
        Some(OpenKind::Json) => seq![Effect::PickJson],
        None => seq![],
    }) + if g.fullscreen_requested {
        seq![Effect::ToggleFullscreen]
    } else {
        seq![]
    }
}

/// The flags once the requests were handed out: a picker that opens is a scan that begins.
pub open spec fn asked_flags(g: Flags) -> Flags {
    Flags {
        open_request: None,
        fullscreen_requested: false,
        scanning: g.scanning || g.open_request is Some,
        scan_count: if g.open_request is Some {
            0
        } else {
            g.scan_count
        },
        ..g
    }
}

/// The folder that a dropped path stands for.
pub open spec fn dropped_folder(path: Seq<u8>, is_dir: bool) -> Option<Seq<u8>> {
    if is_dir {
        Some(path)
    } else {
        parent_bytes(path)
    }
}

/// Two paths have the same components.
pub open spec fn same_path(a: Seq<u8>, b: Seq<u8>) -> bool {
    rank_of_path(a) == rank_of_path(b)
}

impl State {
    /// What a key that edits the fields leaves behind.
    pub open spec fn edited_from(
        self,
        before: State,
        key: EditKey,
        text: Option<Seq<char>>,
        now: u64,
    ) -> bool {
        &&& self.fields@ == edited_fields(before.fields@, key, text)
        &&& self.flags == edited_flags(before.flags, before.fields@, key, text, now)
        &&& self.lightbox == before.lightbox
        &&& self.wall == before.wall
    }

    /// A key while a text field takes what is typed. `text` is what the key types.
    pub fn edit_key(&mut self, key: EditKey, text: Option<&str>, now: u64)
        requires
            old(self).wf(),
            text matches Some(t) ==> old(self).fields@.active_len() + t@.len() <= usize::MAX,
        ensures
            final(self).wf(),
            final(self).edited_from(*old(self), key, typed_view(text), now),
    {
        let edited: bool = self.fields.edit(key, text);
        self.flags = Flags {
            view_dirty: self.flags.view_dirty || edited,
            last_activity: if key == EditKey::Other && edited {
                now
            } else {
                self.flags.last_activity
            },
            ..self.flags
        };
    }

    /// Puts typed text into the field that takes it.
    pub fn input_char(&mut self, ch: &str, now: u64)
        requires
            old(self).wf(),
            old(self).fields@.active_len() + ch@.len() <= usize::MAX,
        ensures
            final(self).wf(),
            final(self).edited_from(*old(self), EditKey::Other, Some(ch@), now),
    {
        self.edit_key(EditKey::Other, Some(ch), now);
    }

    /// Removes the character before the caret.
    pub fn backspace(&mut self)
        requires
            old(self).wf(),
        ensures
            final(self).wf(),
            final(self).edited_from(*old(self), EditKey::Backspace, None, 0),
    {
        self.edit_key(EditKey::Backspace, None, 0);
    }

    /// Removes the character behind the caret.
    pub fn delete_forward(&mut self)
        requires
            old(self).wf(),
        ensures
            final(self).wf(),
            final(self).edited_from(*old(self), EditKey::Delete, None, 0),
    {
        self.edit_key(EditKey::Delete, None, 0);
    }

    /// Moves the caret one character to the left.
    pub fn caret_left(&mut self)
        requires
            old(self).wf(),
        ensures
            final(self).wf(),
            final(self).edited_from(*old(self), EditKey::Left, None, 0),
    {
        self.edit_key(EditKey::Left, None, 0);
    }

    /// Moves the caret one character to the right, but not beyond the end of the field.
    pub fn caret_right(&mut self)
        requires
            old(self).wf(),
        ensures
            final(self).wf(),
            final(self).edited_from(*old(self), EditKey::Right, None, 0),
    {
        self.edit_key(EditKey::Right, None, 0);
    }

    /// Moves the caret to the start of the field.
    pub fn caret_home(&mut self)
        requires
            old(self).wf(),
        ensures
            final(self).wf(),
            final(self).edited_from(*old(self), EditKey::Home, None, 0),
    {
        self.edit_key(EditKey::Home, None, 0);
    }

    /// Moves the caret to the end of the field.
    pub fn caret_end(&mut self)
        requires
            old(self).wf(),
        ensures
            final(self).wf(),
            final(self).edited_from(*old(self), EditKey::End, None, 0),
    {
        self.edit_key(EditKey::End, None, 0);
    }

    /// Leaves the text field.
    pub fn input_done(&mut self)
        requires
            old(self).wf(),
        ensures
            final(self).wf(),
            final(self).edited_from(*old(self), EditKey::Done, None, 0),
    {
        self.edit_key(EditKey::Done, None, 0);
    }

    fn key_effects(&self, key: Key, fullscreen: bool) -> (effects: Vec<Effect>)
        requires
            self.wf(),
        ensures
            effects@ == keyed_effects(*self, key, true, fullscreen),
    {
        let video: bool = self.focused_is_video();
        let effect: Effect = match key {
            Key::Left => if video {
                Effect::Player(Command::Seek(-10))
            } else if self.is_focused() {
                Effect::ResetLightbox
            } else {
                Effect::DropScrollTarget
            },
            Key::Right => if video {
                Effect::Player(Command::Seek(10))
            } else if self.is_focused() {
                Effect::ResetLightbox
            } else {
                Effect::DropScrollTarget
            },
            Key::Up => Effect::Player(Command::AddVolume(5)),
            Key::Down => Effect::Player(Command::AddVolume(-5)),
            Key::O => Effect::PickFolder,
            Key::I => {
                return Vec::new();
            },
            Key::F => Effect::ToggleFullscreen,
            Key::Space => Effect::Player(Command::CyclePause),
            Key::A => Effect::Player(Command::CycleAudio),
            Key::S => Effect::Player(Command::CycleSubs),
            Key::Escape => match self.lightbox.focus {
                Some(f) => Effect::Recenter(f / 3),
                None => if fullscreen {
                    Effect::LeaveFullscreen
                } else {
                    Effect::Quit
                },
            },
        };
        let effects: Vec<Effect> = vec![effect];
        assert(effects@ =~= keyed_effects(*self, key, true, fullscreen));
        effects
    }

    fn key_focus(&self, key: Key, pressed: bool) -> (focus: Option<usize>)
        requires
            self.wf(),
        ensures
            focus == keyed_focus(*self, key, pressed),
            focus matches Some(f) ==> f < self.wall.shown@.len(),
    {
        if !pressed {
            self.lightbox.focus
        } else if key == Key::Right && !self.focused_is_video() {
            self.neighbour(1)
        } else if key == Key::Left && !self.focused_is_video() {
            self.neighbour(-1)
        } else if key == Key::Escape {
            None
        } else {
            self.lightbox.focus
        }
    }

    fn key_flags(&self, key: Key, pressed: bool) -> (flags: Flags)
        ensures
            flags == keyed_flags(*self, key, pressed),
    {
        let scans: bool = key == Key::O && pressed;
        let scan_count: usize = if scans {
            0
        } else {
            self.flags.scan_count
        };
        let show_info: bool = self.flags.show_info != (key == Key::I && pressed);
        let arrow: bool = key == Key::Left || key == Key::Right;
        let input_dir: i8 = if arrow && !self.is_focused() {
            if !pressed {
                0
            } else if key == Key::Right {
                1
            } else {
                -1
            }
        } else {
            self.flags.input_dir
        };
        assert(input_dir == keyed_dir(*self, key, pressed));
        Flags {
            input_dir,
            scanning: self.flags.scanning || scans,
            scan_count,
            show_info,
            ..self.flags
        }
    }

    /// A key of the wall or the lightbox. Returns what is left to do.
    pub fn press_key(&mut self, key: Key, pressed: bool, fullscreen: bool) -> (effects: Vec<Effect>)
        requires
            old(self).wf(),
        ensures
            final(self).wf(),
            final(self).flags == keyed_flags(*old(self), key, pressed),
            final(self).lightbox == (Lightbox {
                focus: keyed_focus(*old(self), key, pressed),
                ..old(self).lightbox
            }),
            final(self).fields == old(self).fields,
            final(self).wall == old(self).wall,
            effects@ == keyed_effects(*old(self), key, pressed, fullscreen),
    {
        let effects: Vec<Effect> = if pressed {
            self.key_effects(key, fullscreen)
        } else {
            Vec::new()
        };
        let focus: Option<usize> = self.key_focus(key, pressed);
        self.flags = self.key_flags(key, pressed);
        self.lightbox = Lightbox { focus, ..self.lightbox };
        effects
    }

    /// What a press has asked for. The requests are taken, and an asked picker counts as a scan.
    pub fn take_requests(&mut self) -> (effects: Vec<Effect>)
        requires
            old(self).wf(),
        ensures
            final(self).wf(),
            effects@ == asked_effects(old(self).flags),
            final(self).flags == asked_flags(old(self).flags),
            final(self).same_but_flags(*old(self)),
    {
        let asked: Option<OpenKind> = self.flags.open_request;
        let mut effects: Vec<Effect> = Vec::new();
        match asked {
            Some(kind) => {
                effects.push(
                    match kind {
                        OpenKind::Files => Effect::PickFiles,
                        OpenKind::Folder => Effect::PickFolder,
                        OpenKind::Json => Effect::PickJson,
                    },
                );
            },
            None => {},
        }
        if self.flags.fullscreen_requested {
            effects.push(Effect::ToggleFullscreen);
        }
        assert(effects@ =~= asked_effects(self.flags));
        self.flags = Flags {
            open_request: None,
            fullscreen_requested: false,
            scanning: self.flags.scanning || asked.is_some(),
            scan_count: if asked.is_some() {
                0
            } else {
                self.flags.scan_count
            },
            ..self.flags
        };
        effects
    }

    /// A path was dropped on the window. Returns the folder to scan: the path itself, or the
    /// folder that it is in, unless that is the loaded one.
    pub fn drop_path(&mut self, path: PathBuf, is_dir: bool) -> (scan: Option<PathBuf>)
        requires
            old(self).wf(),
        ensures
            final(self).wf(),
            path_view(scan) == match dropped_folder(path_bytes(path), is_dir) {
                Some(folder) => if old(self).wall.folder matches Some(now) && same_path(
                    path_bytes(now),
                    folder,
                ) {
                    None
                } else {
                    Some(folder)
                },
                None => None,
            },
            final(self).flags == (Flags {
                open_menu: None,
                scanning: old(self).flags.scanning || scan is Some,
                scan_count: if scan is Some {
                    0
                } else {
                    old(self).flags.scan_count
                },
                ..old(self).flags
            }),
            final(self).fields@ == (FieldsView { date_active: 0, ..old(self).fields@ }),
            final(self).lightbox == old(self).lightbox,
            final(self).wall == old(self).wall,
    {
        self.close_menu();
        let folder: Option<PathBuf> = if is_dir {
            Some(path)
        } else {
            parent(&path)
        };
        match folder {
            Some(f) => {
                let loaded: bool = match self.current_folder() {
                    Some(now) => same_ranks(&path_key(now).ranks, &path_key(&f).ranks),
                    None => false,
                };
                if loaded {
                    return None;
                }
                self.set_scanning(true);
                Some(f)
            },
            None => None,
        }
    }
}

/// What a picker or a scan reports.
pub enum LoadMsg {
    /// A library, and the folder that it is of.
    Library(PathBuf, Vec<Source>),
    /// So many media files were found so far.
    ScanProgress(usize),
    /// Nothing was picked.
    Cancelled,
}

/// What a report says.
pub enum LoadView {
    Library(Seq<u8>, Seq<SourceView>),
    ScanProgress(usize),
    Cancelled,
}

impl View for LoadMsg {
    type V = LoadView;

    open spec fn view(&self) -> LoadView {
        match *self {
            LoadMsg::Library(p, sources) => LoadView::Library(
                path_bytes(p),
                sources_view(sources@),
            ),
            LoadMsg::ScanProgress(n) => LoadView::ScanProgress(n),
            LoadMsg::Cancelled => LoadView::Cancelled,
        }
    }
}

/// The folder that a file is in; a path without one stands for itself.
pub open spec fn folder_of(path: Seq<u8>) -> Seq<u8> {
    match parent_bytes(path) {
        Some(up) => up,
        None => path,
    }
}

fn containing(path: &PathBuf) -> (folder: PathBuf)
    ensures
        path_bytes(folder) == folder_of(path_bytes(*path)),
{
    match parent(path) {
        Some(up) => up,
        None => path.clone(),
    }
}

/// What becomes of media from `path`: their library, where there are any.
pub open spec fn loaded_from(path: Seq<u8>, sources: Seq<SourceView>) -> LoadView {
    if sources.len() == 0 {
        LoadView::Cancelled
    } else {
        LoadView::Library(folder_of(path), sources)
    }
}

/// What becomes of picked files: the media among them, as a library of the folder that the first
/// one is in.
pub fn picked_files(files: Option<Vec<PathBuf>>) -> (msg: LoadMsg)
    ensures
        msg@ == match files {
            Some(files) => if files@.len() == 0 {
                LoadView::Cancelled
            } else {
                loaded_from(path_bytes(files@[0]), gathered(paths_view(files@)))
            },
            None => LoadView::Cancelled,
        },
{
    match files {
        Some(files) => {
            if files.len() == 0 {
                return LoadMsg::Cancelled;
            }
            let folder = containing(&files[0]);
            let sources = gather_from_files(files);
            assert(sources_view(sources@).len() == sources@.len());
            if sources.len() == 0 {
                LoadMsg::Cancelled
            } else {
                LoadMsg::Library(folder, sources)
            }
        },
        None => LoadMsg::Cancelled,
    }
}

/// What becomes of a picked manifest: the media that it lists, as a library of the folder that it
/// is in. `listed` are its paths, of which `on_disk` says whether they exist.
pub fn picked_manifest(
    path: &PathBuf,
    listed: &Vec<PathBuf>,
    on_disk: &Vec<bool>,
) -> (msg: LoadMsg)
    requires
        listed.len() == on_disk.len(),
    ensures
        msg@ == loaded_from(
            path_bytes(*path),
            gathered(existing(paths_view(listed@), on_disk@)),
        ),
{
    let sources = gather_from_json(listed, on_disk);
    assert(sources_view(sources@).len() == sources@.len());
    if sources.len() == 0 {
        LoadMsg::Cancelled
    } else {
        LoadMsg::Library(containing(path), sources)
    }
}

/// What becomes of a scanned folder: its library. `found` are the files of the scan.
pub fn picked_folder(dir: PathBuf, found: Vec<PathBuf>) -> (msg: LoadMsg)
    ensures
        msg@ matches LoadView::Library(folder, sources) && folder == path_bytes(dir)
            && is_library_of(sources, paths_view(found@)),
{
    let sources = gather_sources(Some(found));
    LoadMsg::Library(dir, sources)
}

/// The flags after a report: a library and a dismissed picker end the scan.
pub open spec fn loaded_flags(g: Flags, msg: LoadMsg) -> Flags {
    Flags {
        scanning: g.scanning && msg is ScanProgress,
        scan_count: match msg {
            LoadMsg::ScanProgress(n) => n,
            _ => g.scan_count,
        },
        ..g
    }
}

impl Flags {
    fn loaded(self, msg: &LoadMsg) -> (g: Flags)
        ensures
            g == loaded_flags(self, *msg),
    {
        let (scanning, scan_count): (bool, usize) = match msg {
            LoadMsg::ScanProgress(n) => (self.scanning, *n),
            _ => (false, self.scan_count),
        };
        Flags { scanning, scan_count, ..self }
    }
}

impl State {
    /// Takes a report over: a library is displayed as the settings and the fields ask. `times`
    /// says of each item of a reported library when it was made.
    pub fn take_load(&mut self, msg: LoadMsg, times: &Vec<FileTimes>)
        requires
            old(self).wf(),
            old(self).wall.generation < u64::MAX,
            msg matches LoadMsg::Library(_, sources) ==> countable_tiles(sources@.len())
                && times@.len() == sources@.len(),
        ensures
            final(self).wf(),
            final(self).flags == loaded_flags(old(self).flags, msg),
            final(self).fields == old(self).fields,
            match msg {
                LoadMsg::Library(folder, sources) => {
                    &&& final(self).lightbox == (Lightbox {
                        focus: None,
                        video_for: None,
                        video_pending: None,
                        ..old(self).lightbox
                    })
                    &&& final(self).wall.folder == Some(folder)
                    &&& final(self).wall.all == sources
                    &&& final(self).wall.generation == old(self).wall.generation + 1
                    &&& final(self).wall.pool@ == empty_pool()
                    &&& final(self).wall.gifs@ == no_gifs(old(self).wall.gifs@.tick)
                    &&& final(self).wall.prev_inflight == old(self).wall.prev_inflight
                    &&& exists|q: Query|
                        #![trigger old(self).is_query(q)]
                        old(self).is_query(q) && is_view(
                            sources_view(sources@),
                            times@,
                            q,
                            final(self).wall.shown@,
                        )
                },
                _ => final(self).lightbox == old(self).lightbox && final(self).wall
                    == old(self).wall,
            },
    {
        let flags: Flags = self.flags.loaded(&msg);
        match msg {
            LoadMsg::Library(folder, sources) => {
                self.reload_with(Some(folder), sources, times);
            },
            _ => {},
        }
        self.flags = flags;
    }
}

} // verus!
