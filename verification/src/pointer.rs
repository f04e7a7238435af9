//! What the pointer does to the state of the wall.

use crate::components::{
    hit, hit_test, is_under, over_ui, pointer_over_ui, Frac, Pointer, Region, UiAction, UiCtx,
};
use crate::input::stepped;
use crate::state::{
    acted_effects, acted_fields, acted_flags, acted_focus, back_effects, DragMode, Effect, Fields,
    FieldsView, Flags, Lightbox, State,
};
use crate::status::Outside;
use crate::video::Command;
use vstd::prelude::*;

verus! {

/// What a press means.
#[derive(Clone, Copy, PartialEq, Eq, Structural, Debug)]
pub enum Press {
    /// Start dragging along the seek track.
    Seek(Frac),
    /// A click on the interface.
    Act(UiAction),
    /// The previous (-1) or the next (1) open item.
    Step(i8),
    /// Scroll the wall for as long as an arrow is held.
    Hold(i8),
    /// Pause the video, or play on.
    TogglePause,
    /// Scroll the wall along the scroll bar.
    Scrub,
    /// Grab the wall, or the open item.
    Pan,
    /// Drag the wall, or click on it.
    Scroll,
}

/// What a press means: the interface decides first, then the arrows, then an open video, then
/// the scroll bar.
pub open spec fn press_meaning(
    s: State,
    button: u8,
    action: Option<UiAction>,
    under: Seq<Region>,
) -> Press {
    let left = button == 0;
    let focused = s.lightbox.focus is Some;
    let scrolls = s.wall.shown@.len() > 3;
    let arrow = under.contains(Region::ArrowPrev) || under.contains(Region::ArrowNext);
    let dir: i8 = if under.contains(Region::ArrowPrev) {
        -1i8
    } else {
        1
    };
    match action {
        Some(UiAction::VideoSeekFrac(f)) => Press::Seek(f),
        Some(a) => Press::Act(a),
        None => if left && arrow && focused {
            Press::Step(dir)
        } else if left && arrow && scrolls {
            Press::Hold(dir)
        } else if left && s.video_is_open() {
            Press::TogglePause
        } else if !focused && scrolls && under.contains(Region::ScrubBand) {
            Press::Scrub
        } else if button == 1 || button == 2 {
            Press::Pan
        } else {
            Press::Scroll
        },
    }
}

/// What a held pointer does after a press.
pub open spec fn drag_of(press: Press) -> DragMode {
    match press {
        Press::Seek(_) => DragMode::VideoSeek,
        Press::Act(UiAction::VideoVolume(_)) => DragMode::VideoVol,
        Press::Scrub => DragMode::Scrub,
        Press::Pan => DragMode::Pan,
        Press::Scroll => DragMode::Scroll,
        _ => DragMode::Idle,
    }
}

/// The flags after a press. A press that is not on the interface closes the open menu.
pub open spec fn pressed_flags(g: Flags, press: Press, now: u64) -> Flags {
    match press {
        Press::Seek(f) => Flags { drag_mode: drag_of(press), seek_preview: Some(f), ..g },
        Press::Act(a) => Flags { drag_mode: drag_of(press), ..acted_flags(g, a, now) },
        Press::Hold(dir) => Flags {
            open_menu: None,
            drag_mode: drag_of(press),
            input_dir: dir,
            wall_scroll_held: true,
            ..g
        },
        _ => Flags { open_menu: None, drag_mode: drag_of(press), ..g },
    }
}

/// The fields after a press. A press that is not on the interface leaves them.
pub open spec fn pressed_fields(f: FieldsView, press: Press, caret: usize) -> FieldsView {
    match press {
        Press::Seek(_) => f,
        Press::Act(a) => acted_fields(f, a, caret),
        _ => FieldsView { search_active: false, date_active: 0, ..f },
    }
}

/// The open item after a press.
pub open spec fn pressed_focus(s: State, press: Press) -> Option<usize> {
    match press {
        Press::Act(a) => acted_focus(s, a),
        Press::Step(dir) => stepped(s.lightbox.focus, dir as int, s.wall.shown@.len()),
        _ => s.lightbox.focus,
    }
}

/// What is left to do after a press.
pub open spec fn pressed_effects(s: State, press: Press) -> Seq<Effect> {
    match press {
        Press::Seek(_) => seq![],
        Press::Act(a) => acted_effects(s, a),
        Press::Step(_) => seq![Effect::ResetLightbox],
        Press::Hold(_) => seq![Effect::DropScrollTarget],
        Press::TogglePause => seq![Effect::Player(Command::CyclePause)],
        Press::Scrub => seq![Effect::ScrubTo],
        Press::Pan => seq![Effect::DropScrollTarget],
        Press::Scroll => seq![Effect::StopWall, Effect::DropScrollTarget],
    }
}

impl Flags {
    fn press(self, press: Press, now: u64) -> (g: Flags)
        ensures
            g == pressed_flags(self, press, now),
    {
        match press {
            Press::Seek(f) => Flags {
                drag_mode: DragMode::VideoSeek,
                seek_preview: Some(f),
                ..self
            },
            Press::Act(a) => {
                let drag_mode: DragMode = match a {
                    UiAction::VideoVolume(_) => DragMode::VideoVol,
                    _ => DragMode::Idle,
                };
                Flags { drag_mode, ..self.act(a, now) }
            },
            Press::Hold(dir) => Flags {
                open_menu: None,
                drag_mode: DragMode::Idle,
                input_dir: dir,
                wall_scroll_held: true,
                ..self
            },
            Press::Scrub => Flags { open_menu: None, drag_mode: DragMode::Scrub, ..self },
            Press::Pan => Flags { open_menu: None, drag_mode: DragMode::Pan, ..self },
            Press::Scroll => Flags { open_menu: None, drag_mode: DragMode::Scroll, ..self },
            Press::Step(_) => Flags { open_menu: None, drag_mode: DragMode::Idle, ..self },
            Press::TogglePause => Flags { open_menu: None, drag_mode: DragMode::Idle, ..self },
        }
    }
}

impl Fields {
    fn press(&mut self, press: Press, caret: usize)
        requires
            old(self)@.wf(),
        ensures
            final(self)@ == pressed_fields(old(self)@, press, caret),
            final(self)@.wf(),
    {
        match press {
            Press::Seek(_) => {},
            Press::Act(a) => self.act(a, caret),
            _ => {
                self.search_active = false;
                self.date_active = 0;
            },
        }
    }
}

/// The flags that every press and move sets.
pub open spec fn touched(g: Flags, moved: bool, now: u64) -> Flags {
    Flags { drag_moved: moved, last_activity: now, ..g }
}

/// The state in which the interface is asked what lies under the pointer.
pub open spec fn touched_state(s: State, moved: bool, now: u64) -> State {
    State { flags: touched(s.flags, moved, now), ..s }
}

/// What a press with a button means for what the interface shows.
pub open spec fn down_press(s: State, c: UiCtx, button: u8, p: Pointer) -> Press {
    press_meaning(
        s,
        button,
        if button == 0 {
            hit(c, p)
        } else {
            None
        },
        p.under@,
    )
}

impl State {
    /// What a press leaves behind.
    pub open spec fn pressed_from(
        self,
        before: State,
        press: Press,
        caret: usize,
        now: u64,
        effects: Seq<Effect>,
    ) -> bool {
        &&& self.flags == pressed_flags(before.flags, press, now)
        &&& self.fields@ == pressed_fields(before.fields@, press, caret)
        &&& self.lightbox == (Lightbox {
            focus: pressed_focus(before, press),
            ..before.lightbox
        })
        &&& self.wall == before.wall
        &&& effects == pressed_effects(before, press)
    }

    /// What a press means. `action` is what it means to the interface.
    pub fn press_of(
        &self,
        button: u8,
        action: Option<UiAction>,
        under: &Vec<Region>,
    ) -> (press: Press)
        requires
            self.wf(),
        ensures
            press == press_meaning(*self, button, action, under@),
    {
        match action {
            Some(UiAction::VideoSeekFrac(f)) => {
                return Press::Seek(f);
            },
            Some(a) => {
                return Press::Act(a);
            },
            None => {},
        }
        let left: bool = button == 0;
        let scrolls: bool = self.scrolls();
        let on_prev: bool = is_under(under, Region::ArrowPrev);
        if left && (on_prev || is_under(under, Region::ArrowNext)) {
            let dir: i8 = if on_prev {
                -1
            } else {
                1
            };
            if self.is_focused() {
                return Press::Step(dir);
            }
            if scrolls {
                return Press::Hold(dir);
            }
        }
        if left && self.focused_is_video() {
            return Press::TogglePause;
        }
        if !self.is_focused() && scrolls && is_under(under, Region::ScrubBand) {
            return Press::Scrub;
        }
        if button == 1 || button == 2 {
            Press::Pan
        } else {
            Press::Scroll
        }
    }

    fn press_effects(&self, press: Press) -> (effects: Vec<Effect>)
        ensures
            effects@ == pressed_effects(*self, press),
    {
        let mut effects: Vec<Effect> = Vec::new();
        match press {
            Press::Seek(_) => {},
            Press::Act(a) => {
                return self.act_effects(a);
            },
            Press::Step(_) => effects.push(Effect::ResetLightbox),
            Press::Hold(_) => effects.push(Effect::DropScrollTarget),
            Press::TogglePause => effects.push(Effect::Player(Command::CyclePause)),
            Press::Scrub => effects.push(Effect::ScrubTo),
            Press::Pan => effects.push(Effect::DropScrollTarget),
            Press::Scroll => {
                effects.push(Effect::StopWall);
                effects.push(Effect::DropScrollTarget);
            },
        }
        assert(effects@ =~= pressed_effects(*self, press));
        effects
    }

    fn press_focus(&self, press: Press) -> (focus: Option<usize>)
        requires
            self.wf(),
            press matches Press::Step(dir) ==> -1 <= dir <= 1,
        ensures
            focus == pressed_focus(*self, press),
            focus matches Some(f) ==> f < self.wall.shown@.len(),
    {
        match press {
            Press::Act(a) => self.act_focus(a),
            Press::Step(dir) => self.neighbour(dir as i64),
            _ => self.lightbox.focus,
        }
    }

    /// Does what a press means. Returns what is left to do.
    pub fn press(&mut self, press: Press, caret: usize, now: u64) -> (effects: Vec<Effect>)
        requires
            old(self).wf(),
            press matches Press::Step(dir) ==> -1 <= dir <= 1,
        ensures
            final(self).wf(),
            final(self).pressed_from(*old(self), press, caret, now, effects@),
    {
        let effects: Vec<Effect> = self.press_effects(press);
        let focus: Option<usize> = self.press_focus(press);
        self.flags = self.flags.press(press, now);
        self.fields.press(press, caret);
        self.lightbox = Lightbox { focus, ..self.lightbox };
        effects
    }

    /// A button was pressed: 0 is the left one, 1 the middle one, 2 the right one. Returns what is
    /// left to do.
    pub fn pointer_down(&mut self, button: u8, p: &Pointer, out: &Outside) -> (effects: Vec<Effect>)
        requires
            old(self).wf(),
            out.player matches Some(player) ==> player.tracks.len() < usize::MAX,
        ensures
            final(self).wf(),
            ({
                let s = touched_state(*old(self), false, out.now);
                exists|c: UiCtx|
                    #![trigger s.is_ctx(*out, c)]
                    s.is_ctx(*out, c) && final(self).pressed_from(
                        s,
                        down_press(s, c, button, *p),
                        p.caret,
                        out.now,
                        effects@,
                    )
            }),
    {
        self.flags = Flags { drag_moved: false, last_activity: out.now, ..self.flags };
        let ghost s = *self;
        assert(s == touched_state(*old(self), false, out.now));
        let c = self.ui_ctx(out);
        let action: Option<UiAction> = if button == 0 {
            hit_test(&c, p)
        } else {
            None
        };
        let press: Press = self.press_of(button, action, &p.under);
        assert(press == down_press(s, c, button, *p));
        assert(s.is_ctx(*out, c));
        self.press(press, p.caret, out.now)
    }
}

/// What a moved pointer leaves to do while it is held.
pub open spec fn moved_effects(s: State, volume: Frac) -> Seq<Effect> {
    let focused = s.lightbox.focus is Some;
    match s.flags.drag_mode {
        DragMode::Idle | DragMode::VideoSeek => seq![],
        DragMode::Scrub => seq![Effect::ScrubTo],
        DragMode::Pan => if focused {
            seq![Effect::PanLightbox]
        } else {
            seq![Effect::PanWall]
        },
        DragMode::Scroll => if focused {
            seq![]
        } else {
            seq![Effect::DragWall]
        },
        DragMode::VideoVol => seq![Effect::Volume(volume)],
    }
}

/// The flags after a move. A press becomes a drag once the pointer has moved far enough, and the
/// knob of the seek track follows the pointer.
pub open spec fn moved_flags(g: Flags, seek: Frac, far: bool, now: u64) -> Flags {
    Flags {
        drag_moved: g.drag_moved || g.drag_mode is Scroll && far,
        seek_preview: if g.drag_mode is VideoSeek {
            Some(seek)
        } else {
            g.seek_preview
        },
        last_activity: now,
        ..g
    }
}

/// The tile under a moved pointer: that of the wall, where nothing lies above it.
pub open spec fn moved_hover(
    s: State,
    c: UiCtx,
    p: Pointer,
    picked: Option<usize>,
) -> Option<usize> {
    if s.flags.drag_mode is Idle && s.lightbox.focus is None && !over_ui(c, p) {
        picked
    } else {
        None
    }
}

/// The flags after a release.
pub open spec fn released_flags(g: Flags) -> Flags {
    Flags {
        input_dir: if g.wall_scroll_held {
            0
        } else {
            g.input_dir
        },
        wall_scroll_held: false,
        drag_mode: DragMode::Idle,
        seek_preview: if g.drag_mode is VideoSeek {
            None
        } else {
            g.seek_preview
        },
        ..g
    }
}

/// A release ends a click: the pointer was not dragged.
pub open spec fn is_click(g: Flags) -> bool {
    g.drag_mode is Scroll && !g.drag_moved
}

/// The open item after a release: a click beside it closes it, and a click on a tile opens that.
pub open spec fn released_focus(
    s: State,
    under: Seq<Region>,
    picked: Option<usize>,
) -> Option<usize> {
    if !is_click(s.flags) {
        s.lightbox.focus
    } else if s.lightbox.focus is Some {
        if s.video_is_open() || under.contains(Region::OpenPicture) {
            s.lightbox.focus
        } else {
            None
        }
    } else {
        picked
    }
}

/// What is left to do after a release: a scrub lands where the knob is, and a click on what plays
/// pauses it.
pub open spec fn released_effects(
    s: State,
    under: Seq<Region>,
    picked: Option<usize>,
    playing: bool,
) -> Seq<Effect> {
    let on_media = s.video_is_open() || under.contains(Region::OpenPicture);
    if s.flags.drag_mode is VideoSeek {
        match s.flags.seek_preview {
            Some(f) => seq![Effect::SeekFrac(f)],
            None => seq![],
        }
    } else if !is_click(s.flags) {
        seq![]
    } else if s.lightbox.focus is Some {
        if !on_media {
            back_effects(s.lightbox.focus)
        } else if playing {
            seq![Effect::Player(Command::CyclePause)]
        } else {
            seq![]
        }
    } else if picked is Some {
        seq![Effect::ResetLightbox]
    } else {
        seq![]
    }
}

impl Flags {
    fn move_to(self, seek: Frac, far: bool, now: u64) -> (g: Flags)
        ensures
            g == moved_flags(self, seek, far, now),
    {
        let drag_moved: bool = self.drag_moved || self.drag_mode == DragMode::Scroll && far;
        let seek_preview: Option<Frac> = if self.drag_mode == DragMode::VideoSeek {
            Some(seek)
        } else {
            self.seek_preview
        };
        Flags { drag_moved, seek_preview, last_activity: now, ..self }
    }

    fn release(self) -> (g: Flags)
        ensures
            g == released_flags(self),
    {
        let input_dir: i8 = if self.wall_scroll_held {
            0
        } else {
            self.input_dir
        };
        let seek_preview: Option<Frac> = if self.drag_mode == DragMode::VideoSeek {
            None
        } else {
            self.seek_preview
        };
        Flags {
            input_dir,
            wall_scroll_held: false,
            drag_mode: DragMode::Idle,
            seek_preview,
            ..self
        }
    }
}

impl State {
    fn move_effects(&self, volume: Frac) -> (effects: Vec<Effect>)
        ensures
            effects@ == moved_effects(*self, volume),
    {
        let focused: bool = self.is_focused();
        let mut effects: Vec<Effect> = Vec::new();
        match self.flags.drag_mode {
            DragMode::Idle => {},
            DragMode::VideoSeek => {},
            DragMode::Scrub => effects.push(Effect::ScrubTo),
            DragMode::Pan => effects.push(
                if focused {
                    Effect::PanLightbox
                } else {
                    Effect::PanWall
                },
            ),
            DragMode::Scroll => {
                if !focused {
                    effects.push(Effect::DragWall);
                }
            },
            DragMode::VideoVol => effects.push(Effect::Volume(volume)),
        }
        assert(effects@ =~= moved_effects(*self, volume));
        effects
    }

    /// The pointer has moved. `picked` is the tile of the wall that it points at, and `far` says
    /// whether it has moved by more than a twitch. Returns what is left to do.
    pub fn pointer_move(
        &mut self,
        p: &Pointer,
        picked: Option<usize>,
        far: bool,
        out: &Outside,
    ) -> (effects: Vec<Effect>)
        requires
            old(self).wf(),
            out.player matches Some(player) ==> player.tracks.len() < usize::MAX,
        ensures
            final(self).wf(),
            final(self).flags == moved_flags(old(self).flags, p.seek, far, out.now),
            final(self).fields == old(self).fields,
            final(self).wall == old(self).wall,
            effects@ == moved_effects(*old(self), p.volume),
            ({
                let s = touched_state(*old(self), old(self).flags.drag_moved, out.now);
                exists|c: UiCtx|
                    #![trigger s.is_ctx(*out, c)]
                    s.is_ctx(*out, c) && final(self).lightbox == (Lightbox {
                        hover: moved_hover(s, c, *p, picked),
                        ..old(self).lightbox
                    })
            }),
    {
        let effects: Vec<Effect> = self.move_effects(p.volume);
        let flags: Flags = self.flags.move_to(p.seek, far, out.now);
        self.flags = Flags {
            drag_moved: self.flags.drag_moved,
            last_activity: out.now,
            ..self.flags
        };
        let ghost s = *self;
        assert(s == touched_state(*old(self), old(self).flags.drag_moved, out.now));
        let c = self.ui_ctx(out);
        assert(s.is_ctx(*out, c));
        let hover: Option<usize> = if self.flags.drag_mode == DragMode::Idle && !self.is_focused()
            && !pointer_over_ui(&c, p) {
            picked
        } else {
            None
        };
        self.flags = flags;
        self.lightbox = Lightbox { hover, ..self.lightbox };
        effects
    }

    fn release_effects(
        &self,
        under: &Vec<Region>,
        picked: Option<usize>,
        playing: bool,
    ) -> (effects: Vec<Effect>)
        requires
            self.wf(),
        ensures
            effects@ == released_effects(*self, under@, picked, playing),
    {
        let mut effects: Vec<Effect> = Vec::new();
        let on_media: bool = self.focused_is_video() || is_under(under, Region::OpenPicture);
        if self.flags.drag_mode == DragMode::VideoSeek {
            match self.flags.seek_preview {
                Some(f) => effects.push(Effect::SeekFrac(f)),
                None => {},
            }
        } else if self.flags.drag_mode == DragMode::Scroll && !self.flags.drag_moved {
            match self.lightbox.focus {
                Some(f) => {
                    if !on_media {
                        effects.push(Effect::Recenter(f / 3));
                    } else if playing {
                        effects.push(Effect::Player(Command::CyclePause));
                    }
                },
                None => {
                    if picked.is_some() {
                        effects.push(Effect::ResetLightbox);
                    }
                },
            }
        }
        assert(effects@ =~= released_effects(*self, under@, picked, playing));
        effects
    }

    /// The button was released. `picked` is the tile of the wall that the pointer points at, and
    /// `playing` says whether there is a player. Returns what is left to do.
    pub fn pointer_up(
        &mut self,
        under: &Vec<Region>,
        picked: Option<usize>,
        playing: bool,
    ) -> (effects: Vec<Effect>)
        requires
            old(self).wf(),
            picked matches Some(i) ==> i < old(self).wall.shown@.len(),
        ensures
            final(self).wf(),
            final(self).flags == released_flags(old(self).flags),
            final(self).fields == old(self).fields,
            final(self).lightbox == (Lightbox {
                focus: released_focus(*old(self), under@, picked),
                ..old(self).lightbox
            }),
            final(self).wall == old(self).wall,
            effects@ == released_effects(*old(self), under@, picked, playing),
    {
        let effects: Vec<Effect> = self.release_effects(under, picked, playing);
        let focus: Option<usize> = if self.flags.drag_mode != DragMode::Scroll
            || self.flags.drag_moved {
            self.lightbox.focus
        } else if self.is_focused() {
            if self.focused_is_video() || is_under(under, Region::OpenPicture) {
                self.lightbox.focus
            } else {
                None
            }
        } else {
            picked
        };
        assert(focus == released_focus(*old(self), under@, picked));
        self.flags = self.flags.release();
        self.lightbox = Lightbox { focus, ..self.lightbox };
        effects
    }
}

} // verus!
