//! The timer application as a state machine: the screens, what each key
//! does on each of them, what each second of a running timer does, and the
//! outside work (files, sound, notifications) that each step asks for.
use vstd::prelude::*;
use crate::form::{FormModel, SessionForm};
use crate::settings::{
    contains_activity, default_config, storable_config, theme_after, theme_before, Config,
    ConfigModel, Theme,
};
use crate::text::{chars_of, is_ws, push_char, string_of, trim, trim_chars, u32_max, utf8_len,
    without, without_char};
use crate::timer::{usize_max, TimerState};

verus! {

/// The screens of the application.
#[derive(PartialEq, Eq, Structural, Clone, Copy, Debug)]
pub enum Screen {
    Resume,
    Activity,
    Duration,
    Sessions,
    Bgm,
    BgmImport,
    Settings,
    Timer,
    History,
    AddActivity,
    SessionForm,
    RenameActivity,
    Stats,
}

/// A key pressed.
#[derive(PartialEq, Eq, Structural, Clone, Copy, Debug)]
pub enum Key {
    Up,
    Down,
    Left,
    Right,
    Enter,
    Esc,
    Backspace,
    Delete,
    Char(char),
    Other,
}

/// Outside work that a step asks for, in the order it is to be done.
pub enum Effect {
    /// Write the settings file.
    SaveConfig,
    /// Write the state file.
    SaveTimerState,
    /// Remove the state file.
    ClearTimerState,
    /// Read the state file and resume from it.
    LoadTimerState,
    /// Start the chosen background music.
    PlayBgm,
    /// Stop the background music.
    StopBgm,
    /// Download the music at this address.
    StartDownload(String),
    /// Clear the flags of the finished download.
    FinishDownload,
    /// List the music files again.
    RefreshBgm,
    /// Leave the application.
    Quit,
    /// Add the timer session to the history, completed or not.
    LogSession(bool),
    /// Rename an activity in the history (old name, new name).
    RenameInHistory(String, String),
    /// Delete the entry shown at this place of the history screen.
    DeleteHistoryEntry(usize),
    /// Fill the form from the entry shown at this place.
    EditHistoryEntry(usize),
    /// Fill the form for a new entry.
    NewFormEntry,
    /// Save the form: replace the entry shown at this place, or add one.
    SaveForm(Option<usize>),
    /// Raise the volume.
    VolumeUp,
    /// Lower the volume.
    VolumeDown,
    /// Set the volume of the music to the volume, or to 0 when muted.
    ApplyVolume,
    /// Pause or resume the music as the timer is paused or running.
    ApplyPause,
    /// Highlight this item of the list on screen.
    SelectItem(usize),
    /// Note the time at which the session started.
    MarkSessionStart,
    /// Write the state file with this state.
    SaveTimerSnapshot(TimerState),
    /// Show the notification of the end of a phase.
    Notify(PhaseEnd),
}

/// The end of a phase of the timer.
#[derive(PartialEq, Eq, Structural, Clone, Copy, Debug)]
pub enum PhaseEnd {
    /// The last focus session ended.
    AllDone,
    /// A focus session ended and a break starts.
    BreakStarts,
    /// A break ended and the next focus session starts.
    WorkStarts,
}

/// The title of the notification at the end of a phase.
pub open spec fn phase_title(e: PhaseEnd) -> Seq<char> {
    match e {
        PhaseEnd::AllDone => "Done! \u{1F389}"@,
        PhaseEnd::BreakStarts => "Break! \u{2615}"@,
        PhaseEnd::WorkStarts => "Work! \u{1F525}"@,
    }
}

/// The text of the notification at the end of a phase.
pub open spec fn phase_body(e: PhaseEnd) -> Seq<char> {
    match e {
        PhaseEnd::AllDone => "All sessions finished!"@,
        PhaseEnd::BreakStarts => "Time to rest."@,
        PhaseEnd::WorkStarts => "Focus time."@,
    }
}

impl PhaseEnd {
    /// The title of the notification.
    pub fn title(&self) -> (res: &'static str)
        ensures
            res@ == phase_title(*self),
    {
        match self {
            PhaseEnd::AllDone => "Done! \u{1F389}",
            PhaseEnd::BreakStarts => "Break! \u{2615}",
            PhaseEnd::WorkStarts => "Work! \u{1F525}",
        }
    }

    /// The text of the notification.
    pub fn body(&self) -> (res: &'static str)
        ensures
            res@ == phase_body(*self),
    {
        match self {
            PhaseEnd::AllDone => "All sessions finished!",
            PhaseEnd::BreakStarts => "Time to rest.",
            PhaseEnd::WorkStarts => "Focus time.",
        }
    }
}

/// An effect, as values.
pub enum EffectView {
    SaveConfig,
    SaveTimerState,
    ClearTimerState,
    LoadTimerState,
    PlayBgm,
    StopBgm,
    StartDownload(Seq<char>),
    FinishDownload,
    RefreshBgm,
    Quit,
    LogSession(bool),
    RenameInHistory(Seq<char>, Seq<char>),
    DeleteHistoryEntry(usize),
    EditHistoryEntry(usize),
    NewFormEntry,
    SaveForm(Option<usize>),
    VolumeUp,
    VolumeDown,
    ApplyVolume,
    ApplyPause,
    SelectItem(usize),
    MarkSessionStart,
    SaveTimerSnapshot(TimerState),
    Notify(PhaseEnd),
}

impl View for Effect {
    type V = EffectView;

    open spec fn view(&self) -> EffectView {
        match self {
            Effect::SaveConfig => EffectView::SaveConfig,
            Effect::SaveTimerState => EffectView::SaveTimerState,
            Effect::ClearTimerState => EffectView::ClearTimerState,
            Effect::LoadTimerState => EffectView::LoadTimerState,
            Effect::PlayBgm => EffectView::PlayBgm,
            Effect::StopBgm => EffectView::StopBgm,
            Effect::StartDownload(u) => EffectView::StartDownload(u@),
            Effect::FinishDownload => EffectView::FinishDownload,
            Effect::RefreshBgm => EffectView::RefreshBgm,
            Effect::Quit => EffectView::Quit,
            Effect::LogSession(c) => EffectView::LogSession(*c),
            Effect::RenameInHistory(a, b) => EffectView::RenameInHistory(a@, b@),
            Effect::DeleteHistoryEntry(i) => EffectView::DeleteHistoryEntry(*i),
            Effect::EditHistoryEntry(i) => EffectView::EditHistoryEntry(*i),
            Effect::NewFormEntry => EffectView::NewFormEntry,
            Effect::SaveForm(i) => EffectView::SaveForm(*i),
            Effect::VolumeUp => EffectView::VolumeUp,
            Effect::VolumeDown => EffectView::VolumeDown,
            Effect::ApplyVolume => EffectView::ApplyVolume,
            Effect::ApplyPause => EffectView::ApplyPause,
            Effect::SelectItem(i) => EffectView::SelectItem(*i),
            Effect::MarkSessionStart => EffectView::MarkSessionStart,
            Effect::SaveTimerSnapshot(t) => EffectView::SaveTimerSnapshot(*t),
            Effect::Notify(e) => EffectView::Notify(*e),
        }
    }
}

/// The views of a list of effects.
pub open spec fn effect_views(v: Seq<Effect>) -> Seq<EffectView> {
    Seq::new(v.len(), |i: int| v[i]@)
}

/// What the application holds, as values.
pub struct AppModel {
    pub screen: Screen,
    pub config: ConfigModel,
    pub idx: usize,
    pub mins: u32,
    pub total: u32,
    pub current: u32,
    pub rem: u32,
    pub work: bool,
    pub paused: bool,
    pub input: Seq<char>,
    pub bgm_list: Seq<Seq<char>>,
    pub bgm_idx: usize,
    pub settings_cursor: usize,
    pub muted: bool,
    pub history_scroll: usize,
    pub form: FormModel,
    pub rename_idx: usize,
    pub stats_scroll: usize,
}

/// The application: the screen shown, the settings, the timer (activity,
/// focus length, sessions planned and current, seconds left, phase,
/// paused), the text being typed, the background music offered and chosen,
/// and the cursors of the settings, history, form and statistics screens.
pub struct App {
    pub screen: Screen,
    pub config: Config,
    pub idx: usize,
    pub mins: u32,
    pub total: u32,
    pub current: u32,
    pub rem: u32,
    pub work: bool,
    pub paused: bool,
    pub input: String,
    pub bgm_list: Vec<String>,
    pub bgm_idx: usize,
    pub settings_cursor: usize,
    pub muted: bool,
    pub history_scroll: usize,
    pub form: SessionForm,
    pub rename_idx: usize,
    pub stats_scroll: usize,
}

impl View for App {
    type V = AppModel;

    open spec fn view(&self) -> AppModel {
        AppModel {
            screen: self.screen,
            config: self.config@,
            idx: self.idx,
            mins: self.mins,
            total: self.total,
            current: self.current,
            rem: self.rem,
            work: self.work,
            paused: self.paused,
            input: self.input@,
            bgm_list: self.bgm_list@.map_values(|s: String| s@),
            bgm_idx: self.bgm_idx,
            settings_cursor: self.settings_cursor,
            muted: self.muted,
            history_scroll: self.history_scroll,
            form: self.form@,
            rename_idx: self.rename_idx,
            stats_scroll: self.stats_scroll,
        }
    }
}

/// The invariant of the application: the built-in activities are there
/// (and the menu, two entries longer, can be counted), the music list
/// offers at least "None", the menu cursor stands on an activity or one of
/// the two entries after them, the activity being renamed is a custom one,
/// and the settings and form cursors stand on a field.
pub open spec fn app_inv(m: AppModel) -> bool {
    &&& m.config.acts.len() >= 4
    &&& m.config.acts.len() + 2 <= usize::MAX
    &&& m.bgm_list.len() >= 1
    &&& m.idx < m.config.acts.len() + 2
    &&& m.screen == Screen::RenameActivity ==> 4 <= m.rename_idx < m.config.acts.len()
    &&& m.settings_cursor <= 2
    &&& m.form.cursor <= 6
}

// ---------------------------------------------------------------------------
// What keys do
// ---------------------------------------------------------------------------

pub open spec fn is_up(k: Key) -> bool {
    k == Key::Up || k == Key::Char('k')
}

pub open spec fn is_down(k: Key) -> bool {
    k == Key::Down || k == Key::Char('j')
}

pub open spec fn is_forward(k: Key) -> bool {
    k == Key::Enter || k == Key::Char('l') || k == Key::Right
}

pub open spec fn is_back(k: Key) -> bool {
    k == Key::Char('h') || k == Key::Left || k == Key::Esc
}

pub open spec fn is_right(k: Key) -> bool {
    k == Key::Right || k == Key::Char('l')
}

pub open spec fn is_left(k: Key) -> bool {
    k == Key::Left || k == Key::Char('h')
}

/// One less, but at least 1.
pub open spec fn dec_min_one(n: u32) -> u32 {
    if n > 1 {
        (n - 1) as u32
    } else {
        1
    }
}

/// One less, but at least 0.
pub open spec fn dec_usize(n: usize) -> usize {
    if n > 0 {
        (n - 1) as usize
    } else {
        0
    }
}

/// No effect.
pub open spec fn none() -> Seq<EffectView> {
    Seq::empty()
}

/// Text editing keys of the screens that read a name or an address:
/// a character is appended, Backspace takes the last one out.
pub open spec fn edit_input(input: Seq<char>, k: Key) -> Seq<char> {
    match k {
        Key::Char(c) => input.push(c),
        Key::Backspace => if input.len() > 0 {
            input.drop_last()
        } else {
            input
        },
        _ => input,
    }
}

/// The Resume screen: Enter or `y` resumes the saved session, Esc, `n` or
/// `q` discards it.
pub open spec fn on_resume(m: AppModel, k: Key) -> (AppModel, Seq<EffectView>) {
    if k == Key::Enter || k == Key::Char('y') {
        (m, seq![EffectView::LoadTimerState])
    } else if k == Key::Esc || k == Key::Char('n') || k == Key::Char('q') {
        (AppModel { screen: Screen::Activity, ..m }, seq![EffectView::ClearTimerState])
    } else {
        (m, none())
    }
}

/// The menu: activities, then the history and the statistics entries.
pub open spec fn on_activity(m: AppModel, k: Key) -> (AppModel, Seq<EffectView>) {
    let n = m.config.acts.len();
    if is_up(k) {
        let i = dec_usize(m.idx);
        (AppModel { idx: i, ..m }, seq![EffectView::SelectItem(i)])
    } else if is_down(k) {
        if m.idx < n + 1 {
            let i = (m.idx + 1) as usize;
            (AppModel { idx: i, ..m }, seq![EffectView::SelectItem(i)])
        } else {
            (m, none())
        }
    } else if is_forward(k) {
        if m.idx == n {
            (AppModel { history_scroll: 0, screen: Screen::History, ..m }, none())
        } else if m.idx == n + 1 {
            (AppModel { stats_scroll: 0, screen: Screen::Stats, ..m }, none())
        } else {
            (AppModel { screen: Screen::Duration, ..m }, none())
        }
    } else if k == Key::Char('a') {
        (AppModel { input: Seq::empty(), screen: Screen::AddActivity, ..m }, none())
    } else if k == Key::Char('e') {
        if 4 <= m.idx < n {
            (
                AppModel {
                    rename_idx: m.idx,
                    input: m.config.acts[m.idx as int],
                    screen: Screen::RenameActivity,
                    ..m
                },
                none(),
            )
        } else {
            (m, none())
        }
    } else if k == Key::Char('d') || k == Key::Delete {
        if 4 <= m.idx < n {
            let c = ConfigModel { acts: m.config.acts.remove(m.idx as int), ..m.config };
            (
                AppModel { config: c, ..m },
                seq![EffectView::SaveConfig, EffectView::SelectItem(m.idx)],
            )
        } else {
            (m, none())
        }
    } else if k == Key::Char('s') {
        (AppModel { settings_cursor: 0, screen: Screen::Settings, ..m }, none())
    } else if k == Key::Char('q') {
        (m, seq![EffectView::Quit])
    } else {
        (m, none())
    }
}

/// The screen that reads the name of a new activity: Enter adds the
/// trimmed name unless it is empty or already there.
pub open spec fn on_add_activity(m: AppModel, k: Key) -> (AppModel, Seq<EffectView>) {
    if k == Key::Enter {
        let name = trim(m.input);
        if name.len() > 0 && !m.config.acts.contains(name) {
            let c = ConfigModel { acts: m.config.acts.push(name), ..m.config };
            (
                AppModel { config: c, input: Seq::empty(), screen: Screen::Activity, ..m },
                seq![EffectView::SaveConfig],
            )
        } else {
            (AppModel { input: Seq::empty(), screen: Screen::Activity, ..m }, none())
        }
    } else if k == Key::Esc {
        (AppModel { input: Seq::empty(), screen: Screen::Activity, ..m }, none())
    } else {
        (AppModel { input: edit_input(m.input, k), ..m }, none())
    }
}

/// The screen that reads the new name of a custom activity: Enter renames
/// it, in the settings and in the history, unless the trimmed name is
/// empty or already there.
pub open spec fn on_rename_activity(m: AppModel, k: Key) -> (AppModel, Seq<EffectView>) {
    if k == Key::Enter {
        let name = trim(m.input);
        if name.len() > 0 && !m.config.acts.contains(name) {
            let old_name = without(m.config.acts[m.rename_idx as int], ',');
            let c = ConfigModel { acts: m.config.acts.update(m.rename_idx as int, name), ..m.config };
            (
                AppModel { config: c, input: Seq::empty(), screen: Screen::Activity, ..m },
                seq![
                    EffectView::RenameInHistory(old_name, without(name, ',')),
                    EffectView::SaveConfig,
                ],
            )
        } else {
            (AppModel { input: Seq::empty(), screen: Screen::Activity, ..m }, none())
        }
    } else if k == Key::Esc {
        (AppModel { input: Seq::empty(), screen: Screen::Activity, ..m }, none())
    } else {
        (AppModel { input: edit_input(m.input, k), ..m }, none())
    }
}

/// The screen that sets the focus length.
pub open spec fn on_duration(m: AppModel, k: Key) -> (AppModel, Seq<EffectView>) {
    if is_up(k) {
        (AppModel { mins: (m.mins + 1) as u32, ..m }, none())
    } else if is_down(k) {
        (AppModel { mins: dec_min_one(m.mins), ..m }, none())
    } else if is_forward(k) {
        (AppModel { screen: Screen::Sessions, ..m }, none())
    } else if is_back(k) {
        (AppModel { screen: Screen::Activity, ..m }, none())
    } else {
        (m, none())
    }
}

/// The screen that sets the number of focus sessions.
pub open spec fn on_sessions(m: AppModel, k: Key) -> (AppModel, Seq<EffectView>) {
    if is_up(k) {
        (AppModel { total: (m.total + 1) as u32, ..m }, none())
    } else if is_down(k) {
        (AppModel { total: dec_min_one(m.total), ..m }, none())
    } else if is_forward(k) {
        (AppModel { screen: Screen::Bgm, ..m }, seq![EffectView::SelectItem(m.bgm_idx)])
    } else if is_back(k) {
        (AppModel { screen: Screen::Duration, ..m }, none())
    } else {
        (m, none())
    }
}

/// The screen that chooses the background music and starts the timer.
pub open spec fn on_bgm(m: AppModel, k: Key) -> (AppModel, Seq<EffectView>) {
    if k == Key::Char('i') {
        (AppModel { screen: Screen::BgmImport, input: Seq::empty(), ..m }, none())
    } else if is_up(k) {
        let i = dec_usize(m.bgm_idx);
        (AppModel { bgm_idx: i, ..m }, seq![EffectView::SelectItem(i)])
    } else if is_down(k) {
        if m.bgm_idx < m.bgm_list.len() - 1 {
            let i = (m.bgm_idx + 1) as usize;
            (AppModel { bgm_idx: i, ..m }, seq![EffectView::SelectItem(i)])
        } else {
            (m, none())
        }
    } else if is_forward(k) {
        (
            AppModel {
                rem: (m.mins * 60) as u32,
                current: 1,
                screen: Screen::Timer,
                work: true,
                paused: false,
                ..m
            },
            seq![EffectView::MarkSessionStart, EffectView::SaveTimerState, EffectView::PlayBgm],
        )
    } else if is_back(k) {
        (AppModel { screen: Screen::Sessions, ..m }, none())
    } else {
        (m, none())
    }
}

/// The screen that reads the address of music to download.
pub open spec fn on_bgm_import(m: AppModel, k: Key) -> (AppModel, Seq<EffectView>) {
    if k == Key::Enter {
        (AppModel { input: Seq::empty(), ..m }, seq![EffectView::StartDownload(m.input)])
    } else if k == Key::Esc {
        (AppModel { screen: Screen::Bgm, ..m }, none())
    } else {
        (AppModel { input: edit_input(m.input, k), ..m }, none())
    }
}

/// The settings screen: notifications, theme and break length.
pub open spec fn on_settings(m: AppModel, k: Key) -> (AppModel, Seq<EffectView>) {
    let c = m.config;
    if is_up(k) {
        (AppModel { settings_cursor: dec_usize(m.settings_cursor), ..m }, none())
    } else if is_down(k) {
        (
            AppModel {
                settings_cursor: if m.settings_cursor < 2 {
                    (m.settings_cursor + 1) as usize
                } else {
                    m.settings_cursor
                },
                ..m
            },
            none(),
        )
    } else if is_left(k) {
        let c2 = if m.settings_cursor == 0 {
            ConfigModel { notifications: !c.notifications, ..c }
        } else if m.settings_cursor == 1 {
            ConfigModel { theme: theme_before(c.theme), ..c }
        } else {
            ConfigModel { break_mins: dec_min_one(c.break_mins), ..c }
        };
        (AppModel { config: c2, ..m }, seq![EffectView::SaveConfig])
    } else if is_right(k) {
        let c2 = if m.settings_cursor == 0 {
            ConfigModel { notifications: !c.notifications, ..c }
        } else if m.settings_cursor == 1 {
            ConfigModel { theme: theme_after(c.theme), ..c }
        } else {
            ConfigModel { break_mins: (c.break_mins + 1) as u32, ..c }
        };
        (AppModel { config: c2, ..m }, seq![EffectView::SaveConfig])
    } else if k == Key::Esc || k == Key::Char('q') {
        (AppModel { screen: Screen::Activity, ..m }, none())
    } else {
        (m, none())
    }
}

/// The timer screen: pause, mute, volume, and stopping the session (which
/// is logged as abandoned).
pub open spec fn on_timer(m: AppModel, k: Key) -> (AppModel, Seq<EffectView>) {
    if k == Key::Char(' ') {
        (pause_toggled(m), seq![EffectView::ApplyPause, EffectView::SaveTimerState])
    } else if k == Key::Char('m') || k == Key::Char('M') {
        (mute_toggled(m), seq![EffectView::ApplyVolume])
    } else if k == Key::Char('+') || k == Key::Char('=') {
        (m, seq![EffectView::VolumeUp, EffectView::SaveConfig])
    } else if k == Key::Char('-') || k == Key::Char('_') {
        (m, seq![EffectView::VolumeDown, EffectView::SaveConfig])
    } else if k == Key::Char('q') || k == Key::Char('h') || k == Key::Left || k == Key::Esc {
        (
            AppModel { screen: Screen::Activity, ..m },
            seq![EffectView::LogSession(false), EffectView::ClearTimerState, EffectView::StopBgm],
        )
    } else {
        (m, none())
    }
}

/// The application with the music muted if it was not, and unmuted if it
/// was.
pub open spec fn mute_toggled(m: AppModel) -> AppModel {
    AppModel { muted: !m.muted, ..m }
}

/// The application with the timer paused if it ran, and running if it was
/// paused.
pub open spec fn pause_toggled(m: AppModel) -> AppModel {
    AppModel { paused: !m.paused, ..m }
}

/// The history screen, which shows `count` entries.
pub open spec fn on_history(m: AppModel, k: Key, count: usize) -> (AppModel, Seq<EffectView>) {
    if is_up(k) {
        (AppModel { history_scroll: dec_usize(m.history_scroll), ..m }, none())
    } else if is_down(k) {
        (AppModel { history_scroll: (m.history_scroll + 1) as usize, ..m }, none())
    } else if k == Key::Char('d') || k == Key::Delete {
        if count > 0 && m.history_scroll < count {
            (m, seq![EffectView::DeleteHistoryEntry(m.history_scroll)])
        } else {
            (m, none())
        }
    } else if k == Key::Char('e') {
        if count > 0 && m.history_scroll < count {
            (
                AppModel { screen: Screen::SessionForm, ..m },
                seq![EffectView::EditHistoryEntry(m.history_scroll)],
            )
        } else {
            (m, none())
        }
    } else if k == Key::Char('a') {
        (AppModel { screen: Screen::SessionForm, ..m }, seq![EffectView::NewFormEntry])
    } else if k == Key::Esc || k == Key::Char('q') || k == Key::Left {
        (AppModel { screen: Screen::Activity, ..m }, none())
    } else {
        (m, none())
    }
}

/// The form after Right on its fields.
pub open spec fn form_right(f: FormModel, acts_len: nat) -> FormModel {
    if f.cursor == 1 {
        FormModel {
            act_idx: if f.act_idx < acts_len - 1 {
                (f.act_idx + 1) as usize
            } else {
                f.act_idx
            },
            ..f
        }
    } else if f.cursor == 2 {
        FormModel { mins: (f.mins + 1) as u32, ..f }
    } else if f.cursor == 3 {
        FormModel { break_mins: (f.break_mins + 1) as u32, ..f }
    } else if f.cursor == 4 {
        FormModel { done: (f.done + 1) as u32, ..f }
    } else if f.cursor == 5 {
        FormModel { planned: (f.planned + 1) as u32, ..f }
    } else if f.cursor == 6 {
        FormModel { completed: !f.completed, ..f }
    } else {
        f
    }
}

/// The form after Left on its fields.
pub open spec fn form_left(f: FormModel) -> FormModel {
    if f.cursor == 1 {
        FormModel { act_idx: dec_usize(f.act_idx), ..f }
    } else if f.cursor == 2 {
        FormModel { mins: dec_min_one(f.mins), ..f }
    } else if f.cursor == 3 {
        FormModel { break_mins: dec_min_one(f.break_mins), ..f }
    } else if f.cursor == 4 {
        FormModel {
            done: if f.done > 0 {
                (f.done - 1) as u32
            } else {
                0
            },
            ..f
        }
    } else if f.cursor == 5 {
        FormModel { planned: dec_min_one(f.planned), ..f }
    } else if f.cursor == 6 {
        FormModel { completed: !f.completed, ..f }
    } else {
        f
    }
}

/// An ASCII digit character.
pub open spec fn is_ascii_digit(c: char) -> bool {
    48 <= (c as int) <= 57
}

/// The session form: fields are chosen with Up and Down and changed with
/// Left and Right; on the date field digits are typed (up to eight bytes)
/// and Backspace takes the last character out; Enter saves.
pub open spec fn on_session_form(m: AppModel, k: Key) -> (AppModel, Seq<EffectView>) {
    let f = m.form;
    if is_up(k) {
        (AppModel { form: FormModel { cursor: dec_usize(f.cursor), ..f }, ..m }, none())
    } else if is_down(k) {
        (
            AppModel {
                form: FormModel {
                    cursor: if f.cursor < 6 {
                        (f.cursor + 1) as usize
                    } else {
                        f.cursor
                    },
                    ..f
                },
                ..m
            },
            none(),
        )
    } else if is_right(k) {
        (AppModel { form: form_right(f, m.config.acts.len()), ..m }, none())
    } else if is_left(k) {
        (AppModel { form: form_left(f), ..m }, none())
    } else if k matches Key::Char(c) && f.cursor == 0 && is_ascii_digit(c) && utf8_len(f.date) < 8 {
        let c = k->Char_0;
        (AppModel { form: FormModel { date: f.date.push(c), ..f }, ..m }, none())
    } else if k == Key::Backspace && f.cursor == 0 {
        (
            AppModel {
                form: FormModel {
                    date: if f.date.len() > 0 {
                        f.date.drop_last()
                    } else {
                        f.date
                    },
                    ..f
                },
                ..m
            },
            none(),
        )
    } else if k == Key::Enter {
        (AppModel { screen: Screen::History, ..m }, seq![EffectView::SaveForm(f.edit_idx)])
    } else if k == Key::Esc || k == Key::Char('q') {
        (AppModel { screen: Screen::History, ..m }, none())
    } else {
        (m, none())
    }
}

/// The statistics screen.
pub open spec fn on_stats(m: AppModel, k: Key) -> (AppModel, Seq<EffectView>) {
    if is_up(k) {
        (AppModel { stats_scroll: dec_usize(m.stats_scroll), ..m }, none())
    } else if is_down(k) {
        (AppModel { stats_scroll: (m.stats_scroll + 1) as usize, ..m }, none())
    } else if k == Key::Esc || k == Key::Char('q') || k == Key::Left {
        (AppModel { screen: Screen::Activity, ..m }, none())
    } else {
        (m, none())
    }
}

/// What a key does: while music is being downloaded keys wait, and Enter
/// once the download is done returns to the music screen; otherwise the
/// key acts on the screen shown (`count` is the number of entries of the
/// history screen).
pub open spec fn key_step(
    m: AppModel,
    k: Key,
    downloading: bool,
    download_done: bool,
    count: usize,
) -> (AppModel, Seq<EffectView>) {
    if downloading {
        if download_done && k == Key::Enter {
            (
                AppModel { screen: Screen::Bgm, ..m },
                seq![EffectView::FinishDownload, EffectView::RefreshBgm],
            )
        } else {
            (m, none())
        }
    } else {
        match m.screen {
            Screen::Resume => on_resume(m, k),
            Screen::Activity => on_activity(m, k),
            Screen::AddActivity => on_add_activity(m, k),
            Screen::RenameActivity => on_rename_activity(m, k),
            Screen::Duration => on_duration(m, k),
            Screen::Sessions => on_sessions(m, k),
            Screen::Bgm => on_bgm(m, k),
            Screen::BgmImport => on_bgm_import(m, k),
            Screen::Settings => on_settings(m, k),
            Screen::Timer => on_timer(m, k),
            Screen::History => on_history(m, k, count),
            Screen::SessionForm => on_session_form(m, k),
            Screen::Stats => on_stats(m, k),
        }
    }
}

/// Keys whose step would take a number past the largest value of its type
/// (the steps that count up, the start of a timer whose length in seconds
/// is too large, and an activity added to a list whose menu could no longer
/// be counted).
pub open spec fn key_overflows(m: AppModel, k: Key, downloading: bool) -> bool {
    !downloading && match m.screen {
        Screen::AddActivity => k == Key::Enter && trim(m.input).len() > 0
            && !m.config.acts.contains(trim(m.input)) && m.config.acts.len() + 3 > usize::MAX,
        Screen::Duration => is_up(k) && m.mins == 0xffff_ffff,
        Screen::Sessions => is_up(k) && m.total == 0xffff_ffff,
        Screen::Bgm => k != Key::Char('i') && !is_up(k) && !is_down(k) && is_forward(k) && m.mins
            * 60 > u32_max(),
        Screen::Settings => !is_up(k) && !is_down(k) && !is_left(k) && is_right(k)
            && m.settings_cursor == 2 && m.config.break_mins == 0xffff_ffff,
        Screen::History => !is_up(k) && is_down(k) && m.history_scroll == usize::MAX,
        Screen::Stats => !is_up(k) && is_down(k) && m.stats_scroll == usize::MAX,
        Screen::SessionForm => !is_up(k) && !is_down(k) && is_right(k) && (
        (m.form.cursor == 2 && m.form.mins == 0xffff_ffff) || (m.form.cursor == 3
            && m.form.break_mins == 0xffff_ffff) || (m.form.cursor == 4 && m.form.done
            == 0xffff_ffff) || (m.form.cursor == 5 && m.form.planned == 0xffff_ffff)),
        _ => false,
    }
}

// ---------------------------------------------------------------------------
// Executing keys
// ---------------------------------------------------------------------------

fn up_key(k: Key) -> (res: bool)
    ensures
        res == is_up(k),
{
    k == Key::Up || k == Key::Char('k')
}

fn down_key(k: Key) -> (res: bool)
    ensures
        res == is_down(k),
{
    k == Key::Down || k == Key::Char('j')
}

fn forward_key(k: Key) -> (res: bool)
    ensures
        res == is_forward(k),
{
    k == Key::Enter || k == Key::Char('l') || k == Key::Right
}

fn back_key(k: Key) -> (res: bool)
    ensures
        res == is_back(k),
{
    k == Key::Char('h') || k == Key::Left || k == Key::Esc
}

fn right_key(k: Key) -> (res: bool)
    ensures
        res == is_right(k),
{
    k == Key::Right || k == Key::Char('l')
}

fn left_key(k: Key) -> (res: bool)
    ensures
        res == is_left(k),
{
    k == Key::Left || k == Key::Char('h')
}

fn dec_at_least_one(n: u32) -> (res: u32)
    ensures
        res == dec_min_one(n),
{
    if n > 1 {
        n - 1
    } else {
        1
    }
}

/// The text with its last character taken out (none when it is empty).
fn pop_last(s: &String) -> (res: String)
    ensures
        res@ == if s@.len() > 0 {
            s@.drop_last()
        } else {
            s@
        },
{
    let cs = chars_of(s.as_str());
    if cs.len() == 0 {
        return String::new();
    }
    let mut out = String::new();
    let mut i: usize = 0;
    while i + 1 < cs.len()
        invariant
            i + 1 <= cs.len(),
            out@ == cs@.take(i as int),
        decreases cs.len() - i,
    {
        push_char(&mut out, cs[i]);
        i = i + 1;
        assert(cs@.take(i as int) =~= cs@.take(i - 1).push(cs@[i - 1]));
    }
    assert(cs@.take(i as int) =~= cs@.drop_last());
    out
}

/// The text after a key of a screen that reads text.
fn edited(input: &String, k: Key) -> (res: String)
    ensures
        res@ == edit_input(input@, k),
{
    match k {
        Key::Char(c) => {
            let mut out = input.clone();
            push_char(&mut out, c);
            out
        },
        Key::Backspace => pop_last(input),
        _ => input.clone(),
    }
}

/// The number of bytes of the UTF-8 encoding of a string, when below 8.
fn shorter_than_eight_bytes(s: &String) -> (res: bool)
    ensures
        res == (utf8_len(s@) < 8),
{
    let cs = chars_of(s.as_str());
    let mut bytes: u64 = 0;
    let mut i: usize = 0;
    assert(cs@.take(0) =~= Seq::<char>::empty());
    while i < cs.len() && bytes < 8
        invariant
            i <= cs.len(),
            bytes == utf8_len(cs@.take(i as int)),
            bytes < 12,
        decreases cs.len() - i,
    {
        assert(cs@.take(i + 1).drop_last() =~= cs@.take(i as int));
        bytes = bytes + crate::text::char_width_of(cs[i]);
        i = i + 1;
    }
    if i == cs.len() {
        assert(cs@.take(i as int) =~= cs@);
        bytes < 8
    } else {
        assert(cs@.take(cs@.len() as int) =~= cs@);
        proof {
            if i < cs@.len() {
                crate::text::lemma_utf8_len_take_mono(cs@, i as int, cs@.len() as int);
            }
        }
        false
    }
}

impl App {
    fn on_resume_key(&mut self, k: Key) -> (res: Vec<Effect>)
        ensures
            final(self)@ == on_resume(old(self)@, k).0,
            effect_views(res@) == on_resume(old(self)@, k).1,
    {
        let mut res: Vec<Effect> = Vec::new();
        if k == Key::Enter || k == Key::Char('y') {
            res.push(Effect::LoadTimerState);
        } else if k == Key::Esc || k == Key::Char('n') || k == Key::Char('q') {
            self.screen = Screen::Activity;
            res.push(Effect::ClearTimerState);
        }
        assert(effect_views(res@) =~= on_resume(old(self)@, k).1);
        res
    }

    fn on_activity_key(&mut self, k: Key) -> (res: Vec<Effect>)
        requires
            app_inv(old(self)@),
            old(self).screen == Screen::Activity,
        ensures
            final(self)@ == on_activity(old(self)@, k).0,
            effect_views(res@) == on_activity(old(self)@, k).1,
    {
        let ghost m = self@;
        let mut res: Vec<Effect> = Vec::new();
        let n = self.config.acts.len();
        if up_key(k) {
            self.idx = if self.idx > 0 {
                self.idx - 1
            } else {
                0
            };
            res.push(Effect::SelectItem(self.idx));
        } else if down_key(k) {
            if self.idx <= n {
                self.idx = self.idx + 1;
                res.push(Effect::SelectItem(self.idx));
            }
        } else if forward_key(k) {
            if self.idx == n {
                self.history_scroll = 0;
                self.screen = Screen::History;
            } else if self.idx > n {
                self.stats_scroll = 0;
                self.screen = Screen::Stats;
            } else {
                self.screen = Screen::Duration;
            }
        } else if k == Key::Char('a') {
            self.input = String::new();
            self.screen = Screen::AddActivity;
        } else if k == Key::Char('e') {
            if 4 <= self.idx && self.idx < n {
                self.rename_idx = self.idx;
                self.input = self.config.acts[self.idx].clone();
                self.screen = Screen::RenameActivity;
            }
        } else if k == Key::Char('d') || k == Key::Delete {
            if 4 <= self.idx && self.idx < n {
                let ghost before = self.config.acts@;
                self.config.acts.remove(self.idx);
                assert(self@.config.acts =~= m.config.acts.remove(m.idx as int));
                res.push(Effect::SaveConfig);
                res.push(Effect::SelectItem(self.idx));
            }
        } else if k == Key::Char('s') {
            self.settings_cursor = 0;
            self.screen = Screen::Settings;
        } else if k == Key::Char('q') {
            res.push(Effect::Quit);
        }
        assert(effect_views(res@) =~= on_activity(m, k).1);
        assert(self@.input =~= on_activity(m, k).0.input);
        assert(self@.config =~= on_activity(m, k).0.config);
        res
    }

    fn on_add_activity_key(&mut self, k: Key) -> (res: Vec<Effect>)
        ensures
            final(self)@ == on_add_activity(old(self)@, k).0,
            effect_views(res@) == on_add_activity(old(self)@, k).1,
    {
        let ghost m = self@;
        let mut res: Vec<Effect> = Vec::new();
        if k == Key::Enter {
            let cs = chars_of(self.input.as_str());
            let name = trim_chars(cs.as_slice());
            if name.len() > 0 && !contains_activity(&self.config.acts, name.as_slice()) {
                self.config.acts.push(string_of(name.as_slice()));
                assert(self@.config.acts =~= m.config.acts.push(trim(m.input)));
                res.push(Effect::SaveConfig);
            }
            self.input = String::new();
            self.screen = Screen::Activity;
        } else if k == Key::Esc {
            self.input = String::new();
            self.screen = Screen::Activity;
        } else {
            self.input = edited(&self.input, k);
        }
        assert(effect_views(res@) =~= on_add_activity(m, k).1);
        assert(self@.input =~= on_add_activity(m, k).0.input);
        res
    }

    fn on_rename_activity_key(&mut self, k: Key) -> (res: Vec<Effect>)
        requires
            app_inv(old(self)@),
            old(self).screen == Screen::RenameActivity,
        ensures
            final(self)@ == on_rename_activity(old(self)@, k).0,
            effect_views(res@) == on_rename_activity(old(self)@, k).1,
    {
        let ghost m = self@;
        let mut res: Vec<Effect> = Vec::new();
        if k == Key::Enter {
            let cs = chars_of(self.input.as_str());
            let name = trim_chars(cs.as_slice());
            if name.len() > 0 && !contains_activity(&self.config.acts, name.as_slice()) {
                let old_cs = chars_of(self.config.acts[self.rename_idx].as_str());
                let old_name = without_char(old_cs.as_slice(), ',');
                let clean_new = without_char(name.as_slice(), ',');
                self.config.acts.set(self.rename_idx, string_of(name.as_slice()));
                assert(self@.config.acts =~= m.config.acts.update(
                    m.rename_idx as int,
                    trim(m.input),
                ));
                res.push(
                    Effect::RenameInHistory(
                        string_of(old_name.as_slice()),
                        string_of(clean_new.as_slice()),
                    ),
                );
                res.push(Effect::SaveConfig);
            }
            self.input = String::new();
            self.screen = Screen::Activity;
        } else if k == Key::Esc {
            self.input = String::new();
            self.screen = Screen::Activity;
        } else {
            self.input = edited(&self.input, k);
        }
        assert(effect_views(res@) =~= on_rename_activity(m, k).1);
        assert(self@.input =~= on_rename_activity(m, k).0.input);
        res
    }

    fn on_duration_key(&mut self, k: Key) -> (res: Vec<Effect>)
        requires
            !(is_up(k) && old(self).mins == 0xffff_ffff),
        ensures
            final(self)@ == on_duration(old(self)@, k).0,
            effect_views(res@) == on_duration(old(self)@, k).1,
    {
        let res: Vec<Effect> = Vec::new();
        if up_key(k) {
            self.mins = self.mins + 1;
        } else if down_key(k) {
            self.mins = dec_at_least_one(self.mins);
        } else if forward_key(k) {
            self.screen = Screen::Sessions;
        } else if back_key(k) {
            self.screen = Screen::Activity;
        }
        assert(effect_views(res@) =~= none());
        res
    }

    fn on_sessions_key(&mut self, k: Key) -> (res: Vec<Effect>)
        requires
            !(is_up(k) && old(self).total == 0xffff_ffff),
        ensures
            final(self)@ == on_sessions(old(self)@, k).0,
            effect_views(res@) == on_sessions(old(self)@, k).1,
    {
        let ghost m = self@;
        let mut res: Vec<Effect> = Vec::new();
        if up_key(k) {
            self.total = self.total + 1;
        } else if down_key(k) {
            self.total = dec_at_least_one(self.total);
        } else if forward_key(k) {
            self.screen = Screen::Bgm;
            res.push(Effect::SelectItem(self.bgm_idx));
        } else if back_key(k) {
            self.screen = Screen::Duration;
        }
        assert(effect_views(res@) =~= on_sessions(m, k).1);
        res
    }

    fn on_bgm_key(&mut self, k: Key) -> (res: Vec<Effect>)
        requires
            app_inv(old(self)@),
            !(k != Key::Char('i') && !is_up(k) && !is_down(k) && is_forward(k) && old(self).mins
                * 60 > u32_max()),
        ensures
            final(self)@ == on_bgm(old(self)@, k).0,
            effect_views(res@) == on_bgm(old(self)@, k).1,
    {
        let ghost m = self@;
        let mut res: Vec<Effect> = Vec::new();
        if k == Key::Char('i') {
            self.screen = Screen::BgmImport;
            self.input = String::new();
        } else if up_key(k) {
            self.bgm_idx = if self.bgm_idx > 0 {
                self.bgm_idx - 1
            } else {
                0
            };
            res.push(Effect::SelectItem(self.bgm_idx));
        } else if down_key(k) {
            if self.bgm_idx < self.bgm_list.len() - 1 {
                self.bgm_idx = self.bgm_idx + 1;
                res.push(Effect::SelectItem(self.bgm_idx));
            }
        } else if forward_key(k) {
            self.rem = self.mins * 60;
            self.current = 1;
            self.screen = Screen::Timer;
            self.work = true;
            self.paused = false;
            res.push(Effect::MarkSessionStart);
            res.push(Effect::SaveTimerState);
            res.push(Effect::PlayBgm);
        } else if back_key(k) {
            self.screen = Screen::Sessions;
        }
        assert(effect_views(res@) =~= on_bgm(m, k).1);
        assert(self@.input =~= on_bgm(m, k).0.input);
        res
    }

    fn on_bgm_import_key(&mut self, k: Key) -> (res: Vec<Effect>)
        ensures
            final(self)@ == on_bgm_import(old(self)@, k).0,
            effect_views(res@) == on_bgm_import(old(self)@, k).1,
    {
        let ghost m = self@;
        let mut res: Vec<Effect> = Vec::new();
        if k == Key::Enter {
            let url = self.input.clone();
            self.input = String::new();
            res.push(Effect::StartDownload(url));
        } else if k == Key::Esc {
            self.screen = Screen::Bgm;
        } else {
            self.input = edited(&self.input, k);
        }
        assert(effect_views(res@) =~= on_bgm_import(m, k).1);
        assert(self@.input =~= on_bgm_import(m, k).0.input);
        res
    }

    fn on_settings_key(&mut self, k: Key) -> (res: Vec<Effect>)
        requires
            app_inv(old(self)@),
            !(!is_up(k) && !is_down(k) && !is_left(k) && is_right(k) && old(self).settings_cursor
                == 2 && old(self).config.break_mins == 0xffff_ffff),
        ensures
            final(self)@ == on_settings(old(self)@, k).0,
            effect_views(res@) == on_settings(old(self)@, k).1,
    {
        let ghost m = self@;
        let mut res: Vec<Effect> = Vec::new();
        if up_key(k) {
            if self.settings_cursor > 0 {
                self.settings_cursor = self.settings_cursor - 1;
            }
        } else if down_key(k) {
            if self.settings_cursor < 2 {
                self.settings_cursor = self.settings_cursor + 1;
            }
        } else if left_key(k) {
            if self.settings_cursor == 0 {
                self.config.notifications = !self.config.notifications;
            } else if self.settings_cursor == 1 {
                self.config.theme = self.config.theme.prev();
            } else {
                self.config.break_mins = dec_at_least_one(self.config.break_mins);
            }
            res.push(Effect::SaveConfig);
        } else if right_key(k) {
            if self.settings_cursor == 0 {
                self.config.notifications = !self.config.notifications;
            } else if self.settings_cursor == 1 {
                self.config.theme = self.config.theme.next();
            } else {
                self.config.break_mins = self.config.break_mins + 1;
            }
            res.push(Effect::SaveConfig);
        } else if k == Key::Esc || k == Key::Char('q') {
            self.screen = Screen::Activity;
        }
        assert(effect_views(res@) =~= on_settings(m, k).1);
        res
    }

    /// Mutes or unmutes the music, and asks for the volume to be applied
    /// (0 when muted); nothing else changes.
    pub fn toggle_mute(&mut self) -> (res: Vec<Effect>)
        ensures
            final(self)@ == mute_toggled(old(self)@),
            effect_views(res@) == seq![EffectView::ApplyVolume],
    {
        self.muted = !self.muted;
        let mut res: Vec<Effect> = Vec::new();
        res.push(Effect::ApplyVolume);
        assert(effect_views(res@) =~= seq![EffectView::ApplyVolume]);
        res
    }

    /// Pauses or resumes the timer, and asks for the music to follow;
    /// nothing else changes.
    pub fn toggle_pause(&mut self) -> (res: Vec<Effect>)
        ensures
            final(self)@ == pause_toggled(old(self)@),
            effect_views(res@) == seq![EffectView::ApplyPause],
    {
        self.paused = !self.paused;
        let mut res: Vec<Effect> = Vec::new();
        res.push(Effect::ApplyPause);
        assert(effect_views(res@) =~= seq![EffectView::ApplyPause]);
        res
    }

    fn on_timer_key(&mut self, k: Key) -> (res: Vec<Effect>)
        ensures
            final(self)@ == on_timer(old(self)@, k).0,
            effect_views(res@) == on_timer(old(self)@, k).1,
    {
        let ghost m = self@;
        let mut res: Vec<Effect> = Vec::new();
        if k == Key::Char(' ') {
            res = self.toggle_pause();
            let ghost first = res@;
            assert(effect_views(first).len() == first.len());
            assert(first.len() == 1);
            assert(first[0]@ == effect_views(first)[0]);
            assert(first[0]@ == EffectView::ApplyPause);
            res.push(Effect::SaveTimerState);
            assert(res@ == first.push(Effect::SaveTimerState));
        } else if k == Key::Char('m') || k == Key::Char('M') {
            res = self.toggle_mute();
        } else if k == Key::Char('+') || k == Key::Char('=') {
            res.push(Effect::VolumeUp);
            res.push(Effect::SaveConfig);
        } else if k == Key::Char('-') || k == Key::Char('_') {
            res.push(Effect::VolumeDown);
            res.push(Effect::SaveConfig);
        } else if k == Key::Char('q') || k == Key::Char('h') || k == Key::Left || k == Key::Esc {
            self.screen = Screen::Activity;
            res.push(Effect::LogSession(false));
            res.push(Effect::ClearTimerState);
            res.push(Effect::StopBgm);
        }
        assert(effect_views(res@) =~= on_timer(m, k).1);
        res
    }

    fn on_history_key(&mut self, k: Key, count: usize) -> (res: Vec<Effect>)
        requires
            !(!is_up(k) && is_down(k) && old(self).history_scroll == usize::MAX),
        ensures
            final(self)@ == on_history(old(self)@, k, count).0,
            effect_views(res@) == on_history(old(self)@, k, count).1,
    {
        let ghost m = self@;
        let mut res: Vec<Effect> = Vec::new();
        if up_key(k) {
            self.history_scroll = if self.history_scroll > 0 {
                self.history_scroll - 1
            } else {
                0
            };
        } else if down_key(k) {
            self.history_scroll = self.history_scroll + 1;
        } else if k == Key::Char('d') || k == Key::Delete {
            if count > 0 && self.history_scroll < count {
                res.push(Effect::DeleteHistoryEntry(self.history_scroll));
            }
        } else if k == Key::Char('e') {
            if count > 0 && self.history_scroll < count {
                self.screen = Screen::SessionForm;
                res.push(Effect::EditHistoryEntry(self.history_scroll));
            }
        } else if k == Key::Char('a') {
            self.screen = Screen::SessionForm;
            res.push(Effect::NewFormEntry);
        } else if k == Key::Esc || k == Key::Char('q') || k == Key::Left {
            self.screen = Screen::Activity;
        }
        assert(effect_views(res@) =~= on_history(m, k, count).1);
        res
    }

    fn on_session_form_key(&mut self, k: Key) -> (res: Vec<Effect>)
        requires
            app_inv(old(self)@),
            !(!is_up(k) && !is_down(k) && is_right(k) && ((old(self).form.cursor == 2
                && old(self).form.mins == 0xffff_ffff) || (old(self).form.cursor == 3
                && old(self).form.break_mins == 0xffff_ffff) || (old(self).form.cursor == 4
                && old(self).form.done == 0xffff_ffff) || (old(self).form.cursor == 5
                && old(self).form.planned == 0xffff_ffff))),
        ensures
            final(self)@ == on_session_form(old(self)@, k).0,
            effect_views(res@) == on_session_form(old(self)@, k).1,
    {
        let ghost m = self@;
        let mut res: Vec<Effect> = Vec::new();
        let c = self.form.cursor;
        if up_key(k) {
            self.form.cursor = if c > 0 {
                c - 1
            } else {
                0
            };
        } else if down_key(k) {
            if c < 6 {
                self.form.cursor = c + 1;
            }
        } else if right_key(k) {
            if c == 1 {
                if self.form.act_idx < self.config.acts.len() - 1 {
                    self.form.act_idx = self.form.act_idx + 1;
                }
            } else if c == 2 {
                self.form.mins = self.form.mins + 1;
            } else if c == 3 {
                self.form.break_mins = self.form.break_mins + 1;
            } else if c == 4 {
                self.form.done = self.form.done + 1;
            } else if c == 5 {
                self.form.planned = self.form.planned + 1;
            } else if c == 6 {
                self.form.completed = !self.form.completed;
            }
        } else if left_key(k) {
            if c == 1 {
                self.form.act_idx = if self.form.act_idx > 0 {
                    self.form.act_idx - 1
                } else {
                    0
                };
            } else if c == 2 {
                self.form.mins = dec_at_least_one(self.form.mins);
            } else if c == 3 {
                self.form.break_mins = dec_at_least_one(self.form.break_mins);
            } else if c == 4 {
                self.form.done = if self.form.done > 0 {
                    self.form.done - 1
                } else {
                    0
                };
            } else if c == 5 {
                self.form.planned = dec_at_least_one(self.form.planned);
            } else if c == 6 {
                self.form.completed = !self.form.completed;
            }
        } else if k == Key::Backspace && c == 0 {
            self.form.date = pop_last(&self.form.date);
        } else if k == Key::Enter {
            self.screen = Screen::History;
            res.push(Effect::SaveForm(self.form.edit_idx));
        } else if k == Key::Esc || k == Key::Char('q') {
            self.screen = Screen::History;
        } else {
            match k {
                Key::Char(ch) => {
                    let code = crate::text::code_of(ch);
                    if c == 0 && 48 <= code && code <= 57 && shorter_than_eight_bytes(
                        &self.form.date,
                    ) {
                        push_char(&mut self.form.date, ch);
                    }
                },
                _ => {},
            }
        }
        assert(effect_views(res@) =~= on_session_form(m, k).1);
        assert(self@.form.date =~= on_session_form(m, k).0.form.date);
        res
    }

    fn on_stats_key(&mut self, k: Key) -> (res: Vec<Effect>)
        requires
            !(!is_up(k) && is_down(k) && old(self).stats_scroll == usize::MAX),
        ensures
            final(self)@ == on_stats(old(self)@, k).0,
            effect_views(res@) == on_stats(old(self)@, k).1,
    {
        let res: Vec<Effect> = Vec::new();
        if up_key(k) {
            self.stats_scroll = if self.stats_scroll > 0 {
                self.stats_scroll - 1
            } else {
                0
            };
        } else if down_key(k) {
            self.stats_scroll = self.stats_scroll + 1;
        } else if k == Key::Esc || k == Key::Char('q') || k == Key::Left {
            self.screen = Screen::Activity;
        }
        assert(effect_views(res@) =~= none());
        res
    }

    /// Handles a key: `downloading` and `download_done` tell whether music
    /// is being downloaded and whether that is over; `count` is the number
    /// of entries of the history screen.
    pub fn handle_key(&mut self, k: Key, downloading: bool, download_done: bool, count: usize) -> (res:
        Vec<Effect>)
        requires
            app_inv(old(self)@),
            !key_overflows(old(self)@, k, downloading),
        ensures
            final(self)@ == key_step(old(self)@, k, downloading, download_done, count).0,
            effect_views(res@) == key_step(old(self)@, k, downloading, download_done, count).1,
            app_inv(final(self)@),
    {
        let ghost m = self@;
        if downloading {
            let mut res: Vec<Effect> = Vec::new();
            if download_done && k == Key::Enter {
                self.screen = Screen::Bgm;
                res.push(Effect::FinishDownload);
                res.push(Effect::RefreshBgm);
            }
            assert(effect_views(res@) =~= key_step(m, k, downloading, download_done, count).1);
            return res;
        }
        match self.screen {
            Screen::Resume => self.on_resume_key(k),
            Screen::Activity => self.on_activity_key(k),
            Screen::AddActivity => self.on_add_activity_key(k),
            Screen::RenameActivity => self.on_rename_activity_key(k),
            Screen::Duration => self.on_duration_key(k),
            Screen::Sessions => self.on_sessions_key(k),
            Screen::Bgm => self.on_bgm_key(k),
            Screen::BgmImport => self.on_bgm_import_key(k),
            Screen::Settings => self.on_settings_key(k),
            Screen::Timer => self.on_timer_key(k),
            Screen::History => self.on_history_key(k, count),
            Screen::SessionForm => self.on_session_form_key(k),
            Screen::Stats => self.on_stats_key(k),
        }
    }
}

// ---------------------------------------------------------------------------
// The running timer
// ---------------------------------------------------------------------------

/// The state that the state file keeps of the application.
pub open spec fn timer_state_of(m: AppModel) -> TimerState {
    TimerState {
        idx: m.idx,
        mins: m.mins,
        break_mins: m.config.break_mins,
        total: m.total,
        current: m.current,
        rem: m.rem,
        work: m.work,
        bgm_idx: m.bgm_idx,
    }
}

/// The application with the fields of a resumed state.
pub open spec fn with_timer_state(m: AppModel, t: TimerState) -> AppModel {
    AppModel {
        idx: t.idx,
        mins: t.mins,
        config: ConfigModel { break_mins: t.break_mins, ..m.config },
        total: t.total,
        current: t.current,
        rem: t.rem,
        work: t.work,
        bgm_idx: t.bgm_idx,
        ..m
    }
}

/// The timer is running: its screen is shown, it is not paused, and some
/// time is left.
pub open spec fn running(m: AppModel) -> bool {
    m.screen == Screen::Timer && !m.paused && m.rem > 0
}

/// What a second does. A running timer counts one second down and the
/// state file keeps the new count; when the phase is over, the last focus
/// session completes the session (it is logged as completed, the state file
/// is removed, the menu is shown and the music stops), another focus
/// session is followed by a break, and a break by the next focus session;
/// then the end of the phase is notified (when notifications are on) and
/// the timer pauses. A timer that is not running does nothing.
pub open spec fn tick_step(m: AppModel) -> (AppModel, Seq<EffectView>) {
    if !running(m) {
        (m, none())
    } else {
        let m1 = AppModel { rem: (m.rem - 1) as u32, ..m };
        let saved = EffectView::SaveTimerSnapshot(timer_state_of(m1));
        if m1.rem > 0 {
            (m1, seq![saved])
        } else {
            let (m2, fx, end) = if m.work {
                if m.current >= m.total {
                    (
                        AppModel { screen: Screen::Activity, ..m1 },
                        seq![
                            saved,
                            EffectView::LogSession(true),
                            EffectView::ClearTimerState,
                            EffectView::StopBgm,
                        ],
                        PhaseEnd::AllDone,
                    )
                } else {
                    (
                        AppModel { work: false, rem: (m.config.break_mins * 60) as u32, ..m1 },
                        seq![saved],
                        PhaseEnd::BreakStarts,
                    )
                }
            } else {
                (
                    AppModel {
                        work: true,
                        current: (m.current + 1) as u32,
                        rem: (m.mins * 60) as u32,
                        ..m1
                    },
                    seq![saved],
                    PhaseEnd::WorkStarts,
                )
            };
            let notes = if m.config.notifications {
                seq![EffectView::Notify(end)]
            } else {
                none()
            };
            (AppModel { paused: true, ..m2 }, fx + notes + seq![EffectView::ApplyPause])
        }
    }
}

/// Seconds whose phase change would take a number past the largest `u32`.
pub open spec fn tick_overflows(m: AppModel) -> bool {
    running(m) && m.rem == 1 && if m.work {
        m.current < m.total && m.config.break_mins * 60 > u32_max()
    } else {
        m.mins * 60 > u32_max() || m.current + 1 > u32_max()
    }
}

impl App {
    /// The state that the state file keeps.
    pub fn timer_state(&self) -> (res: TimerState)
        ensures
            res == timer_state_of(self@),
    {
        TimerState {
            idx: self.idx,
            mins: self.mins,
            break_mins: self.config.break_mins,
            total: self.total,
            current: self.current,
            rem: self.rem,
            work: self.work,
            bgm_idx: self.bgm_idx,
        }
    }

    /// Reads the state file of an interrupted session into the timer.
    pub fn load_timer_state_text(&mut self, content: &str)
        requires
            app_inv(old(self)@),
        ensures
            final(self)@ == with_timer_state(
                old(self)@,
                crate::timer::apply_state_lines(
                    timer_state_of(old(self)@),
                    crate::text::lines(content@),
                    old(self)@.config.acts.len(),
                ),
            ),
            app_inv(final(self)@),
    {
        let mut t = self.timer_state();
        t.apply_text(content, self.config.acts.len());
        self.idx = t.idx;
        self.mins = t.mins;
        self.config.break_mins = t.break_mins;
        self.total = t.total;
        self.current = t.current;
        self.rem = t.rem;
        self.work = t.work;
        self.bgm_idx = t.bgm_idx;
        proof {
            crate::timer::lemma_state_idx_kept(
                timer_state_of(old(self)@),
                crate::text::lines(content@),
                old(self)@.config.acts.len(),
            );
        }
    }

    /// Ends the Resume screen once the state file was read (`loaded`) or
    /// could not be: the timer is shown paused and its music started, or
    /// the menu is shown and the state file removed.
    pub fn resume(&mut self, loaded: bool) -> (res: Vec<Effect>)
        requires
            app_inv(old(self)@),
        ensures
            final(self)@ == if loaded {
                AppModel { paused: true, screen: Screen::Timer, ..old(self)@ }
            } else {
                AppModel { screen: Screen::Activity, ..old(self)@ }
            },
            effect_views(res@) == if loaded {
                seq![EffectView::PlayBgm]
            } else {
                seq![EffectView::ClearTimerState]
            },
            app_inv(final(self)@),
    {
        let mut res: Vec<Effect> = Vec::new();
        if loaded {
            self.paused = true;
            self.screen = Screen::Timer;
            res.push(Effect::PlayBgm);
        } else {
            self.screen = Screen::Activity;
            res.push(Effect::ClearTimerState);
        }
        assert(effect_views(res@) =~= if loaded {
            seq![EffectView::PlayBgm]
        } else {
            seq![EffectView::ClearTimerState]
        });
        res
    }

    /// One second of the timer.
    pub fn on_tick(&mut self) -> (res: Vec<Effect>)
        requires
            app_inv(old(self)@),
            !tick_overflows(old(self)@),
        ensures
            final(self)@ == tick_step(old(self)@).0,
            effect_views(res@) == tick_step(old(self)@).1,
            app_inv(final(self)@),
    {
        let ghost m = self@;
        let mut res: Vec<Effect> = Vec::new();
        if self.screen != Screen::Timer || self.paused || self.rem == 0 {
            assert(effect_views(res@) =~= tick_step(m).1);
            return res;
        }
        self.rem = self.rem - 1;
        res.push(Effect::SaveTimerSnapshot(self.timer_state()));
        if self.rem == 0 {
            let end: PhaseEnd;
            if self.work {
                if self.current >= self.total {
                    end = PhaseEnd::AllDone;
                    res.push(Effect::LogSession(true));
                    res.push(Effect::ClearTimerState);
                    self.screen = Screen::Activity;
                    res.push(Effect::StopBgm);
                } else {
                    self.work = false;
                    self.rem = self.config.break_mins * 60;
                    end = PhaseEnd::BreakStarts;
                }
            } else {
                self.work = true;
                self.current = self.current + 1;
                self.rem = self.mins * 60;
                end = PhaseEnd::WorkStarts;
            }
            if self.config.notifications {
                res.push(Effect::Notify(end));
            }
            self.paused = true;
            res.push(Effect::ApplyPause);
        }
        assert(effect_views(res@) =~= tick_step(m).1);
        res
    }
}

/// Muting twice, or pausing twice, gives the application back as it was;
/// either keeps the invariant of the application.
pub proof fn lemma_toggles_undo(m: AppModel)
    ensures
        mute_toggled(mute_toggled(m)) == m,
        pause_toggled(pause_toggled(m)) == m,
        app_inv(m) ==> app_inv(mute_toggled(m)) && app_inv(pause_toggled(m)),
{
}

/// On the timer screen, `m` mutes or unmutes the music and asks for the
/// volume to be applied, and the space bar pauses or resumes the timer and
/// asks for the music to follow and the state to be saved; each changes
/// nothing else, so pressing either twice gives the application back as it
/// was.
pub proof fn lemma_timer_toggles(m: AppModel, download_done: bool, count: usize)
    requires
        m.screen == Screen::Timer,
    ensures
        key_step(m, Key::Char('m'), false, download_done, count).0 == (AppModel {
            muted: !m.muted,
            ..m
        }),
        key_step(m, Key::Char('m'), false, download_done, count).1 == seq![EffectView::ApplyVolume],
        key_step(
            key_step(m, Key::Char('m'), false, download_done, count).0,
            Key::Char('m'),
            false,
            download_done,
            count,
        ).0 == m,
        key_step(m, Key::Char(' '), false, download_done, count).0 == (AppModel {
            paused: !m.paused,
            ..m
        }),
        key_step(m, Key::Char(' '), false, download_done, count).1 == seq![
            EffectView::ApplyPause,
            EffectView::SaveTimerState,
        ],
        key_step(
            key_step(m, Key::Char(' '), false, download_done, count).0,
            Key::Char(' '),
            false,
            download_done,
            count,
        ).0 == m,
{
}

/// The end of a phase of a running timer, at its last second:
/// a focus session that is not the last is followed by a break of the
/// length set in the settings, with the same session count; a break is
/// followed by the next focus session, of the chosen focus length; the last
/// focus session ends the timer, back on the menu, with the session logged
/// as completed, the state file removed and the music stopped. The timer
/// then waits, paused, in each case.
pub proof fn lemma_phase_ends(m: AppModel)
    requires
        m.screen == Screen::Timer,
        !m.paused,
        m.rem == 1,
        !tick_overflows(m),
    ensures
        m.work && m.current < m.total ==> {
            let n = tick_step(m).0;
            &&& n.screen == Screen::Timer
            &&& !n.work
            &&& n.rem == m.config.break_mins * 60
            &&& n.current == m.current
            &&& n.total == m.total
            &&& n.paused
        },
        !m.work ==> {
            let n = tick_step(m).0;
            &&& n.screen == Screen::Timer
            &&& n.work
            &&& n.rem == m.mins * 60
            &&& n.current == m.current + 1
            &&& n.total == m.total
            &&& n.paused
        },
        m.work && m.current >= m.total ==> {
            let n = tick_step(m).0;
            let fx = tick_step(m).1;
            &&& n.screen == Screen::Activity
            &&& n.paused
            &&& fx.len() >= 4
            &&& fx[1] == EffectView::LogSession(true)
            &&& fx[2] == EffectView::ClearTimerState
            &&& fx[3] == EffectView::StopBgm
        },
{
}

/// Starting the timer on the music screen (Enter, `l` or Right) starts the
/// first focus session, whatever session count was there before, for the
/// chosen focus length and number of sessions, running; it notes the start,
/// saves the state and starts the music.
pub proof fn lemma_start_timer(m: AppModel, k: Key, download_done: bool, count: usize)
    requires
        m.screen == Screen::Bgm,
        k == Key::Enter || k == Key::Char('l') || k == Key::Right,
        !key_overflows(m, k, false),
    ensures
        ({
            let n = key_step(m, k, false, download_done, count).0;
            &&& n.screen == Screen::Timer
            &&& n.current == 1
            &&& n.total == m.total
            &&& n.rem == m.mins * 60
            &&& n.work
            &&& !n.paused
            &&& n.idx == m.idx
            &&& n.bgm_idx == m.bgm_idx
        }),
        key_step(m, k, false, download_done, count).1 == seq![
            EffectView::MarkSessionStart,
            EffectView::SaveTimerState,
            EffectView::PlayBgm,
        ],
{
}

/// Choosing the focus length and the number of sessions: Up (or `k`)
/// adds one, Down (or `j`) takes one away but never goes below one, and
/// nothing else of the timer changes.
pub proof fn lemma_length_and_sessions_keys(m: AppModel, k: Key, download_done: bool, count: usize)
    requires
        !key_overflows(m, k, false),
    ensures
        m.screen == Screen::Duration && (k == Key::Up || k == Key::Char('k')) ==> {
            let n = key_step(m, k, false, download_done, count).0;
            n.mins == m.mins + 1 && n.total == m.total && n.screen == Screen::Duration
        },
        m.screen == Screen::Duration && (k == Key::Down || k == Key::Char('j')) ==> {
            let n = key_step(m, k, false, download_done, count).0;
            &&& n.mins == if m.mins > 1 {
                m.mins - 1
            } else {
                1
            }
            &&& n.total == m.total
            &&& n.screen == Screen::Duration
        },
        m.screen == Screen::Sessions && (k == Key::Up || k == Key::Char('k')) ==> {
            let n = key_step(m, k, false, download_done, count).0;
            n.total == m.total + 1 && n.mins == m.mins && n.screen == Screen::Sessions
        },
        m.screen == Screen::Sessions && (k == Key::Down || k == Key::Char('j')) ==> {
            let n = key_step(m, k, false, download_done, count).0;
            &&& n.total == if m.total > 1 {
                m.total - 1
            } else {
                1
            }
            &&& n.mins == m.mins
            &&& n.screen == Screen::Sessions
        },
{
}

/// On the settings screen, Right (or `l`) raises the break length by a
/// minute and Left (or `h`) lowers it by one, down to one minute, when the
/// cursor is on it; on the notifications either key turns them on or off.
/// Each saves the settings and changes no other setting.
pub proof fn lemma_settings_keys(m: AppModel, k: Key, download_done: bool, count: usize)
    requires
        m.screen == Screen::Settings,
        !key_overflows(m, k, false),
    ensures
        (k == Key::Right || k == Key::Char('l')) && m.settings_cursor == 2 ==> {
            let c = key_step(m, k, false, download_done, count).0.config;
            &&& c.break_mins == m.config.break_mins + 1
            &&& c.notifications == m.config.notifications
            &&& c.theme == m.config.theme
            &&& c.volume_pct == m.config.volume_pct
            &&& c.acts == m.config.acts
        },
        (k == Key::Left || k == Key::Char('h')) && m.settings_cursor == 2 ==> {
            let c = key_step(m, k, false, download_done, count).0.config;
            &&& c.break_mins == if m.config.break_mins > 1 {
                m.config.break_mins - 1
            } else {
                1
            }
            &&& c.notifications == m.config.notifications
            &&& c.theme == m.config.theme
            &&& c.volume_pct == m.config.volume_pct
            &&& c.acts == m.config.acts
        },
        (k == Key::Right || k == Key::Char('l') || k == Key::Left || k == Key::Char('h'))
            && m.settings_cursor == 0 ==> {
            let c = key_step(m, k, false, download_done, count).0.config;
            &&& c.notifications == !m.config.notifications
            &&& c.break_mins == m.config.break_mins
            &&& c.theme == m.config.theme
        },
        (k == Key::Right || k == Key::Char('l') || k == Key::Left || k == Key::Char('h')) ==> {
            &&& key_step(m, k, false, download_done, count).1 == seq![EffectView::SaveConfig]
            &&& key_step(m, k, false, download_done, count).0.screen == Screen::Settings
        },
{
}

/// On the history screen, `e` opens the form on the entry selected, and
/// `d` (or Delete) deletes the entry selected, when one is selected (the
/// selection below the number of entries shown); otherwise they do
/// nothing.
pub proof fn lemma_history_acts_on_selection(m: AppModel, download_done: bool, count: usize)
    requires
        m.screen == Screen::History,
    ensures
        m.history_scroll < count ==> key_step(m, Key::Char('e'), false, download_done, count) == (
        AppModel { screen: Screen::SessionForm, ..m },
        seq![EffectView::EditHistoryEntry(m.history_scroll)],
        ),
        m.history_scroll < count ==> key_step(m, Key::Char('d'), false, download_done, count) == (
        m,
        seq![EffectView::DeleteHistoryEntry(m.history_scroll)],
        ),
        m.history_scroll < count ==> key_step(m, Key::Delete, false, download_done, count) == (
        m,
        seq![EffectView::DeleteHistoryEntry(m.history_scroll)],
        ),
        m.history_scroll >= count ==> key_step(m, Key::Char('e'), false, download_done, count) == (
        m,
        Seq::<EffectView>::empty(),
        ),
        m.history_scroll >= count ==> key_step(m, Key::Char('d'), false, download_done, count) == (
        m,
        Seq::<EffectView>::empty(),
        ),
{
}

/// The session counter of a running timer stays within the sessions
/// planned: from a state with the current session between 1 and the
/// number planned (and below it during a break), a second leads to such a
/// state again.
pub proof fn lemma_tick_keeps_sessions(m: AppModel)
    requires
        1 <= m.current <= m.total,
        !m.work ==> m.current < m.total,
        !tick_overflows(m),
    ensures
        1 <= tick_step(m).0.current <= tick_step(m).0.total,
        !tick_step(m).0.work ==> tick_step(m).0.current < tick_step(m).0.total,
{
}

/// A second of a running timer takes one second off, and so does every
/// second but the last of a phase; a timer that is not running stays as it
/// is and asks for nothing.
pub proof fn lemma_tick_counts_down(m: AppModel)
    ensures
        running(m) && m.rem > 1 ==> tick_step(m).0 == (AppModel { rem: (m.rem - 1) as u32, ..m }),
        !running(m) ==> tick_step(m).0 == m && tick_step(m).1.len() == 0,
        running(m) && m.rem == 1 ==> tick_step(m).0.paused,
{
}

// ---------------------------------------------------------------------------
// Starting, settings, music and history
// ---------------------------------------------------------------------------

/// The application at launch, before the settings file is read: the Resume
/// screen when a saved session waits, else the menu; the built-in
/// activities; 25 minute focus sessions, four of them, with 5 minute
/// breaks; the timer paused at 25:00; no music; the form ready for today's
/// date.
pub open spec fn initial_model(has_saved_state: bool, today_digits: Seq<char>) -> AppModel {
    AppModel {
        screen: if has_saved_state {
            Screen::Resume
        } else {
            Screen::Activity
        },
        config: default_config(),
        idx: 0,
        mins: 25,
        total: 4,
        current: 1,
        rem: 1500,
        work: true,
        paused: true,
        input: Seq::empty(),
        bgm_list: seq!["None"@],
        bgm_idx: 0,
        settings_cursor: 0,
        muted: false,
        history_scroll: 0,
        form: FormModel {
            act_idx: 0,
            mins: 25,
            break_mins: 5,
            done: 4,
            planned: 4,
            completed: true,
            date: today_digits,
            cursor: 0,
            edit_idx: None,
        },
        rename_idx: 0,
        stats_scroll: 0,
    }
}

/// The name ends with `.mp3`.
pub open spec fn is_mp3(name: Seq<char>) -> bool {
    name.len() >= 4 && name.subrange(name.len() - 4, name.len() as int) == ".mp3"@
}

/// The music files among `names`, in order.
pub open spec fn mp3_names(names: Seq<Seq<char>>) -> Seq<Seq<char>>
    decreases names.len(),
{
    if names.len() == 0 {
        names
    } else if is_mp3(names.last()) {
        mp3_names(names.drop_last()).push(names.last())
    } else {
        mp3_names(names.drop_last())
    }
}

/// Whether a name ends with `.mp3`.
fn ends_with_mp3(name: &[char]) -> (res: bool)
    ensures
        res == is_mp3(name@),
{
    proof {
        reveal_strlit(".mp3");
    }
    let n = name.len();
    if n < 4 {
        return false;
    }
    let res = name[n - 4] == '.' && name[n - 3] == 'm' && name[n - 2] == 'p' && name[n - 1] == '3';
    let ghost t = name@.subrange(n - 4, n as int);
    assert(".mp3"@ =~= seq!['.', 'm', 'p', '3']);
    if res {
        assert(t =~= ".mp3"@);
    } else {
        assert(t[0] != '.' || t[1] != 'm' || t[2] != 'p' || t[3] != '3');
        assert(t != ".mp3"@);
    }
    res
}

/// The list of background music: "None", then the music files among the
/// names of the files of the music folder.
pub fn bgm_choices(file_names: &Vec<String>) -> (res: Vec<String>)
    ensures
        res@.map_values(|s: String| s@) == seq!["None"@] + mp3_names(
            file_names@.map_values(|s: String| s@),
        ),
{
    let ghost names = file_names@.map_values(|s: String| s@);
    let mut res: Vec<String> = Vec::new();
    res.push(String::from_str("None"));
    let mut i: usize = 0;
    assert(names.take(0) =~= Seq::<Seq<char>>::empty());
    while i < file_names.len()
        invariant
            i <= file_names.len(),
            names == file_names@.map_values(|s: String| s@),
            res@.map_values(|s: String| s@) =~= seq!["None"@] + mp3_names(names.take(i as int)),
        decreases file_names.len() - i,
    {
        let cs = chars_of(file_names[i].as_str());
        assert(names.take(i + 1).drop_last() =~= names.take(i as int));
        assert(names.take(i + 1).last() == cs@);
        if ends_with_mp3(cs.as_slice()) {
            let ghost before = res@.map_values(|s: String| s@);
            res.push(file_names[i].clone());
            assert(res@.map_values(|s: String| s@) =~= before.push(cs@));
        }
        i = i + 1;
    }
    assert(names.take(i as int) =~= names);
    res
}

impl App {
    /// The application at launch.
    pub fn new(has_saved_state: bool, today_digits: String) -> (res: App)
        ensures
            res@ == initial_model(has_saved_state, today_digits@),
            app_inv(res@),
    {
        let mut bgm: Vec<String> = Vec::new();
        bgm.push(String::from_str("None"));
        let app = App {
            screen: if has_saved_state {
                Screen::Resume
            } else {
                Screen::Activity
            },
            config: Config::new(),
            idx: 0,
            mins: 25,
            total: 4,
            current: 1,
            rem: 25 * 60,
            work: true,
            paused: true,
            input: String::new(),
            bgm_list: bgm,
            bgm_idx: 0,
            settings_cursor: 0,
            muted: false,
            history_scroll: 0,
            form: SessionForm {
                act_idx: 0,
                mins: 25,
                break_mins: 5,
                done: 4,
                planned: 4,
                completed: true,
                date: today_digits,
                cursor: 0,
                edit_idx: None,
            },
            rename_idx: 0,
            stats_scroll: 0,
        };
        assert(app@.bgm_list =~= seq!["None"@]);
        assert(app@ =~= initial_model(has_saved_state, app.form.date@));
        app
    }

    /// Reads the settings file (the settings saved at the last launch).
    pub fn load_config_text(&mut self, content: &str)
        requires
            app_inv(old(self)@),
            old(self)@.config.acts.len() + content@.len() + 2 <= usize::MAX,
        ensures
            final(self)@ == (AppModel {
                config: crate::settings::apply_settings(
                    old(self)@.config,
                    crate::text::lines(content@),
                ),
                ..old(self)@
            }),
            app_inv(final(self)@),
    {
        proof {
            crate::text::lemma_lines_len(content@);
            crate::settings::lemma_apply_settings_grows(old(self)@.config, crate::text::lines(content@));
        }
        self.config.apply_text(content);
    }

    /// Offers the music files among the names of the files of the music
    /// folder.
    pub fn set_bgm_files(&mut self, file_names: &Vec<String>)
        requires
            app_inv(old(self)@),
        ensures
            final(self)@ == (AppModel {
                bgm_list: seq!["None"@] + mp3_names(file_names@.map_values(|s: String| s@)),
                ..old(self)@
            }),
            app_inv(final(self)@),
    {
        self.bgm_list = bgm_choices(file_names);
    }

    /// The music to play: the index of the chosen music, unless "None" or
    /// nothing is chosen.
    pub fn bgm_to_play(&self) -> (res: Option<usize>)
        ensures
            res == if self.bgm_idx == 0 || self.bgm_idx >= self.bgm_list.len() {
                None
            } else {
                Some(self.bgm_idx)
            },
    {
        if self.bgm_idx == 0 || self.bgm_idx >= self.bgm_list.len() {
            None
        } else {
            Some(self.bgm_idx)
        }
    }

    /// Moves the history cursor after an entry was deleted and `remaining`
    /// entries are left.
    pub fn after_history_delete(&mut self, remaining: usize)
        requires
            app_inv(old(self)@),
        ensures
            final(self)@ == (AppModel {
                history_scroll: if remaining == 0 {
                    0
                } else if old(self).history_scroll >= remaining {
                    (remaining - 1) as usize
                } else {
                    old(self).history_scroll
                },
                ..old(self)@
            }),
            app_inv(final(self)@),
    {
        self.history_scroll = crate::history::scroll_after_delete(self.history_scroll, remaining);
    }

    /// The history line of the timer session, completed or abandoned, on
    /// the given date.
    pub fn session_log_line(&self, date: &str, completed: bool) -> (res: String)
        requires
            self.idx < self.config.acts.len(),
        ensures
            res@ == crate::history::csv_line(
                date@,
                without(self@.config.acts[self.idx as int], ','),
                self.mins as nat,
                self.config.break_mins as nat,
                self.total as nat,
                crate::history::sessions_done(self.total, self.current, completed),
                completed,
            ),
    {
        crate::history::timer_session_line(
            date,
            self.config.acts[self.idx].as_str(),
            self.mins,
            self.config.break_mins,
            self.total,
            self.current,
            completed,
        )
    }
}

/// The cursor of a list of `count` items kept on an item (on the first
/// when the list is empty).
pub fn clamp_scroll(scroll: usize, count: usize) -> (res: usize)
    ensures
        res == if count == 0 {
            0
        } else if scroll > count - 1 {
            (count - 1) as usize
        } else {
            scroll
        },
{
    let max = if count > 0 {
        count - 1
    } else {
        0
    };
    if scroll > max {
        max
    } else {
        scroll
    }
}

impl App {
    /// The number of entries of the menu: the activities, then the history
    /// and the statistics.
    pub fn menu_len(&self) -> (res: usize)
        requires
            app_inv(self@),
        ensures
            res == self.config.acts.len() + 2,
    {
        self.config.acts.len() + 2
    }

    /// Whether the step of a key would take a number past the largest
    /// value of its type.
    pub fn key_would_overflow(&self, k: Key, downloading: bool) -> (res: bool)
        ensures
            res == key_overflows(self@, k, downloading),
    {
        if downloading {
            return false;
        }
        let max: u32 = 0xffff_ffff;
        match self.screen {
            Screen::AddActivity => {
                if k == Key::Enter {
                    let cs = chars_of(self.input.as_str());
                    let name = trim_chars(cs.as_slice());
                    name.len() > 0 && !contains_activity(&self.config.acts, name.as_slice())
                        && self.config.acts.len() > usize::MAX - 3
                } else {
                    false
                }
            },
            Screen::Duration => up_key(k) && self.mins == max,
            Screen::Sessions => up_key(k) && self.total == max,
            Screen::Bgm => k != Key::Char('i') && !up_key(k) && !down_key(k) && forward_key(k)
                && self.mins > max / 60,
            Screen::Settings => !up_key(k) && !down_key(k) && !left_key(k) && right_key(k)
                && self.settings_cursor == 2 && self.config.break_mins == max,
            Screen::History => !up_key(k) && down_key(k) && self.history_scroll == usize::MAX,
            Screen::Stats => !up_key(k) && down_key(k) && self.stats_scroll == usize::MAX,
            Screen::SessionForm => !up_key(k) && !down_key(k) && right_key(k) && ((
            self.form.cursor == 2 && self.form.mins == max) || (self.form.cursor == 3
                && self.form.break_mins == max) || (self.form.cursor == 4 && self.form.done == max)
                || (self.form.cursor == 5 && self.form.planned == max)),
            _ => false,
        }
    }

    /// Whether the next second would take a number past the largest `u32`.
    pub fn tick_would_overflow(&self) -> (res: bool)
        ensures
            res == tick_overflows(self@),
    {
        let max: u32 = 0xffff_ffff;
        if !(self.screen == Screen::Timer && !self.paused && self.rem == 1) {
            return false;
        }
        if self.work {
            self.current < self.total && self.config.break_mins > max / 60
        } else {
            self.mins > max / 60 || self.current == max
        }
    }
}

} // verus!
