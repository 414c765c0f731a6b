//! The texts that the screens, the presence status and the download show.
use vstd::prelude::*;
use crate::date::{display_text, format_date_display};
use crate::form::{FormModel, SessionForm};
use crate::pomodoro::{AppModel, App, Screen};
use crate::text::{
    chars_of, decimal, eq_str, key_value, key_value_of, lines, lines_of, parse_unsigned,
    parse_unsigned_chars, push_decimal, push_padded, push_str, u32_max, views, zero_pad,
};
use crate::timer::usize_max;

verus! {

/// The help line of a screen.
pub open spec fn help_line(s: Screen) -> Seq<char> {
    match s {
        Screen::Resume => " [Enter/Y] Resume | [Esc/N] Discard "@,
        Screen::Activity => " [J/K] Move | [A] Add | [E] Rename | [D] Delete | [S] Settings | [Q] Quit "@,
        Screen::AddActivity => " [Enter] Save | [Esc] Cancel "@,
        Screen::RenameActivity => " [Enter] Save | [Esc] Cancel "@,
        Screen::Timer => " [Space] Pause | [+/-] Vol | [M] Mute | [H/Left] Stop & Menu "@,
        Screen::Settings => " [J/K] Select | [H/L] Change | [Esc/Q] Back "@,
        Screen::History => " [J/K] Scroll | [A] Add | [E] Edit | [D] Delete | [Esc/Q] Back "@,
        Screen::SessionForm => " [J/K] Select Field | [H/L] Adjust | [Enter] Save | [Esc] Cancel "@,
        Screen::Stats => " [J/K] Scroll | [Esc/Q/Left] Back "@,
        _ => " [Arrows/HJKL] Navigate | [Esc] Back "@,
    }
}

/// The help line of a screen.
pub fn help_text(s: Screen) -> (res: &'static str)
    ensures
        res@ == help_line(s),
{
    match s {
        Screen::Resume => " [Enter/Y] Resume | [Esc/N] Discard ",
        Screen::Activity => " [J/K] Move | [A] Add | [E] Rename | [D] Delete | [S] Settings | [Q] Quit ",
        Screen::AddActivity => " [Enter] Save | [Esc] Cancel ",
        Screen::RenameActivity => " [Enter] Save | [Esc] Cancel ",
        Screen::Timer => " [Space] Pause | [+/-] Vol | [M] Mute | [H/Left] Stop & Menu ",
        Screen::Settings => " [J/K] Select | [H/L] Change | [Esc/Q] Back ",
        Screen::History => " [J/K] Scroll | [A] Add | [E] Edit | [D] Delete | [Esc/Q] Back ",
        Screen::SessionForm => " [J/K] Select Field | [H/L] Adjust | [Enter] Save | [Esc] Cancel ",
        Screen::Stats => " [J/K] Scroll | [Esc/Q/Left] Back ",
        _ => " [Arrows/HJKL] Navigate | [Esc] Back ",
    }
}

/// `M:SS`: whole minutes, then the seconds over them in two digits.
pub open spec fn clock(secs: nat) -> Seq<char> {
    decimal(secs / 60) + seq![':'] + zero_pad(decimal(secs % 60), 2)
}

/// The time left, as the timer and the Resume screen show it.
pub fn clock_text(secs: u32) -> (res: String)
    ensures
        res@ == clock(secs as nat),
{
    let mut out = String::new();
    push_decimal(&mut out, (secs / 60) as u64);
    crate::text::push_char(&mut out, ':');
    push_padded(&mut out, (secs % 60) as u64, 2);
    out
}

/// A time in minutes, as the statistics show it: `Hh Mmin`, or `Mmin`
/// under an hour.
pub open spec fn duration(minutes: nat) -> Seq<char> {
    if minutes / 60 > 0 {
        decimal(minutes / 60) + "h "@ + decimal(minutes % 60) + "min"@
    } else {
        decimal(minutes % 60) + "min"@
    }
}

/// A time in minutes, as the statistics show it.
pub fn duration_text(minutes: u32) -> (res: String)
    ensures
        res@ == duration(minutes as nat),
{
    let mut out = String::new();
    let hours = minutes / 60;
    if hours > 0 {
        push_decimal(&mut out, hours as u64);
        push_str(&mut out, "h ");
    }
    push_decimal(&mut out, (minutes % 60) as u64);
    push_str(&mut out, "min");
    out
}

/// `Session C of T`.
pub open spec fn session_count(current: nat, total: nat) -> Seq<char> {
    "Session "@ + decimal(current) + " of "@ + decimal(total)
}

/// `Session C of T`.
pub fn session_count_text(current: u32, total: u32) -> (res: String)
    ensures
        res@ == session_count(current as nat, total as nat),
{
    let mut out = String::new();
    push_str(&mut out, "Session ");
    push_decimal(&mut out, current as u64);
    push_str(&mut out, " of ");
    push_decimal(&mut out, total as u64);
    out
}

/// The phase that the timer screen shows.
pub open spec fn phase_label(paused: bool, work: bool) -> Seq<char> {
    if paused {
        "\u{23F8} PAUSED"@
    } else if work {
        "\u{1F525} FOCUS"@
    } else {
        "\u{2615} BREAK"@
    }
}

/// The phase that the timer screen shows.
pub fn phase_text(paused: bool, work: bool) -> (res: &'static str)
    ensures
        res@ == phase_label(paused, work),
{
    if paused {
        "\u{23F8} PAUSED"
    } else if work {
        "\u{1F525} FOCUS"
    } else {
        "\u{2615} BREAK"
    }
}

/// The presence status shown to others: on the timer screen whether the
/// session is paused, on a break or in focus (with the activity), and the
/// session count; elsewhere that the timer is being set up.
pub open spec fn presence(m: AppModel) -> (Seq<char>, Seq<char>) {
    if m.screen == Screen::Timer {
        let act = m.config.acts[m.idx as int];
        let state = if m.paused {
            "\u{23F8}\u{FE0F} Paused: "@ + act
        } else if !m.work {
            "\u{2615} Taking a Break"@
        } else {
            "\u{1F525} Focusing: "@ + act
        };
        (state, session_count(m.current as nat, m.total as nat))
    } else {
        ("Configuring..."@, "Main Menu"@)
    }
}

impl App {
    /// The presence status shown to others.
    pub fn presence_text(&self) -> (res: (String, String))
        requires
            self.screen == Screen::Timer ==> self.idx < self.config.acts.len(),
        ensures
            res.0@ == presence(self@).0,
            res.1@ == presence(self@).1,
    {
        if self.screen == Screen::Timer {
            let mut state = String::new();
            if self.paused {
                push_str(&mut state, "\u{23F8}\u{FE0F} Paused: ");
                push_str(&mut state, self.config.acts[self.idx].as_str());
            } else if !self.work {
                push_str(&mut state, "\u{2615} Taking a Break");
            } else {
                push_str(&mut state, "\u{1F525} Focusing: ");
                push_str(&mut state, self.config.acts[self.idx].as_str());
            }
            (state, session_count_text(self.current, self.total))
        } else {
            (String::from_str("Configuring..."), String::from_str("Main Menu"))
        }
    }

    /// When the countdown shown to others ends, at Unix time `now`: the
    /// time the running phase ends, on the timer screen with the timer
    /// running; none otherwise (no countdown is shown).
    pub fn presence_end(&self, now: u64) -> (res: Option<u64>)
        requires
            now + self.rem <= u64::MAX,
        ensures
            res == if self.screen == Screen::Timer && !self.paused {
                Some((now + self.rem) as u64)
            } else {
                None
            },
    {
        if self.screen == Screen::Timer && !self.paused {
            Some(now + self.rem as u64)
        } else {
            None
        }
    }
}

// ---------------------------------------------------------------------------
// The Resume screen
// ---------------------------------------------------------------------------

/// What the Resume screen reads of the state file.
pub struct ResumeFields {
    pub current: u32,
    pub total: u32,
    pub rem: u32,
    pub idx: usize,
    pub work: bool,
}

/// A number of the state file as the Resume screen reads it: 0 when the
/// value is not one.
pub open spec fn u32_or_zero(v: Seq<char>) -> u32 {
    match parse_unsigned(v, u32_max()) {
        Some(n) => n as u32,
        None => 0,
    }
}

/// The fields after one line of the state file.
pub open spec fn resume_line(r: ResumeFields, line: Seq<char>) -> ResumeFields {
    match key_value(line) {
        None => r,
        Some((k, v)) => if k == "current"@ {
            ResumeFields { current: u32_or_zero(v), ..r }
        } else if k == "total"@ {
            ResumeFields { total: u32_or_zero(v), ..r }
        } else if k == "rem"@ {
            ResumeFields { rem: u32_or_zero(v), ..r }
        } else if k == "idx"@ {
            ResumeFields {
                idx: match parse_unsigned(v, usize_max()) {
                    Some(n) => n as usize,
                    None => 0,
                },
                ..r
            }
        } else if k == "work"@ {
            ResumeFields { work: v == "true"@, ..r }
        } else {
            r
        },
    }
}

/// The fields after the lines of the state file, from 0, 0, 0, the first
/// activity and a focus phase.
pub open spec fn resume_fields(ls: Seq<Seq<char>>) -> ResumeFields
    decreases ls.len(),
{
    if ls.len() == 0 {
        ResumeFields { current: 0, total: 0, rem: 0, idx: 0, work: true }
    } else {
        resume_line(resume_fields(ls.drop_last()), ls.last())
    }
}

/// The text of the Resume screen: the saved session (activity, phase,
/// session count and time left) when the state file could be read.
pub open spec fn resume_text(content: Option<Seq<char>>, acts: Seq<Seq<char>>) -> Seq<char> {
    let head = "\n\n\u{23F8}\u{FE0F} Previous session found!\n\n"@;
    match content {
        None => head + "Could not read session details."@,
        Some(c) => {
            let r = resume_fields(lines(c));
            let act = if r.idx < acts.len() {
                acts[r.idx as int]
            } else {
                "Unknown"@
            };
            let phase = if r.work {
                "Focus"@
            } else {
                "Break"@
            };
            head + act + " | "@ + phase + " | "@ + session_count(r.current as nat, r.total as nat)
                + seq!['\n'] + clock(r.rem as nat) + " remaining"@
        },
    }
}

fn u32_or_zero_of(v: &[char]) -> (res: u32)
    ensures
        res == u32_or_zero(v@),
{
    match parse_unsigned_chars(v, 0xffff_ffff) {
        Some(n) => n as u32,
        None => 0,
    }
}

fn resume_line_of(r: &mut ResumeFields, line: &[char])
    ensures
        *final(r) == resume_line(*old(r), line@),
{
    match key_value_of(line) {
        None => {},
        Some((k, v)) => {
            let k = k.as_slice();
            let v = v.as_slice();
            if eq_str(k, "current") {
                r.current = u32_or_zero_of(v);
            } else if eq_str(k, "total") {
                r.total = u32_or_zero_of(v);
            } else if eq_str(k, "rem") {
                r.rem = u32_or_zero_of(v);
            } else if eq_str(k, "idx") {
                r.idx = match parse_unsigned_chars(v, usize::MAX as u64) {
                    Some(n) => n as usize,
                    None => 0,
                };
            } else if eq_str(k, "work") {
                r.work = eq_str(v, "true");
            }
        },
    }
}

/// The text of the Resume screen.
pub fn resume_info(content: Option<&str>, acts: &Vec<String>) -> (res: String)
    ensures
        res@ == resume_text(
            match content {
                Some(c) => Some(c@),
                None => None,
            },
            acts@.map_values(|a: String| a@),
        ),
{
    let mut out = String::new();
    push_str(&mut out, "\n\n\u{23F8}\u{FE0F} Previous session found!\n\n");
    match content {
        None => {
            push_str(&mut out, "Could not read session details.");
        },
        Some(c) => {
            let cs = chars_of(c);
            let ls = lines_of(cs.as_slice());
            let mut r = ResumeFields { current: 0, total: 0, rem: 0, idx: 0, work: true };
            let mut i: usize = 0;
            while i < ls.len()
                invariant
                    i <= ls.len(),
                    views(ls@) == lines(c@),
                    r == resume_fields(views(ls@).take(i as int)),
                decreases ls.len() - i,
            {
                resume_line_of(&mut r, ls[i].as_slice());
                assert(views(ls@).take(i + 1).drop_last() =~= views(ls@).take(i as int));
                i = i + 1;
            }
            assert(views(ls@).take(i as int) =~= views(ls@));
            if r.idx < acts.len() {
                push_str(&mut out, acts[r.idx].as_str());
            } else {
                push_str(&mut out, "Unknown");
            }
            push_str(&mut out, " | ");
            if r.work {
                push_str(&mut out, "Focus");
            } else {
                push_str(&mut out, "Break");
            }
            push_str(&mut out, " | ");
            let count = session_count_text(r.current, r.total);
            push_str(&mut out, count.as_str());
            crate::text::push_char(&mut out, '\n');
            let time = clock_text(r.rem);
            push_str(&mut out, time.as_str());
            push_str(&mut out, " remaining");
        },
    }
    out
}

// ---------------------------------------------------------------------------
// The session form and the download
// ---------------------------------------------------------------------------

/// The fields of the session form, each with its label and its value.
pub open spec fn form_fields(f: FormModel, acts: Seq<Seq<char>>) -> Seq<(Seq<char>, Seq<char>)> {
    let act = if f.act_idx < acts.len() {
        acts[f.act_idx as int]
    } else {
        "?"@
    };
    seq![
        ("Date"@, display_text(f.date)),
        ("Activity"@, "< "@ + act + " >"@),
        ("Duration"@, "< "@ + decimal(f.mins as nat) + " min >"@),
        ("Break"@, "< "@ + decimal(f.break_mins as nat) + " min >"@),
        ("Sessions Done"@, "< "@ + decimal(f.done as nat) + " >"@),
        ("Sessions Planned"@, "< "@ + decimal(f.planned as nat) + " >"@),
        ("Completed"@, "< "@ + (if f.completed {
            "Yes"@
        } else {
            "No"@
        }) + " >"@),
    ]
}

fn bracketed_number(n: u32, unit: &str) -> (res: String)
    ensures
        res@ == "< "@ + decimal(n as nat) + unit@,
{
    let mut out = String::new();
    push_str(&mut out, "< ");
    push_decimal(&mut out, n as u64);
    push_str(&mut out, unit);
    out
}

impl SessionForm {
    /// The fields of the form, each with its label and its value.
    pub fn display_fields(&self, acts: &Vec<String>) -> (res: Vec<(String, String)>)
        ensures
            res@.map_values(|p: (String, String)| (p.0@, p.1@)) == form_fields(
                self@,
                acts@.map_values(|a: String| a@),
            ),
    {
        let mut res: Vec<(String, String)> = Vec::new();
        res.push((String::from_str("Date"), format_date_display(self.date.as_str())));
        let mut act = String::new();
        push_str(&mut act, "< ");
        if self.act_idx < acts.len() {
            push_str(&mut act, acts[self.act_idx].as_str());
        } else {
            push_str(&mut act, "?");
        }
        push_str(&mut act, " >");
        res.push((String::from_str("Activity"), act));
        res.push((String::from_str("Duration"), bracketed_number(self.mins, " min >")));
        res.push((String::from_str("Break"), bracketed_number(self.break_mins, " min >")));
        res.push((String::from_str("Sessions Done"), bracketed_number(self.done, " >")));
        res.push((String::from_str("Sessions Planned"), bracketed_number(self.planned, " >")));
        let mut done = String::new();
        push_str(&mut done, "< ");
        if self.completed {
            push_str(&mut done, "Yes");
        } else {
            push_str(&mut done, "No");
        }
        push_str(&mut done, " >");
        res.push((String::from_str("Completed"), done));
        assert(res@.map_values(|p: (String, String)| (p.0@, p.1@)) =~= form_fields(
            self@,
            acts@.map_values(|a: String| a@),
        ));
        res
    }
}

/// The status line of a download: while it runs, and once the downloader
/// ran (successfully or not) or could not be started.
pub open spec fn download_status(outcome: Option<Option<bool>>) -> Seq<char> {
    match outcome {
        None => "\u{1F4E5} Downloading to system storage..."@,
        Some(Some(true)) => "\u{2705} Success! Press ENTER"@,
        Some(Some(false)) => "\u{274C} Failed"@,
        Some(None) => "\u{274C} yt-dlp missing"@,
    }
}

/// The status line of a download: `None` while it runs; `Some(Some(ok))`
/// once the downloader ran, `Some(None)` when it could not be started.
pub fn download_message(outcome: Option<Option<bool>>) -> (res: &'static str)
    ensures
        res@ == download_status(outcome),
{
    match outcome {
        None => "\u{1F4E5} Downloading to system storage...",
        Some(Some(true)) => "\u{2705} Success! Press ENTER",
        Some(Some(false)) => "\u{274C} Failed",
        Some(None) => "\u{274C} yt-dlp missing",
    }
}

} // verus!
