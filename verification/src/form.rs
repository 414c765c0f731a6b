//! The form that adds a session to the history by hand or edits one.
use vstd::prelude::*;
use crate::date::{csv_date_text, cuttable, eight_digits, format_date_csv};
use crate::history::{
    csv_line, entry_lines, entry_position_of, is_sorted_history, lemma_csv_line_fields,
    nth_newest_shown, replaced_text, sorted_by_date, yes_no,
};
use crate::text::{
    chars_of, eq_chars, eq_str, lines, lines_of, unlines, parse_unsigned, parse_unsigned_chars, pieces,
    push_chars, push_decimal, push_str, split_chars, string_of, trim, trim_chars, u32_max, views,
    without, without_char,
};

verus! {

/// What the form holds, as values.
pub struct FormModel {
    pub act_idx: usize,
    pub mins: u32,
    pub break_mins: u32,
    pub done: u32,
    pub planned: u32,
    pub completed: bool,
    pub date: Seq<char>,
    pub cursor: usize,
    pub edit_idx: Option<usize>,
}

/// The session form: the activity (an index into the activities), the
/// focus and break lengths in minutes, the focus sessions done and
/// planned, whether the session was completed, the date as typed digits,
/// the field under the cursor, and the entry being edited (none when a new
/// entry is added).
pub struct SessionForm {
    pub act_idx: usize,
    pub mins: u32,
    pub break_mins: u32,
    pub done: u32,
    pub planned: u32,
    pub completed: bool,
    pub date: String,
    pub cursor: usize,
    pub edit_idx: Option<usize>,
}

impl View for SessionForm {
    type V = FormModel;

    open spec fn view(&self) -> FormModel {
        FormModel {
            act_idx: self.act_idx,
            mins: self.mins,
            break_mins: self.break_mins,
            done: self.done,
            planned: self.planned,
            completed: self.completed,
            date: self.date@,
            cursor: self.cursor,
            edit_idx: self.edit_idx,
        }
    }
}

/// The `u32` a field holds, or `default` when it holds none.
pub open spec fn number_or(v: Seq<char>, default: u32) -> u32 {
    match parse_unsigned(v, u32_max()) {
        Some(n) => n as u32,
        None => default,
    }
}

/// The names of the activities as the history file writes them (without
/// commas).
pub open spec fn csv_names(acts: Seq<Seq<char>>) -> Seq<Seq<char>> {
    acts.map_values(|a: Seq<char>| without(a, ','))
}

/// The index of the first activity whose name, without commas, is `name`;
/// 0 when there is none.
pub open spec fn activity_index(acts: Seq<Seq<char>>, name: Seq<char>) -> usize {
    if exists|i: int| 0 <= i < acts.len() && without(acts[i], ',') == name {
        (choose|i: int|
            0 <= i < acts.len() && without(acts[i], ',') == name && forall|j: int|
                0 <= j < i ==> without(#[trigger] acts[j], ',') != name) as usize
    } else {
        0
    }
}

/// The form filled from an entry line of the history: with at least seven
/// fields, the date without its dashes, the activity of that name, the
/// numbers of the fields (25, 5, 4 and 0 for fields that hold none), and
/// whether the session was completed; a line with fewer fields leaves
/// these as they were.
pub open spec fn form_from_line(f: FormModel, line: Seq<char>, acts: Seq<Seq<char>>) -> FormModel {
    let p = pieces(line, ',');
    if p.len() >= 7 {
        FormModel {
            date: without(p[0], '-'),
            act_idx: activity_index(acts, p[1]),
            mins: number_or(p[2], 25),
            break_mins: number_or(p[3], 5),
            planned: number_or(p[4], 4),
            done: number_or(p[5], 0),
            completed: trim(p[6]) == "Yes"@,
            ..f
        }
    } else {
        f
    }
}

/// The form opened on the entry shown at `display_idx` of the history
/// screen (newest first): filled from the line of that entry, with the
/// cursor on the first field; unchanged when the screen shows no such
/// entry.
pub open spec fn form_for_edit(
    f: FormModel,
    content: Seq<char>,
    display_idx: usize,
    acts: Seq<Seq<char>>,
) -> FormModel {
    let raw = entry_lines(content);
    match nth_newest_shown(raw, display_idx as int) {
        Some(k) => FormModel {
            cursor: 0,
            edit_idx: Some(display_idx),
            ..form_from_line(f, raw[k], acts)
        },
        None => f,
    }
}

/// The name of the form's activity as the history file writes it, or
/// `Unknown` for an index past the activities.
pub open spec fn form_activity(f: FormModel, acts: Seq<Seq<char>>) -> Seq<char> {
    if f.act_idx < acts.len() {
        without(acts[f.act_idx as int], ',')
    } else {
        "Unknown"@
    }
}

/// The history line of the session the form describes.
pub open spec fn form_line(f: FormModel, acts: Seq<Seq<char>>) -> Seq<char> {
    csv_line(
        csv_date_text(f.date),
        form_activity(f, acts),
        f.mins as nat,
        f.break_mins as nat,
        f.planned as nat,
        f.done as nat,
        f.completed,
    )
}

/// The contents of a list of strings.
pub open spec fn names(acts: Seq<String>) -> Seq<Seq<char>> {
    acts.map_values(|a: String| a@)
}

fn number_or_of(v: &[char], default: u32) -> (res: u32)
    ensures
        res == number_or(v@, default),
{
    match parse_unsigned_chars(v, 0xffff_ffff) {
        Some(n) => n as u32,
        None => default,
    }
}

fn activity_index_of(acts: &Vec<String>, name: &[char]) -> (res: usize)
    ensures
        res == activity_index(names(acts@), name@),
{
    let ghost ns = names(acts@);
    let mut i: usize = 0;
    while i < acts.len()
        invariant
            i <= acts.len(),
            ns == names(acts@),
            forall|j: int| 0 <= j < i ==> without(#[trigger] ns[j], ',') != name@,
        decreases acts.len() - i,
    {
        let a = chars_of(acts[i].as_str());
        let stripped = without_char(a.as_slice(), ',');
        if eq_chars(stripped.as_slice(), name) {
            proof {
                let c = choose|c: int|
                    0 <= c < ns.len() && without(ns[c], ',') == name@ && forall|j: int|
                        0 <= j < c ==> without(#[trigger] ns[j], ',') != name@;
                assert(0 <= i < ns.len() && without(ns[i as int], ',') == name@);
                if c < i {
                    assert(without(ns[c], ',') != name@);
                } else if i < c {
                    assert(without(ns[i as int], ',') != name@);
                }
            }
            return i;
        }
        i = i + 1;
    }
    0
}

impl SessionForm {
    /// The form for adding a session: the first activity, the lengths of
    /// the current timer, four of four sessions completed, today's date.
    pub fn for_add(mins: u32, break_mins: u32, today_digits: String) -> (res: SessionForm)
        ensures
            res@ == (FormModel {
                act_idx: 0,
                mins,
                break_mins,
                done: 4,
                planned: 4,
                completed: true,
                date: today_digits@,
                cursor: 0,
                edit_idx: None,
            }),
    {
        SessionForm {
            act_idx: 0,
            mins,
            break_mins,
            done: 4,
            planned: 4,
            completed: true,
            date: today_digits,
            cursor: 0,
            edit_idx: None,
        }
    }

    /// Fills the form from an entry line.
    fn fill_from_line(&mut self, line: &[char], acts: &Vec<String>)
        ensures
            final(self)@ == form_from_line(old(self)@, line@, names(acts@)),
    {
        let p = split_chars(line, ',');
        if p.len() >= 7 {
            let d = without_char(p[0].as_slice(), '-');
            self.date = string_of(d.as_slice());
            self.act_idx = activity_index_of(acts, p[1].as_slice());
            self.mins = number_or_of(p[2].as_slice(), 25);
            self.break_mins = number_or_of(p[3].as_slice(), 5);
            self.planned = number_or_of(p[4].as_slice(), 4);
            self.done = number_or_of(p[5].as_slice(), 0);
            let six = trim_chars(p[6].as_slice());
            self.completed = eq_str(six.as_slice(), "Yes");
        }
    }

    /// Opens the form on the entry shown at `display_idx` of the history
    /// screen.
    pub fn edit_from_history(&mut self, content: &str, display_idx: usize, acts: &Vec<String>)
        ensures
            final(self)@ == form_for_edit(old(self)@, content@, display_idx, names(acts@)),
    {
        let cs = chars_of(content);
        let ls = lines_of(cs.as_slice());
        let ghost raw = entry_lines(content@);
        match entry_position_of(&ls, display_idx) {
            None => {},
            Some(line_idx) => {
                assert(raw[line_idx - 1] == ls@[line_idx as int]@);
                self.fill_from_line(ls[line_idx].as_slice(), acts);
                self.cursor = 0;
                self.edit_idx = Some(display_idx);
            },
        }
    }

    /// The history line of the session the form describes.
    pub fn to_line(&self, acts: &Vec<String>) -> (res: String)
        requires
            cuttable(self.date@),
        ensures
            res@ == form_line(self@, names(acts@)),
    {
        let date = format_date_csv(self.date.as_str());
        let act: Vec<char> = if self.act_idx < acts.len() {
            let a = chars_of(acts[self.act_idx].as_str());
            without_char(a.as_slice(), ',')
        } else {
            chars_of("Unknown")
        };
        let d = chars_of(date.as_str());
        let mut out = String::new();
        push_chars(&mut out, d.as_slice());
        crate::text::push_char(&mut out, ',');
        push_chars(&mut out, act.as_slice());
        crate::text::push_char(&mut out, ',');
        push_decimal(&mut out, self.mins as u64);
        crate::text::push_char(&mut out, ',');
        push_decimal(&mut out, self.break_mins as u64);
        crate::text::push_char(&mut out, ',');
        push_decimal(&mut out, self.planned as u64);
        crate::text::push_char(&mut out, ',');
        push_decimal(&mut out, self.done as u64);
        crate::text::push_char(&mut out, ',');
        if self.completed {
            push_str(&mut out, "Yes");
        } else {
            push_str(&mut out, "No");
        }
        assert(out@ =~= form_line(self@, names(acts@)));
        out
    }
}

/// Activity `i` is the first whose name, without commas, reads as its
/// own.
pub open spec fn first_of_its_name(acts: Seq<Seq<char>>, i: int) -> bool {
    0 <= i < acts.len() && forall|j: int|
        0 <= j < i ==> without(#[trigger] acts[j], ',') != without(acts[i], ',')
}

/// A session saved from the form and opened again in the form shows what
/// was saved: the date typed as eight digits, the activity (the first of
/// its name), the lengths, the sessions done and planned, and whether it
/// was completed.
pub proof fn lemma_form_round_trip(g: FormModel, f: FormModel, acts: Seq<Seq<char>>)
    requires
        eight_digits(f.date),
        first_of_its_name(acts, f.act_idx as int),
    ensures
        form_from_line(g, form_line(f, acts), acts) == (FormModel {
            date: f.date,
            act_idx: f.act_idx,
            mins: f.mins,
            break_mins: f.break_mins,
            planned: f.planned,
            done: f.done,
            completed: f.completed,
            ..g
        }),
{
    crate::date::lemma_csv_date_of_digits(f.date);
    let act = without(acts[f.act_idx as int], ',');
    crate::text::lemma_without_lacks(acts[f.act_idx as int], ',');
    assert(form_activity(f, acts) == act);
    lemma_csv_line_fields(
        csv_date_text(f.date),
        act,
        f.mins as nat,
        f.break_mins as nat,
        f.planned as nat,
        f.done as nat,
        f.completed,
    );
    let p = pieces(form_line(f, acts), ',');
    crate::text::lemma_parse_decimal(f.mins as nat, u32_max());
    crate::text::lemma_parse_decimal(f.break_mins as nat, u32_max());
    crate::text::lemma_parse_decimal(f.planned as nat, u32_max());
    crate::text::lemma_parse_decimal(f.done as nat, u32_max());
    reveal_strlit("Yes");
    reveal_strlit("No");
    crate::text::lemma_trim_id(yes_no(f.completed));
    assert("Yes"@ != "No"@) by {
        assert("Yes"@.len() != "No"@.len());
    }
    let i = f.act_idx as int;
    assert(0 <= i < acts.len() && without(acts[i], ',') == act);
    let c = choose|c: int|
        0 <= c < acts.len() && without(acts[c], ',') == act && forall|j: int|
            0 <= j < c ==> without(#[trigger] acts[j], ',') != act;
    if c < i {
        assert(without(acts[c], ',') != without(acts[i], ','));
    } else if i < c {
        assert(without(acts[i], ',') != act);
    }
    assert(activity_index(acts, p[1]) == f.act_idx);
}

/// Opening the form on the entry shown at place `d` of the history screen
/// and saving it at once gives the history file back as it was, when that
/// entry's line is one the form writes (a date of eight digits, the first
/// activity of its name, the numbers in decimal) and the file is as its
/// lines write it; the sorting that follows then changes nothing either,
/// when the entries are already in order of their dates and none is empty.
pub proof fn lemma_edit_save_unchanged(
    f: FormModel,
    h: FormModel,
    content: Seq<char>,
    d: usize,
    acts: Seq<Seq<char>>,
    t: Seq<char>,
)
    requires
        nth_newest_shown(entry_lines(content), d as int) is Some,
        entry_lines(content)[nth_newest_shown(entry_lines(content), d as int)->0] == form_line(
            h,
            acts,
        ),
        eight_digits(h.date),
        first_of_its_name(acts, h.act_idx as int),
        content == unlines(lines(content)),
    ensures
        replaced_text(content, d as int, form_line(form_for_edit(f, content, d, acts), acts))
            == Some(content),
        (forall|i: int|
            0 <= i < entry_lines(content).len() ==> (#[trigger] entry_lines(content)[i]).len() > 0)
            && sorted_by_date(entry_lines(content)) && is_sorted_history(content, t) ==> t
            == content,
{
    let es = entry_lines(content);
    let ls = lines(content);
    crate::history::lemma_nth_newest_shown(es, d as int, Seq::empty());
    let k = nth_newest_shown(es, d as int)->0;
    lemma_form_round_trip(f, h, acts);
    let g = form_for_edit(f, content, d, acts);
    assert(form_line(g, acts) == form_line(h, acts));
    assert(ls[k + 1] == es[k]);
    assert(ls.update(k + 1, es[k]) =~= ls);
    if (forall|i: int| 0 <= i < es.len() ==> (#[trigger] es[i]).len() > 0) && sorted_by_date(es)
        && is_sorted_history(content, t) {
        crate::history::lemma_sort_sorted(content, t);
    }
}

} // verus!
