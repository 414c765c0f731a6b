//! The session history: the file `sessions.csv`, a header line followed by
//! one line per session (`date,activity,duration_mins,break_mins,
//! sessions_planned,sessions_done,completed`), and what the history screens
//! make of it.
use vstd::prelude::*;
use crate::text::{
    lemma_lex_le_refl, lemma_lex_le_total, lemma_lex_le_trans, lemma_pieces_nonempty, lex_le,
    lex_le_chars, chars_of, copy_chars, decimal, eq_chars, join, join_chars, lines, lines_of, pieces, push_chars, push_decimal, push_lines,
    push_str, split_chars, string_of, strip_cr, unlines, views, without, without_char,
};

verus! {

/// The header line of the history file.
pub open spec fn header_line() -> Seq<char> {
    "date,activity,duration_mins,break_mins,sessions_planned,sessions_done,completed"@
}

/// `Yes` or `No`.
pub open spec fn yes_no(b: bool) -> Seq<char> {
    if b {
        "Yes"@
    } else {
        "No"@
    }
}

/// The history line of a session.
pub open spec fn csv_line(
    date: Seq<char>,
    act: Seq<char>,
    mins: nat,
    break_mins: nat,
    planned: nat,
    done: nat,
    completed: bool,
) -> Seq<char> {
    date + seq![','] + act + seq![','] + decimal(mins) + seq![','] + decimal(break_mins) + seq![
        ',',
    ] + decimal(planned) + seq![','] + decimal(done) + seq![','] + yes_no(completed)
}

/// The focus sessions a timer session counts as done: all planned ones
/// when it was completed, else those before the current one.
pub open spec fn sessions_done(total: u32, current: u32, completed: bool) -> nat {
    if completed {
        total as nat
    } else if current >= 1 {
        (current - 1) as nat
    } else {
        0
    }
}

/// Appends the history line of a session.
fn push_csv_line(
    out: &mut String,
    date: &[char],
    act: &[char],
    mins: u32,
    break_mins: u32,
    planned: u32,
    done: u32,
    completed: bool,
)
    ensures
        final(out)@ == old(out)@ + csv_line(
            date@,
            act@,
            mins as nat,
            break_mins as nat,
            planned as nat,
            done as nat,
            completed,
        ),
{
    let ghost start = out@;
    push_chars(out, date);
    crate::text::push_char(out, ',');
    push_chars(out, act);
    crate::text::push_char(out, ',');
    push_decimal(out, mins as u64);
    crate::text::push_char(out, ',');
    push_decimal(out, break_mins as u64);
    crate::text::push_char(out, ',');
    push_decimal(out, planned as u64);
    crate::text::push_char(out, ',');
    push_decimal(out, done as u64);
    crate::text::push_char(out, ',');
    if completed {
        push_str(out, "Yes");
    } else {
        push_str(out, "No");
    }
    assert(out@ =~= start + csv_line(
        date@,
        act@,
        mins as nat,
        break_mins as nat,
        planned as nat,
        done as nat,
        completed,
    ));
}

/// The history line that a timer session leaves when it ends: the date,
/// the activity without its commas, the lengths of the phases, the
/// sessions planned and done, and whether it was completed.
pub fn timer_session_line(
    date: &str,
    activity: &str,
    mins: u32,
    break_mins: u32,
    total: u32,
    current: u32,
    completed: bool,
) -> (res: String)
    ensures
        res@ == csv_line(
            date@,
            without(activity@, ','),
            mins as nat,
            break_mins as nat,
            total as nat,
            sessions_done(total, current, completed),
            completed,
        ),
{
    let done: u32 = if completed {
        total
    } else {
        current.saturating_sub(1)
    };
    let d = chars_of(date);
    let a = chars_of(activity);
    let a = without_char(a.as_slice(), ',');
    let mut out = String::new();
    push_csv_line(&mut out, d.as_slice(), a.as_slice(), mins, break_mins, total, done, completed);
    out
}

/// What is added to the history file for a new line: the header first
/// when the file does not exist yet, then the line, each ended by a line
/// feed.
pub fn append_text(write_header: bool, line: &str) -> (res: String)
    ensures
        res@ == if write_header {
            unlines(seq![header_line(), line@])
        } else {
            unlines(seq![line@])
        },
{
    let mut out = String::new();
    if write_header {
        push_str(&mut out, "date,activity,duration_mins,break_mins,sessions_planned,sessions_done,completed");
        crate::text::push_char(&mut out, '\n');
    }
    push_str(&mut out, line);
    crate::text::push_char(&mut out, '\n');
    proof {
        reveal_with_fuel(unlines, 3);
        assert(seq![header_line(), line@].drop_last() =~= seq![header_line()]);
        assert(seq![header_line()].drop_last() =~= Seq::<Seq<char>>::empty());
        assert(seq![line@].drop_last() =~= Seq::<Seq<char>>::empty());
    }
    out
}

// ---------------------------------------------------------------------------
// The entries of the history
// ---------------------------------------------------------------------------

/// The lines after the first (the header).
pub open spec fn after_header(ls: Seq<Seq<char>>) -> Seq<Seq<char>> {
    if ls.len() == 0 {
        ls
    } else {
        ls.skip(1)
    }
}

/// The entry lines of a history file: all its lines but the header.
pub open spec fn entry_lines(content: Seq<char>) -> Seq<Seq<char>> {
    after_header(lines(content))
}

/// Strings of the given contents.
fn strings_of(ls: &Vec<Vec<char>>, from: usize) -> (res: Vec<String>)
    requires
        from <= ls.len(),
    ensures
        res@.map_values(|s: String| s@) == views(ls@).skip(from as int),
{
    let mut res: Vec<String> = Vec::new();
    let mut i = from;
    while i < ls.len()
        invariant
            from <= i <= ls.len(),
            res@.map_values(|s: String| s@) =~= views(ls@).subrange(from as int, i as int),
        decreases ls.len() - i,
    {
        let s = string_of(ls[i].as_slice());
        let ghost before = res@.map_values(|s: String| s@);
        res.push(s);
        assert(res@.map_values(|s: String| s@) =~= before.push(ls@[i as int]@));
        i = i + 1;
    }
    res
}

/// The entry lines of a history file, oldest first as the file holds them.
pub fn history_lines(content: &str) -> (res: Vec<String>)
    ensures
        res@.map_values(|s: String| s@) == entry_lines(content@),
{
    let cs = chars_of(content);
    let ls = lines_of(cs.as_slice());
    if ls.len() == 0 {
        let res: Vec<String> = Vec::new();
        assert(res@.map_values(|s: String| s@) =~= entry_lines(content@));
        res
    } else {
        strings_of(&ls, 1)
    }
}

/// What the history screen shows of an entry line: with seven fields,
/// `date | activity | Nmin work / Nmin break | done/planned sessions |
/// completed`; with six (an older layout), `date | activity | Nmin |
/// done/planned sessions | completed`; nothing for a line with fewer.
pub open spec fn display_entry(line: Seq<char>) -> Option<Seq<char>> {
    let p = pieces(line, ',');
    if p.len() >= 7 {
        Some(
            p[0] + " | "@ + p[1] + " | "@ + p[2] + "min work / "@ + p[3] + "min break | "@ + p[5]
                + seq!['/'] + p[4] + " sessions | "@ + p[6],
        )
    } else if p.len() >= 6 {
        Some(
            p[0] + " | "@ + p[1] + " | "@ + p[2] + "min | "@ + p[4] + seq!['/'] + p[3]
                + " sessions | "@ + p[5],
        )
    } else {
        None
    }
}

/// The displayed entries of the lines that have one, in the order of the
/// lines.
pub open spec fn display_entries(ls: Seq<Seq<char>>) -> Seq<Seq<char>>
    decreases ls.len(),
{
    if ls.len() == 0 {
        Seq::empty()
    } else {
        let d = display_entries(ls.drop_last());
        match display_entry(ls.last()) {
            Some(e) => d.push(e),
            None => d,
        }
    }
}

/// The history screen: the displayed entries, newest (last in the file)
/// first.
pub open spec fn history_view(content: Seq<char>) -> Seq<Seq<char>> {
    display_entries(entry_lines(content)).reverse()
}

fn display_entry_of(line: &[char]) -> (res: Option<Vec<char>>)
    ensures
        match display_entry(line@) {
            Some(e) => res matches Some(r) && r@ == e,
            None => res is None,
        },
{
    let p = split_chars(line, ',');
    if p.len() >= 7 {
        let mut out = String::new();
        push_chars(&mut out, p[0].as_slice());
        push_str(&mut out, " | ");
        push_chars(&mut out, p[1].as_slice());
        push_str(&mut out, " | ");
        push_chars(&mut out, p[2].as_slice());
        push_str(&mut out, "min work / ");
        push_chars(&mut out, p[3].as_slice());
        push_str(&mut out, "min break | ");
        push_chars(&mut out, p[5].as_slice());
        crate::text::push_char(&mut out, '/');
        push_chars(&mut out, p[4].as_slice());
        push_str(&mut out, " sessions | ");
        push_chars(&mut out, p[6].as_slice());
        Some(chars_of(out.as_str()))
    } else if p.len() >= 6 {
        let mut out = String::new();
        push_chars(&mut out, p[0].as_slice());
        push_str(&mut out, " | ");
        push_chars(&mut out, p[1].as_slice());
        push_str(&mut out, " | ");
        push_chars(&mut out, p[2].as_slice());
        push_str(&mut out, "min | ");
        push_chars(&mut out, p[4].as_slice());
        crate::text::push_char(&mut out, '/');
        push_chars(&mut out, p[3].as_slice());
        push_str(&mut out, " sessions | ");
        push_chars(&mut out, p[5].as_slice());
        Some(chars_of(out.as_str()))
    } else {
        None
    }
}

/// The entries that the history screen shows, newest first.
pub fn history_display(content: &str) -> (res: Vec<String>)
    ensures
        res@.map_values(|s: String| s@) == history_view(content@),
{
    let cs = chars_of(content);
    let ls = lines_of(cs.as_slice());
    let ghost entries = entry_lines(content@);
    let mut shown: Vec<Vec<char>> = Vec::new();
    let mut i: usize = 1;
    assert(entries.take(0) =~= Seq::<Seq<char>>::empty());
    while i < ls.len()
        invariant
            1 <= i,
            i <= ls.len() || i == 1,
            views(ls@) == lines(content@),
            entries == entry_lines(content@),
            views(shown@) == display_entries(entries.take(i - 1)),
        decreases ls.len() - i,
    {
        let ghost before = views(shown@);
        assert(entries.take(i as int).drop_last() =~= entries.take(i - 1));
        assert(entries.take(i as int).last() == ls@[i as int]@);
        match display_entry_of(ls[i].as_slice()) {
            Some(e) => {
                shown.push(e);
                assert(views(shown@) =~= before.push(e@));
            },
            None => {},
        }
        i = i + 1;
    }
    assert(entries.take(i - 1) =~= entries);
    let mut res: Vec<String> = Vec::new();
    let mut k: usize = shown.len();
    let ghost full = views(shown@);
    while k > 0
        invariant
            k <= shown.len(),
            full == views(shown@),
            res@.map_values(|s: String| s@) =~= full.reverse().take(full.len() - k),
        decreases k,
    {
        k = k - 1;
        let s = string_of(shown[k].as_slice());
        let ghost before = res@.map_values(|s: String| s@);
        res.push(s);
        assert(res@.map_values(|s: String| s@) =~= before.push(full[k as int]));
        assert(full.reverse().take(full.len() - k) =~= full.reverse().take(full.len() - k - 1).push(
            full[k as int],
        ));
    }
    assert(full.reverse().take(full.len() as int) =~= full.reverse());
    res
}

// ---------------------------------------------------------------------------
// Changing the history
// ---------------------------------------------------------------------------

/// An entry line (six fields or more, as the history screen shows it)
/// whose activity is exactly `old`, with `new` in its place; other lines as
/// they are.
pub open spec fn rename_line(line: Seq<char>, old: Seq<char>, new: Seq<char>) -> Seq<char> {
    let p = pieces(line, ',');
    if p.len() >= 6 && p[1] == old {
        join(p.update(1, new), ',')
    } else {
        line
    }
}

/// The history file after an activity is renamed: the header as it was,
/// every entry of the activity `old` with `new` in its place; a file with
/// no line becomes a single line break.
pub open spec fn renamed_text(content: Seq<char>, old: Seq<char>, new: Seq<char>) -> Seq<char> {
    let ls = lines(content);
    if ls.len() == 0 {
        seq!['\n']
    } else {
        unlines(
        Seq::new(
            ls.len(),
            |i: int|
                if i == 0 {
                    ls[0]
                } else {
                    rename_line(ls[i], old, new)
                },
        ),
    )
    }
}

/// The history file after the activity `old_name` is renamed `new_name`.
pub fn rename_activity(content: &str, old_name: &str, new_name: &str) -> (res: String)
    ensures
        res@ == renamed_text(content@, old_name@, new_name@),
{
    let cs = chars_of(content);
    let old_cs = chars_of(old_name);
    let new_cs = chars_of(new_name);
    let ls = lines_of(cs.as_slice());
    let ghost lv = lines(content@);
    let ghost target = Seq::new(
        lv.len(),
        |i: int|
            if i == 0 {
                lv[0]
            } else {
                rename_line(lv[i], old_name@, new_name@)
            },
    );
    let mut out_lines: Vec<Vec<char>> = Vec::new();
    let mut i: usize = 0;
    while i < ls.len()
        invariant
            i <= ls.len(),
            views(ls@) == lv,
            lv == lines(content@),
            target.len() == lv.len(),
            forall|k: int| 0 <= k < lv.len() ==> #[trigger] target[k] == if k == 0 {
                lv[0]
            } else {
                rename_line(lv[k], old_name@, new_name@)
            },
            old_cs@ == old_name@,
            new_cs@ == new_name@,
            views(out_lines@) =~= target.take(i as int),
        decreases ls.len() - i,
    {
        let ghost before = views(out_lines@);
        let line = ls[i].as_slice();
        let new_line: Vec<char> = if i == 0 {
            copy_chars(line)
        } else {
            let mut p = split_chars(line, ',');
            if p.len() >= 6 && eq_chars(p[1].as_slice(), old_cs.as_slice()) {
                let ghost pv = views(p@);
                p.set(1, copy_chars(new_cs.as_slice()));
                assert(views(p@) =~= pv.update(1, new_name@));
                join_chars(&p, ',')
            } else {
                copy_chars(line)
            }
        };
        assert(new_line@ == target[i as int]);
        out_lines.push(new_line);
        assert(views(out_lines@) =~= before.push(target[i as int]));
        i = i + 1;
    }
    assert(target.take(i as int) =~= target);
    let mut out = String::new();
    if ls.len() == 0 {
        crate::text::push_char(&mut out, '\n');
        assert(out@ =~= seq!['\n']);
    } else {
        push_lines(&mut out, &out_lines);
    }
    out
}

/// Whether the history screen shows an entry for the line (a line of six
/// fields or more).
pub open spec fn is_shown(line: Seq<char>) -> bool {
    display_entry(line) is Some
}

/// The place, among the entry lines `es` (oldest first), of the line that
/// the history screen shows `d`-th, newest first; none when it shows fewer
/// entries.
pub open spec fn nth_newest_shown(es: Seq<Seq<char>>, d: int) -> Option<int>
    decreases es.len(),
{
    if es.len() == 0 {
        None
    } else if is_shown(es.last()) {
        if d == 0 {
            Some(es.len() - 1)
        } else {
            nth_newest_shown(es.drop_last(), d - 1)
        }
    } else {
        nth_newest_shown(es.drop_last(), d)
    }
}

/// The line of the file that holds the entry shown at `display_idx` on
/// the history screen (which shows the newest first); none when there is
/// no such entry.
pub open spec fn entry_position(content: Seq<char>, display_idx: int) -> Option<int> {
    match nth_newest_shown(entry_lines(content), display_idx) {
        Some(k) => Some(k + 1),
        None => None,
    }
}

/// The history file with the entry shown at `display_idx` taken out; none
/// when there is no such entry (the file then stays as it is).
pub open spec fn deleted_text(content: Seq<char>, display_idx: int) -> Option<Seq<char>> {
    match entry_position(content, display_idx) {
        Some(f) => Some(unlines(lines(content).remove(f))),
        None => None,
    }
}

/// The history file with the entry shown at `display_idx` replaced by
/// `line`; none when there is no such entry.
pub open spec fn replaced_text(content: Seq<char>, display_idx: int, line: Seq<char>) -> Option<
    Seq<char>,
> {
    match entry_position(content, display_idx) {
        Some(f) => Some(unlines(lines(content).update(f, line))),
        None => None,
    }
}

/// Whether the history screen shows an entry for the line, computed.
fn is_shown_line(line: &[char]) -> (res: bool)
    ensures
        res == is_shown(line@),
{
    let p = split_chars(line, ',');
    p.len() >= 6
}

/// The line of the file (given by its lines) that holds the entry shown
/// at `display_idx`.
pub(crate) fn entry_position_of(ls: &Vec<Vec<char>>, display_idx: usize) -> (res: Option<usize>)
    ensures
        res is None <==> nth_newest_shown(after_header(views(ls@)), display_idx as int) is None,
        res matches Some(f) ==> 1 <= f < ls.len() && nth_newest_shown(
            after_header(views(ls@)),
            display_idx as int,
        ) == Some(f - 1),
{
    let n = ls.len();
    if n == 0 {
        assert(after_header(views(ls@)) =~= Seq::<Seq<char>>::empty());
        return None;
    }
    let ghost es = views(ls@).skip(1);
    assert(after_header(views(ls@)) == es);
    let mut i: usize = n;
    let mut seen: usize = 0;
    assert(es.take(n - 1) =~= es);
    while i > 1
        invariant
            1 <= i <= n,
            n == ls.len(),
            es == views(ls@).skip(1),
            seen <= display_idx,
            nth_newest_shown(es, display_idx as int) == nth_newest_shown(
                es.take(i - 1),
                display_idx - seen,
            ),
        decreases i,
    {
        let j = i - 1;
        assert(es.take(i - 1).drop_last() =~= es.take(j - 1));
        assert(es.take(i - 1).last() == ls@[j as int]@);
        if is_shown_line(ls[j].as_slice()) {
            if seen == display_idx {
                return Some(j);
            }
            seen = seen + 1;
        }
        i = j;
    }
    assert(es.take(0) =~= Seq::<Seq<char>>::empty());
    None
}

/// The history file after the entry shown at `display_idx` is deleted.
pub fn delete_entry(content: &str, display_idx: usize) -> (res: Option<String>)
    ensures
        match deleted_text(content@, display_idx as int) {
            Some(t) => res matches Some(r) && r@ == t,
            None => res is None,
        },
{
    let cs = chars_of(content);
    let mut ls = lines_of(cs.as_slice());
    match entry_position_of(&ls, display_idx) {
        None => None,
        Some(f) => {
            let ghost before = views(ls@);
            assert(entry_position(content@, display_idx as int) == Some(f as int));
            ls.remove(f);
            assert(views(ls@) =~= before.remove(f as int));
            let mut out = String::new();
            push_lines(&mut out, &ls);
            Some(out)
        },
    }
}

/// The history file after the entry shown at `display_idx` is replaced by
/// `line`.
pub fn replace_entry(content: &str, display_idx: usize, line: &str) -> (res: Option<String>)
    ensures
        match replaced_text(content@, display_idx as int, line@) {
            Some(t) => res matches Some(r) && r@ == t,
            None => res is None,
        },
{
    let cs = chars_of(content);
    let mut ls = lines_of(cs.as_slice());
    match entry_position_of(&ls, display_idx) {
        None => None,
        Some(f) => {
            let ghost before = views(ls@);
            ls.set(f, chars_of(line));
            assert(views(ls@) =~= before.update(f as int, line@));
            let mut out = String::new();
            push_lines(&mut out, &ls);
            Some(out)
        },
    }
}

/// Where the history screen's selection stands after an entry is deleted
/// and `remaining` entries are left: at the top when none is left, on the
/// last one when it stood below it, else where it was.
pub fn scroll_after_delete(scroll: usize, remaining: usize) -> (res: usize)
    ensures
        res == if remaining == 0 {
            0
        } else if scroll >= remaining {
            (remaining - 1) as usize
        } else {
            scroll
        },
{
    if remaining == 0 {
        0
    } else if scroll >= remaining {
        remaining - 1
    } else {
        scroll
    }
}

// ---------------------------------------------------------------------------
// Keeping the history sorted by date
// ---------------------------------------------------------------------------

/// The date of an entry line: its text up to the first comma.
pub open spec fn date_key(line: Seq<char>) -> Seq<char> {
    pieces(line, ',')[0]
}

/// Lines in order of their dates.
pub open spec fn sorted_by_date(ls: Seq<Seq<char>>) -> bool {
    forall|i: int, j: int|
        0 <= i < j < ls.len() ==> lex_le(date_key(#[trigger] ls[i]), date_key(#[trigger] ls[j]))
}

/// `r` holds the lines of `s`, line `i` of `r` being line `p[i]` of `s`,
/// and lines of the same date stand in `r` in the order they had in `s`.
pub open spec fn stable_permutation(r: Seq<Seq<char>>, s: Seq<Seq<char>>, p: Seq<int>) -> bool {
    &&& p.len() == r.len()
    &&& r.len() == s.len()
    &&& forall|i: int| 0 <= i < p.len() ==> 0 <= #[trigger] p[i] < s.len() && r[i] == s[p[i]]
    &&& forall|i: int, j: int| 0 <= i < j < p.len() ==> #[trigger] p[i] != #[trigger] p[j]
    &&& forall|i: int, j: int|
        0 <= i < j < p.len() && date_key(r[i]) == date_key(r[j]) ==> #[trigger] p[i]
            < #[trigger] p[j]
}

/// `r` is `s` sorted by date, lines of the same date in their order in `s`
/// (what a stable sort gives).
pub open spec fn is_stable_sort(r: Seq<Seq<char>>, s: Seq<Seq<char>>) -> bool {
    sorted_by_date(r) && exists|p: Seq<int>| stable_permutation(r, s, p)
}

/// The lines that are not empty, in order.
pub open spec fn nonempty_lines(ls: Seq<Seq<char>>) -> Seq<Seq<char>>
    decreases ls.len(),
{
    if ls.len() == 0 {
        ls
    } else if ls.last().len() == 0 {
        nonempty_lines(ls.drop_last())
    } else {
        nonempty_lines(ls.drop_last()).push(ls.last())
    }
}

/// The history file after sorting: the header, then the non-empty entry
/// lines sorted by date (a stable sort); the file is rewritten only when it
/// has at least two entry lines.
pub open spec fn is_sorted_history(content: Seq<char>, result: Seq<char>) -> bool {
    let ls = lines(content);
    exists|r: Seq<Seq<char>>|
        is_stable_sort(r, nonempty_lines(ls.skip(1))) && result == #[trigger] unlines(
            seq![ls[0]] + r,
        )
}

spec fn sort_inv(out: Seq<Seq<char>>, p: Seq<int>, s: Seq<Seq<char>>, n: int) -> bool {
    &&& 0 <= n <= s.len()
    &&& out.len() == n
    &&& p.len() == n
    &&& sorted_by_date(out)
    &&& forall|i: int| 0 <= i < n ==> 0 <= #[trigger] p[i] < n && out[i] == s[p[i]]
    &&& forall|i: int, j: int| 0 <= i < j < n ==> #[trigger] p[i] != #[trigger] p[j]
    &&& forall|i: int, j: int|
        0 <= i < j < n && date_key(out[i]) == date_key(out[j]) ==> #[trigger] p[i]
            < #[trigger] p[j]
}

#[verifier::spinoff_prover]
proof fn lemma_insert_step(out: Seq<Seq<char>>, p: Seq<int>, s: Seq<Seq<char>>, n: int, pos: int)
    requires
        sort_inv(out, p, s, n),
        n < s.len(),
        0 <= pos <= out.len(),
        pos > 0 ==> lex_le(date_key(out[pos - 1]), date_key(s[n])),
        forall|k: int| pos <= k < out.len() ==> !lex_le(date_key(#[trigger] out[k]), date_key(s[n])),
    ensures
        sort_inv(out.insert(pos, s[n]), p.insert(pos, n), s, n + 1),
{
    let x = s[n];
    let out2 = out.insert(pos, x);
    let p2 = p.insert(pos, n);
    out.insert_ensures(pos, x);
    p.insert_ensures(pos, n);
    assert forall|i: int, j: int| 0 <= i < j < out2.len() implies lex_le(
        date_key(#[trigger] out2[i]),
        date_key(#[trigger] out2[j]),
    ) by {
        if j < pos {
            assert(out2[i] == out[i] && out2[j] == out[j]);
        } else if j == pos {
            assert(out2[i] == out[i]);
            if i < pos - 1 {
                assert(lex_le(date_key(out[i]), date_key(out[pos - 1])));
                lemma_lex_le_trans(date_key(out[i]), date_key(out[pos - 1]), date_key(x));
            }
        } else if i == pos {
            assert(out2[j] == out[j - 1]);
            assert(!lex_le(date_key(out[j - 1]), date_key(x)));
            lemma_lex_le_total(date_key(out[j - 1]), date_key(x));
        } else if i < pos {
            assert(out2[i] == out[i] && out2[j] == out[j - 1]);
        } else {
            assert(out2[i] == out[i - 1] && out2[j] == out[j - 1]);
        }
    }
    assert forall|i: int| 0 <= i < n + 1 implies 0 <= #[trigger] p2[i] < n + 1 && out2[i] == s[p2[i]] by {
        if i < pos {
            assert(p2[i] == p[i]);
        } else if i > pos {
            assert(p2[i] == p[i - 1]);
        }
    }
    assert forall|i: int, j: int| 0 <= i < j < n + 1 implies #[trigger] p2[i] != #[trigger] p2[j] by {
        if i != pos && j != pos {
            let i0 = if i < pos { i } else { i - 1 };
            let j0 = if j < pos { j } else { j - 1 };
            assert(p2[i] == p[i0] && p2[j] == p[j0]);
            assert(p[i0] != p[j0]);
        } else if i == pos {
            assert(p2[j] == p[j - 1]);
        } else {
            assert(p2[i] == p[i]);
        }
    }
    assert forall|i: int, j: int|
        0 <= i < j < n + 1 && date_key(out2[i]) == date_key(out2[j]) implies #[trigger] p2[i]
        < #[trigger] p2[j] by {
        if i != pos && j != pos {
            let i0 = if i < pos { i } else { i - 1 };
            let j0 = if j < pos { j } else { j - 1 };
            assert(p2[i] == p[i0] && p2[j] == p[j0]);
            assert(out2[i] == out[i0] && out2[j] == out[j0]);
        } else if i == pos {
            assert(out2[j] == out[j - 1]);
            lemma_lex_le_refl(date_key(x));
        } else {
            assert(p2[i] == p[i]);
        }
    }
}

/// The date of a line, computed.
fn date_key_of(line: &[char]) -> (res: Vec<char>)
    ensures
        res@ == date_key(line@),
{
    let p = split_chars(line, ',');
    proof {
        lemma_pieces_nonempty(line@, ',');
    }
    copy_chars(p[0].as_slice())
}

/// The lines sorted by date, lines of the same date keeping their order.
pub fn stable_sort_by_date(s: &Vec<Vec<char>>) -> (r: Vec<Vec<char>>)
    ensures
        is_stable_sort(views(r@), views(s@)),
{
    let ghost sv = views(s@);
    let mut out: Vec<Vec<char>> = Vec::new();
    let mut keys: Vec<Vec<char>> = Vec::new();
    let ghost mut p: Seq<int> = Seq::empty();
    let mut n: usize = 0;
    while n < s.len()
        invariant
            n <= s.len(),
            sv == views(s@),
            sort_inv(views(out@), p, sv, n as int),
            keys.len() == out.len(),
            forall|k: int| 0 <= k < keys.len() ==> (#[trigger] keys@[k])@ == date_key(out@[k]@),
        decreases s.len() - n,
    {
        let x = copy_chars(s[n].as_slice());
        let kx = date_key_of(x.as_slice());
        let mut pos = out.len();
        while pos > 0 && !lex_le_chars(keys[pos - 1].as_slice(), kx.as_slice())
            invariant
                pos <= out.len(),
                keys.len() == out.len(),
                forall|k: int| 0 <= k < keys.len() ==> (#[trigger] keys@[k])@ == date_key(out@[k]@),
                forall|k: int|
                    pos <= k < out.len() ==> !lex_le(date_key(#[trigger] views(out@)[k]), kx@),
            decreases pos,
        {
            pos = pos - 1;
        }
        proof {
            assert(x@ == sv[n as int]);
            if pos > 0 {
                assert(keys@[pos - 1]@ == date_key(out@[pos - 1]@));
            }
            lemma_insert_step(views(out@), p, sv, n as int, pos as int);
        }
        let ghost before = views(out@);
        let ghost kbefore = keys@;
        out.insert(pos, x);
        keys.insert(pos, kx);
        proof {
            p = p.insert(pos as int, n as int);
            assert(views(out@) =~= before.insert(pos as int, sv[n as int]));
            assert forall|k: int| 0 <= k < keys.len() implies (#[trigger] keys@[k])@ == date_key(
                out@[k]@,
            ) by {
                if k < pos {
                    assert(keys@[k] == kbefore[k]);
                } else if k > pos {
                    assert(keys@[k] == kbefore[k - 1]);
                }
            }
        }
        n = n + 1;
    }
    assert(stable_permutation(views(out@), sv, p));
    out
}

/// The history file sorted by date; none when it has fewer than two entry
/// lines, in which case it is left as it is.
pub fn sort_history(content: &str) -> (res: Option<String>)
    ensures
        res is None <==> lines(content@).len() <= 2,
        res matches Some(t) ==> is_sorted_history(content@, t@),
{
    let cs = chars_of(content);
    let ls = lines_of(cs.as_slice());
    if ls.len() <= 2 {
        return None;
    }
    let ghost entries = views(ls@).skip(1);
    let mut data: Vec<Vec<char>> = Vec::new();
    let mut i: usize = 1;
    while i < ls.len()
        invariant
            1 <= i <= ls.len(),
            entries == views(ls@).skip(1),
            views(data@) == nonempty_lines(entries.take(i - 1)),
        decreases ls.len() - i,
    {
        assert(entries.take(i as int).drop_last() =~= entries.take(i - 1));
        assert(entries.take(i as int).last() == ls@[i as int]@);
        if ls[i].len() > 0 {
            let ghost before = views(data@);
            data.push(copy_chars(ls[i].as_slice()));
            assert(views(data@) =~= before.push(ls@[i as int]@));
        }
        i = i + 1;
    }
    assert(entries.take(i - 1) =~= entries);
    let sorted = stable_sort_by_date(&data);
    let mut all: Vec<Vec<char>> = Vec::new();
    all.push(copy_chars(ls[0].as_slice()));
    let mut k: usize = 0;
    while k < sorted.len()
        invariant
            k <= sorted.len(),
            views(all@) =~= seq![views(ls@)[0]] + views(sorted@).take(k as int),
        decreases sorted.len() - k,
    {
        let ghost before = views(all@);
        all.push(copy_chars(sorted[k].as_slice()));
        assert(views(all@) =~= before.push(sorted@[k as int]@));
        assert(views(sorted@).take(k + 1) =~= views(sorted@).take(k as int).push(sorted@[k as int]@));
        k = k + 1;
    }
    assert(views(sorted@).take(k as int) =~= views(sorted@));
    let mut out = String::new();
    push_lines(&mut out, &all);
    Some(out)
}

// ---------------------------------------------------------------------------
// What changes of the history keep
// ---------------------------------------------------------------------------

/// No line of the text ends with a carriage return (which the next reading
/// would take for part of the line break).
pub open spec fn no_cr_endings(content: Seq<char>) -> bool {
    forall|i: int| 0 <= i < lines(content).len() ==> strip_cr(#[trigger] lines(content)[i]) == lines(content)[i]
}

/// The line found for place `d` holds the entry shown there; taking it out
/// takes that entry out of what is shown, and putting a shown line in its
/// place puts that line's entry in place of it.
pub(crate) proof fn lemma_nth_newest_shown(es: Seq<Seq<char>>, d: int, line: Seq<char>)
    requires
        0 <= d,
    ensures
        nth_newest_shown(es, d) is Some <==> d < display_entries(es).len(),
        nth_newest_shown(es, d) matches Some(k) ==> {
            let de = display_entries(es);
            &&& 0 <= k < es.len()
            &&& is_shown(es[k])
            &&& de[de.len() - 1 - d] == display_entry(es[k])->0
            &&& display_entries(es.remove(k)) == de.remove(de.len() - 1 - d)
            &&& is_shown(line) ==> display_entries(es.update(k, line)) == de.update(
                de.len() - 1 - d,
                display_entry(line)->0,
            )
        },
    decreases es.len(),
{
    if es.len() == 0 {
        return;
    }
    let e2 = es.drop_last();
    let last = es.last();
    let n = es.len() as int;
    if is_shown(last) && d == 0 {
        assert(es.remove(n - 1) =~= e2);
        let de = display_entries(es);
        assert(de.remove(de.len() - 1) =~= display_entries(e2));
        if is_shown(line) {
            assert(es.update(n - 1, line).drop_last() =~= e2);
        }
    } else {
        let d2 = if is_shown(last) { d - 1 } else { d };
        lemma_nth_newest_shown(e2, d2, line);
        if let Some(k) = nth_newest_shown(es, d) {
            assert(es.remove(k).drop_last() =~= e2.remove(k));
            assert(es.remove(k).last() == last);
            assert(es.update(k, line).drop_last() =~= e2.update(k, line));
            assert(es.update(k, line).last() == last);
            let de = display_entries(es);
            let de2 = display_entries(e2);
            if is_shown(last) {
                assert(de.remove(de.len() - 1 - d) =~= de2.remove(de2.len() - 1 - d2).push(
                    display_entry(last)->0,
                ));
                if is_shown(line) {
                    assert(de.update(de.len() - 1 - d, display_entry(line)->0) =~= de2.update(
                        de2.len() - 1 - d2,
                        display_entry(line)->0,
                    ).push(display_entry(last)->0));
                }
            }
        }
    }
}

/// The text read back from lines holding no line feed and ending in no
/// carriage return has those lines.
proof fn lemma_lines_kept(r: Seq<Seq<char>>)
    requires
        forall|i: int| 0 <= i < r.len() ==> !(#[trigger] r[i]).contains('\n') && strip_cr(r[i]) == r[i],
    ensures
        lines(unlines(r)) == r,
{
    crate::text::lemma_lines_of_unlines(r);
}

/// Deleting the entry shown at place `d` of the history screen (newest
/// first) is possible exactly when the screen shows more than `d` entries;
/// it takes out the line of that entry, keeps the other lines in their
/// order, and the screen then shows the same entries but that one.
pub proof fn lemma_delete_entry(content: Seq<char>, d: int)
    requires
        0 <= d,
        no_cr_endings(content),
    ensures
        deleted_text(content, d) is Some <==> d < history_view(content).len(),
        deleted_text(content, d) matches Some(t) ==> {
            let k = nth_newest_shown(entry_lines(content), d)->0;
            &&& display_entry(entry_lines(content)[k]) == Some(history_view(content)[d])
            &&& entry_lines(t) == entry_lines(content).remove(k)
            &&& history_view(t) == history_view(content).remove(d)
        },
{
    let ls = lines(content);
    let es = entry_lines(content);
    lemma_nth_newest_shown(es, d, Seq::empty());
    if let Some(k) = nth_newest_shown(es, d) {
        let f = k + 1;
        assert(es == ls.skip(1));
        crate::text::lemma_lines_no_lf(content);
        let r = ls.remove(f);
        assert forall|i: int| 0 <= i < r.len() implies !(#[trigger] r[i]).contains('\n') && strip_cr(r[i]) == r[i] by {
            if i < f {
                assert(r[i] == ls[i]);
            } else {
                assert(r[i] == ls[i + 1]);
            }
        }
        lemma_lines_kept(r);
        assert(r.skip(1) =~= es.remove(k));
        let de = display_entries(es);
        assert(de.remove(de.len() - 1 - d).reverse() =~= de.reverse().remove(d));
    }
}

/// Saving an edited entry is possible exactly when the screen shows more
/// than `d` entries; it replaces the line of the entry shown at place `d`
/// by the new line (a line without line breaks) and keeps the others, and
/// the screen then shows the new line's entry in that place.
pub proof fn lemma_replace_entry(content: Seq<char>, d: int, line: Seq<char>)
    requires
        0 <= d,
        no_cr_endings(content),
        !line.contains('\n'),
        strip_cr(line) == line,
    ensures
        replaced_text(content, d, line) is Some <==> d < history_view(content).len(),
        replaced_text(content, d, line) matches Some(t) ==> {
            let k = nth_newest_shown(entry_lines(content), d)->0;
            &&& display_entry(entry_lines(content)[k]) == Some(history_view(content)[d])
            &&& entry_lines(t) == entry_lines(content).update(k, line)
            &&& is_shown(line) ==> history_view(t) == history_view(content).update(
                d,
                display_entry(line)->0,
            )
        },
{
    let ls = lines(content);
    let es = entry_lines(content);
    lemma_nth_newest_shown(es, d, line);
    if let Some(k) = nth_newest_shown(es, d) {
        let f = k + 1;
        assert(es == ls.skip(1));
        crate::text::lemma_lines_no_lf(content);
        let r = ls.update(f, line);
        assert forall|i: int| 0 <= i < r.len() implies !(#[trigger] r[i]).contains('\n') && strip_cr(r[i]) == r[i] by {
            if i != f {
                assert(r[i] == ls[i]);
            }
        }
        lemma_lines_kept(r);
        assert(r.skip(1) =~= es.update(k, line));
        let de = display_entries(es);
        if is_shown(line) {
            assert(de.update(de.len() - 1 - d, display_entry(line)->0).reverse() =~= de.reverse().update(
                d,
                display_entry(line)->0,
            ));
        }
    }
}

/// The renamed entry line has the new name as its activity and all its
/// other fields as they were; other lines are kept as they are.
pub proof fn lemma_rename_line(line: Seq<char>, old: Seq<char>, new: Seq<char>)
    requires
        !new.contains(','),
    ensures
        pieces(line, ',').len() >= 6 && pieces(line, ',')[1] == old ==> pieces(
            rename_line(line, old, new),
            ',',
        ) == pieces(line, ',').update(1, new),
        !(pieces(line, ',').len() >= 6 && pieces(line, ',')[1] == old) ==> rename_line(
            line,
            old,
            new,
        ) == line,
        !line.contains('\n') && !new.contains('\n') ==> !rename_line(line, old, new).contains(
            '\n',
        ),
        strip_cr(line) == line ==> strip_cr(rename_line(line, old, new)) == rename_line(
            line,
            old,
            new,
        ),
{
    let p = pieces(line, ',');
    crate::text::lemma_pieces_nonempty(line, ',');
    crate::text::lemma_pieces_no_sep(line, ',');
    if p.len() >= 6 && p[1] == old {
        let q = p.update(1, new);
        assert forall|i: int| 0 <= i < q.len() implies !(#[trigger] q[i]).contains(',') by {
            if i != 1 {
                assert(q[i] == p[i]);
            }
        }
        crate::text::lemma_pieces_join(q, ',');
        if !line.contains('\n') && !new.contains('\n') {
            assert forall|i: int| 0 <= i < p.len() implies !(#[trigger] p[i]).contains('\n') by {
                crate::text::lemma_piece_in_text(line, ',', i, '\n');
            }
            assert forall|i: int| 0 <= i < q.len() implies !(#[trigger] q[i]).contains('\n') by {
                if i != 1 {
                    assert(q[i] == p[i]);
                }
            }
            crate::text::lemma_join_lacks(q, ',', '\n');
        }
        crate::text::lemma_join_pieces(line, ',');
        crate::text::lemma_join_last(q, ',');
        crate::text::lemma_join_last(p, ',');
        assert(q.last() == p.last());
    }
}

/// After an activity is renamed, the history has the same lines: the
/// header as it was, each entry of the old activity with the new name in
/// its place and its other fields kept, and every other entry as it was.
pub proof fn lemma_rename_history(content: Seq<char>, old: Seq<char>, new: Seq<char>)
    requires
        no_cr_endings(content),
        lines(content).len() > 0,
        !new.contains(','),
        !new.contains('\n'),
    ensures
        lines(renamed_text(content, old, new)).len() == lines(content).len(),
        lines(content).len() > 0 ==> lines(renamed_text(content, old, new))[0]
            == lines(content)[0],
        forall|i: int|
            1 <= i < lines(content).len() ==> #[trigger] lines(renamed_text(content, old, new))[i]
                == rename_line(lines(content)[i], old, new),
{
    let ls = lines(content);
    let r = Seq::new(
        ls.len(),
        |i: int|
            if i == 0 {
                ls[0]
            } else {
                rename_line(ls[i], old, new)
            },
    );
    crate::text::lemma_lines_no_lf(content);
    assert forall|i: int| 0 <= i < r.len() implies !(#[trigger] r[i]).contains('\n') && strip_cr(r[i]) == r[i] by {
        if i > 0 {
            lemma_rename_line(ls[i], old, new);
        }
    }
    crate::text::lemma_lines_of_unlines(r);
    assert(renamed_text(content, old, new) == unlines(r));
}

/// Renaming an activity `a` to `b` and then `b` back to `a` gives the
/// history file back as it was, when no entry had the name `b` before,
/// neither name holds a comma or a line break, and the file is as its
/// lines write it (a line feed after each line, no carriage return before
/// one, at least the header).
pub proof fn lemma_rename_round_trip(content: Seq<char>, a: Seq<char>, b: Seq<char>)
    requires
        content == unlines(lines(content)),
        lines(content).len() > 0,
        no_cr_endings(content),
        !a.contains(','),
        !a.contains('\n'),
        !b.contains(','),
        !b.contains('\n'),
        forall|i: int|
            1 <= i < lines(content).len() && pieces(#[trigger] lines(content)[i], ',').len() >= 6
                ==> pieces(lines(content)[i], ',')[1] != b,
    ensures
        renamed_text(renamed_text(content, a, b), b, a) == content,
{
    let ls = lines(content);
    let t1 = renamed_text(content, a, b);
    lemma_rename_history(content, a, b);
    let l1 = lines(t1);
    assert(l1.len() == ls.len());
    assert forall|i: int| 0 <= i < l1.len() implies strip_cr(#[trigger] l1[i]) == l1[i] by {
        crate::text::lemma_lines_no_lf(content);
        if i > 0 {
            lemma_rename_line(ls[i], a, b);
        }
    }
    let t2 = renamed_text(t1, b, a);
    let back = Seq::new(
        l1.len(),
        |i: int|
            if i == 0 {
                l1[0]
            } else {
                rename_line(l1[i], b, a)
            },
    );
    assert(t2 == unlines(back));
    assert forall|i: int| 0 <= i < back.len() implies #[trigger] back[i] == ls[i] by {
        if i > 0 {
            let l = ls[i];
            let p = pieces(l, ',');
            lemma_rename_line(l, a, b);
            lemma_rename_line(l1[i], b, a);
            crate::text::lemma_pieces_nonempty(l, ',');
            if p.len() >= 6 && p[1] == a {
                let q = p.update(1, b);
                assert(pieces(l1[i], ',') == q);
                crate::text::lemma_pieces_nonempty(l1[i], ',');
                assert(q.update(1, a) =~= p);
                crate::text::lemma_join_pieces(l, ',');
            }
        }
    }
    assert(back =~= ls);
}

proof fn lemma_nonempty_lines(ls: Seq<Seq<char>>)
    ensures
        forall|k: int|
            0 <= k < nonempty_lines(ls).len() ==> (#[trigger] nonempty_lines(ls)[k]).len() > 0
                && ls.contains(nonempty_lines(ls)[k]),
        (forall|i: int| 0 <= i < ls.len() ==> (#[trigger] ls[i]).len() > 0) ==> nonempty_lines(ls)
            == ls,
    decreases ls.len(),
{
    if ls.len() > 0 {
        let l0 = ls.drop_last();
        lemma_nonempty_lines(l0);
        let nl = nonempty_lines(ls);
        assert forall|k: int| 0 <= k < nl.len() implies (#[trigger] nl[k]).len() > 0 && ls.contains(
            nl[k],
        ) by {
            if k < nonempty_lines(l0).len() {
                assert(nl[k] == nonempty_lines(l0)[k]);
                let j = choose|j: int| 0 <= j < l0.len() && l0[j] == nl[k];
                assert(ls[j] == l0[j]);
            } else {
                assert(nl[k] == ls.last());
                assert(ls[ls.len() - 1] == ls.last());
            }
        }
        if forall|i: int| 0 <= i < ls.len() ==> (#[trigger] ls[i]).len() > 0 {
            assert forall|i: int| 0 <= i < l0.len() implies (#[trigger] l0[i]).len() > 0 by {
                assert(l0[i] == ls[i]);
            }
            assert(ls.last() == ls[ls.len() - 1]);
            assert(ls =~= l0.push(ls.last()));
        }
    }
}

proof fn lemma_increasing_at_least(p: Seq<int>, i: int)
    requires
        0 <= i < p.len(),
        forall|k: int| 0 <= k < p.len() ==> 0 <= #[trigger] p[k],
        forall|a: int, b: int| 0 <= a < b < p.len() ==> #[trigger] p[a] < #[trigger] p[b],
    ensures
        p[i] >= i,
    decreases i,
{
    if i > 0 {
        lemma_increasing_at_least(p, i - 1);
        assert(p[i - 1] < p[i]);
    }
}

proof fn lemma_increasing_at_most(p: Seq<int>, i: int)
    requires
        0 <= i < p.len(),
        forall|k: int| 0 <= k < p.len() ==> #[trigger] p[k] < p.len(),
        forall|a: int, b: int| 0 <= a < b < p.len() ==> #[trigger] p[a] < #[trigger] p[b],
    ensures
        p[i] <= i,
    decreases p.len() - i,
{
    if i < p.len() - 1 {
        lemma_increasing_at_most(p, i + 1);
        assert(p[i] < p[i + 1]);
    }
}

/// A stable sort of lines already in order of their dates leaves them as
/// they are.
proof fn lemma_stable_sort_of_sorted(r2: Seq<Seq<char>>, r: Seq<Seq<char>>)
    requires
        sorted_by_date(r),
        is_stable_sort(r2, r),
    ensures
        r2 == r,
{
    let p = choose|p: Seq<int>| stable_permutation(r2, r, p);
    assert forall|a: int, b: int| 0 <= a < b < p.len() implies #[trigger] p[a] < #[trigger] p[b] by {
        if date_key(r2[a]) != date_key(r2[b]) {
            assert(lex_le(date_key(r2[a]), date_key(r2[b])));
            if p[a] > p[b] {
                assert(lex_le(date_key(r[p[b]]), date_key(r[p[a]])));
                crate::text::lemma_lex_le_antisym(date_key(r2[a]), date_key(r2[b]));
            }
        }
    }
    assert forall|i: int| 0 <= i < r2.len() implies #[trigger] r2[i] == r[i] by {
        lemma_increasing_at_least(p, i);
        lemma_increasing_at_most(p, i);
    }
    assert(r2 =~= r);
}

/// Sorting the history again gives back the file that sorting gave, when
/// no line of the first file ended in a carriage return (which each
/// reading would take off again).
pub proof fn lemma_sort_idempotent(content: Seq<char>, t: Seq<char>, t2: Seq<char>)
    requires
        lines(content).len() > 0,
        no_cr_endings(content),
        is_sorted_history(content, t),
        is_sorted_history(t, t2),
    ensures
        t2 == t,
{
    let ls = lines(content);
    let s = nonempty_lines(ls.skip(1));
    let r = choose|r: Seq<Seq<char>>|
        is_stable_sort(r, s) && t == #[trigger] unlines(seq![ls[0]] + r);
    let all = seq![ls[0]] + r;
    crate::text::lemma_lines_no_lf(content);
    lemma_nonempty_lines(ls.skip(1));
    let p = choose|p: Seq<int>| stable_permutation(r, s, p);
    assert forall|i: int| 0 <= i < all.len() implies !(#[trigger] all[i]).contains('\n') && strip_cr(
        all[i],
    ) == all[i] by {
        if i > 0 {
            assert(all[i] == r[i - 1]);
            assert(r[i - 1] == s[p[i - 1]]);
            assert(ls.skip(1).contains(s[p[i - 1]]));
            let j = choose|j: int| 0 <= j < ls.skip(1).len() && ls.skip(1)[j] == s[p[i - 1]];
            assert(ls.skip(1)[j] == ls[j + 1]);
        }
    }
    lemma_lines_kept(all);
    let lt = lines(t);
    assert(lt == all);
    assert(lt.skip(1) =~= r);
    assert forall|i: int| 0 <= i < r.len() implies (#[trigger] r[i]).len() > 0 by {
        assert(r[i] == s[p[i]]);
    }
    lemma_nonempty_lines(r);
    assert(nonempty_lines(lt.skip(1)) == r);
    let r2 = choose|r2: Seq<Seq<char>>|
        is_stable_sort(r2, nonempty_lines(lt.skip(1))) && t2 == #[trigger] unlines(
            seq![lt[0]] + r2,
        );
    lemma_stable_sort_of_sorted(r2, r);
    assert(lt[0] == ls[0]);
}

/// Sorting a history file whose entries are already in order of their
/// dates, none of them empty, changes nothing, when the file is as its
/// lines write it (a line feed after each line).
pub proof fn lemma_sort_sorted(content: Seq<char>, t: Seq<char>)
    requires
        content == unlines(lines(content)),
        lines(content).len() > 0,
        forall|i: int|
            0 <= i < entry_lines(content).len() ==> (#[trigger] entry_lines(content)[i]).len() > 0,
        sorted_by_date(entry_lines(content)),
        is_sorted_history(content, t),
    ensures
        t == content,
{
    let ls = lines(content);
    let es = ls.skip(1);
    assert(es == entry_lines(content));
    lemma_nonempty_lines(es);
    let r = choose|r: Seq<Seq<char>>|
        is_stable_sort(r, nonempty_lines(es)) && t == #[trigger] unlines(seq![ls[0]] + r);
    lemma_stable_sort_of_sorted(r, es);
    assert(seq![ls[0]] + es =~= ls);
}

/// A history line is split back into its seven fields, when the date and
/// the activity hold no comma.
pub proof fn lemma_csv_line_fields(
    date: Seq<char>,
    act: Seq<char>,
    mins: nat,
    break_mins: nat,
    planned: nat,
    done: nat,
    completed: bool,
)
    requires
        !date.contains(','),
        !act.contains(','),
    ensures
        pieces(csv_line(date, act, mins, break_mins, planned, done, completed), ',') == seq![
            date,
            act,
            decimal(mins),
            decimal(break_mins),
            decimal(planned),
            decimal(done),
            yes_no(completed),
        ],
{
    let f = seq![
        date,
        act,
        decimal(mins),
        decimal(break_mins),
        decimal(planned),
        decimal(done),
        yes_no(completed),
    ];
    reveal_strlit("Yes");
    reveal_strlit("No");
    crate::text::lemma_decimal_lacks(mins, ',');
    crate::text::lemma_decimal_lacks(break_mins, ',');
    crate::text::lemma_decimal_lacks(planned, ',');
    crate::text::lemma_decimal_lacks(done, ',');
    assert(!yes_no(completed).contains(',')) by {
        if yes_no(completed).contains(',') {
            let k = choose|k: int| 0 <= k < yes_no(completed).len() && yes_no(completed)[k] == ',';
        }
    }
    assert forall|i: int| 0 <= i < f.len() implies !(#[trigger] f[i]).contains(',') by {}
    crate::text::lemma_pieces_join(f, ',');
    reveal_with_fuel(join, 8);
    assert(f.drop_last().drop_last().drop_last().drop_last().drop_last().drop_last() =~= seq![
        date,
    ]);
    assert(f.drop_last().drop_last().drop_last().drop_last().drop_last() =~= seq![date, act]);
    assert(f.drop_last().drop_last().drop_last().drop_last() =~= seq![date, act, decimal(mins)]);
    assert(f.drop_last().drop_last().drop_last() =~= seq![
        date,
        act,
        decimal(mins),
        decimal(break_mins),
    ]);
    assert(f.drop_last().drop_last() =~= seq![
        date,
        act,
        decimal(mins),
        decimal(break_mins),
        decimal(planned),
    ]);
    assert(f.drop_last() =~= seq![
        date,
        act,
        decimal(mins),
        decimal(break_mins),
        decimal(planned),
        decimal(done),
    ]);
    assert(join(f, ',') =~= csv_line(date, act, mins, break_mins, planned, done, completed));
}

} // verus!
