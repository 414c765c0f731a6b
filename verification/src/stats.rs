//! Per-activity statistics of the session history: entries, focus sessions
//! done, minutes of focus, and entries completed and abandoned.
use vstd::prelude::*;
use crate::history::entry_lines;
use crate::text::{
    chars_of, eq_chars, eq_str, lines_of, parse_unsigned, parse_unsigned_chars, pieces,
    split_chars, string_of, trim, trim_chars, u32_max, views,
};

verus! {

/// The statistics of one activity, as numbers without bound.
pub struct StatsModel {
    pub name: Seq<char>,
    pub entries: nat,
    pub sessions: nat,
    pub minutes: nat,
    pub completed: nat,
    pub abandoned: nat,
}

/// The statistics of one activity.
pub struct ActivityStats {
    pub name: String,
    pub total_entries: u32,
    pub total_sessions: u32,
    pub total_minutes: u32,
    pub completed: u32,
    pub abandoned: u32,
}

impl ActivityStats {
    /// The statistics as numbers.
    pub open spec fn model(&self) -> StatsModel {
        StatsModel {
            name: self.name@,
            entries: self.total_entries as nat,
            sessions: self.total_sessions as nat,
            minutes: self.total_minutes as nat,
            completed: self.completed as nat,
            abandoned: self.abandoned as nat,
        }
    }
}

/// The statistics of a list of activities, as numbers.
pub open spec fn models(v: Seq<ActivityStats>) -> Seq<StatsModel> {
    Seq::new(v.len(), |i: int| v[i].model())
}

/// The number in a field, or 0 when the field holds no `u32`.
pub open spec fn number_or_zero(v: Seq<char>) -> nat {
    match parse_unsigned(v, u32_max()) {
        Some(n) => n,
        None => 0,
    }
}

/// The index of the first statistics of activity `name`, or -1.
pub open spec fn find_name(st: Seq<StatsModel>, name: Seq<char>) -> int
    decreases st.len(),
{
    if st.len() == 0 {
        -1
    } else {
        let k = find_name(st.drop_last(), name);
        if k >= 0 {
            k
        } else if st.last().name == name {
            st.len() - 1
        } else {
            -1
        }
    }
}

/// The statistics after one more entry line: a line with at least seven
/// fields counts, for the activity of its second field, one entry, the
/// sessions done of its sixth field, that many times the minutes of its
/// third field (a field that is no number counts 0), and one completed
/// entry when its seventh field is `Yes` (white space aside), else one
/// abandoned entry; an activity not seen before is added at the end. Other
/// lines count nothing.
pub open spec fn stats_add(st: Seq<StatsModel>, line: Seq<char>) -> Seq<StatsModel> {
    let p = pieces(line, ',');
    if p.len() < 7 {
        st
    } else {
        let name = p[1];
        let mins = number_or_zero(p[2]);
        let done = number_or_zero(p[5]);
        let yes = trim(p[6]) == "Yes"@;
        let k = find_name(st, name);
        if k >= 0 {
            let e = st[k];
            st.update(
                k,
                StatsModel {
                    name: e.name,
                    entries: e.entries + 1,
                    sessions: e.sessions + done,
                    minutes: e.minutes + mins * done,
                    completed: if yes { e.completed + 1 } else { e.completed },
                    abandoned: if yes { e.abandoned } else { e.abandoned + 1 },
                },
            )
        } else {
            st.push(
                StatsModel {
                    name,
                    entries: 1,
                    sessions: done,
                    minutes: mins * done,
                    completed: if yes { 1 } else { 0 },
                    abandoned: if yes { 0 } else { 1 },
                },
            )
        }
    }
}

/// The statistics of a sequence of entry lines.
pub open spec fn stats_of(ls: Seq<Seq<char>>) -> Seq<StatsModel>
    decreases ls.len(),
{
    if ls.len() == 0 {
        Seq::empty()
    } else {
        stats_add(stats_of(ls.drop_last()), ls.last())
    }
}

/// Every count fits in a `u32`.
pub open spec fn fits_u32(st: Seq<StatsModel>) -> bool {
    forall|k: int|
        0 <= k < st.len() ==> (#[trigger] st[k]).entries <= u32_max() && st[k].sessions
            <= u32_max() && st[k].minutes <= u32_max() && st[k].completed <= u32_max()
            && st[k].abandoned <= u32_max()
}

/// Some count is too large for a `u32`.
pub open spec fn too_big(m: StatsModel) -> bool {
    m.entries > u32_max() || m.sessions > u32_max() || m.minutes > u32_max() || m.completed
        > u32_max() || m.abandoned > u32_max()
}

/// `b` holds the activities of `a` at the same places, each with counts at
/// least as large.
pub open spec fn dominated(a: Seq<StatsModel>, b: Seq<StatsModel>) -> bool {
    &&& a.len() <= b.len()
    &&& forall|k: int|
        0 <= k < a.len() ==> (#[trigger] a[k]).name == b[k].name && a[k].entries <= b[k].entries
            && a[k].sessions <= b[k].sessions && a[k].minutes <= b[k].minutes && a[k].completed
            <= b[k].completed && a[k].abandoned <= b[k].abandoned
}

proof fn lemma_find_name_first(st: Seq<StatsModel>, name: Seq<char>, i: int)
    requires
        0 <= i <= st.len(),
        forall|j: int| 0 <= j < i ==> (#[trigger] st[j]).name != name,
    ensures
        i == st.len() ==> find_name(st, name) == -1,
        i < st.len() && st[i].name == name ==> find_name(st, name) == i,
    decreases st.len(),
{
    if st.len() > 0 {
        if i < st.len() {
            if i < st.len() - 1 {
                lemma_find_name_first(st.drop_last(), name, i);
            } else {
                lemma_find_name_first(st.drop_last(), name, i);
            }
        } else {
            lemma_find_name_first(st.drop_last(), name, i - 1);
            assert(st.last() == st[i - 1]);
        }
    }
}

proof fn lemma_find_name_range(st: Seq<StatsModel>, name: Seq<char>)
    ensures
        -1 <= find_name(st, name) < st.len(),
        find_name(st, name) >= 0 ==> st[find_name(st, name)].name == name,
    decreases st.len(),
{
    if st.len() > 0 {
        lemma_find_name_range(st.drop_last(), name);
    }
}

proof fn lemma_stats_add_grows(st: Seq<StatsModel>, line: Seq<char>)
    ensures
        dominated(st, stats_add(st, line)),
{
    lemma_find_name_range(st, pieces(line, ',')[1]);
}

proof fn lemma_dominated_trans(a: Seq<StatsModel>, b: Seq<StatsModel>, c: Seq<StatsModel>)
    requires
        dominated(a, b),
        dominated(b, c),
    ensures
        dominated(a, c),
{
    assert forall|k: int| 0 <= k < a.len() implies (#[trigger] a[k]).name == c[k].name
        && a[k].entries <= c[k].entries && a[k].sessions <= c[k].sessions && a[k].minutes
        <= c[k].minutes && a[k].completed <= c[k].completed && a[k].abandoned
        <= c[k].abandoned by {
        assert(b[k].name == c[k].name);
    }
}

/// The statistics of a prefix of the lines are dominated by those of all
/// the lines: counts only grow, and activities keep their places.
proof fn lemma_stats_mono(ls: Seq<Seq<char>>, i: int)
    requires
        0 <= i <= ls.len(),
    ensures
        dominated(stats_of(ls.take(i)), stats_of(ls)),
    decreases ls.len() - i,
{
    if i == ls.len() {
        assert(ls.take(i) =~= ls);
        assert(dominated(stats_of(ls), stats_of(ls)));
    } else {
        lemma_stats_mono(ls, i + 1);
        assert(ls.take(i + 1).drop_last() =~= ls.take(i));
        lemma_stats_add_grows(stats_of(ls.take(i)), ls.take(i + 1).last());
        lemma_dominated_trans(stats_of(ls.take(i)), stats_of(ls.take(i + 1)), stats_of(ls));
    }
}

/// A count that is too large for a `u32` once is too large at the end.
proof fn lemma_overflow_final(ls: Seq<Seq<char>>, i: int, k: int)
    requires
        0 <= i <= ls.len(),
        0 <= k < stats_of(ls.take(i)).len(),
        too_big(stats_of(ls.take(i))[k]),
    ensures
        !fits_u32(stats_of(ls)),
{
    lemma_stats_mono(ls, i);
    assert(stats_of(ls)[k] == stats_of(ls)[k]);
}

/// The number of entry lines that count (those with at least seven
/// fields).
pub open spec fn counted_lines(ls: Seq<Seq<char>>) -> nat
    decreases ls.len(),
{
    if ls.len() == 0 {
        0
    } else {
        counted_lines(ls.drop_last()) + if pieces(ls.last(), ',').len() >= 7 {
            1nat
        } else {
            0nat
        }
    }
}

/// The entries of all activities together.
pub open spec fn total_entries(st: Seq<StatsModel>) -> nat
    decreases st.len(),
{
    if st.len() == 0 {
        0
    } else {
        total_entries(st.drop_last()) + st.last().entries
    }
}

proof fn lemma_total_entries_update(st: Seq<StatsModel>, k: int, m: StatsModel)
    requires
        0 <= k < st.len(),
    ensures
        total_entries(st.update(k, m)) == total_entries(st) - st[k].entries + m.entries,
    decreases st.len(),
{
    if k < st.len() - 1 {
        lemma_total_entries_update(st.drop_last(), k, m);
        assert(st.update(k, m).drop_last() =~= st.drop_last().update(k, m));
    } else {
        assert(st.update(k, m).drop_last() =~= st.drop_last());
    }
}

/// The statistics of a history hold each activity once; every entry of an
/// activity is either completed or abandoned, and there is at least one;
/// and all activities together have as many entries as the history has
/// lines that count.
pub proof fn lemma_stats_consistent(ls: Seq<Seq<char>>)
    ensures
        forall|k: int|
            0 <= k < stats_of(ls).len() ==> (#[trigger] stats_of(ls)[k]).entries
                == stats_of(ls)[k].completed + stats_of(ls)[k].abandoned && stats_of(ls)[k].entries
                >= 1,
        forall|j: int, k: int|
            0 <= j < k < stats_of(ls).len() ==> (#[trigger] stats_of(ls)[j]).name != (
            #[trigger] stats_of(ls)[k]).name,
        total_entries(stats_of(ls)) == counted_lines(ls),
    decreases ls.len(),
{
    if ls.len() > 0 {
        let prev = ls.drop_last();
        lemma_stats_consistent(prev);
        let st = stats_of(prev);
        let line = ls.last();
        let p = pieces(line, ',');
        if p.len() >= 7 {
            let name = p[1];
            lemma_find_name_range(st, name);
            let k = find_name(st, name);
            if k >= 0 {
                let next = stats_of(ls);
                lemma_total_entries_update(st, k, next[k]);
                assert(next =~= st.update(k, next[k]));
            } else {
                assert forall|j: int| 0 <= j < st.len() implies (#[trigger] st[j]).name != name by {
                    if st[j].name == name {
                        lemma_find_name_first(st, name, j);
                        assert forall|i: int| 0 <= i < j implies (#[trigger] st[i]).name != name by {
                            assert(st[i].name != st[j].name);
                        }
                        lemma_find_name_first(st, name, j);
                    }
                }
                assert(stats_of(ls).drop_last() =~= st);
            }
        }
    }
}

/// What one entry line adds to the statistics of its activity: one entry,
/// its sessions done, its focus minutes (its duration times its sessions
/// done, so nothing for an entry with no session done), and one completed
/// or one abandoned entry.
pub open spec fn entry_counts(line: Seq<char>) -> StatsModel {
    let p = pieces(line, ',');
    let done = number_or_zero(p[5]);
    let yes = trim(p[6]) == "Yes"@;
    StatsModel {
        name: p[1],
        entries: 1,
        sessions: done,
        minutes: number_or_zero(p[2]) * done,
        completed: if yes { 1 } else { 0 },
        abandoned: if yes { 0 } else { 1 },
    }
}

/// The line is an entry of activity `name` that the statistics count.
pub open spec fn is_entry_of(line: Seq<char>, name: Seq<char>) -> bool {
    pieces(line, ',').len() >= 7 && pieces(line, ',')[1] == name
}

/// The sums, over the entries of activity `name` among the lines, of what
/// each entry adds.
pub open spec fn totals_of(ls: Seq<Seq<char>>, name: Seq<char>) -> StatsModel
    decreases ls.len(),
{
    if ls.len() == 0 {
        StatsModel { name, entries: 0, sessions: 0, minutes: 0, completed: 0, abandoned: 0 }
    } else {
        let t = totals_of(ls.drop_last(), name);
        if is_entry_of(ls.last(), name) {
            let c = entry_counts(ls.last());
            StatsModel {
                name,
                entries: t.entries + c.entries,
                sessions: t.sessions + c.sessions,
                minutes: t.minutes + c.minutes,
                completed: t.completed + c.completed,
                abandoned: t.abandoned + c.abandoned,
            }
        } else {
            t
        }
    }
}

/// The statistics of each activity are the sums over its entries: the
/// number of its entries, the sessions done, the focus minutes (duration
/// times sessions done, entry by entry), and the entries completed and
/// abandoned; an activity without statistics has no entry.
pub proof fn lemma_stats_totals(ls: Seq<Seq<char>>)
    ensures
        forall|k: int|
            0 <= k < stats_of(ls).len() ==> #[trigger] stats_of(ls)[k] == totals_of(
                ls,
                stats_of(ls)[k].name,
            ),
        forall|name: Seq<char>|
            (forall|k: int| 0 <= k < stats_of(ls).len() ==> (#[trigger] stats_of(ls)[k]).name != name)
                ==> #[trigger] totals_of(ls, name).entries == 0,
    decreases ls.len(),
{
    if ls.len() > 0 {
        let prev = ls.drop_last();
        lemma_stats_totals(prev);
        lemma_stats_consistent(prev);
        let st = stats_of(prev);
        let next = stats_of(ls);
        let line = ls.last();
        let p = pieces(line, ',');
        if p.len() >= 7 {
            let name = p[1];
            lemma_find_name_range(st, name);
            let k = find_name(st, name);
            if k >= 0 {
                assert forall|j: int| 0 <= j < next.len() implies #[trigger] next[j] == totals_of(
                    ls,
                    next[j].name,
                ) by {
                    if j == k {
                        assert(st[j] == totals_of(prev, name));
                    } else {
                        assert(next[j] == st[j]);
                        assert(st[j].name != st[k].name);
                        assert(st[j] == totals_of(prev, st[j].name));
                    }
                }
                assert forall|n: Seq<char>|
                    (forall|j: int| 0 <= j < next.len() ==> (#[trigger] next[j]).name != n) implies
                    #[trigger] totals_of(ls, n).entries == 0 by {
                    assert(next[k].name == name);
                    assert(next[k].name != n);
                    assert forall|j: int| 0 <= j < st.len() implies (#[trigger] st[j]).name != n by {
                        assert(next[j].name == st[j].name);
                    }
                    assert(!is_entry_of(line, n));
                    assert(totals_of(ls, n) == totals_of(prev, n));
                    assert(totals_of(prev, n).entries == 0);
                }
            } else {
                assert forall|j: int| 0 <= j < st.len() implies (#[trigger] st[j]).name != name by {
                    if st[j].name == name {
                        assert forall|i: int| 0 <= i < j implies (#[trigger] st[i]).name != name by {
                            assert(st[i].name != st[j].name);
                        }
                        lemma_find_name_first(st, name, j);
                    }
                }
                assert(totals_of(prev, name).entries == 0);
                assert forall|j: int| 0 <= j < next.len() implies #[trigger] next[j] == totals_of(
                    ls,
                    next[j].name,
                ) by {
                    if j < st.len() {
                        assert(next[j] == st[j]);
                        assert(st[j] == totals_of(prev, st[j].name));
                    } else {
                        lemma_totals_zero(prev, name);
                    }
                }
                assert forall|n: Seq<char>|
                    (forall|j: int| 0 <= j < next.len() ==> (#[trigger] next[j]).name != n) implies
                    #[trigger] totals_of(ls, n).entries == 0 by {
                    assert(next[st.len() as int].name == name);
                    assert(next[st.len() as int].name != n);
                    assert forall|j: int| 0 <= j < st.len() implies (#[trigger] st[j]).name != n by {
                        assert(next[j].name == st[j].name);
                    }
                    assert(!is_entry_of(line, n));
                    assert(totals_of(ls, n) == totals_of(prev, n));
                    assert(totals_of(prev, n).entries == 0);
                }
            }
        } else {
            assert(next == st);
            assert forall|n: Seq<char>| #[trigger] totals_of(ls, n) == totals_of(prev, n) by {
                assert(!is_entry_of(line, n));
            }
        }
    }
}

/// Sums with no entry are all zero.
proof fn lemma_totals_zero(ls: Seq<Seq<char>>, name: Seq<char>)
    requires
        totals_of(ls, name).entries == 0,
    ensures
        totals_of(ls, name) == (StatsModel {
            name,
            entries: 0,
            sessions: 0,
            minutes: 0,
            completed: 0,
            abandoned: 0,
        }),
    decreases ls.len(),
{
    if ls.len() > 0 {
        lemma_totals_zero(ls.drop_last(), name);
    }
}

/// Reads a count field: the `u32` it holds, or 0.
fn number_or_zero_of(v: &[char]) -> (res: u32)
    ensures
        res == number_or_zero(v@),
{
    match parse_unsigned_chars(v, 0xffff_ffff) {
        Some(n) => n as u32,
        None => 0,
    }
}

/// The statistics of each activity of a history file, in the order the
/// activities first appear; none when a count does not fit in a `u32`.
pub fn load_stats(content: &str) -> (res: Option<Vec<ActivityStats>>)
    ensures
        res is None <==> !fits_u32(stats_of(entry_lines(content@))),
        res matches Some(v) ==> models(v@) == stats_of(entry_lines(content@)),
{
    let cs = chars_of(content);
    let ls = lines_of(cs.as_slice());
    let ghost entries = entry_lines(content@);
    let mut out: Vec<ActivityStats> = Vec::new();
    if ls.len() == 0 {
        assert(entries =~= Seq::<Seq<char>>::empty());
        assert(models(out@) =~= stats_of(entries));
        return Some(out);
    }
    let mut i: usize = 1;
    assert(entries.take(0) =~= Seq::<Seq<char>>::empty());
    while i < ls.len()
        invariant
            1 <= i <= ls.len(),
            entries == views(ls@).skip(1),
            entries == entry_lines(content@),
            models(out@) == stats_of(entries.take(i - 1)),
            fits_u32(models(out@)),
        decreases ls.len() - i,
    {
        assert(entries.take(i as int).drop_last() =~= entries.take(i - 1));
        assert(entries.take(i as int).last() == ls@[i as int]@);
        let ghost st = models(out@);
        let ghost next = stats_of(entries.take(i as int));
        let p = split_chars(ls[i].as_slice(), ',');
        if p.len() >= 7 {
            let name = p[1].as_slice();
            let mins = number_or_zero_of(p[2].as_slice());
            let done = number_or_zero_of(p[5].as_slice());
            let six = trim_chars(p[6].as_slice());
            let yes = eq_str(six.as_slice(), "Yes");
            proof {
                assert(views(p@) == pieces(ls@[i as int]@, ','));
                assert(next == stats_add(st, ls@[i as int]@));
                assert(p@[1]@ == pieces(ls@[i as int]@, ',')[1]);
                assert(p@[2]@ == pieces(ls@[i as int]@, ',')[2]);
                assert(p@[5]@ == pieces(ls@[i as int]@, ',')[5]);
                assert(p@[6]@ == pieces(ls@[i as int]@, ',')[6]);
            }
            let mut k: usize = 0;
            let mut found = false;
            while k < out.len() && !found
                invariant
                    k <= out.len(),
                    st == models(out@),
                    !found ==> forall|j: int| 0 <= j < k ==> (#[trigger] st[j]).name != name@,
                    found ==> k < out.len() && st[k as int].name == name@ && forall|j: int|
                        0 <= j < k ==> (#[trigger] st[j]).name != name@,
                decreases out.len() - k + if found { 0int } else { 1int },
            {
                let nk = chars_of(out[k].name.as_str());
                if eq_chars(nk.as_slice(), name) {
                    found = true;
                } else {
                    k = k + 1;
                }
            }
            proof {
                lemma_find_name_first(st, name@, k as int);
            }
            let total_mins = mins.checked_mul(done);
            proof {
                if found {
                    assert(find_name(st, name@) == k);
                    assert(st[k as int] == out@[k as int].model());
                } else {
                    assert(find_name(st, name@) == -1);
                    assert(next.len() == st.len() + 1);
                    assert(next[k as int].minutes == mins * done);
                }
            }
            if found {
                let e = &out[k];
                let entries_new = e.total_entries.checked_add(1);
                let sessions_new = e.total_sessions.checked_add(done);
                let minutes_new = match total_mins {
                    Some(t) => e.total_minutes.checked_add(t),
                    None => None,
                };
                let completed_new = if yes {
                    e.completed.checked_add(1)
                } else {
                    Some(e.completed)
                };
                let abandoned_new = if yes {
                    Some(e.abandoned)
                } else {
                    e.abandoned.checked_add(1)
                };
                match (entries_new, sessions_new, minutes_new, completed_new, abandoned_new) {
                    (Some(a), Some(b), Some(c), Some(d), Some(f)) => {
                        let updated = ActivityStats {
                            name: string_of(name),
                            total_entries: a,
                            total_sessions: b,
                            total_minutes: c,
                            completed: d,
                            abandoned: f,
                        };
                        out.set(k, updated);
                        assert(models(out@) =~= next);
                    },
                    _ => {
                        proof {
                            assert(too_big(next[k as int]));
                            lemma_overflow_final(entries, i as int, k as int);
                        }
                        return None;
                    },
                }
            } else {
                match total_mins {
                    Some(t) => {
                        let fresh = ActivityStats {
                            name: string_of(name),
                            total_entries: 1,
                            total_sessions: done,
                            total_minutes: t,
                            completed: if yes { 1 } else { 0 },
                            abandoned: if yes { 0 } else { 1 },
                        };
                        out.push(fresh);
                        assert(models(out@) =~= next);
                    },
                    None => {
                        proof {
                            assert(too_big(next[k as int]));
                            lemma_overflow_final(entries, i as int, k as int);
                        }
                        return None;
                    },
                }
            }
        } else {
            assert(next == st);
        }
        i = i + 1;
    }
    assert(entries.take(i - 1) =~= entries);
    Some(out)
}

} // verus!
