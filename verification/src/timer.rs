//! The state of a running timer and the text of the file `timer_state.ini`
//! that lets an interrupted session be resumed.
use vstd::prelude::*;
use crate::text::{
    bool_text, chars_of, decimal, eq_str, key_value, key_value_of, lemma_bool_text,
    lemma_key_value_pair, lemma_lines_unlines, lemma_no_lf_concat, lemma_parse_decimal,
    lemma_trim_id, lines, lines_of, parse_unsigned, parse_unsigned_chars, push_bool, push_char,
    push_decimal, push_str, strip_cr, trim, u32_max, unlines, views,
};

verus! {

/// The largest `usize`.
pub open spec fn usize_max() -> nat {
    usize::MAX as nat
}

/// What the timer keeps of a session in progress: the activity (an index
/// into the activities), the length of a focus and of a break phase in
/// minutes, the number of focus sessions planned and the current one, the
/// seconds left in the phase, whether the phase is a focus phase, and the
/// background music chosen.
#[derive(PartialEq, Eq, Structural, Clone, Copy, Debug)]
pub struct TimerState {
    pub idx: usize,
    pub mins: u32,
    pub break_mins: u32,
    pub total: u32,
    pub current: u32,
    pub rem: u32,
    pub work: bool,
    pub bgm_idx: usize,
}

/// At least 1.
pub open spec fn at_least_one(n: nat) -> u32 {
    if n >= 1 {
        n as u32
    } else {
        1
    }
}

/// The state after one line of the state file, for a list of `acts_len`
/// activities: a line `key=value` sets the field that its key names when
/// the value is a number of the field's type (at least 1 for the lengths
/// and counts, an index below `acts_len` for the activity), or, for
/// `work`, to whether the value is `true`; other lines change nothing.
pub open spec fn apply_state_line(s: TimerState, line: Seq<char>, acts_len: nat) -> TimerState {
    match key_value(line) {
        None => s,
        Some((k, v)) => if k == "idx"@ {
            match parse_unsigned(v, usize_max()) {
                Some(n) => if n < acts_len {
                    TimerState { idx: n as usize, ..s }
                } else {
                    s
                },
                None => s,
            }
        } else if k == "mins"@ {
            match parse_unsigned(v, u32_max()) {
                Some(n) => TimerState { mins: at_least_one(n), ..s },
                None => s,
            }
        } else if k == "break_mins"@ {
            match parse_unsigned(v, u32_max()) {
                Some(n) => TimerState { break_mins: at_least_one(n), ..s },
                None => s,
            }
        } else if k == "total"@ {
            match parse_unsigned(v, u32_max()) {
                Some(n) => TimerState { total: at_least_one(n), ..s },
                None => s,
            }
        } else if k == "current"@ {
            match parse_unsigned(v, u32_max()) {
                Some(n) => TimerState { current: at_least_one(n), ..s },
                None => s,
            }
        } else if k == "rem"@ {
            match parse_unsigned(v, u32_max()) {
                Some(n) => TimerState { rem: n as u32, ..s },
                None => s,
            }
        } else if k == "work"@ {
            TimerState { work: v == "true"@, ..s }
        } else if k == "bgm_idx"@ {
            match parse_unsigned(v, usize_max()) {
                Some(n) => TimerState { bgm_idx: n as usize, ..s },
                None => s,
            }
        } else {
            s
        },
    }
}

/// The state after the lines of a state file, taken in order.
pub open spec fn apply_state_lines(s: TimerState, ls: Seq<Seq<char>>, acts_len: nat) -> TimerState
    decreases ls.len(),
{
    if ls.len() == 0 {
        s
    } else {
        apply_state_line(apply_state_lines(s, ls.drop_last(), acts_len), ls.last(), acts_len)
    }
}

/// The lines of the state file that keeps `s`.
pub open spec fn state_lines(s: TimerState) -> Seq<Seq<char>> {
    seq![
        "idx="@ + decimal(s.idx as nat),
        "mins="@ + decimal(s.mins as nat),
        "break_mins="@ + decimal(s.break_mins as nat),
        "total="@ + decimal(s.total as nat),
        "current="@ + decimal(s.current as nat),
        "rem="@ + decimal(s.rem as nat),
        "work="@ + bool_text(s.work),
        "bgm_idx="@ + decimal(s.bgm_idx as nat),
    ]
}

/// Reads a `u32` value.
fn parse_u32(v: &[char]) -> (res: Option<u32>)
    ensures
        match parse_unsigned(v@, u32_max()) {
            Some(n) => res == Some(n as u32),
            None => res is None,
        },
{
    match parse_unsigned_chars(v, 0xffff_ffff) {
        Some(n) => Some(n as u32),
        None => None,
    }
}

/// Reads a `usize` value.
fn parse_usize(v: &[char]) -> (res: Option<usize>)
    ensures
        match parse_unsigned(v@, usize_max()) {
            Some(n) => res == Some(n as usize),
            None => res is None,
        },
{
    match parse_unsigned_chars(v, usize::MAX as u64) {
        Some(n) => Some(n as usize),
        None => None,
    }
}

impl TimerState {
    /// Applies one line of the state file.
    pub fn apply_line(&mut self, line: &[char], acts_len: usize)
        ensures
            *final(self) == apply_state_line(*old(self), line@, acts_len as nat),
    {
        match key_value_of(line) {
            None => {},
            Some((k, v)) => {
                let k = k.as_slice();
                let v = v.as_slice();
                if eq_str(k, "idx") {
                    if let Some(n) = parse_usize(v) {
                        if n < acts_len {
                            self.idx = n;
                        }
                    }
                } else if eq_str(k, "mins") {
                    if let Some(n) = parse_u32(v) {
                        self.mins = if n >= 1 { n } else { 1 };
                    }
                } else if eq_str(k, "break_mins") {
                    if let Some(n) = parse_u32(v) {
                        self.break_mins = if n >= 1 { n } else { 1 };
                    }
                } else if eq_str(k, "total") {
                    if let Some(n) = parse_u32(v) {
                        self.total = if n >= 1 { n } else { 1 };
                    }
                } else if eq_str(k, "current") {
                    if let Some(n) = parse_u32(v) {
                        self.current = if n >= 1 { n } else { 1 };
                    }
                } else if eq_str(k, "rem") {
                    if let Some(n) = parse_u32(v) {
                        self.rem = n;
                    }
                } else if eq_str(k, "work") {
                    self.work = eq_str(v, "true");
                } else if eq_str(k, "bgm_idx") {
                    if let Some(n) = parse_usize(v) {
                        self.bgm_idx = n;
                    }
                }
            },
        }
    }

    /// Applies the lines of a state file, in order (resuming a session).
    pub fn apply_text(&mut self, content: &str, acts_len: usize)
        ensures
            *final(self) == apply_state_lines(*old(self), lines(content@), acts_len as nat),
    {
        let cs = chars_of(content);
        let ls = lines_of(cs.as_slice());
        let ghost start = *self;
        let mut i: usize = 0;
        while i < ls.len()
            invariant
                i <= ls.len(),
                views(ls@) == lines(content@),
                *self == apply_state_lines(start, views(ls@).take(i as int), acts_len as nat),
            decreases ls.len() - i,
        {
            self.apply_line(ls[i].as_slice(), acts_len);
            assert(views(ls@).take(i + 1).drop_last() =~= views(ls@).take(i as int));
            i = i + 1;
        }
        assert(views(ls@).take(ls.len() as int) =~= views(ls@));
    }

    /// The text of the state file that keeps this state.
    pub fn to_text(&self) -> (res: String)
        ensures
            res@ == unlines(state_lines(*self)),
    {
        let ghost ls = state_lines(*self);
        let mut out = String::new();
        push_str(&mut out, "idx=");
        push_decimal(&mut out, self.idx as u64);
        push_char(&mut out, '\n');
        let ghost o1 = out@;
        push_str(&mut out, "mins=");
        push_decimal(&mut out, self.mins as u64);
        push_char(&mut out, '\n');
        let ghost o2 = out@;
        push_str(&mut out, "break_mins=");
        push_decimal(&mut out, self.break_mins as u64);
        push_char(&mut out, '\n');
        let ghost o3 = out@;
        push_str(&mut out, "total=");
        push_decimal(&mut out, self.total as u64);
        push_char(&mut out, '\n');
        let ghost o4 = out@;
        push_str(&mut out, "current=");
        push_decimal(&mut out, self.current as u64);
        push_char(&mut out, '\n');
        let ghost o5 = out@;
        push_str(&mut out, "rem=");
        push_decimal(&mut out, self.rem as u64);
        push_char(&mut out, '\n');
        let ghost o6 = out@;
        push_str(&mut out, "work=");
        push_bool(&mut out, self.work);
        push_char(&mut out, '\n');
        let ghost o7 = out@;
        push_str(&mut out, "bgm_idx=");
        push_decimal(&mut out, self.bgm_idx as u64);
        push_char(&mut out, '\n');
        proof {
            reveal_with_fuel(unlines, 9);
            assert(o1 =~= unlines(ls.take(1)));
            assert(ls.take(2).drop_last() =~= ls.take(1));
            assert(o2 =~= unlines(ls.take(2)));
            assert(ls.take(3).drop_last() =~= ls.take(2));
            assert(o3 =~= unlines(ls.take(3)));
            assert(ls.take(4).drop_last() =~= ls.take(3));
            assert(o4 =~= unlines(ls.take(4)));
            assert(ls.take(5).drop_last() =~= ls.take(4));
            assert(o5 =~= unlines(ls.take(5)));
            assert(ls.take(6).drop_last() =~= ls.take(5));
            assert(o6 =~= unlines(ls.take(6)));
            assert(ls.take(7).drop_last() =~= ls.take(6));
            assert(o7 =~= unlines(ls.take(7)));
            assert(ls.take(8).drop_last() =~= ls.take(7));
            assert(ls.take(8) =~= ls);
        }
        out
    }
}

// ---------------------------------------------------------------------------
// Saving and resuming
// ---------------------------------------------------------------------------

/// A state that the state file keeps: an activity of the list, and lengths
/// and counts of at least 1.
pub open spec fn storable_state(s: TimerState, acts_len: nat) -> bool {
    &&& s.idx < acts_len
    &&& s.mins >= 1
    &&& s.break_mins >= 1
    &&& s.total >= 1
    &&& s.current >= 1
}

/// `t` with its first `j` fields (in the order of the state file) taken
/// from `s`.
pub open spec fn with_fields(t: TimerState, s: TimerState, j: int) -> TimerState {
    TimerState {
        idx: if j > 0 { s.idx } else { t.idx },
        mins: if j > 1 { s.mins } else { t.mins },
        break_mins: if j > 2 { s.break_mins } else { t.break_mins },
        total: if j > 3 { s.total } else { t.total },
        current: if j > 4 { s.current } else { t.current },
        rem: if j > 5 { s.rem } else { t.rem },
        work: if j > 6 { s.work } else { t.work },
        bgm_idx: if j > 7 { s.bgm_idx } else { t.bgm_idx },
    }
}

/// The keys of the state file.
pub open spec fn state_key(j: int) -> Seq<char> {
    if j == 0 {
        "idx"@
    } else if j == 1 {
        "mins"@
    } else if j == 2 {
        "break_mins"@
    } else if j == 3 {
        "total"@
    } else if j == 4 {
        "current"@
    } else if j == 5 {
        "rem"@
    } else if j == 6 {
        "work"@
    } else {
        "bgm_idx"@
    }
}

proof fn lemma_state_keys()
    ensures
        forall|j: int| 0 <= j < 8 ==> !(#[trigger] state_key(j)).contains('=') && trim(state_key(j)) == state_key(j)
            && !state_key(j).contains('\n'),
        forall|i: int, j: int| 0 <= i < j < 8 ==> state_key(i) != state_key(j),
        "idx="@ == state_key(0) + seq!['='],
        "mins="@ == state_key(1) + seq!['='],
        "break_mins="@ == state_key(2) + seq!['='],
        "total="@ == state_key(3) + seq!['='],
        "current="@ == state_key(4) + seq!['='],
        "rem="@ == state_key(5) + seq!['='],
        "work="@ == state_key(6) + seq!['='],
        "bgm_idx="@ == state_key(7) + seq!['='],
{
    reveal_strlit("idx");
    reveal_strlit("mins");
    reveal_strlit("break_mins");
    reveal_strlit("total");
    reveal_strlit("current");
    reveal_strlit("rem");
    reveal_strlit("work");
    reveal_strlit("bgm_idx");
    reveal_strlit("idx=");
    reveal_strlit("mins=");
    reveal_strlit("break_mins=");
    reveal_strlit("total=");
    reveal_strlit("current=");
    reveal_strlit("rem=");
    reveal_strlit("work=");
    reveal_strlit("bgm_idx=");
    assert("idx="@ =~= "idx"@ + seq!['=']);
    assert("mins="@ =~= "mins"@ + seq!['=']);
    assert("break_mins="@ =~= "break_mins"@ + seq!['=']);
    assert("total="@ =~= "total"@ + seq!['=']);
    assert("current="@ =~= "current"@ + seq!['=']);
    assert("rem="@ =~= "rem"@ + seq!['=']);
    assert("work="@ =~= "work"@ + seq!['=']);
    assert("bgm_idx="@ =~= "bgm_idx"@ + seq!['=']);
    assert forall|j: int| 0 <= j < 8 implies !(#[trigger] state_key(j)).contains('=') && trim(
        state_key(j),
    ) == state_key(j) && !state_key(j).contains('\n') by {
        lemma_trim_id(state_key(j));
    }
    assert("idx"@[0] != "rem"@[0]);
    assert("mins"@[0] != "work"@[0]);
    assert("current"@[0] != "bgm_idx"@[0]);
    assert forall|i: int, j: int| 0 <= i < j < 8 implies state_key(i) != state_key(j) by {
        if i == 0 && j == 5 {
            assert(state_key(i)[0] != state_key(j)[0]);
        } else if i == 1 && j == 6 {
            assert(state_key(i)[0] != state_key(j)[0]);
        } else if i == 4 && j == 7 {
            assert(state_key(i)[0] != state_key(j)[0]);
        } else {
            assert(state_key(i).len() != state_key(j).len());
        }
    }
}

/// The value of field `j` of `s`, as the state file writes it.
pub open spec fn state_value(s: TimerState, j: int) -> Seq<char> {
    if j == 0 {
        decimal(s.idx as nat)
    } else if j == 1 {
        decimal(s.mins as nat)
    } else if j == 2 {
        decimal(s.break_mins as nat)
    } else if j == 3 {
        decimal(s.total as nat)
    } else if j == 4 {
        decimal(s.current as nat)
    } else if j == 5 {
        decimal(s.rem as nat)
    } else if j == 6 {
        bool_text(s.work)
    } else {
        decimal(s.bgm_idx as nat)
    }
}

proof fn lemma_state_line(t: TimerState, s: TimerState, j: int, acts_len: nat)
    requires
        storable_state(s, acts_len),
        0 <= j < 8,
    ensures
        state_lines(s)[j] == state_key(j) + seq!['='] + state_value(s, j),
        !state_lines(s)[j].contains('\n'),
        strip_cr(state_lines(s)[j]) == state_lines(s)[j],
        apply_state_line(with_fields(t, s, j), state_lines(s)[j], acts_len) == with_fields(
            t,
            s,
            j + 1,
        ),
{
    lemma_state_keys();
    let v = state_value(s, j);
    if j == 6 {
        lemma_bool_text(s.work);
    } else {
        lemma_parse_decimal(s.idx as nat, usize_max());
        lemma_parse_decimal(s.mins as nat, u32_max());
        lemma_parse_decimal(s.break_mins as nat, u32_max());
        lemma_parse_decimal(s.total as nat, u32_max());
        lemma_parse_decimal(s.current as nat, u32_max());
        lemma_parse_decimal(s.rem as nat, u32_max());
        lemma_parse_decimal(s.bgm_idx as nat, usize_max());
    }
    assert(state_lines(s)[j] =~= state_key(j) + seq!['='] + v);
    lemma_key_value_pair(state_key(j), v);
    lemma_no_lf_concat(state_key(j) + seq!['='], v);
    assert(!(state_key(j) + seq!['=']).contains('\n')) by {
        if (state_key(j) + seq!['=']).contains('\n') {
            let k = choose|k: int|
                0 <= k < (state_key(j) + seq!['=']).len() && (state_key(j) + seq!['='])[k] == '\n';
            if k < state_key(j).len() {
                assert(state_key(j)[k] == '\n');
            }
        }
    }
    assert(v.last() != '\r');
    assert(state_key(0) != state_key(1) && state_key(0) != state_key(2));
    assert(state_key(j) == state_key(j));
}

proof fn lemma_state_prefix(t: TimerState, s: TimerState, j: int, acts_len: nat)
    requires
        storable_state(s, acts_len),
        0 <= j <= 8,
    ensures
        apply_state_lines(t, state_lines(s).take(j), acts_len) == with_fields(t, s, j),
    decreases j,
{
    if j == 0 {
        assert(state_lines(s).take(0) =~= Seq::<Seq<char>>::empty());
        assert(with_fields(t, s, 0) == t);
    } else {
        lemma_state_prefix(t, s, j - 1, acts_len);
        lemma_state_line(t, s, j - 1, acts_len);
        assert(state_lines(s).take(j).drop_last() =~= state_lines(s).take(j - 1));
    }
}

/// A state written to the state file is read back as it was, whatever
/// state the timer held before reading.
pub proof fn lemma_state_round_trip(t: TimerState, s: TimerState, acts_len: nat)
    requires
        storable_state(s, acts_len),
    ensures
        apply_state_lines(t, lines(unlines(state_lines(s))), acts_len) == s,
{
    let ls = state_lines(s);
    assert forall|j: int| 0 <= j < ls.len() implies !(#[trigger] ls[j]).contains('\n') by {
        lemma_state_line(t, s, j, acts_len);
    }
    lemma_lines_unlines(ls);
    assert forall|j: int| 0 <= j < ls.len() implies strip_cr(#[trigger] ls[j]) == ls[j] by {
        lemma_state_line(t, s, j, acts_len);
    }
    assert(ls.map_values(|l: Seq<char>| strip_cr(l)) =~= ls);
    lemma_state_prefix(t, s, 8, acts_len);
    assert(ls.take(8) =~= ls);
    assert(with_fields(t, s, 8) == s);
}

/// Reading a state file keeps the activity within the list.
pub proof fn lemma_state_idx_kept(s: TimerState, ls: Seq<Seq<char>>, acts_len: nat)
    requires
        s.idx < acts_len + 2,
    ensures
        apply_state_lines(s, ls, acts_len).idx < acts_len + 2,
        s.idx < acts_len ==> apply_state_lines(s, ls, acts_len).idx < acts_len,
    decreases ls.len(),
{
    if ls.len() > 0 {
        lemma_state_idx_kept(s, ls.drop_last(), acts_len);
    }
}

} // verus!
