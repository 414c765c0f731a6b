//! Settings of the timer (break length, notifications, colour theme, volume
//! and custom activities) and the text of the file `config.ini` that keeps
//! them between launches.
use vstd::prelude::*;
use crate::text::{
    bool_text, push_bool, u32_max, chars_of, decimal, eq_str, is_ws, key_value, key_value_of, lemma_key_value_pair,
    lemma_lines_unlines, lemma_no_lf_concat, lemma_parse_decimal, lemma_trim_id, lemma_trimmed_ends, lines, lines_of, parse_unsigned,
    parse_unsigned_chars, push_char, push_decimal, push_str, string_of, strip_cr, trim, unlines,
    views,
};

verus! {

/// The colour theme of the interface.
#[derive(PartialEq, Eq, Structural, Clone, Copy, Debug)]
pub enum Theme {
    Cyan,
    Magenta,
    Green,
    Yellow,
    Red,
}

/// The name of a theme, as the settings file holds it.
pub open spec fn theme_name(t: Theme) -> Seq<char> {
    match t {
        Theme::Cyan => "Cyan"@,
        Theme::Magenta => "Magenta"@,
        Theme::Green => "Green"@,
        Theme::Yellow => "Yellow"@,
        Theme::Red => "Red"@,
    }
}

/// The theme that a name of the settings file selects: Cyan for any name
/// but those of the other four.
pub open spec fn theme_of_name(name: Seq<char>) -> Theme {
    if name == "Magenta"@ {
        Theme::Magenta
    } else if name == "Green"@ {
        Theme::Green
    } else if name == "Yellow"@ {
        Theme::Yellow
    } else if name == "Red"@ {
        Theme::Red
    } else {
        Theme::Cyan
    }
}

/// The theme after `t` in the settings: Cyan, Magenta, Green, Yellow, Red,
/// then Cyan again.
pub open spec fn theme_after(t: Theme) -> Theme {
    match t {
        Theme::Cyan => Theme::Magenta,
        Theme::Magenta => Theme::Green,
        Theme::Green => Theme::Yellow,
        Theme::Yellow => Theme::Red,
        Theme::Red => Theme::Cyan,
    }
}

/// The theme before `t` in the settings.
pub open spec fn theme_before(t: Theme) -> Theme {
    match t {
        Theme::Cyan => Theme::Red,
        Theme::Magenta => Theme::Cyan,
        Theme::Green => Theme::Magenta,
        Theme::Yellow => Theme::Green,
        Theme::Red => Theme::Yellow,
    }
}

impl Theme {
    /// The name of the theme.
    pub fn name(&self) -> (res: &'static str)
        ensures
            res@ == theme_name(*self),
    {
        match self {
            Theme::Cyan => "Cyan",
            Theme::Magenta => "Magenta",
            Theme::Green => "Green",
            Theme::Yellow => "Yellow",
            Theme::Red => "Red",
        }
    }

    /// The theme that a name selects.
    pub fn from_name(name: &[char]) -> (res: Theme)
        ensures
            res == theme_of_name(name@),
    {
        if eq_str(name, "Magenta") {
            Theme::Magenta
        } else if eq_str(name, "Green") {
            Theme::Green
        } else if eq_str(name, "Yellow") {
            Theme::Yellow
        } else if eq_str(name, "Red") {
            Theme::Red
        } else {
            Theme::Cyan
        }
    }

    /// The next theme (the setting moved right).
    pub fn next(&self) -> (res: Theme)
        ensures
            res == theme_after(*self),
    {
        match self {
            Theme::Cyan => Theme::Magenta,
            Theme::Magenta => Theme::Green,
            Theme::Green => Theme::Yellow,
            Theme::Yellow => Theme::Red,
            Theme::Red => Theme::Cyan,
        }
    }

    /// The previous theme (the setting moved left).
    pub fn prev(&self) -> (res: Theme)
        ensures
            res == theme_before(*self),
    {
        match self {
            Theme::Cyan => Theme::Red,
            Theme::Magenta => Theme::Cyan,
            Theme::Green => Theme::Magenta,
            Theme::Yellow => Theme::Green,
            Theme::Red => Theme::Yellow,
        }
    }
}

/// Moving the theme setting right and then left, or left and then right,
/// comes back to the theme one started from.
pub proof fn lemma_theme_cycle(t: Theme)
    ensures
        theme_before(theme_after(t)) == t,
        theme_after(theme_before(t)) == t,
{
}

/// Five moves to the right come back to the starting theme.
pub proof fn lemma_theme_cycle_length(t: Theme)
    ensures
        theme_after(theme_after(theme_after(theme_after(theme_after(t))))) == t,
{
}

/// A theme is read back from its own name.
pub proof fn lemma_theme_name_round_trip(t: Theme)
    ensures
        theme_of_name(theme_name(t)) == t,
{
    reveal_strlit("Cyan");
    reveal_strlit("Magenta");
    reveal_strlit("Green");
    reveal_strlit("Yellow");
    reveal_strlit("Red");
    assert("Cyan"@.len() == 4);
    assert("Magenta"@.len() == 7);
    assert("Green"@.len() == 5);
    assert("Yellow"@.len() == 6);
    assert("Red"@.len() == 3);
}

// ---------------------------------------------------------------------------
// Settings and their file
// ---------------------------------------------------------------------------

/// What the settings are, as values.
pub struct ConfigModel {
    pub break_mins: u32,
    pub notifications: bool,
    pub theme: Theme,
    pub volume_pct: u32,
    pub acts: Seq<Seq<char>>,
}

/// The settings of the timer: break length in minutes, whether a
/// notification marks the end of a phase, the colour theme, the volume in
/// percent, and the activities offered (the four built-in ones first).
pub struct Config {
    pub break_mins: u32,
    pub notifications: bool,
    pub theme: Theme,
    pub volume_pct: u32,
    pub acts: Vec<String>,
}

impl View for Config {
    type V = ConfigModel;

    open spec fn view(&self) -> ConfigModel {
        ConfigModel {
            break_mins: self.break_mins,
            notifications: self.notifications,
            theme: self.theme,
            volume_pct: self.volume_pct,
            acts: self.acts@.map_values(|a: String| a@),
        }
    }
}

/// The number of built-in activities.
pub const BUILT_IN_ACTIVITIES: usize = 4;

/// The built-in activities, which every list of activities starts with.
pub open spec fn default_acts() -> Seq<Seq<char>> {
    seq![
        "Studying \u{1F4DA}"@,
        "Coding \u{1F4BB}"@,
        "Deep Work \u{1F9E0}"@,
        "Reading \u{1F4D6}"@,
    ]
}

/// The settings at the first launch.
pub open spec fn default_config() -> ConfigModel {
    ConfigModel {
        break_mins: 5,
        notifications: true,
        theme: Theme::Cyan,
        volume_pct: 50,
        acts: default_acts(),
    }
}

/// The settings after one line of the settings file: a line `key=value`
/// sets the field that its key names, when the value is one it accepts;
/// other lines change nothing.
pub open spec fn apply_setting(c: ConfigModel, line: Seq<char>) -> ConfigModel {
    match key_value(line) {
        None => c,
        Some((k, v)) => if k == "break_mins"@ {
            match parse_unsigned(v, u32_max()) {
                Some(n) => ConfigModel { break_mins: if n >= 1 { n as u32 } else { 1 }, ..c },
                None => c,
            }
        } else if k == "notifications"@ {
            ConfigModel { notifications: v == "true"@, ..c }
        } else if k == "theme"@ {
            ConfigModel { theme: theme_of_name(v), ..c }
        } else if k == "volume"@ {
            match parse_unsigned(v, u32_max()) {
                Some(n) => ConfigModel { volume_pct: if n <= 100 { n as u32 } else { 100 }, ..c },
                None => c,
            }
        } else if k == "activity"@ {
            if v.len() > 0 && !c.acts.contains(v) {
                ConfigModel { acts: c.acts.push(v), ..c }
            } else {
                c
            }
        } else {
            c
        },
    }
}

/// The settings after the lines of a settings file, taken in order.
pub open spec fn apply_settings(c: ConfigModel, ls: Seq<Seq<char>>) -> ConfigModel
    decreases ls.len(),
{
    if ls.len() == 0 {
        c
    } else {
        apply_setting(apply_settings(c, ls.drop_last()), ls.last())
    }
}

/// The activities after the built-in ones.
pub open spec fn custom_acts(acts: Seq<Seq<char>>) -> Seq<Seq<char>> {
    if acts.len() > 4 {
        acts.skip(4)
    } else {
        Seq::empty()
    }
}

/// The lines of the settings file that keeps `c`.
pub open spec fn config_lines(c: ConfigModel) -> Seq<Seq<char>> {
    seq![
        "break_mins="@ + decimal(c.break_mins as nat),
        "notifications="@ + bool_text(c.notifications),
        "theme="@ + theme_name(c.theme),
        "volume="@ + decimal(c.volume_pct as nat),
    ] + custom_acts(c.acts).map_values(|a: Seq<char>| "activity="@ + a)
}

/// The built-in activities.
pub fn default_activities() -> (res: Vec<String>)
    ensures
        res@.map_values(|a: String| a@) == default_acts(),
{
    let mut res: Vec<String> = Vec::new();
    res.push(String::from_str("Studying \u{1F4DA}"));
    res.push(String::from_str("Coding \u{1F4BB}"));
    res.push(String::from_str("Deep Work \u{1F9E0}"));
    res.push(String::from_str("Reading \u{1F4D6}"));
    assert(res@.map_values(|a: String| a@) =~= default_acts());
    res
}

/// Whether `acts` holds an activity named `name`.
pub fn contains_activity(acts: &Vec<String>, name: &[char]) -> (res: bool)
    ensures
        res == acts@.map_values(|a: String| a@).contains(name@),
{
    let ghost names = acts@.map_values(|a: String| a@);
    let mut i: usize = 0;
    while i < acts.len()
        invariant
            i <= acts.len(),
            names == acts@.map_values(|a: String| a@),
            forall|k: int| 0 <= k < i ==> names[k] != name@,
        decreases acts.len() - i,
    {
        let cs = chars_of(acts[i].as_str());
        if crate::text::eq_chars(cs.as_slice(), name) {
            assert(names[i as int] == name@);
            return true;
        }
        i = i + 1;
    }
    false
}

impl Config {
    /// The settings at the first launch.
    pub fn new() -> (res: Config)
        ensures
            res@ == default_config(),
    {
        Config {
            break_mins: 5,
            notifications: true,
            theme: Theme::Cyan,
            volume_pct: 50,
            acts: default_activities(),
        }
    }

    /// Applies one line of the settings file.
    pub fn apply_line(&mut self, line: &[char])
        ensures
            final(self)@ == apply_setting(old(self)@, line@),
    {
        let ghost before = self@;
        match key_value_of(line) {
            None => {},
            Some((k, v)) => {
                if eq_str(k.as_slice(), "break_mins") {
                    match parse_unsigned_chars(v.as_slice(), 0xffff_ffff) {
                        Some(n) => {
                            self.break_mins = if n >= 1 { n as u32 } else { 1 };
                        },
                        None => {},
                    }
                } else if eq_str(k.as_slice(), "notifications") {
                    self.notifications = eq_str(v.as_slice(), "true");
                } else if eq_str(k.as_slice(), "theme") {
                    self.theme = Theme::from_name(v.as_slice());
                } else if eq_str(k.as_slice(), "volume") {
                    match parse_unsigned_chars(v.as_slice(), 0xffff_ffff) {
                        Some(n) => {
                            self.volume_pct = if n <= 100 { n as u32 } else { 100 };
                        },
                        None => {},
                    }
                } else if eq_str(k.as_slice(), "activity") {
                    if v.len() > 0 && !contains_activity(&self.acts, v.as_slice()) {
                        let name = string_of(v.as_slice());
                        self.acts.push(name);
                        assert(self@.acts =~= before.acts.push(v@));
                    }
                }
            },
        }
    }

    /// Applies the lines of a settings file, in order (loading the
    /// settings saved by an earlier launch).
    pub fn apply_text(&mut self, content: &str)
        ensures
            final(self)@ == apply_settings(old(self)@, lines(content@)),
    {
        let cs = chars_of(content);
        let ls = lines_of(cs.as_slice());
        let ghost start = self@;
        let mut i: usize = 0;
        while i < ls.len()
            invariant
                i <= ls.len(),
                views(ls@) == lines(content@),
                self@ == apply_settings(start, views(ls@).take(i as int)),
            decreases ls.len() - i,
        {
            self.apply_line(ls[i].as_slice());
            assert(views(ls@).take(i + 1).drop_last() =~= views(ls@).take(i as int));
            i = i + 1;
        }
        assert(views(ls@).take(ls.len() as int) =~= views(ls@));
    }

    /// The text of the settings file that keeps these settings.
    pub fn to_text(&self) -> (res: String)
        ensures
            res@ == unlines(config_lines(self@)),
    {
        let mut out = String::new();
        push_str(&mut out, "break_mins=");
        push_decimal(&mut out, self.break_mins as u64);
        push_char(&mut out, '\n');
        push_str(&mut out, "notifications=");
        push_bool(&mut out, self.notifications);
        push_char(&mut out, '\n');
        push_str(&mut out, "theme=");
        push_str(&mut out, self.theme.name());
        push_char(&mut out, '\n');
        push_str(&mut out, "volume=");
        push_decimal(&mut out, self.volume_pct as u64);
        push_char(&mut out, '\n');
        let ghost fixed = seq![
            "break_mins="@ + decimal(self.break_mins as nat),
            "notifications="@ + bool_text(self.notifications),
            "theme="@ + theme_name(self.theme),
            "volume="@ + decimal(self.volume_pct as nat),
        ];
        assert(out@ =~= unlines(fixed)) by {
            reveal_with_fuel(unlines, 5);
            assert(fixed.drop_last().drop_last().drop_last().drop_last() =~= Seq::<Seq<char>>::empty());
            assert(fixed.drop_last().drop_last().drop_last() =~= seq![fixed[0]]);
            assert(fixed.drop_last().drop_last() =~= seq![fixed[0], fixed[1]]);
            assert(fixed.drop_last() =~= seq![fixed[0], fixed[1], fixed[2]]);
        }
        let ghost customs = custom_acts(self@.acts).map_values(|a: Seq<char>| "activity="@ + a);
        let mut i: usize = BUILT_IN_ACTIVITIES;
        while i < self.acts.len()
            invariant
                BUILT_IN_ACTIVITIES <= i,
                i <= self.acts.len() || i == BUILT_IN_ACTIVITIES,
                customs == custom_acts(self@.acts).map_values(|a: Seq<char>| "activity="@ + a),
                out@ == unlines(fixed + customs.take(i - 4)),
            decreases self.acts.len() - i,
        {
            push_str(&mut out, "activity=");
            push_str(&mut out, self.acts[i].as_str());
            push_char(&mut out, '\n');
            proof {
                assert(customs.take(i - 3) =~= customs.take(i - 4).push(customs[i - 4]));
                assert((fixed + customs.take(i - 3)).drop_last() =~= fixed + customs.take(i - 4));
            }
            i = i + 1;
        }
        proof {
            if self.acts.len() > 4 {
                assert(i == self.acts.len());
                assert(customs.len() == self@.acts.len() - 4);
                assert(i - 4 == customs.len());
                assert(customs.take(customs.len() as int) =~= customs);
                assert(customs.take((i as int) - 4) =~= customs);
            } else {
                assert(customs =~= Seq::<Seq<char>>::empty());
                assert(customs.take((i as int) - 4) =~= customs);
            }
            assert(fixed + customs =~= config_lines(self@));
        }
        out
    }
}

// ---------------------------------------------------------------------------
// Saving and loading the settings
// ---------------------------------------------------------------------------

/// A name of a custom activity that the settings file keeps as it is:
/// non-empty, trimmed, on one line.
pub open spec fn storable_name(a: Seq<char>) -> bool {
    a.len() > 0 && trim(a) == a && !a.contains('\n')
}

/// Settings that the settings file keeps: a break of at least a minute, a
/// volume of at most 100 percent, and the built-in activities followed by
/// custom ones that are storable and all different.
pub open spec fn storable_config(c: ConfigModel) -> bool {
    &&& c.break_mins >= 1
    &&& c.volume_pct <= 100
    &&& c.acts.len() >= 4
    &&& c.acts.take(4) == default_acts()
    &&& forall|i: int| 4 <= i < c.acts.len() ==> storable_name(#[trigger] c.acts[i])
    &&& forall|i: int, j: int| 0 <= i < j < c.acts.len() ==> c.acts[i] != c.acts[j]
}

proof fn lemma_apply_settings_append(c: ConfigModel, a: Seq<Seq<char>>, b: Seq<Seq<char>>)
    ensures
        apply_settings(c, a + b) == apply_settings(apply_settings(c, a), b),
    decreases b.len(),
{
    if b.len() == 0 {
        assert(a + b =~= a);
    } else {
        lemma_apply_settings_append(c, a, b.drop_last());
        assert((a + b).drop_last() =~= a + b.drop_last());
        assert((a + b).last() == b.last());
    }
}

proof fn lemma_literals()
    ensures
        "break_mins"@.len() == 10,
        "notifications"@.len() == 13,
        "theme"@.len() == 5,
        "volume"@.len() == 6,
        "activity"@.len() == 8,
        "break_mins="@ == "break_mins"@ + seq!['='],
        "notifications="@ == "notifications"@ + seq!['='],
        "theme="@ == "theme"@ + seq!['='],
        "volume="@ == "volume"@ + seq!['='],
        "activity="@ == "activity"@ + seq!['='],
        !"break_mins"@.contains('='),
        !"notifications"@.contains('='),
        !"theme"@.contains('='),
        !"volume"@.contains('='),
        !"activity"@.contains('='),
        trim("break_mins"@) == "break_mins"@,
        trim("notifications"@) == "notifications"@,
        trim("theme"@) == "theme"@,
        trim("volume"@) == "volume"@,
        trim("activity"@) == "activity"@,
        !"break_mins="@.contains('\n'),
        !"notifications="@.contains('\n'),
        !"theme="@.contains('\n'),
        !"volume="@.contains('\n'),
        !"activity="@.contains('\n'),
{
    reveal_strlit("break_mins");
    reveal_strlit("notifications");
    reveal_strlit("theme");
    reveal_strlit("volume");
    reveal_strlit("activity");
    reveal_strlit("break_mins=");
    reveal_strlit("notifications=");
    reveal_strlit("theme=");
    reveal_strlit("volume=");
    reveal_strlit("activity=");
    assert("break_mins="@ =~= "break_mins"@ + seq!['=']);
    assert("notifications="@ =~= "notifications"@ + seq!['=']);
    assert("theme="@ =~= "theme"@ + seq!['=']);
    assert("volume="@ =~= "volume"@ + seq!['=']);
    assert("activity="@ =~= "activity"@ + seq!['=']);
    lemma_trim_id("break_mins"@);
    lemma_trim_id("notifications"@);
    lemma_trim_id("theme"@);
    lemma_trim_id("volume"@);
    lemma_trim_id("activity"@);
}

proof fn lemma_theme_literals(t: Theme)
    ensures
        trim(theme_name(t)) == theme_name(t),
        !theme_name(t).contains('\n'),
        theme_name(t).len() > 0,
        theme_name(t).last() != '\r',
{
    reveal_strlit("Cyan");
    reveal_strlit("Magenta");
    reveal_strlit("Green");
    reveal_strlit("Yellow");
    reveal_strlit("Red");
    lemma_trim_id(theme_name(t));
}

proof fn lemma_activity_lines(m: ConfigModel, c: ConfigModel, k: int)
    requires
        storable_config(c),
        0 <= k <= custom_acts(c.acts).len(),
        m.acts == c.acts.take(4),
    ensures
        apply_settings(
            m,
            custom_acts(c.acts).take(k).map_values(|a: Seq<char>| "activity="@ + a),
        ) == (ConfigModel { acts: c.acts.take(4 + k), ..m }),
    decreases k,
{
    let customs = custom_acts(c.acts);
    let ls = customs.take(k).map_values(|a: Seq<char>| "activity="@ + a);
    if k == 0 {
        assert(ls =~= Seq::<Seq<char>>::empty());
        assert(c.acts.take(4) =~= c.acts.take(4 + k));
    } else {
        lemma_activity_lines(m, c, k - 1);
        assert(ls.drop_last() =~= customs.take(k - 1).map_values(
            |a: Seq<char>| "activity="@ + a,
        ));
        let a = customs[k - 1];
        assert(a == c.acts[3 + k]);
        assert(storable_name(c.acts[3 + k]));
        assert(ls.last() == "activity="@ + a);
        lemma_literals();
        assert("activity="@ + a =~= "activity"@ + seq!['='] + a);
        lemma_key_value_pair("activity"@, a);
        let before = c.acts.take(3 + k);
        assert(!before.contains(a)) by {
            if before.contains(a) {
                let j = choose|j: int| 0 <= j < before.len() && before[j] == a;
                assert(c.acts[j] == c.acts[3 + k]);
            }
        }
        assert(before.push(a) =~= c.acts.take(4 + k));
        assert("activity"@ != "break_mins"@);
        assert("activity"@ != "notifications"@);
        assert("activity"@ != "theme"@);
        assert("activity"@ != "volume"@);
    }
}

/// The four lines of the settings file before the custom activities.
pub open spec fn fixed_config_lines(c: ConfigModel) -> Seq<Seq<char>> {
    seq![
        "break_mins="@ + decimal(c.break_mins as nat),
        "notifications="@ + bool_text(c.notifications),
        "theme="@ + theme_name(c.theme),
        "volume="@ + decimal(c.volume_pct as nat),
    ]
}

proof fn lemma_config_lines_clean(c: ConfigModel)
    requires
        storable_config(c),
    ensures
        forall|i: int|
            0 <= i < config_lines(c).len() ==> !(#[trigger] config_lines(c)[i]).contains('\n')
                && strip_cr(config_lines(c)[i]) == config_lines(c)[i],
{
    let ls = config_lines(c);
    let customs = custom_acts(c.acts);
    lemma_literals();
    crate::text::lemma_bool_text(c.notifications);
    lemma_theme_literals(c.theme);
    lemma_parse_decimal(c.break_mins as nat, u32_max());
    lemma_parse_decimal(c.volume_pct as nat, u32_max());
    assert forall|i: int| 0 <= i < ls.len() implies !(#[trigger] ls[i]).contains('\n')
        && strip_cr(ls[i]) == ls[i] by {
        if i == 0 {
            lemma_no_lf_concat("break_mins="@, decimal(c.break_mins as nat));
        } else if i == 1 {
            lemma_no_lf_concat("notifications="@, bool_text(c.notifications));
        } else if i == 2 {
            lemma_no_lf_concat("theme="@, theme_name(c.theme));
        } else if i == 3 {
            lemma_no_lf_concat("volume="@, decimal(c.volume_pct as nat));
        } else {
            let a = c.acts[i];
            assert(customs[i - 4] == a);
            assert(storable_name(a));
            assert(ls[i] == "activity="@ + a);
            lemma_no_lf_concat("activity="@, a);
            lemma_trimmed_ends(a);
        }
    }
}

proof fn lemma_fixed_lines(start: ConfigModel, c: ConfigModel)
    requires
        storable_config(c),
    ensures
        apply_settings(start, fixed_config_lines(c)) == (ConfigModel { acts: start.acts, ..c }),
{
    let fixed = fixed_config_lines(c);
    lemma_literals();
    crate::text::lemma_bool_text(c.notifications);
    lemma_theme_literals(c.theme);
    lemma_parse_decimal(c.break_mins as nat, u32_max());
    lemma_parse_decimal(c.volume_pct as nat, u32_max());
    lemma_key_value_pair("break_mins"@, decimal(c.break_mins as nat));
    lemma_key_value_pair("notifications"@, bool_text(c.notifications));
    lemma_key_value_pair("theme"@, theme_name(c.theme));
    lemma_key_value_pair("volume"@, decimal(c.volume_pct as nat));
    assert(fixed[0] =~= "break_mins"@ + seq!['='] + decimal(c.break_mins as nat));
    assert(fixed[1] =~= "notifications"@ + seq!['='] + bool_text(c.notifications));
    assert(fixed[2] =~= "theme"@ + seq!['='] + theme_name(c.theme));
    assert(fixed[3] =~= "volume"@ + seq!['='] + decimal(c.volume_pct as nat));
    lemma_theme_name_round_trip(c.theme);
    assert("notifications"@ != "break_mins"@);
    assert("theme"@ != "break_mins"@ && "theme"@ != "notifications"@);
    assert("volume"@ != "break_mins"@ && "volume"@ != "notifications"@ && "volume"@ != "theme"@);
    reveal_with_fuel(apply_settings, 5);
    assert(fixed.drop_last().drop_last().drop_last().drop_last() =~= Seq::<Seq<char>>::empty());
    assert(fixed.drop_last().drop_last().drop_last() =~= seq![fixed[0]]);
    assert(fixed.drop_last().drop_last() =~= seq![fixed[0], fixed[1]]);
    assert(fixed.drop_last() =~= seq![fixed[0], fixed[1], fixed[2]]);
}

/// Settings written to the settings file are read back as they were, at
/// the next launch (which starts from the built-in activities).
pub proof fn lemma_config_round_trip(start: ConfigModel, c: ConfigModel)
    requires
        start.acts == default_acts(),
        storable_config(c),
    ensures
        apply_settings(start, lines(unlines(config_lines(c)))) == c,
{
    let ls = config_lines(c);
    let fixed = fixed_config_lines(c);
    let customs = custom_acts(c.acts);
    let acts_lines = customs.map_values(|a: Seq<char>| "activity="@ + a);
    assert(ls == fixed + acts_lines);
    lemma_config_lines_clean(c);
    lemma_lines_unlines(ls);
    assert(ls.map_values(|l: Seq<char>| strip_cr(l)) =~= ls);
    lemma_apply_settings_append(start, fixed, acts_lines);
    lemma_fixed_lines(start, c);
    let mid = apply_settings(start, fixed);
    lemma_activity_lines(mid, c, customs.len() as int);
    assert(customs.take(customs.len() as int) =~= customs);
    assert(c.acts.take(4 + customs.len() as int) =~= c.acts);
}

/// Reading a settings file keeps the activities already there, in front
/// and in their order, adding at most one per line, each not empty and not
/// already in the list (so a list without repeats stays without); it keeps
/// the break at least a minute long and the volume at most 100 percent.
pub proof fn lemma_apply_settings_grows(c: ConfigModel, ls: Seq<Seq<char>>)
    ensures
        apply_settings(c, ls).acts.len() <= c.acts.len() + ls.len(),
        apply_settings(c, ls).acts.len() >= c.acts.len(),
        apply_settings(c, ls).acts.take(c.acts.len() as int) == c.acts,
        forall|i: int|
            c.acts.len() <= i < apply_settings(c, ls).acts.len() ==> (#[trigger] apply_settings(
                c,
                ls,
            ).acts[i]).len() > 0,
        c.acts.no_duplicates() ==> apply_settings(c, ls).acts.no_duplicates(),
        c.break_mins >= 1 ==> apply_settings(c, ls).break_mins >= 1,
        c.volume_pct <= 100 ==> apply_settings(c, ls).volume_pct <= 100,
    decreases ls.len(),
{
    if ls.len() > 0 {
        lemma_apply_settings_grows(c, ls.drop_last());
        let prev = apply_settings(c, ls.drop_last());
        let next = apply_settings(c, ls);
        assert(next == apply_setting(prev, ls.last()));
        if next.acts != prev.acts {
            assert(next.acts == prev.acts.push(next.acts.last()));
            assert(next.acts.take(c.acts.len() as int) =~= prev.acts.take(c.acts.len() as int));
            assert(!prev.acts.contains(next.acts.last()));
            if prev.acts.no_duplicates() {
                assert forall|i: int, j: int|
                    0 <= i < next.acts.len() && 0 <= j < next.acts.len() && i != j implies
                    next.acts[i] != next.acts[j] by {
                    if i < prev.acts.len() && j < prev.acts.len() {
                        assert(next.acts[i] == prev.acts[i] && next.acts[j] == prev.acts[j]);
                    } else if i < prev.acts.len() {
                        assert(next.acts[i] == prev.acts[i]);
                    } else {
                        assert(next.acts[j] == prev.acts[j]);
                    }
                }
            }
        }
    } else {
        assert(c.acts.take(c.acts.len() as int) =~= c.acts);
    }
}

/// The activity a settings line names: the trimmed value of an
/// `activity=` line, when it is not empty.
pub open spec fn activity_value(line: Seq<char>) -> Option<Seq<char>> {
    match key_value(line) {
        Some((k, v)) => if k == "activity"@ && v.len() > 0 {
            Some(v)
        } else {
            None
        },
        None => None,
    }
}

/// The activities that the lines name, in the order of the lines.
pub open spec fn activity_values(ls: Seq<Seq<char>>) -> Seq<Seq<char>>
    decreases ls.len(),
{
    if ls.len() == 0 {
        Seq::empty()
    } else {
        let before = activity_values(ls.drop_last());
        match activity_value(ls.last()) {
            Some(v) => before.push(v),
            None => before,
        }
    }
}

/// The names of `vs`, in order, that are neither among `known` nor among
/// the names taken before them.
pub open spec fn unseen_names(known: Seq<Seq<char>>, vs: Seq<Seq<char>>) -> Seq<Seq<char>>
    decreases vs.len(),
{
    if vs.len() == 0 {
        Seq::empty()
    } else {
        let before = unseen_names(known, vs.drop_last());
        if (known + before).contains(vs.last()) {
            before
        } else {
            before.push(vs.last())
        }
    }
}

/// Reading a settings file gives the activities there were, followed by
/// the activities its `activity=` lines name (trimmed, not empty), in the
/// order of the lines, each but once and none already there.
pub proof fn lemma_apply_settings_activities(c: ConfigModel, ls: Seq<Seq<char>>)
    ensures
        apply_settings(c, ls).acts == c.acts + unseen_names(c.acts, activity_values(ls)),
    decreases ls.len(),
{
    if ls.len() == 0 {
        assert(c.acts + Seq::<Seq<char>>::empty() =~= c.acts);
    } else {
        let l0 = ls.drop_last();
        lemma_apply_settings_activities(c, l0);
        let prev = apply_settings(c, l0);
        let a = unseen_names(c.acts, activity_values(l0));
        assert(prev.acts == c.acts + a);
        reveal_strlit("activity");
        reveal_strlit("break_mins");
        reveal_strlit("notifications");
        reveal_strlit("theme");
        reveal_strlit("volume");
        assert("activity"@ != "break_mins"@ && "activity"@ != "notifications"@) by {
            assert("activity"@.len() == 8 && "break_mins"@.len() == 10);
            assert("notifications"@.len() == 13);
        }
        assert("activity"@ != "theme"@ && "activity"@ != "volume"@) by {
            assert("theme"@.len() == 5 && "volume"@.len() == 6);
        }
        match activity_value(ls.last()) {
            Some(v) => {
                assert(activity_values(ls) == activity_values(l0).push(v));
                assert(activity_values(ls).drop_last() =~= activity_values(l0));
                if !(c.acts + a).contains(v) {
                    assert(c.acts + a.push(v) =~= (c.acts + a).push(v));
                }
            },
            None => {
                assert(activity_values(ls) == activity_values(l0));
            },
        }
    }
}

} // verus!
