//! Configuration: a small TOML subset, read and written by the library.
//!
//! The file has three sections — persistence, preferences, transfer — with
//! boolean, quoted-string and integer values. Missing keys keep their
//! defaults, unknown keys and sections are ignored, and a malformed file
//! falls back to the default configuration as a whole.

use vstd::prelude::*;

use crate::text::{
    chars_eq, chars_of, contains_char, decimal_of, digits_val, is_digit, join_char, join_with,
    parse_u64, push_chars, push_decimal, split_at_seps, split_char, string_from_chars, sub_vec,
    views_of,
};

verus! {

/// Ghost model of a configuration's contents.
pub struct ConfigModel {
    pub history: bool,
    pub theme: Seq<char>,
    pub key_preset: Seq<char>,
    pub receive_dir: Option<Seq<char>>,
    pub max_concurrent_sends: nat,
    pub max_concurrent_receives: nat,
}

/// The default configuration: history on, default theme, arrow keys,
/// no fixed receive directory, and fifty concurrent transfers each way.
pub open spec fn default_model() -> ConfigModel {
    ConfigModel {
        history: true,
        theme: "default"@,
        key_preset: "arrows"@,
        receive_dir: None,
        max_concurrent_sends: 50,
        max_concurrent_receives: 50,
    }
}

/// Whether to keep a transfer history on disk.
#[derive(Debug, Clone, PartialEq, Eq)]
pub struct PersistenceConfig {
    /// Whether to maintain transfer history.
    pub history: bool,
}

/// Display and input preferences.
#[derive(Debug, Clone, PartialEq, Eq)]
pub struct PreferencesConfig {
    /// Theme name for the display.
    pub theme: String,
    /// Key binding preset name.
    pub key_preset: String,
    /// Directory to save received files, when configured.
    pub receive_dir: Option<String>,
}

/// Concurrency limits for transfers.
#[derive(Debug, Clone, PartialEq, Eq)]
pub struct TransferConfig {
    /// Maximum number of concurrent send operations.
    pub max_concurrent_sends: usize,
    /// Maximum number of concurrent receive operations.
    pub max_concurrent_receives: usize,
}

/// The whole configuration.
#[derive(Debug, Clone, PartialEq, Eq)]
pub struct Config {
    pub persistence: PersistenceConfig,
    pub preferences: PreferencesConfig,
    pub transfer: TransferConfig,
}

impl Config {
    /// The ghost model of this configuration.
    pub open spec fn model(&self) -> ConfigModel {
        ConfigModel {
            history: self.persistence.history,
            theme: self.preferences.theme@,
            key_preset: self.preferences.key_preset@,
            receive_dir: match self.preferences.receive_dir {
                Some(d) => Some(d@),
                None => None,
            },
            max_concurrent_sends: self.transfer.max_concurrent_sends as nat,
            max_concurrent_receives: self.transfer.max_concurrent_receives as nat,
        }
    }
}

impl Default for Config {
    /// The default configuration.
    fn default() -> (r: Self)
        ensures
            r.model() == default_model(),
    {
        Config {
            persistence: PersistenceConfig { history: true },
            preferences: PreferencesConfig {
                theme: "default".to_owned(),
                key_preset: "arrows".to_owned(),
                receive_dir: None,
            },
            transfer: TransferConfig { max_concurrent_sends: 50, max_concurrent_receives: 50 },
        }
    }
}

/// Whitespace that trimming removes at a line's ends.
pub open spec fn is_space(c: char) -> bool {
    c == ' ' || c == '\t' || c == '\r'
}

/// `s` without its leading spaces.
pub open spec fn trim_front(s: Seq<char>) -> Seq<char>
    decreases s.len(),
{
    if s.len() > 0 && is_space(s[0]) {
        trim_front(s.drop_first())
    } else {
        s
    }
}

/// `s` without its trailing spaces.
pub open spec fn trim_back(s: Seq<char>) -> Seq<char>
    decreases s.len(),
{
    if s.len() > 0 && is_space(s.last()) {
        trim_back(s.drop_last())
    } else {
        s
    }
}

/// `s` without leading and trailing spaces.
pub open spec fn trim_spec(s: Seq<char>) -> Seq<char> {
    trim_back(trim_front(s))
}

/// Trims spaces, tabs and carriage returns from both ends.
pub fn trim(s: &Vec<char>) -> (r: Vec<char>)
    ensures
        r@ == trim_spec(s@),
{
    let mut from: usize = 0;
    let mut to: usize = s.len();
    proof {
        assert(s@.subrange(0, s@.len() as int) =~= s@);
    }
    while from < to && (s[from] == ' ' || s[from] == '\t' || s[from] == '\r')
        invariant
            0 <= from <= to,
            to == s@.len(),
            trim_front(s@) == trim_front(s@.subrange(from as int, to as int)),
        decreases to - from,
    {
        proof {
            let cur = s@.subrange(from as int, to as int);
            assert(cur[0] == s@[from as int]);
            assert(is_space(cur[0]));
            assert(cur.drop_first() =~= s@.subrange(from as int + 1, to as int));
        }
        from = from + 1;
    }
    proof {
        let cur = s@.subrange(from as int, to as int);
        if from < to {
            assert(cur[0] == s@[from as int]);
            assert(!is_space(cur[0]));
        } else {
            assert(cur =~= Seq::<char>::empty());
        }
        assert(trim_front(cur) == cur);
        assert(trim_front(s@) == s@.subrange(from as int, to as int));
    }
    while to > from && (s[to - 1] == ' ' || s[to - 1] == '\t' || s[to - 1] == '\r')
        invariant
            0 <= from <= to <= s@.len(),
            trim_spec(s@) == trim_back(s@.subrange(from as int, to as int)),
        decreases to,
    {
        proof {
            let cur = s@.subrange(from as int, to as int);
            assert(cur.last() == s@[to as int - 1]);
            assert(is_space(cur.last()));
            assert(cur.drop_last() =~= s@.subrange(from as int, to as int - 1));
        }
        to = to - 1;
    }
    proof {
        let cur = s@.subrange(from as int, to as int);
        if to > from {
            assert(cur.last() == s@[to as int - 1]);
            assert(!is_space(cur.last()));
        } else {
            assert(cur =~= Seq::<char>::empty());
        }
        assert(trim_back(cur) == cur);
        assert(trim_spec(s@) == s@.subrange(from as int, to as int));
    }
    sub_vec(s, from, to)
}

/// A parsed value: boolean, quoted string, integer, or unreadable.
pub enum ValSpec {
    B(bool),
    S(Seq<char>),
    I(nat),
    Bad,
}

/// How a value text reads: `true` or `false`, a quoted string with no quote
/// or backslash inside, or an unsigned integer that fits a `usize`.
pub open spec fn value_spec(v: Seq<char>) -> ValSpec {
    if v == "true"@ {
        ValSpec::B(true)
    } else if v == "false"@ {
        ValSpec::B(false)
    } else if v.len() >= 2 && v[0] == '"' && v.last() == '"' {
        if !v.subrange(1, v.len() - 1).contains('"') && !v.subrange(1, v.len() - 1).contains(
            '\\',
        ) {
            ValSpec::S(v.subrange(1, v.len() - 1))
        } else {
            ValSpec::Bad
        }
    } else if v.len() >= 1 && (forall|i: int| 0 <= i < v.len() ==> is_digit(#[trigger] v[i]))
        && digits_val(v) <= usize::MAX {
        ValSpec::I(digits_val(v))
    } else {
        ValSpec::Bad
    }
}

/// The configuration after one `key = value` pair in a section: a known key
/// takes the value when the type fits and fails otherwise; an unknown key
/// is ignored whatever its value.
pub open spec fn apply_pair_spec(
    sec: Seq<char>,
    key: Seq<char>,
    v: Seq<char>,
    m: ConfigModel,
) -> Option<ConfigModel> {
    let val = value_spec(v);
    if sec == "persistence"@ && key == "history"@ {
        match val {
            ValSpec::B(b) => Some(ConfigModel { history: b, ..m }),
            _ => None,
        }
    } else if sec == "preferences"@ && key == "theme"@ {
        match val {
            ValSpec::S(s) => Some(ConfigModel { theme: s, ..m }),
            _ => None,
        }
    } else if sec == "preferences"@ && key == "key_preset"@ {
        match val {
            ValSpec::S(s) => Some(ConfigModel { key_preset: s, ..m }),
            _ => None,
        }
    } else if sec == "preferences"@ && key == "receive_dir"@ {
        match val {
            ValSpec::S(s) => Some(ConfigModel { receive_dir: Some(s), ..m }),
            _ => None,
        }
    } else if sec == "transfer"@ && key == "max_concurrent_sends"@ {
        match val {
            ValSpec::I(n) => Some(ConfigModel { max_concurrent_sends: n, ..m }),
            _ => None,
        }
    } else if sec == "transfer"@ && key == "max_concurrent_receives"@ {
        match val {
            ValSpec::I(n) => Some(ConfigModel { max_concurrent_receives: n, ..m }),
            _ => None,
        }
    } else {
        // An unknown key is ignored whatever its value holds, including
        // forms this subset cannot read (arrays, dates, escapes).
        Some(m)
    }
}

/// Index of the first occurrence of `c`, or `-1`.
pub open spec fn first_at(s: Seq<char>, c: char) -> int
    decreases s.len(),
{
    if s.len() == 0 {
        -1
    } else if s[0] == c {
        0
    } else {
        let r = first_at(s.drop_first(), c);
        if r == -1 {
            -1
        } else {
            r + 1
        }
    }
}

/// `first_at` finds exactly the first occurrence.
proof fn lemma_first_at_found(s: Seq<char>, c: char, i: int)
    requires
        0 <= i < s.len(),
        s[i] == c,
        forall|j: int| 0 <= j < i ==> s[j] != c,
    ensures
        first_at(s, c) == i,
    decreases s.len(),
{
    if i > 0 {
        assert(forall|k: int| 0 <= k < s.drop_first().len() ==> s.drop_first()[k] == s[k + 1]);
        lemma_first_at_found(s.drop_first(), c, i - 1);
    }
}

/// A character nowhere in the text is not found.
proof fn lemma_first_at_absent(s: Seq<char>, c: char)
    requires
        forall|j: int| 0 <= j < s.len() ==> s[j] != c,
    ensures
        first_at(s, c) == -1,
    decreases s.len(),
{
    if s.len() > 0 {
        assert(forall|k: int| 0 <= k < s.drop_first().len() ==> s.drop_first()[k] == s[k + 1]);
        lemma_first_at_absent(s.drop_first(), c);
    }
}

/// A trimmed value with a trailing comment removed: a quoted value keeps
/// everything through its closing quote when only a comment follows; any
/// other value is cut at the first `#` and trimmed again.
pub open spec fn strip_comment(v: Seq<char>) -> Seq<char> {
    if v.len() >= 1 && v[0] == '"' {
        let q = first_at(v.skip(1), '"');
        if q >= 0 {
            let rest = v.skip(q + 2);
            let t = trim_spec(rest);
            if t.len() == 0 || t[0] == '#' {
                v.take(q + 2)
            } else {
                v
            }
        } else {
            v
        }
    } else {
        let h = first_at(v, '#');
        if h >= 0 {
            trim_spec(v.take(h))
        } else {
            v
        }
    }
}

/// What one line does to the parse state: blank lines and comments change
/// nothing, `[name]` switches the section, and `key = value` updates the
/// configuration; anything else is malformed.
pub open spec fn parse_line_spec(
    line: Seq<char>,
    sec: Seq<char>,
    m: ConfigModel,
) -> Option<(Seq<char>, ConfigModel)> {
    let t = trim_spec(line);
    if t.len() == 0 {
        Some((sec, m))
    } else if t[0] == '#' {
        Some((sec, m))
    } else if t[0] == '[' {
        if t.len() >= 2 && t.last() == ']' {
            Some((t.subrange(1, t.len() - 1), m))
        } else {
            None
        }
    } else {
        let parts = split_at_seps(t, '=');
        if parts.len() < 2 {
            None
        } else {
            let key = trim_spec(parts[0]);
            let v = strip_comment(trim_spec(join_with(parts.drop_first(), '=')));
            match apply_pair_spec(sec, key, v, m) {
                None => None,
                Some(m2) => Some((sec, m2)),
            }
        }
    }
}

/// The configuration read from a sequence of lines, or `None` when any line
/// is malformed.
pub open spec fn parse_lines_spec(
    lines: Seq<Seq<char>>,
    sec: Seq<char>,
    m: ConfigModel,
) -> Option<ConfigModel>
    decreases lines.len(),
{
    if lines.len() == 0 {
        Some(m)
    } else {
        match parse_line_spec(lines[0], sec, m) {
            None => None,
            Some((sec2, m2)) => parse_lines_spec(lines.drop_first(), sec2, m2),
        }
    }
}

/// The configuration read from a file's text: defaults overlaid with the
/// file's settings, or the defaults alone when the text is malformed.
pub open spec fn parse_config_spec(text: Seq<char>) -> ConfigModel {
    match parse_lines_spec(split_at_seps(text, '\n'), Seq::<char>::empty(), default_model()) {
        Some(m) => m,
        None => default_model(),
    }
}

/// A parsed value, as executable data.
enum Value {
    B(bool),
    S(String),
    I(usize),
    Bad,
}

/// Reads a value text.
fn classify_value(v: &Vec<char>) -> (r: Value)
    ensures
        match r {
            Value::B(b) => value_spec(v@) == ValSpec::B(b),
            Value::S(s) => value_spec(v@) == ValSpec::S(s@),
            Value::I(n) => value_spec(v@) == ValSpec::I(n as nat),
            Value::Bad => value_spec(v@) == ValSpec::Bad,
        },
{
    let true_l = chars_of("true");
    if chars_eq(v, &true_l) {
        return Value::B(true);
    }
    let false_l = chars_of("false");
    if chars_eq(v, &false_l) {
        return Value::B(false);
    }
    if v.len() >= 2 && v[0] == '"' && v[v.len() - 1] == '"' {
        let inner = sub_vec(v, 1, v.len() - 1);
        if !contains_char(&inner, '"') && !contains_char(&inner, '\\') {
            return Value::S(string_from_chars(&inner));
        }
        return Value::Bad;
    }
    match parse_u64(v) {
        Some(n) => {
            if n <= (usize::MAX as u64) {
                Value::I(n as usize)
            } else {
                Value::Bad
            }
        },
        None => Value::Bad,
    }
}


/// Applies one `key = value` pair to the configuration.
fn apply_pair(cfg: &mut Config, sec: &Vec<char>, key: &Vec<char>, v: &Vec<char>) -> (ok: bool)
    ensures
        match apply_pair_spec(sec@, key@, v@, old(cfg).model()) {
            Some(m2) => ok && final(cfg).model() == m2,
            None => !ok,
        },
{
    proof {
        reveal_strlit("persistence");
        reveal_strlit("preferences");
        reveal_strlit("transfer");
        reveal_strlit("history");
        reveal_strlit("theme");
        reveal_strlit("key_preset");
        reveal_strlit("receive_dir");
        reveal_strlit("max_concurrent_sends");
        reveal_strlit("max_concurrent_receives");
        assert("persistence"@[1] == 'e' && "preferences"@[1] == 'r');
        assert("persistence"@ != "preferences"@);
        assert("persistence"@ != "transfer"@);
        assert("preferences"@.len() == 11 && "transfer"@.len() == 8);
        assert("preferences"@ != "transfer"@);
    }
    let val = classify_value(v);
    let sec_persistence = chars_of("persistence");
    let sec_preferences = chars_of("preferences");
    let sec_transfer = chars_of("transfer");
    if chars_eq(sec, &sec_persistence) {
        let k_history = chars_of("history");
        if chars_eq(key, &k_history) {
            return match val {
                Value::B(b) => {
                    cfg.persistence.history = b;
                    true
                },
                _ => false,
            };
        }
    } else if chars_eq(sec, &sec_preferences) {
        let k_theme = chars_of("theme");
        if chars_eq(key, &k_theme) {
            return match val {
                Value::S(st) => {
                    cfg.preferences.theme = st;
                    true
                },
                _ => false,
            };
        }
        let k_preset = chars_of("key_preset");
        if chars_eq(key, &k_preset) {
            return match val {
                Value::S(st) => {
                    cfg.preferences.key_preset = st;
                    true
                },
                _ => false,
            };
        }
        let k_dir = chars_of("receive_dir");
        if chars_eq(key, &k_dir) {
            return match val {
                Value::S(st) => {
                    cfg.preferences.receive_dir = Some(st);
                    true
                },
                _ => false,
            };
        }
    } else if chars_eq(sec, &sec_transfer) {
        let k_sends = chars_of("max_concurrent_sends");
        if chars_eq(key, &k_sends) {
            return match val {
                Value::I(n) => {
                    cfg.transfer.max_concurrent_sends = n;
                    true
                },
                _ => false,
            };
        }
        let k_receives = chars_of("max_concurrent_receives");
        if chars_eq(key, &k_receives) {
            return match val {
                Value::I(n) => {
                    cfg.transfer.max_concurrent_receives = n;
                    true
                },
                _ => false,
            };
        }
    }
    true
}

/// The pieces after the first one, as fresh vectors.
fn tail_parts(parts: &Vec<Vec<char>>) -> (r: Vec<Vec<char>>)
    requires
        parts@.len() >= 1,
    ensures
        views_of(r@) == views_of(parts@).drop_first(),
{
    let mut r: Vec<Vec<char>> = Vec::new();
    let mut i: usize = 1;
    proof {
        assert(views_of(r@) =~= views_of(parts@).subrange(1, 1));
    }
    while i < parts.len()
        invariant
            1 <= i <= parts@.len(),
            views_of(r@) == views_of(parts@).subrange(1, i as int),
        decreases parts@.len() - i,
    {
        let p = &parts[i];
        let copy = sub_vec(p, 0, p.len());
        proof {
            assert(copy@ =~= p@);
        }
        let ghost r0 = r@;
        r.push(copy);
        proof {
            crate::text::lemma_views_push(r0, r@.last());
            assert(r@ == r0.push(r@.last()));
            assert(views_of(r@) =~= views_of(parts@).subrange(1, i as int + 1));
        }
        i = i + 1;
    }
    proof {
        assert(views_of(parts@).subrange(1, parts@.len() as int) =~= views_of(
            parts@,
        ).drop_first());
    }
    r
}

/// Removes a trailing comment from a trimmed value.
fn strip_comment_value(v: &Vec<char>) -> (r: Vec<char>)
    ensures
        r@ == strip_comment(v@),
{
    if v.len() >= 1 && v[0] == '"' {
        let mut i: usize = 1;
        while i < v.len()
            invariant
                1 <= i <= v@.len(),
                v@.len() >= 1,
                v@[0] == '"',
                forall|j: int| 1 <= j < i ==> v@[j] != '"',
            decreases v@.len() - i,
        {
            if v[i] == '"' {
                proof {
                    assert(forall|k: int|
                        0 <= k < v@.skip(1).len() ==> v@.skip(1)[k] == v@[k + 1]);
                    lemma_first_at_found(v@.skip(1), '"', i as int - 1);
                }
                let rest = sub_vec(v, i + 1, v.len());
                proof {
                    assert(rest@ =~= v@.skip(i as int + 1));
                }
                let t = trim(&rest);
                if t.len() == 0 || t[0] == '#' {
                    let keep = sub_vec(v, 0, i + 1);
                    proof {
                        assert(keep@ =~= v@.take(i as int + 1));
                    }
                    return keep;
                }
                let copy = sub_vec(v, 0, v.len());
                proof {
                    assert(copy@ =~= v@);
                }
                return copy;
            }
            i = i + 1;
        }
        proof {
            assert(forall|k: int| 0 <= k < v@.skip(1).len() ==> v@.skip(1)[k] == v@[k + 1]);
            lemma_first_at_absent(v@.skip(1), '"');
        }
        let copy = sub_vec(v, 0, v.len());
        proof {
            assert(copy@ =~= v@);
        }
        return copy;
    }
    let mut i: usize = 0;
    while i < v.len()
        invariant
            0 <= i <= v@.len(),
            v@.len() == 0 || v@[0] != '"',
            forall|j: int| 0 <= j < i ==> v@[j] != '#',
        decreases v@.len() - i,
    {
        if v[i] == '#' {
            proof {
                lemma_first_at_found(v@, '#', i as int);
            }
            let cut = sub_vec(v, 0, i);
            return trim(&cut);
        }
        i = i + 1;
    }
    proof {
        lemma_first_at_absent(v@, '#');
    }
    let copy = sub_vec(v, 0, v.len());
    proof {
        assert(copy@ =~= v@);
    }
    copy
}

/// Applies one line of the file to the parse state.
fn parse_line(cfg: &mut Config, section: &mut Vec<char>, line: &Vec<char>) -> (ok: bool)
    ensures
        match parse_line_spec(line@, old(section)@, old(cfg).model()) {
            Some((sec2, m2)) => ok && final(section)@ == sec2 && final(cfg).model() == m2,
            None => !ok,
        },
{
    let t = trim(line);
    if t.len() == 0 {
        return true;
    }
    let c0 = t[0];
    if c0 == '#' {
        return true;
    }
    if c0 == '[' {
        if t.len() >= 2 && t[t.len() - 1] == ']' {
            *section = sub_vec(&t, 1, t.len() - 1);
            return true;
        }
        return false;
    }
    let parts = split_char(&t, '=');
    if parts.len() < 2 {
        proof {
            crate::text::lemma_split_len(t@, '=');
        }
        return false;
    }
    let key = trim(&parts[0]);
    let rest = tail_parts(&parts);
    let joined = join_char(&rest, '=');
    let trimmed = trim(&joined);
    let v = strip_comment_value(&trimmed);
    proof {
        assert(views_of(parts@)[0] == parts@[0]@);
        assert(joined@ == join_with(split_at_seps(t@, '=').drop_first(), '='));
    }
    let sec_copy = sub_vec(section, 0, section.len());
    proof {
        assert(sec_copy@ =~= section@);
    }
    apply_pair(cfg, &sec_copy, &key, &v)
}

impl Config {
    /// Reads a configuration from a file's text; a malformed file falls
    /// back to the defaults as a whole.
    pub fn from_toml(text: &str) -> (r: Config)
        ensures
            r.model() == parse_config_spec(text@),
    {
        let chars = chars_of(text);
        let lines = split_char(&chars, '\n');
        let ghost all = views_of(lines@);
        let mut cfg = Config::default();
        let mut section: Vec<char> = Vec::new();
        let mut i: usize = 0;
        proof {
            assert(all.skip(0) =~= all);
            assert(section@ =~= Seq::<char>::empty());
        }
        while i < lines.len()
            invariant
                0 <= i <= lines@.len(),
                all == views_of(lines@),
                all == split_at_seps(text@, '\n'),
                parse_lines_spec(all, Seq::<char>::empty(), default_model()) == parse_lines_spec(
                    all.skip(i as int),
                    section@,
                    cfg.model(),
                ),
            decreases lines@.len() - i,
        {
            let ghost rest = all.skip(i as int);
            proof {
                assert(rest.len() > 0);
                assert(rest[0] == all[i as int]);
                assert(rest.drop_first() =~= all.skip(i as int + 1));
            }
            let line = &lines[i];
            proof {
                assert(line@ == all[i as int]);
            }
            let ok = parse_line(&mut cfg, &mut section, line);
            if !ok {
                return Config::default();
            }
            i = i + 1;
        }
        proof {
            assert(all.skip(i as int) =~= Seq::<Seq<char>>::empty());
        }
        cfg
    }

    /// Reads a configuration from the file's contents when the file exists,
    /// and falls back to the defaults when it does not.
    pub fn load(contents: Option<&str>) -> (r: Config)
        ensures
            match contents {
                Some(s) => r.model() == parse_config_spec(s@),
                None => r.model() == default_model(),
            },
    {
        match contents {
            Some(s) => Config::from_toml(s),
            None => Config::default(),
        }
    }
}


/// The text form of a boolean.
pub open spec fn bool_text(b: bool) -> Seq<char> {
    if b {
        "true"@
    } else {
        "false"@
    }
}

/// A string value quoted for the file.
pub open spec fn quoted(s: Seq<char>) -> Seq<char> {
    seq!['"'] + s + seq!['"']
}

/// The file's lines for a configuration.
pub open spec fn config_lines(m: ConfigModel) -> Seq<Seq<char>> {
    seq![
        "[persistence]"@,
        "history = "@ + bool_text(m.history),
        ""@,
        "[preferences]"@,
        "theme = "@ + quoted(m.theme),
        "key_preset = "@ + quoted(m.key_preset),
    ] + (match m.receive_dir {
        Some(d) => seq!["receive_dir = "@ + quoted(d)],
        None => Seq::<Seq<char>>::empty(),
    }) + seq![
        ""@,
        "[transfer]"@,
        "max_concurrent_sends = "@ + decimal_of(m.max_concurrent_sends),
        "max_concurrent_receives = "@ + decimal_of(m.max_concurrent_receives),
        ""@,
    ]
}

/// The file text for a configuration: its lines joined with newlines; the
/// final empty line yields the trailing newline.
pub open spec fn toml_of(m: ConfigModel) -> Seq<char> {
    join_with(config_lines(m), '\n')
}

impl Config {
    /// Writes the configuration as file text.
    pub fn to_toml(&self) -> (r: String)
        ensures
            r@ == toml_of(self.model()),
    {
        let mut lines: Vec<Vec<char>> = Vec::new();
        lines.push(chars_of("[persistence]"));
        let mut l_hist = chars_of("history = ");
        let b = if self.persistence.history {
            chars_of("true")
        } else {
            chars_of("false")
        };
        push_chars(&mut l_hist, &b);
        lines.push(l_hist);
        lines.push(Vec::new());
        lines.push(chars_of("[preferences]"));
        let mut l_theme = chars_of("theme = ");
        l_theme.push('"');
        let th = chars_of(self.preferences.theme.as_str());
        push_chars(&mut l_theme, &th);
        l_theme.push('"');
        lines.push(l_theme);
        let mut l_preset = chars_of("key_preset = ");
        l_preset.push('"');
        let kp = chars_of(self.preferences.key_preset.as_str());
        push_chars(&mut l_preset, &kp);
        l_preset.push('"');
        lines.push(l_preset);
        match &self.preferences.receive_dir {
            Some(d) => {
                let mut l_dir = chars_of("receive_dir = ");
                l_dir.push('"');
                let dc = chars_of(d.as_str());
                push_chars(&mut l_dir, &dc);
                l_dir.push('"');
                lines.push(l_dir);
            },
            None => {},
        }
        lines.push(Vec::new());
        lines.push(chars_of("[transfer]"));
        let mut l_sends = chars_of("max_concurrent_sends = ");
        push_decimal(self.transfer.max_concurrent_sends as u64, &mut l_sends);
        lines.push(l_sends);
        let mut l_receives = chars_of("max_concurrent_receives = ");
        push_decimal(self.transfer.max_concurrent_receives as u64, &mut l_receives);
        lines.push(l_receives);
        lines.push(Vec::new());
        proof {
            reveal_strlit("");
            assert(""@ =~= Seq::<char>::empty());
            assert(views_of(lines@) =~~= config_lines(self.model()));
        }
        let joined = join_char(&lines, '\n');
        string_from_chars(&joined)
    }
}


/// A text free of newlines, so it stays on one line of the file.
pub open spec fn line_clean(s: Seq<char>) -> bool {
    forall|i: int| 0 <= i < s.len() ==> s[i] != '\n'
}

/// A string value the file can carry verbatim: no newline, quote, or
/// backslash.
pub open spec fn tame(s: Seq<char>) -> bool {
    forall|i: int| 0 <= i < s.len() ==> s[i] != '\n' && s[i] != '"' && s[i] != '\\'
}

/// A configuration the file can carry: its strings are tame and its
/// limits fit the platform.
pub open spec fn writable(m: ConfigModel) -> bool {
    &&& tame(m.theme)
    &&& tame(m.key_preset)
    &&& match m.receive_dir {
        Some(d) => tame(d),
        None => true,
    }
    &&& m.max_concurrent_sends <= usize::MAX
    &&& m.max_concurrent_receives <= usize::MAX
}

/// Concatenation keeps lines clean.
proof fn lemma_clean_concat(a: Seq<char>, b: Seq<char>)
    requires
        line_clean(a),
        line_clean(b),
    ensures
        line_clean(a + b),
{
    assert forall|i: int| 0 <= i < (a + b).len() implies (a + b)[i] != '\n' by {
        if i < a.len() {
            assert((a + b)[i] == a[i]);
        } else {
            assert((a + b)[i] == b[i - a.len()]);
        }
    }
}

/// Trimming leaves a text alone when neither end is a space.
proof fn lemma_trim_noop(s: Seq<char>)
    requires
        s.len() > 0,
        !is_space(s[0]),
        !is_space(s.last()),
    ensures
        trim_spec(s) == s,
{
    assert(trim_front(s) == s);
    assert(trim_back(s) == s);
}

/// Trimming a text wrapped as ` text` with sound ends gives the text.
proof fn lemma_trim_one_space(v: Seq<char>)
    requires
        v.len() > 0,
        !is_space(v[0]),
        !is_space(v.last()),
    ensures
        trim_spec(seq![' '] + v) == v,
{
    let s = seq![' '] + v;
    assert(s[0] == ' ');
    assert(s.drop_first() =~= v);
    assert(trim_front(s) == trim_front(v));
    assert(trim_front(v) == v);
    assert(trim_back(v) == v);
}

/// Stripping comments leaves a tame quoted value alone.
proof fn lemma_strip_noop_quoted(x: Seq<char>)
    requires
        tame(x),
    ensures
        strip_comment(quoted(x)) == quoted(x),
{
    let q = quoted(x);
    assert(q[0] == '"');
    assert(q.skip(1) =~= x + seq!['"']);
    let tail = x + seq!['"'];
    assert(tail[x.len() as int] == '"');
    assert(forall|j: int| 0 <= j < x.len() ==> tail[j] == x[j]);
    assert forall|j: int| 0 <= j < x.len() implies tail[j] != '"' by {
        assert(x[j] != '"');
    }
    lemma_first_at_found(tail, '"', x.len() as int);
    assert(first_at(q.skip(1), '"') == x.len());
    assert(q.skip(x.len() as int + 2) =~= Seq::<char>::empty());
    assert(trim_front(Seq::<char>::empty()) == Seq::<char>::empty());
    assert(trim_back(Seq::<char>::empty()) == Seq::<char>::empty());
    assert(q.take(x.len() as int + 2) =~= q);
}

/// Stripping comments leaves an unquoted value without `#` alone.
proof fn lemma_strip_noop_plain(v: Seq<char>)
    requires
        v.len() == 0 || v[0] != '"',
        forall|j: int| 0 <= j < v.len() ==> v[j] != '#',
    ensures
        strip_comment(v) == v,
{
    lemma_first_at_absent(v, '#');
}

/// What one written `key = value` line parses back to.
proof fn lemma_parse_kv(k: Seq<char>, v: Seq<char>, sec: Seq<char>, m: ConfigModel)
    requires
        k.len() > 0,
        !is_space(k[0]),
        !is_space(k.last()),
        k[0] != '#',
        k[0] != '[',
        !k.contains('='),
        v.len() > 0,
        !is_space(v[0]),
        !is_space(v.last()),
    ensures
        parse_line_spec(k + " = "@ + v, sec, m) == match apply_pair_spec(
            sec,
            k,
            strip_comment(v),
            m,
        ) {
            Some(m2) => Some((sec, m2)),
            None => None::<(Seq<char>, ConfigModel)>,
        },
{
    reveal_strlit(" = ");
    let line = k + " = "@ + v;
    assert(line[0] == k[0]);
    assert(line.last() == v.last());
    lemma_trim_noop(line);
    let t = line;
    assert(t[0] != '#' && t[0] != '[');
    // Split at the equals sign: the key side has none.
    let p = k + seq![' '];
    let rest = seq![' '] + v;
    assert(!p.contains('=')) by {
        assert(forall|i: int| 0 <= i < k.len() ==> p[i] == k[i]);
        assert(p[p.len() - 1] == ' ');
        if p.contains('=') {
            let w = choose|w: int| 0 <= w < p.len() && p[w] == '=';
            if w < k.len() {
                assert(k[w] == '=');
                assert(k.contains('='));
            }
        }
    }
    assert(t =~= p + (seq!['='] + rest));
    crate::text::lemma_split_prepend(p, seq!['='] + rest, '=');
    crate::text::lemma_split_leading_sep(rest, '=');
    crate::text::lemma_split_len(rest, '=');
    let sp = split_at_seps(rest, '=');
    assert(split_at_seps(seq!['='] + rest, '=') == seq![Seq::<char>::empty()] + sp);
    assert((seq![Seq::<char>::empty()] + sp)[0] =~= Seq::<char>::empty());
    assert(p + (seq![Seq::<char>::empty()] + sp)[0] =~= p);
    assert((seq![Seq::<char>::empty()] + sp).drop_first() =~= sp);
    let parts = split_at_seps(t, '=');
    assert(parts =~= seq![p] + sp);
    assert(parts.len() >= 2);
    assert(parts[0] == p);
    // The key is the text before the equals sign, trimmed.
    assert(trim_spec(parts[0]) == k) by {
        assert(trim_front(p) == p) by {
            assert(p[0] == k[0]);
        }
        assert(p.last() == ' ');
        assert(p.drop_last() =~= k);
        assert(trim_back(p) == trim_back(k));
        assert(trim_back(k) == k);
    }
    // The value is everything after it, rejoined and trimmed.
    assert(parts.drop_first() =~= sp);
    crate::text::lemma_join_split(rest, '=');
    assert(join_with(sp, '=') == rest);
    lemma_trim_one_space(v);
    assert(trim_spec(join_with(parts.drop_first(), '=')) == v);
}

/// What one written `[name]` line parses back to.
proof fn lemma_parse_section(name: Seq<char>, sec: Seq<char>, m: ConfigModel)
    requires
        name.len() > 0,
    ensures
        parse_line_spec(seq!['['] + name + seq![']'], sec, m) == Some((name, m)),
{
    let line = seq!['['] + name + seq![']'];
    assert(line[0] == '[');
    assert(line.last() == ']');
    lemma_trim_noop(line);
    assert(line.len() >= 2);
    assert(line.subrange(1, line.len() - 1) =~= name);
}

/// A blank line parses to no change.
proof fn lemma_parse_blank(sec: Seq<char>, m: ConfigModel)
    ensures
        parse_line_spec(Seq::<char>::empty(), sec, m) == Some((sec, m)),
{
    assert(trim_front(Seq::<char>::empty()) == Seq::<char>::empty());
    assert(trim_back(Seq::<char>::empty()) == Seq::<char>::empty());
}

/// A decimal never collides with the other value forms and reads back as
/// itself.
proof fn lemma_value_decimal(n: nat)
    requires
        n <= usize::MAX,
    ensures
        value_spec(decimal_of(n)) == ValSpec::I(n),
        decimal_of(n).len() > 0,
        !is_space(decimal_of(n)[0]),
        !is_space(decimal_of(n).last()),
        line_clean(decimal_of(n)),
        decimal_of(n)[0] != '"',
        forall|j: int| 0 <= j < decimal_of(n).len() ==> decimal_of(n)[j] != '#',
{
    reveal_strlit("true");
    reveal_strlit("false");
    crate::text::lemma_decimal_val(n);
    let d = decimal_of(n);
    assert(is_digit(d[0]));
    assert(is_digit(d.last()));
    assert(' ' as u32 == 32 && '\t' as u32 == 9 && '\r' as u32 == 13 && '\n' as u32 == 10 && '"'
        as u32 == 34 && 't' as u32 == 116 && 'f' as u32 == 102 && '#' as u32 == 35);
    assert forall|j: int| 0 <= j < decimal_of(n).len() implies decimal_of(n)[j] != '#' by {
        assert(is_digit(decimal_of(n)[j]));
        if decimal_of(n)[j] == '#' {
            assert(decimal_of(n)[j] as u32 == 35);
        }
    }
    assert(decimal_of(n)[0] != '"') by {
        if decimal_of(n)[0] == '"' {
            assert(decimal_of(n)[0] as u32 == 34);
        }
    }
    assert(!is_space(d[0]) && !is_space(d.last())) by {
        if d[0] == ' ' || d[0] == '\t' || d[0] == '\r' {
            assert(!is_digit(d[0]));
        }
        if d.last() == ' ' || d.last() == '\t' || d.last() == '\r' {
            assert(!is_digit(d.last()));
        }
    }
    assert(line_clean(d)) by {
        assert forall|i: int| 0 <= i < d.len() implies d[i] != '\n' by {
            assert(is_digit(d[i]));
            if d[i] == '\n' {
                assert(d[i] as u32 == 10);
            }
        }
    }
    assert(d != "true"@) by {
        assert("true"@[0] == 't');
        if d == "true"@ {
            assert(is_digit('t'));
        }
    }
    assert(d != "false"@) by {
        assert("false"@[0] == 'f');
        if d == "false"@ {
            assert(is_digit('f'));
        }
    }
    if d.len() >= 2 && d[0] == '"' && d.last() == '"' {
        assert(is_digit('"'));
    }
    assert(value_spec(d) == ValSpec::I(digits_val(d)));
}

/// A tame quoted string never collides with the other value forms and
/// reads back as itself.
proof fn lemma_value_quoted(x: Seq<char>)
    requires
        tame(x),
    ensures
        value_spec(quoted(x)) == ValSpec::S(x),
        quoted(x).len() > 0,
        !is_space(quoted(x)[0]),
        !is_space(quoted(x).last()),
        line_clean(quoted(x)),
{
    reveal_strlit("true");
    reveal_strlit("false");
    let q = quoted(x);
    assert(q[0] == '"');
    assert(q.last() == '"');
    assert('"' as u32 == 34 && ' ' as u32 == 32 && '\t' as u32 == 9 && '\r' as u32 == 13 && 't'
        as u32 == 116 && 'f' as u32 == 102);
    assert(q != "true"@) by {
        assert("true"@[0] == 't');
    }
    assert(q != "false"@) by {
        assert("false"@[0] == 'f');
    }
    assert(q.len() >= 2);
    let inner = q.subrange(1, q.len() - 1);
    assert(inner =~= x);
    assert(!inner.contains('"') && !inner.contains('\\')) by {
        if inner.contains('"') {
            let w = choose|w: int| 0 <= w < inner.len() && inner[w] == '"';
            assert(x[w] == '"');
        }
        if inner.contains('\\') {
            let w = choose|w: int| 0 <= w < inner.len() && inner[w] == '\\';
            assert(x[w] == '\\');
        }
    }
    assert(value_spec(q) == ValSpec::S(inner));
    assert(line_clean(q)) by {
        assert forall|i: int| 0 <= i < q.len() implies q[i] != '\n' by {
            if i == 0 || i == q.len() - 1 {
                assert(q[i] == '"');
                assert('\n' as u32 == 10);
            } else {
                assert(q[i] == x[i - 1]);
            }
        }
    }
}

/// A boolean text reads back as itself.
proof fn lemma_value_bool(b: bool)
    ensures
        value_spec(bool_text(b)) == ValSpec::B(b),
        bool_text(b).len() > 0,
        !is_space(bool_text(b)[0]),
        !is_space(bool_text(b).last()),
        line_clean(bool_text(b)),
        bool_text(b)[0] != '"',
        forall|j: int| 0 <= j < bool_text(b).len() ==> bool_text(b)[j] != '#',
{
    reveal_strlit("true");
    reveal_strlit("false");
    assert("true"@ != "false"@) by {
        assert("true"@.len() == 4 && "false"@.len() == 5);
    }
    assert("true"@[0] == 't' && "true"@[3] == 'e');
    assert("false"@[0] == 'f' && "false"@[4] == 'e');
    let v = bool_text(b);
    assert(v[0] != '"');
    assert(line_clean(v)) by {
        assert forall|i: int| 0 <= i < v.len() implies v[i] != '\n' by {
            if b {
                assert(v[i] == "true"@[i]);
            } else {
                assert(v[i] == "false"@[i]);
            }
        }
    }
    assert forall|i: int| 0 <= i < v.len() implies v[i] != '#' by {
        if b {
            assert(v[i] == "true"@[i]);
        } else {
            assert(v[i] == "false"@[i]);
        }
    }
    if b {
        assert(value_spec(v) == ValSpec::B(true));
    } else {
        assert(value_spec(v) == ValSpec::B(false));
    }
}


/// The parse state after a run of lines: the section and the
/// configuration so far.
spec fn parse_lines_st(lines: Seq<Seq<char>>, sec: Seq<char>, m: ConfigModel) -> Option<
    (Seq<char>, ConfigModel),
>
    decreases lines.len(),
{
    if lines.len() == 0 {
        Some((sec, m))
    } else {
        match parse_line_spec(lines[0], sec, m) {
            None => None,
            Some((s2, m2)) => parse_lines_st(lines.drop_first(), s2, m2),
        }
    }
}

/// The lines parse to a configuration exactly when the stateful parse
/// reaches one.
proof fn lemma_parse_lines_st(lines: Seq<Seq<char>>, sec: Seq<char>, m: ConfigModel)
    ensures
        parse_lines_spec(lines, sec, m) == match parse_lines_st(lines, sec, m) {
            Some((s2, m2)) => Some(m2),
            None => None::<ConfigModel>,
        },
    decreases lines.len(),
{
    if lines.len() > 0 {
        match parse_line_spec(lines[0], sec, m) {
            None => {},
            Some((s2, m2)) => {
                lemma_parse_lines_st(lines.drop_first(), s2, m2);
            },
        }
    }
}

/// The stateful parse runs one block of lines after another.
proof fn lemma_st_append(a: Seq<Seq<char>>, b: Seq<Seq<char>>, sec: Seq<char>, m: ConfigModel)
    ensures
        parse_lines_st(a + b, sec, m) == match parse_lines_st(a, sec, m) {
            Some((s2, m2)) => parse_lines_st(b, s2, m2),
            None => None::<(Seq<char>, ConfigModel)>,
        },
    decreases a.len(),
{
    if a.len() == 0 {
        assert(a + b =~= b);
    } else {
        assert((a + b)[0] == a[0]);
        assert((a + b).drop_first() =~= a.drop_first() + b);
        match parse_line_spec(a[0], sec, m) {
            None => {},
            Some((s2, m2)) => {
                lemma_st_append(a.drop_first(), b, s2, m2);
            },
        }
    }
}

/// One parsed line advances the stateful parse by exactly that line.
proof fn lemma_st_one(l: Seq<char>, rest: Seq<Seq<char>>, sec: Seq<char>, m: ConfigModel)
    ensures
        parse_lines_st(seq![l] + rest, sec, m) == match parse_line_spec(l, sec, m) {
            Some((s2, m2)) => parse_lines_st(rest, s2, m2),
            None => None::<(Seq<char>, ConfigModel)>,
        },
{
    let ls = seq![l] + rest;
    assert(ls[0] == l);
    assert(ls.drop_first() =~= rest);
}

/// Writing a configuration and reading the text back recovers it, for any
/// configuration whose strings the file can carry and whose limits fit
/// the platform.
pub proof fn lemma_config_round_trip(m: ConfigModel)
    requires
        writable(m),
    ensures
        parse_config_spec(toml_of(m)) == m,
{
    reveal_strlit("");
    reveal_strlit("[persistence]");
    reveal_strlit("[preferences]");
    reveal_strlit("[transfer]");
    reveal_strlit("persistence");
    reveal_strlit("preferences");
    reveal_strlit("transfer");
    reveal_strlit("history");
    reveal_strlit("theme");
    reveal_strlit("key_preset");
    reveal_strlit("receive_dir");
    reveal_strlit("max_concurrent_sends");
    reveal_strlit("max_concurrent_receives");
    reveal_strlit("history = ");
    reveal_strlit("theme = ");
    reveal_strlit("key_preset = ");
    reveal_strlit("receive_dir = ");
    reveal_strlit("max_concurrent_sends = ");
    reveal_strlit("max_concurrent_receives = ");
    reveal_strlit(" = ");
    let lines = config_lines(m);
    let l_sec_p = "[persistence]"@;
    let l_hist = "history = "@ + bool_text(m.history);
    let l_blank = ""@;
    let l_sec_f = "[preferences]"@;
    let l_theme = "theme = "@ + quoted(m.theme);
    let l_preset = "key_preset = "@ + quoted(m.key_preset);
    let l_sec_t = "[transfer]"@;
    let l_sends = "max_concurrent_sends = "@ + decimal_of(m.max_concurrent_sends);
    let l_receives = "max_concurrent_receives = "@ + decimal_of(m.max_concurrent_receives);
    assert(l_blank =~= Seq::<char>::empty());
    lemma_value_bool(m.history);
    lemma_value_quoted(m.theme);
    lemma_value_quoted(m.key_preset);
    lemma_value_decimal(m.max_concurrent_sends);
    lemma_value_decimal(m.max_concurrent_receives);
    lemma_strip_noop_plain(bool_text(m.history));
    lemma_strip_noop_quoted(m.theme);
    lemma_strip_noop_quoted(m.key_preset);
    lemma_strip_noop_plain(decimal_of(m.max_concurrent_sends));
    lemma_strip_noop_plain(decimal_of(m.max_concurrent_receives));
    // Every line stays on one line.
    assert(line_clean(l_sec_p)) by {
        assert(forall|i: int| 0 <= i < l_sec_p.len() ==> l_sec_p[i] != '\n') by {
            assert(l_sec_p.len() == 13);
        }
    }
    assert(line_clean(l_sec_f)) by {
        assert(l_sec_f.len() == 13);
    }
    assert(line_clean(l_sec_t)) by {
        assert(l_sec_t.len() == 10);
    }
    assert(line_clean("history = "@));
    assert(line_clean("theme = "@));
    assert(line_clean("key_preset = "@));
    assert(line_clean("receive_dir = "@));
    assert(line_clean("max_concurrent_sends = "@));
    assert(line_clean("max_concurrent_receives = "@));
    lemma_clean_concat("history = "@, bool_text(m.history));
    lemma_clean_concat("theme = "@, quoted(m.theme));
    lemma_clean_concat("key_preset = "@, quoted(m.key_preset));
    lemma_clean_concat("max_concurrent_sends = "@, decimal_of(m.max_concurrent_sends));
    lemma_clean_concat("max_concurrent_receives = "@, decimal_of(m.max_concurrent_receives));
    assert(line_clean(l_blank));
    match m.receive_dir {
        Some(d) => {
            lemma_value_quoted(d);
            lemma_strip_noop_quoted(d);
            lemma_clean_concat("receive_dir = "@, quoted(d));
        },
        None => {},
    }
    assert(forall|i: int|
        0 <= i < lines.len() ==> line_clean(#[trigger] lines[i])) by {
        assert(lines[0] == l_sec_p && lines[1] == l_hist && lines[2] == l_blank && lines[3]
            == l_sec_f && lines[4] == l_theme && lines[5] == l_preset);
        match m.receive_dir {
            Some(d) => {
                assert(lines.len() == 12);
                assert(lines[6] == "receive_dir = "@ + quoted(d));
                assert(lines[7] == l_blank && lines[8] == l_sec_t && lines[9] == l_sends
                    && lines[10] == l_receives && lines[11] == l_blank);
            },
            None => {
                assert(lines.len() == 11);
                assert(lines[6] == l_blank && lines[7] == l_sec_t && lines[8] == l_sends
                    && lines[9] == l_receives && lines[10] == l_blank);
            },
        }
    }
    assert(forall|i: int|
        0 <= i < lines.len() ==> !(#[trigger] lines[i]).contains('\n')) by {
        assert forall|i: int| 0 <= i < lines.len() implies !(#[trigger] lines[i]).contains('\n')
            by {
            if lines[i].contains('\n') {
                let w = choose|w: int| 0 <= w < lines[i].len() && lines[i][w] == '\n';
                assert(line_clean(lines[i]));
            }
        }
    }
    crate::text::lemma_split_join(lines, '\n');
    assert(split_at_seps(toml_of(m), '\n') == lines);
    // Key texts are usable with the line lemma.
    assert("history = "@ =~= "history"@ + " = "@);
    assert("theme = "@ =~= "theme"@ + " = "@);
    assert("key_preset = "@ =~= "key_preset"@ + " = "@);
    assert("receive_dir = "@ =~= "receive_dir"@ + " = "@);
    assert("max_concurrent_sends = "@ =~= "max_concurrent_sends"@ + " = "@);
    assert("max_concurrent_receives = "@ =~= "max_concurrent_receives"@ + " = "@);
    assert(!"history"@.contains('=') && !"theme"@.contains('=') && !"key_preset"@.contains('=')
        && !"receive_dir"@.contains('=') && !"max_concurrent_sends"@.contains('=')
        && !"max_concurrent_receives"@.contains('=')) by {
        assert("history"@.len() == 7 && "theme"@.len() == 5 && "key_preset"@.len() == 10
            && "receive_dir"@.len() == 11 && "max_concurrent_sends"@.len() == 20
            && "max_concurrent_receives"@.len() == 23);
    }
    // Section headers match the bracketed texts.
    assert(l_sec_p =~= seq!['['] + "persistence"@ + seq![']']);
    assert(l_sec_f =~= seq!['['] + "preferences"@ + seq![']']);
    assert(l_sec_t =~= seq!['['] + "transfer"@ + seq![']']);
    // Walk the lines.
    let d0 = default_model();
    lemma_parse_section("persistence"@, Seq::<char>::empty(), d0);
    lemma_parse_kv("history"@, bool_text(m.history), "persistence"@, d0);
    let d1 = ConfigModel { history: m.history, ..d0 };
    assert(apply_pair_spec("persistence"@, "history"@, bool_text(m.history), d0) == Some(d1));
    lemma_parse_blank("persistence"@, d1);
    lemma_parse_section("preferences"@, "persistence"@, d1);
    assert("persistence"@ != "preferences"@) by {
        assert("persistence"@[1] == 'e' && "preferences"@[1] == 'r');
    }
    assert("persistence"@ != "transfer"@ && "preferences"@ != "transfer"@);
    assert("theme"@ != "history"@ && "key_preset"@ != "theme"@);
    lemma_parse_kv("theme"@, quoted(m.theme), "preferences"@, d1);
    let d2 = ConfigModel { theme: m.theme, ..d1 };
    assert(apply_pair_spec("preferences"@, "theme"@, quoted(m.theme), d1) == Some(d2));
    lemma_parse_kv("key_preset"@, quoted(m.key_preset), "preferences"@, d2);
    assert("key_preset"@ != "history"@ && "key_preset"@ != "receive_dir"@ && "theme"@
        != "receive_dir"@ && "theme"@ != "key_preset"@);
    let d3 = ConfigModel { key_preset: m.key_preset, ..d2 };
    assert(apply_pair_spec("preferences"@, "key_preset"@, quoted(m.key_preset), d2) == Some(d3));
    let d4 = match m.receive_dir {
        Some(d) => ConfigModel { receive_dir: Some(d), ..d3 },
        None => d3,
    };
    // The common tail: blank, the transfer section, the two limits, blank.
    let tail = seq![l_blank, l_sec_t, l_sends, l_receives, l_blank];
    lemma_parse_blank("preferences"@, d4);
    lemma_parse_section("transfer"@, "preferences"@, d4);
    lemma_parse_kv(
        "max_concurrent_sends"@,
        decimal_of(m.max_concurrent_sends),
        "transfer"@,
        d4,
    );
    assert("max_concurrent_sends"@ != "max_concurrent_receives"@) by {
        assert("max_concurrent_sends"@.len() == 20 && "max_concurrent_receives"@.len() == 23);
    }
    let d5 = ConfigModel { max_concurrent_sends: m.max_concurrent_sends, ..d4 };
    assert(apply_pair_spec(
        "transfer"@,
        "max_concurrent_sends"@,
        decimal_of(m.max_concurrent_sends),
        d4,
    ) == Some(d5));
    lemma_parse_kv(
        "max_concurrent_receives"@,
        decimal_of(m.max_concurrent_receives),
        "transfer"@,
        d5,
    );
    let d6 = ConfigModel { max_concurrent_receives: m.max_concurrent_receives, ..d5 };
    assert(apply_pair_spec(
        "transfer"@,
        "max_concurrent_receives"@,
        decimal_of(m.max_concurrent_receives),
        d5,
    ) == Some(d6));
    lemma_parse_blank("transfer"@, d6);
    assert(parse_lines_st(tail, "preferences"@, d4) == Some(("transfer"@, d6))) by {
        lemma_st_one(l_blank, seq![l_sec_t, l_sends, l_receives, l_blank], "preferences"@, d4);
        assert(tail =~= seq![l_blank] + seq![l_sec_t, l_sends, l_receives, l_blank]);
        lemma_st_one(l_sec_t, seq![l_sends, l_receives, l_blank], "preferences"@, d4);
        assert(seq![l_sec_t, l_sends, l_receives, l_blank] =~= seq![l_sec_t] + seq![
            l_sends,
            l_receives,
            l_blank,
        ]);
        lemma_st_one(l_sends, seq![l_receives, l_blank], "transfer"@, d4);
        assert(seq![l_sends, l_receives, l_blank] =~= seq![l_sends] + seq![l_receives, l_blank]);
        lemma_st_one(l_receives, seq![l_blank], "transfer"@, d5);
        assert(seq![l_receives, l_blank] =~= seq![l_receives] + seq![l_blank]);
        lemma_st_one(l_blank, Seq::<Seq<char>>::empty(), "transfer"@, d6);
        assert(seq![l_blank] =~= seq![l_blank] + Seq::<Seq<char>>::empty());
    }
    // The head up to the preferences, then the optional directory line.
    let head = seq![l_sec_p, l_hist, l_blank, l_sec_f, l_theme, l_preset];
    assert(parse_lines_st(head, Seq::<char>::empty(), d0) == Some(("preferences"@, d3))) by {
        lemma_st_one(l_sec_p, seq![l_hist, l_blank, l_sec_f, l_theme, l_preset], Seq::<
            char,
        >::empty(), d0);
        assert(head =~= seq![l_sec_p] + seq![l_hist, l_blank, l_sec_f, l_theme, l_preset]);
        lemma_st_one(l_hist, seq![l_blank, l_sec_f, l_theme, l_preset], "persistence"@, d0);
        assert(seq![l_hist, l_blank, l_sec_f, l_theme, l_preset] =~= seq![l_hist] + seq![
            l_blank,
            l_sec_f,
            l_theme,
            l_preset,
        ]);
        lemma_st_one(l_blank, seq![l_sec_f, l_theme, l_preset], "persistence"@, d1);
        assert(seq![l_blank, l_sec_f, l_theme, l_preset] =~= seq![l_blank] + seq![
            l_sec_f,
            l_theme,
            l_preset,
        ]);
        lemma_st_one(l_sec_f, seq![l_theme, l_preset], "persistence"@, d1);
        assert(seq![l_sec_f, l_theme, l_preset] =~= seq![l_sec_f] + seq![l_theme, l_preset]);
        lemma_st_one(l_theme, seq![l_preset], "preferences"@, d1);
        assert(seq![l_theme, l_preset] =~= seq![l_theme] + seq![l_preset]);
        lemma_st_one(l_preset, Seq::<Seq<char>>::empty(), "preferences"@, d2);
        assert(seq![l_preset] =~= seq![l_preset] + Seq::<Seq<char>>::empty());
    }
    match m.receive_dir {
        Some(d) => {
            let l_dir = "receive_dir = "@ + quoted(d);
            lemma_parse_kv("receive_dir"@, quoted(d), "preferences"@, d3);
            assert(apply_pair_spec("preferences"@, "receive_dir"@, quoted(d), d3) == Some(d4));
            assert(lines =~= head + (seq![l_dir] + tail));
            lemma_st_append(head, seq![l_dir] + tail, Seq::<char>::empty(), d0);
            lemma_st_one(l_dir, tail, "preferences"@, d3);
            assert(parse_lines_st(lines, Seq::<char>::empty(), d0) == Some(("transfer"@, d6)));
        },
        None => {
            assert(lines =~= head + tail);
            lemma_st_append(head, tail, Seq::<char>::empty(), d0);
            assert(parse_lines_st(lines, Seq::<char>::empty(), d0) == Some(("transfer"@, d6)));
        },
    }
    lemma_parse_lines_st(lines, Seq::<char>::empty(), d0);
    assert(parse_lines_spec(lines, Seq::<char>::empty(), d0) == Some(d6));
    assert(d6 == m);
}


} // verus!
