//! The run configuration, its defaults, and the parsing of the values a
//! user supplies for it.

use vstd::prelude::*;
use vstd::string::*;
use crate::model::strings_view;
use crate::text::str_eq;
use crate::walk::TraversalConfig;
use crate::language::Language;

verus! {

#[derive(Clone, Copy, Debug, PartialEq, Eq, Structural)]
pub enum OutputFormat {
    Text,
    Json,
    Html,
}

pub open spec fn format_named(s: Seq<char>) -> Option<OutputFormat> {
    if s == "text"@ {
        Some(OutputFormat::Text)
    } else if s == "json"@ {
        Some(OutputFormat::Json)
    } else if s == "html"@ {
        Some(OutputFormat::Html)
    } else {
        None
    }
}

impl OutputFormat {
    pub open spec fn spec_name(self) -> Seq<char> {
        match self {
            OutputFormat::Text => "text"@,
            OutputFormat::Json => "json"@,
            OutputFormat::Html => "html"@,
        }
    }

    pub fn from_name(s: &str) -> (r: Option<OutputFormat>)
        ensures
            r == format_named(s@),
    {
        if str_eq(s, "text") {
            Some(OutputFormat::Text)
        } else if str_eq(s, "json") {
            Some(OutputFormat::Json)
        } else if str_eq(s, "html") {
            Some(OutputFormat::Html)
        } else {
            None
        }
    }

    pub fn name(&self) -> (r: &'static str)
        ensures
            r@ == self.spec_name(),
    {
        match self {
            OutputFormat::Text => "text",
            OutputFormat::Json => "json",
            OutputFormat::Html => "html",
        }
    }
}

/// The depth limit used where none, or no valid one, is given.
pub const DEFAULT_MAX_DEPTH: usize = 5;

/// The settings of a run.
#[derive(Clone, Debug)]
pub struct Config {
    pub ignore_dirs: Vec<String>,
    pub output_format: OutputFormat,
    pub max_depth: usize,
    pub log_level: String,
    pub output_dir: String,
}

impl Default for Config {
    fn default() -> (r: Config)
        ensures
            strings_view(r.ignore_dirs@) == seq!["tests"@, "node_modules"@, "target"@, "venv"@, "__pycache__"@],
            r.output_format == OutputFormat::Text,
            r.max_depth == DEFAULT_MAX_DEPTH,
            r.log_level@ == "info"@,
            r.output_dir@ == "~/.parser/output"@,
    {
        let ignore_dirs = vec![
            "tests".to_owned(),
            "node_modules".to_owned(),
            "target".to_owned(),
            "venv".to_owned(),
            "__pycache__".to_owned(),
        ];
        let r = Config {
            ignore_dirs,
            output_format: OutputFormat::Text,
            max_depth: DEFAULT_MAX_DEPTH,
            log_level: "info".to_owned(),
            output_dir: "~/.parser/output".to_owned(),
        };
        assert(strings_view(r.ignore_dirs@) =~= seq!["tests"@, "node_modules"@, "target"@, "venv"@, "__pycache__"@]);
        r
    }
}

/// A `key=value` setting that could not be applied.
#[derive(Clone, Copy, Debug, PartialEq, Eq, Structural)]
pub enum SettingError {
    /// The text is not of the form `key=value` with a single `=`.
    NotAnAssignment,
    /// No setting has that key.
    UnknownKey,
    /// The output format named is not one of text, json, html.
    UnknownFormat,
}

/// The value of a string of decimal digits.
pub open spec fn decimal_value(s: Seq<char>) -> int
    decreases s.len(),
{
    if s.len() == 0 {
        0
    } else {
        decimal_value(s.drop_last()) * 10 + (s.last() as int - '0' as int)
    }
}

pub open spec fn is_digit(c: char) -> bool {
    '0' <= c && c <= '9'
}

/// A non-negative integer written in decimal digits alone, that fits a `usize`.
pub open spec fn depth_value(s: Seq<char>) -> Option<usize> {
    if s.len() > 0 && (forall|i: int| 0 <= i < s.len() ==> is_digit(#[trigger] s[i]))
        && decimal_value(s) <= usize::MAX {
        Some(decimal_value(s) as usize)
    } else {
        None
    }
}

proof fn lemma_decimal_nonneg(s: Seq<char>)
    requires
        forall|i: int| 0 <= i < s.len() ==> is_digit(#[trigger] s[i]),
    ensures
        decimal_value(s) >= 0,
    decreases s.len(),
{
    if s.len() > 0 {
        lemma_decimal_nonneg(s.drop_last());
    }
}

proof fn lemma_decimal_grows(s: Seq<char>)
    requires
        s.len() > 0,
        forall|i: int| 0 <= i < s.len() ==> is_digit(#[trigger] s[i]),
    ensures
        decimal_value(s) >= decimal_value(s.drop_last()),
{
    lemma_decimal_nonneg(s.drop_last());
}

/// The value that `s` gives for a depth limit.
pub fn parse_depth(s: &str) -> (r: Option<usize>)
    ensures
        r == depth_value(s@),
{
    let n = s.unicode_len();
    if n == 0 {
        return None;
    }
    let mut v: usize = 0;
    let mut i: usize = 0;
    while i < n
        invariant
            n == s@.len(),
            i <= n,
            forall|k: int| 0 <= k < i ==> is_digit(#[trigger] s@[k]),
            v as int == decimal_value(s@.take(i as int)),
        decreases n - i,
    {
        let c = s.get_char(i);
        proof {
            assert(s@.take(i as int + 1).drop_last() =~= s@.take(i as int));
            assert(s@.take(i as int + 1).last() == c);
        }
        if !('0' <= c && c <= '9') {
            return None;
        }
        let d = (c as u32 - '0' as u32) as usize;
        if v > (usize::MAX - d) / 10 {
            proof {
                assert(v * 10 + d > usize::MAX) by (nonlinear_arith)
                    requires v > (usize::MAX - d) / 10, d <= 9;
                assert forall|k: int| 0 <= k < i + 1 implies is_digit(#[trigger] s@.take(i as int + 1)[k]) by {
                    assert(s@.take(i as int + 1)[k] == s@[k]);
                }
                lemma_not_fitting(s@, i as int + 1);
            }
            return None;
        }
        v = v * 10 + d;
        i = i + 1;
    }
    assert(s@.take(n as int) =~= s@);
    Some(v)
}

/// Once a prefix of digits is too large, so is the whole.
proof fn lemma_not_fitting(s: Seq<char>, k: int)
    requires
        0 < k <= s.len(),
        decimal_value(s.take(k)) > usize::MAX,
        forall|i: int| 0 <= i < k ==> is_digit(#[trigger] s.take(k)[i]),
    ensures
        depth_value(s) is None,
    decreases s.len() - k,
{
    if (forall|i: int| 0 <= i < s.len() ==> is_digit(#[trigger] s[i])) && k < s.len() {
        let t = s.take(k + 1);
        assert(t.drop_last() =~= s.take(k));
        assert forall|i: int| 0 <= i < k + 1 implies is_digit(#[trigger] t[i]) by {
            assert(t[i] == s[i]);
        }
        lemma_decimal_grows(t);
        lemma_not_fitting(s, k + 1);
    }
    if k == s.len() {
        assert(s.take(k) =~= s);
    }
}

/// The pieces of `s` between occurrences of `sep`, as `str::split` yields
/// them: `n` separators give `n + 1` pieces, empty ones included.
pub open spec fn split_spec(s: Seq<char>, sep: char) -> Seq<Seq<char>>
    decreases s.len(),
{
    if s.len() == 0 {
        seq![Seq::empty()]
    } else {
        let parts = split_spec(s.drop_last(), sep);
        if s.last() == sep {
            parts.push(Seq::empty())
        } else {
            parts.update(parts.len() - 1, parts.last().push(s.last()))
        }
    }
}

proof fn lemma_split_nonempty(s: Seq<char>, sep: char)
    ensures
        split_spec(s, sep).len() >= 1,
    decreases s.len(),
{
    if s.len() > 0 {
        lemma_split_nonempty(s.drop_last(), sep);
    }
}

/// Splits `s` at each `sep`.
pub fn split_on(s: &str, sep: char) -> (r: Vec<String>)
    ensures
        strings_view(r@) == split_spec(s@, sep),
{
    let n = s.unicode_len();
    let mut parts: Vec<String> = Vec::new();
    let mut start: usize = 0;
    let mut i: usize = 0;
    proof {
        assert(s@.take(0) =~= Seq::<char>::empty());
        assert(s@.subrange(0, 0) =~= Seq::<char>::empty());
        assert(strings_view(parts@).push(Seq::empty()) =~= seq![Seq::<char>::empty()]);
    }
    while i < n
        invariant
            n == s@.len(),
            start <= i <= n,
            strings_view(parts@).push(s@.subrange(start as int, i as int))
                == split_spec(s@.take(i as int), sep),
        decreases n - i,
    {
        let c = s.get_char(i);
        proof {
            let t = s@.take(i as int + 1);
            assert(t.drop_last() =~= s@.take(i as int));
            assert(t.last() == c);
            lemma_split_nonempty(s@.take(i as int), sep);
        }
        if c == sep {
            let piece = s.substring_char(start, i).to_owned();
            parts.push(piece);
            start = i + 1;
            proof {
                assert(s@.subrange(start as int, i as int + 1) =~= Seq::<char>::empty());
                assert(strings_view(parts@) =~= strings_view(parts@.drop_last()).push(piece@));
            }
        } else {
            proof {
                assert(s@.subrange(start as int, i as int + 1)
                    =~= s@.subrange(start as int, i as int).push(c));
            }
        }
        proof {
            let t = s@.take(i as int + 1);
            assert(strings_view(parts@).push(s@.subrange(start as int, i as int + 1))
                =~= split_spec(t, sep));
        }
        i = i + 1;
    }
    let last = s.substring_char(start, n).to_owned();
    let ghost before = parts@;
    parts.push(last);
    proof {
        assert(s@.take(n as int) =~= s@);
        assert(strings_view(parts@) =~= strings_view(before).push(last@));
    }
    parts
}

impl Config {
    /// The walk policy for analyzing files of `lang` under this configuration.
    pub fn traversal(&self, lang: Language) -> (r: TraversalConfig)
        ensures
            strings_view(r.ignore_dirs@) == strings_view(self.ignore_dirs@),
            r.max_depth == self.max_depth,
            r.extension@ == lang.spec_extension(),
    {
        let ignore_dirs = copy_strings(&self.ignore_dirs);
        TraversalConfig { ignore_dirs, max_depth: self.max_depth, extension: lang.extension().to_owned() }
    }

    /// Replaces the ignored directory names by the comma-separated list `list`.
    pub fn set_ignore_dirs(&mut self, list: &str)
        ensures
            strings_view(final(self).ignore_dirs@) == split_spec(list@, ','),
            final(self).output_format == old(self).output_format,
            final(self).max_depth == old(self).max_depth,
            final(self).log_level == old(self).log_level,
            final(self).output_dir == old(self).output_dir,
    {
        self.ignore_dirs = split_on(list, ',');
    }

    /// Sets the depth limit from its text; text that is not a valid limit
    /// sets the default.
    pub fn set_max_depth(&mut self, value: &str)
        ensures
            final(self).max_depth == match depth_value(value@) {
                Some(d) => d,
                None => DEFAULT_MAX_DEPTH,
            },
            final(self).ignore_dirs == old(self).ignore_dirs,
            final(self).output_format == old(self).output_format,
            final(self).log_level == old(self).log_level,
            final(self).output_dir == old(self).output_dir,
    {
        self.max_depth = match parse_depth(value) {
            Some(d) => d,
            None => DEFAULT_MAX_DEPTH,
        };
    }

    /// Applies one `key=value` setting. The keys are `output_format`,
    /// `max_depth`, `log_level` and `output_dir`; on an error nothing changes.
    pub fn apply_setting(&mut self, assignment: &str) -> (r: Result<(), SettingError>)
        ensures
            ({
                let parts = split_spec(assignment@, '=');
                if parts.len() != 2 {
                    r == Err::<(), SettingError>(SettingError::NotAnAssignment) && *final(self) == *old(self)
                } else if parts[0] == "output_format"@ {
                    match format_named(parts[1]) {
                        Some(f) => r is Ok && *final(self) == Config { output_format: f, ..*old(self) },
                        None => r == Err::<(), SettingError>(SettingError::UnknownFormat) && *final(self) == *old(self),
                    }
                } else if parts[0] == "max_depth"@ {
                    r is Ok && *final(self) == Config {
                        max_depth: match depth_value(parts[1]) {
                            Some(d) => d,
                            None => DEFAULT_MAX_DEPTH,
                        },
                        ..*old(self)
                    }
                } else if parts[0] == "log_level"@ {
                    r is Ok && final(self).log_level@ == parts[1]
                        && *final(self) == Config { log_level: final(self).log_level, ..*old(self) }
                } else if parts[0] == "output_dir"@ {
                    r is Ok && final(self).output_dir@ == parts[1]
                        && *final(self) == Config { output_dir: final(self).output_dir, ..*old(self) }
                } else {
                    r == Err::<(), SettingError>(SettingError::UnknownKey) && *final(self) == *old(self)
                }
            }),
    {
        let parts = split_on(assignment, '=');
        if parts.len() != 2 {
            return Err(SettingError::NotAnAssignment);
        }
        let key = parts[0].as_str();
        let value = parts[1].as_str();
        assert(strings_view(parts@)[0] == parts@[0]@);
        assert(strings_view(parts@)[1] == parts@[1]@);
        if str_eq(key, "output_format") {
            match OutputFormat::from_name(value) {
                Some(f) => {
                    self.output_format = f;
                    Ok(())
                },
                None => Err(SettingError::UnknownFormat),
            }
        } else if str_eq(key, "max_depth") {
            self.set_max_depth(value);
            Ok(())
        } else if str_eq(key, "log_level") {
            self.log_level = value.to_owned();
            Ok(())
        } else if str_eq(key, "output_dir") {
            self.output_dir = value.to_owned();
            Ok(())
        } else {
            Err(SettingError::UnknownKey)
        }
    }
}

/// A copy of a list of strings.
pub fn copy_strings(v: &Vec<String>) -> (r: Vec<String>)
    ensures
        strings_view(r@) == strings_view(v@),
{
    let mut r: Vec<String> = Vec::new();
    let mut i: usize = 0;
    while i < v.len()
        invariant
            i <= v@.len(),
            strings_view(r@) == strings_view(v@.take(i as int)),
        decreases v@.len() - i,
    {
        let ghost before = r@;
        r.push(v[i].clone());
        proof {
            assert(strings_view(r@) =~= strings_view(before).push(v@[i as int]@));
            assert(v@.take(i as int + 1) =~= v@.take(i as int).push(v@[i as int]));
            assert(strings_view(v@.take(i as int + 1)) =~= strings_view(v@.take(i as int)).push(v@[i as int]@));
            assert(strings_view(r@) =~= strings_view(v@.take(i as int + 1)));
        }
        i = i + 1;
    }
    assert(v@.take(v@.len() as int) =~= v@);
    r
}

} // verus!
