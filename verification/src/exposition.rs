//! The text exposition format: a line-oriented parser from a document to a
//! `Snapshot`, and the serializer back to text. Values and timestamps are
//! kept as the raw tokens the backend sent.

use crate::metrics::{FamilyV, Label, LabelV, MetricFamily, MetricType, Sample, SampleV, Snapshot};
use vstd::prelude::*;

verus! {

pub open spec fn spec_is_space(c: char) -> bool {
    c == ' ' || c == '\t'
}

/// A character a metric or label name may contain.
pub open spec fn spec_is_name_char(c: char) -> bool {
    let n = c as u32;
    (97 <= n <= 122) || (65 <= n <= 90) || (48 <= n <= 57) || c == '_' || c == ':'
}

/// A character a metric or label name may start with.
pub open spec fn spec_is_name_start(c: char) -> bool {
    let n = c as u32;
    (97 <= n <= 122) || (65 <= n <= 90) || c == '_' || c == ':'
}

fn is_space(c: char) -> (r: bool)
    ensures
        r == spec_is_space(c),
{
    c == ' ' || c == '\t'
}

fn is_name_char(c: char) -> (r: bool)
    ensures
        r == spec_is_name_char(c),
{
    let n = c as u32;
    (97 <= n && n <= 122) || (65 <= n && n <= 90) || (48 <= n && n <= 57) || c == '_'
        || c == ':'
}

fn is_name_start(c: char) -> (r: bool)
    ensures
        r == spec_is_name_start(c),
{
    let n = c as u32;
    (97 <= n && n <= 122) || (65 <= n && n <= 90) || c == '_' || c == ':'
}

/// The first position at or past `i` holding `c`, or the length.
pub open spec fn spec_find_char(s: Seq<char>, i: int, c: char) -> int
    decreases s.len() - i,
{
    if i < 0 || i >= s.len() {
        s.len() as int
    } else if s[i] == c {
        i
    } else {
        spec_find_char(s, i + 1, c)
    }
}

proof fn lemma_find_char_bounds(s: Seq<char>, i: int, c: char)
    requires
        0 <= i <= s.len(),
    ensures
        i <= spec_find_char(s, i, c) <= s.len(),
        spec_find_char(s, i, c) < s.len() ==> s[spec_find_char(s, i, c)] == c,
    decreases s.len() - i,
{
    if i < s.len() && s[i] != c {
        lemma_find_char_bounds(s, i + 1, c);
    }
}

/// The first position at or past `i` holding no space, or the length.
pub open spec fn spec_skip_spaces(s: Seq<char>, i: int) -> int
    decreases s.len() - i,
{
    if i < 0 || i >= s.len() {
        s.len() as int
    } else if spec_is_space(s[i]) {
        spec_skip_spaces(s, i + 1)
    } else {
        i
    }
}

/// The end of the name-character run starting at `i`.
pub open spec fn spec_scan_name(s: Seq<char>, i: int) -> int
    decreases s.len() - i,
{
    if i < 0 || i >= s.len() {
        s.len() as int
    } else if spec_is_name_char(s[i]) {
        spec_scan_name(s, i + 1)
    } else {
        i
    }
}

/// The end of the non-space run starting at `i`.
pub open spec fn spec_scan_token(s: Seq<char>, i: int) -> int
    decreases s.len() - i,
{
    if i < 0 || i >= s.len() {
        s.len() as int
    } else if !spec_is_space(s[i]) {
        spec_scan_token(s, i + 1)
    } else {
        i
    }
}

#[verifier::loop_isolation(false)]
fn find_char(l: &str, i: usize, c: char) -> (r: usize)
    requires
        i <= l@.len(),
    ensures
        r == spec_find_char(l@, i as int, c),
        i <= r <= l@.len(),
{
    let n = l.unicode_len();
    let mut j = i;
    while j < n
        invariant
            i <= j <= n,
            n == l@.len(),
            spec_find_char(l@, i as int, c) == spec_find_char(l@, j as int, c),
        decreases n - j,
    {
        if l.get_char(j) == c {
            return j;
        }
        j = j + 1;
    }
    n
}

#[verifier::loop_isolation(false)]
fn skip_spaces(l: &str, i: usize) -> (r: usize)
    requires
        i <= l@.len(),
    ensures
        r == spec_skip_spaces(l@, i as int),
        i <= r <= l@.len(),
{
    let n = l.unicode_len();
    let mut j = i;
    while j < n
        invariant
            i <= j <= n,
            n == l@.len(),
            spec_skip_spaces(l@, i as int) == spec_skip_spaces(l@, j as int),
        decreases n - j,
    {
        if !is_space(l.get_char(j)) {
            return j;
        }
        j = j + 1;
    }
    n
}

#[verifier::loop_isolation(false)]
fn scan_name(l: &str, i: usize) -> (r: usize)
    requires
        i <= l@.len(),
    ensures
        r == spec_scan_name(l@, i as int),
        i <= r <= l@.len(),
{
    let n = l.unicode_len();
    let mut j = i;
    while j < n
        invariant
            i <= j <= n,
            n == l@.len(),
            spec_scan_name(l@, i as int) == spec_scan_name(l@, j as int),
        decreases n - j,
    {
        if !is_name_char(l.get_char(j)) {
            return j;
        }
        j = j + 1;
    }
    n
}

#[verifier::loop_isolation(false)]
fn scan_token(l: &str, i: usize) -> (r: usize)
    requires
        i <= l@.len(),
    ensures
        r == spec_scan_token(l@, i as int),
        i <= r <= l@.len(),
{
    let n = l.unicode_len();
    let mut j = i;
    while j < n
        invariant
            i <= j <= n,
            n == l@.len(),
            spec_scan_token(l@, i as int) == spec_scan_token(l@, j as int),
        decreases n - j,
    {
        if is_space(l.get_char(j)) {
            return j;
        }
        j = j + 1;
    }
    n
}

/// What one escape introducer stands for in a label value.
pub open spec fn spec_unescaped(c: char) -> char {
    if c == 'n' {
        '\n'
    } else {
        c
    }
}

/// Scans a quoted label value from `i` (just past the opening quote) to its
/// closing quote, undoing the `\\`, `\"` and `\n` escapes; `None` when the
/// value is unterminated or holds an unknown escape.
pub open spec fn spec_scan_label_value(s: Seq<char>, i: int) -> Option<(Seq<char>, int)>
    decreases s.len() - i,
{
    if i < 0 || i >= s.len() {
        None
    } else if s[i] == '"' {
        Some((Seq::empty(), i + 1))
    } else if s[i] == '\\' {
        if i + 1 < s.len() && (s[i + 1] == '\\' || s[i + 1] == '"' || s[i + 1] == 'n') {
            match spec_scan_label_value(s, i + 2) {
                Some((v, e)) => Some((seq![spec_unescaped(s[i + 1])] + v, e)),
                None => None,
            }
        } else {
            None
        }
    } else {
        match spec_scan_label_value(s, i + 1) {
            Some((v, e)) => Some((seq![s[i]] + v, e)),
            None => None,
        }
    }
}

fn backslash_str() -> (r: &'static str)
    ensures
        r@ == seq!['\\'],
{
    proof {
        reveal_strlit("\\");
        assert("\\"@ =~= seq!['\\']);
    }
    "\\"
}

fn quote_str() -> (r: &'static str)
    ensures
        r@ == seq!['"'],
{
    proof {
        reveal_strlit("\"");
        assert("\""@ =~= seq!['"']);
    }
    "\""
}

fn newline_str() -> (r: &'static str)
    ensures
        r@ == seq!['\n'],
        r@ == "\n"@,
{
    proof {
        reveal_strlit("\n");
        assert("\n"@ =~= seq!['\n']);
    }
    "\n"
}

fn scan_label_value(l: &str, i: usize) -> (r: Option<(String, usize)>)
    requires
        i <= l@.len(),
    ensures
        match r {
            Some((v, e)) => spec_scan_label_value(l@, i as int) == Some((v@, e as int)) && i < e
                <= l@.len(),
            None => spec_scan_label_value(l@, i as int) is None,
        },
    decreases l@.len() - i,
{
    let n = l.unicode_len();
    if i >= n {
        return None;
    }
    let c = l.get_char(i);
    if c == '"' {
        return Some((String::new(), i + 1));
    }
    if c == '\\' {
        if i + 1 < n {
            let esc = l.get_char(i + 1);
            if esc == '\\' || esc == '"' || esc == 'n' {
                match scan_label_value(l, i + 2) {
                    Some((rest, e)) => {
                        let mut out = if esc == 'n' {
                            newline_str().to_owned()
                        } else if esc == '"' {
                            quote_str().to_owned()
                        } else {
                            backslash_str().to_owned()
                        };
                        out.append(rest.as_str());
                        proof {
                            assert(out@ =~= seq![spec_unescaped(l@[i + 1])] + rest@);
                        }
                        return Some((out, e));
                    },
                    None => {
                        return None;
                    },
                }
            }
        }
        return None;
    }
    match scan_label_value(l, i + 1) {
        Some((rest, e)) => {
            let piece = l.substring_char(i, i + 1);
            let mut out = piece.to_owned();
            out.append(rest.as_str());
            proof {
                assert(piece@ =~= seq![l@[i as int]]);
                assert(out@ =~= seq![l@[i as int]] + rest@);
            }
            Some((out, e))
        },
        None => None,
    }
}

proof fn lemma_scan_name_bounds(s: Seq<char>, i: int)
    requires
        0 <= i <= s.len(),
    ensures
        i <= spec_scan_name(s, i) <= s.len(),
    decreases s.len() - i,
{
    if i < s.len() && spec_is_name_char(s[i]) {
        lemma_scan_name_bounds(s, i + 1);
    }
}

proof fn lemma_scan_label_value_bounds(s: Seq<char>, i: int)
    requires
        0 <= i,
    ensures
        match spec_scan_label_value(s, i) {
            Some((v, e)) => i < e <= s.len(),
            None => true,
        },
    decreases s.len() - i,
{
    if !(i >= s.len()) && s[i] != '"' {
        if s[i] == '\\' {
            if i + 1 < s.len() && (s[i + 1] == '\\' || s[i + 1] == '"' || s[i + 1] == 'n') {
                lemma_scan_label_value_bounds(s, i + 2);
            }
        } else {
            lemma_scan_label_value_bounds(s, i + 1);
        }
    }
}

/// Scans a label list from `i` (just past the opening brace) to its closing
/// brace: `name="value"` pairs separated by commas, a trailing comma
/// allowed.
pub open spec fn spec_parse_labels(s: Seq<char>, i: int) -> Option<(Seq<LabelV>, int)>
    decreases s.len() - i,
        via spec_parse_labels_decreases
{
    if i < 0 || i >= s.len() {
        None
    } else if s[i] == '}' {
        Some((Seq::empty(), i + 1))
    } else {
        let j = spec_scan_name(s, i);
        if j == i || j + 1 >= s.len() || s[j] != '=' || s[j + 1] != '"' {
            None
        } else {
            match spec_scan_label_value(s, j + 2) {
                None => None,
                Some((v, e)) => {
                    let label = LabelV { name: s.subrange(i, j), value: v };
                    if e < s.len() && s[e] == ',' {
                        match spec_parse_labels(s, e + 1) {
                            Some((rest, e2)) => Some((seq![label] + rest, e2)),
                            None => None,
                        }
                    } else if e < s.len() && s[e] == '}' {
                        Some((seq![label], e + 1))
                    } else {
                        None
                    }
                },
            }
        }
    }
}

#[via_fn]
proof fn spec_parse_labels_decreases(s: Seq<char>, i: int) {
    if !(i < 0 || i >= s.len()) && s[i] != '}' {
        lemma_scan_name_bounds(s, i);
        let j = spec_scan_name(s, i);
        if !(j == i || j + 1 >= s.len() || s[j] != '=' || s[j + 1] != '"') {
            lemma_scan_label_value_bounds(s, j + 2);
        }
    }
}

fn parse_labels(l: &str, i: usize) -> (r: Option<(Vec<Label>, usize)>)
    requires
        i <= l@.len(),
    ensures
        match r {
            Some((ls, e)) => spec_parse_labels(l@, i as int) == Some((ls.deep_view(), e as int))
                && i < e <= l@.len(),
            None => spec_parse_labels(l@, i as int) is None,
        },
    decreases l@.len() - i,
{
    let n = l.unicode_len();
    if i >= n {
        return None;
    }
    if l.get_char(i) == '}' {
        let empty: Vec<Label> = Vec::new();
        proof {
            assert(empty.deep_view() =~= Seq::<LabelV>::empty());
        }
        return Some((empty, i + 1));
    }
    let j = scan_name(l, i);
    if j == i || j >= n {
        return None;
    }
    if j + 1 >= n {
        return None;
    }
    if !(l.get_char(j) == '=') || !(l.get_char(j + 1) == '"') {
        return None;
    }
    match scan_label_value(l, j + 2) {
        None => None,
        Some((v, e)) => {
            let name = l.substring_char(i, j).to_owned();
            let label = Label { name, value: v };
            if e < n && l.get_char(e) == ',' {
                match parse_labels(l, e + 1) {
                    Some((rest, e2)) => {
                        let mut out = rest;
                        out.insert(0, label);
                        proof {
                            assert(out.deep_view() =~= seq![
                                LabelV { name: l@.subrange(i as int, j as int), value: v@ },
                            ] + out.deep_view().skip(1));
                            assert(out.deep_view().skip(1) =~= (spec_parse_labels(
                                l@,
                                e as int + 1,
                            )->0).0);
                        }
                        Some((out, e2))
                    },
                    None => None,
                }
            } else if e < n && l.get_char(e) == '}' {
                let mut out: Vec<Label> = Vec::new();
                out.push(label);
                proof {
                    assert(out.deep_view() =~= seq![
                        LabelV { name: l@.subrange(i as int, j as int), value: v@ },
                    ]);
                }
                Some((out, e + 1))
            } else {
                None
            }
        },
    }
}

/// Parses one sample line: a metric name, an optional brace-enclosed label
/// list, a value token, and an optional timestamp token.
pub open spec fn spec_parse_sample(s: Seq<char>) -> Option<SampleV> {
    if s.len() == 0 || !spec_is_name_start(s[0]) {
        None
    } else {
        let j = spec_scan_name(s, 0);
        let after_labels: Option<(Seq<LabelV>, int)> = if j < s.len() && s[j] == '{' {
            spec_parse_labels(s, j + 1)
        } else {
            Some((Seq::empty(), j))
        };
        match after_labels {
            None => None,
            Some((labels, k)) => {
                let m = spec_skip_spaces(s, k);
                if m == k || m >= s.len() {
                    None
                } else {
                    let t = spec_scan_token(s, m);
                    let value = s.subrange(m, t);
                    let u = spec_skip_spaces(s, t);
                    if u >= s.len() {
                        Some(
                            SampleV {
                                name: s.subrange(0, j),
                                labels,
                                value,
                                timestamp: None,
                            },
                        )
                    } else {
                        let w = spec_scan_token(s, u);
                        if spec_skip_spaces(s, w) == s.len() {
                            Some(
                                SampleV {
                                    name: s.subrange(0, j),
                                    labels,
                                    value,
                                    timestamp: Some(s.subrange(u, w)),
                                },
                            )
                        } else {
                            None
                        }
                    }
                }
            },
        }
    }
}

fn parse_sample(l: &str) -> (r: Option<Sample>)
    ensures
        r.deep_view() == spec_parse_sample(l@),
{
    let n = l.unicode_len();
    if n == 0 {
        return None;
    }
    if !is_name_start(l.get_char(0)) {
        return None;
    }
    let j = scan_name(l, 0);
    let parsed_labels: Option<(Vec<Label>, usize)> = if j < n && l.get_char(j) == '{' {
        parse_labels(l, j + 1)
    } else {
        let empty: Vec<Label> = Vec::new();
        proof {
            assert(empty.deep_view() =~= Seq::<LabelV>::empty());
        }
        Some((empty, j))
    };
    match parsed_labels {
        None => None,
        Some((labels, k)) => {
            let m = skip_spaces(l, k);
            if m == k || m >= n {
                return None;
            }
            let t = scan_token(l, m);
            let value = l.substring_char(m, t).to_owned();
            let u = skip_spaces(l, t);
            if u >= n {
                return Some(
                    Sample { name: l.substring_char(0, j).to_owned(), labels, value, timestamp: None },
                );
            }
            let w = scan_token(l, u);
            if skip_spaces(l, w) == n {
                let ts = l.substring_char(u, w).to_owned();
                Some(
                    Sample {
                        name: l.substring_char(0, j).to_owned(),
                        labels,
                        value,
                        timestamp: Some(ts),
                    },
                )
            } else {
                None
            }
        },
    }
}

/// What one line of the document means.
pub enum LineV {
    Blank,
    Comment,
    Help { name: Seq<char>, text: Seq<char> },
    TypeDecl { name: Seq<char>, metric_type: MetricType },
    SampleLine(SampleV),
    Bad,
}

pub open spec fn spec_type_of_word(w: Seq<char>) -> Option<MetricType> {
    if w == "counter"@ {
        Some(MetricType::Counter)
    } else if w == "gauge"@ {
        Some(MetricType::Gauge)
    } else if w == "histogram"@ {
        Some(MetricType::Histogram)
    } else if w == "summary"@ {
        Some(MetricType::Summary)
    } else if w == "untyped"@ {
        Some(MetricType::Untyped)
    } else {
        None
    }
}

/// Parses a comment line (starting `#`). A well-formed `# HELP name text`
/// or `# TYPE name kind` line declares help text or a type; every other
/// comment is ignored.
pub open spec fn spec_parse_comment(s: Seq<char>) -> LineV {
    let i = spec_skip_spaces(s, 1);
    let j = spec_scan_token(s, i);
    let word = s.subrange(i, j);
    if word == "HELP"@ {
        let k = spec_skip_spaces(s, j);
        let m = spec_scan_name(s, k);
        if k == j || m == k {
            LineV::Comment
        } else {
            let name = s.subrange(k, m);
            if m >= s.len() {
                LineV::Help { name, text: Seq::empty() }
            } else if s[m] == ' ' {
                LineV::Help { name, text: s.subrange(m + 1, s.len() as int) }
            } else {
                LineV::Comment
            }
        }
    } else if word == "TYPE"@ {
        let k = spec_skip_spaces(s, j);
        let m = spec_scan_name(s, k);
        if k == j || m == k {
            LineV::Comment
        } else {
            let name = s.subrange(k, m);
            let u = spec_skip_spaces(s, m);
            let w = spec_scan_token(s, u);
            if u == m && m < s.len() {
                LineV::Comment
            } else {
                match spec_type_of_word(s.subrange(u, w)) {
                    Some(t) => LineV::TypeDecl { name, metric_type: t },
                    None => LineV::Comment,
                }
            }
        }
    } else {
        LineV::Comment
    }
}

/// Classifies one line: blank, comment (possibly a help or type
/// declaration), a sample, or malformed.
pub open spec fn spec_parse_line(s: Seq<char>) -> LineV {
    if spec_skip_spaces(s, 0) == s.len() {
        LineV::Blank
    } else if s[0] == '#' {
        spec_parse_comment(s)
    } else {
        match spec_parse_sample(s) {
            Some(sv) => LineV::SampleLine(sv),
            None => LineV::Bad,
        }
    }
}

/// One parsed line, as executable data.
pub enum ParsedLine {
    Blank,
    Comment,
    Help { name: String, text: String },
    TypeDecl { name: String, metric_type: MetricType },
    SampleLine(Sample),
    Bad,
}

impl DeepView for ParsedLine {
    type V = LineV;

    open spec fn deep_view(&self) -> LineV {
        match self {
            ParsedLine::Blank => LineV::Blank,
            ParsedLine::Comment => LineV::Comment,
            ParsedLine::Help { name, text } => LineV::Help { name: name@, text: text@ },
            ParsedLine::TypeDecl { name, metric_type } => LineV::TypeDecl {
                name: name@,
                metric_type: *metric_type,
            },
            ParsedLine::SampleLine(s) => LineV::SampleLine(s.deep_view()),
            ParsedLine::Bad => LineV::Bad,
        }
    }
}

fn type_of_word(w: &str) -> (r: Option<MetricType>)
    ensures
        r == spec_type_of_word(w@),
{
    let owned = w.to_owned();
    if owned == "counter".to_owned() {
        Some(MetricType::Counter)
    } else if owned == "gauge".to_owned() {
        Some(MetricType::Gauge)
    } else if owned == "histogram".to_owned() {
        Some(MetricType::Histogram)
    } else if owned == "summary".to_owned() {
        Some(MetricType::Summary)
    } else if owned == "untyped".to_owned() {
        Some(MetricType::Untyped)
    } else {
        None
    }
}

fn parse_comment(l: &str) -> (r: ParsedLine)
    requires
        l@.len() >= 1,
    ensures
        r.deep_view() == spec_parse_comment(l@),
{
    let n = l.unicode_len();
    let i = skip_spaces(l, 1);
    let j = scan_token(l, i);
    let word = l.substring_char(i, j).to_owned();
    if word == "HELP".to_owned() {
        let k = skip_spaces(l, j);
        let m = scan_name(l, k);
        if k == j || m == k {
            return ParsedLine::Comment;
        }
        let name = l.substring_char(k, m).to_owned();
        if m >= n {
            return ParsedLine::Help { name, text: String::new() };
        }
        if l.get_char(m) == ' ' {
            let text = l.substring_char(m + 1, n).to_owned();
            return ParsedLine::Help { name, text };
        }
        ParsedLine::Comment
    } else if word == "TYPE".to_owned() {
        let k = skip_spaces(l, j);
        let m = scan_name(l, k);
        if k == j || m == k {
            return ParsedLine::Comment;
        }
        let name = l.substring_char(k, m).to_owned();
        let u = skip_spaces(l, m);
        let w = scan_token(l, u);
        if u == m && m < n {
            return ParsedLine::Comment;
        }
        match type_of_word(l.substring_char(u, w)) {
            Some(t) => ParsedLine::TypeDecl { name, metric_type: t },
            None => ParsedLine::Comment,
        }
    } else {
        ParsedLine::Comment
    }
}

/// Classifies and parses one line of the document.
pub fn parse_line(l: &str) -> (r: ParsedLine)
    ensures
        r.deep_view() == spec_parse_line(l@),
{
    let n = l.unicode_len();
    if skip_spaces(l, 0) == n {
        return ParsedLine::Blank;
    }
    if l.get_char(0) == '#' {
        return parse_comment(l);
    }
    match parse_sample(l) {
        Some(s) => ParsedLine::SampleLine(s),
        None => ParsedLine::Bad,
    }
}

/// The position of the family with a name, scanning from `from`.
pub open spec fn spec_find_family(fs: Seq<FamilyV>, name: Seq<char>, from: int) -> Option<int>
    decreases fs.len() - from,
{
    if from < 0 || from >= fs.len() {
        None
    } else if fs[from].name == name {
        Some(from)
    } else {
        spec_find_family(fs, name, from + 1)
    }
}

/// Records help text for a family, creating the family if it is new.
pub open spec fn spec_set_help(fs: Seq<FamilyV>, name: Seq<char>, text: Seq<char>) -> Seq<FamilyV> {
    match spec_find_family(fs, name, 0) {
        Some(j) => fs.update(j, FamilyV { help: Some(text), ..fs[j] }),
        None => fs.push(
            FamilyV { name, metric_type: None, help: Some(text), samples: Seq::empty() },
        ),
    }
}

/// Records a declared type for a family, creating the family if it is new.
pub open spec fn spec_set_type(fs: Seq<FamilyV>, name: Seq<char>, t: MetricType) -> Seq<FamilyV> {
    match spec_find_family(fs, name, 0) {
        Some(j) => fs.update(j, FamilyV { metric_type: Some(t), ..fs[j] }),
        None => fs.push(
            FamilyV { name, metric_type: Some(t), help: None, samples: Seq::empty() },
        ),
    }
}

/// The sample name without `suffix`, when it ends with it.
pub open spec fn spec_strip_suffix(name: Seq<char>, suffix: Seq<char>) -> Option<Seq<char>> {
    if name.len() >= suffix.len() && name.subrange(
        name.len() - suffix.len(),
        name.len() as int,
    ) == suffix {
        Some(name.subrange(0, name.len() - suffix.len()))
    } else {
        None
    }
}

/// The family named `base` when it is declared with one of the types in
/// `histogram`/`summary`.
pub open spec fn spec_component_base(
    fs: Seq<FamilyV>,
    base: Option<Seq<char>>,
    histogram: bool,
    summary: bool,
) -> Option<int> {
    match base {
        None => None,
        Some(b) => match spec_find_family(fs, b, 0) {
            None => None,
            Some(j) => if (histogram && fs[j].metric_type == Some(MetricType::Histogram)) || (
            summary && fs[j].metric_type == Some(MetricType::Summary)) {
                Some(j)
            } else {
                None
            },
        },
    }
}

/// The declared family a component sample belongs to: `base_bucket` joins a
/// histogram `base`, and `base_sum` / `base_count` join a histogram or
/// summary `base`.
pub open spec fn spec_component_owner(fs: Seq<FamilyV>, name: Seq<char>) -> Option<int> {
    if spec_component_base(fs, spec_strip_suffix(name, "_bucket"@), true, false) is Some {
        spec_component_base(fs, spec_strip_suffix(name, "_bucket"@), true, false)
    } else if spec_component_base(fs, spec_strip_suffix(name, "_sum"@), true, true) is Some {
        spec_component_base(fs, spec_strip_suffix(name, "_sum"@), true, true)
    } else {
        spec_component_base(fs, spec_strip_suffix(name, "_count"@), true, true)
    }
}

/// Appends a sample to its family: the family with the sample's own name, or
/// the declared histogram or summary family it is a component of, or a new
/// family.
pub open spec fn spec_add_sample(fs: Seq<FamilyV>, sv: SampleV) -> Seq<FamilyV> {
    match spec_find_family(fs, sv.name, 0) {
        Some(j) => fs.update(j, FamilyV { samples: fs[j].samples.push(sv), ..fs[j] }),
        None => match spec_component_owner(fs, sv.name) {
            Some(j) => fs.update(j, FamilyV { samples: fs[j].samples.push(sv), ..fs[j] }),
            None => fs.push(
                FamilyV { name: sv.name, metric_type: None, help: None, samples: seq![sv] },
            ),
        },
    }
}

/// Folds classified lines into families, in document order; a malformed
/// line fails the whole document.
pub open spec fn spec_fold_lines(lines: Seq<Seq<char>>, acc: Seq<FamilyV>) -> Option<Seq<FamilyV>>
    decreases lines.len(),
{
    if lines.len() == 0 {
        Some(acc)
    } else {
        match spec_parse_line(lines[0]) {
            LineV::Bad => None,
            LineV::Blank => spec_fold_lines(lines.skip(1), acc),
            LineV::Comment => spec_fold_lines(lines.skip(1), acc),
            LineV::Help { name, text } => spec_fold_lines(
                lines.skip(1),
                spec_set_help(acc, name, text),
            ),
            LineV::TypeDecl { name, metric_type } => spec_fold_lines(
                lines.skip(1),
                spec_set_type(acc, name, metric_type),
            ),
            LineV::SampleLine(sv) => spec_fold_lines(lines.skip(1), spec_add_sample(acc, sv)),
        }
    }
}

/// The document split at newlines; a trailing newline yields a final blank
/// line.
pub open spec fn spec_lines_from(s: Seq<char>, i: int) -> Seq<Seq<char>>
    decreases s.len() - i,
        via spec_lines_from_decreases
{
    if i < 0 || i > s.len() {
        Seq::empty()
    } else {
        let j = spec_find_char(s, i, '\n');
        if j >= s.len() {
            seq![s.subrange(i, s.len() as int)]
        } else {
            seq![s.subrange(i, j)] + spec_lines_from(s, j + 1)
        }
    }
}

#[via_fn]
proof fn spec_lines_from_decreases(s: Seq<char>, i: int) {
    if !(i < 0 || i > s.len()) {
        lemma_find_char_bounds(s, i, '\n');
    }
}

/// The whole grammar: the meaning of an exposition document, or `None` when
/// some line is malformed.
pub open spec fn spec_parse_document(s: Seq<char>) -> Option<Seq<FamilyV>> {
    spec_fold_lines(spec_lines_from(s, 0), Seq::empty())
}

#[verifier::loop_isolation(false)]
fn find_family(fs: &Vec<MetricFamily>, name: &String) -> (r: Option<usize>)
    ensures
        match r {
            Some(j) => j < fs.len() && spec_find_family(fs.deep_view(), name@, 0) == Some(j as int),
            None => spec_find_family(fs.deep_view(), name@, 0) is None,
        },
{
    let mut j: usize = 0;
    while j < fs.len()
        invariant
            j <= fs.len(),
            spec_find_family(fs.deep_view(), name@, 0) == spec_find_family(
                fs.deep_view(),
                name@,
                j as int,
            ),
        decreases fs.len() - j,
    {
        proof {
            assert(fs.deep_view()[j as int] == fs@[j as int].deep_view());
        }
        if fs[j].name == *name {
            return Some(j);
        }
        j = j + 1;
    }
    None
}

fn set_help(fs: &mut Vec<MetricFamily>, name: String, text: String)
    ensures
        final(fs).deep_view() == spec_set_help(old(fs).deep_view(), name@, text@),
{
    let ghost pre = fs.deep_view();
    match find_family(fs, &name) {
        Some(j) => {
            proof {
                assert(pre[j as int] == fs@[j as int].deep_view());
            }
            let slot = &mut fs[j];
            slot.help = Some(text);
            proof {
                assert(fs.deep_view() =~= pre.update(
                    j as int,
                    FamilyV { help: Some(text@), ..pre[j as int] },
                ));
            }
        },
        None => {
            let samples: Vec<Sample> = Vec::new();
            proof {
                assert(samples.deep_view() =~= Seq::<SampleV>::empty());
            }
            fs.push(MetricFamily { name, metric_type: None, help: Some(text), samples });
            proof {
                assert(fs.deep_view() =~= pre.push(
                    FamilyV {
                        name: name@,
                        metric_type: None,
                        help: Some(text@),
                        samples: Seq::empty(),
                    },
                ));
            }
        },
    }
}

fn set_type(fs: &mut Vec<MetricFamily>, name: String, t: MetricType)
    ensures
        final(fs).deep_view() == spec_set_type(old(fs).deep_view(), name@, t),
{
    let ghost pre = fs.deep_view();
    match find_family(fs, &name) {
        Some(j) => {
            proof {
                assert(pre[j as int] == fs@[j as int].deep_view());
            }
            let slot = &mut fs[j];
            slot.metric_type = Some(t);
            proof {
                assert(fs.deep_view() =~= pre.update(
                    j as int,
                    FamilyV { metric_type: Some(t), ..pre[j as int] },
                ));
            }
        },
        None => {
            let samples: Vec<Sample> = Vec::new();
            proof {
                assert(samples.deep_view() =~= Seq::<SampleV>::empty());
            }
            fs.push(MetricFamily { name, metric_type: Some(t), help: None, samples });
            proof {
                assert(fs.deep_view() =~= pre.push(
                    FamilyV {
                        name: name@,
                        metric_type: Some(t),
                        help: None,
                        samples: Seq::empty(),
                    },
                ));
            }
        },
    }
}

/// The sample name without `suffix`, when it ends with it.
fn strip_suffix(name: &String, suffix: &str) -> (r: Option<String>)
    ensures
        match r {
            Some(b) => spec_strip_suffix(name@, suffix@) == Some(b@),
            None => spec_strip_suffix(name@, suffix@) is None,
        },
{
    let n = name.as_str().unicode_len();
    let m = suffix.unicode_len();
    if n < m {
        return None;
    }
    let tail = name.as_str().substring_char(n - m, n).to_owned();
    if tail == suffix.to_owned() {
        Some(name.as_str().substring_char(0, n - m).to_owned())
    } else {
        None
    }
}

fn component_base(
    fs: &Vec<MetricFamily>,
    base: Option<String>,
    histogram: bool,
    summary: bool,
) -> (r: Option<usize>)
    ensures
        ({
            let spec = spec_component_base(fs.deep_view(), base.deep_view(), histogram, summary);
            match r {
                Some(j) => j < fs.len() && spec == Some(j as int),
                None => spec is None,
            }
        }),
{
    let b = match base {
        Some(b) => b,
        None => {
            return None;
        },
    };
    match find_family(fs, &b) {
        None => None,
        Some(j) => {
            proof {
                assert(fs.deep_view()[j as int] == fs@[j as int].deep_view());
            }
            let matches_type = match fs[j].metric_type {
                Some(MetricType::Histogram) => histogram,
                Some(MetricType::Summary) => summary,
                _ => false,
            };
            if matches_type {
                Some(j)
            } else {
                None
            }
        },
    }
}

/// The declared family a component sample belongs to, if any.
fn component_owner(fs: &Vec<MetricFamily>, name: &String) -> (r: Option<usize>)
    ensures
        ({
            let spec = spec_component_owner(fs.deep_view(), name@);
            match r {
                Some(j) => j < fs.len() && spec == Some(j as int),
                None => spec is None,
            }
        }),
{
    let bucket = component_base(fs, strip_suffix(name, "_bucket"), true, false);
    if bucket.is_some() {
        return bucket;
    }
    let sum = component_base(fs, strip_suffix(name, "_sum"), true, true);
    if sum.is_some() {
        return sum;
    }
    component_base(fs, strip_suffix(name, "_count"), true, true)
}

fn add_sample(fs: &mut Vec<MetricFamily>, s: Sample)
    ensures
        final(fs).deep_view() == spec_add_sample(old(fs).deep_view(), s.deep_view()),
{
    let ghost pre = fs.deep_view();
    let ghost sv = s.deep_view();
    match find_family(fs, &s.name) {
        Some(j) => {
            proof {
                assert(pre[j as int] == fs@[j as int].deep_view());
            }
            let slot = &mut fs[j];
            slot.samples.push(s);
            proof {
                assert(fs.deep_view()[j as int].samples =~= pre[j as int].samples.push(sv));
                assert(fs.deep_view() =~= pre.update(
                    j as int,
                    FamilyV { samples: pre[j as int].samples.push(sv), ..pre[j as int] },
                ));
            }
        },
        None => {
            match component_owner(fs, &s.name) {
                Some(j) => {
                    proof {
                        assert(pre[j as int] == fs@[j as int].deep_view());
                    }
                    let slot = &mut fs[j];
                    slot.samples.push(s);
                    proof {
                        assert(fs.deep_view()[j as int].samples =~= pre[j as int].samples.push(sv));
                        assert(fs.deep_view() =~= pre.update(
                            j as int,
                            FamilyV { samples: pre[j as int].samples.push(sv), ..pre[j as int] },
                        ));
                    }
                },
                None => {
                    let name = s.name.clone();
                    let mut samples: Vec<Sample> = Vec::new();
                    samples.push(s);
                    proof {
                        assert(samples.deep_view() =~= seq![sv]);
                    }
                    fs.push(MetricFamily { name, metric_type: None, help: None, samples });
                    proof {
                        assert(fs.deep_view() =~= pre.push(
                            FamilyV {
                                name: sv.name,
                                metric_type: None,
                                help: None,
                                samples: seq![sv],
                            },
                        ));
                    }
                },
            }
        },
    }
}

/// Parses a whole exposition document into a snapshot; `None` when some line
/// is malformed.
#[verifier::loop_isolation(false)]
pub fn parse_document(body: &str) -> (r: Option<Snapshot>)
    requires
        body@.len() < usize::MAX,
    ensures
        match r {
            Some(snap) => spec_parse_document(body@) == Some(snap.deep_view()),
            None => spec_parse_document(body@) is None,
        },
{
    let n = body.unicode_len();
    let mut families: Vec<MetricFamily> = Vec::new();
    let mut i: usize = 0;
    proof {
        assert(families.deep_view() =~= Seq::<FamilyV>::empty());
    }
    while i <= n
        invariant
            n == body@.len(),
            i <= n + 1,
            spec_parse_document(body@) == spec_fold_lines(
                spec_lines_from(body@, i as int),
                families.deep_view(),
            ),
        decreases n + 1 - i,
    {
        let j = find_char(body, i, '\n');
        proof {
            lemma_find_char_bounds(body@, i as int, '\n');
        }
        let line = body.substring_char(i, j);
        let ghost rest = spec_lines_from(body@, if j < n { j as int + 1 } else { n as int + 1 });
        proof {
            if j < n {
                assert(spec_lines_from(body@, i as int) =~= seq![body@.subrange(i as int, j as int)]
                    + spec_lines_from(body@, j as int + 1));
                assert(spec_lines_from(body@, i as int).skip(1) =~= spec_lines_from(
                    body@,
                    j as int + 1,
                ));
            } else {
                assert(spec_lines_from(body@, i as int) =~= seq![
                    body@.subrange(i as int, n as int),
                ]);
                assert(spec_lines_from(body@, i as int).skip(1) =~= spec_lines_from(
                    body@,
                    n as int + 1,
                ));
            }
            assert(spec_lines_from(body@, i as int)[0] == line@);
        }
        match parse_line(line) {
            ParsedLine::Bad => {
                return None;
            },
            ParsedLine::Blank => {},
            ParsedLine::Comment => {},
            ParsedLine::Help { name, text } => {
                set_help(&mut families, name, text);
            },
            ParsedLine::TypeDecl { name, metric_type } => {
                set_type(&mut families, name, metric_type);
            },
            ParsedLine::SampleLine(s) => {
                add_sample(&mut families, s);
            },
        }
        i = j + 1;
    }
    Some(Snapshot { families })
}

/// What one label serializes to: `name="value"`, the value with backslashes,
/// quotes and newlines escaped.
pub open spec fn spec_escape(v: Seq<char>) -> Seq<char>
    decreases v.len(),
{
    if v.len() == 0 {
        Seq::empty()
    } else {
        spec_escape(v.drop_last()) + spec_escape_char(v.last())
    }
}

pub open spec fn spec_escape_char(c: char) -> Seq<char> {
    if c == '\\' {
        seq!['\\', '\\']
    } else if c == '"' {
        seq!['\\', '"']
    } else if c == '\n' {
        seq!['\\', 'n']
    } else {
        seq![c]
    }
}

pub open spec fn spec_serialize_label(l: LabelV) -> Seq<char> {
    l.name + "=\""@ + spec_escape(l.value) + "\""@
}

pub open spec fn spec_serialize_labels(ls: Seq<LabelV>) -> Seq<char>
    decreases ls.len(),
{
    if ls.len() == 0 {
        Seq::empty()
    } else if ls.len() == 1 {
        spec_serialize_label(ls[0])
    } else {
        spec_serialize_labels(ls.drop_last()) + ","@ + spec_serialize_label(ls.last())
    }
}

/// What one sample serializes to: the name, the label list in braces when
/// there is one, the value, and the timestamp when there is one.
pub open spec fn spec_serialize_sample(s: SampleV) -> Seq<char> {
    s.name + (if s.labels.len() == 0 {
        Seq::<char>::empty()
    } else {
        "{"@ + spec_serialize_labels(s.labels) + "}"@
    }) + " "@ + s.value + (match s.timestamp {
        Some(t) => " "@ + t,
        None => Seq::<char>::empty(),
    }) + "\n"@
}

pub open spec fn spec_serialize_samples(ss: Seq<SampleV>) -> Seq<char>
    decreases ss.len(),
{
    if ss.len() == 0 {
        Seq::empty()
    } else {
        spec_serialize_samples(ss.drop_last()) + spec_serialize_sample(ss.last())
    }
}

pub open spec fn spec_type_word(t: MetricType) -> Seq<char> {
    match t {
        MetricType::Counter => "counter"@,
        MetricType::Gauge => "gauge"@,
        MetricType::Histogram => "histogram"@,
        MetricType::Summary => "summary"@,
        MetricType::Untyped => "untyped"@,
    }
}

/// What one family serializes to: its help and type lines where declared,
/// then its samples in order.
pub open spec fn spec_serialize_family(f: FamilyV) -> Seq<char> {
    (match f.help {
        Some(t) => "# HELP "@ + f.name + " "@ + t + "\n"@,
        None => Seq::<char>::empty(),
    }) + (match f.metric_type {
        Some(t) => "# TYPE "@ + f.name + " "@ + spec_type_word(t) + "\n"@,
        None => Seq::<char>::empty(),
    }) + spec_serialize_samples(f.samples)
}

/// What a snapshot serializes to: its families in order.
pub open spec fn spec_serialize(fs: Seq<FamilyV>) -> Seq<char>
    decreases fs.len(),
{
    if fs.len() == 0 {
        Seq::empty()
    } else {
        spec_serialize(fs.drop_last()) + spec_serialize_family(fs.last())
    }
}

#[verifier::loop_isolation(false)]
fn append_escaped(out: &mut String, v: &String)
    ensures
        final(out)@ == old(out)@ + spec_escape(v@),
{
    let n = v.as_str().unicode_len();
    let mut i: usize = 0;
    proof {
        assert(v@.take(0) =~= Seq::<char>::empty());
        assert(old(out)@ + spec_escape(v@.take(0)) =~= old(out)@);
    }
    while i < n
        invariant
            i <= n,
            n == v@.len(),
            out@ == old(out)@ + spec_escape(v@.take(i as int)),
        decreases n - i,
    {
        let c = v.as_str().get_char(i);
        if c == '\\' {
            out.append(backslash_str());
            out.append(backslash_str());
        } else if c == '"' {
            out.append(backslash_str());
            out.append(quote_str());
        } else if c == '\n' {
            out.append(backslash_str());
            proof {
                reveal_strlit("n");
                assert("n"@ =~= seq!['n']);
            }
            out.append("n");
        } else {
            let piece = v.as_str().substring_char(i, i + 1);
            proof {
                assert(piece@ =~= seq![v@[i as int]]);
            }
            out.append(piece);
        }
        proof {
            assert(v@.take(i as int + 1).drop_last() =~= v@.take(i as int));
            assert(v@.take(i as int + 1).last() == v@[i as int]);
            assert(out@ =~= old(out)@ + spec_escape(v@.take(i as int + 1)));
        }
        i = i + 1;
    }
    proof {
        assert(v@.take(n as int) =~= v@);
    }
}

fn type_word(t: MetricType) -> (r: &'static str)
    ensures
        r@ == spec_type_word(t),
{
    match t {
        MetricType::Counter => "counter",
        MetricType::Gauge => "gauge",
        MetricType::Histogram => "histogram",
        MetricType::Summary => "summary",
        MetricType::Untyped => "untyped",
    }
}

#[verifier::loop_isolation(false)]
fn append_labels(out: &mut String, ls: &Vec<Label>)
    ensures
        final(out)@ == old(out)@ + spec_serialize_labels(ls.deep_view()),
{
    let mut i: usize = 0;
    proof {
        assert(old(out)@ + spec_serialize_labels(ls.deep_view().take(0)) =~= old(out)@);
    }
    while i < ls.len()
        invariant
            i <= ls.len(),
            out@ == old(out)@ + spec_serialize_labels(ls.deep_view().take(i as int)),
        decreases ls.len() - i,
    {
        proof {
            assert(ls.deep_view()[i as int] == ls@[i as int].deep_view());
            assert(ls.deep_view().take(i as int + 1).drop_last() =~= ls.deep_view().take(i as int));
            assert(ls.deep_view().take(i as int + 1).last() == ls.deep_view()[i as int]);
        }
        let ghost prev = out@;
        if i > 0 {
            out.append(",");
        }
        let l = &ls[i];
        out.append(l.name.as_str());
        out.append("=\"");
        append_escaped(out, &l.value);
        out.append(quote_str());
        proof {
            assert("\""@ =~= seq!['"']) by {
                reveal_strlit("\"");
            }
            assert(spec_serialize_label(ls.deep_view()[i as int]) == ls@[i as int].name@ + "=\""@
                + spec_escape(ls@[i as int].value@) + "\""@);
            if i == 0 {
                assert(out@ =~= prev + spec_serialize_label(ls.deep_view()[0]));
                assert(ls.deep_view().take(1)[0] == ls.deep_view()[0]);
                assert(out@ =~= old(out)@ + spec_serialize_labels(ls.deep_view().take(1)));
            } else {
                assert(out@ =~= prev + ","@ + spec_serialize_label(ls.deep_view()[i as int]));
                assert(out@ =~= old(out)@ + spec_serialize_labels(
                    ls.deep_view().take(i as int + 1),
                ));
            }
        }
        i = i + 1;
    }
    proof {
        assert(ls.deep_view().take(ls.len() as int) =~= ls.deep_view());
    }
}

#[verifier::loop_isolation(false)]
fn append_sample(out: &mut String, s: &Sample)
    ensures
        final(out)@ == old(out)@ + spec_serialize_sample(s.deep_view()),
{
    let ghost sv = s.deep_view();
    out.append(s.name.as_str());
    if s.labels.len() > 0 {
        out.append("{");
        append_labels(out, &s.labels);
        out.append("}");
        proof {
            assert(out@ =~= old(out)@ + sv.name + ("{"@ + spec_serialize_labels(sv.labels)
                + "}"@));
        }
    } else {
        proof {
            assert(out@ =~= old(out)@ + sv.name + Seq::<char>::empty());
        }
    }
    let ghost head = old(out)@ + sv.name + (if sv.labels.len() == 0 {
        Seq::<char>::empty()
    } else {
        "{"@ + spec_serialize_labels(sv.labels) + "}"@
    });
    out.append(" ");
    out.append(s.value.as_str());
    match &s.timestamp {
        Some(t) => {
            out.append(" ");
            out.append(t.as_str());
            proof {
                assert(sv.timestamp == Some(t@));
                assert(out@ =~= head + " "@ + sv.value + (" "@ + t@));
            }
        },
        None => {},
    }
    out.append(newline_str());
    proof {
        assert(out@ =~= old(out)@ + spec_serialize_sample(sv));
    }
}

#[verifier::loop_isolation(false)]
#[verifier::rlimit(100)]
fn append_family(out: &mut String, f: &MetricFamily)
    ensures
        final(out)@ == old(out)@ + spec_serialize_family(f.deep_view()),
{
    let ghost fv = f.deep_view();
    let ghost start = out@;
    match &f.help {
        Some(t) => {
            out.append("# HELP ");
            out.append(f.name.as_str());
            out.append(" ");
            out.append(t.as_str());
            out.append(newline_str());
            proof {
                assert(fv.help == Some(t@));
                assert(out@ =~= start + ("# HELP "@ + fv.name + " "@ + t@ + "\n"@));
            }
        },
        None => {},
    }
    let ghost after_help = start + (match fv.help {
        Some(t) => "# HELP "@ + fv.name + " "@ + t + "\n"@,
        None => Seq::<char>::empty(),
    });
    proof {
        assert(out@ =~= after_help);
    }
    match &f.metric_type {
        Some(t) => {
            out.append("# TYPE ");
            out.append(f.name.as_str());
            out.append(" ");
            out.append(type_word(*t));
            out.append(newline_str());
            proof {
                assert(fv.metric_type == Some(*t));
                assert(out@ =~= after_help + ("# TYPE "@ + fv.name + " "@ + spec_type_word(*t)
                    + "\n"@));
            }
        },
        None => {},
    }
    let ghost mid = out@;
    proof {
        assert(mid =~= start + (match fv.help {
            Some(t) => "# HELP "@ + fv.name + " "@ + t + "\n"@,
            None => Seq::<char>::empty(),
        }) + (match fv.metric_type {
            Some(t) => "# TYPE "@ + fv.name + " "@ + spec_type_word(t) + "\n"@,
            None => Seq::<char>::empty(),
        }));
    }
    let mut i: usize = 0;
    proof {
        assert(mid + spec_serialize_samples(f.samples.deep_view().take(0)) =~= mid);
    }
    while i < f.samples.len()
        invariant
            i <= f.samples.len(),
            out@ == mid + spec_serialize_samples(f.samples.deep_view().take(i as int)),
        decreases f.samples.len() - i,
    {
        proof {
            assert(f.samples.deep_view()[i as int] == f.samples@[i as int].deep_view());
            assert(f.samples.deep_view().take(i as int + 1).drop_last() =~= f.samples.deep_view()
                .take(i as int));
            assert(f.samples.deep_view().take(i as int + 1).last() == f.samples.deep_view()[
                i as int
            ]);
        }
        append_sample(out, &f.samples[i]);
        proof {
            assert(out@ =~= mid + spec_serialize_samples(f.samples.deep_view().take(i as int + 1)));
        }
        i = i + 1;
    }
    proof {
        assert(f.samples.deep_view().take(f.samples.len() as int) =~= f.samples.deep_view());
        assert(out@ =~= start + spec_serialize_family(f.deep_view()));
    }
}

/// Serializes a snapshot back to the text exposition format.
#[verifier::loop_isolation(false)]
pub fn serialize_snapshot(snapshot: &Snapshot) -> (r: String)
    ensures
        r@ == spec_serialize(snapshot.deep_view()),
{
    let mut out = String::new();
    let mut i: usize = 0;
    proof {
        assert(out@ + spec_serialize(snapshot.deep_view().take(0)) =~= out@);
        assert(out@ =~= spec_serialize(snapshot.deep_view().take(0)));
    }
    while i < snapshot.families.len()
        invariant
            i <= snapshot.families.len(),
            out@ == spec_serialize(snapshot.deep_view().take(i as int)),
        decreases snapshot.families.len() - i,
    {
        proof {
            assert(snapshot.deep_view()[i as int] == snapshot.families@[i as int].deep_view());
            assert(snapshot.deep_view().take(i as int + 1).drop_last() =~= snapshot.deep_view()
                .take(i as int));
            assert(snapshot.deep_view().take(i as int + 1).last() == snapshot.deep_view()[i as int]);
        }
        append_family(&mut out, &snapshot.families[i]);
        proof {
            assert(out@ =~= spec_serialize(snapshot.deep_view().take(i as int + 1)));
        }
        i = i + 1;
    }
    proof {
        assert(snapshot.deep_view().take(snapshot.families.len() as int) =~= snapshot.deep_view());
    }
    out
}

} // verus!
