//! The label-filter engine: matches each sample's concatenated label values
//! against anchored patterns and applies keep / drop / reduce-time-resolution
//! actions, threading per-series state through the pass.

use crate::config::{ConfigLabelFilter, ConfigLabelFilterAction, FilterV};
use crate::metrics::{spec_fingerprint, MetricFamily, Sample, SampleV, Snapshot};
use crate::metrics::{fingerprint, FamilyV};
use vstd::prelude::*;

verus! {

/// Whether the pattern, taken as a whole regular expression, is accepted by
/// the regular-expression compiler.
pub uninterp spec fn re_valid(pattern: Seq<char>) -> bool;

/// Whether the pattern, compiled as a regular expression, matches the key.
pub uninterp spec fn re_match(pattern: Seq<char>, key: Seq<char>) -> bool;

/// Characters the regular-expression syntax documents as matching themselves
/// outside character classes.
pub open spec fn regex_literal_char(c: char) -> bool {
    let n = c as u32;
    (97 <= n <= 122)  // 'a' ..= 'z'
    || (65 <= n <= 90)  // 'A' ..= 'Z'
    || (48 <= n <= 57)  // '0' ..= '9'
    || c == '_' || c == ':' || c == ';' || c == ',' || c == '/' || c == '=' || c == '@' || c == '-'
        || c == ' ' || c == '!' || c == '%'
}

/// A pattern made only of self-matching characters.
pub open spec fn regex_literal(s: Seq<char>) -> bool {
    forall|i: int| 0 <= i < s.len() ==> regex_literal_char(s[i])
}

/// The pattern as compiled: anchored at the start and the end.
pub open spec fn spec_anchored(pattern: Seq<char>) -> Seq<char> {
    seq!['^'] + pattern + seq!['$']
}

/// A start/end-anchored pattern whose inside is literal.
pub open spec fn anchored_literal(pattern: Seq<char>) -> bool {
    &&& pattern.len() >= 2
    &&& pattern[0] == '^'
    &&& pattern[pattern.len() - 1] == '$'
    &&& regex_literal(pattern.subrange(1, pattern.len() - 1))
}

/// What a whole-pattern match returns. A pattern the compiler rejects
/// matches nothing. For an anchored literal pattern that compiles, exactly
/// the pattern's own text matches; every other pattern is only given the
/// name `re_match`.
pub open spec fn spec_full_match(pattern: Seq<char>, key: Seq<char>) -> bool {
    re_valid(pattern) && (if anchored_literal(pattern) {
        key == pattern.subrange(1, pattern.len() - 1)
    } else {
        re_match(pattern, key)
    })
}

/// Whether a filter rule's (unanchored) pattern matches a match key.
pub open spec fn spec_rule_matches(pattern: Seq<char>, key: Seq<char>) -> bool {
    spec_full_match(spec_anchored(pattern), key)
}

/// Relies on `regex::Regex::new`: whether the pattern compiles. Nothing
/// more is claimed: compilation enforces a size limit on the compiled
/// program, so even a pattern of plain characters can be rejected when it
/// is long enough.
#[verifier::external_body]
pub(crate) fn pattern_compiles(pattern: &str) -> (r: bool)
    ensures
        r == re_valid(pattern@),
{
    regex::Regex::new(pattern).is_ok()
}

/// Relies on `regex::Regex::new` and `regex::Regex::is_match`: a pattern
/// that does not compile (`re_valid`) matches nothing; a compiled pattern
/// `^L$`, `L` made of self-matching characters, matches exactly the text
/// `L` (the regex documentation: such characters match themselves, and the
/// default anchors match the haystack's start and end); any other compiled
/// pattern's result is only named (`re_match`).
#[verifier::external_body]
fn regex_is_match(pattern: &str, key: &str) -> (r: bool)
    ensures
        r == spec_full_match(pattern@, key@),
        !anchored_literal(pattern@) ==> r == (re_valid(pattern@) && re_match(pattern@, key@)),
{
    match regex::Regex::new(pattern) {
        Ok(re) => re.is_match(key),
        Err(_) => false,
    }
}

fn caret_str() -> (r: &'static str)
    ensures
        r@ == seq!['^'],
{
    proof {
        reveal_strlit("^");
        assert("^"@ =~= seq!['^']);
    }
    "^"
}

fn dollar_str() -> (r: &'static str)
    ensures
        r@ == seq!['$'],
{
    proof {
        reveal_strlit("$");
        assert("$"@ =~= seq!['$']);
    }
    "$"
}

/// Wraps a user pattern with start and end anchors, as it is compiled.
pub fn anchor_pattern(pattern: &str) -> (r: String)
    ensures
        r@ == spec_anchored(pattern@),
{
    let mut s = String::new();
    s.append(caret_str());
    s.append(pattern);
    s.append(dollar_str());
    proof {
        assert(s@ =~= spec_anchored(pattern@));
    }
    s
}

/// Whether a rule's pattern, anchored as configured, matches the key.
pub fn rule_matches(pattern: &str, key: &str) -> (r: bool)
    ensures
        r == spec_rule_matches(pattern@, key@),
{
    let anchored = anchor_pattern(pattern);
    regex_is_match(anchored.as_str(), key)
}

/// The anchoring property for a pattern of self-matching characters: no key
/// other than the pattern's own text ever matches — in particular no strict
/// substring of the pattern — and when the anchored pattern compiles, the
/// key equal to the pattern does match.
pub proof fn lemma_anchored_literal_match(pattern: Seq<char>, key: Seq<char>)
    requires
        regex_literal(pattern),
    ensures
        re_valid(spec_anchored(pattern)) ==> spec_rule_matches(pattern, pattern),
        key != pattern ==> !spec_rule_matches(pattern, key),
{
    let ap = spec_anchored(pattern);
    assert(ap.subrange(1, ap.len() - 1) =~= pattern);
    assert(ap[0] == '^');
    assert(ap[ap.len() - 1] == '$');
    assert(anchored_literal(ap));
}

/// The recorded emission of one series: its fingerprint, the value last
/// forwarded for it, and when that value was forwarded.
pub struct SeriesState {
    pub fingerprint: String,
    pub value: String,
    pub emitted_at_millis: u64,
}

/// The mathematical value of a `SeriesState`.
pub struct SeriesStateV {
    pub fingerprint: Seq<char>,
    pub value: Seq<char>,
    pub emitted_at_millis: u64,
}

impl DeepView for SeriesState {
    type V = SeriesStateV;

    open spec fn deep_view(&self) -> SeriesStateV {
        SeriesStateV {
            fingerprint: self.fingerprint@,
            value: self.value@,
            emitted_at_millis: self.emitted_at_millis,
        }
    }
}

/// The per-route filter state: one entry per series that a
/// reduce-time-resolution action has emitted.
pub struct FilterState {
    pub entries: Vec<SeriesState>,
}

impl DeepView for FilterState {
    type V = Seq<SeriesStateV>;

    open spec fn deep_view(&self) -> Seq<SeriesStateV> {
        self.entries.deep_view()
    }
}

impl FilterState {
    /// An empty state: no series has been emitted yet.
    pub fn new() -> (r: FilterState)
        ensures
            r.deep_view() =~= Seq::<SeriesStateV>::empty(),
    {
        FilterState { entries: Vec::new() }
    }
}

/// The value the sample carries for one label name; the name `__name__`
/// designates the sample's own name, and a missing label reads as empty.
pub open spec fn spec_lookup_label(ls: Seq<crate::metrics::LabelV>, name: Seq<char>) -> Seq<char>
    decreases ls.len(),
{
    if ls.len() == 0 {
        Seq::empty()
    } else if ls[0].name == name {
        ls[0].value
    } else {
        spec_lookup_label(ls.skip(1), name)
    }
}

pub open spec fn spec_label_value(s: SampleV, name: Seq<char>) -> Seq<char> {
    if name == "__name__"@ {
        s.name
    } else {
        spec_lookup_label(s.labels, name)
    }
}

/// The match key of a sample: its values for the source labels, in order,
/// joined by the separator.
pub open spec fn spec_match_key(s: SampleV, source_labels: Seq<Seq<char>>, sep: Seq<char>) -> Seq<
    char,
>
    decreases source_labels.len(),
{
    if source_labels.len() == 0 {
        Seq::empty()
    } else if source_labels.len() == 1 {
        spec_label_value(s, source_labels[0])
    } else {
        spec_match_key(s, source_labels.drop_last(), sep) + sep + spec_label_value(
            s,
            source_labels.last(),
        )
    }
}

/// The position of the state entry for a fingerprint, scanning from `from`.
pub open spec fn spec_find_series(st: Seq<SeriesStateV>, fp: Seq<char>, from: int) -> Option<int>
    decreases st.len() - from,
{
    if from < 0 || from >= st.len() {
        None
    } else if st[from].fingerprint == fp {
        Some(from)
    } else {
        spec_find_series(st, fp, from + 1)
    }
}

/// One reduce-time-resolution step for a series: if the series has no
/// recorded emission, or the recorded one is at least `resolution` old, the
/// live value is recorded and forwarded; otherwise the recorded value is
/// forwarded and the live value is discarded.
pub open spec fn spec_reduce(
    value: Seq<char>,
    fp: Seq<char>,
    resolution: u64,
    st: Seq<SeriesStateV>,
    now: u64,
) -> (Seq<char>, Seq<SeriesStateV>) {
    match spec_find_series(st, fp, 0) {
        None => (
            value,
            st.push(SeriesStateV { fingerprint: fp, value: value, emitted_at_millis: now }),
        ),
        Some(j) => {
            if now >= st[j].emitted_at_millis + resolution {
                (
                    value,
                    st.update(
                        j,
                        SeriesStateV { fingerprint: fp, value: value, emitted_at_millis: now },
                    ),
                )
            } else {
                (st[j].value, st)
            }
        },
    }
}

/// Runs a rule's action list over a sample's current value. The verdict is
/// `Some(true)` when a keep terminated processing, `Some(false)` for a drop,
/// and `None` when the list was exhausted.
pub open spec fn spec_run_actions(
    actions: Seq<ConfigLabelFilterAction>,
    value: Seq<char>,
    fp: Seq<char>,
    st: Seq<SeriesStateV>,
    now: u64,
) -> (Option<bool>, Seq<char>, Seq<SeriesStateV>)
    decreases actions.len(),
{
    if actions.len() == 0 {
        (None, value, st)
    } else {
        match actions[0] {
            ConfigLabelFilterAction::Keep => (Some(true), value, st),
            ConfigLabelFilterAction::Drop => (Some(false), value, st),
            ConfigLabelFilterAction::ReduceTimeResolution { resolution_millis } => {
                let (v2, st2) = spec_reduce(value, fp, resolution_millis, st, now);
                spec_run_actions(actions.skip(1), v2, fp, st2, now)
            },
        }
    }
}

/// Runs the rule list over one sample. Rules whose pattern does not match
/// the key leave the sample untouched; a matching rule's actions decide, and
/// a sample no rule terminates is kept.
pub open spec fn spec_run_rules(
    s: SampleV,
    rules: Seq<FilterV>,
    value: Seq<char>,
    st: Seq<SeriesStateV>,
    now: u64,
) -> (bool, Seq<char>, Seq<SeriesStateV>)
    decreases rules.len(),
{
    if rules.len() == 0 {
        (true, value, st)
    } else {
        let rule = rules[0];
        if spec_rule_matches(rule.regex, spec_match_key(s, rule.source_labels, rule.separator)) {
            let (verdict, v2, st2) = spec_run_actions(
                rule.actions,
                value,
                spec_fingerprint(s),
                st,
                now,
            );
            match verdict {
                Some(keep) => (keep, v2, st2),
                None => spec_run_rules(s, rules.skip(1), v2, st2, now),
            }
        } else {
            spec_run_rules(s, rules.skip(1), value, st, now)
        }
    }
}

/// Filters one sample: `None` when a drop fired, otherwise the sample with
/// the (possibly substituted) value it carries onward.
pub open spec fn spec_filter_sample(
    s: SampleV,
    rules: Seq<FilterV>,
    st: Seq<SeriesStateV>,
    now: u64,
) -> (Option<SampleV>, Seq<SeriesStateV>) {
    let (keep, v2, st2) = spec_run_rules(s, rules, s.value, st, now);
    (
        if keep {
            Some(SampleV { value: v2, ..s })
        } else {
            None
        },
        st2,
    )
}

/// Filters a family's samples in order, threading the series state.
pub open spec fn spec_filter_samples(
    samples: Seq<SampleV>,
    rules: Seq<FilterV>,
    st: Seq<SeriesStateV>,
    now: u64,
) -> (Seq<SampleV>, Seq<SeriesStateV>)
    decreases samples.len(),
{
    if samples.len() == 0 {
        (Seq::empty(), st)
    } else {
        let (head, st1) = spec_filter_sample(samples[0], rules, st, now);
        let (rest, st2) = spec_filter_samples(samples.skip(1), rules, st1, now);
        (
            match head {
                Some(s) => seq![s] + rest,
                None => rest,
            },
            st2,
        )
    }
}

/// Filters a whole snapshot: families keep their name, type and help text,
/// and a family left with no samples is dropped from the output.
pub open spec fn spec_apply(
    families: Seq<FamilyV>,
    rules: Seq<FilterV>,
    st: Seq<SeriesStateV>,
    now: u64,
) -> (Seq<FamilyV>, Seq<SeriesStateV>)
    decreases families.len(),
{
    if families.len() == 0 {
        (Seq::empty(), st)
    } else {
        let (samples, st1) = spec_filter_samples(families[0].samples, rules, st, now);
        let (rest, st2) = spec_apply(families.skip(1), rules, st1, now);
        (
            if samples.len() == 0 {
                rest
            } else {
                seq![FamilyV { samples: samples, ..families[0] }] + rest
            },
            st2,
        )
    }
}

fn name_label_str() -> (r: String)
    ensures
        r@ == "__name__"@,
{
    "__name__".to_owned()
}

/// Reads the sample's value for one source label.
#[verifier::loop_isolation(false)]
fn label_value<'a>(s: &'a Sample, name: &String) -> (r: &'a str)
    ensures
        r@ == spec_label_value(s.deep_view(), name@),
{
    let nm = name_label_str();
    if *name == nm {
        return s.name.as_str();
    }
    let mut j: usize = 0;
    proof {
        assert(s.labels.deep_view().skip(0) =~= s.labels.deep_view());
    }
    while j < s.labels.len()
        invariant
            j <= s.labels.len(),
            name@ != "__name__"@,
            spec_lookup_label(s.labels.deep_view(), name@) == spec_lookup_label(
                s.labels.deep_view().skip(j as int),
                name@,
            ),
        decreases s.labels.len() - j,
    {
        proof {
            assert(s.labels.deep_view()[j as int] == s.labels@[j as int].deep_view());
            assert(s.labels.deep_view().skip(j as int)[0] == s.labels.deep_view()[j as int]);
        }
        if s.labels[j].name == *name {
            return s.labels[j].value.as_str();
        }
        proof {
            assert(s.labels.deep_view().skip(j as int).skip(1) =~= s.labels.deep_view().skip(
                j as int + 1,
            ));
        }
        j = j + 1;
    }
    proof {
        assert(s.labels.deep_view().skip(s.labels.len() as int).len() == 0);
    }
    empty_str()
}

fn empty_str() -> (r: &'static str)
    ensures
        r@ == Seq::<char>::empty(),
{
    proof {
        reveal_strlit("");
        assert(""@ =~= Seq::<char>::empty());
    }
    ""
}

proof fn lemma_match_key_step(s: SampleV, source_labels: Seq<Seq<char>>, sep: Seq<char>, i: int)
    requires
        1 <= i < source_labels.len(),
    ensures
        spec_match_key(s, source_labels.take(i + 1), sep) == spec_match_key(
            s,
            source_labels.take(i),
            sep,
        ) + sep + spec_label_value(s, source_labels[i]),
{
    assert(source_labels.take(i + 1).drop_last() =~= source_labels.take(i));
    assert(source_labels.take(i + 1).last() == source_labels[i]);
}

/// Builds the match key of a sample for one rule.
#[verifier::loop_isolation(false)]
pub fn match_key(s: &Sample, source_labels: &Vec<String>, sep: &String) -> (r: String)
    ensures
        r@ == spec_match_key(s.deep_view(), source_labels.deep_view(), sep@),
{
    let mut out = String::new();
    let mut i: usize = 0;
    while i < source_labels.len()
        invariant
            i <= source_labels.len(),
            out@ == spec_match_key(s.deep_view(), source_labels.deep_view().take(i as int), sep@),
        decreases source_labels.len() - i,
    {
        proof {
            assert(source_labels.deep_view()[i as int] == source_labels@[i as int].deep_view());
        }
        let v = label_value(s, &source_labels[i]);
        if i == 0 {
            out.append(v);
            proof {
                assert(source_labels.deep_view().take(1)[0] == source_labels.deep_view()[0]);
                assert(out@ == spec_match_key(
                    s.deep_view(),
                    source_labels.deep_view().take(1),
                    sep@,
                ));
            }
        } else {
            out.append(sep.as_str());
            out.append(v);
            proof {
                lemma_match_key_step(s.deep_view(), source_labels.deep_view(), sep@, i as int);
            }
        }
        i = i + 1;
    }
    proof {
        assert(source_labels.deep_view().take(source_labels.len() as int) =~= source_labels
            .deep_view());
    }
    out
}

proof fn lemma_find_series_props(st: Seq<SeriesStateV>, fp: Seq<char>, from: int)
    requires
        0 <= from,
    ensures
        match spec_find_series(st, fp, from) {
            Some(j) => from <= j < st.len() && st[j].fingerprint == fp,
            None => true,
        },
    decreases st.len() - from,
{
    if from < st.len() && st[from].fingerprint != fp {
        lemma_find_series_props(st, fp, from + 1);
    }
}

/// Finds the state entry recorded for a fingerprint.
#[verifier::loop_isolation(false)]
fn find_series(state: &FilterState, fp: &String) -> (r: Option<usize>)
    ensures
        match r {
            Some(j) => spec_find_series(state.deep_view(), fp@, 0) == Some(j as int),
            None => spec_find_series(state.deep_view(), fp@, 0) is None,
        },
{
    let mut j: usize = 0;
    while j < state.entries.len()
        invariant
            j <= state.entries.len(),
            spec_find_series(state.deep_view(), fp@, 0) == spec_find_series(
                state.deep_view(),
                fp@,
                j as int,
            ),
        decreases state.entries.len() - j,
    {
        proof {
            assert(state.deep_view()[j as int] == state.entries@[j as int].deep_view());
        }
        if state.entries[j].fingerprint == *fp {
            return Some(j);
        }
        j = j + 1;
    }
    None
}

/// Applies one reduce-time-resolution action to a sample's current value.
#[verifier::loop_isolation(false)]
fn reduce_emit(
    value: String,
    fp: &String,
    resolution: u64,
    state: &mut FilterState,
    now: u64,
) -> (r: String)
    ensures
        (r@, final(state).deep_view()) == spec_reduce(
            value@,
            fp@,
            resolution,
            old(state).deep_view(),
            now,
        ),
{
    let ghost st0 = state.deep_view();
    let found = find_series(state, fp);
    proof {
        lemma_find_series_props(st0, fp@, 0);
    }
    match found {
        None => {
            state.entries.push(
                SeriesState {
                    fingerprint: fp.clone(),
                    value: value.clone(),
                    emitted_at_millis: now,
                },
            );
            proof {
                assert(state.deep_view() =~= st0.push(
                    SeriesStateV { fingerprint: fp@, value: value@, emitted_at_millis: now },
                ));
            }
            value
        },
        Some(k) => {
            let recorded_at = state.entries[k].emitted_at_millis;
            proof {
                assert(st0[k as int] == state.entries@[k as int].deep_view());
            }
            if now >= recorded_at && now - recorded_at >= resolution {
                let entry = &mut state.entries[k];
                entry.value = value.clone();
                entry.emitted_at_millis = now;
                proof {
                    assert(state.deep_view() =~= st0.update(
                        k as int,
                        SeriesStateV { fingerprint: fp@, value: value@, emitted_at_millis: now },
                    ));
                }
                value
            } else {
                state.entries[k].value.clone()
            }
        },
    }
}

/// Runs one rule's action list over a sample's current value, returning the
/// verdict and the value the sample carries onward.
#[verifier::loop_isolation(false)]
fn run_actions(
    actions: &Vec<ConfigLabelFilterAction>,
    value: String,
    fp: &String,
    state: &mut FilterState,
    now: u64,
) -> (r: (Option<bool>, String))
    ensures
        (r.0, r.1@, final(state).deep_view()) == spec_run_actions(
            actions.deep_view(),
            value@,
            fp@,
            old(state).deep_view(),
            now,
        ),
{
    let ghost all = actions.deep_view();
    let ghost v0 = value@;
    let ghost st0 = state.deep_view();
    proof {
        assert(all.skip(0) =~= all);
    }
    let mut cur = value;
    let mut i: usize = 0;
    while i < actions.len()
        invariant
            i <= actions.len(),
            all == actions.deep_view(),
            spec_run_actions(all, v0, fp@, st0, now) == spec_run_actions(
                all.skip(i as int),
                cur@,
                fp@,
                state.deep_view(),
                now,
            ),
        decreases actions.len() - i,
    {
        proof {
            assert(all.skip(i as int)[0] == all[i as int]);
            assert(all[i as int] == actions@[i as int].deep_view());
            assert(all.skip(i as int).skip(1) =~= all.skip(i as int + 1));
        }
        match actions[i] {
            ConfigLabelFilterAction::Keep => {
                return (Some(true), cur);
            },
            ConfigLabelFilterAction::Drop => {
                return (Some(false), cur);
            },
            ConfigLabelFilterAction::ReduceTimeResolution { resolution_millis } => {
                cur = reduce_emit(cur, fp, resolution_millis, state, now);
            },
        }
        i = i + 1;
    }
    proof {
        assert(all.skip(actions.len() as int).len() == 0);
    }
    (None, cur)
}

/// Filters one sample through the whole rule list; `None` when dropped.
#[verifier::loop_isolation(false)]
fn filter_sample(
    s: Sample,
    rules: &Vec<ConfigLabelFilter>,
    state: &mut FilterState,
    now: u64,
) -> (r: Option<Sample>)
    ensures
        (r.deep_view(), final(state).deep_view()) == spec_filter_sample(
            s.deep_view(),
            rules.deep_view(),
            old(state).deep_view(),
            now,
        ),
{
    let ghost sv = s.deep_view();
    let ghost all = rules.deep_view();
    let ghost st0 = state.deep_view();
    proof {
        assert(all.skip(0) =~= all);
    }
    let fp = fingerprint(&s);
    let mut cur = s.value.clone();
    let mut i: usize = 0;
    while i < rules.len()
        invariant
            i <= rules.len(),
            fp@ == spec_fingerprint(sv),
            sv == s.deep_view(),
            all == rules.deep_view(),
            spec_run_rules(sv, all, sv.value, st0, now) == spec_run_rules(
                sv,
                all.skip(i as int),
                cur@,
                state.deep_view(),
                now,
            ),
        decreases rules.len() - i,
    {
        proof {
            assert(all.skip(i as int)[0] == all[i as int]);
            assert(all[i as int] == rules@[i as int].deep_view());
            assert(all.skip(i as int).skip(1) =~= all.skip(i as int + 1));
        }
        let rule = &rules[i];
        let key = match_key(&s, &rule.source_labels, &rule.separator);
        if rule_matches(rule.regex.as_str(), key.as_str()) {
            let (verdict, next) = run_actions(&rule.actions, cur, &fp, state, now);
            cur = next;
            match verdict {
                Some(keep) => {
                    if keep {
                        return Some(
                            Sample {
                                name: s.name,
                                labels: s.labels,
                                value: cur,
                                timestamp: s.timestamp,
                            },
                        );
                    } else {
                        return None;
                    }
                },
                None => {},
            }
        }
        i = i + 1;
    }
    proof {
        assert(all.skip(rules.len() as int).len() == 0);
    }
    Some(Sample { name: s.name, labels: s.labels, value: cur, timestamp: s.timestamp })
}

/// Filters a family's samples in order.
#[verifier::loop_isolation(false)]
fn filter_samples(
    samples: Vec<Sample>,
    rules: &Vec<ConfigLabelFilter>,
    state: &mut FilterState,
    now: u64,
) -> (r: Vec<Sample>)
    ensures
        (r.deep_view(), final(state).deep_view()) == spec_filter_samples(
            samples.deep_view(),
            rules.deep_view(),
            old(state).deep_view(),
            now,
        ),
{
    let ghost all = samples.deep_view();
    let ghost st0 = state.deep_view();
    let mut rest = samples;
    let mut out: Vec<Sample> = Vec::new();
    proof {
        assert(out.deep_view() + spec_filter_samples(all, rules.deep_view(), st0, now).0
            =~= spec_filter_samples(all, rules.deep_view(), st0, now).0);
    }
    while rest.len() > 0
        invariant
            spec_filter_samples(all, rules.deep_view(), st0, now).0 == out.deep_view()
                + spec_filter_samples(rest.deep_view(), rules.deep_view(), state.deep_view(), now).0,
            spec_filter_samples(all, rules.deep_view(), st0, now).1 == spec_filter_samples(
                rest.deep_view(),
                rules.deep_view(),
                state.deep_view(),
                now,
            ).1,
        decreases rest.len(),
    {
        let ghost pre = rest.deep_view();
        let ghost st_pre = state.deep_view();
        let s = rest.remove(0);
        proof {
            assert(rest.deep_view() =~= pre.skip(1));
            assert(pre[0] == s.deep_view());
        }
        let filtered = filter_sample(s, rules, state, now);
        let ghost rest_part = spec_filter_samples(
            rest.deep_view(),
            rules.deep_view(),
            state.deep_view(),
            now,
        ).0;
        match filtered {
            Some(keep) => {
                let ghost out_pre = out.deep_view();
                out.push(keep);
                proof {
                    assert(out.deep_view() =~= out_pre + seq![keep.deep_view()]);
                    assert(out_pre + (seq![keep.deep_view()] + rest_part) =~= (out_pre + seq![
                        keep.deep_view(),
                    ]) + rest_part);
                }
            },
            None => {},
        }
    }
    proof {
        assert(rest.deep_view().len() == 0);
        assert(out.deep_view() + spec_filter_samples(
            rest.deep_view(),
            rules.deep_view(),
            state.deep_view(),
            now,
        ).0 =~= out.deep_view());
    }
    out
}

/// Applies the route's filter list to a snapshot, in declaration order,
/// updating the route's series state in place. Families keep their name,
/// declared type and help text; a family with no surviving samples is
/// dropped from the output.
#[verifier::loop_isolation(false)]
pub fn apply_filters(
    snapshot: Snapshot,
    rules: &Vec<ConfigLabelFilter>,
    state: &mut FilterState,
    now_millis: u64,
) -> (r: Snapshot)
    ensures
        (r.deep_view(), final(state).deep_view()) == spec_apply(
            snapshot.deep_view(),
            rules.deep_view(),
            old(state).deep_view(),
            now_millis,
        ),
{
    let ghost all = snapshot.deep_view();
    let ghost st0 = state.deep_view();
    let mut rest = snapshot.families;
    let mut out: Vec<MetricFamily> = Vec::new();
    proof {
        assert(out.deep_view() + spec_apply(all, rules.deep_view(), st0, now_millis).0 =~= spec_apply(
            all,
            rules.deep_view(),
            st0,
            now_millis,
        ).0);
    }
    while rest.len() > 0
        invariant
            spec_apply(all, rules.deep_view(), st0, now_millis).0 == out.deep_view() + spec_apply(
                rest.deep_view(),
                rules.deep_view(),
                state.deep_view(),
                now_millis,
            ).0,
            spec_apply(all, rules.deep_view(), st0, now_millis).1 == spec_apply(
                rest.deep_view(),
                rules.deep_view(),
                state.deep_view(),
                now_millis,
            ).1,
        decreases rest.len(),
    {
        let ghost pre = rest.deep_view();
        let f = rest.remove(0);
        proof {
            assert(rest.deep_view() =~= pre.skip(1));
            assert(pre[0] == f.deep_view());
        }
        let samples = filter_samples(f.samples, rules, state, now_millis);
        let ghost rest_part = spec_apply(
            rest.deep_view(),
            rules.deep_view(),
            state.deep_view(),
            now_millis,
        ).0;
        if samples.len() > 0 {
            let ghost out_pre = out.deep_view();
            let ghost sv = samples.deep_view();
            let fam = MetricFamily {
                name: f.name,
                metric_type: f.metric_type,
                help: f.help,
                samples,
            };
            out.push(fam);
            proof {
                assert(out.deep_view() =~= out_pre + seq![FamilyV { samples: sv, ..pre[0] }]);
                assert(out_pre + (seq![FamilyV { samples: sv, ..pre[0] }] + rest_part) =~= (out_pre
                    + seq![FamilyV { samples: sv, ..pre[0] }]) + rest_part);
            }
        }
    }
    proof {
        assert(rest.deep_view().len() == 0);
        assert(out.deep_view() + spec_apply(
            rest.deep_view(),
            rules.deep_view(),
            state.deep_view(),
            now_millis,
        ).0 =~= out.deep_view());
    }
    Snapshot { families: out }
}

/// With a rule whose only action is `Drop`, every sample whose key matches
/// the rule's pattern is absent from the output, every other sample passes
/// through unchanged, and the series state is untouched.
pub proof fn lemma_filter_drop_action(
    samples: Seq<SampleV>,
    rule: FilterV,
    st: Seq<SeriesStateV>,
    now: u64,
)
    requires
        rule.actions == seq![ConfigLabelFilterAction::Drop],
    ensures
        spec_filter_samples(samples, seq![rule], st, now).1 == st,
        forall|i: int|
            0 <= i < spec_filter_samples(samples, seq![rule], st, now).0.len()
                ==> !spec_rule_matches(
                rule.regex,
                spec_match_key(
                    #[trigger] spec_filter_samples(samples, seq![rule], st, now).0[i],
                    rule.source_labels,
                    rule.separator,
                ),
            ),
        forall|i: int|
            0 <= i < samples.len() && !spec_rule_matches(
                rule.regex,
                spec_match_key(#[trigger] samples[i], rule.source_labels, rule.separator),
            ) ==> spec_filter_samples(samples, seq![rule], st, now).0.contains(samples[i]),
    decreases samples.len(),
{
    let rules = seq![rule];
    if samples.len() > 0 {
        let s = samples[0];
        let key = spec_match_key(s, rule.source_labels, rule.separator);
        assert(rules[0] == rule);
        assert(rules.skip(1).len() == 0);
        assert(rule.actions[0] == ConfigLabelFilterAction::Drop);
        let fpv = spec_fingerprint(s);
        if spec_rule_matches(rule.regex, key) {
            assert(spec_run_actions(rule.actions, s.value, fpv, st, now) == (
                Some(false),
                s.value,
                st,
            ));
            assert(spec_run_rules(s, rules, s.value, st, now) == (false, s.value, st));
        } else {
            assert(spec_run_rules(s, rules.skip(1), s.value, st, now) == (true, s.value, st));
            assert(spec_run_rules(s, rules, s.value, st, now) == (true, s.value, st));
            assert(SampleV { value: s.value, ..s } == s);
        }
        let (head, st1) = spec_filter_sample(s, rules, st, now);
        assert(st1 == st);
        assert(head == if spec_rule_matches(rule.regex, key) {
            Option::<SampleV>::None
        } else {
            Some(s)
        });
        lemma_filter_drop_action(samples.skip(1), rule, st, now);
        let rest = spec_filter_samples(samples.skip(1), rules, st, now).0;
        let out = spec_filter_samples(samples, rules, st, now).0;
        assert forall|i: int|
            0 <= i < samples.len() && !spec_rule_matches(
                rule.regex,
                spec_match_key(#[trigger] samples[i], rule.source_labels, rule.separator),
            ) implies out.contains(samples[i]) by {
            if i == 0 {
                assert(out[0] == s);
            } else {
                assert(samples.skip(1)[i - 1] == samples[i]);
                let j = choose|j: int| 0 <= j < rest.len() && rest[j] == samples[i];
                if spec_rule_matches(rule.regex, key) {
                    assert(out[j] == rest[j]);
                } else {
                    assert(out[j + 1] == rest[j]);
                }
            }
        }
    }
}

/// With a rule whose only action is `Keep`, filtering is the identity: every
/// sample passes through unchanged, matching or not, and the state is
/// untouched.
pub proof fn lemma_filter_keep_action(
    samples: Seq<SampleV>,
    rule: FilterV,
    st: Seq<SeriesStateV>,
    now: u64,
)
    requires
        rule.actions == seq![ConfigLabelFilterAction::Keep],
    ensures
        spec_filter_samples(samples, seq![rule], st, now) == (samples, st),
    decreases samples.len(),
{
    let rules = seq![rule];
    if samples.len() == 0 {
        assert(spec_filter_samples(samples, rules, st, now).0 =~= samples);
    } else {
        let s = samples[0];
        assert(rules[0] == rule);
        assert(rules.skip(1).len() == 0);
        assert(rule.actions[0] == ConfigLabelFilterAction::Keep);
        let key = spec_match_key(s, rule.source_labels, rule.separator);
        let fpv = spec_fingerprint(s);
        if spec_rule_matches(rule.regex, key) {
            assert(spec_run_actions(rule.actions, s.value, fpv, st, now) == (
                Some(true),
                s.value,
                st,
            ));
            assert(spec_run_rules(s, rules, s.value, st, now) == (true, s.value, st));
        } else {
            assert(spec_run_rules(s, rules.skip(1), s.value, st, now) == (true, s.value, st));
            assert(spec_run_rules(s, rules, s.value, st, now) == (true, s.value, st));
        }
        assert(SampleV { value: s.value, ..s } == s);
        let (head, st1) = spec_filter_sample(s, rules, st, now);
        assert(st1 == st);
        assert(head == Some(s));
        lemma_filter_keep_action(samples.skip(1), rule, st, now);
        assert(spec_filter_samples(samples, rules, st, now).0 =~= samples);
    }
}

proof fn lemma_find_series_first(st: Seq<SeriesStateV>, fp: Seq<char>, from: int)
    requires
        0 <= from,
        spec_find_series(st, fp, from) is Some,
    ensures
        forall|k: int|
            from <= k < spec_find_series(st, fp, from)->0 ==> st[k].fingerprint != fp,
    decreases st.len() - from,
{
    if from < st.len() && st[from].fingerprint != fp {
        lemma_find_series_first(st, fp, from + 1);
    }
}

proof fn lemma_find_series_update(st: Seq<SeriesStateV>, e: SeriesStateV, fp: Seq<char>, j: int)
    requires
        spec_find_series(st, fp, 0) == Some(j),
        e.fingerprint == fp,
    ensures
        spec_find_series(st.update(j, e), fp, 0) == Some(j),
{
    lemma_find_series_props(st, fp, 0);
    lemma_find_series_first(st, fp, 0);
    let st2 = st.update(j, e);
    lemma_find_series_update_scan(st, st2, fp, j, 0);
}

proof fn lemma_find_series_update_scan(
    st: Seq<SeriesStateV>,
    st2: Seq<SeriesStateV>,
    fp: Seq<char>,
    j: int,
    from: int,
)
    requires
        0 <= from <= j < st.len(),
        st2 == st.update(j, SeriesStateV { fingerprint: fp, ..st2[j] }),
        st2[j].fingerprint == fp,
        forall|k: int| from <= k < j ==> st[k].fingerprint != fp,
    ensures
        spec_find_series(st2, fp, from) == Some(j),
    decreases j - from,
{
    if from < j {
        assert(st2[from] == st[from]);
        lemma_find_series_update_scan(st, st2, fp, j, from + 1);
    }
}

proof fn lemma_find_series_push(st: Seq<SeriesStateV>, e: SeriesStateV, fp: Seq<char>, from: int)
    requires
        0 <= from <= st.len(),
        spec_find_series(st, fp, from) is None,
        e.fingerprint == fp,
    ensures
        spec_find_series(st.push(e), fp, from) == Some(st.len() as int),
    decreases st.len() - from,
{
    let st2 = st.push(e);
    if from < st.len() {
        assert(st2[from] == st[from]);
        lemma_find_series_push(st, e, fp, from + 1);
    } else {
        assert(st2[from] == e);
    }
}

/// The reduce-time-resolution law for a series whose recorded emission is
/// old enough: the pass forwards the live value and re-records it, and the
/// window then runs from this pass — a second pass less than `resolution`
/// later repeats the value just recorded even if the live value changed,
/// while one at or past `resolution` forwards the new live value.
pub proof fn lemma_reduce_resolution_recorded(
    fp: Seq<char>,
    v1: Seq<char>,
    v2: Seq<char>,
    st0: Seq<SeriesStateV>,
    t1: u64,
    t2: u64,
    resolution: u64,
)
    requires
        spec_find_series(st0, fp, 0) is Some,
        t1 >= st0[spec_find_series(st0, fp, 0)->0].emitted_at_millis + resolution,
    ensures
        spec_reduce(v1, fp, resolution, st0, t1).0 == v1,
        t2 < t1 + resolution ==> spec_reduce(
            v2,
            fp,
            resolution,
            spec_reduce(v1, fp, resolution, st0, t1).1,
            t2,
        ).0 == v1,
        t2 >= t1 + resolution ==> spec_reduce(
            v2,
            fp,
            resolution,
            spec_reduce(v1, fp, resolution, st0, t1).1,
            t2,
        ).0 == v2,
{
    let j = spec_find_series(st0, fp, 0)->0;
    lemma_find_series_props(st0, fp, 0);
    let e = SeriesStateV { fingerprint: fp, value: v1, emitted_at_millis: t1 };
    let st1 = spec_reduce(v1, fp, resolution, st0, t1).1;
    assert(st1 == st0.update(j, e));
    lemma_find_series_update(st0, e, fp, j);
    assert(st1[j] == e);
}

/// The reduce-time-resolution law. For a series with no recorded emission,
/// the first pass forwards the live value and records it; a second pass less
/// than `resolution` later forwards that recorded value even if the live
/// value changed, while a second pass at or past `resolution` forwards and
/// records the new live value.
pub proof fn lemma_reduce_resolution(
    fp: Seq<char>,
    v1: Seq<char>,
    v2: Seq<char>,
    st0: Seq<SeriesStateV>,
    t1: u64,
    t2: u64,
    resolution: u64,
)
    requires
        spec_find_series(st0, fp, 0) is None,
    ensures
        spec_reduce(v1, fp, resolution, st0, t1).0 == v1,
        t2 < t1 + resolution ==> spec_reduce(
            v2,
            fp,
            resolution,
            spec_reduce(v1, fp, resolution, st0, t1).1,
            t2,
        ).0 == v1,
        t2 >= t1 + resolution ==> spec_reduce(
            v2,
            fp,
            resolution,
            spec_reduce(v1, fp, resolution, st0, t1).1,
            t2,
        ).0 == v2,
{
    let e = SeriesStateV { fingerprint: fp, value: v1, emitted_at_millis: t1 };
    let st1 = spec_reduce(v1, fp, resolution, st0, t1).1;
    assert(st1 == st0.push(e));
    lemma_find_series_push(st0, e, fp, 0);
    assert(st1[st0.len() as int] == e);
}

} // verus!
