//! The data model for metric snapshots: families of samples with labels,
//! as parsed from the text exposition format and re-serialized to it.

use vstd::prelude::*;

verus! {

/// One label of a sample: a name and a value.
pub struct Label {
    pub name: String,
    pub value: String,
}

/// The mathematical value of a `Label`.
pub struct LabelV {
    pub name: Seq<char>,
    pub value: Seq<char>,
}

impl DeepView for Label {
    type V = LabelV;

    open spec fn deep_view(&self) -> LabelV {
        LabelV { name: self.name@, value: self.value@ }
    }
}

/// One sample of a metric family: the sample name as written in the
/// document, its label set, and the raw value and timestamp tokens.
/// Values are kept as the exact text the backend sent, so re-serialization
/// is byte-faithful.
pub struct Sample {
    pub name: String,
    pub labels: Vec<Label>,
    pub value: String,
    pub timestamp: Option<String>,
}

/// The mathematical value of a `Sample`.
pub struct SampleV {
    pub name: Seq<char>,
    pub labels: Seq<LabelV>,
    pub value: Seq<char>,
    pub timestamp: Option<Seq<char>>,
}

impl DeepView for Sample {
    type V = SampleV;

    open spec fn deep_view(&self) -> SampleV {
        SampleV {
            name: self.name@,
            labels: self.labels.deep_view(),
            value: self.value@,
            timestamp: self.timestamp.deep_view(),
        }
    }
}

/// The type declared for a metric family by a `# TYPE` line.
#[derive(Clone, Copy, PartialEq, Eq, Structural, Debug)]
pub enum MetricType {
    Counter,
    Gauge,
    Histogram,
    Summary,
    Untyped,
}

/// A named group of samples sharing a declared type and help text.
/// `metric_type` and `help` are `None` when the document declared none.
pub struct MetricFamily {
    pub name: String,
    pub metric_type: Option<MetricType>,
    pub help: Option<String>,
    pub samples: Vec<Sample>,
}

/// The mathematical value of a `MetricFamily`.
pub struct FamilyV {
    pub name: Seq<char>,
    pub metric_type: Option<MetricType>,
    pub help: Option<Seq<char>>,
    pub samples: Seq<SampleV>,
}

impl DeepView for MetricFamily {
    type V = FamilyV;

    open spec fn deep_view(&self) -> FamilyV {
        FamilyV {
            name: self.name@,
            metric_type: self.metric_type,
            help: match self.help {
                Some(h) => Some(h@),
                None => None,
            },
            samples: self.samples.deep_view(),
        }
    }
}

/// A whole parsed exposition document: the families in document order.
pub struct Snapshot {
    pub families: Vec<MetricFamily>,
}

impl DeepView for Snapshot {
    type V = Seq<FamilyV>;

    open spec fn deep_view(&self) -> Seq<FamilyV> {
        self.families.deep_view()
    }
}

/// The label part of a series fingerprint: each label name and value
/// followed by a newline.
pub open spec fn spec_fingerprint_labels(ls: Seq<LabelV>) -> Seq<char>
    decreases ls.len(),
{
    if ls.len() == 0 {
        Seq::empty()
    } else {
        spec_fingerprint_labels(ls.drop_last()) + ls.last().name + seq!['\n'] + ls.last().value
            + seq!['\n']
    }
}

/// The fingerprint identifying one logical time series: the sample name and
/// the full label set, separated by newlines (which cannot occur in either).
pub open spec fn spec_fingerprint(s: SampleV) -> Seq<char> {
    s.name + seq!['\n'] + spec_fingerprint_labels(s.labels)
}

proof fn lemma_fingerprint_labels_step(ls: Seq<LabelV>, i: int)
    requires
        0 <= i < ls.len(),
    ensures
        spec_fingerprint_labels(ls.take(i + 1)) == spec_fingerprint_labels(ls.take(i)) + ls[i].name
            + seq!['\n'] + ls[i].value + seq!['\n'],
{
    assert(ls.take(i + 1).drop_last() =~= ls.take(i));
    assert(ls.take(i + 1).last() == ls[i]);
}

fn newline_str() -> (r: &'static str)
    ensures
        r@ == seq!['\n'],
{
    proof {
        reveal_strlit("\n");
        assert("\n"@ =~= seq!['\n']);
    }
    "\n"
}

/// Computes the series fingerprint of a sample.
pub fn fingerprint(s: &Sample) -> (r: String)
    ensures
        r@ == spec_fingerprint(s.deep_view()),
{
    let nl = newline_str();
    let mut out = String::new();
    out.append(s.name.as_str());
    out.append(nl);
    let mut i: usize = 0;
    while i < s.labels.len()
        invariant
            i <= s.labels.len(),
            nl@ == seq!['\n'],
            out@ == s.name@ + seq!['\n'] + spec_fingerprint_labels(
                s.labels.deep_view().take(i as int),
            ),
        decreases s.labels.len() - i,
    {
        let ghost prev = out@;
        let l = &s.labels[i];
        out.append(l.name.as_str());
        out.append(nl);
        out.append(l.value.as_str());
        out.append(nl);
        proof {
            assert(nl@ == seq!['\n']);
            assert(out@ == prev + l.name@ + nl@ + l.value@ + nl@);
            assert(s.labels.deep_view()[i as int] == s.labels@[i as int].deep_view());
            lemma_fingerprint_labels_step(s.labels.deep_view(), i as int);
            assert(out@ =~= s.name@ + seq!['\n'] + spec_fingerprint_labels(
                s.labels.deep_view().take(i as int + 1),
            ));
        }
        i = i + 1;
    }
    proof {
        assert(s.labels.deep_view().take(s.labels.len() as int) =~= s.labels.deep_view());
    }
    out
}

} // verus!
