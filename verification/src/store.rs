//! The metric samples, held by the `simple_metrics` crate.
//!
//! Everything in this module that carries `external_body`, and every
//! `assume_specification`, is believed and not proved: each states what the
//! named function of `simple_metrics` does, as its source shows it.

use vstd::prelude::*;
use simple_metrics::Error as NameRefused;
use simple_metrics::{Labels, LabelsBuilder, MetricDef, MetricStore, RenderIntoMetrics};
use crate::metrics::{metric_texts, Metric};

verus! {

/// `simple_metrics::LabelsBuilder`: label pairs that have not been checked yet.
#[verifier::external_type_specification]
#[verifier::external_body]
pub struct ExLabelsBuilder(simple_metrics::LabelsBuilder);

/// `simple_metrics::Labels`: the checked label pairs of one sample.
#[verifier::external_type_specification]
#[verifier::external_body]
pub struct ExLabels(simple_metrics::Labels);

/// `simple_metrics::MetricDef`: name, help text and type of a metric.
#[verifier::external_type_specification]
#[verifier::external_body]
pub struct ExMetricDef(simple_metrics::MetricDef);

/// `simple_metrics::Error`: the name that was refused.
#[verifier::external_type_specification]
#[verifier::external_body]
pub struct ExNameRefused(NameRefused);

/// The pairs that a builder holds, each label name mapped to its value.
pub uninterp spec fn builder_pairs(builder: LabelsBuilder) -> Map<Seq<char>, Seq<char>>;

/// The pairs that a set of labels holds, each label name mapped to its value.
pub uninterp spec fn label_pairs(labels: Labels) -> Map<Seq<char>, Seq<char>>;

/// The name and the help text that a definition holds, in this order.
pub uninterp spec fn def_texts(def: MetricDef) -> (Seq<char>, Seq<char>);

/// A letter of the ASCII alphabet, or an underscore.
pub open spec fn name_start(c: char) -> bool {
    ('a' <= c && c <= 'z') || ('A' <= c && c <= 'Z') || c == '_'
}

/// What may follow the first character of a label name.
pub open spec fn name_part(c: char) -> bool {
    name_start(c) || ('0' <= c && c <= '9')
}

/// A label name: a letter or an underscore, then letters, digits and
/// underscores.
pub open spec fn is_label_name(name: Seq<char>) -> bool {
    &&& name.len() > 0
    &&& name_start(name[0])
    &&& forall|i: int| 1 <= i < name.len() ==> name_part(#[trigger] name[i])
}

/// A metric name: as a label name, with the colon allowed everywhere.
pub open spec fn is_metric_name(name: Seq<char>) -> bool {
    &&& name.len() > 0
    &&& (name_start(name[0]) || name[0] == ':')
    &&& forall|i: int| 1 <= i < name.len() ==> name_part(#[trigger] name[i]) || name[i] == ':'
}

/// `LabelsBuilder::new` gives a builder without pairs.
pub assume_specification[ LabelsBuilder::new ]() -> (builder: LabelsBuilder)
    ensures
        builder_pairs(builder) == (Map::<Seq<char>, Seq<char>>::empty()),
;

/// `LabelsBuilder::build` checks every label name and, if all are label
/// names, hands the same pairs out as labels; else it fails.
pub assume_specification[ LabelsBuilder::build ](builder: &LabelsBuilder) -> (built: Result<
    Labels,
    NameRefused,
>)
    ensures
        built is Ok <==> forall|name: Seq<char>| #[trigger]
            builder_pairs(*builder).contains_key(name) ==> is_label_name(name),
        built matches Ok(labels) ==> label_pairs(labels) == builder_pairs(*builder),
;

/// `MetricDef::gauge` makes the definition of a gauge that holds `name` and
/// `help`; it fails exactly when `name` is no metric name.
pub assume_specification[ MetricDef::gauge ](name: &str, help: &str) -> (def: Result<
    MetricDef,
    NameRefused,
>)
    ensures
        def is Ok <==> is_metric_name(name@),
        def matches Ok(made) ==> def_texts(made) == (name@, help@),
;

/// `LabelsBuilder::with` sets the label `name` to `value`, in place of any
/// value that the label had.
#[verifier::external_body]
pub(crate) fn with_label(builder: LabelsBuilder, name: &str, value: &str) -> (extended:
    LabelsBuilder)
    ensures
        builder_pairs(extended) == builder_pairs(builder).insert(name@, value@),
{
    builder.with(name, value)
}

/// A `simple_metrics::MetricStore` keyed by [`Metric`]: the samples that
/// have been added, oldest first. It is made without static labels and is
/// never given any.
#[verifier::external_body]
pub struct SampleStore {
    inner: MetricStore<Metric>,
}

/// The samples in a store, oldest first: the label pairs of each, and the
/// flag that is its value.
pub uninterp spec fn store_samples(store: SampleStore) -> Seq<(Map<Seq<char>, Seq<char>>, bool)>;

/// The text that `render_into_metrics` makes of a store whose metric is a
/// gauge with this name and help text, with these samples, under this
/// namespace or under none.
pub uninterp spec fn rendered_metrics(
    texts: (Seq<char>, Seq<char>),
    samples: Seq<(Map<Seq<char>, Seq<char>>, bool)>,
    namespace: Option<Seq<char>>,
) -> Seq<char>;

/// The view of an optional namespace.
pub open spec fn namespace_view(namespace: Option<&str>) -> Option<Seq<char>> {
    match namespace {
        Some(text) => Some(text@),
        None => None,
    }
}

/// `MetricStore::new` gives a store without samples.
#[verifier::external_body]
pub(crate) fn new_store() -> (store: SampleStore)
    ensures
        store_samples(store).len() == 0,
{
    SampleStore { inner: MetricStore::new() }
}

/// `MetricStore::add_value` appends one sample: a copy of `labels`, with
/// `value` as its value.
#[verifier::external_body]
pub(crate) fn add_flag(store: &mut SampleStore, metric: Metric, labels: &Labels, value: bool)
    ensures
        store_samples(*final(store)) == store_samples(*old(store)).push(
            (label_pairs(*labels), value),
        ),
{
    store.inner.add_value(metric, labels, value)
}

impl SampleStore {
    /// Writes the samples out as a metrics document, with metric names
    /// prefixed by `namespace` if there is one.
    pub fn render(&self, namespace: Option<&str>) -> (text: String)
        ensures
            text@ == rendered_metrics(
                metric_texts(Metric::LookedUp),
                store_samples(*self),
                namespace_view(namespace),
            ),
    {
        render_store(self, namespace)
    }
}

/// `render_into_metrics` writes the store out as text. It asks
/// [`Metric::to_metric_def`] for the definition of the metric; beyond the
/// name and help text of that gauge, the text depends on the samples and on
/// the namespace alone.
#[verifier::external_body]
fn render_store(store: &SampleStore, namespace: Option<&str>) -> (text: String)
    ensures
        text@ == rendered_metrics(
            metric_texts(Metric::LookedUp),
            store_samples(*store),
            namespace_view(namespace),
        ),
{
    store.inner.render_into_metrics(namespace)
}

} // verus!
