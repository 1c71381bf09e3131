//! The projection of cached lookups into metric samples and into text.
//!
//! Every entry becomes one sample of the gauge `looked_up`, labelled with the
//! address and both coordinates, with the value 1. Samples keep the order of
//! the entries they come from.

use vstd::prelude::*;
use simple_metrics::{LabelsBuilder, MetricDef, ToMetricDef};
use crate::cache::{copy_entries, entry_views};
use crate::model::{LookupEntry, LookupEntryView};
use crate::store::{
    add_flag, builder_pairs, def_texts, is_label_name, is_metric_name, name_part, name_start,
    namespace_view, new_store, rendered_metrics, store_samples, with_label, SampleStore,
};

verus! {

/// The metrics that this crate reports.
#[derive(Clone, Copy, Debug, PartialEq, Eq, PartialOrd, Ord, Hash)]
pub enum Metric {
    /// An address that was looked up, with where it is.
    LookedUp,
}

/// The name of a metric, and its help text.
pub open spec fn metric_texts(metric: Metric) -> (Seq<char>, Seq<char>) {
    match metric {
        Metric::LookedUp => ("looked_up"@, "looked up IP address"@),
    }
}

impl ToMetricDef for Metric {
    /// The definition of the metric: a gauge, with its name and help text.
    fn to_metric_def(&self) -> (def: MetricDef)
        ensures
            def_texts(def) == metric_texts(*self),
    {
        match self {
            Metric::LookedUp => {
                proof {
                    looked_up_is_metric_name();
                }
                MetricDef::gauge("looked_up", "looked up IP address").unwrap()
            },
        }
    }
}

proof fn looked_up_is_metric_name()
    ensures
        is_metric_name("looked_up"@),
{
    reveal_strlit("looked_up");
    let name = "looked_up"@;
    assert(name_start(name[0]));
    assert forall|i: int| 1 <= i < name.len() implies name_part(#[trigger] name[i]) by {
        assert(i == 1 || i == 2 || i == 3 || i == 4 || i == 5 || i == 6 || i == 7 || i == 8);
    }
}

/// The names of the three labels are label names.
proof fn label_names_are_valid()
    ensures
        is_label_name("ip"@),
        is_label_name("latitude"@),
        is_label_name("longitude"@),
{
    reveal_strlit("ip");
    reveal_strlit("latitude");
    reveal_strlit("longitude");
    let ip = "ip"@;
    assert(name_start(ip[0]));
    assert forall|i: int| 1 <= i < ip.len() implies name_part(#[trigger] ip[i]) by {
        assert(i == 1);
    }
    let latitude = "latitude"@;
    assert(name_start(latitude[0]));
    assert forall|i: int| 1 <= i < latitude.len() implies name_part(#[trigger] latitude[i]) by {
        assert(i == 1 || i == 2 || i == 3 || i == 4 || i == 5 || i == 6 || i == 7);
    }
    let longitude = "longitude"@;
    assert(name_start(longitude[0]));
    assert forall|i: int| 1 <= i < longitude.len() implies name_part(
        #[trigger] longitude[i],
    ) by {
        assert(i == 1 || i == 2 || i == 3 || i == 4 || i == 5 || i == 6 || i == 7 || i == 8);
    }
}

/// The labels of the sample that stands for `entry`.
pub open spec fn sample_labels(entry: LookupEntryView) -> Map<Seq<char>, Seq<char>> {
    Map::<Seq<char>, Seq<char>>::empty().insert("ip"@, entry.ip_str).insert(
        "latitude"@,
        entry.loc.latitude,
    ).insert("longitude"@, entry.loc.longitude)
}

/// The samples that stand for `entries`: one for each entry, in the same
/// order, each with the value `true`, which is written as 1.
pub open spec fn samples_of(entries: Seq<LookupEntryView>) -> Seq<
    (Map<Seq<char>, Seq<char>>, bool),
> {
    Seq::new(entries.len(), |i: int| (sample_labels(entries[i]), true))
}

/// The metrics document for `entries` under `namespace`: the gauge
/// `looked_up` with one sample for each entry.
pub open spec fn projection(entries: Seq<LookupEntryView>, namespace: Option<Seq<char>>) -> Seq<
    char,
> {
    rendered_metrics(metric_texts(Metric::LookedUp), samples_of(entries), namespace)
}

/// The entries to report, in the order in which they are to appear.
#[derive(Debug)]
pub struct MetricsData {
    pub looked_up: Vec<LookupEntry>,
}

impl View for MetricsData {
    type V = Seq<LookupEntryView>;

    open spec fn view(&self) -> Seq<LookupEntryView> {
        entry_views(self.looked_up@)
    }
}

impl Default for MetricsData {
    fn default() -> (data: Self)
        ensures
            data@.len() == 0,
    {
        Self::new()
    }
}

impl Clone for MetricsData {
    fn clone(&self) -> (copy: Self)
        ensures
            copy@ == self@,
    {
        MetricsData { looked_up: copy_entries(&self.looked_up) }
    }
}

impl MetricsData {
    /// Nothing to report.
    pub fn new() -> (data: Self)
        ensures
            data@.len() == 0,
    {
        MetricsData { looked_up: Vec::new() }
    }

    /// Fills a store with one sample for each entry, in order.
    pub fn into_metric_store(&self) -> (store: SampleStore)
        ensures
            store_samples(store) == samples_of(self@),
    {
        let mut store = new_store();
        let mut i: usize = 0;
        while i < self.looked_up.len()
            invariant
                i <= self.looked_up@.len(),
                store_samples(store) == samples_of(self@.take(i as int)),
            decreases self.looked_up@.len() - i,
        {
            let item = &self.looked_up[i];
            let builder = LabelsBuilder::new();
            let builder = with_label(builder, "ip", item.ip_str.as_str());
            let builder = with_label(builder, "latitude", item.loc.latitude.as_str());
            let builder = with_label(builder, "longitude", item.loc.longitude.as_str());
            proof {
                label_names_are_valid();
                assert(builder_pairs(builder) == sample_labels(item@));
            }
            let labels = builder.build().unwrap();
            add_flag(&mut store, Metric::LookedUp, &labels, true);
            proof {
                assert(self@[i as int] == item@);
                assert(samples_of(self@.take(i + 1)) =~= samples_of(self@.take(i as int)).push(
                    (sample_labels(item@), true),
                ));
            }
            i += 1;
        }
        proof {
            assert(self@.take(i as int) =~= self@);
        }
        store
    }

    /// Renders the entries as a metrics document: one sample line for each
    /// entry, in order, with metric names prefixed by `namespace` if there
    /// is one.
    pub fn project(&self, namespace: Option<&str>) -> (text: String)
        ensures
            text@ == projection(self@, namespace_view(namespace)),
    {
        self.into_metric_store().render(namespace)
    }
}

} // verus!
