//! The lookup service behind the HTTP endpoints: what a request for one
//! address records and returns, and the metrics document of what has been
//! recorded.
//!
//! Parsing the address and asking the geolocation database happen outside;
//! their outcome is a [`GeoAnswer`].

use vstd::prelude::*;
use crate::cache::{listing_is_unique, listing_of, lists, LookupCache};
use crate::metrics::{projection, MetricsData};
use crate::model::{entry_for, text_view, City, CityView, LookupEntry, LookupEntryView};
use crate::store::namespace_view;

verus! {

/// Why a lookup gave no entry.
#[derive(Debug, PartialEq, Eq)]
pub enum Error {
    /// The text is no IPv4 or IPv6 address. Holds the text.
    InvalidAddress(String),
    /// The database knows the address but not both of its coordinates.
    /// Holds the address.
    LocationUnavailable(String),
    /// The database failed. Holds its description of the failure.
    BackendLookupFailed(String),
}

pub enum ErrorView {
    InvalidAddress(Seq<char>),
    LocationUnavailable(Seq<char>),
    BackendLookupFailed(Seq<char>),
}

impl View for Error {
    type V = ErrorView;

    open spec fn view(&self) -> ErrorView {
        match self {
            Error::InvalidAddress(text) => ErrorView::InvalidAddress(text@),
            Error::LocationUnavailable(ip) => ErrorView::LocationUnavailable(ip@),
            Error::BackendLookupFailed(why) => ErrorView::BackendLookupFailed(why@),
        }
    }
}

impl Clone for Error {
    fn clone(&self) -> (copy: Self)
        ensures
            copy@ == self@,
    {
        match self {
            Error::InvalidAddress(text) => Error::InvalidAddress(text.clone()),
            Error::LocationUnavailable(ip) => Error::LocationUnavailable(ip.clone()),
            Error::BackendLookupFailed(why) => Error::BackendLookupFailed(why.clone()),
        }
    }
}

/// The description of an error: what kind it is, then what it holds.
pub open spec fn description(error: ErrorView) -> Seq<char> {
    match error {
        ErrorView::InvalidAddress(text) => "invalid IP address: "@ + text,
        ErrorView::LocationUnavailable(ip) => "no location known for "@ + ip,
        ErrorView::BackendLookupFailed(why) => "geolocation lookup failed: "@ + why,
    }
}

impl Error {
    /// A line of text that says what went wrong.
    pub fn message(&self) -> (text: String)
        ensures
            text@ == description(self@),
    {
        match self {
            Error::InvalidAddress(text) => String::from_str("invalid IP address: ").concat(
                text.as_str(),
            ),
            Error::LocationUnavailable(ip) => String::from_str("no location known for ").concat(
                ip.as_str(),
            ),
            Error::BackendLookupFailed(why) => String::from_str(
                "geolocation lookup failed: ",
            ).concat(why.as_str()),
        }
    }
}

/// What the address parser and the geolocation database made of one address
/// text.
#[derive(Debug, PartialEq, Eq)]
pub enum GeoAnswer {
    /// The text did not parse as an IPv4 or IPv6 address; the database was
    /// not asked.
    NotAnAddress,
    /// The database failed, and described the failure so.
    Failed(String),
    /// The database answered with this record.
    Found(City),
}

pub enum GeoAnswerView {
    NotAnAddress,
    Failed(Seq<char>),
    Found(CityView),
}

impl View for GeoAnswer {
    type V = GeoAnswerView;

    open spec fn view(&self) -> GeoAnswerView {
        match self {
            GeoAnswer::NotAnAddress => GeoAnswerView::NotAnAddress,
            GeoAnswer::Failed(why) => GeoAnswerView::Failed(why@),
            GeoAnswer::Found(city) => GeoAnswerView::Found(city@),
        }
    }
}

/// What a lookup of `ip` returns when the outside world answered `answer`.
pub open spec fn resolution(ip: Seq<char>, answer: GeoAnswerView) -> Result<
    LookupEntryView,
    ErrorView,
> {
    match answer {
        GeoAnswerView::NotAnAddress => Err(ErrorView::InvalidAddress(ip)),
        GeoAnswerView::Failed(why) => Err(ErrorView::BackendLookupFailed(why)),
        GeoAnswerView::Found(city) => match entry_for(ip, city) {
            Some(entry) => Ok(entry),
            None => Err(ErrorView::LocationUnavailable(ip)),
        },
    }
}

/// The cache after that lookup: a resolved entry is recorded under the
/// address text as it was written, in place of any earlier entry for the
/// same text; a failed lookup records nothing.
pub open spec fn recorded(
    cache: Map<Seq<char>, LookupEntryView>,
    ip: Seq<char>,
    answer: GeoAnswerView,
) -> Map<Seq<char>, LookupEntryView> {
    match resolution(ip, answer) {
        Ok(entry) => cache.insert(ip, entry),
        Err(_) => cache,
    }
}

/// The cache after a run of lookups, taken in order.
pub open spec fn recorded_all(
    cache: Map<Seq<char>, LookupEntryView>,
    lookups: Seq<(Seq<char>, GeoAnswerView)>,
) -> Map<Seq<char>, LookupEntryView>
    decreases lookups.len(),
{
    if lookups.len() == 0 {
        cache
    } else {
        recorded(recorded_all(cache, lookups.drop_last()), lookups.last().0, lookups.last().1)
    }
}

/// No two of the lookups ask for the same address text.
pub open spec fn distinct_addresses(lookups: Seq<(Seq<char>, GeoAnswerView)>) -> bool {
    forall|i: int, j: int| 0 <= i < j < lookups.len() ==> lookups[i].0 != lookups[j].0
}

/// Every one of the lookups resolves.
pub open spec fn all_resolve(lookups: Seq<(Seq<char>, GeoAnswerView)>) -> bool {
    forall|i: int|
        0 <= i < lookups.len() ==> (#[trigger] resolution(lookups[i].0, lookups[i].1)) is Ok
}

/// A lookup that fails leaves the cache as it was. A text that is no
/// address is refused as an invalid address, whatever the cache holds.
pub proof fn failed_lookup_records_nothing(
    cache: Map<Seq<char>, LookupEntryView>,
    ip: Seq<char>,
    answer: GeoAnswerView,
)
    ensures
        resolution(ip, answer) is Err ==> recorded(cache, ip, answer) == cache,
        resolution(ip, GeoAnswerView::NotAnAddress) == Err::<LookupEntryView, ErrorView>(
            ErrorView::InvalidAddress(ip),
        ),
        recorded(cache, ip, GeoAnswerView::NotAnAddress) == cache,
{
}

/// A lookup that resolves is recorded under the address text as written,
/// and the same lookup made again changes nothing more: the cache keeps one
/// entry under that text, the one that both lookups returned.
pub proof fn same_lookup_twice(
    cache: Map<Seq<char>, LookupEntryView>,
    ip: Seq<char>,
    answer: GeoAnswerView,
)
    ensures
        recorded(recorded(cache, ip, answer), ip, answer) == recorded(cache, ip, answer),
        resolution(ip, answer) matches Ok(entry) ==> {
            &&& recorded(cache, ip, answer).contains_key(ip)
            &&& recorded(cache, ip, answer)[ip] == entry
            &&& entry.ip_str == ip
        },
{
    assert(recorded(recorded(cache, ip, answer), ip, answer) =~= recorded(cache, ip, answer));
}

/// Of two resolved lookups of the same address text only the later one
/// shows: the cache, and so its listing, is what the later lookup alone
/// would have left.
pub proof fn last_lookup_wins(
    cache: Map<Seq<char>, LookupEntryView>,
    ip: Seq<char>,
    first: GeoAnswerView,
    second: GeoAnswerView,
)
    requires
        resolution(ip, second) is Ok,
    ensures
        recorded(recorded(cache, ip, first), ip, second) == recorded(cache, ip, second),
        listing_of(recorded(recorded(cache, ip, first), ip, second)) == listing_of(
            recorded(cache, ip, second),
        ),
        resolution(ip, second) == Ok::<LookupEntryView, ErrorView>(
            recorded(recorded(cache, ip, first), ip, second)[ip],
        ),
{
    assert(recorded(recorded(cache, ip, first), ip, second) =~= recorded(cache, ip, second));
}

/// Lookups of distinct address texts that all resolve do not disturb one
/// another: afterwards the cache holds what it held, and for each lookup the
/// entry that it returned.
pub proof fn distinct_lookups_all_recorded(
    cache: Map<Seq<char>, LookupEntryView>,
    lookups: Seq<(Seq<char>, GeoAnswerView)>,
)
    requires
        distinct_addresses(lookups),
        all_resolve(lookups),
    ensures
        forall|i: int|
            0 <= i < lookups.len() ==> {
                &&& recorded_all(cache, lookups).contains_key(#[trigger] lookups[i].0)
                &&& resolution(lookups[i].0, lookups[i].1) == Ok::<LookupEntryView, ErrorView>(
                    recorded_all(cache, lookups)[lookups[i].0],
                )
            },
        forall|key: Seq<char>| #[trigger]
            recorded_all(cache, lookups).contains_key(key) <==> cache.contains_key(key) || exists|
                i: int,
            |
                0 <= i < lookups.len() && #[trigger] lookups[i].0 == key,
        forall|key: Seq<char>|
            cache.contains_key(key) && !(exists|i: int|
                0 <= i < lookups.len() && #[trigger] lookups[i].0 == key) ==> #[trigger] recorded_all(
                cache,
                lookups,
            )[key] == cache[key],
    decreases lookups.len(),
{
    if lookups.len() > 0 {
        let front = lookups.drop_last();
        let last = lookups.last();
        let n = lookups.len() - 1;
        assert(distinct_addresses(front)) by {
            assert forall|i: int, j: int| 0 <= i < j < front.len() implies front[i].0
                != front[j].0 by {
                assert(lookups[i].0 != lookups[j].0);
            }
        }
        assert(all_resolve(front)) by {
            assert forall|i: int| 0 <= i < front.len() implies (#[trigger] resolution(
                front[i].0,
                front[i].1,
            )) is Ok by {
                assert(resolution(lookups[i].0, lookups[i].1) is Ok);
            }
        }
        distinct_lookups_all_recorded(cache, front);
        let before = recorded_all(cache, front);
        let after = recorded_all(cache, lookups);
        assert(resolution(lookups[n].0, lookups[n].1) is Ok);
        let entry = resolution(last.0, last.1)->Ok_0;
        assert(after == before.insert(last.0, entry));
        assert forall|i: int| 0 <= i < lookups.len() implies {
            &&& after.contains_key(#[trigger] lookups[i].0)
            &&& resolution(lookups[i].0, lookups[i].1) == Ok::<LookupEntryView, ErrorView>(
                after[lookups[i].0],
            )
        } by {
            if i < n {
                assert(lookups[i].0 != lookups[n].0);
                assert(front[i] == lookups[i]);
                assert(before.contains_key(front[i].0));
            }
        }
        assert forall|key: Seq<char>| #[trigger]
            after.contains_key(key) <==> cache.contains_key(key) || exists|i: int|
                0 <= i < lookups.len() && #[trigger] lookups[i].0 == key by {
            if before.contains_key(key) && !cache.contains_key(key) {
                let i = choose|i: int| 0 <= i < front.len() && #[trigger] front[i].0 == key;
                assert(lookups[i].0 == key);
            }
            if key == last.0 {
                assert(lookups[n].0 == key);
            }
            if exists|i: int| 0 <= i < lookups.len() && #[trigger] lookups[i].0 == key {
                let i = choose|i: int| 0 <= i < lookups.len() && #[trigger] lookups[i].0 == key;
                if i < n {
                    assert(front[i].0 == key);
                }
            }
        }
        assert forall|key: Seq<char>|
            cache.contains_key(key) && !(exists|i: int|
                0 <= i < lookups.len() && #[trigger] lookups[i].0 == key) implies #[trigger] after[key]
            == cache[key] by {
            assert(lookups[n].0 != key);
            if exists|i: int| 0 <= i < front.len() && #[trigger] front[i].0 == key {
                let i = choose|i: int| 0 <= i < front.len() && #[trigger] front[i].0 == key;
                assert(lookups[i].0 == key);
            }
        }
    }
}

/// Started on an empty cache, lookups of distinct address texts that all
/// resolve leave exactly one entry for each of them.
pub proof fn distinct_lookups_counted(lookups: Seq<(Seq<char>, GeoAnswerView)>)
    requires
        distinct_addresses(lookups),
        all_resolve(lookups),
    ensures
        recorded_all(Map::empty(), lookups).dom().finite(),
        recorded_all(Map::empty(), lookups).len() == lookups.len(),
    decreases lookups.len(),
{
    let empty = Map::<Seq<char>, LookupEntryView>::empty();
    if lookups.len() > 0 {
        let front = lookups.drop_last();
        let last = lookups.last();
        let n = lookups.len() - 1;
        assert(distinct_addresses(front)) by {
            assert forall|i: int, j: int| 0 <= i < j < front.len() implies front[i].0
                != front[j].0 by {
                assert(lookups[i].0 != lookups[j].0);
            }
        }
        assert(all_resolve(front)) by {
            assert forall|i: int| 0 <= i < front.len() implies (#[trigger] resolution(
                front[i].0,
                front[i].1,
            )) is Ok by {
                assert(resolution(lookups[i].0, lookups[i].1) is Ok);
            }
        }
        distinct_lookups_counted(front);
        distinct_lookups_all_recorded(empty, front);
        let before = recorded_all(empty, front);
        assert(resolution(lookups[n].0, lookups[n].1) is Ok);
        let entry = resolution(last.0, last.1)->Ok_0;
        assert(recorded_all(empty, lookups) == before.insert(last.0, entry));
        if before.contains_key(last.0) {
            let i = choose|i: int| 0 <= i < front.len() && #[trigger] front[i].0 == last.0;
            assert(lookups[i].0 != lookups[n].0);
        }
        assert(before.insert(last.0, entry).dom() =~= before.dom().insert(last.0));
    }
}

/// The order in which lookups of distinct address texts take effect does
/// not show in the cache.
pub proof fn order_of_distinct_lookups_is_immaterial(
    cache: Map<Seq<char>, LookupEntryView>,
    one: Seq<(Seq<char>, GeoAnswerView)>,
    other: Seq<(Seq<char>, GeoAnswerView)>,
)
    requires
        distinct_addresses(one),
        all_resolve(one),
        distinct_addresses(other),
        all_resolve(other),
        forall|i: int| 0 <= i < one.len() ==> other.contains(#[trigger] one[i]),
        forall|i: int| 0 <= i < other.len() ==> one.contains(#[trigger] other[i]),
    ensures
        recorded_all(cache, one) == recorded_all(cache, other),
{
    distinct_lookups_all_recorded(cache, one);
    distinct_lookups_all_recorded(cache, other);
    let a = recorded_all(cache, one);
    let b = recorded_all(cache, other);
    assert forall|key: Seq<char>| a.contains_key(key) <==> b.contains_key(key) by {
        if exists|i: int| 0 <= i < one.len() && #[trigger] one[i].0 == key {
            let i = choose|i: int| 0 <= i < one.len() && #[trigger] one[i].0 == key;
            assert(other.contains(one[i]));
            let j = choose|j: int| 0 <= j < other.len() && other[j] == one[i];
            assert(other[j].0 == key);
        }
        if exists|i: int| 0 <= i < other.len() && #[trigger] other[i].0 == key {
            let i = choose|i: int| 0 <= i < other.len() && #[trigger] other[i].0 == key;
            assert(one.contains(other[i]));
            let j = choose|j: int| 0 <= j < one.len() && one[j] == other[i];
            assert(one[j].0 == key);
        }
    }
    assert forall|key: Seq<char>| a.contains_key(key) implies a[key] == b[key] by {
        if exists|i: int| 0 <= i < one.len() && #[trigger] one[i].0 == key {
            let i = choose|i: int| 0 <= i < one.len() && #[trigger] one[i].0 == key;
            assert(other.contains(one[i]));
            let j = choose|j: int| 0 <= j < other.len() && other[j] == one[i];
            assert(other[j].0 == key);
            assert(a.contains_key(one[i].0));
            assert(b.contains_key(other[j].0));
        } else {
            if exists|j: int| 0 <= j < other.len() && #[trigger] other[j].0 == key {
                let j = choose|j: int| 0 <= j < other.len() && #[trigger] other[j].0 == key;
                assert(one.contains(other[j]));
                let i = choose|i: int| 0 <= i < one.len() && one[i] == other[j];
                assert(one[i].0 == key);
            }
        }
    }
    assert(a =~= b);
}

/// The metrics document depends on what the cache maps, not on how it came
/// to map it: whatever lists the same mapping in key order projects to the
/// same text.
pub proof fn projection_is_determined(
    one: Seq<LookupEntryView>,
    other: Seq<LookupEntryView>,
    cache: Map<Seq<char>, LookupEntryView>,
    namespace: Option<Seq<char>>,
)
    requires
        lists(one, cache),
        lists(other, cache),
    ensures
        one == other,
        projection(one, namespace) == projection(other, namespace),
        projection(one, namespace) == projection(listing_of(cache), namespace),
{
    listing_is_unique(one, other, cache);
    listing_is_unique(one, listing_of(cache), cache);
}

/// The state that the endpoints share: the namespace of the metrics, and
/// every lookup resolved so far.
#[derive(Debug)]
pub struct AppContext {
    pub namespace: Option<String>,
    pub looked_up: LookupCache,
}

impl AppContext {
    /// A context with an empty cache.
    pub fn new(namespace: Option<&str>) -> (context: Self)
        ensures
            text_view(context.namespace) == namespace_view(namespace),
            context.looked_up@ == Map::<Seq<char>, LookupEntryView>::empty(),
    {
        let namespace = match namespace {
            Some(text) => Some(text.to_owned()),
            None => None,
        };
        AppContext { namespace, looked_up: LookupCache::new() }
    }

    /// Resolves one lookup of the address text `ip`, given what the parser
    /// and the database answered for it. Only a resolved entry changes the
    /// cache.
    pub fn lookup_ip(&mut self, ip: &str, answer: GeoAnswer) -> (result: Result<
        LookupEntry,
        Error,
    >)
        ensures
            match result {
                Ok(entry) => resolution(ip@, answer@) == Ok::<LookupEntryView, ErrorView>(entry@),
                Err(error) => resolution(ip@, answer@) == Err::<LookupEntryView, ErrorView>(
                    error@,
                ),
            },
            final(self).looked_up@ == recorded(old(self).looked_up@, ip@, answer@),
            final(self).namespace == old(self).namespace,
    {
        match answer {
            GeoAnswer::NotAnAddress => Err(Error::InvalidAddress(ip.to_owned())),
            GeoAnswer::Failed(why) => Err(Error::BackendLookupFailed(why)),
            GeoAnswer::Found(city) => match LookupEntry::from_city(ip, city) {
                Some(entry) => {
                    self.looked_up.insert(entry.clone());
                    Ok(entry)
                },
                None => Err(Error::LocationUnavailable(ip.to_owned())),
            },
        }
    }

    /// A copy of every cached entry, in key order.
    pub fn snapshot(&self) -> (data: MetricsData)
        ensures
            lists(data@, self.looked_up@),
            data@ == listing_of(self.looked_up@),
    {
        MetricsData { looked_up: self.looked_up.snapshot() }
    }
}

/// The metrics document of a context: its cache, listed in key order and
/// projected under its namespace.
pub fn metrics(app_context: &AppContext) -> (text: String)
    ensures
        text@ == projection(
            listing_of(app_context.looked_up@),
            text_view(app_context.namespace),
        ),
{
    let data = app_context.snapshot();
    match &app_context.namespace {
        Some(namespace) => data.project(Some(namespace.as_str())),
        None => data.project(None),
    }
}

} // verus!
