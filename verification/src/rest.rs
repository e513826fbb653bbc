//! What the HTTP handlers of the products read from a request and answer.
//!
//! A caller names a product by its path and sends small bodies; keyspaces,
//! groups and partitions stay inside. Values are text on the wire and stored
//! as they come.

use crate::api::ApiError;
use crate::error::MessagingError;
use crate::feature::{feature_names, FeatureSet};
use crate::log::{entries, since};
use crate::node::NodeError;
use crate::profile::{listed_keys, Profile, Setting};
use crate::queue::QueueMessage;
use crate::stream::{offsets_file, record_views, OffsetsWrite, Stream, StreamRecord};
use crate::text::{concat3, is_blank, lossy, lossy_text, numeral, parse_numeral, same, views};
use vstd::prelude::*;
use vstd::string::StringExecFns;

verus! {

/// The keyspace of the cache.
pub const CACHE_KEYSPACE: &'static str = "cache";

/// The keyspace of the key-value store.
pub const KV_KEYSPACE: &'static str = "default";

/// The topic of publish/subscribe.
pub const TOPIC: &'static str = "events";

/// The queue of the work queue.
pub const QUEUE: &'static str = "jobs";

/// The stream of the event stream.
pub const STREAM: &'static str = "events";

/// The consumer group of callers that name none.
pub const GROUP: &'static str = "default";

/// A write to the cache or the store.
#[derive(Clone, Debug)]
pub struct KvWrite {
    pub key: String,
    pub value: String,
    /// Seconds to live; `None` leaves it to the keyspace.
    pub ttl: Option<u64>,
}

#[derive(Clone, Debug)]
pub struct ValueOnly {
    pub value: String,
}

#[derive(Clone, Debug)]
pub struct KeyedValue {
    pub key: String,
    pub value: String,
}

#[derive(Clone, Copy, Debug)]
pub struct AckBody {
    pub id: u64,
}

/// The answer of a request that returns nothing else.
#[derive(Clone, Copy, Debug)]
pub struct OkBody {
    pub ok: bool,
}

#[derive(Clone, Debug)]
pub struct ValueResponse {
    pub value: String,
}

#[derive(Clone, Debug)]
pub struct Item {
    pub key: String,
    pub value: String,
}

impl View for Item {
    type V = (Seq<char>, Seq<char>);

    open spec fn view(&self) -> (Seq<char>, Seq<char>) {
        (self.key@, self.value@)
    }
}

pub open spec fn item_views(v: Seq<Item>) -> Seq<(Seq<char>, Seq<char>)> {
    v.map_values(|i: Item| i@)
}

#[derive(Clone, Debug)]
pub struct Items {
    pub items: Vec<Item>,
}

#[derive(Clone, Debug)]
pub struct Dequeued {
    pub id: u64,
    pub value: String,
}

#[derive(Clone, Copy, Debug)]
pub struct OffsetResponse {
    pub offset: u64,
}

#[derive(Clone, Debug)]
pub struct PopResponse {
    pub offset: u64,
    pub payload: String,
}

#[derive(Clone, Debug)]
pub struct AppendResponse {
    pub stream: String,
    pub partition: usize,
    pub offset: u64,
}

#[derive(Clone, Debug)]
pub struct StreamRecordJson {
    pub partition: usize,
    pub offset: u64,
    pub payload: String,
}

#[derive(Clone, Debug)]
pub struct PollResponse {
    pub stream: String,
    pub group: String,
    pub partition: usize,
    pub records: Vec<StreamRecordJson>,
}

#[derive(Clone, Debug)]
pub struct CommitResponse {
    pub stream: String,
    pub group: String,
    pub partition: usize,
    pub committed: u64,
}

#[derive(Clone, Debug)]
pub struct StreamInfo {
    pub name: String,
    pub partitions: usize,
}

/// The value of a query parameter; of several with one name the last.
pub open spec fn param_value(params: Seq<(String, String)>, name: Seq<char>) -> Option<Seq<char>>
    decreases params.len(),
{
    if params.len() == 0 {
        None
    } else if params.last().0@ == name {
        Some(params.last().1@)
    } else {
        param_value(params.drop_last(), name)
    }
}

pub fn param(params: &Vec<(String, String)>, name: &str) -> (r: Option<String>)
    ensures
        match r {
            Some(v) => param_value(params@, name@) == Some(v@),
            None => param_value(params@, name@) is None,
        },
{
    let mut n: usize = params.len();
    assert(params@.take(n as int) =~= params@);
    while n > 0
        invariant
            n <= params.len(),
            param_value(params@, name@) == param_value(params@.take(n as int), name@),
        decreases n,
    {
        let ghost upto = params@.take(n as int);
        assert(upto.last() == params@[n - 1]);
        assert(upto.drop_last() =~= params@.take(n - 1));
        if same(params[n - 1].0.as_str(), name) {
            return Some(params[n - 1].1.clone());
        }
        n = n - 1;
    }
    None
}

/// Whether `r` is a refusal with the given text.
pub open spec fn is_bad_request<T>(r: Result<T, ApiError>, text: Seq<char>) -> bool {
    r matches Err(ApiError::BadRequest(m)) && m@ == text
}

/// Whether `r` is an internal error with the given text.
pub open spec fn is_internal<T>(r: Result<T, ApiError>, text: Seq<char>) -> bool {
    r matches Err(ApiError::Internal(m)) && m@ == text
}

/// The key that a read or a deletion names.
pub fn key_param(params: &Vec<(String, String)>) -> (r: Result<String, ApiError>)
    ensures
        match param_value(params@, "key"@) {
            Some(v) => if v.len() > 0 {
                r matches Ok(k) && k@ == v
            } else {
                is_bad_request(r, "missing ?key="@)
            },
            None => is_bad_request(r, "missing ?key="@),
        },
{
    match param(params, "key") {
        Some(k) => if is_blank(&k) {
            Err(ApiError::BadRequest("missing ?key=".to_owned()))
        } else {
            Ok(k)
        },
        None => Err(ApiError::BadRequest("missing ?key=".to_owned())),
    }
}

/// The prefix that a scan names; the empty one where it names none.
pub fn prefix_param(params: &Vec<(String, String)>) -> (p: String)
    ensures
        match param_value(params@, "prefix"@) {
            Some(v) => p@ == v,
            None => p@.len() == 0,
        },
{
    match param(params, "prefix") {
        Some(v) => v,
        None => String::new(),
    }
}

/// The consumer group of a queue request; the default one where it names
/// none.
pub fn group_or_default(params: &Vec<(String, String)>) -> (g: String)
    ensures
        match param_value(params@, "group"@) {
            Some(v) => g@ == v,
            None => g@ == "default"@,
        },
{
    match param(params, "group") {
        Some(v) => v,
        None => "default".to_owned(),
    }
}

/// The consumer group that a stream request has to name.
pub fn group_param(params: &Vec<(String, String)>) -> (r: Result<String, ApiError>)
    ensures
        match param_value(params@, "group"@) {
            Some(v) => r matches Ok(g) && g@ == v,
            None => is_bad_request(r, "missing ?group="@),
        },
{
    match param(params, "group") {
        Some(v) => Ok(v),
        None => Err(ApiError::BadRequest("missing ?group=".to_owned())),
    }
}

/// A parameter read as a number no larger than `max`.
pub open spec fn number_param(params: Seq<(String, String)>, name: Seq<char>, max: nat) -> Option<nat> {
    match param_value(params, name) {
        Some(v) => numeral(v, max),
        None => None,
    }
}

/// The offset that a request has to name.
pub fn offset_param(params: &Vec<(String, String)>) -> (r: Result<u64, ApiError>)
    ensures
        match number_param(params@, "offset"@, u64::MAX as nat) {
            Some(n) => r matches Ok(o) && o == n,
            None => is_bad_request(r, "missing/invalid ?offset="@),
        },
{
    let found = match param(params, "offset") {
        Some(v) => parse_numeral(v.as_str(), u64::MAX),
        None => None,
    };
    match found {
        Some(n) => Ok(n),
        None => Err(ApiError::BadRequest("missing/invalid ?offset=".to_owned())),
    }
}

/// The partition that a request has to name.
pub fn parse_partition(params: &Vec<(String, String)>) -> (r: Result<usize, ApiError>)
    ensures
        match number_param(params@, "partition"@, usize::MAX as nat) {
            Some(n) => r matches Ok(p) && p == n,
            None => is_bad_request(r, "missing/invalid ?partition="@),
        },
{
    let found = match param(params, "partition") {
        Some(v) => parse_numeral(v.as_str(), usize::MAX as u64),
        None => None,
    };
    match found {
        Some(n) => Ok(n as usize),
        None => Err(ApiError::BadRequest("missing/invalid ?partition=".to_owned())),
    }
}

/// The routing key of a stream append; the empty one where it names none.
pub fn stream_key(params: &Vec<(String, String)>) -> (k: String)
    ensures
        match param_value(params@, "key"@) {
            Some(v) => k@ == v,
            None => k@.len() == 0,
        },
{
    match param(params, "key") {
        Some(v) => v,
        None => String::new(),
    }
}

/// A counter of the request metrics.
#[derive(Clone, Copy, Debug, PartialEq, Eq, Structural)]
pub enum Counter {
    GetHit,
    GetMiss,
    Error,
}

/// The counter that the outcome of a read moves. A keyspace that is not there
/// moves none.
pub fn read_counter(outcome: &Result<Option<Vec<u8>>, NodeError>) -> (c: Option<Counter>)
    ensures
        c == match *outcome {
            Ok(Some(_)) => Some(Counter::GetHit),
            Ok(None) => Some(Counter::GetMiss),
            Err(NodeError::UnknownKeyspace(_)) => None,
            Err(_) => Some(Counter::Error),
        },
{
    match outcome {
        Ok(Some(_)) => Some(Counter::GetHit),
        Ok(None) => Some(Counter::GetMiss),
        Err(NodeError::UnknownKeyspace(_)) => None,
        Err(_) => Some(Counter::Error),
    }
}

/// The answer to a write or a deletion.
pub fn write_reply(outcome: Result<u64, NodeError>) -> (r: Result<OkBody, ApiError>)
    ensures
        match outcome {
            Ok(_) => r == Ok::<OkBody, ApiError>(OkBody { ok: true }),
            Err(e) => r matches Err(a) && a.reports(e),
        },
{
    match outcome {
        Ok(_) => Ok(OkBody { ok: true }),
        Err(e) => Err(ApiError::from_node(e)),
    }
}

/// The answer to a read.
pub fn read_reply(outcome: Result<Option<Vec<u8>>, NodeError>) -> (r: Result<
    ValueResponse,
    ApiError,
>)
    ensures
        match outcome {
            Ok(Some(v)) => r matches Ok(a) && a.value@ == lossy_text(v@),
            Ok(None) => r matches Err(ApiError::NotFound),
            Err(e) => r matches Err(a) && a.reports(e),
        },
{
    match outcome {
        Ok(Some(v)) => Ok(ValueResponse { value: lossy(v.as_slice()) }),
        Ok(None) => Err(ApiError::NotFound),
        Err(e) => Err(ApiError::from_node(e)),
    }
}

/// The answer to a scan: the found keys and values as text, in order.
pub fn scan_reply(outcome: Result<Vec<(Vec<u8>, Vec<u8>)>, NodeError>) -> (r: Result<
    Items,
    ApiError,
>)
    ensures
        match outcome {
            Ok(found) => r matches Ok(a) && item_views(a.items@) == found@.map_values(
                |p: (Vec<u8>, Vec<u8>)| (lossy_text(p.0@), lossy_text(p.1@)),
            ),
            Err(e) => r matches Err(a) && a.reports(e),
        },
{
    match outcome {
        Ok(found) => {
            let mut items: Vec<Item> = Vec::new();
            let mut i: usize = 0;
            while i < found.len()
                invariant
                    i <= found.len(),
                    items@.len() == i,
                    forall|j: int|
                        0 <= j < i ==> (#[trigger] items@[j])@ == (
                            lossy_text(found@[j].0@),
                            lossy_text(found@[j].1@),
                        ),
                decreases found.len() - i,
            {
                items.push(
                    Item {
                        key: lossy(found[i].0.as_slice()),
                        value: lossy(found[i].1.as_slice()),
                    },
                );
                i = i + 1;
            }
            assert(item_views(items@) =~= found@.map_values(
                |p: (Vec<u8>, Vec<u8>)| (lossy_text(p.0@), lossy_text(p.1@)),
            ));
            Ok(Items { items })
        },
        Err(e) => Err(ApiError::from_node(e)),
    }
}

/// The error of a request to a product that is not installed.
pub fn not_installed(product: &str) -> (e: ApiError)
    ensures
        e matches ApiError::Internal(m) && m@ == product@ + " not installed"@,
{
    ApiError::Internal(product.to_owned().concat(" not installed"))
}

/// The error of a request that names a topic, queue or stream that is not
/// there.
pub fn unknown_resource(sort: &str, name: &str) -> (e: ApiError)
    ensures
        e matches ApiError::UnknownKeyspace(m) && m@ == sort@ + " '"@ + name@ + "'"@,
{
    let mut m = concat3(sort, " '", name);
    m.push('\'');
    proof {
        reveal_strlit("'");
        assert(m@ =~= sort@ + " '"@ + name@ + "'"@);
    }
    ApiError::UnknownKeyspace(m)
}

/// The answer to a publish, a push or an acknowledgement.
pub fn offset_reply(outcome: Result<u64, MessagingError>) -> (r: Result<OffsetResponse, ApiError>)
    ensures
        match outcome {
            Ok(o) => r matches Ok(a) && a.offset == o,
            Err(e) => is_internal(r, e.text()),
        },
{
    match outcome {
        Ok(offset) => Ok(OffsetResponse { offset }),
        Err(e) => Err(ApiError::Internal(e.message())),
    }
}

/// The answer to taking a job from the queue; `None` is an empty answer.
pub fn dequeue_reply(outcome: Result<Option<QueueMessage>, MessagingError>) -> (r: Result<
    Option<Dequeued>,
    ApiError,
>)
    ensures
        match outcome {
            Ok(Some(m)) => r matches Ok(Some(d)) && d.id == m.offset && d.value@ == lossy_text(
                m.payload@,
            ),
            Ok(None) => r matches Ok(None),
            Err(e) => is_internal(r, e.text()),
        },
{
    match outcome {
        Ok(Some(m)) => Ok(
            Some(Dequeued { id: m.offset, value: lossy(m.payload.as_slice()) }),
        ),
        Ok(None) => Ok(None),
        Err(e) => Err(ApiError::Internal(e.message())),
    }
}

/// The answer to a pop by name; `None` is an empty answer.
pub fn pop_reply(outcome: Result<Option<QueueMessage>, MessagingError>) -> (r: Result<
    Option<PopResponse>,
    ApiError,
>)
    ensures
        match outcome {
            Ok(Some(m)) => r matches Ok(Some(p)) && p.offset == m.offset && p.payload@
                == lossy_text(m.payload@),
            Ok(None) => r matches Ok(None),
            Err(e) => is_internal(r, e.text()),
        },
{
    match outcome {
        Ok(Some(m)) => Ok(
            Some(PopResponse { offset: m.offset, payload: lossy(m.payload.as_slice()) }),
        ),
        Ok(None) => Ok(None),
        Err(e) => Err(ApiError::Internal(e.message())),
    }
}

/// The answer to an append to a stream.
pub fn append_reply(
    stream: String,
    partition: usize,
    outcome: Result<u64, MessagingError>,
) -> (r: Result<AppendResponse, ApiError>)
    ensures
        match outcome {
            Ok(o) => r matches Ok(a) && a.stream@ == stream@ && a.partition == partition
                && a.offset == o,
            Err(e) => is_internal(r, e.text()),
        },
{
    match outcome {
        Ok(offset) => Ok(AppendResponse { stream, partition, offset }),
        Err(e) => Err(ApiError::Internal(e.message())),
    }
}

/// The answer to a poll of a stream.
pub fn poll_reply(
    stream: String,
    group: String,
    partition: usize,
    outcome: Result<Vec<StreamRecord>, MessagingError>,
) -> (r: Result<PollResponse, ApiError>)
    ensures
        match outcome {
            Ok(v) => {
                &&& r matches Ok(a) && a.stream@ == stream@ && a.group@ == group@ && a.partition
                    == partition && a.records@.len() == v@.len() && forall|i: int|
                    0 <= i < v@.len() ==> {
                        &&& (#[trigger] a.records@[i]).partition == v@[i].partition
                        &&& a.records@[i].offset == v@[i].offset
                        &&& a.records@[i].payload@ == lossy_text(v@[i]@.2)
                    }
            },
            Err(e) => is_internal(r, e.text()),
        },
{
    match outcome {
        Ok(v) => {
            let mut records: Vec<StreamRecordJson> = Vec::new();
            let mut i: usize = 0;
            while i < v.len()
                invariant
                    i <= v.len(),
                    records@.len() == i,
                    forall|j: int|
                        0 <= j < i ==> {
                            &&& (#[trigger] records@[j]).partition == v@[j].partition
                            &&& records@[j].offset == v@[j].offset
                            &&& records@[j].payload@ == lossy_text(v@[j]@.2)
                        },
                decreases v.len() - i,
            {
                records.push(
                    StreamRecordJson {
                        partition: v[i].partition,
                        offset: v[i].offset,
                        payload: lossy(v[i].payload.as_slice()),
                    },
                );
                i = i + 1;
            }
            Ok(PollResponse { stream, group, partition, records })
        },
        Err(e) => Err(ApiError::Internal(e.message())),
    }
}

/// The answer to a commit.
pub fn commit_reply(
    stream: String,
    group: String,
    partition: usize,
    offset: u64,
    outcome: Result<(), MessagingError>,
) -> (r: Result<CommitResponse, ApiError>)
    ensures
        match outcome {
            Ok(()) => r matches Ok(a) && a.stream@ == stream@ && a.group@ == group@ && a.partition
                == partition && a.committed == offset,
            Err(e) => is_internal(r, e.text()),
        },
{
    match outcome {
        Ok(()) => Ok(CommitResponse { stream, group, partition, committed: offset }),
        Err(e) => Err(ApiError::Internal(e.message())),
    }
}

/// The answer to a question about a stream.
pub fn stream_info(name: String, stream: &Stream) -> (i: StreamInfo)
    ensures
        i.name@ == name@,
        i.partitions == stream@.logs.len(),
{
    StreamInfo { name, partitions: stream.partition_count() }
}

/// Records as items without a key.
pub open spec fn keyless(es: Seq<crate::log::Entry>) -> Seq<(Seq<char>, Seq<char>)> {
    es.map_values(|e: crate::log::Entry| (Seq::<char>::empty(), lossy_text(e.payload)))
}

/// The records that the default group has not seen on a partition, given what
/// the partition's log file holds.
pub open spec fn unseen(
    s: crate::stream::StreamState,
    partition: usize,
    image: Seq<u8>,
) -> Seq<crate::log::Entry> {
    since(entries(image), (s.committed("default"@, partition) + 1) as u64)
}

/// Takes the next records of one partition for the default group and commits
/// them, so that the next call returns only newer ones. `image` is what the
/// partition's log file holds, or why it could not be read. Returns the items
/// and, where there are any, what is to be written to the group's offset
/// file.
pub fn stream_next(
    stream: &mut Stream,
    partition: usize,
    image: Result<Vec<u8>, String>,
) -> (r: Result<(Vec<Item>, Option<OffsetsWrite>), ApiError>)
    requires
        old(stream)@.wf(),
        partition < old(stream)@.logs.len(),
        old(stream)@.committed("default"@, partition) < u64::MAX,
    ensures
        final(stream)@.wf(),
        match image {
            Err(e) => is_internal(r, "io error: "@ + e@) && final(stream)@ == old(
                stream,
            )@.knowing("default"@),
            Ok(bytes) => {
                let es = unseen(old(stream)@, partition, bytes@);
                let after = if es.len() == 0 {
                    old(stream)@.knowing("default"@)
                } else {
                    old(stream)@.knowing("default"@).after_commit(
                        "default"@,
                        partition,
                        es.last().offset,
                    )
                };
                &&& final(stream)@ == after
                &&& r matches Ok(p) && item_views(p.0@) == keyless(es) && (p.1 is Some <==> es.len()
                    > 0) && (p.1 matches Some(w) ==> w.name@ == crate::stream::group_file_name(
                    "default"@,
                ) && w.bytes@ == offsets_file(after.cursor("default"@)))
            },
        },
{
    let ghost start = stream@;
    let polled = stream.poll("default", partition, image);
    assert(stream@.wf()) by {
        let t = start.knowing("default"@);
        assert forall|g: Seq<char>| #[trigger] t.groups.contains_key(g) implies t.groups[g].len()
            == t.logs.len() by {
            if g != "default"@ {
                assert(start.groups.contains_key(g));
            }
        }
    }
    let records = match polled {
        Ok(v) => v,
        Err(e) => {
            return Err(ApiError::Internal(e.message()));
        },
    };
    let ghost es = unseen(start, partition, image->Ok_0@);
    assert(record_views(records@).len() == es.len());
    let mut items: Vec<Item> = Vec::new();
    let mut i: usize = 0;
    while i < records.len()
        invariant
            i <= records.len(),
            record_views(records@) == crate::stream::as_records(partition, es),
            records@.len() == es.len(),
            items@.len() == i,
            forall|j: int|
                0 <= j < i ==> (#[trigger] items@[j])@ == (
                    Seq::<char>::empty(),
                    lossy_text(es[j].payload),
                ),
        decreases records.len() - i,
    {
        assert(record_views(records@)[i as int] == records@[i as int]@);
        assert(crate::stream::as_records(partition, es)[i as int] == (
            partition,
            es[i as int].offset,
            es[i as int].payload,
        ));
        let item = Item { key: String::new(), value: lossy(records[i].payload.as_slice()) };
        assert(item.key@ =~= Seq::<char>::empty());
        items.push(item);
        i = i + 1;
    }
    assert(item_views(items@) =~= keyless(es));
    if records.len() == 0 {
        return Ok((items, None));
    }
    let last: u64 = records[records.len() - 1].offset;
    assert(record_views(records@).last() == records@.last()@);
    match stream.commit("default", partition, last) {
        Ok(w) => Ok((items, Some(w))),
        Err(e) => Err(ApiError::Internal(e.message())),
    }
}

/// After the next records of a partition were taken, they are not among those
/// taken the time after.
pub proof fn law_taken_records_do_not_return(
    s: crate::stream::StreamState,
    partition: usize,
    es: Seq<crate::log::Entry>,
    i: int,
)
    requires
        s.wf(),
        partition < s.logs.len(),
        s.committed("default"@, partition) < es.last().offset,
        0 <= i < es.len(),
        forall|j: int| 0 <= j < es.len() ==> (#[trigger] es[j]).offset <= es.last().offset,
    ensures
        es[i].offset <= s.knowing("default"@).after_commit(
            "default"@,
            partition,
            es.last().offset,
        ).committed("default"@, partition),
{
    let t = s.knowing("default"@);
    assert(t.wf()) by {
        assert forall|g: Seq<char>| #[trigger] t.groups.contains_key(g) implies t.groups[g].len()
            == t.logs.len() by {
            if g != "default"@ {
                assert(s.groups.contains_key(g));
            }
        }
    }
    crate::stream::law_commit_is_monotonic(
        t,
        "default"@,
        partition,
        es.last().offset,
        "default"@,
        partition,
    );
}

/// A setting as the settings page shows it.
#[derive(Clone, Debug)]
pub struct ConfigEntry {
    pub key: &'static str,
    pub value: String,
}

/// What reading the settings answers.
#[derive(Debug)]
pub struct ConfigResponse {
    /// The installed products.
    pub products: Vec<String>,
    /// Every setting that can be changed.
    pub entries: Vec<ConfigEntry>,
}

/// The settings of a profile, on a node with given products.
pub fn get_config(products: &FeatureSet, profile: &Profile) -> (c: ConfigResponse)
    ensures
        views(c.products@) == feature_names(products@),
        c.entries@.len() == listed_keys().len(),
        forall|i: int|
            0 <= i < c.entries@.len() ==> (#[trigger] c.entries@[i]).key@ == listed_keys()[i].0
                && c.entries@[i].value@ == profile.field(listed_keys()[i].1).shown(),
{
    let shown = profile.entries();
    let mut entries: Vec<ConfigEntry> = Vec::new();
    let mut i: usize = 0;
    while i < shown.len()
        invariant
            i <= shown.len(),
            shown@.len() == listed_keys().len(),
            forall|j: int|
                0 <= j < shown@.len() ==> {
                    &&& (#[trigger] shown@[j]).0@ == listed_keys()[j].0
                    &&& shown@[j].1@ == profile.field(listed_keys()[j].1).shown()
                },
            entries@.len() == i,
            forall|j: int|
                0 <= j < i ==> (#[trigger] entries@[j]).key@ == listed_keys()[j].0
                    && entries@[j].value@ == profile.field(listed_keys()[j].1).shown(),
        decreases shown.len() - i,
    {
        entries.push(ConfigEntry { key: shown[i].0, value: shown[i].1.clone() });
        i = i + 1;
    }
    ConfigResponse { products: products.names(), entries }
}

/// Changes a setting. Returns the profile to keep; what is refused is a bad
/// request.
pub fn set_config(profile: Profile, key: &str, value: &str) -> (r: Result<Profile, ApiError>)
    ensures
        match Setting::named(key@) {
            None => is_bad_request(r, "unknown config key '"@ + key@ + "'"@),
            Some(s) => match s.accepts(value@) {
                Some(v) => r matches Ok(p) && p.changed(profile, s, v),
                None => is_bad_request(
                    r,
                    "invalid value for '"@ + key@ + "': "@ + s.expectation(),
                ),
            },
        },
{
    let mut p = profile;
    match p.set(key, value) {
        Ok(()) => Ok(p),
        Err(e) => Err(ApiError::BadRequest(e.message())),
    }
}

/// A parameter has the value that was given last under its name, and none
/// where no value was.
pub proof fn law_last_value_of_a_parameter(params: Seq<(String, String)>, name: Seq<char>, i: int)
    ensures
        0 <= i < params.len() && params[i].0@ == name && (forall|j: int|
            i < j < params.len() ==> (#[trigger] params[j]).0@ != name) ==> param_value(params, name)
            == Some(params[i].1@),
        param_value(params, name) is None <==> forall|j: int|
            0 <= j < params.len() ==> (#[trigger] params[j]).0@ != name,
    decreases params.len(),
{
    if params.len() > 0 {
        let front = params.drop_last();
        law_last_value_of_a_parameter(front, name, i);
        assert forall|j: int| 0 <= j < front.len() implies front[j] == #[trigger] params[j] by {}
        if 0 <= i < front.len() && params[i].0@ == name && (forall|j: int|
            i < j < params.len() ==> (#[trigger] params[j]).0@ != name) {
            assert(params[params.len() - 1].0@ != name);
            assert forall|j: int| i < j < front.len() implies (#[trigger] front[j]).0@ != name by {
                assert(front[j] == params[j]);
            }
            assert(front[i] == params[i]);
        }
        if param_value(params, name) is None {
            assert forall|j: int| 0 <= j < params.len() implies (#[trigger] params[j]).0@ != name by {
                if j < front.len() {
                    assert(front[j].0@ != name);
                }
            }
        }
        if forall|j: int| 0 <= j < params.len() ==> (#[trigger] params[j]).0@ != name {
            assert(params[params.len() - 1].0@ != name);
            assert forall|j: int| 0 <= j < front.len() implies (#[trigger] front[j]).0@ != name by {
                assert(front[j] == params[j]);
            }
        }
    }
}

/// A number in the query is read as the digits it is written with; anything
/// else there is none.
pub proof fn law_number_of_a_parameter(params: Seq<(String, String)>, name: Seq<char>, n: nat, max: nat)
    requires
        n <= max,
    ensures
        param_value(params, name) == Some(crate::text::decimal(n)) ==> number_param(params, name, max)
            == Some(n),
        param_value(params, name) is None ==> number_param(params, name, max) is None,
        number_param(params, name, max) is Some ==> (param_value(params, name) matches Some(v)
            && numeral(v, max) == number_param(params, name, max)),
{
    crate::text::law_shown_number_reads_back(n, max);
}

/// A refusal carries exactly its words.
pub proof fn law_refusals_carry_their_words<T>(r: Result<T, ApiError>, text: Seq<char>)
    ensures
        is_bad_request(r, text) <==> (r matches Err(e) && e.code() == 400 && e.text() == text),
        is_internal(r, text) <==> (r matches Err(e) && e.code() == 500 && e.text() == text),
{
}

/// Items stand for what they hold, one by one; those of a stream have no key
/// and the text of each record.
pub proof fn law_items_are_what_they_hold(v: Seq<Item>, es: Seq<crate::log::Entry>)
    ensures
        item_views(v).len() == v.len(),
        forall|i: int| 0 <= i < v.len() ==> #[trigger] item_views(v)[i] == (v[i].key@, v[i].value@),
        keyless(es).len() == es.len(),
        forall|i: int|
            0 <= i < es.len() ==> (#[trigger] keyless(es)[i]).0.len() == 0 && keyless(es)[i].1
                == lossy_text(es[i].payload),
{
}

/// The next records of a stream are all that come after the group's commit.
pub proof fn law_unseen_records_come_after_the_commit(
    s: crate::stream::StreamState,
    partition: usize,
    image: Seq<u8>,
)
    requires
        s.committed("default"@, partition) < u64::MAX,
    ensures
        unseen(s, partition, image) == entries(image).filter(
            |e: crate::log::Entry| e.offset > s.committed("default"@, partition),
        ),
{
    let c = s.committed("default"@, partition);
    crate::log::law_reading_gives_all_later_records(entries(image), (c + 1) as u64);
    lemma_same_filter(
        entries(image),
        |e: crate::log::Entry| e.offset >= (c + 1) as u64,
        |e: crate::log::Entry| e.offset > s.committed("default"@, partition),
    );
}

proof fn lemma_same_filter(
    es: Seq<crate::log::Entry>,
    p: spec_fn(crate::log::Entry) -> bool,
    q: spec_fn(crate::log::Entry) -> bool,
)
    requires
        forall|e: crate::log::Entry| #[trigger] p(e) == q(e),
    ensures
        es.filter(p) == es.filter(q),
    decreases es.len(),
{
    reveal(Seq::filter);
    if es.len() > 0 {
        lemma_same_filter(es.drop_last(), p, q);
    }
}

/// The short routes work on fixed names.
pub proof fn law_short_routes_have_fixed_names()
    ensures
        CACHE_KEYSPACE@ == "cache"@,
        KV_KEYSPACE@ == "default"@,
        TOPIC@ == "events"@,
        QUEUE@ == "jobs"@,
        STREAM@ == "events"@,
        GROUP@ == "default"@,
{
}

} // verus!
