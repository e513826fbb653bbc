//! The client commands: which request each one sends to a node, and what is
//! shown of the answer.

use crate::api::{Handler, Method};
use crate::cli::{KeyArgs, PutArgs, ScanArgs};
use crate::rest::{
    item_views, AckBody, Dequeued, Item, Items, KeyedValue, KvWrite, ValueOnly, ValueResponse,
};
use crate::text::{concat3, views};
use vstd::prelude::*;
use vstd::string::StringExecFns;

verus! {

/// What a request carries.
#[derive(Debug)]
pub enum Body {
    Nothing,
    Write(KvWrite),
    Value(ValueOnly),
    Keyed(KeyedValue),
    Ack(AckBody),
}

/// A request to a node.
#[derive(Debug)]
pub struct Request {
    /// What answers it.
    pub to: Handler,
    pub query: Option<(&'static str, String)>,
    pub body: Body,
}

/// One of two handlers: the cache's or the store's.
pub open spec fn either(cache: bool, of_cache: Handler, of_store: Handler) -> Handler {
    if cache {
        of_cache
    } else {
        of_store
    }
}

fn choose_of(cache: bool, of_cache: Handler, of_store: Handler) -> (h: Handler)
    ensures
        h == either(cache, of_cache, of_store),
{
    if cache {
        of_cache
    } else {
        of_store
    }
}

/// Whether a request has one query parameter, or none, and carries nothing.
pub open spec fn is_bare(r: Request, to: Handler, query: Option<(Seq<char>, Seq<char>)>) -> bool {
    &&& r.to == to
    &&& r.body is Nothing
    &&& match (r.query, query) {
        (None, None) => true,
        (Some(q), Some(w)) => q.0@ == w.0 && q.1@ == w.1,
        _ => false,
    }
}

/// Reads a key.
pub fn get(a: &KeyArgs) -> (r: Request)
    ensures
        is_bare(r, either(a.cache, Handler::CacheRead, Handler::KvRead), Some(("key"@, a.key@))),
{
    Request {
        to: choose_of(a.cache, Handler::CacheRead, Handler::KvRead),
        query: Some(("key", a.key.clone())),
        body: Body::Nothing,
    }
}

/// Writes a key. `value` is the one given or read.
pub fn put(a: &PutArgs, value: String) -> (r: Request)
    ensures
        r.to == either(a.cache, Handler::CacheWrite, Handler::KvWrite),
        r.query is None,
        r.body matches Body::Write(w) && w.key@ == a.key@ && w.value@ == value@ && w.ttl == a.ttl,
{
    Request {
        to: choose_of(a.cache, Handler::CacheWrite, Handler::KvWrite),
        query: None,
        body: Body::Write(KvWrite { key: a.key.clone(), value, ttl: a.ttl }),
    }
}

/// Deletes a key.
pub fn del(a: &KeyArgs) -> (r: Request)
    ensures
        is_bare(r, either(a.cache, Handler::CacheDelete, Handler::KvDelete), Some(("key"@, a.key@))),
{
    Request {
        to: choose_of(a.cache, Handler::CacheDelete, Handler::KvDelete),
        query: Some(("key", a.key.clone())),
        body: Body::Nothing,
    }
}

/// Lists the store's keys with a prefix.
pub fn scan(a: &ScanArgs) -> (r: Request)
    ensures
        is_bare(r, Handler::KvScan, Some(("prefix"@, a.prefix@))),
{
    Request {
        to: Handler::KvScan,
        query: Some(("prefix", a.prefix.clone())),
        body: Body::Nothing,
    }
}

/// Whether a request carries a value.
pub open spec fn posts_value(r: Request, to: Handler, value: Seq<char>) -> bool {
    &&& r.to == to
    &&& r.query is None
    &&& r.body matches Body::Value(v) && v.value@ == value
}

/// Publishes a value on the topic.
pub fn publish(value: String) -> (r: Request)
    ensures
        posts_value(r, Handler::PubsubPublish, value@),
{
    Request {
        to: Handler::PubsubPublish,
        query: None,
        body: Body::Value(ValueOnly { value }),
    }
}

/// Pushes a job onto the queue.
pub fn push(value: String) -> (r: Request)
    ensures
        posts_value(r, Handler::QueuePush, value@),
{
    Request {
        to: Handler::QueuePush,
        query: None,
        body: Body::Value(ValueOnly { value }),
    }
}

/// Takes a job off the queue.
pub fn pop() -> (r: Request)
    ensures
        is_bare(r, Handler::QueuePop, None),
{
    Request { to: Handler::QueuePop, query: None, body: Body::Nothing }
}

/// Confirms a job that was taken.
pub fn ack(job: &Dequeued) -> (r: Request)
    ensures
        r.to == Handler::QueueAck,
        r.query is None,
        r.body matches Body::Ack(b) && b.id == job.id,
{
    Request {
        to: Handler::QueueAck,
        query: None,
        body: Body::Ack(AckBody { id: job.id }),
    }
}

/// Appends a record to the stream, routed by a key.
pub fn append(key: String, value: String) -> (r: Request)
    ensures
        r.to == Handler::StreamAppend,
        r.query is None,
        r.body matches Body::Keyed(k) && k.key@ == key@ && k.value@ == value@,
{
    Request {
        to: Handler::StreamAppend,
        query: None,
        body: Body::Keyed(KeyedValue { key, value }),
    }
}

/// Reads the next records of the stream.
pub fn next() -> (r: Request)
    ensures
        is_bare(r, Handler::StreamNext, None),
{
    Request { to: Handler::StreamNext, query: None, body: Body::Nothing }
}

/// Asks how a node is.
pub fn health() -> (r: Request)
    ensures
        is_bare(r, Handler::Health, None),
{
    Request { to: Handler::Health, query: None, body: Body::Nothing }
}

/// Asks for a node's metrics.
pub fn metrics() -> (r: Request)
    ensures
        is_bare(r, Handler::Metrics, None),
{
    Request { to: Handler::Metrics, query: None, body: Body::Nothing }
}

impl Request {
    pub fn method(&self) -> (m: Method)
        ensures
            m == self.to.route_method(),
    {
        self.to.method()
    }

    /// Where the request goes: a path below a node's base address.
    pub fn url(&self, base: &str) -> (u: String)
        ensures
            u@ == base@ + self.to.route_path(),
    {
        base.to_owned().concat(self.to.path())
    }
}

/// What is shown of a key's value (`None` where the node has none).
pub fn show_value(answer: Option<ValueResponse>) -> (r: Result<String, String>)
    ensures
        match answer {
            Some(v) => r matches Ok(s) && s@ == v.value@,
            None => r matches Err(m) && m@ == "key not found"@,
        },
{
    match answer {
        Some(v) => Ok(v.value),
        None => Err("key not found".to_owned()),
    }
}

/// What is shown of a job (`None` where the queue is drained).
pub fn show_job(answer: &Option<Dequeued>) -> (s: String)
    ensures
        s@ == match answer {
            Some(job) => job.value@,
            None => "(empty)"@,
        },
{
    match answer {
        Some(job) => job.value.clone(),
        None => "(empty)".to_owned(),
    }
}

/// What is shown of keys and their values: a line for each.
pub open spec fn pairs_shown(items: Seq<(Seq<char>, Seq<char>)>) -> Seq<Seq<char>> {
    items.map_values(|i: (Seq<char>, Seq<char>)| i.0 + "\t"@ + i.1)
}

pub fn show_pairs(items: &Items) -> (lines: Vec<String>)
    ensures
        views(lines@) == pairs_shown(item_views(items.items@)),
{
    let ghost all = item_views(items.items@);
    let mut out: Vec<String> = Vec::new();
    let mut i: usize = 0;
    while i < items.items.len()
        invariant
            i <= items.items.len(),
            all == item_views(items.items@),
            out@.len() == i,
            forall|j: int| 0 <= j < i ==> (#[trigger] out@[j])@ == all[j].0 + "\t"@ + all[j].1,
        decreases items.items.len() - i,
    {
        let item: &Item = &items.items[i];
        out.push(concat3(item.key.as_str(), "\t", item.value.as_str()));
        i = i + 1;
    }
    assert(views(out@) =~= pairs_shown(all));
    out
}

/// What is shown of the stream's records: a line for each.
pub fn show_records(items: &Items) -> (lines: Vec<String>)
    ensures
        views(lines@) == item_views(items.items@).map_values(
            |i: (Seq<char>, Seq<char>)| i.1,
        ),
{
    let ghost all = item_views(items.items@);
    let mut out: Vec<String> = Vec::new();
    let mut i: usize = 0;
    while i < items.items.len()
        invariant
            i <= items.items.len(),
            all == item_views(items.items@),
            out@.len() == i,
            forall|j: int| 0 <= j < i ==> (#[trigger] out@[j])@ == all[j].1,
        decreases items.items.len() - i,
    {
        out.push(items.items[i].value.clone());
        i = i + 1;
    }
    assert(views(out@) =~= all.map_values(|i: (Seq<char>, Seq<char>)| i.1));
    out
}

/// A request without a body goes where it says, with the parameter it names
/// and no other; one with a value carries that value; and the cache is asked
/// only where it is meant.
pub proof fn law_requests_carry_what_they_name(
    r: Request,
    to: Handler,
    query: Option<(Seq<char>, Seq<char>)>,
    value: Seq<char>,
    other: Handler,
)
    ensures
        is_bare(r, to, query) ==> r.to == to && r.body is Nothing && (r.query is Some <==> query
            is Some) && (r.query matches Some(q) ==> q.0@ == (query->0).0 && q.1@ == (query->0).1),
        posts_value(r, to, value) ==> r.to == to && r.query is None && (r.body matches Body::Value(
            v,
        ) && v.value@ == value),
        either(true, to, other) == to,
        either(false, to, other) == other,
{
}

/// Found pairs are shown one to a line, the key, a tab and the value.
pub proof fn law_pairs_are_shown_one_by_one(items: Seq<(Seq<char>, Seq<char>)>)
    ensures
        pairs_shown(items).len() == items.len(),
        forall|i: int|
            0 <= i < items.len() ==> #[trigger] pairs_shown(items)[i] == items[i].0 + "\t"@
                + items[i].1,
{
}

} // verus!
