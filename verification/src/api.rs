//! The HTTP interface: its routes, who may call them, and its errors.

use crate::config::Config;
use crate::feature::{Feature, FeatureSet};
use crate::node::NodeError;
use crate::text::{
    after_prefix, begins, concat3, pieces, same, split, views,
};
use vstd::prelude::*;

verus! {

/// Why a request is refused.
#[derive(Debug)]
pub enum ApiError {
    NotFound,
    UnknownKeyspace(String),
    BadRequest(String),
    Internal(String),
}

impl ApiError {
    /// The HTTP status.
    pub open spec fn code(&self) -> u16 {
        match self {
            ApiError::NotFound => 404,
            ApiError::UnknownKeyspace(_) => 404,
            ApiError::BadRequest(_) => 400,
            ApiError::Internal(_) => 500,
        }
    }

    pub open spec fn text(&self) -> Seq<char> {
        match self {
            ApiError::NotFound => "key not found"@,
            ApiError::UnknownKeyspace(n) => "unknown keyspace '"@ + n@ + "'"@,
            ApiError::BadRequest(m) => m@,
            ApiError::Internal(m) => m@,
        }
    }

    /// Whether this is the error for what went wrong in the node.
    pub open spec fn reports(&self, e: NodeError) -> bool {
        match e {
            NodeError::UnknownKeyspace(n) => self matches ApiError::UnknownKeyspace(m) && m@ == n@,
            NodeError::Storage(t) => self matches ApiError::Internal(m) && m@ == t@,
            NodeError::Messaging(t) => self matches ApiError::Internal(m) && m@ == t.text(),
        }
    }

    pub fn status(&self) -> (s: u16)
        ensures
            s == self.code(),
    {
        match self {
            ApiError::NotFound => 404,
            ApiError::UnknownKeyspace(_) => 404,
            ApiError::BadRequest(_) => 400,
            ApiError::Internal(_) => 500,
        }
    }

    /// The message in the answer's body.
    pub fn message(&self) -> (s: String)
        ensures
            s@ == self.text(),
    {
        match self {
            ApiError::NotFound => "key not found".to_owned(),
            ApiError::UnknownKeyspace(n) => concat3("unknown keyspace '", n.as_str(), "'"),
            ApiError::BadRequest(m) => m.clone(),
            ApiError::Internal(m) => m.clone(),
        }
    }

    pub fn from_node(e: NodeError) -> (r: ApiError)
        ensures
            r.reports(e),
    {
        match e {
            NodeError::UnknownKeyspace(n) => ApiError::UnknownKeyspace(n),
            NodeError::Storage(m) => ApiError::Internal(m),
            NodeError::Messaging(m) => ApiError::Internal(m.message()),
        }
    }
}

#[derive(Clone, Copy, Debug, PartialEq, Eq, Structural)]
pub enum Method {
    Get,
    Post,
    Delete,
}

/// What answers a request.
#[derive(Clone, Copy, Debug, PartialEq, Eq, Structural)]
pub enum Handler {
    Dashboard,
    Healthz,
    Readyz,
    Metrics,
    Health,
    GetConfig,
    SetConfig,
    Subscribe,
    CacheRead,
    CacheWrite,
    CacheDelete,
    KvRead,
    KvWrite,
    KvDelete,
    KvScan,
    StreamNext,
    StreamAppend,
    PubsubPublish,
    QueuePop,
    QueuePush,
    QueueAck,
}

impl Handler {
    pub open spec fn route_method(self) -> Method {
        match self {
            Handler::SetConfig | Handler::CacheWrite | Handler::KvWrite | Handler::StreamAppend
            | Handler::PubsubPublish | Handler::QueuePush | Handler::QueueAck => Method::Post,
            Handler::CacheDelete | Handler::KvDelete => Method::Delete,
            _ => Method::Get,
        }
    }

    pub open spec fn route_path(self) -> Seq<char> {
        match self {
            Handler::Dashboard => "/"@,
            Handler::Healthz => "/healthz"@,
            Handler::Readyz => "/readyz"@,
            Handler::Metrics => "/metrics"@,
            Handler::Health => "/health"@,
            Handler::GetConfig | Handler::SetConfig => "/config"@,
            Handler::Subscribe => "/subscribe"@,
            Handler::CacheRead | Handler::CacheWrite | Handler::CacheDelete => "/cache"@,
            Handler::KvRead | Handler::KvWrite | Handler::KvDelete => "/kv"@,
            Handler::KvScan => "/kv/scan"@,
            Handler::StreamNext | Handler::StreamAppend => "/stream"@,
            Handler::PubsubPublish => "/pubsub"@,
            Handler::QueuePop | Handler::QueuePush => "/queue"@,
            Handler::QueueAck => "/queue/ack"@,
        }
    }

    /// Whether a node with the given products answers with this handler. The
    /// node's own pages always do; a product's only where it is installed.
    pub open spec fn installed(self, features: Seq<Feature>) -> bool {
        match self {
            Handler::Subscribe => features.contains(Feature::Cache) || features.contains(
                Feature::Kv,
            ) || features.contains(Feature::Pubsub),
            Handler::CacheRead | Handler::CacheWrite | Handler::CacheDelete => features.contains(
                Feature::Cache,
            ),
            Handler::KvRead | Handler::KvWrite | Handler::KvDelete | Handler::KvScan =>
                features.contains(Feature::Kv),
            Handler::StreamNext | Handler::StreamAppend => features.contains(Feature::Stream),
            Handler::PubsubPublish => features.contains(Feature::Pubsub),
            Handler::QueuePop | Handler::QueuePush | Handler::QueueAck => features.contains(
                Feature::Queue,
            ),
            _ => true,
        }
    }

    /// The method that a handler answers.
    pub fn method(self) -> (m: Method)
        ensures
            m == self.route_method(),
    {
        match self {
            Handler::SetConfig | Handler::CacheWrite | Handler::KvWrite | Handler::StreamAppend
            | Handler::PubsubPublish | Handler::QueuePush | Handler::QueueAck => Method::Post,
            Handler::CacheDelete | Handler::KvDelete => Method::Delete,
            _ => Method::Get,
        }
    }

    /// The path that a handler answers.
    pub fn path(self) -> (p: &'static str)
        ensures
            p@ == self.route_path(),
    {
        match self {
            Handler::Dashboard => "/",
            Handler::Healthz => "/healthz",
            Handler::Readyz => "/readyz",
            Handler::Metrics => "/metrics",
            Handler::Health => "/health",
            Handler::GetConfig | Handler::SetConfig => "/config",
            Handler::Subscribe => "/subscribe",
            Handler::CacheRead | Handler::CacheWrite | Handler::CacheDelete => "/cache",
            Handler::KvRead | Handler::KvWrite | Handler::KvDelete => "/kv",
            Handler::KvScan => "/kv/scan",
            Handler::StreamNext | Handler::StreamAppend => "/stream",
            Handler::PubsubPublish => "/pubsub",
            Handler::QueuePop | Handler::QueuePush => "/queue",
            Handler::QueueAck => "/queue/ack",
        }
    }
}

/// The routes of a node and what stands before them.
#[derive(Debug)]
pub struct RouterPlan {
    pub handlers: Vec<Handler>,
    /// The largest accepted body, where there is a limit.
    pub body_limit: Option<usize>,
    /// Whether requests have to present the API key.
    pub auth: bool,
}

/// The routes of a node: its own pages and those of its products. A product
/// that is not installed has no routes at all.
pub fn router_for(config: &Config, features: &FeatureSet) -> (p: RouterPlan)
    ensures
        p.handlers@.no_duplicates(),
        forall|h: Handler| #[trigger] p.handlers@.contains(h) <==> h.installed(features@),
        p.body_limit == if config.storage.max_value_bytes > 0 {
            Some(config.storage.max_value_bytes)
        } else {
            None
        },
        p.auth == (config.auth.api_key@.len() > 0),
{
    let cache = features.contains(Feature::Cache);
    let kv = features.contains(Feature::Kv);
    let pubsub = features.contains(Feature::Pubsub);
    let mut all: Vec<Handler> = Vec::new();
    mount(&mut all, Handler::Dashboard, true);
    mount(&mut all, Handler::Healthz, true);
    mount(&mut all, Handler::Readyz, true);
    mount(&mut all, Handler::Metrics, true);
    mount(&mut all, Handler::Health, true);
    mount(&mut all, Handler::GetConfig, true);
    mount(&mut all, Handler::SetConfig, true);
    mount(&mut all, Handler::Subscribe, cache || kv || pubsub);
    mount(&mut all, Handler::CacheRead, cache);
    mount(&mut all, Handler::CacheWrite, cache);
    mount(&mut all, Handler::CacheDelete, cache);
    mount(&mut all, Handler::KvRead, kv);
    mount(&mut all, Handler::KvWrite, kv);
    mount(&mut all, Handler::KvDelete, kv);
    mount(&mut all, Handler::KvScan, kv);
    let stream = features.contains(Feature::Stream);
    mount(&mut all, Handler::StreamNext, stream);
    mount(&mut all, Handler::StreamAppend, stream);
    mount(&mut all, Handler::PubsubPublish, pubsub);
    let queue = features.contains(Feature::Queue);
    mount(&mut all, Handler::QueuePop, queue);
    mount(&mut all, Handler::QueuePush, queue);
    mount(&mut all, Handler::QueueAck, queue);
    let body_limit: Option<usize> = if config.storage.max_value_bytes > 0 {
        Some(config.storage.max_value_bytes)
    } else {
        None
    };
    RouterPlan { handlers: all, body_limit, auth: config.auth.is_enabled() }
}

/// Adds a handler where it is wanted.
fn mount(all: &mut Vec<Handler>, h: Handler, wanted: bool)
    requires
        !old(all)@.contains(h),
        old(all)@.no_duplicates(),
    ensures
        final(all)@.no_duplicates(),
        forall|g: Handler| #[trigger]
            final(all)@.contains(g) <==> old(all)@.contains(g) || (wanted && g == h),
{
    if wanted {
        let ghost before = all@;
        all.push(h);
        proof {
            assert forall|g: Handler| #[trigger] all@.contains(g) <==> before.contains(g) || g == h by {
                if before.contains(g) {
                    let i = before.index_of(g);
                    assert(all@[i] == g);
                }
                if g == h {
                    assert(all@[before.len() as int] == h);
                }
            }
        }
    }
}

/// No two handlers share a method and a path.
pub proof fn law_routes_do_not_clash(a: Handler, b: Handler)
    requires
        a.route_method() == b.route_method(),
        a.route_path() == b.route_path(),
    ensures
        a == b,
{
    reveal_strlit("/");
    reveal_strlit("/healthz");
    reveal_strlit("/readyz");
    reveal_strlit("/metrics");
    reveal_strlit("/health");
    reveal_strlit("/config");
    reveal_strlit("/subscribe");
    reveal_strlit("/cache");
    reveal_strlit("/kv");
    reveal_strlit("/kv/scan");
    reveal_strlit("/stream");
    reveal_strlit("/pubsub");
    reveal_strlit("/queue");
    reveal_strlit("/queue/ack");
    let (p, q) = (a.route_path(), b.route_path());
    assert(p.len() == q.len());
    if p.len() > 2 {
        assert(p[1] == q[1]);
        assert(p[2] == q[2]);
    }
}

/// Whether a request needs no key: the pages that probes, scrapers and the
/// dashboard's shell load, and reading the settings. Writing them does.
pub open spec fn is_exempt(path: Seq<char>, is_get: bool) -> bool {
    ||| path == "/"@
    ||| path == "/healthz"@
    ||| path == "/readyz"@
    ||| path == "/metrics"@
    ||| path == "/health"@
    ||| path == "/config"@ && is_get
}

/// The first of the parts that begins with a prefix, without it.
pub open spec fn first_with_prefix(parts: Seq<Seq<char>>, prefix: Seq<char>) -> Option<Seq<char>>
    decreases parts.len(),
{
    if parts.len() == 0 {
        None
    } else if begins(parts[0], prefix) {
        Some(parts[0].skip(prefix.len() as int))
    } else {
        first_with_prefix(parts.skip(1), prefix)
    }
}

/// The key of a `Bearer` header.
pub open spec fn header_key(header: Option<Seq<char>>) -> Option<Seq<char>> {
    match header {
        Some(h) => if begins(h, "Bearer "@) {
            Some(h.skip("Bearer "@.len() as int))
        } else {
            None
        },
        None => None,
    }
}

/// The key of an `api_key` query parameter.
pub open spec fn query_key(query: Option<Seq<char>>) -> Option<Seq<char>> {
    match query {
        Some(q) => first_with_prefix(pieces(q, '&'), "api_key="@),
        None => None,
    }
}

/// The key that a request presents: the header's, else the query's, else the
/// empty one.
pub open spec fn presented_key(header: Option<Seq<char>>, query: Option<Seq<char>>) -> Seq<char> {
    match header_key(header) {
        Some(k) => k,
        None => match query_key(query) {
            Some(k) => k,
            None => Seq::empty(),
        },
    }
}

/// Compares two byte strings in a time that does not depend on where they
/// differ.
pub fn constant_time_eq(a: &[u8], b: &[u8]) -> (r: bool)
    ensures
        r == (a@ == b@),
{
    if a.len() != b.len() {
        return false;
    }
    let mut diff: u8 = 0;
    let mut i: usize = 0;
    assert(a@.take(0) =~= b@.take(0));
    while i < a.len()
        invariant
            i <= a.len(),
            a.len() == b.len(),
            diff == 0 <==> a@.take(i as int) == b@.take(i as int),
        decreases a.len() - i,
    {
        let x: u8 = a[i];
        let y: u8 = b[i];
        proof {
            assert((diff | (x ^ y)) == 0 <==> diff == 0 && x == y) by (bit_vector);
            assert(a@.take(i + 1) =~= a@.take(i as int).push(x));
            assert(b@.take(i + 1) =~= b@.take(i as int).push(y));
            assert(a@.take(i + 1).drop_last() =~= a@.take(i as int));
            assert(b@.take(i + 1).drop_last() =~= b@.take(i as int));
            assert(a@.take(i + 1).last() == x);
            assert(b@.take(i + 1).last() == y);
        }
        diff = diff | (x ^ y);
        i = i + 1;
    }
    assert(a@.take(i as int) =~= a@);
    assert(b@.take(i as int) =~= b@);
    diff == 0
}

fn find_with_prefix(parts: &Vec<String>, prefix: &str) -> (r: Option<String>)
    ensures
        match r {
            Some(s) => first_with_prefix(views(parts@), prefix@) == Some(s@),
            None => first_with_prefix(views(parts@), prefix@) is None,
        },
{
    let mut i: usize = 0;
    let ghost all = views(parts@);
    assert(all.skip(0) =~= all);
    while i < parts.len()
        invariant
            i <= parts.len(),
            all == views(parts@),
            first_with_prefix(all, prefix@) == first_with_prefix(all.skip(i as int), prefix@),
        decreases parts.len() - i,
    {
        assert(all.skip(i as int)[0] == parts@[i as int]@);
        match after_prefix(parts[i].as_str(), prefix) {
            Some(rest) => {
                return Some(rest);
            },
            None => {},
        }
        assert(all.skip(i as int).skip(1) =~= all.skip(i + 1));
        i = i + 1;
    }
    None
}

pub open spec fn opt_view(s: Option<&str>) -> Option<Seq<char>> {
    match s {
        Some(t) => Some(t@),
        None => None,
    }
}

/// Whether a request may pass: its page needs no key, or it presents the
/// configured one in an `Authorization: Bearer` header or an `api_key` query
/// parameter. `header` is the text of the authorization header, where there
/// is one and it is text.
pub fn authorize(
    path: &str,
    is_get: bool,
    header: Option<&str>,
    query: Option<&str>,
    api_key: &str,
) -> (r: bool)
    ensures
        r == (is_exempt(path@, is_get) || presented_key(opt_view(header), opt_view(query))
            == api_key@),
{
    if same(path, "/") || same(path, "/healthz") || same(path, "/readyz") || same(path, "/metrics")
        || same(path, "/health") || (same(path, "/config") && is_get) {
        return true;
    }
    let from_header = match header {
        Some(h) => after_prefix(h, "Bearer "),
        None => None,
    };
    let presented = match from_header {
        Some(k) => k,
        None => match query {
            Some(q) => match find_with_prefix(&split(q, '&'), "api_key=") {
                Some(k) => k,
                None => String::new(),
            },
            None => String::new(),
        },
    };
    assert(presented@ =~= presented_key(opt_view(header), opt_view(query)));
    proof {
        crate::text::lemma_bytes_injective(presented@, api_key@);
    }
    constant_time_eq(presented.as_str().as_bytes(), api_key.as_bytes())
}

/// Where a key is set, a request that presents none passes only to the pages
/// that need none.
pub proof fn law_no_key_no_entry(path: Seq<char>, is_get: bool, api_key: Seq<char>)
    requires
        api_key.len() > 0,
        !is_exempt(path, is_get),
    ensures
        presented_key(None, None) != api_key,
{
}

/// Only the holder of the key changes settings.
pub proof fn law_settings_writes_need_the_key()
    ensures
        !is_exempt(Handler::SetConfig.route_path(), false),
        is_exempt(Handler::GetConfig.route_path(), true),
{
    reveal_strlit("/");
    reveal_strlit("/healthz");
    reveal_strlit("/readyz");
    reveal_strlit("/metrics");
    reveal_strlit("/health");
    reveal_strlit("/config");
    assert("/config"@.len() == 7 && "/config"@[1] == 'c');
    assert("/"@.len() == 1 && "/healthz"@.len() == 8 && "/metrics"@.len() == 8);
    assert("/readyz"@[1] == 'r');
    assert("/health"@[1] == 'h');
}

/// What went wrong decides the status of a reply and its words.
pub proof fn law_errors_have_their_status(e: ApiError)
    ensures
        match e {
            ApiError::NotFound => e.code() == 404 && e.text() == "key not found"@,
            ApiError::UnknownKeyspace(n) => e.code() == 404 && e.text() == "unknown keyspace '"@ + n@
                + "'"@,
            ApiError::BadRequest(m) => e.code() == 400 && e.text() == m@,
            ApiError::Internal(m) => e.code() == 500 && e.text() == m@,
        },
{
}

/// An unknown keyspace is the client's mistake, and any other failure of the
/// node its own.
pub proof fn law_node_errors_are_reported(a: ApiError, e: NodeError)
    requires
        a.reports(e),
    ensures
        match e {
            NodeError::UnknownKeyspace(n) => a.code() == 404 && a.text() == "unknown keyspace '"@ + n@
                + "'"@,
            NodeError::Storage(t) => a.code() == 500 && a.text() == t@,
            NodeError::Messaging(t) => a.code() == 500 && a.text() == t.text(),
        },
{
}

/// A product's routes are there exactly where the product is installed, and
/// those of the node itself always; subscriptions come with the products that
/// have something to subscribe to.
pub proof fn law_products_bring_their_routes(features: Seq<Feature>)
    ensures
        features.contains(Feature::Cache) <==> Handler::CacheRead.installed(features),
        features.contains(Feature::Cache) <==> Handler::CacheWrite.installed(features),
        features.contains(Feature::Cache) <==> Handler::CacheDelete.installed(features),
        features.contains(Feature::Kv) <==> Handler::KvRead.installed(features),
        features.contains(Feature::Kv) <==> Handler::KvWrite.installed(features),
        features.contains(Feature::Kv) <==> Handler::KvDelete.installed(features),
        features.contains(Feature::Kv) <==> Handler::KvScan.installed(features),
        features.contains(Feature::Stream) <==> Handler::StreamNext.installed(features),
        features.contains(Feature::Stream) <==> Handler::StreamAppend.installed(features),
        features.contains(Feature::Pubsub) <==> Handler::PubsubPublish.installed(features),
        features.contains(Feature::Queue) <==> Handler::QueuePop.installed(features),
        features.contains(Feature::Queue) <==> Handler::QueuePush.installed(features),
        features.contains(Feature::Queue) <==> Handler::QueueAck.installed(features),
        Handler::Subscribe.installed(features) <==> features.contains(Feature::Cache)
            || features.contains(Feature::Kv) || features.contains(Feature::Pubsub),
        Handler::Dashboard.installed(features) && Handler::Healthz.installed(features)
            && Handler::Readyz.installed(features) && Handler::Metrics.installed(features)
            && Handler::Health.installed(features) && Handler::GetConfig.installed(features)
            && Handler::SetConfig.installed(features),
{
}

/// Reading is `GET`, writing `POST` and deleting `DELETE`, each below the path
/// of its product.
pub proof fn law_routes(h: Handler)
    ensures
        (h.route_path(), h.route_method()) == match h {
            Handler::Dashboard => ("/"@, Method::Get),
            Handler::Healthz => ("/healthz"@, Method::Get),
            Handler::Readyz => ("/readyz"@, Method::Get),
            Handler::Metrics => ("/metrics"@, Method::Get),
            Handler::Health => ("/health"@, Method::Get),
            Handler::GetConfig => ("/config"@, Method::Get),
            Handler::SetConfig => ("/config"@, Method::Post),
            Handler::Subscribe => ("/subscribe"@, Method::Get),
            Handler::CacheRead => ("/cache"@, Method::Get),
            Handler::CacheWrite => ("/cache"@, Method::Post),
            Handler::CacheDelete => ("/cache"@, Method::Delete),
            Handler::KvRead => ("/kv"@, Method::Get),
            Handler::KvWrite => ("/kv"@, Method::Post),
            Handler::KvDelete => ("/kv"@, Method::Delete),
            Handler::KvScan => ("/kv/scan"@, Method::Get),
            Handler::StreamNext => ("/stream"@, Method::Get),
            Handler::StreamAppend => ("/stream"@, Method::Post),
            Handler::PubsubPublish => ("/pubsub"@, Method::Post),
            Handler::QueuePop => ("/queue"@, Method::Get),
            Handler::QueuePush => ("/queue"@, Method::Post),
            Handler::QueueAck => ("/queue/ack"@, Method::Post),
        },
{
}

/// Of all routes only the node's own pages and reading the settings need no
/// key.
pub proof fn law_data_needs_the_key(path: Seq<char>, is_get: bool)
    ensures
        is_exempt(path, is_get) <==> {
            ||| path == Handler::Dashboard.route_path()
            ||| path == Handler::Healthz.route_path()
            ||| path == Handler::Readyz.route_path()
            ||| path == Handler::Metrics.route_path()
            ||| path == Handler::Health.route_path()
            ||| path == Handler::GetConfig.route_path() && is_get
        },
        is_exempt(path, is_get) ==> path != "/cache"@ && path != "/kv"@ && path != "/kv/scan"@ && path
            != "/stream"@ && path != "/pubsub"@ && path != "/queue"@ && path != "/queue/ack"@ && path
            != "/subscribe"@,
{
    law_routes_do_not_clash(Handler::GetConfig, Handler::GetConfig);
    reveal_strlit("/");
    reveal_strlit("/healthz");
    reveal_strlit("/readyz");
    reveal_strlit("/metrics");
    reveal_strlit("/health");
    reveal_strlit("/config");
    reveal_strlit("/subscribe");
    reveal_strlit("/cache");
    reveal_strlit("/kv");
    reveal_strlit("/kv/scan");
    reveal_strlit("/stream");
    reveal_strlit("/pubsub");
    reveal_strlit("/queue");
    reveal_strlit("/queue/ack");
    if is_exempt(path, is_get) && path.len() > 2 {
        assert(path[1] == 'h' || path[1] == 'r' || path[1] == 'm' || path[1] == 'c');
        assert(path[1] == 'c' ==> path[2] == 'o');
    }
}

/// A key in the header is the one presented, whatever it is and whatever the
/// query says.
pub proof fn law_bearer_key_is_presented(key: Seq<char>, query: Option<Seq<char>>)
    ensures
        presented_key(Some("Bearer "@ + key), query) == key,
{
    let b = "Bearer "@;
    assert((b + key).take(b.len() as int) =~= b);
    assert((b + key).skip(b.len() as int) =~= key);
}

/// Without a key in the header, one in the query is presented, wherever it
/// stands there; the first where there are several.
pub proof fn law_query_key_is_presented(before: Seq<Seq<char>>, key: Seq<char>, after: Seq<Seq<char>>)
    requires
        !key.contains('&'),
        forall|i: int| 0 <= i < before.len() ==> !(#[trigger] before[i]).contains('&') && !begins(
            before[i],
            "api_key="@,
        ),
        forall|i: int| 0 <= i < after.len() ==> !(#[trigger] after[i]).contains('&'),
    ensures
        presented_key(
            None,
            Some(crate::text::joined(before.push("api_key="@ + key) + after, seq!['&'])),
        ) == key,
{
    reveal_strlit("api_key=");
    let p = "api_key="@;
    let parts = before.push(p + key) + after;
    assert forall|i: int| 0 <= i < parts.len() implies !(#[trigger] parts[i]).contains('&') by {
        if i < before.len() {
            assert(parts[i] == before[i]);
        } else if i == before.len() {
            if parts[i].contains('&') {
                let k = parts[i].index_of('&');
                if k >= p.len() {
                    assert(key[k - p.len()] == '&');
                }
            }
        } else {
            assert(parts[i] == after[i - before.len() - 1]);
        }
    }
    crate::text::lemma_pieces_of_joined(parts, '&');
    assert((p + key).take(p.len() as int) =~= p);
    assert((p + key).skip(p.len() as int) =~= key);
    assert forall|i: int| 0 <= i < before.len() implies !begins(#[trigger] parts[i], p) by {
        assert(parts[i] == before[i]);
    }
    assert(parts[before.len() as int] == p + key);
    law_first_of_the_parts(parts, p, before.len() as int);
}

/// The part that is taken is the first with the prefix; there is none exactly
/// where no part has it.
pub proof fn law_first_of_the_parts(parts: Seq<Seq<char>>, prefix: Seq<char>, i: int)
    ensures
        0 <= i < parts.len() && begins(parts[i], prefix) && (forall|j: int|
            0 <= j < i ==> !begins(#[trigger] parts[j], prefix)) ==> first_with_prefix(parts, prefix)
            == Some(parts[i].skip(prefix.len() as int)),
        first_with_prefix(parts, prefix) is None <==> forall|j: int|
            0 <= j < parts.len() ==> !begins(#[trigger] parts[j], prefix),
    decreases parts.len(),
{
    if parts.len() > 0 {
        let rest = parts.skip(1);
        law_first_of_the_parts(rest, prefix, i - 1);
        assert forall|j: int| 0 < j < parts.len() implies rest[j - 1] == #[trigger] parts[j] by {}
        if 0 < i < parts.len() && begins(parts[i], prefix) && (forall|j: int|
            0 <= j < i ==> !begins(#[trigger] parts[j], prefix)) {
            assert(!begins(parts[0], prefix));
            assert forall|j: int| 0 <= j < i - 1 implies !begins(#[trigger] rest[j], prefix) by {
                assert(rest[j] == parts[j + 1]);
            }
            assert(rest[i - 1] == parts[i]);
        }
        if first_with_prefix(parts, prefix) is None {
            assert forall|j: int| 0 <= j < parts.len() implies !begins(#[trigger] parts[j], prefix) by {
                if j > 0 {
                    assert(!begins(rest[j - 1], prefix));
                }
            }
        }
        if forall|j: int| 0 <= j < parts.len() ==> !begins(#[trigger] parts[j], prefix) {
            assert(!begins(parts[0], prefix));
            assert forall|j: int| 0 <= j < rest.len() implies !begins(#[trigger] rest[j], prefix) by {
                assert(rest[j] == parts[j + 1]);
            }
        }
    }
}

/// A header that holds no bearer key presents none: the query is asked, as it
/// is without a header. Without either nothing is presented.
pub proof fn law_other_headers_present_nothing(header: Seq<char>, query: Option<Seq<char>>, s: &str)
    ensures
        !begins(header, "Bearer "@) ==> presented_key(Some(header), query) == presented_key(
            None,
            query,
        ),
        presented_key(None, None).len() == 0,
        query matches Some(q) ==> (forall|i: int|
            0 <= i < pieces(q, '&').len() ==> !begins(#[trigger] pieces(q, '&')[i], "api_key="@))
            ==> presented_key(None, query).len() == 0,
        opt_view(Some(s)) == Some(s@),
        opt_view(None) is None,
{
    if let Some(q) = query {
        law_first_of_the_parts(pieces(q, '&'), "api_key="@, 0);
    }
}

} // verus!
