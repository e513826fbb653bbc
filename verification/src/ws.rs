//! Live subscriptions over a socket: what a client may say, what it is told,
//! and which changes it gets.

use crate::event::{ChangeEvent, ChangeValue};
use crate::rest::{param, param_value};
use crate::text::{concat3, lossy, lossy_text, same, same_bytes, views};
use crate::topic::Delivery;
use vstd::prelude::*;
use vstd::slice::slice_subrange;
use vstd::string::StringExecFns;
use vstd::utf8::encode_utf8;

verus! {

/// What a client says.
#[derive(Debug)]
pub enum ClientMsg {
    Subscribe { id: String, keyspace: String, key: Option<String>, prefix: Option<String> },
    Unsubscribe { id: String },
}

/// What a client is told.
#[derive(Debug)]
pub enum ServerMsg {
    Subscribed { id: String },
    Unsubscribed { id: String },
    Error { id: String, message: String },
    Update {
        id: String,
        keyspace: String,
        key: String,
        value: Option<String>,
        sequence: u64,
        timestamp: u128,
        tombstone: bool,
    },
    ResyncRequired { id: String },
    /// A message of a topic.
    Message { id: String, topic: String, offset: u64, value: String },
}

/// A message to a client by its contents.
pub ghost enum Told {
    Subscribed(Seq<char>),
    Unsubscribed(Seq<char>),
    Error(Seq<char>, Seq<char>),
    Update {
        id: Seq<char>,
        keyspace: Seq<char>,
        key: Seq<char>,
        value: Option<Seq<char>>,
        sequence: u64,
        timestamp: u128,
        tombstone: bool,
    },
    ResyncRequired(Seq<char>),
    Message { id: Seq<char>, topic: Seq<char>, offset: u64, value: Seq<char> },
}

impl View for ServerMsg {
    type V = Told;

    open spec fn view(&self) -> Told {
        match self {
            ServerMsg::Subscribed { id } => Told::Subscribed(id@),
            ServerMsg::Unsubscribed { id } => Told::Unsubscribed(id@),
            ServerMsg::Error { id, message } => Told::Error(id@, message@),
            ServerMsg::Update { id, keyspace, key, value, sequence, timestamp, tombstone } =>
                Told::Update {
                    id: id@,
                    keyspace: keyspace@,
                    key: key@,
                    value: match value {
                        Some(v) => Some(v@),
                        None => None,
                    },
                    sequence: *sequence,
                    timestamp: *timestamp,
                    tombstone: *tombstone,
                },
            ServerMsg::ResyncRequired { id } => Told::ResyncRequired(id@),
            ServerMsg::Message { id, topic, offset, value } => Told::Message {
                id: id@,
                topic: topic@,
                offset: *offset,
                value: value@,
            },
        }
    }
}

/// The keyspace of a subscription that names none.
pub fn default_keyspace() -> (s: String)
    ensures
        s@ == "default"@,
{
    "default".to_owned()
}

/// Which changes a subscription gets: those of one key, or of all keys with a
/// prefix.
#[derive(Debug)]
pub enum Filter {
    Key(String),
    Prefix(String),
}

/// Whether bytes begin with a prefix.
pub open spec fn bytes_begin(b: Seq<u8>, prefix: Seq<u8>) -> bool {
    prefix.len() <= b.len() && b.take(prefix.len() as int) == prefix
}

impl Filter {
    pub open spec fn admits(&self, key: Seq<u8>) -> bool {
        match self {
            Filter::Key(k) => key == encode_utf8(k@),
            Filter::Prefix(p) => bytes_begin(key, encode_utf8(p@)),
        }
    }
}

/// Whether a subscription gets the changes of a key.
pub fn matches_filter(filter: &Filter, key: &[u8]) -> (r: bool)
    ensures
        r == filter.admits(key@),
        filter matches Filter::Key(k) ==> (r <==> key@ == encode_utf8(k@)),
        filter matches Filter::Prefix(p) ==> (r <==> encode_utf8(p@).is_prefix_of(key@)),
{
    match filter {
        Filter::Key(k) => same_bytes(key, k.as_str().as_bytes()),
        Filter::Prefix(p) => {
            let prefix = p.as_str().as_bytes();
            if prefix.len() > key.len() {
                return false;
            }
            assert(key@.subrange(0, prefix@.len() as int) =~= key@.take(prefix@.len() as int));
            same_bytes(slice_subrange(key, 0, prefix.len()), prefix)
        },
    }
}

/// What the node knows of a keyspace that a client asks for.
#[derive(Clone, Copy, Debug, PartialEq, Eq, Structural)]
pub enum KeyspaceStatus {
    Unknown,
    /// It publishes no changes.
    Silent,
    Live,
}

/// What is done for a client's message, in order.
#[derive(Debug)]
pub enum SocketAction {
    /// Start to pass changes of a keyspace on.
    Listen { id: String, keyspace: String, filter: Filter },
    /// Start to pass messages of a topic on.
    Hear { id: String, topic: String },
    /// Stop what was last started under this id.
    Stop { id: String },
    Tell(ServerMsg),
}

/// One client's socket: the ids under which it listens.
pub struct Session {
    ids: Vec<String>,
}

/// Whether `ids` holds `id`.
pub open spec fn listens(ids: Seq<Seq<char>>, id: Seq<char>) -> bool {
    ids.contains(id)
}

/// The ids without the given one.
pub open spec fn without(ids: Seq<Seq<char>>, id: Seq<char>) -> Seq<Seq<char>>
    decreases ids.len(),
{
    if ids.len() == 0 {
        ids
    } else if ids.last() == id {
        without(ids.drop_last(), id)
    } else {
        without(ids.drop_last(), id).push(ids.last())
    }
}

impl View for Session {
    type V = Seq<Seq<char>>;

    closed spec fn view(&self) -> Seq<Seq<char>> {
        views(self.ids@)
    }
}

/// Whether actions are one message to the client.
pub open spec fn only_tells(actions: Seq<SocketAction>, t: Told) -> bool {
    actions.len() == 1 && (actions[0] matches SocketAction::Tell(m) && m@ == t)
}

/// Whether actions start a subscription and confirm it.
pub open spec fn starts(
    actions: Seq<SocketAction>,
    id: Seq<char>,
    keyspace: Seq<char>,
    key: Option<String>,
    prefix: Option<String>,
) -> bool {
    &&& actions.len() == 2
    &&& actions[0] matches SocketAction::Listen { id: i, keyspace: k, filter } && i@ == id && k@
        == keyspace && match (key, prefix) {
        (Some(x), _) => filter matches Filter::Key(y) && y@ == x@,
        (None, Some(x)) => filter matches Filter::Prefix(y) && y@ == x@,
        (None, None) => false,
    }
    &&& actions[1] matches SocketAction::Tell(m) && m@ == Told::Subscribed(id)
}

/// What the address of a socket asks for before the client says anything.
#[derive(Debug)]
pub enum Opening {
    Nothing,
    /// A subscription to changes, as if the client had sent this.
    Changes(ClientMsg),
    /// The messages of a topic.
    Topic(String),
}

/// Whether an optional text is the given one.
pub open spec fn is_text(s: Option<String>, t: Option<Seq<char>>) -> bool {
    match (s, t) {
        (Some(x), Some(y)) => x@ == y,
        (None, None) => true,
        _ => false,
    }
}

/// What the query of a socket's address asks for: `?topic=` the messages of a
/// topic, `?key=` or `?prefix=` the changes of a keyspace (`?keyspace=`, or the
/// default one). Such a subscription has the empty id.
pub fn opening(params: &Vec<(String, String)>) -> (o: Opening)
    ensures
        match param_value(params@, "topic"@) {
            Some(t) => o matches Opening::Topic(x) && x@ == t,
            None => {
                let (key, prefix) = (param_value(params@, "key"@), param_value(params@, "prefix"@));
                if key is None && prefix is None {
                    o is Nothing
                } else {
                    o matches Opening::Changes(ClientMsg::Subscribe {
                        id,
                        keyspace,
                        key: k,
                        prefix: p,
                    }) && id@.len() == 0 && keyspace@ == (match param_value(
                        params@,
                        "keyspace"@,
                    ) {
                        Some(n) => n,
                        None => "default"@,
                    }) && is_text(k, key) && is_text(p, prefix)
                }
            },
        },
{
    if let Some(t) = param(params, "topic") {
        return Opening::Topic(t);
    }
    let key = param(params, "key");
    let prefix = param(params, "prefix");
    if key.is_none() && prefix.is_none() {
        return Opening::Nothing;
    }
    let keyspace = match param(params, "keyspace") {
        Some(n) => n,
        None => default_keyspace(),
    };
    Opening::Changes(ClientMsg::Subscribe { id: String::new(), keyspace, key, prefix })
}

fn told_error(id: String, message: String) -> (v: Vec<SocketAction>)
    ensures
        only_tells(v@, Told::Error(id@, message@)),
{
    let mut v: Vec<SocketAction> = Vec::new();
    v.push(SocketAction::Tell(ServerMsg::Error { id, message }));
    v
}

impl Session {
    pub fn new() -> (s: Self)
        ensures
            s@.len() == 0,
    {
        Session { ids: Vec::new() }
    }

    fn position(&self, id: &str) -> (r: Option<usize>)
        ensures
            match r {
                Some(i) => i < self@.len() && self@[i as int] == id@,
                None => !self@.contains(id@),
            },
    {
        let mut i: usize = 0;
        while i < self.ids.len()
            invariant
                i <= self.ids.len(),
                forall|j: int| 0 <= j < i ==> #[trigger] self@[j] != id@,
            decreases self.ids.len() - i,
        {
            assert(self@[i as int] == self.ids@[i as int]@);
            if same(self.ids[i].as_str(), id) {
                return Some(i);
            }
            i = i + 1;
        }
        None
    }

    /// What is done for a client's message, or for one that could not be read
    /// (`Err` with the reader's words). `status` is what the node knows of the
    /// keyspace that the message names. A subscription has to name a key or a
    /// prefix (the key goes first) of a keyspace that publishes changes.
    pub fn handle(&mut self, msg: Result<ClientMsg, String>, status: KeyspaceStatus) -> (v: Vec<
        SocketAction,
    >)
        ensures
            match msg {
                Ok(ClientMsg::Subscribe { id, keyspace, key, prefix }) => if key is None && prefix
                    is None {
                    &&& only_tells(
                        v@,
                        Told::Error(id@, "subscribe requires 'key' or 'prefix'"@),
                    )
                    &&& final(self)@ == old(self)@
                } else if status == KeyspaceStatus::Unknown {
                    &&& only_tells(
                        v@,
                        Told::Error(id@, "unknown keyspace '"@ + keyspace@ + "'"@),
                    )
                    &&& final(self)@ == old(self)@
                } else if status == KeyspaceStatus::Silent {
                    &&& only_tells(
                        v@,
                        Told::Error(
                            id@,
                            "subscriptions disabled for keyspace '"@ + keyspace@ + "'"@,
                        ),
                    )
                    &&& final(self)@ == old(self)@
                } else {
                    &&& starts(v@, id@, keyspace@, key, prefix)
                    &&& final(self)@ == if listens(old(self)@, id@) {
                        old(self)@
                    } else {
                        old(self)@.push(id@)
                    }
                },
                Ok(ClientMsg::Unsubscribe { id }) => if listens(old(self)@, id@) {
                    &&& v@.len() == 2
                    &&& v@[0] matches SocketAction::Stop { id: i } && i@ == id@
                    &&& v@[1] matches SocketAction::Tell(m) && m@ == Told::Unsubscribed(id@)
                    &&& final(self)@ == without(old(self)@, id@)
                } else {
                    &&& only_tells(v@, Told::Unsubscribed(id@))
                    &&& final(self)@ == old(self)@
                },
                Err(e) => {
                    &&& only_tells(v@, Told::Error(Seq::empty(), "invalid message: "@ + e@))
                    &&& final(self)@ == old(self)@
                },
            },
    {
        match msg {
            Ok(ClientMsg::Subscribe { id, keyspace, key, prefix }) => {
                let filter = match (key, prefix) {
                    (Some(k), _) => Filter::Key(k),
                    (None, Some(p)) => Filter::Prefix(p),
                    (None, None) => {
                        return told_error(id, "subscribe requires 'key' or 'prefix'".to_owned());
                    },
                };
                match status {
                    KeyspaceStatus::Unknown => {
                        return told_error(
                            id,
                            concat3("unknown keyspace '", keyspace.as_str(), "'"),
                        );
                    },
                    KeyspaceStatus::Silent => {
                        return told_error(
                            id,
                            concat3(
                                "subscriptions disabled for keyspace '",
                                keyspace.as_str(),
                                "'",
                            ),
                        );
                    },
                    KeyspaceStatus::Live => {},
                }
                self.remember(&id);
                let mut v: Vec<SocketAction> = Vec::new();
                v.push(SocketAction::Listen { id: id.clone(), keyspace, filter });
                v.push(SocketAction::Tell(ServerMsg::Subscribed { id }));
                v
            },
            Ok(ClientMsg::Unsubscribe { id }) => {
                let mut v: Vec<SocketAction> = Vec::new();
                if self.position(id.as_str()).is_some() {
                    self.forget(id.as_str());
                    v.push(SocketAction::Stop { id: id.clone() });
                }
                v.push(SocketAction::Tell(ServerMsg::Unsubscribed { id }));
                v
            },
            Err(e) => {
                let none = String::new();
                assert(none@ =~= Seq::<char>::empty());
                told_error(none, "invalid message: ".to_owned().concat(e.as_str()))
            },
        }
    }

    /// What is done for a socket whose address names a topic. `known` says
    /// whether the node has the topic. The subscription has the empty id.
    pub fn hear(&mut self, topic: String, known: bool) -> (v: Vec<SocketAction>)
        ensures
            if known {
                &&& v@.len() == 2
                &&& v@[0] matches SocketAction::Hear { id, topic: t } && id@.len() == 0 && t@
                    == topic@
                &&& v@[1] matches SocketAction::Tell(m) && m@ == Told::Subscribed(Seq::empty())
                &&& final(self)@ == if listens(old(self)@, Seq::empty()) {
                    old(self)@
                } else {
                    old(self)@.push(Seq::empty())
                }
            } else {
                &&& only_tells(
                    v@,
                    Told::Error(Seq::empty(), "unknown topic '"@ + topic@ + "'"@),
                )
                &&& final(self)@ == old(self)@
            },
    {
        let id = String::new();
        assert(id@ =~= Seq::<char>::empty());
        if !known {
            return told_error(id, concat3("unknown topic '", topic.as_str(), "'"));
        }
        self.remember(&id);
        let mut v: Vec<SocketAction> = Vec::new();
        v.push(SocketAction::Hear { id: id.clone(), topic });
        v.push(SocketAction::Tell(ServerMsg::Subscribed { id }));
        v
    }

    fn remember(&mut self, id: &String)
        ensures
            final(self)@ == if listens(old(self)@, id@) {
                old(self)@
            } else {
                old(self)@.push(id@)
            },
    {
        if self.position(id.as_str()).is_none() {
            let ghost before = self.ids@;
            self.ids.push(id.clone());
            assert(views(self.ids@) =~= views(before).push(id@));
        }
    }

    fn forget(&mut self, id: &str)
        ensures
            final(self)@ == without(old(self)@, id@),
    {
        let ghost all = self@;
        let mut kept: Vec<String> = Vec::new();
        let mut i: usize = 0;
        assert(views(kept@) =~= without(all.take(0), id@));
        while i < self.ids.len()
            invariant
                i <= self.ids.len(),
                all == self@,
                views(kept@) == without(all.take(i as int), id@),
            decreases self.ids.len() - i,
        {
            assert(all.take(i + 1).drop_last() =~= all.take(i as int));
            assert(all[i as int] == self.ids@[i as int]@);
            if !same(self.ids[i].as_str(), id) {
                let ghost before = views(kept@);
                let s = self.ids[i].clone();
                let ghost sv = s@;
                kept.push(s);
                assert(views(kept@) =~= before.push(sv));
            }
            i = i + 1;
        }
        assert(all.take(i as int) =~= all);
        self.ids = kept;
    }
}

/// What comes from a keyspace's bus.
#[derive(Debug)]
pub enum BusEvent {
    Change(ChangeEvent),
    /// The subscription was too slow and missed changes.
    Lagged,
    Closed,
}

/// What a subscription does with it.
#[derive(Debug)]
pub enum ListenStep {
    Skip,
    Send(ServerMsg),
    Stop,
}

/// The update that a subscription tells of a change, given the texts of the
/// change's key and value.
pub fn update_of(id: String, event: &ChangeEvent, key: String, value: Option<String>) -> (m: ServerMsg)
    ensures
        m@ == (Told::Update {
            id: id@,
            keyspace: event@.keyspace,
            key: key@,
            value: match value {
                Some(v) => Some(v@),
                None => None,
            },
            sequence: event@.sequence,
            timestamp: event@.timestamp,
            tombstone: event@.value is None,
        }),
{
    ServerMsg::Update {
        id,
        keyspace: event.keyspace.clone(),
        key,
        value,
        sequence: event.sequence,
        timestamp: event.timestamp,
        tombstone: event.is_tombstone(),
    }
}

/// What a subscription does with what comes from its bus: changes of keys
/// that it wants are passed on, and where it missed any the client is told to
/// read again.
pub fn listen(id: &str, filter: &Filter, event: BusEvent) -> (s: ListenStep)
    ensures
        match event {
            BusEvent::Change(e) => if filter.admits(e@.key) {
                s matches ListenStep::Send(m) && m@ == (Told::Update {
                    id: id@,
                    keyspace: e@.keyspace,
                    key: lossy_text(e@.key),
                    value: match e@.value {
                        Some(v) => Some(lossy_text(v)),
                        None => None,
                    },
                    sequence: e@.sequence,
                    timestamp: e@.timestamp,
                    tombstone: e@.value is None,
                })
            } else {
                s is Skip
            },
            BusEvent::Lagged => s matches ListenStep::Send(m) && m@ == Told::ResyncRequired(id@),
            BusEvent::Closed => s is Stop,
        },
        event matches BusEvent::Change(e) ==> (s is Send <==> match filter {
            Filter::Key(k) => e@.key == encode_utf8(k@),
            Filter::Prefix(p) => encode_utf8(p@).is_prefix_of(e@.key),
        }),
        event matches BusEvent::Change(e) ==> (s is Send || s is Skip),
{
    match event {
        BusEvent::Change(e) => {
            if !matches_filter(filter, e.key.as_slice()) {
                return ListenStep::Skip;
            }
            let value = match &e.value {
                ChangeValue::Put(v) => Some(lossy(v.as_slice())),
                ChangeValue::Delete => None,
            };
            let key = lossy(e.key.as_slice());
            ListenStep::Send(update_of(id.to_owned(), &e, key, value))
        },
        BusEvent::Lagged => ListenStep::Send(ServerMsg::ResyncRequired { id: id.to_owned() }),
        BusEvent::Closed => ListenStep::Stop,
    }
}

/// What comes from a topic.
#[derive(Debug)]
pub enum TopicEvent {
    Delivered(Delivery),
    /// The subscription was too slow and missed messages.
    Lagged,
    Closed,
}

/// What a subscription to a topic does with what comes from it: every message
/// is passed on, and where it missed any the client is told so.
pub fn hear_topic(id: &str, topic: &str, event: TopicEvent) -> (s: ListenStep)
    ensures
        match event {
            TopicEvent::Delivered(d) => s matches ListenStep::Send(m) && m@ == (Told::Message {
                id: id@,
                topic: topic@,
                offset: d@.0,
                value: lossy_text(d@.1),
            }),
            TopicEvent::Lagged => s matches ListenStep::Send(m) && m@ == Told::ResyncRequired(id@),
            TopicEvent::Closed => s is Stop,
        },
{
    match event {
        TopicEvent::Delivered(d) => ListenStep::Send(
            ServerMsg::Message {
                id: id.to_owned(),
                topic: topic.to_owned(),
                offset: d.offset,
                value: lossy(d.payload.as_slice()),
            },
        ),
        TopicEvent::Lagged => ListenStep::Send(ServerMsg::ResyncRequired { id: id.to_owned() }),
        TopicEvent::Closed => ListenStep::Stop,
    }
}

/// A subscription to a key gets a subset of the changes that one to any of
/// the key's prefixes gets.
pub proof fn law_key_is_narrower_than_prefix(k: Filter, p: Filter, key: Seq<u8>)
    requires
        k matches Filter::Key(a) && p matches Filter::Prefix(b) && bytes_begin(
            encode_utf8(a@),
            encode_utf8(b@),
        ),
        k.admits(key),
    ensures
        p.admits(key),
{
}

/// After it unsubscribed, a client listens no longer under that id, and under
/// its other ids as before.
pub proof fn law_unsubscribe_forgets(ids: Seq<Seq<char>>, id: Seq<char>, other: Seq<char>)
    ensures
        !listens(without(ids, id), id),
        other != id ==> (listens(without(ids, id), other) <==> listens(ids, other)),
    decreases ids.len(),
{
    if ids.len() > 0 {
        let front = ids.drop_last();
        let rest = without(front, id);
        law_unsubscribe_forgets(front, id, other);
        let all = without(ids, id);
        if ids.last() != id {
            assert(all == rest.push(ids.last()));
            if all.contains(id) {
                let k = all.index_of(id);
                assert(rest[k] == id);
            }
            if rest.contains(other) {
                let k = rest.index_of(other);
                assert(all[k] == other);
            }
            if ids.last() == other {
                assert(all[rest.len() as int] == other);
            }
            if all.contains(other) {
                let k = all.index_of(other);
                if k < rest.len() {
                    assert(rest[k] == other);
                }
            }
        }
        if ids.contains(other) {
            let k = ids.index_of(other);
            if k < front.len() {
                assert(front[k] == other);
            }
        }
        if front.contains(other) {
            let k = front.index_of(other);
            assert(ids[k] == other);
        }
    }
}

/// A subscription to a prefix gets the changes of the keys that begin with it
/// and of no others, and one to a key those of that key alone.
pub proof fn law_filter_admits_only_its_keys(f: Filter, key: Seq<u8>)
    ensures
        f matches Filter::Key(k) ==> (f.admits(key) <==> key == encode_utf8(k@)),
        f matches Filter::Prefix(p) ==> (f.admits(key) <==> exists|rest: Seq<u8>|
            key == #[trigger] (encode_utf8(p@) + rest)),
{
    if let Filter::Prefix(p) = f {
        let prefix = encode_utf8(p@);
        if f.admits(key) {
            assert(key =~= prefix + key.skip(prefix.len() as int));
        }
        if exists|rest: Seq<u8>| key == #[trigger] (prefix + rest) {
            let rest = choose|rest: Seq<u8>| key == #[trigger] (prefix + rest);
            assert(key.take(prefix.len() as int) =~= prefix);
        }
    }
}

/// Unsubscribing keeps the other ids, in their order.
pub proof fn law_other_ids_stay_in_order(ids: Seq<Seq<char>>, id: Seq<char>)
    ensures
        without(ids, id) == ids.filter(|x: Seq<char>| x != id),
    decreases ids.len(),
{
    reveal(Seq::filter);
    if ids.len() > 0 {
        law_other_ids_stay_in_order(ids.drop_last(), id);
    }
}

/// What a client is told is what the message to it holds.
pub proof fn law_told_is_what_is_sent(m: ServerMsg)
    ensures
        match m {
            ServerMsg::Subscribed { id } => m@ == Told::Subscribed(id@),
            ServerMsg::Unsubscribed { id } => m@ == Told::Unsubscribed(id@),
            ServerMsg::Error { id, message } => m@ == Told::Error(id@, message@),
            ServerMsg::Update { id, keyspace, key, value, sequence, timestamp, tombstone } => {
                m@ matches Told::Update {
                    id: i,
                    keyspace: n,
                    key: k,
                    value: v,
                    sequence: s,
                    timestamp: t,
                    tombstone: gone,
                } && i == id@ && n == keyspace@ && k == key@ && is_text(value, v) && s == sequence
                    && t == timestamp && gone == tombstone
            },
            ServerMsg::ResyncRequired { id } => m@ == Told::ResyncRequired(id@),
            ServerMsg::Message { id, topic, offset, value } => m@ == (Told::Message {
                id: id@,
                topic: topic@,
                offset,
                value: value@,
            }),
        },
{
}

/// What is done for a client: one message to it, or a subscription to what it
/// asked for, a key before a prefix, with its confirmation.
pub proof fn law_actions_are_what_is_asked(
    v: Seq<SocketAction>,
    t: Told,
    id: Seq<char>,
    keyspace: Seq<char>,
    key: Option<String>,
    prefix: Option<String>,
)
    ensures
        only_tells(v, t) <==> v.len() == 1 && (v[0] matches SocketAction::Tell(m) && m@ == t),
        starts(v, id, keyspace, key, prefix) ==> {
            &&& v.len() == 2
            &&& v[0] matches SocketAction::Listen { id: i, keyspace: k, filter } && i@ == id && k@
                == keyspace && (key matches Some(x) ==> (filter matches Filter::Key(y) && y@ == x@))
                && (key is None ==> (prefix matches Some(x) && (filter matches Filter::Prefix(y)
                && y@ == x@)))
            &&& v[1] matches SocketAction::Tell(m) && m@ == Told::Subscribed(id)
        },
        listens(seq![id], id),
        is_text(key, None) <==> key is None,
        is_text(key, Some(id)) <==> (key matches Some(x) && x@ == id),
{
    assert(seq![id][0] == id);
}

} // verus!
