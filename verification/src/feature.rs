//! The installable products, and sets of them.
//!
//! Each product exposes one subsystem; a user installs only what they want.
//! A set of products describes both what a binary was built with and what a
//! node's profile activates.

use crate::text::{join, lowered, same, to_lower, trim, trimmed, views};
use std::str::FromStr;
use vstd::prelude::*;
use vstd::string::StringExecFns;

verus! {

/// One installable product.
#[derive(Clone, Copy, Debug, PartialEq, Eq, Structural, Hash, PartialOrd, Ord)]
pub enum Feature {
    Cache,
    Kv,
    Pubsub,
    Queue,
    Stream,
}

impl Feature {
    /// Every product, in canonical order.
    pub const ALL: [Feature; 5] = [
        Feature::Cache,
        Feature::Kv,
        Feature::Pubsub,
        Feature::Queue,
        Feature::Stream,
    ];

    pub open spec fn name(self) -> Seq<char> {
        match self {
            Feature::Cache => "cache"@,
            Feature::Kv => "kv"@,
            Feature::Pubsub => "pubsub"@,
            Feature::Queue => "queue"@,
            Feature::Stream => "stream"@,
        }
    }

    /// The product that a name stands for, case and surrounding white space
    /// aside.
    pub open spec fn named(s: Seq<char>) -> Option<Feature> {
        let n = lowered(trimmed(s));
        if n == "cache"@ {
            Some(Feature::Cache)
        } else if n == "kv"@ || n == "kvstore"@ || n == "kv-store"@ {
            Some(Feature::Kv)
        } else if n == "pubsub"@ || n == "pub-sub"@ || n == "pub/sub"@ {
            Some(Feature::Pubsub)
        } else if n == "queue"@ {
            Some(Feature::Queue)
        } else if n == "stream"@ || n == "streaming"@ || n == "streams"@ {
            Some(Feature::Stream)
        } else {
            None
        }
    }

    pub open spec fn title(self) -> Seq<char> {
        match self {
            Feature::Cache => "Falcon Cache"@,
            Feature::Kv => "Falcon KV Store"@,
            Feature::Pubsub => "Falcon Pub/Sub"@,
            Feature::Queue => "Falcon Queue"@,
            Feature::Stream => "Falcon Event Stream"@,
        }
    }

    /// What the product is, in a line.
    pub open spec fn summary(self) -> Seq<char> {
        match self {
            Feature::Cache => "low-latency RAM cache that spills to disk, with TTL"@,
            Feature::Kv => "durable key-value store with real-time updates"@,
            Feature::Pubsub => "publish/subscribe topics"@,
            Feature::Queue => "durable work queues with competing consumers"@,
            Feature::Stream => "partitioned, replayable event logs"@,
        }
    }

    /// The lower-case name used on the command line and in profiles.
    pub fn as_str(self) -> (s: &'static str)
        ensures
            s@ == self.name(),
    {
        match self {
            Feature::Cache => "cache",
            Feature::Kv => "kv",
            Feature::Pubsub => "pubsub",
            Feature::Queue => "queue",
            Feature::Stream => "stream",
        }
    }

    /// The product's name for people.
    pub fn product_name(self) -> (s: &'static str)
        ensures
            s@ == self.title(),
    {
        match self {
            Feature::Cache => "Falcon Cache",
            Feature::Kv => "Falcon KV Store",
            Feature::Pubsub => "Falcon Pub/Sub",
            Feature::Queue => "Falcon Queue",
            Feature::Stream => "Falcon Event Stream",
        }
    }

    /// A one-line description.
    pub fn tagline(self) -> (s: &'static str)
        ensures
            s@ == self.summary(),
    {
        match self {
            Feature::Cache => "low-latency RAM cache that spills to disk, with TTL",
            Feature::Kv => "durable key-value store with real-time updates",
            Feature::Pubsub => "publish/subscribe topics",
            Feature::Queue => "durable work queues with competing consumers",
            Feature::Stream => "partitioned, replayable event logs",
        }
    }

    /// Reads a product's name. The error holds the name as it was compared.
    pub fn parse(s: &str) -> (r: Result<Feature, ParseFeatureError>)
        ensures
            match r {
                Ok(f) => Feature::named(s@) == Some(f),
                Err(e) => Feature::named(s@) is None && e@ == lowered(trimmed(s@)),
            },
    {
        let name = to_lower(trim(s).as_str());
        let n = name.as_str();
        if same(n, "cache") {
            Ok(Feature::Cache)
        } else if same(n, "kv") || same(n, "kvstore") || same(n, "kv-store") {
            Ok(Feature::Kv)
        } else if same(n, "pubsub") || same(n, "pub-sub") || same(n, "pub/sub") {
            Ok(Feature::Pubsub)
        } else if same(n, "queue") {
            Ok(Feature::Queue)
        } else if same(n, "stream") || same(n, "streaming") || same(n, "streams") {
            Ok(Feature::Stream)
        } else {
            Err(ParseFeatureError(name))
        }
    }
}

/// A name that no product has.
#[derive(Debug)]
pub struct ParseFeatureError(String);

impl View for ParseFeatureError {
    type V = Seq<char>;

    closed spec fn view(&self) -> Seq<char> {
        self.0@
    }
}

impl ParseFeatureError {
    /// The message shown for this error.
    pub fn message(&self) -> (s: String)
        ensures
            s@ == "unknown feature '"@ + self@
                + "' (expected one of: cache, kv, pubsub, queue, stream)"@,
    {
        let mut s = "unknown feature '".to_owned();
        s.append(self.0.as_str());
        s.append("' (expected one of: cache, kv, pubsub, queue, stream)");
        s
    }
}

impl FromStr for Feature {
    type Err = ParseFeatureError;

    fn from_str(s: &str) -> (r: Result<Self, Self::Err>)
        ensures
            match r {
                Ok(f) => Feature::named(s@) == Some(f),
                Err(e) => Feature::named(s@) is None && e@ == lowered(trimmed(s@)),
            },
    {
        Feature::parse(s)
    }
}

/// A list of products in the order in which they were added.
#[derive(Debug, PartialEq, Eq)]
pub struct FeatureSet(Vec<Feature>);

impl View for FeatureSet {
    type V = Seq<Feature>;

    closed spec fn view(&self) -> Seq<Feature> {
        self.0@
    }
}

impl Clone for FeatureSet {
    fn clone(&self) -> (set: Self)
        ensures
            set@ == self@,
    {
        FeatureSet(self.iter())
    }
}

impl Default for FeatureSet {
    fn default() -> (set: Self)
        ensures
            set@ == Seq::<Feature>::empty(),
    {
        FeatureSet::new()
    }
}

pub open spec fn all_features() -> Seq<Feature> {
    seq![Feature::Cache, Feature::Kv, Feature::Pubsub, Feature::Queue, Feature::Stream]
}

/// A set after adding a product: at the end where it is new, else unchanged.
pub open spec fn with_feature(s: Seq<Feature>, f: Feature) -> Seq<Feature> {
    if s.contains(f) {
        s
    } else {
        s.push(f)
    }
}

/// The set that adding the products of a list one by one makes.
pub open spec fn collected(list: Seq<Feature>) -> Seq<Feature>
    decreases list.len(),
{
    if list.len() == 0 {
        Seq::empty()
    } else {
        with_feature(collected(list.drop_last()), list.last())
    }
}

pub open spec fn feature_names(s: Seq<Feature>) -> Seq<Seq<char>> {
    s.map_values(|f: Feature| f.name())
}

impl FeatureSet {
    pub fn new() -> (set: Self)
        ensures
            set@ == Seq::<Feature>::empty(),
    {
        FeatureSet(Vec::new())
    }

    /// Every product, in canonical order.
    pub fn all() -> (set: Self)
        ensures
            set@ == all_features(),
    {
        let mut v: Vec<Feature> = Vec::new();
        v.push(Feature::Cache);
        v.push(Feature::Kv);
        v.push(Feature::Pubsub);
        v.push(Feature::Queue);
        v.push(Feature::Stream);
        assert(v@ =~= all_features());
        FeatureSet(v)
    }

    /// Exactly the listed products, repetitions kept.
    pub fn listed(list: Vec<Feature>) -> (set: Self)
        ensures
            set@ == list@,
    {
        FeatureSet(list)
    }

    /// The products of a list, repetitions dropped.
    pub fn from_features(list: &[Feature]) -> (set: Self)
        ensures
            set@ == collected(list@),
    {
        let mut set = FeatureSet::new();
        let mut i: usize = 0;
        while i < list.len()
            invariant
                i <= list.len(),
                set@ == collected(list@.take(i as int)),
            decreases list.len() - i,
        {
            assert(list@.take(i + 1).drop_last() =~= list@.take(i as int));
            set.insert(list[i]);
            i = i + 1;
        }
        assert(list@.take(i as int) =~= list@);
        set
    }

    /// Where a product first stands in the set.
    fn position(&self, f: Feature) -> (r: Option<usize>)
        ensures
            r is None <==> !self@.contains(f),
            r matches Some(i) ==> i < self@.len() && self@[i as int] == f && forall|j: int|
                0 <= j < i ==> self@[j] != f,
    {
        let mut i: usize = 0;
        while i < self.0.len()
            invariant
                i <= self.0.len(),
                forall|j: int| 0 <= j < i ==> self@[j] != f,
            decreases self.0.len() - i,
        {
            if self.0[i] == f {
                assert(self@[i as int] == f);
                return Some(i);
            }
            i = i + 1;
        }
        None
    }

    pub fn contains(&self, f: Feature) -> (r: bool)
        ensures
            r == self@.contains(f),
    {
        self.position(f).is_some()
    }

    pub fn is_empty(&self) -> (r: bool)
        ensures
            r == (self@.len() == 0),
    {
        self.0.len() == 0
    }

    pub fn len(&self) -> (n: usize)
        ensures
            n == self@.len(),
    {
        self.0.len()
    }

    /// Adds a product. Returns whether it was new.
    pub fn insert(&mut self, f: Feature) -> (r: bool)
        ensures
            final(self)@ == with_feature(old(self)@, f),
            r == !old(self)@.contains(f),
    {
        if self.contains(f) {
            false
        } else {
            self.0.push(f);
            true
        }
    }

    /// Removes a product. Returns whether it was there.
    pub fn remove(&mut self, f: Feature) -> (r: bool)
        ensures
            r == old(self)@.contains(f),
            !r ==> final(self)@ == old(self)@,
            r ==> final(self)@ == old(self)@.remove(old(self)@.index_of_first(f)->0),
    {
        match self.position(f) {
            Some(i) => {
                proof {
                    self@.index_of_first_ensures(f);
                    let k = self@.index_of_first(f)->0;
                    assert(k == i) by {
                        if k < i {
                            assert(self@[k] != f);
                        }
                        if i < k {
                            assert(self@[i as int] != f);
                        }
                    }
                }
                self.0.remove(i);
                true
            },
            None => false,
        }
    }

    /// The products in order.
    pub fn iter(&self) -> (list: Vec<Feature>)
        ensures
            list@ == self@,
    {
        vstd::slice::slice_to_vec(self.0.as_slice())
    }

    /// The first product of this set that `compiled` lacks.
    pub fn first_uncompiled(&self, compiled: &FeatureSet) -> (r: Option<Feature>)
        ensures
            r is None <==> forall|i: int| 0 <= i < self@.len() ==> compiled@.contains(#[trigger] self@[i]),
            r matches Some(f) ==> exists|i: int|
                0 <= i < self@.len() && #[trigger] self@[i] == f && !compiled@.contains(f)
                    && forall|j: int| 0 <= j < i ==> compiled@.contains(#[trigger] self@[j]),
    {
        let mut i: usize = 0;
        while i < self.0.len()
            invariant
                i <= self.0.len(),
                forall|j: int| 0 <= j < i ==> compiled@.contains(#[trigger] self@[j]),
            decreases self.0.len() - i,
        {
            if !compiled.contains(self.0[i]) {
                assert(self@[i as int] == self.0@[i as int]);
                return Some(self.0[i]);
            }
            i = i + 1;
        }
        None
    }

    /// The names of the products, in order.
    pub fn names(&self) -> (out: Vec<String>)
        ensures
            views(out@) == feature_names(self@),
    {
        let mut out: Vec<String> = Vec::new();
        let mut i: usize = 0;
        while i < self.0.len()
            invariant
                i <= self.0.len(),
                out@.len() == i,
                forall|j: int| 0 <= j < i ==> (#[trigger] out@[j])@ == self@[j].name(),
            decreases self.0.len() - i,
        {
            out.push(self.0[i].as_str().to_owned());
            i = i + 1;
        }
        assert(views(out@) =~= feature_names(self@));
        out
    }

    /// The names of the products in order, with `sep` between neighbours.
    pub fn display(&self, sep: &str) -> (s: String)
        ensures
            s@ == crate::text::joined(feature_names(self@), sep@),
    {
        join(self.names().as_slice(), sep)
    }

    /// Whether two sets hold the same products in the same order.
    pub fn same_as(&self, other: &FeatureSet) -> (r: bool)
        ensures
            r == (self@ == other@),
    {
        if self.0.len() != other.0.len() {
            return false;
        }
        let mut i: usize = 0;
        while i < self.0.len()
            invariant
                i <= self.0.len(),
                self.0.len() == other.0.len(),
                forall|j: int| 0 <= j < i ==> self@[j] == other@[j],
            decreases self.0.len() - i,
        {
            if self.0[i] != other.0[i] {
                assert(self@[i as int] != other@[i as int]);
                return false;
            }
            i = i + 1;
        }
        assert(self@ =~= other@);
        true
    }
}

/// Which products a binary was built with.
#[derive(Clone, Copy, Debug)]
pub struct BuildFlags {
    pub cache: bool,
    pub kv: bool,
    pub pubsub: bool,
    pub queue: bool,
    pub stream: bool,
}

impl BuildFlags {
    pub open spec fn has(self, f: Feature) -> bool {
        match f {
            Feature::Cache => self.cache,
            Feature::Kv => self.kv,
            Feature::Pubsub => self.pubsub,
            Feature::Queue => self.queue,
            Feature::Stream => self.stream,
        }
    }
}

/// The products of a build, in canonical order.
pub fn compiled(flags: BuildFlags) -> (set: FeatureSet)
    ensures
        set@ == all_features().filter(|f: Feature| flags.has(f)),
{
    let mut set = FeatureSet::new();
    let ghost keep = |f: Feature| flags.has(f);
    proof {
        let a = all_features();
        reveal(Seq::filter);
        assert(a.drop_last().drop_last().drop_last().drop_last().drop_last() =~= Seq::empty());
        assert(a.drop_last().last() == Feature::Queue);
        assert(a.drop_last().drop_last().last() == Feature::Pubsub);
        assert(a.drop_last().drop_last().drop_last().last() == Feature::Kv);
        assert(a.drop_last().drop_last().drop_last().drop_last().last() == Feature::Cache);
        reveal_with_fuel(Seq::filter, 6);
    }
    if flags.cache {
        set.insert(Feature::Cache);
    }
    if flags.kv {
        set.insert(Feature::Kv);
    }
    if flags.pubsub {
        set.insert(Feature::Pubsub);
    }
    if flags.queue {
        set.insert(Feature::Queue);
    }
    if flags.stream {
        set.insert(Feature::Stream);
    }
    set
}

/// The label of a build: the product's name where there is one product,
/// `Falcon (full)` where every product is in it, else the list of names.
pub open spec fn label_of(set: Seq<Feature>) -> Seq<char> {
    if set == all_features() {
        "Falcon (full)"@
    } else if set.len() == 1 {
        set[0].title()
    } else {
        "Falcon ("@ + crate::text::joined(feature_names(set), ", "@) + ")"@
    }
}

pub fn build_label(compiled: &FeatureSet) -> (s: String)
    ensures
        s@ == label_of(compiled@),
{
    if compiled.same_as(&FeatureSet::all()) {
        "Falcon (full)".to_owned()
    } else if compiled.len() == 1 {
        compiled.0[0].product_name().to_owned()
    } else {
        let mut s = "Falcon (".to_owned();
        s.append(compiled.display(", ").as_str());
        s.append(")");
        s
    }
}

/// A product's name reads back as that product.
pub proof fn law_name_round_trip(f: Feature)
    ensures
        Feature::named(f.name()) == Some(f),
{
    reveal_strlit("cache");
    reveal_strlit("kv");
    reveal_strlit("pubsub");
    reveal_strlit("queue");
    reveal_strlit("stream");
    reveal_strlit("kvstore");
    reveal_strlit("kv-store");
    reveal_strlit("pub-sub");
    reveal_strlit("pub/sub");
    reveal_strlit("streaming");
    reveal_strlit("streams");
    let n = f.name();
    assert(trimmed(n) == n);
    assert(lowered(n) =~= n);
    assert("cache"@.len() == 5);
    assert("kv"@.len() == 2);
    assert("cache"@ != "kv"@);
    assert("queue"@[0] == 'q' && "cache"@[0] == 'c');
    assert("stream"@[0] == 's' && "pubsub"@[0] == 'p');
}

/// No two products share a name.
pub proof fn law_names_distinct(f: Feature, g: Feature)
    requires
        f.name() == g.name(),
    ensures
        f == g,
{
    law_name_round_trip(f);
    law_name_round_trip(g);
}

/// Adding keeps a set free of repetitions and makes it hold the product.
pub proof fn law_insert_keeps_distinct(s: Seq<Feature>, f: Feature)
    requires
        s.no_duplicates(),
    ensures
        with_feature(s, f).no_duplicates(),
        with_feature(s, f).contains(f),
        with_feature(with_feature(s, f), f) == with_feature(s, f),
        forall|g: Feature| g != f ==> (with_feature(s, f).contains(g) <==> s.contains(g)),
{
    let t = with_feature(s, f);
    if !s.contains(f) {
        assert(t[s.len() as int] == f);
        assert forall|g: Feature| g != f implies (t.contains(g) <==> s.contains(g)) by {
            if s.contains(g) {
                let i = s.index_of(g);
                assert(t[i] == g);
            }
            if t.contains(g) {
                let i = t.index_of(g);
                assert(s[i] == g);
            }
        }
    }
}

/// Removing takes the product out of a set free of repetitions, keeps it so,
/// and leaves the other products.
pub proof fn law_remove_takes_out(s: Seq<Feature>, f: Feature)
    requires
        s.no_duplicates(),
        s.contains(f),
    ensures
        s.remove(s.index_of_first(f)->0).no_duplicates(),
        !s.remove(s.index_of_first(f)->0).contains(f),
        forall|g: Feature|
            g != f ==> (s.remove(s.index_of_first(f)->0).contains(g) <==> s.contains(g)),
{
    s.index_of_first_ensures(f);
    let k = s.index_of_first(f)->0;
    let t = s.remove(k);
    assert forall|g: Feature| g != f implies (t.contains(g) <==> s.contains(g)) by {
        if s.contains(g) {
            let i = s.index_of(g);
            assert(s[i] == g);
            if i < k {
                assert(t[i] == g);
            } else {
                assert(t[i - 1] == g);
            }
        }
        if t.contains(g) {
            let i = t.index_of(g);
            if i < k {
                assert(s[i] == g);
            } else {
                assert(s[i + 1] == g);
            }
        }
    }
    if t.contains(f) {
        let i = t.index_of(f);
        if i < k {
            assert(s[i] == f);
        } else {
            assert(s[i + 1] == f);
        }
    }
}

/// A product is known by its name and its other spellings, in small or large
/// letters and with white space around it, and by nothing else.
pub proof fn law_spellings(s: Seq<char>)
    ensures
        ({
            let n = lowered(trimmed(s));
            let r = Feature::named(s);
            &&& r is Some <==> n == "cache"@ || n == "kv"@ || n == "kvstore"@ || n == "kv-store"@ || n
                == "pubsub"@ || n == "pub-sub"@ || n == "pub/sub"@ || n == "queue"@ || n
                == "stream"@ || n == "streaming"@ || n == "streams"@
            &&& r == Some(Feature::Cache) ==> n == "cache"@
            &&& r == Some(Feature::Kv) ==> n == "kv"@ || n == "kvstore"@ || n == "kv-store"@
            &&& r == Some(Feature::Pubsub) ==> n == "pubsub"@ || n == "pub-sub"@ || n == "pub/sub"@
            &&& r == Some(Feature::Queue) ==> n == "queue"@
            &&& r == Some(Feature::Stream) ==> n == "stream"@ || n == "streaming"@ || n
                == "streams"@
        }),
{
}

/// Each product has its name, its title and its line of description.
pub proof fn law_products(f: Feature)
    ensures
        (f.name(), f.title(), f.summary()) == match f {
            Feature::Cache => (
                "cache"@,
                "Falcon Cache"@,
                "low-latency RAM cache that spills to disk, with TTL"@,
            ),
            Feature::Kv => (
                "kv"@,
                "Falcon KV Store"@,
                "durable key-value store with real-time updates"@,
            ),
            Feature::Pubsub => ("pubsub"@, "Falcon Pub/Sub"@, "publish/subscribe topics"@),
            Feature::Queue => (
                "queue"@,
                "Falcon Queue"@,
                "durable work queues with competing consumers"@,
            ),
            Feature::Stream => (
                "stream"@,
                "Falcon Event Stream"@,
                "partitioned, replayable event logs"@,
            ),
        },
        all_features() == seq![
            Feature::Cache,
            Feature::Kv,
            Feature::Pubsub,
            Feature::Queue,
            Feature::Stream,
        ],
{
}

/// A product is added at the end, and once.
pub proof fn law_products_are_added_once(s: Seq<Feature>, f: Feature)
    ensures
        s.contains(f) ==> with_feature(s, f) == s,
        !s.contains(f) ==> with_feature(s, f) == s.push(f),
{
}

/// A set made from a list holds what the list holds, each product once.
pub proof fn law_set_holds_the_list(list: Seq<Feature>)
    ensures
        collected(list).no_duplicates(),
        forall|f: Feature| #[trigger] collected(list).contains(f) <==> list.contains(f),
    decreases list.len(),
{
    if list.len() > 0 {
        let front = list.drop_last();
        law_set_holds_the_list(front);
        law_insert_keeps_distinct(collected(front), list.last());
        assert forall|f: Feature| #[trigger] collected(list).contains(f) <==> list.contains(f) by {
            let before = collected(front);
            assert(collected(list) == with_feature(before, list.last()));
            if before.contains(f) && !before.contains(list.last()) {
                assert(before.push(list.last())[before.index_of(f)] == f);
            }
            if list.contains(f) {
                let k = list.index_of(f);
                if k < front.len() {
                    assert(front[k] == f);
                    assert(front.contains(f));
                }
            }
            if front.contains(f) {
                let k = front.index_of(f);
                assert(list[k] == f);
            }
            if f == list.last() {
                assert(list[list.len() - 1] == f);
            }
        }
    }
}

/// A set made from a list keeps the order in which products first come.
pub proof fn law_set_keeps_the_order(list: Seq<Feature>, f: Feature)
    ensures
        collected(Seq::empty()).len() == 0,
        list.contains(f) ==> collected(list.push(f)) == collected(list),
        !list.contains(f) ==> collected(list.push(f)) == collected(list).push(f),
{
    assert(list.push(f).drop_last() =~= list);
    law_set_holds_the_list(list);
}

/// The names of products, one by one, and the label of a build: its product
/// where it has one, a full one where it has all, else their names.
pub proof fn law_labels(s: Seq<Feature>, flags: BuildFlags)
    ensures
        feature_names(s).len() == s.len(),
        forall|i: int| 0 <= i < s.len() ==> #[trigger] feature_names(s)[i] == s[i].name(),
        s.len() == 1 ==> label_of(s) == s[0].title(),
        s == seq![Feature::Cache, Feature::Kv, Feature::Pubsub, Feature::Queue, Feature::Stream]
            ==> label_of(s) == "Falcon (full)"@,
        s.len() != 1 && s != seq![
            Feature::Cache,
            Feature::Kv,
            Feature::Pubsub,
            Feature::Queue,
            Feature::Stream,
        ] ==> label_of(s) == "Falcon ("@ + crate::text::joined(feature_names(s), ", "@) + ")"@,
        flags.has(Feature::Cache) == flags.cache && flags.has(Feature::Kv) == flags.kv && flags.has(
            Feature::Pubsub,
        ) == flags.pubsub && flags.has(Feature::Queue) == flags.queue && flags.has(Feature::Stream)
            == flags.stream,
{
}

} // verus!
