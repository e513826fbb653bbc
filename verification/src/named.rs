//! Things of one sort under their names.

use crate::text::views;
use vstd::hash_map::StringHashMap;
use vstd::prelude::*;

verus! {

broadcast use vstd::hash_map::group_hash_map_axioms;

/// The entries of a list under their names; of two with one name the later.
pub open spec fn by_name<T>(list: Seq<(String, T)>) -> Map<Seq<char>, T>
    decreases list.len(),
{
    if list.len() == 0 {
        Map::empty()
    } else {
        by_name(list.drop_last()).insert(list.last().0@, list.last().1)
    }
}

/// Things of one sort under their names.
#[verifier::reject_recursive_types(T)]
pub struct Named<T> {
    map: StringHashMap<T>,
    names: Vec<String>,
}

impl<T> View for Named<T> {
    type V = Map<Seq<char>, T>;

    closed spec fn view(&self) -> Map<Seq<char>, T> {
        self.map@
    }
}

impl<T> Named<T> {
    /// What stays true: the names that are listed are the names there are.
    pub closed spec fn wf(&self) -> bool {
        &&& views(self.names@).no_duplicates()
        &&& forall|n: Seq<char>| #[trigger]
            self.map@.contains_key(n) <==> views(self.names@).contains(n)
    }

    pub fn of(list: Vec<(String, T)>) -> (r: Named<T>)
        ensures
            r.wf(),
            r@ == by_name(list@),
    {
        let ghost whole = list@;
        let mut rest = list;
        let mut map: StringHashMap<T> = StringHashMap::new();
        let mut names: Vec<String> = Vec::new();
        let ghost done: int = 0;
        assert(whole.skip(0) =~= whole);
        while rest.len() > 0
            invariant
                0 <= done <= whole.len(),
                rest@ == whole.skip(done),
                map@ == by_name(whole.take(done)),
                views(names@).no_duplicates(),
                forall|n: Seq<char>| #[trigger]
                    map@.contains_key(n) <==> views(names@).contains(n),
            decreases rest.len(),
        {
            let (name, item) = rest.remove(0);
            let ghost before = names@;
            let ghost nv = name@;
            if !map.contains_key(name.as_str()) {
                names.push(name.clone());
                proof {
                    assert(views(names@) =~= views(before).push(nv));
                    assert(views(names@)[before.len() as int] == nv);
                    assert forall|n: Seq<char>| views(names@).contains(n) <==> n == nv || views(
                        before,
                    ).contains(n) by {
                        if views(before).contains(n) {
                            let k = views(before).index_of(n);
                            assert(views(names@)[k] == n);
                        }
                    }
                }
            }
            proof {
                assert(whole.take(done + 1).drop_last() =~= whole.take(done));
                assert(whole.skip(done).remove(0) =~= whole.skip(done + 1));
                done = done + 1;
            }
            map.insert(name, item);
        }
        assert(whole.take(done) =~= whole);
        Named { map, names }
    }

    pub fn get(&self, name: &str) -> (r: Option<&T>)
        ensures
            match r {
                Some(t) => self@.contains_key(name@) && *t == self@[name@],
                None => !self@.contains_key(name@),
            },
    {
        self.map.get(name)
    }

    pub fn is_empty(&self) -> (r: bool)
        ensures
            r == self@.is_empty(),
    {
        self.map.is_empty()
    }

    /// The names, each once.
    pub fn names(&self) -> (out: Vec<String>)
        requires
            self.wf(),
        ensures
            views(out@).no_duplicates(),
            forall|n: Seq<char>| #[trigger]
                views(out@).contains(n) <==> self@.contains_key(n),
    {
        let mut out: Vec<String> = Vec::new();
        let mut i: usize = 0;
        while i < self.names.len()
            invariant
                i <= self.names.len(),
                views(out@) == views(self.names@).take(i as int),
            decreases self.names.len() - i,
        {
            let ghost before = out@;
            let name = self.names[i].clone();
            let ghost nv = name@;
            out.push(name);
            assert(views(out@) =~= views(before).push(nv));
            assert(views(self.names@).take(i + 1) =~= views(before).push(nv));
            i = i + 1;
        }
        assert(views(out@) =~= views(self.names@));
        out
    }
}

/// A name stands for the last thing that was listed under it, and for nothing
/// where nothing was.
pub proof fn law_last_of_a_name_is_found<T>(list: Seq<(String, T)>, i: int, n: Seq<char>)
    ensures
        0 <= i < list.len() && (forall|j: int|
            i < j < list.len() ==> (#[trigger] list[j]).0@ != list[i].0@) ==> by_name(
            list,
        ).contains_key(list[i].0@) && by_name(list)[list[i].0@] == list[i].1,
        by_name(list).contains_key(n) <==> exists|j: int|
            0 <= j < list.len() && (#[trigger] list[j]).0@ == n,
    decreases list.len(),
{
    if list.len() > 0 {
        let front = list.drop_last();
        let last = list.len() - 1;
        law_last_of_a_name_is_found(front, i, n);
        if 0 <= i < last && (forall|j: int|
            i < j < list.len() ==> (#[trigger] list[j]).0@ != list[i].0@) {
            assert(list[last].0@ != list[i].0@);
            assert forall|j: int| i < j < front.len() implies (#[trigger] front[j]).0@
                != front[i].0@ by {
                assert(front[j] == list[j]);
            }
            assert(front[i] == list[i]);
        }
        if exists|j: int| 0 <= j < list.len() && (#[trigger] list[j]).0@ == n {
            let j = choose|j: int| 0 <= j < list.len() && (#[trigger] list[j]).0@ == n;
            if j < last {
                assert(front[j] == list[j]);
            }
        }
        if exists|j: int| 0 <= j < front.len() && (#[trigger] front[j]).0@ == n {
            let j = choose|j: int| 0 <= j < front.len() && (#[trigger] front[j]).0@ == n;
            assert(list[j] == front[j]);
        }
        if list[last].0@ == n {
            assert(by_name(list).contains_key(n));
        }
    }
}

} // verus!
