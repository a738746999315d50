//! JSON values as the library sees them.
use vstd::prelude::*;
use crate::text::same_text;

verus! {

/// A JSON value. A number is kept as its JSON text (`"21"`, `"-3"`, `"0.5"`,
/// `"1e-7"`); an object as its members in order, each key once.
#[derive(Debug, PartialEq, Eq)]
pub enum Json {
    Null,
    Bool(bool),
    Number(String),
    Str(String),
    Array(Vec<Json>),
    Object(Vec<(String, Json)>),
}

/// The value stored under `key` in a member list: the last member with that key.
pub open spec fn lookup(members: Seq<(String, Json)>, key: Seq<char>) -> Option<Json>
    decreases members.len(),
{
    if members.len() == 0 {
        None
    } else if members.last().0@ == key {
        Some(members.last().1)
    } else {
        lookup(members.drop_last(), key)
    }
}

/// The members of `members` whose key is not `key`, in order.
pub open spec fn without(members: Seq<(String, Json)>, key: Seq<char>) -> Seq<(String, Json)>
    decreases members.len(),
{
    if members.len() == 0 {
        Seq::empty()
    } else if members.last().0@ == key {
        without(members.drop_last(), key)
    } else {
        without(members.drop_last(), key).push(members.last())
    }
}

proof fn lemma_lookup_without(members: Seq<(String, Json)>, key: Seq<char>, other: Seq<char>)
    ensures
        lookup(without(members, key), key) is None,
        other != key ==> lookup(without(members, key), other) == lookup(members, other),
    decreases members.len(),
{
    if members.len() > 0 {
        lemma_lookup_without(members.drop_last(), key, other);
        if members.last().0@ != key {
            assert(without(members, key).drop_last() =~= without(members.drop_last(), key));
        }
    }
}

/// Whether `key` is one of `names`.
pub open spec fn named(names: Seq<String>, key: Seq<char>) -> bool {
    exists|i: int| 0 <= i < names.len() && #[trigger] names[i]@ == key
}

/// The members of `members` whose key is one of `names`, in order.
pub open spec fn only_named(members: Seq<(String, Json)>, names: Seq<String>) -> Seq<(String, Json)>
    decreases members.len(),
{
    if members.len() == 0 {
        Seq::empty()
    } else if named(names, members.last().0@) {
        only_named(members.drop_last(), names).push(members.last())
    } else {
        only_named(members.drop_last(), names)
    }
}

proof fn lemma_lookup_only_named(members: Seq<(String, Json)>, names: Seq<String>, key: Seq<char>)
    ensures
        lookup(only_named(members, names), key) == if named(names, key) {
            lookup(members, key)
        } else {
            None
        },
    decreases members.len(),
{
    if members.len() > 0 {
        lemma_lookup_only_named(members.drop_last(), names, key);
        if named(names, members.last().0@) {
            assert(only_named(members, names).drop_last() =~= only_named(members.drop_last(), names));
        }
    }
}

/// Whether `key` is one of `names`.
pub fn is_named(names: &Vec<String>, key: &str) -> (r: bool)
    ensures
        r == named(names@, key@),
{
    let mut i: usize = 0;
    while i < names.len()
        invariant
            i <= names.len(),
            forall|j: int| 0 <= j < i ==> names@[j]@ != key@,
        decreases names.len() - i,
    {
        if same_text(names[i].as_str(), key) {
            return true;
        }
        i = i + 1;
    }
    false
}

/// Named parameters of a command: a JSON object under construction.
#[derive(Debug, PartialEq, Eq)]
pub struct Params {
    pub members: Vec<(String, Json)>,
}

impl Params {
    /// The value under `key`.
    pub open spec fn get_spec(&self, key: Seq<char>) -> Option<Json> {
        lookup(self.members@, key)
    }

    pub fn new() -> (r: Params)
        ensures
            r.members@.len() == 0,
            forall|k: Seq<char>| r.get_spec(k) is None,
    {
        Params { members: Vec::new() }
    }

    /// The value under `key`.
    pub fn get(&self, key: &str) -> (r: Option<&Json>)
        ensures
            match r {
                Some(v) => self.get_spec(key@) == Some(*v),
                None => self.get_spec(key@) is None,
            },
    {
        let mut i = self.members.len();
        assert(self.members@.subrange(0, i as int) =~= self.members@);
        while i > 0
            invariant
                i <= self.members.len(),
                lookup(self.members@, key@) == lookup(self.members@.subrange(0, i as int), key@),
            decreases i,
        {
            let ghost pre = self.members@.subrange(0, i as int);
            assert(pre.drop_last() =~= self.members@.subrange(0, i as int - 1));
            if same_text(self.members[i - 1].0.as_str(), key) {
                return Some(&self.members[i - 1].1);
            }
            i = i - 1;
        }
        None
    }

    /// Stores `value` under `key`, replacing what was there.
    pub fn insert(&mut self, key: String, value: Json)
        ensures
            final(self).get_spec(key@) == Some(value),
            forall|k: Seq<char>| k != key@ ==> final(self).get_spec(k) == old(self).get_spec(k),
    {
        self.members.push((key, value));
        assert(self.members@.drop_last() =~= old(self).members@);
    }

    /// Removes and returns what is stored under `key`.
    pub fn remove(&mut self, key: &str) -> (r: Option<Json>)
        ensures
            r == old(self).get_spec(key@),
            final(self).get_spec(key@) is None,
            forall|k: Seq<char>| k != key@ ==> final(self).get_spec(k) == old(self).get_spec(k),
    {
        let mut rest: Vec<(String, Json)> = Vec::new();
        std::mem::swap(&mut rest, &mut self.members);
        let ghost all = rest@;
        let total = rest.len();
        assert(all.len() == total);
        assert(all.subrange(0, 0) =~= Seq::<(String, Json)>::empty());
        assert(rest@ =~= all.subrange(0, all.len() as int));
        let mut found: Option<Json> = None;
        let mut i: usize = 0;
        let mut kept: Vec<(String, Json)> = Vec::new();
        while rest.len() > 0
            invariant
                all.len() <= usize::MAX,
                i + rest@.len() == all.len(),
                rest@ == all.subrange(i as int, all.len() as int),
                kept@ == without(all.subrange(0, i as int), key@),
                found == lookup(all.subrange(0, i as int), key@),
            decreases rest.len(),
        {
            let ghost pre = all.subrange(0, i as int + 1);
            assert(pre.drop_last() =~= all.subrange(0, i as int));
            assert(pre.last() == rest@[0]);
            let (k, v) = rest.remove(0);
            if same_text(k.as_str(), key) {
                found = Some(v);
            } else {
                kept.push((k, v));
            }
            i = i + 1;
            assert(rest@ =~= all.subrange(i as int, all.len() as int));
        }
        assert(all.subrange(0, i as int) =~= all);
        self.members = kept;
        proof {
            lemma_lookup_without(all, key@, key@);
            assert forall|k: Seq<char>| k != key@ implies lookup(without(all, key@), k) == lookup(all, k) by {
                lemma_lookup_without(all, key@, k);
            }
        }
        found
    }
}

impl Params {
    /// Keeps only the members whose key is one of `names`.
    pub fn retain_named(&mut self, names: &Vec<String>)
        ensures
            forall|k: Seq<char>| #[trigger] final(self).get_spec(k) == if named(names@, k) {
                old(self).get_spec(k)
            } else {
                None
            },
    {
        let mut rest: Vec<(String, Json)> = Vec::new();
        std::mem::swap(&mut rest, &mut self.members);
        let ghost all = rest@;
        let total = rest.len();
        assert(all.len() == total);
        assert(rest@ =~= all.subrange(0, all.len() as int));
        let mut i: usize = 0;
        let mut kept: Vec<(String, Json)> = Vec::new();
        while rest.len() > 0
            invariant
                all.len() <= usize::MAX,
                i + rest@.len() == all.len(),
                rest@ == all.subrange(i as int, all.len() as int),
                kept@ == only_named(all.subrange(0, i as int), names@),
            decreases rest.len(),
        {
            let ghost pre = all.subrange(0, i as int + 1);
            assert(pre.drop_last() =~= all.subrange(0, i as int));
            assert(pre.last() == rest@[0]);
            let (k, v) = rest.remove(0);
            if is_named(names, k.as_str()) {
                kept.push((k, v));
            }
            i = i + 1;
            assert(rest@ =~= all.subrange(i as int, all.len() as int));
        }
        assert(all.subrange(0, i as int) =~= all);
        self.members = kept;
        proof {
            assert forall|k: Seq<char>| #[trigger] lookup(only_named(all, names@), k) == if named(names@, k) {
                lookup(all, k)
            } else {
                None
            } by {
                lemma_lookup_only_named(all, names@, k);
            }
        }
    }
}

} // verus!
