//! The register table: an ordered list of name/handle bindings.
//!
//! Both a machine's registers and the slots of a tree value are an
//! [`Env`].  Bindings are kept in insertion order; when a name is bound
//! twice the later binding wins, so the table's meaning is the map from
//! each name to its last binding.  In contracts a table is described by
//! [`Env::kv`], the sequence of its bindings with names as character
//! sequences, and by its view, the map those bindings describe.

use vstd::prelude::*;

use crate::value::Ref;

verus! {

/// An ordered table of name/handle bindings.  Its view is the map from
/// each bound name to the handle of its last binding.
#[derive(Debug, PartialEq)]
pub struct Env {
    pub entries: Vec<(String, Ref)>,
}

/// A binding list with its names taken as character sequences.
pub open spec fn kv_of(es: Seq<(String, Ref)>) -> Seq<(Seq<char>, Ref)> {
    es.map_values(|e: (String, Ref)| (e.0@, e.1))
}

/// The map described by a binding list: later bindings shadow earlier ones.
pub open spec fn env_map(es: Seq<(Seq<char>, Ref)>) -> Map<Seq<char>, Ref>
    decreases es.len(),
{
    if es.len() == 0 {
        Map::empty()
    } else {
        env_map(es.drop_last()).insert(es.last().0, es.last().1)
    }
}

/// Every handle bound in `env` points below cell index `n`.
pub open spec fn env_refs_below(env: Env, n: int) -> bool {
    forall|k: int| 0 <= k < env.kv().len() ==> (#[trigger] env.kv()[k]).1.idx < n
}

/// A binding whose later entries all carry other names is the one the map reports.
proof fn lemma_env_map_last_binding(es: Seq<(Seq<char>, Ref)>, n: Seq<char>, j: int)
    requires
        0 <= j < es.len(),
        es[j].0 == n,
        forall|k: int| j < k < es.len() ==> (#[trigger] es[k]).0 != n,
    ensures
        env_map(es).contains_key(n),
        env_map(es)[n] == es[j].1,
    decreases es.len(),
{
    if j < es.len() - 1 {
        lemma_env_map_last_binding(es.drop_last(), n, j);
    }
}

/// A name carried by no entry is absent from the map.
proof fn lemma_env_map_absent(es: Seq<(Seq<char>, Ref)>, n: Seq<char>)
    requires
        forall|k: int| 0 <= k < es.len() ==> (#[trigger] es[k]).0 != n,
    ensures
        !env_map(es).contains_key(n),
    decreases es.len(),
{
    if es.len() > 0 {
        lemma_env_map_absent(es.drop_last(), n);
    }
}

/// Replacing the last binding of a name describes the same map as inserting it.
proof fn lemma_env_map_update_last(es: Seq<(Seq<char>, Ref)>, j: int, name: Seq<char>, r: Ref)
    requires
        0 <= j < es.len(),
        es[j].0 == name,
        forall|k: int| j < k < es.len() ==> (#[trigger] es[k]).0 != name,
    ensures
        env_map(es.update(j, (name, r))) == env_map(es).insert(name, r),
    decreases es.len(),
{
    let es2 = es.update(j, (name, r));
    if j == es.len() - 1 {
        assert(es2.drop_last() =~= es.drop_last());
        assert(env_map(es2) =~= env_map(es).insert(name, r));
    } else {
        lemma_env_map_update_last(es.drop_last(), j, name, r);
        assert(es2.drop_last() =~= es.drop_last().update(j, (name, r)));
        assert(env_map(es2) =~= env_map(es).insert(name, r));
    }
}

/// A handle the map reports is a handle some entry carries.
proof fn lemma_env_map_refs_below(es: Seq<(Seq<char>, Ref)>, n: int, key: Seq<char>)
    requires
        forall|k: int| 0 <= k < es.len() ==> (#[trigger] es[k]).1.idx < n,
        env_map(es).contains_key(key),
    ensures
        env_map(es)[key].idx < n,
    decreases es.len(),
{
    if es.len() > 0 && es.last().0 != key {
        lemma_env_map_refs_below(es.drop_last(), n, key);
    }
}

/// The handle bound to any name points below `n` when every entry does.
pub proof fn lemma_env_lookup_below(env: Env, n: int, key: Seq<char>)
    requires
        env_refs_below(env, n),
        env@.contains_key(key),
    ensures
        env@[key].idx < n,
{
    lemma_env_map_refs_below(env.kv(), n, key);
}

impl View for Env {
    type V = Map<Seq<char>, Ref>;

    open spec fn view(&self) -> Map<Seq<char>, Ref> {
        env_map(self.kv())
    }
}

impl Env {
    /// The table's bindings, in order, with names as character sequences.
    pub open spec fn kv(self) -> Seq<(Seq<char>, Ref)> {
        kv_of(self.entries@)
    }

    /// A table with no bindings.
    pub fn new() -> (env: Env)
        ensures
            env@ == Map::<Seq<char>, Ref>::empty(),
            env.kv().len() == 0,
    {
        let env = Env { entries: Vec::new() };
        proof {
            assert(env.kv() =~= Seq::<(Seq<char>, Ref)>::empty());
        }
        env
    }

    /// Looks a name up: the handle of its last binding, if any.
    pub fn get(&self, name: &String) -> (r: Option<Ref>)
        ensures
            r == (if self@.contains_key(name@) {
                Some(self@[name@])
            } else {
                Option::<Ref>::None
            }),
    {
        let mut j = self.entries.len();
        while j > 0
            invariant
                j <= self.entries@.len(),
                forall|k: int| j <= k < self.kv().len() ==> (#[trigger] self.kv()[k]).0 != name@,
            decreases j,
        {
            j = j - 1;
            if self.entries[j].0.eq(name) {
                proof {
                    assert(self.kv()[j as int].0 == name@);
                    lemma_env_map_last_binding(self.kv(), name@, j as int);
                }
                return Some(self.entries[j].1);
            }
        }
        proof {
            lemma_env_map_absent(self.kv(), name@);
        }
        None
    }

    /// Binds a name: replaces its last binding in place, or appends one.
    pub fn set(&mut self, name: String, r: Ref)
        ensures
            final(self)@ == old(self)@.insert(name@, r),
            final(self).kv().len() <= old(self).kv().len() + 1,
            !old(self)@.contains_key(name@) ==> final(self).kv() == old(self).kv().push(
                (name@, r),
            ),
            forall|n: int|
                env_refs_below(*old(self), n) && r.idx < n ==> env_refs_below(*final(self), n),
    {
        let mut j = self.entries.len();
        while j > 0
            invariant
                *self == *old(self),
                j <= self.entries@.len(),
                forall|k: int| j <= k < self.kv().len() ==> (#[trigger] self.kv()[k]).0 != name@,
            decreases j,
        {
            j = j - 1;
            if self.entries[j].0.eq(&name) {
                proof {
                    assert(self.kv()[j as int].0 == name@);
                    lemma_env_map_last_binding(self.kv(), name@, j as int);
                    lemma_env_map_update_last(self.kv(), j as int, name@, r);
                }
                let ghost pre = *self;
                let ghost nv = name@;
                self.entries[j] = (name, r);
                proof {
                    assert(self.kv() =~= pre.kv().update(j as int, (nv, r)));
                }
                return ;
            }
        }
        proof {
            lemma_env_map_absent(self.kv(), name@);
        }
        let ghost pre = *self;
        let ghost nv = name@;
        self.entries.push((name, r));
        proof {
            assert(self.kv() =~= pre.kv().push((nv, r)));
            assert(self.kv().drop_last() =~= pre.kv());
        }
    }
}

impl Clone for Env {
    /// A clone binds the same names to the same handles, in the same order.
    fn clone(&self) -> (res: Self)
        ensures
            res.kv() == self.kv(),
            res@ == self@,
    {
        let mut entries: Vec<(String, Ref)> = Vec::new();
        let mut i: usize = 0;
        while i < self.entries.len()
            invariant
                i <= self.entries@.len(),
                entries@ =~= self.entries@.take(i as int),
            decreases self.entries@.len() - i,
        {
            entries.push((self.entries[i].0.clone(), self.entries[i].1));
            i = i + 1;
        }
        proof {
            assert(entries@ =~= self.entries@);
        }
        Env { entries }
    }
}

} // verus!
