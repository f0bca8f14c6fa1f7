//! Lexically scoped environments.
//!
//! Scopes live in an arena and are addressed by index, so any number of
//! closures and call frames can share one scope: a write through any holder
//! of a scope index is visible through every other holder. A scope is a
//! binding table (keys unique, insertion order irrelevant) plus an optional
//! parent index; a parent always has a smaller index than its child, so
//! scope chains cannot cycle.

use crate::error::{ErrModel, Error};
use crate::value::{lemma_wf_val_mono, str_eq, wf_val, ValModel, Value};
use vstd::prelude::*;

verus! {

broadcast use vstd::std_specs::vec::group_vec_axioms;

/// One scope: its own bindings and the index of its parent, if any.
pub struct Scope {
    bindings: Vec<(String, Value)>,
    parent: Option<usize>,
}

/// Mathematical model of a scope: a finite map from names to value models,
/// and the parent index.
pub struct ScopeModel {
    pub table: Map<Seq<char>, ValModel>,
    pub parent: Option<int>,
}

/// The table described by an association list, later entries winning.
pub open spec fn table_of(bs: Seq<(String, Value)>) -> Map<Seq<char>, ValModel>
    decreases bs.len(),
{
    if bs.len() == 0 {
        Map::empty()
    } else {
        table_of(bs.drop_last()).insert(bs.last().0@, bs.last().1@)
    }
}

/// No name occurs twice in the association list.
pub open spec fn uniq_keys(bs: Seq<(String, Value)>) -> bool {
    forall|i: int, j: int| 0 <= i < j < bs.len() ==> bs[i].0@ != bs[j].0@
}

impl View for Scope {
    type V = ScopeModel;

    closed spec fn view(&self) -> ScopeModel {
        ScopeModel {
            table: table_of(self.bindings@),
            parent: match self.parent {
                Some(p) => Some(p as int),
                None => None,
            },
        }
    }
}

/// A name absent from the list is absent from its table.
proof fn lemma_table_absent(bs: Seq<(String, Value)>, k: Seq<char>)
    requires
        forall|i: int| 0 <= i < bs.len() ==> #[trigger] bs[i].0@ != k,
    ensures
        !table_of(bs).contains_key(k),
    decreases bs.len(),
{
    if bs.len() > 0 {
        lemma_table_absent(bs.drop_last(), k);
    }
}

/// An entry of a duplicate-free list is in its table, with its value.
proof fn lemma_table_found(bs: Seq<(String, Value)>, i: int)
    requires
        uniq_keys(bs),
        0 <= i < bs.len(),
    ensures
        table_of(bs).contains_key(bs[i].0@),
        table_of(bs)[bs[i].0@] == bs[i].1@,
    decreases bs.len(),
{
    if i == bs.len() - 1 {
    } else {
        lemma_table_found(bs.drop_last(), i);
    }
}

/// Every key of the table has an entry in the list.
proof fn lemma_table_key_has_entry(bs: Seq<(String, Value)>, k: Seq<char>)
    requires
        table_of(bs).contains_key(k),
    ensures
        exists|i: int| 0 <= i < bs.len() && #[trigger] bs[i].0@ == k,
    decreases bs.len(),
{
    if bs.len() > 0 {
        if bs.last().0@ != k {
            lemma_table_key_has_entry(bs.drop_last(), k);
        }
    }
}

/// Replacing the value of an existing entry updates the table at its key.
proof fn lemma_table_update(bs: Seq<(String, Value)>, i: int, p: (String, Value))
    requires
        uniq_keys(bs),
        0 <= i < bs.len(),
        p.0@ == bs[i].0@,
    ensures
        table_of(bs.update(i, p)) == table_of(bs).insert(p.0@, p.1@),
    decreases bs.len(),
{
    let bs2 = bs.update(i, p);
    if i == bs.len() - 1 {
        assert(bs2.drop_last() =~= bs.drop_last());
        assert(table_of(bs2) =~= table_of(bs).insert(p.0@, p.1@));
    } else {
        lemma_table_update(bs.drop_last(), i, p);
        assert(bs2.drop_last() =~= bs.drop_last().update(i, p));
        assert(bs2.last() == bs.last());
        assert(table_of(bs2) =~= table_of(bs).insert(p.0@, p.1@));
    }
}

/// Appending a new entry updates the table at the new key.
proof fn lemma_table_push(bs: Seq<(String, Value)>, p: (String, Value))
    ensures
        table_of(bs.push(p)) == table_of(bs).insert(p.0@, p.1@),
{
    assert(bs.push(p).drop_last() =~= bs);
}

impl Scope {
    /// A fresh scope with the given parent and no bindings.
    fn empty(parent: Option<usize>) -> (s: Scope)
        ensures
            s@.table == Map::<Seq<char>, ValModel>::empty(),
            s@.parent == (match parent {
                Some(p) => Some(p as int),
                None => None::<int>,
            }),
            uniq_keys(s.bindings@),
            s.bindings@.len() == 0,
    {
        Scope { bindings: Vec::new(), parent }
    }

    /// Index of the entry binding `name`, if there is one.
    fn find(&self, name: &str) -> (r: Option<usize>)
        ensures
            match r {
                Some(i) => i < self.bindings@.len() && self.bindings@[i as int].0@ == name@,
                None => forall|j: int|
                    0 <= j < self.bindings@.len() ==> #[trigger] self.bindings@[j].0@ != name@,
            },
    {
        let mut i: usize = 0;
        while i < self.bindings.len()
            invariant
                i <= self.bindings@.len(),
                forall|j: int| 0 <= j < i ==> #[trigger] self.bindings@[j].0@ != name@,
            decreases self.bindings@.len() - i,
        {
            if str_eq(self.bindings[i].0.as_str(), name) {
                return Some(i);
            }
            i += 1;
        }
        None
    }

    /// Binds `name` to `value` in this scope alone, inserting or
    /// overwriting.
    fn define_local(&mut self, name: &str, value: Value)
        requires
            uniq_keys(old(self).bindings@),
        ensures
            uniq_keys(final(self).bindings@),
            final(self)@.table == old(self)@.table.insert(name@, value@),
            final(self)@.parent == old(self)@.parent,
    {
        match self.find(name) {
            Some(i) => {
                let p = (name.to_owned(), value);
                proof {
                    lemma_table_update(self.bindings@, i as int, p);
                }
                self.bindings[i] = p;
                proof {
                    assert(uniq_keys(self.bindings@));
                }
            },
            None => {
                let p = (name.to_owned(), value);
                proof {
                    lemma_table_push(self.bindings@, p);
                }
                self.bindings.push(p);
                proof {
                    assert(uniq_keys(self.bindings@));
                }
            },
        }
    }
}

/// Well-formedness of an environment model: there is a root scope, every
/// parent index points at an earlier scope, and every stored value only
/// captures existing scopes.
pub open spec fn wf_env(em: Seq<ScopeModel>) -> bool {
    &&& em.len() >= 1
    &&& forall|i: int|
        0 <= i < em.len() ==> (match (#[trigger] em[i]).parent {
            Some(p) => 0 <= p < i,
            None => true,
        })
    &&& forall|i: int, k: Seq<char>|
        0 <= i < em.len() && (#[trigger] em[i].table.contains_key(k)) ==> wf_val(
            em[i].table[k],
            em.len() as int,
        )
}

/// Looks `name` up in the scope chain starting at `scope`: the nearest
/// binding wins; `None` when the chain is exhausted. Out-of-range or
/// cyclic chains (which a well-formed environment never has) give `None`.
pub open spec fn lookup_m(em: Seq<ScopeModel>, scope: int, name: Seq<char>) -> Option<ValModel>
    decreases scope,
{
    if scope < 0 || scope >= em.len() {
        None
    } else if em[scope].table.contains_key(name) {
        Some(em[scope].table[name])
    } else {
        match em[scope].parent {
            Some(p) => if 0 <= p < scope {
                lookup_m(em, p, name)
            } else {
                None
            },
            None => None,
        }
    }
}

/// In a well-formed environment, whatever lookup finds is well-formed.
pub proof fn lemma_lookup_wf(em: Seq<ScopeModel>, scope: int, name: Seq<char>)
    requires
        wf_env(em),
    ensures
        match lookup_m(em, scope, name) {
            Some(v) => wf_val(v, em.len() as int),
            None => true,
        },
    decreases scope,
{
    if 0 <= scope < em.len() {
        if !em[scope].table.contains_key(name) {
            match em[scope].parent {
                Some(p) => {
                    if 0 <= p < scope {
                        lemma_lookup_wf(em, p, name);
                    }
                },
                None => {},
            }
        }
    }
}

/// Binds `name` to `v` in `scope` itself, touching no other scope.
pub open spec fn define_m(em: Seq<ScopeModel>, scope: int, name: Seq<char>, v: ValModel) -> Seq<
    ScopeModel,
> {
    if 0 <= scope < em.len() {
        em.update(
            scope,
            ScopeModel { table: em[scope].table.insert(name, v), parent: em[scope].parent },
        )
    } else {
        em
    }
}

/// Assigns `v` to the nearest scope in the chain that already binds
/// `name`; `None` when no scope in the chain binds it.
pub open spec fn assign_m(em: Seq<ScopeModel>, scope: int, name: Seq<char>, v: ValModel) -> Option<
    Seq<ScopeModel>,
>
    decreases scope,
{
    if scope < 0 || scope >= em.len() {
        None
    } else if em[scope].table.contains_key(name) {
        Some(define_m(em, scope, name, v))
    } else {
        match em[scope].parent {
            Some(p) => if 0 <= p < scope {
                assign_m(em, p, name, v)
            } else {
                None
            },
            None => None,
        }
    }
}

/// The environment: an arena of scopes addressed by index. Scope `0` is
/// the root scope; every other scope was created as the child of an
/// earlier one.
pub struct Environment {
    scopes: Vec<Scope>,
}

impl View for Environment {
    type V = Seq<ScopeModel>;

    closed spec fn view(&self) -> Seq<ScopeModel> {
        Seq::new(self.scopes@.len(), |i: int| self.scopes@[i]@)
    }
}

impl Environment {
    /// Internal invariant: the model is well-formed and no scope binds a
    /// name twice.
    pub closed spec fn wf(&self) -> bool {
        &&& wf_env(self@)
        &&& forall|i: int|
            0 <= i < self.scopes@.len() ==> uniq_keys(#[trigger] self.scopes@[i].bindings@)
    }

    /// A well-formed environment has a well-formed model.
    pub broadcast proof fn lemma_wf(&self)
        requires
            #[trigger] self.wf(),
        ensures
            wf_env(self@),
    {
    }

    /// A fresh environment holding only an empty root scope, scope `0`.
    pub fn new() -> (env: Environment)
        ensures
            env.wf(),
            env@.len() == 1,
            env@[0].table == Map::<Seq<char>, ValModel>::empty(),
            env@[0].parent is None,
    {
        let scopes = vec![Scope::empty(None)];
        let env = Environment { scopes };
        proof {
            assert(env@[0] == env.scopes@[0]@);
        }
        env
    }

    /// The number of scopes in the arena.
    pub fn len(&self) -> (n: usize)
        ensures
            n == self@.len(),
    {
        self.scopes.len()
    }

    /// A new empty scope whose parent is `parent`; its index is returned
    /// and is the old arena length.
    pub fn with_parent(&mut self, parent: usize) -> (child: usize)
        requires
            old(self).wf(),
            parent < old(self)@.len(),
        ensures
            final(self).wf(),
            child == old(self)@.len(),
            final(self)@ == old(self)@.push(
                ScopeModel {
                    table: Map::<Seq<char>, ValModel>::empty(),
                    parent: Some(parent as int),
                },
            ),
    {
        let child = self.scopes.len();
        self.scopes.push(Scope::empty(Some(parent)));
        proof {
            let em = self@;
            let old_em = old(self)@;
            assert forall|i: int| 0 <= i < em.len() implies em[i] == old_em.push(
                ScopeModel {
                    table: Map::<Seq<char>, ValModel>::empty(),
                    parent: Some(parent as int),
                },
            )[i] by {
                assert(em[i] == self.scopes@[i]@);
                if i < old_em.len() {
                    assert(old_em[i] == old(self).scopes@[i]@);
                }
            }
            assert(em =~= old_em.push(
                ScopeModel {
                    table: Map::<Seq<char>, ValModel>::empty(),
                    parent: Some(parent as int),
                },
            ));
            assert forall|i: int, k: Seq<char>|
                0 <= i < em.len() && (#[trigger] em[i].table.contains_key(k)) implies wf_val(
                em[i].table[k],
                em.len() as int,
            ) by {
                if i < old_em.len() {
                    lemma_wf_val_mono(em[i].table[k], old_em.len() as int, em.len() as int);
                }
            }
        }
        child
    }

    /// A new child scope of `parent`; same as `with_parent`.
    pub fn child(&mut self, parent: usize) -> (child: usize)
        requires
            old(self).wf(),
            parent < old(self)@.len(),
        ensures
            final(self).wf(),
            child == old(self)@.len(),
            final(self)@ == old(self)@.push(
                ScopeModel {
                    table: Map::<Seq<char>, ValModel>::empty(),
                    parent: Some(parent as int),
                },
            ),
    {
        self.with_parent(parent)
    }

    /// Binds `name` to `value` in `scope`'s own table, inserting or
    /// overwriting; ancestors are never touched, and the write is visible
    /// through every holder of `scope`'s index.
    pub fn define(&mut self, scope: usize, name: &str, value: Value)
        requires
            old(self).wf(),
            scope < old(self)@.len(),
            wf_val(value@, old(self)@.len() as int),
        ensures
            final(self).wf(),
            final(self)@ == define_m(old(self)@, scope as int, name@, value@),
    {
        proof {
            assert(self@[scope as int] == self.scopes@[scope as int]@);
        }
        let sc = &mut self.scopes[scope];
        sc.define_local(name, value);
        proof {
            let em = self@;
            let dm = define_m(old(self)@, scope as int, name@, value@);
            assert forall|i: int| 0 <= i < em.len() implies em[i] == dm[i] by {
                assert(em[i] == self.scopes@[i]@);
                assert(old(self)@[i] == old(self).scopes@[i]@);
            }
            assert(em =~= dm);
        }
    }

    /// The value bound to `name` in the chain starting at `scope`: the
    /// nearest binding wins; an undefined-symbol error when no scope in
    /// the chain binds the name. Looking a name up never changes any
    /// binding.
    pub fn get(&self, scope: usize, name: &str) -> (r: Result<Value, Error>)
        requires
            self.wf(),
        ensures
            match r {
                Ok(v) => lookup_m(self@, scope as int, name@) == Some(v@),
                Err(e) => lookup_m(self@, scope as int, name@) is None && e@
                    == ErrModel::UndefinedSymM(name@),
            },
        decreases scope,
    {
        if scope >= self.scopes.len() {
            return Err(Error::undefined(name));
        }
        proof {
            assert(self@[scope as int] == self.scopes@[scope as int]@);
        }
        let sc = &self.scopes[scope];
        match sc.find(name) {
            Some(i) => {
                proof {
                    lemma_table_found(sc.bindings@, i as int);
                }
                Ok(sc.bindings[i].1.clone())
            },
            None => {
                proof {
                    lemma_table_absent(sc.bindings@, name@);
                }
                match sc.parent {
                    Some(p) => self.get(p, name),
                    None => Err(Error::undefined(name)),
                }
            },
        }
    }

    /// Whether any scope in the chain starting at `scope` binds `name`.
    pub fn contains(&self, scope: usize, name: &str) -> (r: bool)
        requires
            self.wf(),
        ensures
            r == (lookup_m(self@, scope as int, name@) is Some),
    {
        match self.get(scope, name) {
            Ok(_) => true,
            Err(_) => false,
        }
    }

    /// Assigns `value` to the nearest scope in the chain that already
    /// binds `name`, mutating that scope in place; an undefined-symbol
    /// error — and no change at all — when no scope in the chain binds it.
    pub fn set(&mut self, scope: usize, name: &str, value: Value) -> (r: Result<(), Error>)
        requires
            old(self).wf(),
            wf_val(value@, old(self)@.len() as int),
        ensures
            final(self).wf(),
            match r {
                Ok(()) => assign_m(old(self)@, scope as int, name@, value@) == Some(final(self)@),
                Err(e) => assign_m(old(self)@, scope as int, name@, value@) is None && final(self)@
                    == old(self)@ && e@ == ErrModel::UndefinedSymM(name@),
            },
        decreases scope,
    {
        if scope >= self.scopes.len() {
            return Err(Error::undefined(name));
        }
        proof {
            assert(self@[scope as int] == self.scopes@[scope as int]@);
        }
        let found = self.scopes[scope].find(name);
        match found {
            Some(i) => {
                proof {
                    lemma_table_found(self.scopes@[scope as int].bindings@, i as int);
                }
                self.define(scope, name, value);
                Ok(())
            },
            None => {
                proof {
                    lemma_table_absent(self.scopes@[scope as int].bindings@, name@);
                }
                let parent = self.scopes[scope].parent;
                match parent {
                    Some(p) => self.set(p, name, value),
                    None => Err(Error::undefined(name)),
                }
            },
        }
    }

    /// The parent of `scope`, if it has one.
    pub fn parent(&self, scope: usize) -> (r: Option<usize>)
        requires
            self.wf(),
            scope < self@.len(),
        ensures
            match r {
                Some(p) => self@[scope as int].parent == Some(p as int),
                None => self@[scope as int].parent is None,
            },
    {
        proof {
            assert(self@[scope as int] == self.scopes@[scope as int]@);
        }
        self.scopes[scope].parent
    }

    /// The bindings of `scope`'s own table, as name-value pairs: every
    /// pair is in the table, the names are pairwise distinct, and every
    /// key of the table appears.
    pub fn bindings(&self, scope: usize) -> (r: Vec<(String, Value)>)
        requires
            self.wf(),
            scope < self@.len(),
        ensures
            forall|j: int|
                0 <= j < r@.len() ==> self@[scope as int].table.contains_key(#[trigger] r@[j].0@)
                    && self@[scope as int].table[r@[j].0@] == r@[j].1@,
            forall|j: int, k: int| 0 <= j < k < r@.len() ==> r@[j].0@ != r@[k].0@,
            forall|k: Seq<char>|
                self@[scope as int].table.contains_key(k) ==> exists|j: int|
                    0 <= j < r@.len() && (#[trigger] r@[j].0@) == k,
    {
        proof {
            assert(self@[scope as int] == self.scopes@[scope as int]@);
        }
        let sc = &self.scopes[scope];
        let mut out: Vec<(String, Value)> = Vec::new();
        let mut i: usize = 0;
        while i < sc.bindings.len()
            invariant
                self.wf(),
                scope < self@.len(),
                self@[scope as int] == self.scopes@[scope as int]@,
                sc == &self.scopes@[scope as int],
                i <= sc.bindings@.len(),
                out@.len() == i,
                forall|j: int|
                    0 <= j < i ==> (#[trigger] out@[j].0@) == sc.bindings@[j].0@ && out@[j].1@
                        == sc.bindings@[j].1@,
            decreases sc.bindings@.len() - i,
        {
            out.push((sc.bindings[i].0.clone(), sc.bindings[i].1.clone()));
            i += 1;
        }
        proof {
            assert forall|j: int|
                0 <= j < out@.len() implies self@[scope as int].table.contains_key(
                #[trigger] out@[j].0@,
            ) && self@[scope as int].table[out@[j].0@] == out@[j].1@ by {
                lemma_table_found(sc.bindings@, j);
            }
            assert forall|k: Seq<char>| self@[scope as int].table.contains_key(k) implies exists|
                j: int,
            |
                0 <= j < out@.len() && (#[trigger] out@[j].0@) == k by {
                lemma_table_key_has_entry(sc.bindings@, k);
                let w = choose|j: int| 0 <= j < sc.bindings@.len() && #[trigger] sc.bindings@[j].0@
                    == k;
                assert(out@[w].0@ == k);
            }
        }
        out
    }
}

} // verus!
