use vstd::prelude::*;

use crate::error::EngineError;
use crate::javascript_object::JavascriptObjectRef;

verus! {

pub type Binding = (String, JavascriptObjectRef);

/// What a list of bindings maps each name to.
pub open spec fn bindings_map(bs: Seq<Binding>) -> Map<Seq<char>, JavascriptObjectRef>
    decreases bs.len(),
{
    if bs.len() == 0 {
        Map::empty()
    } else {
        bindings_map(bs.drop_last()).insert(bs.last().0@, bs.last().1)
    }
}

pub open spec fn names_unique(bs: Seq<Binding>) -> bool {
    forall|i: int, j: int| 0 <= i < j < bs.len() ==> bs[i].0@ != bs[j].0@
}

/// The ids of the objects that a scope binds.
pub open spec fn bound_ids(m: Map<Seq<char>, JavascriptObjectRef>) -> Set<u64> {
    Set::new(|id: u64| exists|n: Seq<char>| m.contains_key(n) && m[n].id == id)
}

pub proof fn lemma_map_keys(bs: Seq<Binding>, n: Seq<char>)
    ensures
        bindings_map(bs).contains_key(n) <==> exists|i: int| 0 <= i < bs.len() && bs[i].0@ == n,
    decreases bs.len(),
{
    if bs.len() > 0 {
        let prefix = bs.drop_last();
        lemma_map_keys(prefix, n);
        if bindings_map(prefix).contains_key(n) {
            let i = choose|i: int| 0 <= i < prefix.len() && prefix[i].0@ == n;
            assert(bs[i].0@ == n);
        }
        if exists|i: int| 0 <= i < bs.len() && bs[i].0@ == n {
            let i = choose|i: int| 0 <= i < bs.len() && bs[i].0@ == n;
            if i < bs.len() - 1 {
                assert(prefix[i].0@ == n);
            }
        }
    }
}

pub proof fn lemma_map_value(bs: Seq<Binding>, i: int)
    requires
        names_unique(bs),
        0 <= i < bs.len(),
    ensures
        bindings_map(bs).contains_key(bs[i].0@),
        bindings_map(bs)[bs[i].0@] == bs[i].1,
    decreases bs.len(),
{
    if i < bs.len() - 1 {
        let prefix = bs.drop_last();
        assert(prefix[i] == bs[i]);
        lemma_map_value(prefix, i);
    }
}

pub proof fn lemma_map_update(bs: Seq<Binding>, i: int, o: JavascriptObjectRef)
    requires
        names_unique(bs),
        0 <= i < bs.len(),
    ensures
        names_unique(bs.update(i, (bs[i].0, o))),
        bindings_map(bs.update(i, (bs[i].0, o))) == bindings_map(bs).insert(bs[i].0@, o),
{
    let nb = bs.update(i, (bs[i].0, o));
    assert(forall|j: int| 0 <= j < bs.len() ==> nb[j].0@ == bs[j].0@);
    let m1 = bindings_map(nb);
    let m2 = bindings_map(bs).insert(bs[i].0@, o);
    assert forall|n: Seq<char>| m1.contains_key(n) <==> m2.contains_key(n) by {
        lemma_map_keys(nb, n);
        lemma_map_keys(bs, n);
        if m2.contains_key(n) && n != bs[i].0@ {
            let j = choose|j: int| 0 <= j < bs.len() && bs[j].0@ == n;
            assert(nb[j].0@ == n);
        }
        if m1.contains_key(n) {
            let j = choose|j: int| 0 <= j < nb.len() && nb[j].0@ == n;
            assert(bs[j].0@ == n);
        }
    }
    assert forall|n: Seq<char>| m1.contains_key(n) implies m1[n] == m2[n] by {
        lemma_map_keys(nb, n);
        let j = choose|j: int| 0 <= j < nb.len() && nb[j].0@ == n;
        lemma_map_value(nb, j);
        if j != i {
            lemma_map_value(bs, j);
        }
    }
    assert(m1 =~= m2);
}

/// A binding environment: names, each bound once, to object handles.
/// Scopes are chained by the stack that holds them: the scope below is the
/// parent.
pub struct ExecutionScope {
    pub bindings: Vec<Binding>,
}

impl View for ExecutionScope {
    type V = Map<Seq<char>, JavascriptObjectRef>;

    open spec fn view(&self) -> Self::V {
        bindings_map(self.bindings@)
    }
}

impl ExecutionScope {
    pub open spec fn wf(&self) -> bool {
        names_unique(self.bindings@)
    }

    pub fn new() -> (r: Self)
        ensures
            r.wf(),
            r@ == Map::<Seq<char>, JavascriptObjectRef>::empty(),
    {
        ExecutionScope { bindings: Vec::new() }
    }

    fn position(&self, name: &String) -> (r: Option<usize>)
        requires
            self.wf(),
        ensures
            match r {
                Some(i) => i < self.bindings@.len() && self.bindings@[i as int].0@ == name@,
                None => !self@.contains_key(name@),
            },
    {
        let mut i: usize = 0;
        while i < self.bindings.len()
            invariant
                i <= self.bindings.len(),
                forall|j: int| 0 <= j < i ==> self.bindings@[j].0@ != name@,
            decreases self.bindings.len() - i,
        {
            if self.bindings[i].0.eq(name) {
                return Some(i);
            }
            i = i + 1;
        }
        proof {
            lemma_map_keys(self.bindings@, name@);
        }
        None
    }

    /// Looks a name up in this scope alone.
    pub fn get(&self, name: &String) -> (r: Option<JavascriptObjectRef>)
        requires
            self.wf(),
        ensures
            r == (if self@.contains_key(name@) {
                Some(self@[name@])
            } else {
                None
            }),
    {
        match self.position(name) {
            Some(i) => {
                proof {
                    lemma_map_value(self.bindings@, i as int);
                }
                Some(self.bindings[i].1.duplicate())
            },
            None => None,
        }
    }

    /// Binds a new name in this scope; a name this scope already binds is
    /// refused and nothing changes.
    pub fn define(&mut self, name: String, object: JavascriptObjectRef) -> (r: Result<(), EngineError>)
        requires
            old(self).wf(),
        ensures
            final(self).wf(),
            old(self)@.contains_key(name@) ==> r == Err::<(), EngineError>(EngineError::DuplicateBinding { name })
                && final(self)@ == old(self)@,
            !old(self)@.contains_key(name@) ==> r is Ok && final(self)@ == old(self)@.insert(name@, object),
    {
        match self.position(&name) {
            Some(i) => {
                proof {
                    lemma_map_value(self.bindings@, i as int);
                }
                Err(EngineError::DuplicateBinding { name })
            },
            None => {
                let ghost before = self.bindings@;
                let ghost key = name@;
                proof {
                    lemma_map_keys(before, key);
                }
                self.bindings.push((name, object));
                proof {
                    assert(self.bindings@.drop_last() =~= before);
                }
                Ok(())
            },
        }
    }

    /// Rebinds a name this scope already binds.
    pub fn assign(&mut self, name: &String, object: JavascriptObjectRef)
        requires
            old(self).wf(),
            old(self)@.contains_key(name@),
        ensures
            final(self).wf(),
            final(self)@ == old(self)@.insert(name@, object),
    {
        match self.position(name) {
            Some(i) => {
                let key = self.bindings[i].0.clone();
                proof {
                    lemma_map_update(self.bindings@, i as int, object);
                }
                self.bindings.set(i, (key, object));
            },
            None => {},
        }
    }

    /// The ids of every object bound directly in this scope.
    pub fn get_variable_ids(&self) -> (r: Vec<u64>)
        requires
            self.wf(),
        ensures
            r@.to_set() == bound_ids(self@),
    {
        let mut ids: Vec<u64> = Vec::new();
        let mut i: usize = 0;
        while i < self.bindings.len()
            invariant
                i <= self.bindings.len(),
                ids@.len() == i,
                forall|j: int| 0 <= j < i ==> ids@[j] == self.bindings@[j].1.id,
            decreases self.bindings.len() - i,
        {
            ids.push(self.bindings[i].1.id);
            i = i + 1;
        }
        proof {
            let m = self@;
            assert forall|id: u64| ids@.contains(id) <==> bound_ids(m).contains(id) by {
                if ids@.contains(id) {
                    let j = choose|j: int| 0 <= j < ids@.len() && ids@[j] == id;
                    lemma_map_value(self.bindings@, j);
                    assert(m.contains_key(self.bindings@[j].0@) && m[self.bindings@[j].0@].id == id);
                }
                if bound_ids(m).contains(id) {
                    let n = choose|n: Seq<char>| m.contains_key(n) && m[n].id == id;
                    lemma_map_keys(self.bindings@, n);
                    let j = choose|j: int| 0 <= j < self.bindings@.len() && self.bindings@[j].0@ == n;
                    lemma_map_value(self.bindings@, j);
                    assert(ids@[j] == id);
                }
            }
            assert(ids@.to_set() =~= bound_ids(m));
        }
        ids
    }
}

} // verus!
