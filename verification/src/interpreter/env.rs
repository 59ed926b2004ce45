//! The runtime environment.

use crate::interpreter::value::{Value, ValueView};
use crate::util::bindings::{find, keys_unique, lemma_index_of_unique, lemma_same_names, lookup, put};
use vstd::prelude::*;

verus! {

/// The scope of the interpreter: a value for each name that is bound.
#[derive(Debug)]
pub struct RuntimeEnv {
    vars: Vec<(String, Value)>,
}

impl View for RuntimeEnv {
    type V = Map<Seq<char>, ValueView>;

    closed spec fn view(&self) -> Map<Seq<char>, ValueView> {
        Map::new(
            |k: Seq<char>| lookup(self.vars@, k) is Some,
            |k: Seq<char>| lookup(self.vars@, k)->0@,
        )
    }
}

impl RuntimeEnv {
    #[verifier::type_invariant]
    spec fn unique_names(&self) -> bool {
        keys_unique(self.vars@)
    }

    pub fn new() -> (env: RuntimeEnv)
        ensures
            env@ == Map::<Seq<char>, ValueView>::empty(),
    {
        let env = RuntimeEnv { vars: Vec::new() };
        proof {
            assert(env@ =~= Map::<Seq<char>, ValueView>::empty());
        }
        env
    }

    /// A copy of the value `name` is bound to, if it is bound.
    pub fn get(&self, name: &str) -> (r: Option<Value>)
        ensures
            match r {
                Some(value) => self@.contains_key(name@) && value@ == self@[name@],
                None => !self@.contains_key(name@),
            },
    {
        proof {
            use_type_invariant(self);
        }
        match find(&self.vars, name) {
            Some(i) => {
                proof {
                    lemma_index_of_unique(self.vars@, i as int);
                }
                Some(self.vars[i].1.clone())
            },
            None => None,
        }
    }

    /// Binds `name` to `value`, replacing what `name` was bound to before.
    pub fn set(&mut self, name: String, value: Value)
        ensures
            final(self)@ == old(self)@.insert(name@, value@),
    {
        proof {
            use_type_invariant(&*self);
        }
        let mut vars: Vec<(String, Value)> = Vec::new();
        core::mem::swap(&mut self.vars, &mut vars);
        put(&mut vars, name, value);
        core::mem::swap(&mut self.vars, &mut vars);
        proof {
            assert(self@ =~= old(self)@.insert(name@, value@));
        }
    }
}

impl Clone for RuntimeEnv {
    fn clone(&self) -> (copy: RuntimeEnv)
        ensures
            copy@ == self@,
    {
        proof {
            use_type_invariant(self);
        }
        let mut vars: Vec<(String, Value)> = Vec::new();
        let mut i: usize = 0;
        while i < self.vars.len()
            invariant
                i <= self.vars.len(),
                vars.len() == i,
                forall|j: int|
                    0 <= j < i ==> (#[trigger] vars@[j]).0@ == self.vars@[j].0@ && vars@[j].1@
                        == self.vars@[j].1@,
            decreases self.vars.len() - i,
        {
            let entry = &self.vars[i];
            vars.push((entry.0.clone(), entry.1.clone()));
            i += 1;
        }
        proof {
            lemma_same_names(self.vars@, vars@);
        }
        let copy = RuntimeEnv { vars };
        proof {
            assert(copy@ =~= self@);
        }
        copy
    }
}

} // verus!
