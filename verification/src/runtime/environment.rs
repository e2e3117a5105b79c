//! Scopes: the variables of one block, and the scopes around it.

use crate::errors::err::{undefined_variable, RuntimeErr};
use crate::parsing::expressions::{Value, ValueView};
use crate::parsing::tokens::Token;
use std::rc::Rc;
use vstd::hash_map::StringHashMap;
use vstd::prelude::*;

verus! {

/// The variables of one scope: their names and values.
pub type Frame = Map<Seq<char>, ValueView>;

/// The value of `name` in the innermost of `scopes` that defines it, the
/// innermost scope coming first.
pub open spec fn lookup(scopes: Seq<Frame>, name: Seq<char>) -> Option<ValueView>
    decreases scopes.len(),
{
    if scopes.len() == 0 {
        None
    } else if scopes[0].contains_key(name) {
        Some(scopes[0][name])
    } else {
        lookup(scopes.drop_first(), name)
    }
}

/// A scope: its own variables, and the scope that encloses it.  An enclosing
/// scope is shared by the scopes inside it.
pub struct Environment {
    values: StringHashMap<Value>,
    enclosing: Option<Rc<Environment>>,
}

impl Environment {
    /// The variables of this scope itself.
    pub closed spec fn frame(&self) -> Frame {
        self.values@.map_values(|v: Value| v@)
    }

    /// This scope and the scopes around it, from the inside out.
    pub closed spec fn scopes(&self) -> Seq<Frame>
        decreases self,
    {
        match self.enclosing {
            Some(outer) => seq![self.frame()] + outer.scopes(),
            None => seq![self.frame()],
        }
    }

    /// A scope is itself the innermost of its scopes.
    pub proof fn lemma_has_scope(&self)
        ensures
            self.scopes().len() > 0,
            self.scopes()[0] == self.frame(),
    {
    }

    /// An outermost scope without variables.
    pub fn new() -> (r: Self)
        ensures
            r.scopes() == seq![Map::<Seq<char>, ValueView>::empty()],
    {
        let r = Environment { values: StringHashMap::new(), enclosing: None };
        assert(r.frame() =~= Map::<Seq<char>, ValueView>::empty());
        r
    }

    /// A scope without variables inside `enclosing`.
    pub fn inside(enclosing: Rc<Environment>) -> (r: Self)
        ensures
            r.scopes() == seq![Map::<Seq<char>, ValueView>::empty()] + enclosing.scopes(),
    {
        let r = Environment { values: StringHashMap::new(), enclosing: Some(enclosing) };
        assert(r.frame() =~= Map::<Seq<char>, ValueView>::empty());
        r
    }

    /// Binds `name` to `value` in this scope, whatever it was bound to
    /// there before.
    pub fn define(&mut self, name: String, value: Value)
        ensures
            final(self).scopes() == old(self).scopes().update(
                0,
                old(self).scopes()[0].insert(name@, value@),
            ),
            final(self).scopes().len() == old(self).scopes().len(),
    {
        let ghost before = self.frame();
        self.values.insert(name, value);
        assert(self.frame() =~= before.insert(name@, value@));
        assert(self.scopes() =~= old(self).scopes().update(0, before.insert(name@, value@)));
    }

    /// The value of the variable that `name` spells: that of the innermost
    /// scope that defines it.
    pub fn get(&self, name: &Token) -> (r: Result<Value, RuntimeErr>)
        ensures
            match lookup(self.scopes(), name@.lexeme) {
                Some(value) => r matches Ok(v) && v@ == value,
                None => r matches Err(e) && e@ == undefined_variable(name@),
            },
        decreases self,
    {
        proof {
            let key = name@.lexeme;
            let rest = match &self.enclosing {
                Some(outer) => outer.scopes(),
                None => Seq::empty(),
            };
            assert(self.scopes()[0] == self.frame());
            assert(self.scopes().drop_first() =~= rest);
            assert(self.frame().contains_key(key) == self.values@.contains_key(key));
            if self.values@.contains_key(key) {
                assert(self.frame()[key] == self.values@[key]@);
            }
            if self.enclosing is None {
                assert(lookup(rest, key) is None);
            }
        }
        match self.values.get(name.lexeme.as_str()) {
            Some(value) => Ok(value.duplicate()),
            None => match &self.enclosing {
                Some(outer) => outer.get(name),
                None => Err(RuntimeErr::undefined(name)),
            },
        }
    }
}

} // verus!
