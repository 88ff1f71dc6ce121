//! The environment: the variables of a session and their values.

use vstd::prelude::*;
use crate::interpreter::error::{Error, ErrorKind};
use crate::interpreter::Object;
use crate::token::{Token, Value};

verus! {

/// What an environment is, mathematically: a map from names to values.
pub type Bindings = Map<Seq<char>, Value>;

/// One variable.
#[derive(Debug)]
pub struct Binding {
    pub name: String,
    pub value: Object,
}

/// The value of the first of the bindings that has the name.
pub open spec fn first_bound(bindings: Seq<Binding>, name: Seq<char>) -> Option<Value>
    decreases bindings.len(),
{
    if bindings.len() == 0 {
        None
    } else if bindings[0].name@ == name {
        Some(bindings[0].value@)
    } else {
        first_bound(bindings.drop_first(), name)
    }
}

/// Where none of the bindings before `i` has the name, the search goes on
/// from `i`.
pub proof fn lemma_first_bound_skip(bindings: Seq<Binding>, name: Seq<char>, i: int)
    requires
        0 <= i <= bindings.len(),
        forall|j: int| 0 <= j < i ==> bindings[j].name@ != name,
    ensures
        first_bound(bindings, name) == first_bound(bindings.skip(i), name),
    decreases i,
{
    if i == 0 {
        assert(bindings.skip(0) =~= bindings);
    } else {
        let rest = bindings.drop_first();
        assert forall|j: int| 0 <= j < i - 1 implies rest[j].name@ != name by {
            assert(rest[j] == bindings[j + 1]);
        }
        lemma_first_bound_skip(rest, name, i - 1);
        assert(rest.skip(i - 1) =~= bindings.skip(i));
    }
}

/// Replacing the value of a binding changes what its name is bound to, if
/// it is the first with that name, and nothing else.
pub proof fn lemma_first_bound_update(bindings: Seq<Binding>, i: int, b: Binding, other: Seq<char>)
    requires
        0 <= i < bindings.len(),
        b.name@ == bindings[i].name@,
        forall|j: int| 0 <= j < i ==> bindings[j].name@ != b.name@,
    ensures
        first_bound(bindings.update(i, b), other) == if other == b.name@ {
            Some(b.value@)
        } else {
            first_bound(bindings, other)
        },
    decreases i,
{
    let updated = bindings.update(i, b);
    if i == 0 {
        assert(updated.drop_first() =~= bindings.drop_first());
    } else {
        let rest = bindings.drop_first();
        assert forall|j: int| 0 <= j < i - 1 implies rest[j].name@ != b.name@ by {
            assert(rest[j] == bindings[j + 1]);
        }
        lemma_first_bound_update(rest, i - 1, b, other);
        assert(updated.drop_first() =~= rest.update(i - 1, b));
        assert(updated[0] == bindings[0]);
    }
}

/// A binding appended behind the others binds its name if none of them
/// has it, and changes nothing else.
pub proof fn lemma_first_bound_push(bindings: Seq<Binding>, b: Binding, other: Seq<char>)
    requires
        forall|j: int| 0 <= j < bindings.len() ==> bindings[j].name@ != b.name@,
    ensures
        first_bound(bindings.push(b), other) == if other == b.name@ {
            Some(b.value@)
        } else {
            first_bound(bindings, other)
        },
    decreases bindings.len(),
{
    let pushed = bindings.push(b);
    if bindings.len() == 0 {
        assert(pushed.drop_first() =~= Seq::<Binding>::empty());
        assert(first_bound(pushed.drop_first(), other) == None::<Value>);
    } else {
        let rest = bindings.drop_first();
        assert forall|j: int| 0 <= j < rest.len() implies rest[j].name@ != b.name@ by {
            assert(rest[j] == bindings[j + 1]);
        }
        lemma_first_bound_push(rest, b, other);
        assert(pushed.drop_first() =~= rest.push(b));
        assert(pushed[0] == bindings[0]);
    }
}

/// A single flat scope of variables.
pub struct Environment {
    values: Vec<Binding>,
}

impl View for Environment {
    type V = Bindings;

    closed spec fn view(&self) -> Bindings {
        Map::new(
            |name: Seq<char>| first_bound(self.values@, name) is Some,
            |name: Seq<char>| first_bound(self.values@, name)->0,
        )
    }
}

impl Environment {
    /// An environment without variables.
    pub fn new() -> (r: Environment)
        ensures
            r@ == Map::<Seq<char>, Value>::empty(),
    {
        let r = Environment { values: Vec::new() };
        assert(r@ =~= Map::<Seq<char>, Value>::empty());
        r
    }

    /// The index of the first binding of the name.
    fn find(&self, name: &String) -> (r: Option<usize>)
        ensures
            match r {
                Some(i) => {
                    &&& i < self.values.len()
                    &&& self.values@[i as int].name@ == name@
                    &&& forall|j: int| 0 <= j < i ==> self.values@[j].name@ != name@
                },
                None => forall|j: int| 0 <= j < self.values.len() ==> self.values@[j].name@ != name@,
            },
    {
        let mut i: usize = 0;
        while i < self.values.len()
            invariant
                i <= self.values.len(),
                forall|j: int| 0 <= j < i ==> self.values@[j].name@ != name@,
            decreases self.values.len() - i,
        {
            if self.values[i].name == *name {
                return Some(i);
            }
            i += 1;
        }
        None
    }

    /// Binds the name to the value, whether or not it was bound before.
    pub fn define(&mut self, name: &str, obj: Object)
        ensures
            final(self)@ == old(self)@.insert(name@, obj@),
    {
        let owned = name.to_owned();
        let found = self.find(&owned);
        let binding = Binding { name: owned, value: obj };
        match found {
            Some(i) => {
                proof {
                    assert forall|other: Seq<char>|
                        first_bound(self.values@.update(i as int, binding), other) == if other
                            == name@ {
                            Some(obj@)
                        } else {
                            first_bound(self.values@, other)
                        } by {
                        lemma_first_bound_update(self.values@, i as int, binding, other);
                    }
                }
                self.values.set(i, binding);
            },
            None => {
                proof {
                    assert forall|other: Seq<char>|
                        first_bound(self.values@.push(binding), other) == if other == name@ {
                            Some(obj@)
                        } else {
                            first_bound(self.values@, other)
                        } by {
                        lemma_first_bound_push(self.values@, binding, other);
                    }
                }
                self.values.push(binding);
            },
        }
        assert(self@ =~= old(self)@.insert(name@, obj@));
    }

    /// Looks the variable up and hands out its value for reading and for
    /// update in place. Fails if the variable is not declared; the
    /// environment is then unchanged.
    pub fn get(&mut self, name: &Token) -> (r: Result<&mut Object, Error>)
        ensures
            match r {
                Ok(slot) => {
                    &&& old(self)@.contains_key(name.lexeme@)
                    &&& (*slot)@ == old(self)@[name.lexeme@]
                    &&& final(self)@ == old(self)@.insert(name.lexeme@, (*final(slot))@)
                },
                Err(e) => {
                    &&& !old(self)@.contains_key(name.lexeme@)
                    &&& e@ == crate::interpreter::error::Fault::UndefinedVariable(name@)
                    &&& final(self)@ == old(self)@
                },
            },
    {
        match self.find(&name.lexeme) {
            Some(i) => {
                proof {
                    lemma_first_bound_skip(self.values@, name.lexeme@, i as int);
                    assert(self.values@.skip(i as int)[0] == self.values@[i as int]);
                    assert forall|b: Binding, other: Seq<char>|
                        b.name@ == name.lexeme@ implies #[trigger] first_bound(
                        self.values@.update(i as int, b),
                        other,
                    ) == if other == name.lexeme@ {
                        Some(b.value@)
                    } else {
                        first_bound(self.values@, other)
                    } by {
                        lemma_first_bound_update(self.values@, i as int, b, other);
                    }
                }
                Ok(&mut self.values[i].value)
            },
            None => {
                proof {
                    lemma_first_bound_skip(
                        self.values@,
                        name.lexeme@,
                        self.values@.len() as int,
                    );
                }
                Err(Error::new(ErrorKind::UndefinedVariable(name.clone())))
            },
        }
    }

    /// Gives a declared variable a new value. Fails, and changes nothing,
    /// if the variable is not declared: assignment creates no variable.
    pub fn assign(&mut self, name: &Token, value: Object) -> (r: Result<(), Error>)
        ensures
            match r {
                Ok(_) => {
                    &&& old(self)@.contains_key(name.lexeme@)
                    &&& final(self)@ == old(self)@.insert(name.lexeme@, value@)
                },
                Err(e) => {
                    &&& !old(self)@.contains_key(name.lexeme@)
                    &&& e@ == crate::interpreter::error::Fault::UndefinedVariable(name@)
                    &&& final(self)@ == old(self)@
                },
            },
    {
        match self.get(name) {
            Ok(slot) => {
                *slot = value;
                Ok(())
            },
            Err(e) => Err(e),
        }
    }
}

impl Default for Environment {
    fn default() -> (r: Environment)
        ensures
            r@ == Map::<Seq<char>, Value>::empty(),
    {
        Environment::new()
    }
}

} // verus!
