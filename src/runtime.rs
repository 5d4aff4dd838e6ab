use vstd::prelude::*;

use crate::bi_operator::BiOperator;
use crate::expression::Function;
use crate::value::Value;

verus! {

/// Why a running program stopped.
#[derive(Debug, PartialEq, Eq)]
pub enum RuntimeError {
    /// A variable was read before any assignment to it.
    UnknownVariable(String),
    /// A call names no built-in function.
    UnknownFunction(String),
    /// A built-in function got the wrong number or the wrong types of arguments.
    InvalidArguments(Function),
    /// An operator was applied to operands of types it does not take.
    InvalidOperator(BiOperator, Value, Value),
    /// The condition of an `if` or a `while` was not a boolean.
    InvalidConditionType(Value),
    /// Any other failure, described by its message.
    Message(String),
}

impl RuntimeError {
    /// An error described by `message`.
    pub fn new(message: String) -> (r: Self)
        ensures
            r == RuntimeError::Message(message),
    {
        RuntimeError::Message(message)
    }
}

/// The variables that the pairs bind: a later pair's name is never an
/// earlier pair's name (see `ExecutionContext::wf`).
pub open spec fn bindings(s: Seq<(String, Value)>) -> Map<Seq<char>, Value>
    decreases s.len(),
{
    if s.len() == 0 {
        Map::empty()
    } else {
        bindings(s.drop_last()).insert(s.last().0@, s.last().1)
    }
}

/// No name is bound twice.
pub open spec fn distinct_names(s: Seq<(String, Value)>) -> bool {
    forall|i: int, j: int| 0 <= i < j < s.len() ==> s[i].0@ != s[j].0@
}

proof fn lemma_bound(s: Seq<(String, Value)>, i: int)
    requires
        distinct_names(s),
        0 <= i < s.len(),
    ensures
        bindings(s).contains_key(s[i].0@),
        bindings(s)[s[i].0@] == s[i].1,
    decreases s.len(),
{
    if i < s.len() - 1 {
        assert(distinct_names(s.drop_last()));
        lemma_bound(s.drop_last(), i);
        assert(s.drop_last()[i] == s[i]);
    }
}

proof fn lemma_unbound(s: Seq<(String, Value)>, k: Seq<char>)
    requires
        forall|i: int| 0 <= i < s.len() ==> s[i].0@ != k,
    ensures
        !bindings(s).contains_key(k),
    decreases s.len(),
{
    if s.len() > 0 {
        assert forall|i: int| 0 <= i < s.drop_last().len() implies s.drop_last()[i].0@ != k by {
            assert(s.drop_last()[i] == s[i]);
        }
        lemma_unbound(s.drop_last(), k);
    }
}

proof fn lemma_rebind(s: Seq<(String, Value)>, i: int, v: Value)
    requires
        distinct_names(s),
        0 <= i < s.len(),
    ensures
        bindings(s.update(i, (s[i].0, v))) == bindings(s).insert(s[i].0@, v),
    decreases s.len(),
{
    let t = s.update(i, (s[i].0, v));
    if i == s.len() - 1 {
        assert(t.drop_last() == s.drop_last());
    } else {
        assert(distinct_names(s.drop_last()));
        lemma_rebind(s.drop_last(), i, v);
        assert(t.drop_last() == s.drop_last().update(i, (s[i].0, v)));
        assert(s.last().0@ != s[i].0@);
        assert(bindings(t) == bindings(s).insert(s[i].0@, v));
    }
}

/// The state a program runs against: one flat mapping from variable names
/// to values. A block opens no scope of its own.
pub struct ExecutionContext {
    variables: Vec<(String, Value)>,
}

impl ExecutionContext {
    pub closed spec fn wf(&self) -> bool {
        distinct_names(self.variables@)
    }

    /// The variables and their values.
    pub closed spec fn env(&self) -> Map<Seq<char>, Value> {
        bindings(self.variables@)
    }

    /// A context in which no variable is bound.
    pub fn new() -> (r: Self)
        ensures
            r.wf(),
            r.env() == Map::<Seq<char>, Value>::empty(),
    {
        ExecutionContext { variables: Vec::new() }
    }

    fn position(&self, name: &String) -> (r: Option<usize>)
        ensures
            match r {
                Some(i) => i < self.variables@.len() && self.variables@[i as int].0@ == name@,
                None => forall|i: int|
                    0 <= i < self.variables@.len() ==> self.variables@[i].0@ != name@,
            },
    {
        let mut i: usize = 0;
        while i < self.variables.len()
            invariant
                i <= self.variables@.len(),
                forall|j: int| 0 <= j < i ==> self.variables@[j].0@ != name@,
            decreases self.variables@.len() - i,
        {
            if self.variables[i].0 == *name {
                return Some(i);
            }
            i = i + 1;
        }
        None
    }

    /// Binds `name` to `value`, replacing any earlier binding of `name`.
    pub fn set_variable(&mut self, name: String, value: Value)
        requires
            old(self).wf(),
        ensures
            final(self).wf(),
            final(self).env() == old(self).env().insert(name@, value),
    {
        match self.position(&name) {
            Some(i) => {
                proof {
                    lemma_rebind(self.variables@, i as int, value);
                }
                let entry = (self.variables[i].0.clone(), value);
                self.variables.set(i, entry);
                proof {
                    assert(self.variables@ == old(self).variables@.update(
                        i as int,
                        (old(self).variables@[i as int].0, value),
                    ));
                }
            },
            None => {
                let ghost before = self.variables@;
                self.variables.push((name, value));
                proof {
                    assert(self.variables@.drop_last() == before);
                    assert forall|i: int, j: int|
                        0 <= i < j < self.variables@.len() implies self.variables@[i].0@
                        != self.variables@[j].0@ by {
                        assert(self.variables@[i] == before[i]);
                        if j < self.variables@.len() - 1 {
                            assert(self.variables@[j] == before[j]);
                        }
                    }
                }
            },
        }
    }

    /// The value bound to `name`, if any.
    pub fn get_variable(&self, name: &String) -> (r: Option<&Value>)
        requires
            self.wf(),
        ensures
            match r {
                Some(v) => self.env().contains_key(name@) && *v == self.env()[name@],
                None => !self.env().contains_key(name@),
            },
    {
        match self.position(name) {
            Some(i) => {
                proof {
                    lemma_bound(self.variables@, i as int);
                }
                Some(&self.variables[i].1)
            },
            None => {
                proof {
                    lemma_unbound(self.variables@, name@);
                }
                None
            },
        }
    }
}

} // verus!
