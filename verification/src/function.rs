//! Function values: a code body and a captured context.
//!
//! A [`Function`] pairs an instruction sequence with the registers it
//! captured when it was created, which makes it a closure.  The capture
//! is a detached copy of the creating machine's registers (see
//! [`crate::machine::Machine::duplicate`]), so a function's private
//! state never aliases the registers of its defining scope.

use vstd::prelude::*;

use std::rc::Rc;

use crate::env::Env;

verus! {

/// One machine instruction, as stored in a function body.
///
/// The `Push*` instructions push a fresh cell holding the given value;
/// `Lambda` creates a function value capturing the current registers;
/// the rest invoke the machine operation of the same name.  `Add`
/// through `Not` pop their operands and push the operator's result,
/// exactly as a host would with `get_arg` and `return_value`.
#[derive(Debug, PartialEq)]
pub enum Instr {
    PushNum(i64),
    PushStr(String),
    PushList,
    PushTree,
    PushAbsent,
    Lambda(Rc<Vec<Instr>>),
    CopyTop,
    Store,
    Load,
    Assign,
    Index,
    MethodCall,
    Call,
    While,
    For,
    IfElse,
    Add,
    Sub,
    Mul,
    Div,
    Rem,
    Not,
}

/// A function value: an instruction sequence and its captured context.
#[derive(Debug)]
pub struct Function {
    /// The instruction sequence run when the function is called.
    pub code: Rc<Vec<Instr>>,
    /// The registers captured when the function was created.
    pub context: Env,
}

impl Function {
    /// Creates a function from a code body and an already captured context.
    pub fn new(code: Rc<Vec<Instr>>, context: Env) -> (f: Function)
        ensures
            f.code == code,
            f.context == context,
    {
        Function { code, context }
    }

    /// The captured context of the function.
    pub fn get_context(&self) -> (c: &Env)
        ensures
            c == &self.context,
    {
        &self.context
    }
}

impl PartialEq for Function {
    /// Two functions are equal when they captured the same bindings:
    /// comparison goes by the captured context's content, not by the
    /// code body.
    fn eq(&self, other: &Function) -> (r: bool) {
        if self.context.entries.len() != other.context.entries.len() {
            return false;
        }
        let mut i: usize = 0;
        while i < self.context.entries.len()
            invariant
                i <= self.context.entries@.len(),
                self.context.entries@.len() == other.context.entries@.len(),
                forall|k: int| 0 <= k < i ==> #[trigger] self.context.kv()[k]
                    == other.context.kv()[k],
            decreases self.context.entries@.len() - i,
        {
            if !self.context.entries[i].0.eq(&other.context.entries[i].0) {
                proof {
                    assert(self.context.kv()[i as int] != other.context.kv()[i as int]);
                }
                return false;
            }
            if self.context.entries[i].1.idx != other.context.entries[i].1.idx {
                proof {
                    assert(self.context.kv()[i as int] != other.context.kv()[i as int]);
                }
                return false;
            }
            proof {
                assert(self.context.kv()[i as int] == other.context.kv()[i as int]);
            }
            i = i + 1;
        }
        proof {
            assert(self.context.kv() =~= other.context.kv());
        }
        true
    }
}

impl vstd::std_specs::cmp::PartialEqSpecImpl for Function {
    open spec fn obeys_eq_spec() -> bool {
        true
    }

    open spec fn eq_spec(&self, other: &Function) -> bool {
        self.context.kv() == other.context.kv()
    }
}

impl Default for Function {
    /// The default function has no instructions and captures nothing.
    fn default() -> (f: Self)
        ensures
            f.code@.len() == 0,
            f.context.kv().len() == 0,
    {
        Function { code: Rc::new(Vec::new()), context: Env::new() }
    }
}

impl Clone for Function {
    /// A clone shares the code body and binds the same captured names
    /// to the same cells.
    fn clone(&self) -> (res: Self)
        ensures
            res.code == self.code,
            res.context.kv() == self.context.kv(),
    {
        Function { code: self.code.clone(), context: self.context.clone() }
    }
}

} // verus!
