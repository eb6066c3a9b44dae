//! The value model: tagged values and handles to shared cells.
//!
//! Every value reachable from a machine lives in a cell of the
//! machine's arena; a [`Ref`] is the index of such a cell.  Lists and
//! trees hold handles, not values, so several roots may alias one cell
//! and observe in-place mutation through it.  Operators are total:
//! an incompatible pairing yields an [`Value::Error`] value, never a
//! failure of the machine itself.

use vstd::prelude::*;

use crate::digits::dec_int;
use crate::digits::int_to_string;
use crate::env::Env;
use crate::function::Function;

verus! {

/// A handle to a value cell: the index of the cell in the machine's
/// arena.  Copying a `Ref` makes an alias, never a copy of the value.
#[derive(Debug, Clone, Copy, PartialEq, Eq, Structural)]
pub struct Ref {
    pub idx: usize,
}

/// A machine value.
#[derive(Debug, PartialEq)]
pub enum Value {
    /// A text value.
    Str(String),
    /// A number.
    Num(i64),
    /// An ordered sequence of handles to value cells.
    List(Vec<Ref>),
    /// A string-keyed table of handles to value cells.
    Tree(Env),
    /// A function with its captured context.
    Func(Function),
    /// A recoverable failure, carried as a value.
    Error(String),
    /// The explicit "no value".
    Absent,
}

/// Every handle held inside `v` points below cell index `n`.
pub open spec fn wf_value(v: Value, n: int) -> bool {
    match v {
        Value::List(rs) => forall|k: int| 0 <= k < rs@.len() ==> (#[trigger] rs@[k]).idx < n,
        Value::Tree(env) => crate::env::env_refs_below(env, n),
        Value::Func(f) => crate::env::env_refs_below(f.context, n),
        _ => true,
    }
}

/// `v` is a text value with content `t`.
pub open spec fn is_str_with(v: Value, t: Seq<char>) -> bool {
    v matches Value::Str(s) && s@ == t
}

/// `v` is an error value with message `t`.
pub open spec fn is_error_with(v: Value, t: Seq<char>) -> bool {
    v matches Value::Error(s) && s@ == t
}

/// `v` is a list holding exactly the handles `rs`.
pub open spec fn is_list_with(v: Value, rs: Seq<Ref>) -> bool {
    v matches Value::List(l) && l@ == rs
}

/// `v` is a tree holding exactly the bindings `es`.
pub open spec fn is_tree_with(v: Value, es: Seq<(Seq<char>, Ref)>) -> bool {
    v matches Value::Tree(env) && env.kv() == es
}

/// The two values describe the same state: equal content, with lists
/// and trees holding the same handles and functions sharing their code
/// and capturing the same bindings.  This is what a clone preserves.
pub open spec fn veq(a: Value, b: Value) -> bool {
    match (a, b) {
        (Value::Str(s1), Value::Str(s2)) => s1@ == s2@,
        (Value::Num(m), Value::Num(n)) => m == n,
        (Value::List(l1), Value::List(l2)) => l1@ == l2@,
        (Value::Tree(t1), Value::Tree(t2)) => t1.kv() == t2.kv(),
        (Value::Func(f1), Value::Func(f2)) => f1.code == f2.code && f1.context.kv()
            == f2.context.kv(),
        (Value::Error(e1), Value::Error(e2)) => e1@ == e2@,
        (Value::Absent, Value::Absent) => true,
        _ => false,
    }
}

/// The boolean a value coerces to: empty strings, empty containers,
/// zero, errors and the absent value are false; functions are true.
pub open spec fn spec_truthy(v: Value) -> bool {
    match v {
        Value::Str(s) => s@.len() > 0,
        Value::Num(n) => n != 0,
        Value::List(rs) => rs@.len() > 0,
        Value::Tree(env) => env.kv().len() > 0,
        Value::Func(_) => true,
        Value::Error(_) => false,
        Value::Absent => false,
    }
}

/// The number a value coerces to: numbers themselves, zero otherwise.
pub open spec fn spec_to_number(v: Value) -> i64 {
    match v {
        Value::Num(n) => n,
        _ => 0,
    }
}

/// The text a value coerces to: string content, error messages, else empty.
pub open spec fn spec_to_text(v: Value) -> Seq<char> {
    match v {
        Value::Str(s) => s@,
        Value::Error(e) => e@,
        _ => Seq::<char>::empty(),
    }
}

/// The short text a value is named by when it is used as a key:
/// strings stand for themselves, numbers render in decimal, the
/// other shapes render as fixed markers.  The markers mean that two
/// different containers used as register names name one register;
/// container keys carry no meaning here, so their text is not made
/// distinguishing.
pub open spec fn key_text(v: Value) -> Seq<char> {
    match v {
        Value::Str(s) => s@,
        Value::Num(n) => dec_int(n as int),
        Value::Error(e) => "<Exception: '"@ + e@ + "'>"@,
        Value::Absent => "None"@,
        Value::List(_) => "[...]"@,
        Value::Tree(_) => "{...}"@,
        Value::Func(_) => "<function>"@,
    }
}

/// `v` is an error value.
pub open spec fn spec_is_err(v: Value) -> bool {
    v matches Value::Error(_)
}

/// The message of a failed binary operator application.
pub open spec fn op_err_text(verb: Seq<char>, a: Value, b: Value) -> Seq<char> {
    "Could not "@ + verb + " "@ + key_text(a) + " and "@ + key_text(b)
}

/// A string repeated `n` times (empty for `n <= 0`).
pub open spec fn str_repeat(s: Seq<char>, n: int) -> Seq<char>
    decreases n,
{
    if n <= 0 {
        Seq::<char>::empty()
    } else {
        str_repeat(s, n - 1) + s
    }
}

/// What `a.add(b)` returns: string and list concatenation, wrapping
/// addition of numbers, and an error for every other pairing.
pub open spec fn add_rel(a: Value, b: Value, r: Value) -> bool {
    match (a, b) {
        (Value::Str(s1), Value::Str(s2)) => is_str_with(r, s1@ + s2@),
        (Value::Num(m), Value::Num(n)) => r == Value::Num(m.wrapping_add(n)),
        (Value::List(l1), Value::List(l2)) => is_list_with(r, l1@ + l2@),
        _ => is_error_with(r, op_err_text("add"@, a, b)),
    }
}

/// What `a.sub(b)` returns: wrapping subtraction of numbers, else an error.
pub open spec fn sub_rel(a: Value, b: Value, r: Value) -> bool {
    match (a, b) {
        (Value::Num(m), Value::Num(n)) => r == Value::Num(m.wrapping_sub(n)),
        _ => is_error_with(r, op_err_text("subtract"@, a, b)),
    }
}

/// What `a.mul(b)` returns: string repetition, wrapping multiplication
/// of numbers, and an error for every other pairing.
pub open spec fn mul_rel(a: Value, b: Value, r: Value) -> bool {
    match (a, b) {
        (Value::Str(s), Value::Num(n)) => is_str_with(r, str_repeat(s@, n as int)),
        (Value::Num(m), Value::Num(n)) => r == Value::Num(m.wrapping_mul(n)),
        _ => is_error_with(r, op_err_text("multiply"@, a, b)),
    }
}

/// What `a.div(b)` returns: truncated division of numbers, an error on
/// a zero divisor or overflow, and an error for every other pairing.
pub open spec fn div_rel(a: Value, b: Value, r: Value) -> bool {
    match (a, b) {
        (Value::Num(m), Value::Num(n)) => match m.checked_div(n) {
            Some(q) => r == Value::Num(q),
            None => is_error_with(r, "Division by zero or overflow"@),
        },
        _ => is_error_with(r, op_err_text("divide"@, a, b)),
    }
}

/// What `a.rem(b)` returns: the remainder of numbers, an error on a
/// zero divisor or overflow, and an error for every other pairing.
pub open spec fn rem_rel(a: Value, b: Value, r: Value) -> bool {
    match (a, b) {
        (Value::Num(m), Value::Num(n)) => match m.checked_rem(n) {
            Some(q) => r == Value::Num(q),
            None => is_error_with(r, "Remainder by zero or overflow"@),
        },
        _ => is_error_with(r, op_err_text("find the remainder of"@, a, b)),
    }
}

/// What `a.not()` returns: logical negation of a number, else an error.
pub open spec fn not_rel(a: Value, r: Value) -> bool {
    match a {
        Value::Num(n) => r == Value::Num(if n == 0 { 1i64 } else { 0i64 }),
        _ => is_error_with(r, "Could not negate "@ + key_text(a)),
    }
}

impl Value {
    /// Creates a number value.
    pub fn number(n: i64) -> (v: Value)
        ensures
            v == Value::Num(n),
    {
        Value::Num(n)
    }

    /// Creates a text value.
    pub fn string(s: &str) -> (v: Value)
        ensures
            is_str_with(v, s@),
    {
        Value::Str(s.to_owned())
    }

    /// Creates an empty list value.
    pub fn list() -> (v: Value)
        ensures
            is_list_with(v, Seq::<Ref>::empty()),
    {
        Value::List(Vec::new())
    }

    /// Creates an empty tree value.
    pub fn tree() -> (v: Value)
        ensures
            is_tree_with(v, Seq::<(Seq<char>, Ref)>::empty()),
    {
        let env = Env::new();
        proof {
            assert(env.kv() =~= Seq::<(Seq<char>, Ref)>::empty());
        }
        Value::Tree(env)
    }

    /// Creates an error value with the given message.
    pub fn error(s: &str) -> (v: Value)
        ensures
            is_error_with(v, s@),
    {
        Value::Error(s.to_owned())
    }

    /// Creates the absent value.
    pub fn none() -> (v: Value)
        ensures
            v == Value::Absent,
    {
        Value::Absent
    }

    /// Whether this value is an error.
    pub fn is_err(&self) -> (b: bool)
        ensures
            b == spec_is_err(*self),
    {
        match self {
            Value::Error(_) => true,
            _ => false,
        }
    }

    /// The boolean this value coerces to.
    pub fn truthy(&self) -> (b: bool)
        ensures
            b == spec_truthy(*self),
    {
        match self {
            Value::Str(s) => !s.as_str().is_empty(),
            Value::Num(n) => *n != 0,
            Value::List(rs) => rs.len() > 0,
            Value::Tree(env) => env.entries.len() > 0,
            Value::Func(_) => true,
            Value::Error(_) => false,
            Value::Absent => false,
        }
    }

    /// The number this value coerces to.
    pub fn to_number(&self) -> (n: i64)
        ensures
            n == spec_to_number(*self),
    {
        match self {
            Value::Num(n) => *n,
            _ => 0,
        }
    }

    /// The text this value coerces to.
    pub fn to_text(&self) -> (s: String)
        ensures
            s@ == spec_to_text(*self),
    {
        match self {
            Value::Str(s) => s.clone(),
            Value::Error(e) => e.clone(),
            _ => String::new(),
        }
    }

    /// The handles this value holds as a list (empty for other shapes).
    pub fn to_list(&self) -> (rs: Vec<Ref>)
        ensures
            rs@ == (match *self {
                Value::List(l) => l@,
                _ => Seq::<Ref>::empty(),
            }),
    {
        match self {
            Value::List(l) => l.clone(),
            _ => Vec::new(),
        }
    }

    /// The bindings this value holds as a tree (empty for other shapes).
    pub fn to_tree(&self) -> (env: Env)
        ensures
            env.kv() == (match *self {
                Value::Tree(t) => t.kv(),
                _ => Seq::<(Seq<char>, Ref)>::empty(),
            }),
    {
        match self {
            Value::Tree(t) => t.clone(),
            _ => {
                let env = Env::new();
                proof {
                    assert(env.kv() =~= Seq::<(Seq<char>, Ref)>::empty());
                }
                env
            },
        }
    }

    /// The function this value holds (an empty function for other shapes).
    pub fn to_function(&self) -> (f: Function)
        ensures
            (match *self {
                Value::Func(g) => f.code == g.code && f.context.kv() == g.context.kv(),
                _ => f.code@.len() == 0 && f.context.kv().len() == 0,
            }),
    {
        match self {
            Value::Func(g) => g.clone(),
            _ => Function::new(std::rc::Rc::new(Vec::new()), Env::new()),
        }
    }

    /// The short text this value is named by when used as a key.
    pub fn key_string(&self) -> (s: String)
        ensures
            s@ == key_text(*self),
    {
        match self {
            Value::Str(s) => s.clone(),
            Value::Num(n) => int_to_string(*n),
            Value::Error(e) => {
                let mut t = String::from_str("<Exception: '");
                t.append(e.as_str());
                t.append("'>");
                t
            },
            Value::Absent => String::from_str("None"),
            Value::List(_) => String::from_str("[...]"),
            Value::Tree(_) => String::from_str("{...}"),
            Value::Func(_) => String::from_str("<function>"),
        }
    }

    /// Adds another value to this one: concatenation for strings and
    /// lists, wrapping addition for numbers, else an error value.
    pub fn add(self, rhs: Value) -> (r: Value)
        ensures
            add_rel(self, rhs, r),
    {
        match (self, rhs) {
            (Value::Str(s1), Value::Str(s2)) => {
                let mut t = s1;
                t.append(s2.as_str());
                Value::Str(t)
            },
            (Value::Num(m), Value::Num(n)) => Value::Num(m.wrapping_add(n)),
            (Value::List(l1), Value::List(l2)) => {
                let mut l1 = l1;
                let mut l2 = l2;
                l1.append(&mut l2);
                Value::List(l1)
            },
            (a, b) => mismatch_error("add", &a, &b),
        }
    }

    /// Subtracts another number from this one, else an error value.
    pub fn sub(self, rhs: Value) -> (r: Value)
        ensures
            sub_rel(self, rhs, r),
    {
        match (self, rhs) {
            (Value::Num(m), Value::Num(n)) => Value::Num(m.wrapping_sub(n)),
            (a, b) => mismatch_error("subtract", &a, &b),
        }
    }

    /// Multiplies: string repetition, wrapping multiplication of
    /// numbers, else an error value.
    pub fn mul(self, rhs: Value) -> (r: Value)
        ensures
            mul_rel(self, rhs, r),
    {
        match (self, rhs) {
            (Value::Str(s), Value::Num(n)) => {
                let mut t = String::new();
                let mut i: i64 = 0;
                while i < n
                    invariant
                        0 <= i,
                        n > 0 ==> i <= n,
                        n <= 0 ==> i == 0,
                        t@ == str_repeat(s@, i as int),
                    decreases n - i,
                {
                    t.append(s.as_str());
                    i = i + 1;
                }
                Value::Str(t)
            },
            (Value::Num(m), Value::Num(n)) => Value::Num(m.wrapping_mul(n)),
            (a, b) => mismatch_error("multiply", &a, &b),
        }
    }

    /// Divides this number by another, else an error value.
    pub fn div(self, rhs: Value) -> (r: Value)
        ensures
            div_rel(self, rhs, r),
    {
        match (self, rhs) {
            (Value::Num(m), Value::Num(n)) => match m.checked_div(n) {
                Some(q) => Value::Num(q),
                None => Value::error("Division by zero or overflow"),
            },
            (a, b) => mismatch_error("divide", &a, &b),
        }
    }

    /// The remainder of this number by another, else an error value.
    pub fn rem(self, rhs: Value) -> (r: Value)
        ensures
            rem_rel(self, rhs, r),
    {
        match (self, rhs) {
            (Value::Num(m), Value::Num(n)) => match m.checked_rem(n) {
                Some(q) => Value::Num(q),
                None => Value::error("Remainder by zero or overflow"),
            },
            (a, b) => mismatch_error("find the remainder of", &a, &b),
        }
    }

    /// Logical negation of a number, else an error value.
    pub fn not(self) -> (r: Value)
        ensures
            not_rel(self, r),
    {
        match self {
            Value::Num(n) => Value::Num(if n == 0 { 1 } else { 0 }),
            a => {
                let mut t = String::from_str("Could not negate ");
                t.append(a.key_string().as_str());
                Value::Error(t)
            },
        }
    }
}

/// The error value for a failed binary operator application.
fn mismatch_error(verb: &str, a: &Value, b: &Value) -> (r: Value)
    ensures
        is_error_with(r, op_err_text(verb@, *a, *b)),
{
    let mut t = String::from_str("Could not ");
    t.append(verb);
    t.append(" ");
    t.append(a.key_string().as_str());
    t.append(" and ");
    t.append(b.key_string().as_str());
    Value::Error(t)
}

impl Clone for Value {
    /// A clone describes the same state as the original; for lists and
    /// trees it holds the same handles, aliasing the same cells.
    fn clone(&self) -> (res: Self)
        ensures
            veq(res, *self),
    {
        match self {
            Value::Str(s) => Value::Str(s.clone()),
            Value::Num(n) => Value::Num(*n),
            Value::List(rs) => Value::List(rs.clone()),
            Value::Tree(env) => Value::Tree(env.clone()),
            Value::Func(f) => Value::Func(f.clone()),
            Value::Error(e) => Value::Error(e.clone()),
            Value::Absent => Value::Absent,
        }
    }
}

/// Values describing the same state hold the same handles.
pub proof fn lemma_veq_wf(a: Value, b: Value, n: int)
    requires
        veq(a, b),
    ensures
        wf_value(a, n) == wf_value(b, n),
{
}

/// The relation [`veq`] is reflexive.
pub proof fn lemma_veq_refl(a: Value)
    ensures
        veq(a, a),
{
    match a {
        Value::Str(_) => {
        },
        Value::Num(_) => {
        },
        Value::List(_) => {
        },
        Value::Tree(_) => {
        },
        Value::Func(_) => {
        },
        Value::Error(_) => {
        },
        Value::Absent => {
        },
    }
}

/// The relation [`veq`] is transitive.
pub proof fn lemma_veq_trans(a: Value, b: Value, c: Value)
    requires
        veq(a, b),
        veq(b, c),
    ensures
        veq(a, c),
{
}

/// Values describing the same state are named by the same key text.
pub proof fn lemma_key_text_veq(a: Value, b: Value)
    requires
        veq(a, b),
    ensures
        key_text(a) == key_text(b),
{
}

/// A value whose handles point below `n` still does when cells are added.
pub proof fn lemma_wf_value_mono(v: Value, n: int, n2: int)
    requires
        wf_value(v, n),
        n <= n2,
    ensures
        wf_value(v, n2),
{
}

/// Operators hand back values whose handles all come from the operands.
pub proof fn lemma_binop_wf(a: Value, b: Value, r: Value, n: int)
    requires
        wf_value(a, n),
        wf_value(b, n),
        add_rel(a, b, r) || sub_rel(a, b, r) || mul_rel(a, b, r) || div_rel(a, b, r) || rem_rel(
            a,
            b,
            r,
        ) || not_rel(a, r),
    ensures
        wf_value(r, n),
{
}

} // verus!
