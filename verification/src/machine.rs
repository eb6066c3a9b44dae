//! The machine: an arena of value cells, an operand stack and registers.
//!
//! All values live in cells of the arena; the stack and the registers
//! hold handles into it, as do list slots and tree slots.  Aliasing is
//! therefore explicit: two holders of the same handle see the same
//! cell, and [`Machine::assign`] overwrites a cell in place so that
//! every alias observes the new value.  Each instruction is total: on
//! an underflowing stack it works with freshly allocated error values
//! rather than failing.
//!
//! Calls that may recurse (function calls and the control-flow
//! instructions) take a fuel bound; a run that exhausts its fuel stops
//! and reports it, standing in for the resource exhaustion that
//! unbounded recursion or an endless loop would reach.

use vstd::prelude::*;

use std::rc::Rc;

use crate::env::Env;
use crate::env::env_refs_below;
use crate::function::Function;
use crate::function::Instr;
use crate::value::Ref;
use crate::value::Value;
use crate::value::is_error_with;
use crate::value::key_text;
use crate::value::veq;
use crate::value::wf_value;

verus! {

/// The machine state: value cells, the operand stack, and registers.
///
/// The stack and the register table hold handles into `cells`; cells
/// are never removed, so a handle once valid stays valid.
#[derive(Debug)]
pub struct Machine {
    /// The arena of value cells that every handle points into.
    pub cells: Vec<Value>,
    /// The operand stack, a sequence of handles grown from its end.
    pub stack: Vec<Ref>,
    /// The named registers of this machine's scope.
    pub registers: Env,
}

/// Every handle in `stack` points below cell index `n`.
pub open spec fn stack_refs_below(stack: Seq<Ref>, n: int) -> bool {
    forall|k: int| 0 <= k < stack.len() ==> (#[trigger] stack[k]).idx < n
}

/// Every handle held inside any cell points into the arena.
pub open spec fn cells_wf(cells: Seq<Value>) -> bool {
    forall|i: int| 0 <= i < cells.len() ==> wf_value(#[trigger] cells[i], cells.len() as int)
}

/// `post` keeps every cell of `pre` unchanged and may append new ones.
pub open spec fn cells_extended(pre: Seq<Value>, post: Seq<Value>) -> bool {
    pre.len() <= post.len() && forall|i: int| 0 <= i < pre.len() ==> post[i] == pre[i]
}

/// `post` extends `pre` with one error cell carrying `msg`, and `r` is
/// its handle.
pub open spec fn err_pushed(pre: Seq<Value>, post: Seq<Value>, r: Ref, msg: Seq<char>) -> bool {
    &&& post.len() == pre.len() + 1
    &&& cells_extended(pre, post)
    &&& is_error_with(post[pre.len() as int], msg)
    &&& r.idx == pre.len()
}

/// The message of the error produced by popping an empty stack.
pub open spec fn pop_err_text() -> Seq<char> {
    "Popped from empty stack, called function with too few arguments"@
}

/// The message of the error produced by loading an unbound register.
pub open spec fn no_reg_text(name: Seq<char>) -> Seq<char> {
    "No register named "@ + name
}

/// The key text of an error value with message `msg`.
pub open spec fn exc_name_text(msg: Seq<char>) -> Seq<char> {
    "<Exception: '"@ + msg + "'>"@
}

/// What `pop` does: hand back the top of the stack, or allocate an
/// error cell when the stack is empty.
pub open spec fn pop_post(pre: Machine, post: Machine, r: Ref) -> bool {
    if pre.stack@.len() > 0 {
        &&& post.cells@ == pre.cells@
        &&& post.stack@ == pre.stack@.drop_last()
        &&& r == pre.stack@.last()
        &&& post.registers == pre.registers
    } else {
        &&& err_pushed(pre.cells@, post.cells@, r, pop_err_text())
        &&& post.stack@ == pre.stack@
        &&& post.registers == pre.registers
    }
}

/// What `push` does: allocate a fresh cell holding `v` and push its handle.
pub open spec fn push_post(pre: Machine, post: Machine, v: Value) -> bool {
    &&& post.cells@ == pre.cells@.push(v)
    &&& post.stack@ == pre.stack@.push((Ref { idx: pre.cells@.len() as usize }))
    &&& post.registers == pre.registers
}

/// What `get_arg` does: pop and hand back the value of the popped cell.
pub open spec fn get_arg_post(pre: Machine, post: Machine, v: Value) -> bool {
    if pre.stack@.len() > 0 {
        &&& post.cells@ == pre.cells@
        &&& post.stack@ == pre.stack@.drop_last()
        &&& veq(v, pre.cells@[pre.stack@.last().idx as int])
        &&& post.registers == pre.registers
    } else {
        &&& post.cells@.len() == pre.cells@.len() + 1
        &&& cells_extended(pre.cells@, post.cells@)
        &&& is_error_with(post.cells@.last(), pop_err_text())
        &&& is_error_with(v, pop_err_text())
        &&& post.stack@ == pre.stack@
        &&& post.registers == pre.registers
    }
}

/// What `store` does: pop a key and a value handle, and bind the
/// register named by the key's cell to that handle.
pub open spec fn store_post(pre: Machine, post: Machine) -> bool {
    let n = pre.stack@.len() as int;
    if n >= 2 {
        let k = pre.stack@.last();
        let v = pre.stack@[n - 2];
        &&& post.cells@ == pre.cells@
        &&& post.stack@ == pre.stack@.take(n - 2)
        &&& post.registers@ == pre.registers@.insert(key_text(pre.cells@[k.idx as int]), v)
    } else if n == 1 {
        let k = pre.stack@.last();
        &&& err_pushed(pre.cells@, post.cells@, (Ref { idx: pre.cells@.len() as usize }), pop_err_text())
        &&& post.stack@ == pre.stack@.take(0)
        &&& post.registers@ == pre.registers@.insert(
            key_text(pre.cells@[k.idx as int]),
            (Ref { idx: pre.cells@.len() as usize }),
        )
    } else {
        &&& post.cells@.len() == pre.cells@.len() + 2
        &&& cells_extended(pre.cells@, post.cells@)
        &&& is_error_with(post.cells@[pre.cells@.len() as int], pop_err_text())
        &&& is_error_with(post.cells@[pre.cells@.len() as int + 1], pop_err_text())
        &&& post.stack@ == pre.stack@
        &&& post.registers@ == pre.registers@.insert(
            exc_name_text(pop_err_text()),
            (Ref { idx: (pre.cells@.len() + 1) as usize }),
        )
    }
}

/// What `load` does: pop a key and push the handle bound to the
/// register it names, or a fresh error cell when none is bound.
pub open spec fn load_post(pre: Machine, post: Machine) -> bool {
    let n = pre.stack@.len() as int;
    if n >= 1 {
        let name = key_text(pre.cells@[pre.stack@.last().idx as int]);
        if pre.registers@.contains_key(name) {
            &&& post.cells@ == pre.cells@
            &&& post.stack@ == pre.stack@.drop_last().push(pre.registers@[name])
            &&& post.registers == pre.registers
        } else {
            &&& err_pushed(
                pre.cells@,
                post.cells@,
                (Ref { idx: pre.cells@.len() as usize }),
                no_reg_text(name),
            )
            &&& post.stack@ == pre.stack@.drop_last().push(
                (Ref { idx: pre.cells@.len() as usize }),
            )
            &&& post.registers == pre.registers
        }
    } else {
        let name = exc_name_text(pop_err_text());
        if pre.registers@.contains_key(name) {
            &&& err_pushed(
                pre.cells@,
                post.cells@,
                (Ref { idx: pre.cells@.len() as usize }),
                pop_err_text(),
            )
            &&& post.stack@ == pre.stack@.push(pre.registers@[name])
            &&& post.registers == pre.registers
        } else {
            &&& post.cells@.len() == pre.cells@.len() + 2
            &&& cells_extended(pre.cells@, post.cells@)
            &&& is_error_with(post.cells@[pre.cells@.len() as int], pop_err_text())
            &&& is_error_with(post.cells@[pre.cells@.len() as int + 1], no_reg_text(name))
            &&& post.stack@ == pre.stack@.push((Ref { idx: (pre.cells@.len() + 1) as usize }))
            &&& post.registers == pre.registers
        }
    }
}

/// What `assign` does: pop a target handle and a value handle, and
/// overwrite the target's cell in place with the value's content, so
/// that every alias of the target observes the new value.
pub open spec fn assign_post(pre: Machine, post: Machine) -> bool {
    let n = pre.stack@.len() as int;
    if n >= 2 {
        let target = pre.stack@.last();
        let source = pre.stack@[n - 2];
        &&& post.cells@.len() == pre.cells@.len()
        &&& (forall|i: int|
            0 <= i < pre.cells@.len() && i != target.idx as int ==> post.cells@[i]
                == pre.cells@[i])
        &&& veq(post.cells@[target.idx as int], pre.cells@[source.idx as int])
        &&& post.stack@ == pre.stack@.take(n - 2)
        &&& post.registers == pre.registers
    } else if n == 1 {
        let target = pre.stack@.last();
        &&& post.cells@.len() == pre.cells@.len() + 1
        &&& (forall|i: int|
            0 <= i < pre.cells@.len() && i != target.idx as int ==> post.cells@[i]
                == pre.cells@[i])
        &&& is_error_with(post.cells@[pre.cells@.len() as int], pop_err_text())
        &&& is_error_with(post.cells@[target.idx as int], pop_err_text())
        &&& post.stack@ == pre.stack@.take(0)
        &&& post.registers == pre.registers
    } else {
        &&& post.cells@.len() == pre.cells@.len() + 2
        &&& cells_extended(pre.cells@, post.cells@)
        &&& is_error_with(post.cells@[pre.cells@.len() as int], pop_err_text())
        &&& is_error_with(post.cells@[pre.cells@.len() as int + 1], pop_err_text())
        &&& post.stack@ == pre.stack@
        &&& post.registers == pre.registers
    }
}

/// What copying the value `v` does to the arena: scalars get one fresh
/// cell with the same content; a list or tree gets a fresh cell for
/// each slot, holding the value of the old slot's cell, and a fresh
/// container cell over those; `r` is the handle of the copy.
pub open spec fn copy_step(pre: Seq<Value>, v: Value, post: Seq<Value>, r: Ref) -> bool {
    match v {
        Value::List(rs) => {
            &&& post.len() == pre.len() + rs@.len() + 1
            &&& cells_extended(pre, post)
            &&& (forall|j: int|
                0 <= j < rs@.len() ==> veq(
                    #[trigger] post[pre.len() + j],
                    pre[rs@[j].idx as int],
                ))
            &&& crate::value::is_list_with(
                post[pre.len() as int + rs@.len() as int],
                Seq::new(rs@.len(), |j: int| Ref { idx: (pre.len() + j) as usize }),
            )
            &&& r.idx == pre.len() + rs@.len()
        },
        Value::Tree(env) => {
            &&& post.len() == pre.len() + env.kv().len() + 1
            &&& cells_extended(pre, post)
            &&& (forall|j: int|
                0 <= j < env.kv().len() ==> veq(
                    #[trigger] post[pre.len() + j],
                    pre[env.kv()[j].1.idx as int],
                ))
            &&& crate::value::is_tree_with(
                post[pre.len() as int + env.kv().len() as int],
                Seq::new(
                    env.kv().len() as nat,
                    |j: int| (env.kv()[j].0, Ref { idx: (pre.len() + j) as usize }),
                ),
            )
            &&& r.idx == pre.len() + env.kv().len()
        },
        _ => {
            &&& post.len() == pre.len() + 1
            &&& cells_extended(pre, post)
            &&& veq(post[pre.len() as int], v)
            &&& r.idx == pre.len()
        },
    }
}

/// What `copy` does: pop a handle, copy the value it points to as in
/// [`copy_step`], and push the handle of the detached copy.
pub open spec fn copy_post(pre: Machine, post: Machine) -> bool {
    let n = pre.stack@.len() as int;
    if n >= 1 {
        let t = pre.stack@.last();
        &&& copy_step(pre.cells@, pre.cells@[t.idx as int], post.cells@, post.stack@.last())
        &&& post.stack@ == pre.stack@.drop_last().push(post.stack@.last())
        &&& post.registers == pre.registers
    } else {
        &&& post.cells@.len() == pre.cells@.len() + 2
        &&& cells_extended(pre.cells@, post.cells@)
        &&& is_error_with(post.cells@[pre.cells@.len() as int], pop_err_text())
        &&& is_error_with(post.cells@[pre.cells@.len() as int + 1], pop_err_text())
        &&& post.stack@ == pre.stack@.push((Ref { idx: (pre.cells@.len() + 1) as usize }))
        &&& post.registers == pre.registers
    }
}

/// The message of the error for indexing a list with an unusable key.
pub open spec fn list_key_err_text() -> Seq<char> {
    "Can't index list with non-integer"@
}

/// The message of the error for indexing a string with an unusable key.
pub open spec fn str_key_err_text() -> Seq<char> {
    "Can't index string with non-integer"@
}

/// The message of the error for indexing a string out of bounds.
pub open spec fn str_oob_text() -> Seq<char> {
    "String index out of bounds"@
}

/// The message of the error for indexing a value that is no container.
pub open spec fn not_container_text() -> Seq<char> {
    "Can't index non-list or non-tree"@
}

/// What indexing the value `v` with key `key` does: `c0`/`c1` are the
/// arena before and after, `v2` the container afterwards, and `r` the
/// resulting handle.  A list indexed beyond its length grows with
/// fresh absent cells up to the index; a tree grows a fresh absent
/// cell under a missing key; a string yields a fresh one-character
/// cell; anything else, or an unusable key, yields a fresh error cell.
pub open spec fn index_step(
    c0: Seq<Value>,
    v: Value,
    key: Value,
    c1: Seq<Value>,
    v2: Value,
    r: Ref,
) -> bool {
    match v {
        Value::List(rs) => match key {
            Value::Num(n) => if 0 <= n < rs@.len() {
                &&& c1 == c0
                &&& veq(v2, v)
                &&& r == rs@[n as int]
            } else if n >= rs@.len() && n as int <= usize::MAX as int {
                let ext = n as int + 1 - rs@.len();
                &&& c1.len() == c0.len() + ext
                &&& cells_extended(c0, c1)
                &&& (forall|i: int| c0.len() <= i < c1.len() ==> c1[i] == Value::Absent)
                &&& crate::value::is_list_with(
                    v2,
                    rs@ + Seq::new(ext as nat, |k: int| Ref { idx: (c0.len() + k) as usize }),
                )
                &&& r.idx == c0.len() + (n as int - rs@.len())
            } else {
                &&& err_pushed(c0, c1, r, list_key_err_text())
                &&& veq(v2, v)
            },
            _ => {
                &&& err_pushed(c0, c1, r, list_key_err_text())
                &&& veq(v2, v)
            },
        },
        Value::Tree(env) => {
            let name = key_text(key);
            if crate::env::env_map(env.kv()).contains_key(name) {
                &&& c1 == c0
                &&& veq(v2, v)
                &&& r == crate::env::env_map(env.kv())[name]
            } else {
                &&& c1.len() == c0.len() + 1
                &&& cells_extended(c0, c1)
                &&& c1[c0.len() as int] == Value::Absent
                &&& crate::value::is_tree_with(
                    v2,
                    env.kv().push((name, (Ref { idx: c0.len() as usize }))),
                )
                &&& r.idx == c0.len()
            }
        },
        Value::Str(s) => match key {
            Value::Num(n) => if 0 <= n < s@.len() {
                &&& c1.len() == c0.len() + 1
                &&& cells_extended(c0, c1)
                &&& crate::value::is_str_with(c1[c0.len() as int], seq![s@[n as int]])
                &&& veq(v2, v)
                &&& r.idx == c0.len()
            } else {
                &&& err_pushed(c0, c1, r, str_oob_text())
                &&& veq(v2, v)
            },
            _ => {
                &&& err_pushed(c0, c1, r, str_key_err_text())
                &&& veq(v2, v)
            },
        },
        _ => {
            &&& err_pushed(c0, c1, r, not_container_text())
            &&& veq(v2, v)
        },
    }
}

/// Indexing behaves the same for containers and keys that describe
/// the same state.
pub proof fn lemma_index_step_veq(
    c0: Seq<Value>,
    v: Value,
    v0: Value,
    key: Value,
    key0: Value,
    c1: Seq<Value>,
    v2: Value,
    r: Ref,
)
    requires
        index_step(c0, v, key, c1, v2, r),
        veq(v, v0),
        veq(key, key0),
    ensures
        index_step(c0, v0, key0, c1, v2, r),
{
    crate::value::lemma_key_text_veq(key, key0);
    if veq(v2, v) {
        crate::value::lemma_veq_trans(v2, v, v0);
    }
}

/// What `index` does: pop a key and a container handle, index the
/// container's cell as in [`index_step`], write the possibly grown
/// container back into its cell, and push the resulting handle.
pub open spec fn index_post(pre: Machine, post: Machine) -> bool {
    let n = pre.stack@.len() as int;
    if n >= 2 {
        let i = pre.stack@.last();
        let t = pre.stack@[n - 2];
        let r = post.stack@.last();
        &&& t.idx < post.cells@.len()
        &&& index_step(
            pre.cells@,
            pre.cells@[t.idx as int],
            pre.cells@[i.idx as int],
            post.cells@.update(t.idx as int, pre.cells@[t.idx as int]),
            post.cells@[t.idx as int],
            r,
        )
        &&& post.stack@ == pre.stack@.take(n - 2).push(r)
        &&& post.registers == pre.registers
    } else if n == 1 {
        &&& post.cells@.len() == pre.cells@.len() + 2
        &&& cells_extended(pre.cells@, post.cells@)
        &&& is_error_with(post.cells@[pre.cells@.len() as int], pop_err_text())
        &&& is_error_with(post.cells@[pre.cells@.len() as int + 1], not_container_text())
        &&& post.stack@ == pre.stack@.take(0).push((Ref { idx: (pre.cells@.len() + 1) as usize }))
        &&& post.registers == pre.registers
    } else {
        &&& post.cells@.len() == pre.cells@.len() + 3
        &&& cells_extended(pre.cells@, post.cells@)
        &&& is_error_with(post.cells@[pre.cells@.len() as int], pop_err_text())
        &&& is_error_with(post.cells@[pre.cells@.len() as int + 1], pop_err_text())
        &&& is_error_with(post.cells@[pre.cells@.len() as int + 2], not_container_text())
        &&& post.stack@ == pre.stack@.push((Ref { idx: (pre.cells@.len() + 2) as usize }))
        &&& post.registers == pre.registers
    }
}

/// `r` is the handle of a detached copy, made in some extension of
/// `pre`, of the value `src`: a scalar copy has the same content, and
/// a list or tree copy has fresh slot cells holding the old slots'
/// values.  `post` is the arena after all allocations.
pub open spec fn value_copied(pre: Seq<Value>, post: Seq<Value>, src: Value, r: Ref) -> bool {
    &&& pre.len() <= r.idx < post.len()
    &&& match src {
        Value::List(rs) => post[r.idx as int] matches Value::List(rs2) && rs2@.len() == rs@.len()
            && forall|k: int|
            0 <= k < rs@.len() ==> pre.len() <= (#[trigger] rs2@[k]).idx < post.len() && veq(
                post[rs2@[k].idx as int],
                pre[rs@[k].idx as int],
            ),
        Value::Tree(env) => post[r.idx as int] matches Value::Tree(env2) && env2.kv().len()
            == env.kv().len() && forall|k: int|
            0 <= k < env.kv().len() ==> (#[trigger] env2.kv()[k]).0 == env.kv()[k].0 && pre.len()
                <= env2.kv()[k].1.idx < post.len() && veq(
                post[env2.kv()[k].1.idx as int],
                pre[env.kv()[k].1.idx as int],
            ),
        _ => veq(post[r.idx as int], src),
    }
}

/// A copy made as in [`copy_step`] of a value equal to `src` is a
/// detached copy of `src` in the sense of [`value_copied`].
pub proof fn lemma_copy_step_to_copied(
    c0: Seq<Value>,
    cj: Seq<Value>,
    v: Value,
    src: Value,
    c2: Seq<Value>,
    r: Ref,
)
    requires
        copy_step(cj, v, c2, r),
        veq(v, src),
        cells_extended(c0, cj),
        wf_value(src, c0.len() as int),
    ensures
        value_copied(c0, c2, src, r),
{
    match src {
        Value::List(_) => {
        },
        Value::Tree(_) => {
        },
        _ => {
            crate::value::lemma_veq_trans(c2[cj.len() as int], v, src);
        },
    }
}

/// A detached copy stays one when the arena grows further.
pub proof fn lemma_value_copied_extended(
    pre: Seq<Value>,
    mid: Seq<Value>,
    post: Seq<Value>,
    src: Value,
    r: Ref,
)
    requires
        value_copied(pre, mid, src, r),
        cells_extended(mid, post),
    ensures
        value_copied(pre, post, src, r),
{
}

/// The number of cells a copy of `v` allocates: one per list or tree
/// slot, plus one for the copy itself.
pub open spec fn copy_cost(v: Value) -> int {
    match v {
        Value::List(rs) => rs@.len() as int + 1,
        Value::Tree(env) => env.kv().len() as int + 1,
        _ => 1,
    }
}

/// The number of cells copying the first `j` bindings of `kv` allocates.
pub open spec fn dup_cost(cells: Seq<Value>, kv: Seq<(Seq<char>, Ref)>, j: int) -> int
    decreases j,
{
    if j <= 0 {
        0
    } else {
        dup_cost(cells, kv, j - 1) + copy_cost(cells[kv[j - 1].1.idx as int])
    }
}

/// Values describing the same state cost the same to copy.
pub proof fn lemma_copy_cost_veq(a: Value, b: Value)
    requires
        veq(a, b),
    ensures
        copy_cost(a) == copy_cost(b),
{
    match a {
        Value::Str(_) => {
        },
        Value::Num(_) => {
        },
        Value::List(_) => {
        },
        Value::Tree(_) => {
        },
        Value::Func(_) => {
        },
        Value::Error(_) => {
        },
        Value::Absent => {
        },
    }
}

/// A copy allocates exactly [`copy_cost`] cells.
pub proof fn lemma_copy_step_cost(pre: Seq<Value>, v: Value, post: Seq<Value>, r: Ref)
    requires
        copy_step(pre, v, post, r),
    ensures
        post.len() == pre.len() + copy_cost(v),
{
    match v {
        Value::Str(_) => {
        },
        Value::Num(_) => {
        },
        Value::List(_) => {
        },
        Value::Tree(_) => {
        },
        Value::Func(_) => {
        },
        Value::Error(_) => {
        },
        Value::Absent => {
        },
    }
}

/// `env` binds the same names, in the same order, as `pre`'s
/// registers, each to a detached copy of the old register's cell
/// value, with `post_cells` the arena after the copies.
pub open spec fn captured(pre: Machine, post_cells: Seq<Value>, env: Env) -> bool {
    &&& env.kv().len() == pre.registers.kv().len()
    &&& forall|j: int|
        0 <= j < env.kv().len() ==> (#[trigger] env.kv()[j]).0 == pre.registers.kv()[j].0
            && value_copied(
            pre.cells@,
            post_cells,
            pre.cells@[pre.registers.kv()[j].1.idx as int],
            env.kv()[j].1,
        )
}

/// What `call` does besides running the function: the caller's
/// registers are untouched, so a register write inside the call is
/// invisible to the caller; a popped non-function is dropped; on an
/// empty stack an error cell is allocated and dropped.
pub open spec fn call_post(pre: Machine, post: Machine, ok: bool) -> bool {
    let n = pre.stack@.len() as int;
    &&& post.registers == pre.registers
    &&& pre.cells@.len() <= post.cells@.len()
    &&& (n >= 1 && !(pre.cells@[pre.stack@.last().idx as int] matches Value::Func(_)) ==> {
        &&& post.cells@ == pre.cells@
        &&& post.stack@ == pre.stack@.drop_last()
        &&& ok
    })
    &&& (n == 0 ==> {
        &&& err_pushed(
            pre.cells@,
            post.cells@,
            (Ref { idx: pre.cells@.len() as usize }),
            pop_err_text(),
        )
        &&& post.stack@ == pre.stack@
        &&& ok
    })
}

/// What `push_ref` does: one more alias of `r`'s cell on the stack.
pub open spec fn pushed_ref(pre: Machine, post: Machine, r: Ref) -> bool {
    &&& post.cells@ == pre.cells@
    &&& post.stack@ == pre.stack@.push(r)
    &&& post.registers == pre.registers
}

/// A fresh cell was allocated and its handle pushed; what it holds is
/// said separately.
pub open spec fn pushed_fresh(pre: Machine, post: Machine) -> bool {
    &&& post.cells@.len() == pre.cells@.len() + 1
    &&& cells_extended(pre.cells@, post.cells@)
    &&& post.stack@ == pre.stack@.push((Ref { idx: pre.cells@.len() as usize }))
    &&& post.registers == pre.registers
}

/// Two arguments were popped as by `get_arg`, their sum pushed fresh.
pub open spec fn add_step(pre: Machine, post: Machine) -> bool {
    exists|m1: Machine, a: Value, m2: Machine, b: Value, r: Value|
        #![trigger get_arg_post(pre, m1, a), get_arg_post(m1, m2, b), crate::value::add_rel(a, b, r)]
        {
            &&& get_arg_post(pre, m1, a)
            &&& get_arg_post(m1, m2, b)
            &&& crate::value::add_rel(a, b, r)
            &&& push_post(m2, post, r)
        }
}

/// Two arguments were popped, their difference pushed fresh.
pub open spec fn sub_step(pre: Machine, post: Machine) -> bool {
    exists|m1: Machine, a: Value, m2: Machine, b: Value, r: Value|
        #![trigger get_arg_post(pre, m1, a), get_arg_post(m1, m2, b), crate::value::sub_rel(a, b, r)]
        {
            &&& get_arg_post(pre, m1, a)
            &&& get_arg_post(m1, m2, b)
            &&& crate::value::sub_rel(a, b, r)
            &&& push_post(m2, post, r)
        }
}

/// Two arguments were popped, their product pushed fresh.
pub open spec fn mul_step(pre: Machine, post: Machine) -> bool {
    exists|m1: Machine, a: Value, m2: Machine, b: Value, r: Value|
        #![trigger get_arg_post(pre, m1, a), get_arg_post(m1, m2, b), crate::value::mul_rel(a, b, r)]
        {
            &&& get_arg_post(pre, m1, a)
            &&& get_arg_post(m1, m2, b)
            &&& crate::value::mul_rel(a, b, r)
            &&& push_post(m2, post, r)
        }
}

/// Two arguments were popped, their quotient pushed fresh.
pub open spec fn div_step(pre: Machine, post: Machine) -> bool {
    exists|m1: Machine, a: Value, m2: Machine, b: Value, r: Value|
        #![trigger get_arg_post(pre, m1, a), get_arg_post(m1, m2, b), crate::value::div_rel(a, b, r)]
        {
            &&& get_arg_post(pre, m1, a)
            &&& get_arg_post(m1, m2, b)
            &&& crate::value::div_rel(a, b, r)
            &&& push_post(m2, post, r)
        }
}

/// Two arguments were popped, their remainder pushed fresh.
pub open spec fn rem_step(pre: Machine, post: Machine) -> bool {
    exists|m1: Machine, a: Value, m2: Machine, b: Value, r: Value|
        #![trigger get_arg_post(pre, m1, a), get_arg_post(m1, m2, b), crate::value::rem_rel(a, b, r)]
        {
            &&& get_arg_post(pre, m1, a)
            &&& get_arg_post(m1, m2, b)
            &&& crate::value::rem_rel(a, b, r)
            &&& push_post(m2, post, r)
        }
}

/// One argument was popped, its negation pushed fresh.
pub open spec fn not_step(pre: Machine, post: Machine) -> bool {
    exists|m1: Machine, a: Value, r: Value|
        #![trigger get_arg_post(pre, m1, a), crate::value::not_rel(a, r)]
        {
            &&& get_arg_post(pre, m1, a)
            &&& crate::value::not_rel(a, r)
            &&& push_post(m1, post, r)
        }
}

/// Marks the witnesses of one step inside the engine's big-step
/// relations.  The step relations quantify over intermediate machine
/// states; their triggers must be applications of functions outside
/// the mutually recursive definitions, so this trivially true marker
/// stands as the trigger that names the witnesses.
pub open spec fn step_at(mid: Machine, ok: bool) -> bool {
    true
}

/// Marks the witnesses of an isolated call: the capture installed as
/// registers and the machine the body reached.  A trigger marker like
/// [`step_at`].
pub open spec fn capture_at(ctx: Env, mid: Machine) -> bool {
    true
}

/// What running an instruction sequence does: `code` was run with the
/// given fuel, with `ok` false when it ran out.  This is the big-step
/// semantics of the machine's engine: each instruction's effect is
/// the corresponding instruction relation, in order, stopping at the
/// first exhaustion.
pub open spec fn code_steps(pre: Machine, code: Seq<Instr>, fuel: u64, post: Machine, ok: bool) -> bool
    decreases fuel, 9nat, code.len(),
{
    if code.len() == 0 {
        post == pre && ok
    } else {
        exists|mid: Machine, ok1: bool|
            {
                &&& #[trigger] step_at(mid, ok1)
                &&& instr_step(pre, code[0], fuel, mid, ok1)
                &&& if ok1 {
                    code_steps(mid, code.skip(1), fuel, post, ok)
                } else {
                    post == mid && !ok
                }
            }
    }
}

/// What one instruction does.  The `Push*` instructions allocate a
/// fresh cell holding the given value; `Lambda` captures the current
/// registers as by [`Machine::duplicate`] and pushes the closure; the
/// others behave as the machine operation of the same name.
pub open spec fn instr_step(pre: Machine, ins: Instr, fuel: u64, post: Machine, ok: bool) -> bool
    decreases fuel, 8nat, 0nat,
{
    match ins {
        Instr::PushNum(n) => push_post(pre, post, Value::Num(n)) && ok,
        Instr::PushStr(s) => push_post(pre, post, Value::Str(s)) && ok,
        Instr::PushList => pushed_fresh(pre, post) && crate::value::is_list_with(
            post.cells@.last(),
            Seq::<Ref>::empty(),
        ) && ok,
        Instr::PushTree => pushed_fresh(pre, post) && crate::value::is_tree_with(
            post.cells@.last(),
            Seq::<(Seq<char>, Ref)>::empty(),
        ) && ok,
        Instr::PushAbsent => push_post(pre, post, Value::Absent) && ok,
        Instr::Lambda(c) => {
            &&& post.cells@.len() == pre.cells@.len() + dup_cost(
                pre.cells@,
                pre.registers.kv(),
                pre.registers.kv().len() as int,
            ) + 1
            &&& cells_extended(pre.cells@, post.cells@)
            &&& post.cells@.last() matches Value::Func(f) && f.code == c && captured(
                pre,
                post.cells@.drop_last(),
                f.context,
            )
            &&& post.stack@ == pre.stack@.push(
                (Ref { idx: (post.cells@.len() - 1) as usize }),
            )
            &&& post.registers == pre.registers
            &&& ok
        },
        Instr::CopyTop => copy_post(pre, post) && ok,
        Instr::Store => store_post(pre, post) && ok,
        Instr::Load => load_post(pre, post) && ok,
        Instr::Assign => assign_post(pre, post) && ok,
        Instr::Index => index_post(pre, post) && ok,
        Instr::MethodCall => method_call_rel(pre, fuel, post, ok),
        Instr::Call => machine_call_rel(pre, fuel, post, ok),
        Instr::While => while_rel(pre, fuel, post, ok),
        Instr::For => for_rel(pre, fuel, post, ok),
        Instr::IfElse => ite_rel(pre, fuel, post, ok),
        Instr::Add => add_step(pre, post) && ok,
        Instr::Sub => sub_step(pre, post) && ok,
        Instr::Mul => mul_step(pre, post) && ok,
        Instr::Div => div_step(pre, post) && ok,
        Instr::Rem => rem_step(pre, post) && ok,
        Instr::Not => not_step(pre, post) && ok,
    }
}

/// What calling a function body does: with fuel the machine is
/// unchanged and exhaustion is reported; otherwise the instruction
/// sequence runs once against the machine as it stands.
pub open spec fn function_call_rel(
    code: Seq<Instr>,
    pre: Machine,
    fuel: u64,
    post: Machine,
    ok: bool,
) -> bool
    decreases fuel, 2nat, 0nat,
{
    if fuel == 0 {
        post == pre && !ok
    } else {
        code_steps(pre, code, (fuel - 1) as u64, post, ok)
    }
}

/// The function body `code` was run against `pre`'s cells and stack
/// under the register table `ctx`, reaching `mid`.
pub open spec fn iso_run(
    code: Seq<Instr>,
    pre: Machine,
    ctx: Env,
    fuel: u64,
    mid: Machine,
    ok: bool,
) -> bool
    decreases fuel, 3nat, 0nat,
{
    function_call_rel(
        code,
        (Machine { cells: pre.cells, stack: pre.stack, registers: ctx }),
        fuel,
        mid,
        ok,
    )
}

/// What calling a value in an isolated scope does: a function runs
/// with a capture of its own context as registers (same bindings, so
/// cell mutation through them persists) and the caller's stack, and
/// the caller's registers come back untouched; any other value does
/// nothing.
pub open spec fn value_call_rel(v: Value, pre: Machine, fuel: u64, post: Machine, ok: bool) -> bool
    decreases fuel, 3nat, 1nat,
{
    match v {
        Value::Func(f) => exists|ctx: Env, mid: Machine|
            {
                &&& #[trigger] capture_at(ctx, mid)
                &&& ctx.kv() == f.context.kv()
                &&& iso_run(f.code@, pre, ctx, fuel, mid, ok)
                &&& post == (Machine {
                    cells: mid.cells,
                    stack: mid.stack,
                    registers: pre.registers,
                })
            },
        _ => post == pre && ok,
    }
}

/// What calling a value in the current scope does: a function's body
/// runs once directly against the caller's own stack and registers,
/// so its register writes persist; any other value does nothing.
pub open spec fn value_call_global_rel(
    v: Value,
    pre: Machine,
    fuel: u64,
    post: Machine,
    ok: bool,
) -> bool
    decreases fuel, 3nat, 0nat,
{
    match v {
        Value::Func(f) => function_call_rel(f.code@, pre, fuel, post, ok),
        _ => post == pre && ok,
    }
}

/// What the `call` instruction does: the popped cell's value is
/// called in an isolated scope as by [`value_call_rel`].
pub open spec fn machine_call_rel(pre: Machine, fuel: u64, post: Machine, ok: bool) -> bool
    decreases fuel, 4nat, 0nat,
{
    exists|m1: Machine, f: Ref|
        {
            &&& #[trigger] pop_post(pre, m1, f)
            &&& f.idx < m1.cells@.len()
            &&& value_call_rel(m1.cells@[f.idx as int], m1, fuel, post, ok)
        }
}

/// What `method_call` does: exactly the push/push/push/index/call
/// sequence, with the container re-pushed as the implicit receiver.
pub open spec fn method_call_rel(pre: Machine, fuel: u64, post: Machine, ok: bool) -> bool
    decreases fuel, 5nat, 0nat,
{
    exists|m1: Machine, i: Ref, m2: Machine, t: Ref, m3: Machine, m4: Machine, m5: Machine, m6: Machine|
        #![trigger pop_post(pre, m1, i), pop_post(m1, m2, t), pushed_ref(m2, m3, t), pushed_ref(m3, m4, t), pushed_ref(m4, m5, i), index_post(m5, m6)]
        {
            &&& pop_post(pre, m1, i)
            &&& pop_post(m1, m2, t)
            &&& pushed_ref(m2, m3, t)
            &&& pushed_ref(m3, m4, t)
            &&& pushed_ref(m4, m5, i)
            &&& index_post(m5, m6)
            &&& machine_call_rel(m6, fuel, post, ok)
        }
}

/// The iterations of a while loop: while the value popped after the
/// condition coerces to true, the body and then the condition run in
/// the current scope, each iteration spending one unit of fuel.
pub open spec fn while_iters(
    cond: Ref,
    body: Ref,
    c: Value,
    pre: Machine,
    gas: u64,
    post: Machine,
    ok: bool,
) -> bool
    decreases gas, 5nat, 0nat,
{
    if !crate::value::spec_truthy(c) {
        post == pre && ok
    } else if gas == 0 {
        post == pre && !ok
    } else {
        exists|m1: Machine, ok1: bool|
            {
                &&& #[trigger] step_at(m1, ok1)
                &&& body.idx < pre.cells@.len()
                &&& value_call_global_rel(
                    pre.cells@[body.idx as int],
                    pre,
                    (gas - 1) as u64,
                    m1,
                    ok1,
                )
                &&& if !ok1 {
                    post == m1 && !ok
                } else {
                    exists|m2: Machine, ok2: bool|
                        {
                            &&& #[trigger] step_at(m2, ok2)
                            &&& cond.idx < m1.cells@.len()
                            &&& value_call_global_rel(
                                m1.cells@[cond.idx as int],
                                m1,
                                (gas - 1) as u64,
                                m2,
                                ok2,
                            )
                            &&& if !ok2 {
                                post == m2 && !ok
                            } else {
                                exists|m3: Machine, c2: Value|
                                    {
                                        &&& #[trigger] get_arg_post(m2, m3, c2)
                                        &&& while_iters(
                                            cond,
                                            body,
                                            c2,
                                            m3,
                                            (gas - 1) as u64,
                                            post,
                                            ok,
                                        )
                                    }
                            }
                        }
                }
            }
    }
}

/// What `while_loop` does: pop the condition and body handles, run
/// the condition once in the current scope, pop its result, and
/// iterate as by [`while_iters`].
pub open spec fn while_rel(pre: Machine, fuel: u64, post: Machine, ok: bool) -> bool
    decreases fuel, 6nat, 0nat,
{
    exists|m1: Machine, cond: Ref, m2: Machine, body: Ref, m3: Machine, ok1: bool|
        #![trigger pop_post(pre, m1, cond), pop_post(m1, m2, body), step_at(m3, ok1)]
        {
            &&& pop_post(pre, m1, cond)
            &&& pop_post(m1, m2, body)
            &&& cond.idx < m2.cells@.len()
            &&& value_call_global_rel(m2.cells@[cond.idx as int], m2, fuel, m3, ok1)
            &&& if !ok1 {
                post == m3 && !ok
            } else {
                exists|m4: Machine, c: Value|
                    {
                        &&& #[trigger] get_arg_post(m3, m4, c)
                        &&& while_iters(cond, body, c, m4, fuel, post, ok)
                    }
            }
        }
}

/// The handles a list value holds, or nothing for any other shape.
pub open spec fn list_items(v: Value) -> Seq<Ref> {
    match v {
        Value::List(rs) => rs@,
        _ => Seq::<Ref>::empty(),
    }
}

/// The iterations of a for loop, from slot `pos` on: the element name
/// is bound to the slot's handle, the counter name to a fresh cell
/// holding the position, and the body runs in the current scope.
pub open spec fn for_iters(
    body: Ref,
    elem_name: Seq<char>,
    counter_name: Seq<char>,
    items: Seq<Ref>,
    pos: int,
    pre: Machine,
    fuel: u64,
    post: Machine,
    ok: bool,
) -> bool
    decreases fuel, 5nat, items.len() - pos,
{
    if pos < 0 || pos >= items.len() {
        post == pre && ok
    } else {
        exists|m2: Machine, m3: Machine, ok1: bool|
            #![trigger step_at(m2, ok1), step_at(m3, ok1)]
            {
                &&& step_at(m2, ok1)
                &&& step_at(m3, ok1)
                &&& m2.cells@ == pre.cells@.push(Value::Num(pos as i64))
                &&& m2.stack@ == pre.stack@
                &&& m2.registers@ == pre.registers@.insert(elem_name, items[pos]).insert(
                    counter_name,
                    (Ref { idx: pre.cells@.len() as usize }),
                )
                &&& body.idx < m2.cells@.len()
                &&& value_call_global_rel(m2.cells@[body.idx as int], m2, fuel, m3, ok1)
                &&& if !ok1 {
                    post == m3 && !ok
                } else {
                    for_iters(body, elem_name, counter_name, items, pos + 1, m3, fuel, post, ok)
                }
            }
    }
}

/// What `for_loop` does: pop the counter name, element name, list
/// handle and body handle, then iterate over the list's slots as by
/// [`for_iters`].  A non-list value has no slots, so the body never
/// runs.
pub open spec fn for_rel(pre: Machine, fuel: u64, post: Machine, ok: bool) -> bool
    decreases fuel, 6nat, 0nat,
{
    exists|m1: Machine, cn: Ref, m2: Machine, en: Ref, m3: Machine, lr: Ref, m4: Machine, br: Ref|
        #![trigger pop_post(pre, m1, cn), pop_post(m1, m2, en), pop_post(m2, m3, lr), pop_post(m3, m4, br)]
        {
            &&& pop_post(pre, m1, cn)
            &&& pop_post(m1, m2, en)
            &&& pop_post(m2, m3, lr)
            &&& pop_post(m3, m4, br)
            &&& cn.idx < m4.cells@.len()
            &&& en.idx < m4.cells@.len()
            &&& lr.idx < m4.cells@.len()
            &&& for_iters(
                br,
                key_text(m4.cells@[en.idx as int]),
                key_text(m4.cells@[cn.idx as int]),
                list_items(m4.cells@[lr.idx as int]),
                0,
                m4,
                fuel,
                post,
                ok,
            )
        }
}

/// What `if_then_else` does: pop the condition, then and else
/// handles; run the condition in the current scope and pop its
/// result; then run exactly the branch it chose, in the current
/// scope.
pub open spec fn ite_rel(pre: Machine, fuel: u64, post: Machine, ok: bool) -> bool
    decreases fuel, 6nat, 0nat,
{
    exists|m1: Machine, cr: Ref, m2: Machine, tr: Ref, m3: Machine, er: Ref, m4: Machine, ok1: bool|
        #![trigger pop_post(pre, m1, cr), pop_post(m1, m2, tr), pop_post(m2, m3, er), step_at(m4, ok1)]
        {
            &&& pop_post(pre, m1, cr)
            &&& pop_post(m1, m2, tr)
            &&& pop_post(m2, m3, er)
            &&& cr.idx < m3.cells@.len()
            &&& value_call_global_rel(m3.cells@[cr.idx as int], m3, fuel, m4, ok1)
            &&& if !ok1 {
                post == m4 && !ok
            } else {
                exists|m5: Machine, c: Value|
                    {
                        &&& #[trigger] get_arg_post(m4, m5, c)
                        &&& (crate::value::spec_truthy(c) ==> tr.idx < m5.cells@.len()
                            && value_call_global_rel(m5.cells@[tr.idx as int], m5, fuel, post, ok))
                        &&& (!crate::value::spec_truthy(c) ==> er.idx < m5.cells@.len()
                            && value_call_global_rel(m5.cells@[er.idx as int], m5, fuel, post, ok))
                    }
            }
        }
}

/// Calling behaves the same for values that describe the same state:
/// an isolated call depends only on the function's code and captured
/// bindings.
pub proof fn lemma_value_call_rel_veq(
    v: Value,
    v0: Value,
    pre: Machine,
    fuel: u64,
    post: Machine,
    ok: bool,
)
    requires
        value_call_rel(v, pre, fuel, post, ok),
        veq(v, v0),
    ensures
        value_call_rel(v0, pre, fuel, post, ok),
{
}

/// A call in the current scope likewise depends only on the code.
pub proof fn lemma_value_call_global_rel_veq(
    v: Value,
    v0: Value,
    pre: Machine,
    fuel: u64,
    post: Machine,
    ok: bool,
)
    requires
        value_call_global_rel(v, pre, fuel, post, ok),
        veq(v, v0),
    ensures
        value_call_global_rel(v0, pre, fuel, post, ok),
{
}

/// An instruction that ran out stops the sequence where it stands.
proof fn lemma_code_steps_stop(pre: Machine, code: Seq<Instr>, i: int, fuel: u64, post: Machine)
    requires
        0 <= i < code.len(),
        instr_step(pre, code[i], fuel, post, false),
    ensures
        code_steps(pre, code.skip(i), fuel, post, false),
{
    assert(step_at(post, false));
    assert(code.skip(i)[0] == code[i]);
}

/// An instruction followed by the rest of the sequence is the sequence.
proof fn lemma_code_steps_go(
    pre: Machine,
    code: Seq<Instr>,
    i: int,
    fuel: u64,
    mid: Machine,
    post: Machine,
    ok: bool,
)
    requires
        0 <= i < code.len(),
        instr_step(pre, code[i], fuel, mid, true),
        code_steps(mid, code.skip(i + 1), fuel, post, ok),
    ensures
        code_steps(pre, code.skip(i), fuel, post, ok),
{
    assert(step_at(mid, true));
    assert(code.skip(i)[0] == code[i]);
    assert(code.skip(i).skip(1) =~= code.skip(i + 1));
}

/// One completed iteration in front of the remaining iterations.
proof fn lemma_while_iters_unroll(
    cond: Ref,
    body: Ref,
    c: Value,
    pre: Machine,
    gas: u64,
    m1: Machine,
    m2: Machine,
    m3: Machine,
    c2: Value,
    post: Machine,
    ok: bool,
)
    requires
        crate::value::spec_truthy(c),
        gas >= 1,
        body.idx < pre.cells@.len(),
        value_call_global_rel(pre.cells@[body.idx as int], pre, (gas - 1) as u64, m1, true),
        cond.idx < m1.cells@.len(),
        value_call_global_rel(m1.cells@[cond.idx as int], m1, (gas - 1) as u64, m2, true),
        get_arg_post(m2, m3, c2),
        while_iters(cond, body, c2, m3, (gas - 1) as u64, post, ok),
    ensures
        while_iters(cond, body, c, pre, gas, post, ok),
{
    assert(step_at(m1, true));
    assert(step_at(m2, true));
}

/// A body call that ran out stops the loop where it stands.
proof fn lemma_while_iters_body_stop(
    cond: Ref,
    body: Ref,
    c: Value,
    pre: Machine,
    gas: u64,
    m1: Machine,
)
    requires
        crate::value::spec_truthy(c),
        gas >= 1,
        body.idx < pre.cells@.len(),
        value_call_global_rel(pre.cells@[body.idx as int], pre, (gas - 1) as u64, m1, false),
    ensures
        while_iters(cond, body, c, pre, gas, m1, false),
{
    assert(step_at(m1, false));
}

/// A condition call that ran out stops the loop where it stands.
proof fn lemma_while_iters_cond_stop(
    cond: Ref,
    body: Ref,
    c: Value,
    pre: Machine,
    gas: u64,
    m1: Machine,
    m2: Machine,
)
    requires
        crate::value::spec_truthy(c),
        gas >= 1,
        body.idx < pre.cells@.len(),
        value_call_global_rel(pre.cells@[body.idx as int], pre, (gas - 1) as u64, m1, true),
        cond.idx < m1.cells@.len(),
        value_call_global_rel(m1.cells@[cond.idx as int], m1, (gas - 1) as u64, m2, false),
    ensures
        while_iters(cond, body, c, pre, gas, m2, false),
{
    assert(step_at(m1, true));
    assert(step_at(m2, false));
}

/// The loop relation, from the pops and the first condition run.
proof fn lemma_while_rel_run(
    pre: Machine,
    fuel: u64,
    m1: Machine,
    cond: Ref,
    m2: Machine,
    body: Ref,
    m3: Machine,
    m4: Machine,
    c: Value,
    post: Machine,
    ok: bool,
)
    requires
        pop_post(pre, m1, cond),
        pop_post(m1, m2, body),
        cond.idx < m2.cells@.len(),
        value_call_global_rel(m2.cells@[cond.idx as int], m2, fuel, m3, true),
        get_arg_post(m3, m4, c),
        while_iters(cond, body, c, m4, fuel, post, ok),
    ensures
        while_rel(pre, fuel, post, ok),
{
    assert(step_at(m3, true));
}

/// The loop relation when the first condition run already ran out.
proof fn lemma_while_rel_stop(
    pre: Machine,
    fuel: u64,
    m1: Machine,
    cond: Ref,
    m2: Machine,
    body: Ref,
    m3: Machine,
)
    requires
        pop_post(pre, m1, cond),
        pop_post(m1, m2, body),
        cond.idx < m2.cells@.len(),
        value_call_global_rel(m2.cells@[cond.idx as int], m2, fuel, m3, false),
    ensures
        while_rel(pre, fuel, m3, false),
{
    assert(step_at(m3, false));
}

/// One completed slot in front of the remaining slots.
proof fn lemma_for_iters_step(
    body: Ref,
    elem_name: Seq<char>,
    counter_name: Seq<char>,
    items: Seq<Ref>,
    pos: int,
    pre: Machine,
    fuel: u64,
    m2: Machine,
    m3: Machine,
    post: Machine,
    ok: bool,
)
    requires
        0 <= pos < items.len(),
        m2.cells@ == pre.cells@.push(Value::Num(pos as i64)),
        m2.stack@ == pre.stack@,
        m2.registers@ == pre.registers@.insert(elem_name, items[pos]).insert(
            counter_name,
            (Ref { idx: pre.cells@.len() as usize }),
        ),
        body.idx < m2.cells@.len(),
        value_call_global_rel(m2.cells@[body.idx as int], m2, fuel, m3, true),
        for_iters(body, elem_name, counter_name, items, pos + 1, m3, fuel, post, ok),
    ensures
        for_iters(body, elem_name, counter_name, items, pos, pre, fuel, post, ok),
{
    assert(step_at(m2, true));
    assert(step_at(m3, true));
}

/// A body call that ran out stops the iteration where it stands.
proof fn lemma_for_iters_stop(
    body: Ref,
    elem_name: Seq<char>,
    counter_name: Seq<char>,
    items: Seq<Ref>,
    pos: int,
    pre: Machine,
    fuel: u64,
    m2: Machine,
    m3: Machine,
)
    requires
        0 <= pos < items.len(),
        m2.cells@ == pre.cells@.push(Value::Num(pos as i64)),
        m2.stack@ == pre.stack@,
        m2.registers@ == pre.registers@.insert(elem_name, items[pos]).insert(
            counter_name,
            (Ref { idx: pre.cells@.len() as usize }),
        ),
        body.idx < m2.cells@.len(),
        value_call_global_rel(m2.cells@[body.idx as int], m2, fuel, m3, false),
    ensures
        for_iters(body, elem_name, counter_name, items, pos, pre, fuel, m3, false),
{
    assert(step_at(m2, false));
    assert(step_at(m3, false));
}

/// The for-loop relation, from the four pops and the iterations.
proof fn lemma_for_rel_intro(
    pre: Machine,
    fuel: u64,
    m1: Machine,
    cn: Ref,
    m2: Machine,
    en: Ref,
    m3: Machine,
    lr: Ref,
    m4: Machine,
    br: Ref,
    post: Machine,
    ok: bool,
)
    requires
        pop_post(pre, m1, cn),
        pop_post(m1, m2, en),
        pop_post(m2, m3, lr),
        pop_post(m3, m4, br),
        cn.idx < m4.cells@.len(),
        en.idx < m4.cells@.len(),
        lr.idx < m4.cells@.len(),
        for_iters(
            br,
            key_text(m4.cells@[en.idx as int]),
            key_text(m4.cells@[cn.idx as int]),
            list_items(m4.cells@[lr.idx as int]),
            0,
            m4,
            fuel,
            post,
            ok,
        ),
    ensures
        for_rel(pre, fuel, post, ok),
{
}

impl Machine {
    /// The machine's handles all point into its arena.
    pub open spec fn wf(self) -> bool {
        &&& stack_refs_below(self.stack@, self.cells@.len() as int)
        &&& env_refs_below(self.registers, self.cells@.len() as int)
        &&& cells_wf(self.cells@)
    }

    /// A machine with no cells, an empty stack and no registers.
    pub fn new() -> (m: Machine)
        ensures
            m.wf(),
            m.cells@.len() == 0,
            m.stack@.len() == 0,
            m.registers@ == Map::<Seq<char>, Ref>::empty(),
            m.registers.kv().len() == 0,
    {
        Machine { cells: Vec::new(), stack: Vec::new(), registers: Env::new() }
    }

    /// Allocates a fresh cell holding `value` and pushes its handle.
    pub fn push(&mut self, value: Value)
        requires
            old(self).wf(),
            wf_value(value, old(self).cells@.len() as int),
        ensures
            final(self).wf(),
            push_post(*old(self), *final(self), value),
    {
        let r = Ref { idx: self.cells.len() };
        self.cells.push(value);
        self.stack.push(r);
        proof {
            lemma_grown_wf(old(self).cells@, self.cells@);
        }
    }

    /// Pushes an existing handle, creating one more alias of its cell.
    pub fn push_ref(&mut self, r: Ref)
        requires
            old(self).wf(),
            r.idx < old(self).cells@.len(),
        ensures
            final(self).wf(),
            final(self).cells@ == old(self).cells@,
            final(self).stack@ == old(self).stack@.push(r),
            final(self).registers == old(self).registers,
    {
        self.stack.push(r);
    }

    /// Pops the top handle; on an empty stack, allocates an error cell
    /// and hands back its handle instead.
    pub fn pop(&mut self) -> (r: Ref)
        requires
            old(self).wf(),
        ensures
            final(self).wf(),
            pop_post(*old(self), *final(self), r),
            r.idx < final(self).cells@.len(),
    {
        match self.stack.pop() {
            Some(r) => r,
            None => {
                let r = Ref { idx: self.cells.len() };
                self.cells.push(
                    Value::error("Popped from empty stack, called function with too few arguments"),
                );
                proof {
                    lemma_grown_wf(old(self).cells@, self.cells@);
                }
                r
            },
        }
    }

    /// Pops an argument for a host function: the value of the popped cell.
    pub fn get_arg(&mut self) -> (v: Value)
        requires
            old(self).wf(),
        ensures
            final(self).wf(),
            get_arg_post(*old(self), *final(self), v),
            wf_value(v, final(self).cells@.len() as int),
    {
        let r = self.pop();
        let v = self.cells[r.idx].clone();
        proof {
            crate::value::lemma_veq_wf(v, self.cells@[r.idx as int], self.cells@.len() as int);
        }
        v
    }

    /// Pushes a host function's result: a fresh cell holding `value`.
    pub fn return_value(&mut self, value: Value)
        requires
            old(self).wf(),
            wf_value(value, old(self).cells@.len() as int),
        ensures
            final(self).wf(),
            push_post(*old(self), *final(self), value),
    {
        self.push(value);
    }

    /// Pops a key and a value handle and binds the register named by
    /// the key's cell to the value handle (an alias, not a copy).
    pub fn store(&mut self)
        requires
            old(self).wf(),
        ensures
            final(self).wf(),
            store_post(*old(self), *final(self)),
    {
        let k = self.pop();
        let v = self.pop();
        let name = self.cells[k.idx].key_string();
        self.registers.set(name, v);
        proof {
            let n = old(self).stack@.len() as int;
            if n >= 2 {
                assert(self.stack@ =~= old(self).stack@.take(n - 2));
            }
            if n == 1 {
                assert(self.stack@ =~= old(self).stack@.take(0));
            }
        }
    }

    /// Pops a key and pushes the handle bound to the register it
    /// names, or a fresh error cell when none is bound.
    pub fn load(&mut self)
        requires
            old(self).wf(),
        ensures
            final(self).wf(),
            load_post(*old(self), *final(self)),
    {
        let k = self.pop();
        let name = self.cells[k.idx].key_string();
        match self.registers.get(&name) {
            Some(r) => {
                proof {
                    crate::env::lemma_env_lookup_below(
                        self.registers,
                        self.cells@.len() as int,
                        name@,
                    );
                }
                self.stack.push(r);
            },
            None => {
                let r = Ref { idx: self.cells.len() };
                let mut t = String::from_str("No register named ");
                t.append(name.as_str());
                self.cells.push(Value::Error(t));
                self.stack.push(r);
                proof {
                    lemma_grown_wf(old(self).cells@, self.cells@);
                }
            },
        }
    }

    /// Pops a target handle and a value handle, and overwrites the
    /// target's cell in place with the value's content.
    pub fn assign(&mut self)
        requires
            old(self).wf(),
        ensures
            final(self).wf(),
            assign_post(*old(self), *final(self)),
    {
        let target = self.pop();
        let source = self.pop();
        let v = self.cells[source.idx].clone();
        proof {
            crate::value::lemma_veq_wf(v, self.cells@[source.idx as int], self.cells@.len() as int);
        }
        self.cells[target.idx] = v;
        proof {
            let n = old(self).stack@.len() as int;
            if n >= 2 {
                assert(self.stack@ =~= old(self).stack@.take(n - 2));
            }
            if n == 1 {
                assert(self.stack@ =~= old(self).stack@.take(0));
            }
        }
    }

    /// Pops a handle and pushes the handle of a detached copy of its value.
    pub fn copy(&mut self)
        requires
            old(self).wf(),
        ensures
            final(self).wf(),
            copy_post(*old(self), *final(self)),
    {
        let t = self.pop();
        let v = self.cells[t.idx].clone();
        let ghost mid = *self;
        proof {
            crate::value::lemma_veq_wf(v, self.cells@[t.idx as int], self.cells@.len() as int);
        }
        let r = v.copy(self);
        self.stack.push(r);
        proof {
            lemma_copy_step_veq(mid.cells@, v, mid.cells@[t.idx as int], self.cells@, r);
        }
    }

    /// Pops a key and a container handle, indexes the container's cell
    /// (growing it as described by [`index_step`]), writes the
    /// container back, and pushes the resulting handle.
    pub fn index(&mut self)
        requires
            old(self).wf(),
        ensures
            final(self).wf(),
            index_post(*old(self), *final(self)),
    {
        let i = self.pop();
        let t = self.pop();
        let key = self.cells[i.idx].clone();
        let mut v = self.cells[t.idx].clone();
        let ghost mid = *self;
        let ghost v_in = v;
        proof {
            crate::value::lemma_veq_wf(v, self.cells@[t.idx as int], self.cells@.len() as int);
        }
        let r = v.index(&key, self);
        let ghost c1 = self.cells@;
        let ghost v_out = v;
        self.cells[t.idx] = v;
        self.stack.push(r);
        proof {
            lemma_index_step_veq(
                mid.cells@,
                v_in,
                mid.cells@[t.idx as int],
                key,
                mid.cells@[i.idx as int],
                c1,
                v_out,
                r,
            );
        }
        proof {
            let n = old(self).stack@.len() as int;
            assert(c1 =~= self.cells@.update(t.idx as int, mid.cells@[t.idx as int]));
            if n >= 2 {
                assert(self.stack@ =~= old(self).stack@.take(n - 2).push(r));
            }
            if n == 1 {
                assert(self.stack@ =~= old(self).stack@.take(0).push(r));
            }
        }
    }

    /// Makes the captured context for a new function: a table binding
    /// this machine's register names, in order, to fresh cells holding
    /// detached copies of the registers' values.  Capturing copies
    /// rather than aliases, so a closure's private state never aliases
    /// the registers of its defining scope.
    pub fn duplicate(&mut self) -> (env: Env)
        requires
            old(self).wf(),
        ensures
            final(self).wf(),
            cells_extended(old(self).cells@, final(self).cells@),
            final(self).cells@.len() == old(self).cells@.len() + dup_cost(
                old(self).cells@,
                old(self).registers.kv(),
                old(self).registers.kv().len() as int,
            ),
            final(self).stack@ == old(self).stack@,
            final(self).registers == old(self).registers,
            captured(*old(self), final(self).cells@, env),
            env_refs_below(env, final(self).cells@.len() as int),
    {
        let ghost c0 = self.cells@;
        let mut entries2: Vec<(String, Ref)> = Vec::new();
        let mut j: usize = 0;
        while j < self.registers.entries.len()
            invariant
                self.wf(),
                j <= self.registers.kv().len(),
                cells_extended(c0, self.cells@),
                cells_wf(c0),
                env_refs_below(old(self).registers, c0.len() as int),
                self.cells@.len() == c0.len() + dup_cost(c0, old(self).registers.kv(), j as int),
                self.stack@ == old(self).stack@,
                self.registers == old(self).registers,
                c0 == old(self).cells@,
                entries2@.len() == j,
                forall|k: int|
                    0 <= k < j ==> (#[trigger] entries2@[k]).0@ == old(self).registers.kv()[k].0
                        && value_copied(
                        c0,
                        self.cells@,
                        c0[old(self).registers.kv()[k].1.idx as int],
                        entries2@[k].1,
                    ),
            decreases self.registers.kv().len() - j,
        {
            let name = self.registers.entries[j].0.clone();
            let e = self.registers.entries[j].1;
            proof {
                assert(self.registers.kv()[j as int] == (self.registers.entries@[j as int].0@, e));
            }
            let v = self.cells[e.idx].clone();
            let ghost cj = self.cells@;
            proof {
                crate::value::lemma_veq_wf(v, self.cells@[e.idx as int], self.cells@.len() as int);
            }
            let r = v.copy(self);
            proof {
                lemma_copy_step_cost(cj, v, self.cells@, r);
                lemma_copy_cost_veq(v, cj[e.idx as int]);
                lemma_copy_step_to_copied(c0, cj, v, cj[e.idx as int], self.cells@, r);
                assert forall|k: int| 0 <= k < j implies (#[trigger] entries2@[k]).0@ == old(
                    self,
                ).registers.kv()[k].0 && value_copied(
                    c0,
                    self.cells@,
                    c0[old(self).registers.kv()[k].1.idx as int],
                    entries2@[k].1,
                ) by {
                    lemma_value_copied_extended(
                        c0,
                        cj,
                        self.cells@,
                        c0[old(self).registers.kv()[k].1.idx as int],
                        entries2@[k].1,
                    );
                }
            }
            entries2.push((name, r));
            j = j + 1;
        }
        let env = Env { entries: entries2 };
        proof {
            assert(captured(*old(self), self.cells@, env));
        }
        env
    }

    /// Pops a function handle and calls the function against this
    /// machine: an isolated call, whose register writes the caller
    /// never sees.  [`machine_call_rel`] says the whole effect: the
    /// popped cell's value runs as by [`value_call_rel`].  A popped
    /// non-function is dropped.  The result is false when the fuel
    /// bound was exhausted.
    pub fn call(&mut self, fuel: u64) -> (ok: bool)
        requires
            old(self).wf(),
        ensures
            final(self).wf(),
            call_post(*old(self), *final(self), ok),
            machine_call_rel(*old(self), fuel, *final(self), ok),
        decreases fuel, 4nat, 0nat,
    {
        let f = self.pop();
        let ghost m1g = *self;
        let fv = self.cells[f.idx].clone();
        proof {
            crate::value::lemma_veq_wf(fv, self.cells@[f.idx as int], self.cells@.len() as int);
        }
        let ok = fv.call(self, fuel);
        proof {
            lemma_value_call_rel_veq(fv, m1g.cells@[f.idx as int], m1g, fuel, *self, ok);
            assert(machine_call_rel(*old(self), fuel, *self, ok));
        }
        ok
    }

    /// Pops an index and a container handle, re-pushes the container
    /// as the implicit receiver, indexes, and calls the slot's value:
    /// sugar for calling `container[index]` with the container itself
    /// as first argument.  [`method_call_rel`] states the exact
    /// equivalence to that push/push/push/index/call sequence.
    pub fn method_call(&mut self, fuel: u64) -> (ok: bool)
        requires
            old(self).wf(),
        ensures
            final(self).wf(),
            old(self).cells@.len() <= final(self).cells@.len(),
            final(self).registers == old(self).registers,
            method_call_rel(*old(self), fuel, *final(self), ok),
        decreases fuel, 5nat, 0nat,
    {
        let index = self.pop();
        let ghost m1g = *self;
        let table = self.pop();
        let ghost m2g = *self;
        self.push_ref(table);
        let ghost m3g = *self;
        self.push_ref(table);
        let ghost m4g = *self;
        self.push_ref(index);
        let ghost m5g = *self;
        self.index();
        let ghost m6g = *self;
        let ok = self.call(fuel);
        proof {
            assert(pop_post(*old(self), m1g, index) && pop_post(m1g, m2g, table) && pushed_ref(
                m2g,
                m3g,
                table,
            ) && pushed_ref(m3g, m4g, table) && pushed_ref(m4g, m5g, index) && index_post(
                m5g,
                m6g,
            ));
            assert(method_call_rel(*old(self), fuel, *self, ok));
        }
        ok
    }

    /// Pops a condition function and a body function; evaluates the
    /// condition in the current scope, and while the popped result is
    /// true, runs the body and re-evaluates the condition, both in the
    /// current scope, so their register writes remain visible here.
    /// [`while_rel`] states this whole behavior.  The result is false
    /// when the fuel bound was exhausted.
    pub fn while_loop(&mut self, fuel: u64) -> (ok: bool)
        requires
            old(self).wf(),
        ensures
            final(self).wf(),
            old(self).cells@.len() <= final(self).cells@.len(),
            while_rel(*old(self), fuel, *final(self), ok),
        decreases fuel, 6nat, 0nat,
    {
        let cond = self.pop();
        let ghost m1g = *self;
        let body = self.pop();
        let ghost m2g = *self;
        let cv = self.cells[cond.idx].clone();
        proof {
            crate::value::lemma_veq_wf(cv, self.cells@[cond.idx as int], self.cells@.len() as int);
        }
        let okc = cv.call_global(self, fuel);
        proof {
            lemma_value_call_global_rel_veq(
                cv,
                m2g.cells@[cond.idx as int],
                m2g,
                fuel,
                *self,
                okc,
            );
        }
        if !okc {
            proof {
                lemma_while_rel_stop(*old(self), fuel, m1g, cond, m2g, body, *self);
            }
            return false;
        }
        let ghost m3g = *self;
        let mut c = self.get_arg();
        let ghost m4g = *self;
        let ghost c0g = c;
        let mut gas = fuel;
        loop
            invariant
                self.wf(),
                gas <= fuel,
                cond.idx < self.cells@.len(),
                body.idx < self.cells@.len(),
                old(self).cells@.len() <= self.cells@.len(),
                pop_post(*old(self), m1g, cond),
                pop_post(m1g, m2g, body),
                cond.idx < m2g.cells@.len(),
                value_call_global_rel(m2g.cells@[cond.idx as int], m2g, fuel, m3g, true),
                get_arg_post(m3g, m4g, c0g),
                forall|p: Machine, k: bool|
                    while_iters(cond, body, c, *self, gas, p, k) ==> #[trigger] while_iters(
                        cond,
                        body,
                        c0g,
                        m4g,
                        fuel,
                        p,
                        k,
                    ),
            ensures
                !crate::value::spec_truthy(c),
            decreases gas,
        {
            if !c.truthy() {
                break ;
            }
            if gas == 0 {
                proof {
                    assert(while_iters(cond, body, c, *self, gas, *self, false));
                    lemma_while_rel_run(
                        *old(self),
                        fuel,
                        m1g,
                        cond,
                        m2g,
                        body,
                        m3g,
                        m4g,
                        c0g,
                        *self,
                        false,
                    );
                }
                return false;
            }
            let ghost it_pre = *self;
            let ghost c_pre = c;
            let ghost gas0 = gas;
            gas = gas - 1;
            let bv = self.cells[body.idx].clone();
            proof {
                crate::value::lemma_veq_wf(
                    bv,
                    self.cells@[body.idx as int],
                    self.cells@.len() as int,
                );
            }
            let okb = bv.call_global(self, gas);
            proof {
                lemma_value_call_global_rel_veq(
                    bv,
                    it_pre.cells@[body.idx as int],
                    it_pre,
                    gas,
                    *self,
                    okb,
                );
            }
            if !okb {
                proof {
                    lemma_while_iters_body_stop(cond, body, c_pre, it_pre, gas0, *self);
                    lemma_while_rel_run(
                        *old(self),
                        fuel,
                        m1g,
                        cond,
                        m2g,
                        body,
                        m3g,
                        m4g,
                        c0g,
                        *self,
                        false,
                    );
                }
                return false;
            }
            let ghost mb = *self;
            let cv2 = self.cells[cond.idx].clone();
            proof {
                crate::value::lemma_veq_wf(
                    cv2,
                    self.cells@[cond.idx as int],
                    self.cells@.len() as int,
                );
            }
            let okc2 = cv2.call_global(self, gas);
            proof {
                lemma_value_call_global_rel_veq(
                    cv2,
                    mb.cells@[cond.idx as int],
                    mb,
                    gas,
                    *self,
                    okc2,
                );
            }
            if !okc2 {
                proof {
                    lemma_while_iters_cond_stop(cond, body, c_pre, it_pre, gas0, mb, *self);
                    lemma_while_rel_run(
                        *old(self),
                        fuel,
                        m1g,
                        cond,
                        m2g,
                        body,
                        m3g,
                        m4g,
                        c0g,
                        *self,
                        false,
                    );
                }
                return false;
            }
            let ghost mc = *self;
            c = self.get_arg();
            proof {
                assert forall|p: Machine, k: bool|
                    while_iters(cond, body, c, *self, gas, p, k) implies #[trigger] while_iters(
                    cond,
                    body,
                    c0g,
                    m4g,
                    fuel,
                    p,
                    k,
                ) by {
                    lemma_while_iters_unroll(
                        cond,
                        body,
                        c_pre,
                        it_pre,
                        gas0,
                        mb,
                        mc,
                        *self,
                        c,
                        p,
                        k,
                    );
                }
            }
        }
        proof {
            assert(while_iters(cond, body, c, *self, gas, *self, true));
            lemma_while_rel_run(*old(self), fuel, m1g, cond, m2g, body, m3g, m4g, c0g, *self, true);
        }
        true
    }

    /// Pops a counter name, an element name, a list handle and a body
    /// function; for each slot of the list in order, binds the element
    /// name to the slot's handle and the counter name to a fresh cell
    /// holding the position, and runs the body in the current scope.
    /// [`for_rel`] states this whole behavior.  The result is false
    /// when the fuel bound was exhausted.
    pub fn for_loop(&mut self, fuel: u64) -> (ok: bool)
        requires
            old(self).wf(),
        ensures
            final(self).wf(),
            old(self).cells@.len() <= final(self).cells@.len(),
            for_rel(*old(self), fuel, *final(self), ok),
        decreases fuel, 6nat, 0nat,
    {
        let counter_name_r = self.pop();
        let ghost m1g = *self;
        let element_name_r = self.pop();
        let ghost m2g = *self;
        let list_r = self.pop();
        let ghost m3g = *self;
        let body = self.pop();
        let ghost m4g = *self;
        let counter_name = self.cells[counter_name_r.idx].key_string();
        let element_name = self.cells[element_name_r.idx].key_string();
        let items = self.cells[list_r.idx].to_list();
        let ghost eng = element_name@;
        let ghost cng = counter_name@;
        let ghost itemsg = items@;
        let mut idx: usize = 0;
        while idx < items.len()
            invariant
                self.wf(),
                idx <= items@.len(),
                body.idx < self.cells@.len(),
                forall|k: int| 0 <= k < items@.len() ==> (#[trigger] items@[k]).idx
                    < self.cells@.len(),
                old(self).cells@.len() <= self.cells@.len(),
                itemsg == items@,
                element_name@ == eng,
                counter_name@ == cng,
                pop_post(*old(self), m1g, counter_name_r),
                pop_post(m1g, m2g, element_name_r),
                pop_post(m2g, m3g, list_r),
                pop_post(m3g, m4g, body),
                counter_name_r.idx < m4g.cells@.len(),
                element_name_r.idx < m4g.cells@.len(),
                list_r.idx < m4g.cells@.len(),
                eng == key_text(m4g.cells@[element_name_r.idx as int]),
                cng == key_text(m4g.cells@[counter_name_r.idx as int]),
                itemsg == list_items(m4g.cells@[list_r.idx as int]),
                forall|p: Machine, k: bool|
                    for_iters(body, eng, cng, itemsg, idx as int, *self, fuel, p, k)
                        ==> #[trigger] for_iters(body, eng, cng, itemsg, 0, m4g, fuel, p, k),
            decreases items@.len() - idx,
        {
            let ghost it_pre = *self;
            self.registers.set(element_name.clone(), items[idx]);
            let cr = Ref { idx: self.cells.len() };
            let ghost pre = self.cells@;
            self.cells.push(Value::Num(idx as i64));
            proof {
                lemma_grown_wf(pre, self.cells@);
            }
            self.registers.set(counter_name.clone(), cr);
            let ghost m2s = *self;
            proof {
                assert(m2s.cells@ == it_pre.cells@.push(Value::Num(idx as i64)));
                assert(m2s.stack@ == it_pre.stack@);
                assert(m2s.registers@ == it_pre.registers@.insert(eng, itemsg[idx as int]).insert(
                    cng,
                    (Ref { idx: it_pre.cells@.len() as usize }),
                ));
            }
            let bv = self.cells[body.idx].clone();
            proof {
                crate::value::lemma_veq_wf(
                    bv,
                    self.cells@[body.idx as int],
                    self.cells@.len() as int,
                );
            }
            let okb = bv.call_global(self, fuel);
            proof {
                lemma_value_call_global_rel_veq(
                    bv,
                    m2s.cells@[body.idx as int],
                    m2s,
                    fuel,
                    *self,
                    okb,
                );
            }
            if !okb {
                proof {
                    lemma_for_iters_stop(
                        body,
                        eng,
                        cng,
                        itemsg,
                        idx as int,
                        it_pre,
                        fuel,
                        m2s,
                        *self,
                    );
                    lemma_for_rel_intro(
                        *old(self),
                        fuel,
                        m1g,
                        counter_name_r,
                        m2g,
                        element_name_r,
                        m3g,
                        list_r,
                        m4g,
                        body,
                        *self,
                        false,
                    );
                }
                return false;
            }
            idx = idx + 1;
            proof {
                assert forall|p: Machine, k: bool|
                    for_iters(body, eng, cng, itemsg, idx as int, *self, fuel, p, k)
                        implies #[trigger] for_iters(body, eng, cng, itemsg, 0, m4g, fuel, p, k) by {
                    lemma_for_iters_step(
                        body,
                        eng,
                        cng,
                        itemsg,
                        idx as int - 1,
                        it_pre,
                        fuel,
                        m2s,
                        *self,
                        p,
                        k,
                    );
                }
            }
        }
        proof {
            assert(for_iters(body, eng, cng, itemsg, idx as int, *self, fuel, *self, true));
            lemma_for_rel_intro(
                *old(self),
                fuel,
                m1g,
                counter_name_r,
                m2g,
                element_name_r,
                m3g,
                list_r,
                m4g,
                body,
                *self,
                true,
            );
        }
        true
    }

    /// Pops a condition function, a then function and an else
    /// function; evaluates the condition in the current scope and runs
    /// the then function if the popped result is true, the else
    /// function otherwise, both in the current scope.  [`ite_rel`]
    /// states this whole behavior.  The result is false when the fuel
    /// bound was exhausted.
    pub fn if_then_else(&mut self, fuel: u64) -> (ok: bool)
        requires
            old(self).wf(),
        ensures
            final(self).wf(),
            old(self).cells@.len() <= final(self).cells@.len(),
            ite_rel(*old(self), fuel, *final(self), ok),
        decreases fuel, 6nat, 0nat,
    {
        let cond = self.pop();
        let ghost m1g = *self;
        let then_r = self.pop();
        let ghost m2g = *self;
        let else_r = self.pop();
        let ghost m3g = *self;
        let cv = self.cells[cond.idx].clone();
        proof {
            crate::value::lemma_veq_wf(cv, self.cells@[cond.idx as int], self.cells@.len() as int);
        }
        let okc = cv.call_global(self, fuel);
        proof {
            lemma_value_call_global_rel_veq(
                cv,
                m3g.cells@[cond.idx as int],
                m3g,
                fuel,
                *self,
                okc,
            );
        }
        if !okc {
            proof {
                assert(step_at(*self, false));
                assert(ite_rel(*old(self), fuel, *self, false));
            }
            return false;
        }
        let ghost m4g = *self;
        let c = self.get_arg();
        let ghost m5g = *self;
        let ghost cg = c;
        let chosen = if c.truthy() {
            then_r
        } else {
            else_r
        };
        let fv = self.cells[chosen.idx].clone();
        proof {
            crate::value::lemma_veq_wf(fv, self.cells@[chosen.idx as int], self.cells@.len() as int);
        }
        let ok = fv.call_global(self, fuel);
        proof {
            lemma_value_call_global_rel_veq(
                fv,
                m5g.cells@[chosen.idx as int],
                m5g,
                fuel,
                *self,
                ok,
            );
            assert(step_at(m4g, true));
            assert(get_arg_post(m4g, m5g, cg));
            assert(ite_rel(*old(self), fuel, *self, ok));
        }
        ok
    }

    /// Runs an instruction sequence against this machine, as said by
    /// [`code_steps`].  The result is false when the fuel bound was
    /// exhausted.
    fn run_code(&mut self, code: &Vec<Instr>, fuel: u64) -> (ok: bool)
        requires
            old(self).wf(),
        ensures
            final(self).wf(),
            old(self).cells@.len() <= final(self).cells@.len(),
            code_steps(*old(self), code@, fuel, *final(self), ok),
        decreases fuel, 10nat, 0nat,
    {
        let r = self.run_from(code, 0, fuel);
        proof {
            assert(code@.skip(0) =~= code@);
        }
        r
    }

    /// Runs the instructions of `code` from position `i` on.
    fn run_from(&mut self, code: &Vec<Instr>, i: usize, fuel: u64) -> (ok: bool)
        requires
            old(self).wf(),
            i <= code@.len(),
        ensures
            final(self).wf(),
            old(self).cells@.len() <= final(self).cells@.len(),
            code_steps(*old(self), code@.skip(i as int), fuel, *final(self), ok),
        decreases fuel, 9nat, code@.len() - i,
    {
        if i == code.len() {
            proof {
                assert(code@.skip(i as int) =~= Seq::<Instr>::empty());
            }
            return true;
        }
        let ghost pre = *self;
        let mut step_ok = true;
        match &code[i] {
            Instr::PushNum(n) => {
                self.push(Value::Num(*n));
                proof {
                    assert(instr_step(pre, code@[i as int], fuel, *self, true));
                }
            },
            Instr::PushStr(s) => {
                self.push(Value::Str(s.clone()));
                proof {
                    assert(instr_step(pre, code@[i as int], fuel, *self, true));
                }
            },
            Instr::PushList => {
                self.push(Value::list());
                proof {
                    assert(instr_step(pre, code@[i as int], fuel, *self, true));
                }
            },
            Instr::PushTree => {
                self.push(Value::tree());
                proof {
                    assert(instr_step(pre, code@[i as int], fuel, *self, true));
                }
            },
            Instr::PushAbsent => {
                self.push(Value::Absent);
                proof {
                    assert(instr_step(pre, code@[i as int], fuel, *self, true));
                }
            },
            Instr::Lambda(c) => {
                let v = Value::function(c.clone(), self);
                let ghost mid = *self;
                self.push(v);
                proof {
                    assert(self.cells@.drop_last() =~= mid.cells@);
                    assert(instr_step(pre, code@[i as int], fuel, *self, true));
                }
            },
            Instr::CopyTop => {
                self.copy();
                proof {
                    assert(instr_step(pre, code@[i as int], fuel, *self, true));
                }
            },
            Instr::Store => {
                self.store();
                proof {
                    assert(instr_step(pre, code@[i as int], fuel, *self, true));
                }
            },
            Instr::Load => {
                self.load();
                proof {
                    assert(instr_step(pre, code@[i as int], fuel, *self, true));
                }
            },
            Instr::Assign => {
                self.assign();
                proof {
                    assert(instr_step(pre, code@[i as int], fuel, *self, true));
                }
            },
            Instr::Index => {
                self.index();
                proof {
                    assert(instr_step(pre, code@[i as int], fuel, *self, true));
                }
            },
            Instr::MethodCall => {
                step_ok = self.method_call(fuel);
                proof {
                    assert(instr_step(pre, code@[i as int], fuel, *self, step_ok));
                }
            },
            Instr::Call => {
                step_ok = self.call(fuel);
                proof {
                    assert(instr_step(pre, code@[i as int], fuel, *self, step_ok));
                }
            },
            Instr::While => {
                step_ok = self.while_loop(fuel);
                proof {
                    assert(instr_step(pre, code@[i as int], fuel, *self, step_ok));
                }
            },
            Instr::For => {
                step_ok = self.for_loop(fuel);
                proof {
                    assert(instr_step(pre, code@[i as int], fuel, *self, step_ok));
                }
            },
            Instr::IfElse => {
                step_ok = self.if_then_else(fuel);
                proof {
                    assert(instr_step(pre, code@[i as int], fuel, *self, step_ok));
                }
            },
            Instr::Add => {
                self.binop_add();
                proof {
                    assert(instr_step(pre, code@[i as int], fuel, *self, true));
                }
            },
            Instr::Sub => {
                self.binop_sub();
                proof {
                    assert(instr_step(pre, code@[i as int], fuel, *self, true));
                }
            },
            Instr::Mul => {
                self.binop_mul();
                proof {
                    assert(instr_step(pre, code@[i as int], fuel, *self, true));
                }
            },
            Instr::Div => {
                self.binop_div();
                proof {
                    assert(instr_step(pre, code@[i as int], fuel, *self, true));
                }
            },
            Instr::Rem => {
                self.binop_rem();
                proof {
                    assert(instr_step(pre, code@[i as int], fuel, *self, true));
                }
            },
            Instr::Not => {
                let a = self.get_arg();
                let ghost m1g = *self;
                let ghost ag = a;
                let r = a.not();
                let ghost rg = r;
                proof {
                    crate::value::lemma_binop_wf(ag, ag, r, self.cells@.len() as int);
                }
                self.push(r);
                proof {
                    assert(get_arg_post(pre, m1g, ag) && crate::value::not_rel(ag, rg)
                        && push_post(m1g, *self, rg));
                    assert(instr_step(pre, code@[i as int], fuel, *self, true));
                }
            },
        }
        if !step_ok {
            proof {
                lemma_code_steps_stop(pre, code@, i as int, fuel, *self);
            }
            return false;
        }
        let ghost mid = *self;
        let r = self.run_from(code, i + 1, fuel);
        proof {
            lemma_code_steps_go(pre, code@, i as int, fuel, mid, *self, r);
        }
        r
    }

    /// Pops two arguments and pushes their sum, as a host would.
    fn binop_add(&mut self)
        requires
            old(self).wf(),
        ensures
            final(self).wf(),
            old(self).cells@.len() <= final(self).cells@.len(),
            add_step(*old(self), *final(self)),
    {
        let a = self.get_arg();
        let ghost m1g = *self;
        let ghost ag = a;
        let ghost la = self.cells@.len() as int;
        let b = self.get_arg();
        let ghost m2g = *self;
        let ghost bg = b;
        proof {
            crate::value::lemma_wf_value_mono(ag, la, self.cells@.len() as int);
        }
        let r = a.add(b);
        let ghost rg = r;
        proof {
            crate::value::lemma_binop_wf(ag, bg, r, self.cells@.len() as int);
        }
        self.push(r);
        proof {
            assert(get_arg_post(*old(self), m1g, ag) && get_arg_post(m1g, m2g, bg)
                && crate::value::add_rel(ag, bg, rg) && push_post(m2g, *self, rg));
            assert(add_step(*old(self), *self));
        }
    }

    /// Pops two arguments and pushes their difference, as a host would.
    fn binop_sub(&mut self)
        requires
            old(self).wf(),
        ensures
            final(self).wf(),
            old(self).cells@.len() <= final(self).cells@.len(),
            sub_step(*old(self), *final(self)),
    {
        let a = self.get_arg();
        let ghost m1g = *self;
        let ghost ag = a;
        let ghost la = self.cells@.len() as int;
        let b = self.get_arg();
        let ghost m2g = *self;
        let ghost bg = b;
        proof {
            crate::value::lemma_wf_value_mono(ag, la, self.cells@.len() as int);
        }
        let r = a.sub(b);
        let ghost rg = r;
        proof {
            crate::value::lemma_binop_wf(ag, bg, r, self.cells@.len() as int);
        }
        self.push(r);
        proof {
            assert(get_arg_post(*old(self), m1g, ag) && get_arg_post(m1g, m2g, bg)
                && crate::value::sub_rel(ag, bg, rg) && push_post(m2g, *self, rg));
            assert(sub_step(*old(self), *self));
        }
    }

    /// Pops two arguments and pushes their product, as a host would.
    fn binop_mul(&mut self)
        requires
            old(self).wf(),
        ensures
            final(self).wf(),
            old(self).cells@.len() <= final(self).cells@.len(),
            mul_step(*old(self), *final(self)),
    {
        let a = self.get_arg();
        let ghost m1g = *self;
        let ghost ag = a;
        let ghost la = self.cells@.len() as int;
        let b = self.get_arg();
        let ghost m2g = *self;
        let ghost bg = b;
        proof {
            crate::value::lemma_wf_value_mono(ag, la, self.cells@.len() as int);
        }
        let r = a.mul(b);
        let ghost rg = r;
        proof {
            crate::value::lemma_binop_wf(ag, bg, r, self.cells@.len() as int);
        }
        self.push(r);
        proof {
            assert(get_arg_post(*old(self), m1g, ag) && get_arg_post(m1g, m2g, bg)
                && crate::value::mul_rel(ag, bg, rg) && push_post(m2g, *self, rg));
            assert(mul_step(*old(self), *self));
        }
    }

    /// Pops two arguments and pushes their quotient, as a host would.
    fn binop_div(&mut self)
        requires
            old(self).wf(),
        ensures
            final(self).wf(),
            old(self).cells@.len() <= final(self).cells@.len(),
            div_step(*old(self), *final(self)),
    {
        let a = self.get_arg();
        let ghost m1g = *self;
        let ghost ag = a;
        let ghost la = self.cells@.len() as int;
        let b = self.get_arg();
        let ghost m2g = *self;
        let ghost bg = b;
        proof {
            crate::value::lemma_wf_value_mono(ag, la, self.cells@.len() as int);
        }
        let r = a.div(b);
        let ghost rg = r;
        proof {
            crate::value::lemma_binop_wf(ag, bg, r, self.cells@.len() as int);
        }
        self.push(r);
        proof {
            assert(get_arg_post(*old(self), m1g, ag) && get_arg_post(m1g, m2g, bg)
                && crate::value::div_rel(ag, bg, rg) && push_post(m2g, *self, rg));
            assert(div_step(*old(self), *self));
        }
    }

    /// Pops two arguments and pushes their remainder, as a host would.
    fn binop_rem(&mut self)
        requires
            old(self).wf(),
        ensures
            final(self).wf(),
            old(self).cells@.len() <= final(self).cells@.len(),
            rem_step(*old(self), *final(self)),
    {
        let a = self.get_arg();
        let ghost m1g = *self;
        let ghost ag = a;
        let ghost la = self.cells@.len() as int;
        let b = self.get_arg();
        let ghost m2g = *self;
        let ghost bg = b;
        proof {
            crate::value::lemma_wf_value_mono(ag, la, self.cells@.len() as int);
        }
        let r = a.rem(b);
        let ghost rg = r;
        proof {
            crate::value::lemma_binop_wf(ag, bg, r, self.cells@.len() as int);
        }
        self.push(r);
        proof {
            assert(get_arg_post(*old(self), m1g, ag) && get_arg_post(m1g, m2g, bg)
                && crate::value::rem_rel(ag, bg, rg) && push_post(m2g, *self, rg));
            assert(rem_step(*old(self), *self));
        }
    }

    /// Allocates a fresh error cell with the given message.
    fn alloc_error(&mut self, msg: &str) -> (r: Ref)
        requires
            old(self).wf(),
        ensures
            final(self).wf(),
            err_pushed(old(self).cells@, final(self).cells@, r, msg@),
            final(self).stack@ == old(self).stack@,
            final(self).registers == old(self).registers,
    {
        let r = Ref { idx: self.cells.len() };
        let ghost pre = self.cells@;
        self.cells.push(Value::Error(msg.to_owned()));
        proof {
            lemma_grown_wf(pre, self.cells@);
        }
        r
    }
}

/// Copying behaves the same for values that describe the same state.
pub proof fn lemma_copy_step_veq(c: Seq<Value>, v: Value, v0: Value, c2: Seq<Value>, r: Ref)
    requires
        copy_step(c, v, c2, r),
        veq(v, v0),
    ensures
        copy_step(c, v0, c2, r),
{
    match v {
        Value::List(_) => {
        },
        Value::Tree(_) => {
        },
        _ => {
            crate::value::lemma_veq_trans(c2[c.len() as int], v, v0);
        },
    }
}

impl Value {
    /// Allocates a detached copy of this value in `m`'s arena, as
    /// described by [`copy_step`], and hands back its handle.  List
    /// and tree slots get fresh cells holding the old slots' values;
    /// what those values themselves hold stays shared.
    pub fn copy(&self, m: &mut Machine) -> (r: Ref)
        requires
            old(m).wf(),
            wf_value(*self, old(m).cells@.len() as int),
        ensures
            final(m).wf(),
            copy_step(old(m).cells@, *self, final(m).cells@, r),
            final(m).stack@ == old(m).stack@,
            final(m).registers == old(m).registers,
            r.idx < final(m).cells@.len(),
    {
        match self {
            Value::List(rs) => {
                let ghost c0 = m.cells@;
                let mut rs2: Vec<Ref> = Vec::new();
                let mut j: usize = 0;
                while j < rs.len()
                    invariant
                        m.wf(),
                        j <= rs@.len(),
                        forall|k: int| 0 <= k < rs@.len() ==> (#[trigger] rs@[k]).idx < c0.len(),
                        m.cells@.len() == c0.len() + j,
                        cells_extended(c0, m.cells@),
                        forall|k: int|
                            0 <= k < j ==> veq(
                                #[trigger] m.cells@[c0.len() + k],
                                c0[rs@[k].idx as int],
                            ),
                        rs2@ =~= Seq::new(j as nat, |k: int| Ref { idx: (c0.len() + k) as usize }),
                        m.stack@ == old(m).stack@,
                        m.registers == old(m).registers,
                        c0 == old(m).cells@,
                    decreases rs@.len() - j,
                {
                    let e = rs[j];
                    let ev = m.cells[e.idx].clone();
                    rs2.push(Ref { idx: m.cells.len() });
                    let ghost pre = m.cells@;
                    proof {
                        assert(pre[e.idx as int] == c0[e.idx as int]);
                        crate::value::lemma_wf_value_mono(
                            pre[e.idx as int],
                            pre.len() as int,
                            (pre.len() + 1) as int,
                        );
                        crate::value::lemma_veq_wf(ev, pre[e.idx as int], (pre.len() + 1) as int);
                    }
                    m.cells.push(ev);
                    proof {
                        lemma_grown_wf(pre, m.cells@);
                        assert(rs2@ =~= Seq::new(
                            (j + 1) as nat,
                            |k: int| Ref { idx: (c0.len() + k) as usize },
                        ));
                    }
                    j = j + 1;
                }
                let r = Ref { idx: m.cells.len() };
                let ghost pre = m.cells@;
                proof {
                    assert forall|k: int| 0 <= k < rs2@.len() implies (#[trigger] rs2@[k]).idx
                        < pre.len() + 1 by {}
                }
                let lv = Value::List(rs2);
                proof {
                    assert(wf_value(lv, (pre.len() + 1) as int));
                }
                m.cells.push(lv);
                proof {
                    lemma_grown_wf(pre, m.cells@);
                }
                r
            },
            Value::Tree(env) => {
                let ghost c0 = m.cells@;
                let mut entries2: Vec<(String, Ref)> = Vec::new();
                let mut j: usize = 0;
                while j < env.entries.len()
                    invariant
                        m.wf(),
                        j <= env.kv().len(),
                        env_refs_below(*env, c0.len() as int),
                        m.cells@.len() == c0.len() + j,
                        cells_extended(c0, m.cells@),
                        forall|k: int|
                            0 <= k < j ==> veq(
                                #[trigger] m.cells@[c0.len() + k],
                                c0[env.kv()[k].1.idx as int],
                            ),
                        entries2@.len() == j,
                        forall|k: int|
                            0 <= k < j ==> (#[trigger] entries2@[k]).0@ == env.kv()[k].0
                                && entries2@[k].1.idx == c0.len() + k,
                        m.stack@ == old(m).stack@,
                        m.registers == old(m).registers,
                        c0 == old(m).cells@,
                    decreases env.kv().len() - j,
                {
                    let e = env.entries[j].1;
                    proof {
                        assert(env.kv()[j as int] == (env.entries@[j as int].0@, e));
                    }
                    let ev = m.cells[e.idx].clone();
                    entries2.push((env.entries[j].0.clone(), Ref { idx: m.cells.len() }));
                    let ghost pre = m.cells@;
                    proof {
                        assert(pre[e.idx as int] == c0[e.idx as int]);
                        crate::value::lemma_wf_value_mono(
                            pre[e.idx as int],
                            pre.len() as int,
                            (pre.len() + 1) as int,
                        );
                        crate::value::lemma_veq_wf(ev, pre[e.idx as int], (pre.len() + 1) as int);
                    }
                    m.cells.push(ev);
                    proof {
                        lemma_grown_wf(pre, m.cells@);
                        assert(entries2@[j as int].0 == env.entries@[j as int].0);
                    }
                    j = j + 1;
                }
                let r = Ref { idx: m.cells.len() };
                let ghost pre = m.cells@;
                proof {
                    assert(crate::env::kv_of(entries2@) =~= Seq::new(
                        env.kv().len() as nat,
                        |k: int| (env.kv()[k].0, Ref { idx: (c0.len() + k) as usize }),
                    ));
                    assert forall|k: int|
                        0 <= k < crate::env::kv_of(entries2@).len() implies (#[trigger] crate::env::kv_of(
                        entries2@,
                    )[k]).1.idx < pre.len() + 1 by {}
                }
                let tv = Value::Tree(Env { entries: entries2 });
                proof {
                    assert(wf_value(tv, (pre.len() + 1) as int));
                }
                m.cells.push(tv);
                proof {
                    lemma_grown_wf(pre, m.cells@);
                }
                r
            },
            _ => {
                let r = Ref { idx: m.cells.len() };
                let v = self.clone();
                let ghost pre = m.cells@;
                proof {
                    crate::value::lemma_veq_wf(v, *self, m.cells@.len() as int);
                }
                m.cells.push(v);
                proof {
                    lemma_grown_wf(pre, m.cells@);
                }
                r
            },
        }
    }

    /// Indexes this container with `key`, as described by
    /// [`index_step`]: the result is a handle to the addressed slot,
    /// and a missing list or tree slot is created first, absent.
    pub fn index(&mut self, key: &Value, m: &mut Machine) -> (r: Ref)
        requires
            old(m).wf(),
            wf_value(*old(self), old(m).cells@.len() as int),
        ensures
            final(m).wf(),
            index_step(old(m).cells@, *old(self), *key, final(m).cells@, *final(self), r),
            final(m).stack@ == old(m).stack@,
            final(m).registers == old(m).registers,
            wf_value(*final(self), final(m).cells@.len() as int),
            r.idx < final(m).cells@.len(),
    {
        match self {
            Value::List(rs) => {
                match key {
                    Value::Num(num) => {
                        let n = *num;
                        if n >= 0 && (n as u64) < (rs.len() as u64) {
                            rs[n as usize]
                        } else if n >= 0 && (n as u64) <= (usize::MAX as u64) {
                            let nu = n as usize;
                            proof {
                                assert(n as int <= usize::MAX as int);
                                assert(nu as int == n as int);
                            }
                            let ghost c0 = m.cells@;
                            let ghost rs0 = rs@;
                            while rs.len() <= nu
                                invariant
                                    m.wf(),
                                    rs0.len() <= nu as int,
                                    rs0.len() <= rs@.len(),
                                    rs@.len() <= nu as int + 1,
                                    m.cells@.len() == c0.len() + (rs@.len() - rs0.len()),
                                    cells_extended(c0, m.cells@),
                                    forall|i2: int|
                                        c0.len() <= i2 < m.cells@.len() ==> m.cells@[i2]
                                            == Value::Absent,
                                    rs@ =~= rs0 + Seq::new(
                                        (rs@.len() - rs0.len()) as nat,
                                        |k: int| Ref { idx: (c0.len() + k) as usize },
                                    ),
                                    m.stack@ == old(m).stack@,
                                    m.registers == old(m).registers,
                                    c0 == old(m).cells@,
                                decreases nu as int + 1 - rs@.len(),
                            {
                                rs.push(Ref { idx: m.cells.len() });
                                let ghost pre = m.cells@;
                                m.cells.push(Value::Absent);
                                proof {
                                    lemma_grown_wf(pre, m.cells@);
                                    assert(rs@ =~= rs0 + Seq::new(
                                        (rs@.len() - rs0.len()) as nat,
                                        |k: int| Ref { idx: (c0.len() + k) as usize },
                                    ));
                                }
                            }
                            let total = m.cells.len();
                            let out = rs[nu];
                            proof {
                                assert(c0.len() + (nu as int - rs0.len()) < total as int);
                                assert(out.idx == c0.len() + (n as int - rs0.len()));
                            }
                            out
                        } else {
                            m.alloc_error("Can't index list with non-integer")
                        }
                    },
                    _ => m.alloc_error("Can't index list with non-integer"),
                }
            },
            Value::Tree(env) => {
                let name = key.key_string();
                match env.get(&name) {
                    Some(r) => {
                        proof {
                            crate::env::lemma_env_lookup_below(
                                *env,
                                m.cells@.len() as int,
                                name@,
                            );
                        }
                        r
                    },
                    None => {
                        let a = Ref { idx: m.cells.len() };
                        let ghost pre = m.cells@;
                        m.cells.push(Value::Absent);
                        proof {
                            lemma_grown_wf(pre, m.cells@);
                        }
                        env.set(name, a);
                        a
                    },
                }
            },
            Value::Str(s) => {
                match key {
                    Value::Num(num) => {
                        let n = *num;
                        if n >= 0 && (n as u64) < (s.as_str().unicode_len() as u64) {
                            let nu = n as usize;
                            let piece = s.as_str().substring_char(nu, nu + 1);
                            let r = Ref { idx: m.cells.len() };
                            let ghost pre = m.cells@;
                            let cell = Value::Str(piece.to_owned());
                            proof {
                                assert(piece@ =~= seq![s@[n as int]]);
                            }
                            m.cells.push(cell);
                            proof {
                                lemma_grown_wf(pre, m.cells@);
                            }
                            r
                        } else {
                            m.alloc_error("String index out of bounds")
                        }
                    },
                    _ => m.alloc_error("Can't index string with non-integer"),
                }
            },
            _ => {
                proof {
                    crate::value::lemma_veq_refl(*self);
                }
                m.alloc_error("Can't index non-list or non-tree")
            },
        }
    }

    /// Creates a function value: a closure over `code` capturing the
    /// machine's current registers as a detached copy (see
    /// [`Machine::duplicate`]).
    pub fn function(code: Rc<Vec<Instr>>, context: &mut Machine) -> (v: Value)
        requires
            old(context).wf(),
        ensures
            final(context).wf(),
            cells_extended(old(context).cells@, final(context).cells@),
            final(context).cells@.len() == old(context).cells@.len() + dup_cost(
                old(context).cells@,
                old(context).registers.kv(),
                old(context).registers.kv().len() as int,
            ),
            final(context).stack@ == old(context).stack@,
            final(context).registers == old(context).registers,
            v matches Value::Func(f) && f.code == code && captured(
                *old(context),
                final(context).cells@,
                f.context,
            ),
            wf_value(v, final(context).cells@.len() as int),
    {
        let env = context.duplicate();
        Value::Func(Function::new(code, env))
    }

    /// Calls this function value against `m` in an isolated scope: the
    /// function runs with its own captured registers (an aliasing
    /// copy, so cell mutation through them persists), sees and leaves
    /// the caller's stack, and the caller's registers are untouched.
    /// A non-function value does nothing.  The result is false when
    /// the fuel bound was exhausted.
    pub fn call(&self, m: &mut Machine, fuel: u64) -> (ok: bool)
        requires
            old(m).wf(),
            wf_value(*self, old(m).cells@.len() as int),
        ensures
            final(m).wf(),
            old(m).cells@.len() <= final(m).cells@.len(),
            final(m).registers == old(m).registers,
            !(*self matches Value::Func(_)) ==> *final(m) == *old(m) && ok,
            value_call_rel(*self, *old(m), fuel, *final(m), ok),
        decreases fuel, 3nat, 2nat,
    {
        match self {
            Value::Func(f) => {
                let mut ctx = f.context.clone();
                let ghost ctxg = ctx;
                proof {
                    assert(env_refs_below(ctx, m.cells@.len() as int));
                }
                core::mem::swap(&mut m.registers, &mut ctx);
                proof {
                    assert(*m == (Machine {
                        cells: old(m).cells,
                        stack: old(m).stack,
                        registers: ctxg,
                    }));
                }
                let ok = f.call(m, fuel);
                let ghost midg = *m;
                core::mem::swap(&mut m.registers, &mut ctx);
                proof {
                    assert(capture_at(ctxg, midg));
                    assert(iso_run(f.code@, *old(m), ctxg, fuel, midg, ok));
                    assert(*m == (Machine {
                        cells: midg.cells,
                        stack: midg.stack,
                        registers: old(m).registers,
                    }));
                    assert(value_call_rel(*self, *old(m), fuel, *m, ok));
                }
                ok
            },
            _ => true,
        }
    }

    /// Calls this function value against `m` in the current scope:
    /// its instructions run directly on the caller's stack and
    /// registers, so register writes stay visible.  A non-function
    /// value does nothing.  The result is false when the fuel bound
    /// was exhausted.
    pub fn call_global(&self, m: &mut Machine, fuel: u64) -> (ok: bool)
        requires
            old(m).wf(),
            wf_value(*self, old(m).cells@.len() as int),
        ensures
            final(m).wf(),
            old(m).cells@.len() <= final(m).cells@.len(),
            !(*self matches Value::Func(_)) ==> *final(m) == *old(m) && ok,
            value_call_global_rel(*self, *old(m), fuel, *final(m), ok),
        decreases fuel, 3nat, 2nat,
    {
        match self {
            Value::Func(f) => f.call(m, fuel),
            _ => true,
        }
    }
}

/// The rendered text of a value: strings as their content, numbers in
/// decimal, errors in an exception marker, the absent value as
/// `None`; a list or tree shows its slots' values resolved through
/// the cells down to depth `fuel`, with `...` standing for what lies
/// deeper.
pub open spec fn render_text(cells: Seq<Value>, v: Value, fuel: u64) -> Seq<char>
    decreases fuel, 1nat, 0nat,
{
    match v {
        Value::Str(s) => s@,
        Value::Num(n) => crate::digits::dec_int(n as int),
        Value::Error(e) => exc_name_text(e@),
        Value::Absent => "None"@,
        Value::Func(_) => "<function>"@,
        Value::List(rs) => "["@ + list_text(cells, rs@, rs@.len() as int, fuel) + "]"@,
        Value::Tree(env) => "{"@ + tree_text(cells, env.kv(), env.kv().len() as int, fuel) + "}"@,
    }
}

/// The rendered text of the first `i` slots of a list.
pub open spec fn list_text(cells: Seq<Value>, rs: Seq<Ref>, i: int, fuel: u64) -> Seq<char>
    decreases fuel, 0nat, i,
{
    if i <= 0 {
        Seq::<char>::empty()
    } else {
        list_text(cells, rs, i - 1, fuel) + (if i - 1 > 0 {
            ", "@
        } else {
            Seq::<char>::empty()
        }) + (if fuel == 0 {
            "..."@
        } else {
            render_text(cells, cells[rs[i - 1].idx as int], (fuel - 1) as u64)
        })
    }
}

/// The rendered text of the first `i` bindings of a tree.
pub open spec fn tree_text(cells: Seq<Value>, es: Seq<(Seq<char>, Ref)>, i: int, fuel: u64) -> Seq<
    char,
>
    decreases fuel, 0nat, i,
{
    if i <= 0 {
        Seq::<char>::empty()
    } else {
        tree_text(cells, es, i - 1, fuel) + (if i - 1 > 0 {
            ", "@
        } else {
            Seq::<char>::empty()
        }) + es[i - 1].0 + ": "@ + (if fuel == 0 {
            "..."@
        } else {
            render_text(cells, cells[es[i - 1].1.idx as int], (fuel - 1) as u64)
        })
    }
}

/// Values describing the same state render to the same text.
pub proof fn lemma_render_text_veq(cells: Seq<Value>, a: Value, b: Value, fuel: u64)
    requires
        veq(a, b),
    ensures
        render_text(cells, a, fuel) == render_text(cells, b, fuel),
{
    match a {
        Value::Str(_) => {
        },
        Value::Num(_) => {
        },
        Value::List(_) => {
        },
        Value::Tree(_) => {
        },
        Value::Func(_) => {
        },
        Value::Error(_) => {
        },
        Value::Absent => {
        },
    }
}

impl Value {
    /// A human-readable rendering of this value for diagnostics, with
    /// handles inside containers resolved through `m`'s cells down to
    /// depth `fuel`, exactly the text [`render_text`] describes.
    pub fn render(&self, m: &Machine, fuel: u64) -> (s: String)
        requires
            m.wf(),
            wf_value(*self, m.cells@.len() as int),
        ensures
            s@ == render_text(m.cells@, *self, fuel),
        decreases fuel,
    {
        match self {
            Value::Str(t) => t.clone(),
            Value::Num(n) => crate::digits::int_to_string(*n),
            Value::Error(e) => {
                let mut out = String::from_str("<Exception: '");
                out.append(e.as_str());
                out.append("'>");
                out
            },
            Value::Absent => String::from_str("None"),
            Value::Func(_) => String::from_str("<function>"),
            Value::List(rs) => {
                let mut out = String::from_str("[");
                let mut j: usize = 0;
                while j < rs.len()
                    invariant
                        m.wf(),
                        j <= rs@.len(),
                        forall|k: int| 0 <= k < rs@.len() ==> (#[trigger] rs@[k]).idx
                            < m.cells@.len(),
                        out@ == "["@ + list_text(m.cells@, rs@, j as int, fuel),
                    decreases rs@.len() - j,
                {
                    if j > 0 {
                        out.append(", ");
                    }
                    if fuel == 0 {
                        out.append("...");
                    } else {
                        let ev = m.cells[rs[j].idx].clone();
                        proof {
                            crate::value::lemma_veq_wf(
                                ev,
                                m.cells@[rs@[j as int].idx as int],
                                m.cells@.len() as int,
                            );
                            lemma_render_text_veq(
                                m.cells@,
                                ev,
                                m.cells@[rs@[j as int].idx as int],
                                (fuel - 1) as u64,
                            );
                        }
                        out.append(ev.render(m, fuel - 1).as_str());
                    }
                    j = j + 1;
                }
                out.append("]");
                out
            },
            Value::Tree(env) => {
                let mut out = String::from_str("{");
                let mut j: usize = 0;
                while j < env.entries.len()
                    invariant
                        m.wf(),
                        j <= env.kv().len(),
                        env_refs_below(*env, m.cells@.len() as int),
                        out@ == "{"@ + tree_text(m.cells@, env.kv(), j as int, fuel),
                    decreases env.kv().len() - j,
                {
                    if j > 0 {
                        out.append(", ");
                    }
                    proof {
                        assert(env.kv()[j as int] == (env.entries@[j as int].0@, env.entries@[
                            j as int].1));
                    }
                    out.append(env.entries[j].0.as_str());
                    out.append(": ");
                    if fuel == 0 {
                        out.append("...");
                    } else {
                        let e = env.entries[j].1;
                        let ev = m.cells[e.idx].clone();
                        proof {
                            crate::value::lemma_veq_wf(
                                ev,
                                m.cells@[e.idx as int],
                                m.cells@.len() as int,
                            );
                            lemma_render_text_veq(
                                m.cells@,
                                ev,
                                m.cells@[e.idx as int],
                                (fuel - 1) as u64,
                            );
                        }
                        out.append(ev.render(m, fuel - 1).as_str());
                    }
                    j = j + 1;
                }
                out.append("}");
                out
            },
        }
    }
}

/// The rendered text of the first `i` stack slots' values, each to
/// depth eight.
pub open spec fn stack_text(cells: Seq<Value>, stack: Seq<Ref>, i: int) -> Seq<char>
    decreases i,
{
    if i <= 0 {
        Seq::<char>::empty()
    } else {
        stack_text(cells, stack, i - 1) + (if i - 1 > 0 {
            ", "@
        } else {
            Seq::<char>::empty()
        }) + render_text(cells, cells[stack[i - 1].idx as int], 8)
    }
}

/// The rendered text of the first `i` register bindings, each value
/// to depth eight.
pub open spec fn regs_text(cells: Seq<Value>, es: Seq<(Seq<char>, Ref)>, i: int) -> Seq<char>
    decreases i,
{
    if i <= 0 {
        Seq::<char>::empty()
    } else {
        regs_text(cells, es, i - 1) + (if i - 1 > 0 {
            ", "@
        } else {
            Seq::<char>::empty()
        }) + es[i - 1].0 + ": "@ + render_text(cells, cells[es[i - 1].1.idx as int], 8)
    }
}

impl Machine {
    /// A human-readable rendering of the machine for diagnostics: the
    /// stack's values in order, then the register table, exactly the
    /// text [`stack_text`] and [`regs_text`] describe.
    pub fn render(&self) -> (s: String)
        requires
            self.wf(),
        ensures
            s@ == "Machine {\n\tstack: ["@ + stack_text(self.cells@, self.stack@, self.stack@.len() as int)
                + "]\n\theap:  {"@ + regs_text(
                self.cells@,
                self.registers.kv(),
                self.registers.kv().len() as int,
            ) + "}\n}"@,
    {
        let mut out = String::from_str("Machine {\n\tstack: [");
        let mut j: usize = 0;
        while j < self.stack.len()
            invariant
                self.wf(),
                j <= self.stack@.len(),
                out@ == "Machine {\n\tstack: ["@ + stack_text(self.cells@, self.stack@, j as int),
            decreases self.stack@.len() - j,
        {
            if j > 0 {
                out.append(", ");
            }
            let r = self.stack[j];
            let v = self.cells[r.idx].clone();
            proof {
                crate::value::lemma_veq_wf(v, self.cells@[r.idx as int], self.cells@.len() as int);
                lemma_render_text_veq(self.cells@, v, self.cells@[r.idx as int], 8);
            }
            out.append(v.render(self, 8).as_str());
            j = j + 1;
        }
        out.append("]\n\theap:  {");
        let mut j: usize = 0;
        while j < self.registers.entries.len()
            invariant
                self.wf(),
                j <= self.registers.kv().len(),
                out@ == "Machine {\n\tstack: ["@ + stack_text(
                    self.cells@,
                    self.stack@,
                    self.stack@.len() as int,
                ) + "]\n\theap:  {"@ + regs_text(self.cells@, self.registers.kv(), j as int),
            decreases self.registers.kv().len() - j,
        {
            if j > 0 {
                out.append(", ");
            }
            proof {
                assert(self.registers.kv()[j as int] == (self.registers.entries@[j as int].0@, self.registers.entries@[j as int].1));
            }
            out.append(self.registers.entries[j].0.as_str());
            out.append(": ");
            let r = self.registers.entries[j].1;
            let v = self.cells[r.idx].clone();
            proof {
                crate::value::lemma_veq_wf(v, self.cells@[r.idx as int], self.cells@.len() as int);
                lemma_render_text_veq(self.cells@, v, self.cells@[r.idx as int], 8);
            }
            out.append(v.render(self, 8).as_str());
            j = j + 1;
        }
        out.append("}\n}");
        out
    }
}

impl Default for Machine {
    /// The default machine is the empty machine.
    fn default() -> (m: Self)
        ensures
            m.wf(),
            m.cells@.len() == 0,
            m.stack@.len() == 0,
            m.registers@ == Map::<Seq<char>, Ref>::empty(),
    {
        Machine::new()
    }
}

impl Function {
    /// Runs this function's instructions directly against `input`,
    /// with whatever stack and registers it currently has.  The result
    /// is false when the fuel bound was exhausted.
    pub fn call(&self, input: &mut Machine, fuel: u64) -> (ok: bool)
        requires
            old(input).wf(),
        ensures
            final(input).wf(),
            old(input).cells@.len() <= final(input).cells@.len(),
            function_call_rel(self.code@, *old(input), fuel, *final(input), ok),
        decreases fuel, 2nat, 0nat,
    {
        if fuel == 0 {
            false
        } else {
            input.run_code(&self.code, fuel - 1)
        }
    }
}

/// Cells extended with well-formed values stay well-formed.
pub proof fn lemma_grown_wf(pre: Seq<Value>, post: Seq<Value>)
    requires
        cells_wf(pre),
        cells_extended(pre, post),
        forall|i: int|
            pre.len() <= i < post.len() ==> wf_value(#[trigger] post[i], post.len() as int),
    ensures
        cells_wf(post),
{
    assert forall|i: int| 0 <= i < post.len() implies wf_value(post[i], post.len() as int) by {
        if i < pre.len() {
            crate::value::lemma_wf_value_mono(pre[i], pre.len() as int, post.len() as int);
        }
    }
}

} // verus!
