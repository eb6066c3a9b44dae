//! Laws of the machine: detachment, aliasing, auto-vivification and
//! scope isolation, proved from the instruction contracts.

use vstd::prelude::*;

use crate::env::env_map;
use crate::machine::Machine;
use crate::machine::assign_post;
use crate::machine::call_post;
use crate::machine::copy_post;
use crate::machine::index_post;
use crate::value::Ref;
use crate::value::Value;
use crate::value::is_list_with;
use crate::value::is_tree_with;
use crate::value::key_text;
use crate::value::veq;

verus! {

/// A `copy` between a load and an `assign` shields every cell that
/// already existed: the assignment lands in the detached copy's fresh
/// cell, so the original value — in particular every register's cell —
/// is unchanged, whatever value was assigned.
pub proof fn lemma_copy_shields_cells(m0: Machine, m1: Machine, m2: Machine)
    requires
        m0.wf(),
        m0.stack@.len() >= 2,
        copy_post(m0, m1),
        assign_post(m1, m2),
    ensures
        forall|i: int| 0 <= i < m0.cells@.len() ==> m2.cells@[i] == m0.cells@[i],
        m2.registers == m0.registers,
        forall|name: Seq<char>|
            m0.registers@.contains_key(name) ==> m2.cells@[m0.registers@[name].idx as int]
                == m0.cells@[m0.registers@[name].idx as int],
{
    let t = m0.stack@.last();
    let c = m1.stack@.last();
    match m0.cells@[t.idx as int] {
        Value::Str(_) => {
        },
        Value::Num(_) => {
        },
        Value::List(_) => {
        },
        Value::Tree(_) => {
        },
        Value::Func(_) => {
        },
        Value::Error(_) => {
        },
        Value::Absent => {
        },
    }
    assert(m0.cells@.len() <= c.idx);
    assert(m1.stack@.len() == m0.stack@.len());
    assert forall|name: Seq<char>| m0.registers@.contains_key(name) implies (m2.cells@[(
    m0.registers@[name]).idx as int] == m0.cells@[(m0.registers@[name]).idx as int]) by {
        crate::env::lemma_env_lookup_below(m0.registers, m0.cells@.len() as int, name);
    }
}

/// An `assign` without a `copy` writes through the alias: the target
/// cell takes the assigned value, and every other holder of a handle
/// to that cell — a register, a stack slot, a container slot —
/// observes the new value, since it reads the same cell.
pub proof fn lemma_assign_mutates_aliases(m0: Machine, m1: Machine)
    requires
        m0.wf(),
        m0.stack@.len() >= 2,
        assign_post(m0, m1),
    ensures
        veq(
            m1.cells@[m0.stack@.last().idx as int],
            m0.cells@[m0.stack@[m0.stack@.len() - 2].idx as int],
        ),
        forall|r: Ref|
            r.idx == m0.stack@.last().idx ==> veq(
                m1.cells@[r.idx as int],
                m0.cells@[m0.stack@[m0.stack@.len() - 2].idx as int],
            ),
{
}

/// Indexing a list at or beyond its length extends it: a list of
/// length `L` indexed at `n >= L` grows to length `n + 1`, its old
/// slots unchanged, the new slots filled with fresh absent cells, and
/// the pushed handle addresses slot `n`.
pub proof fn lemma_index_extends_list(m0: Machine, m1: Machine, rs: Seq<Ref>, n: i64)
    requires
        m0.wf(),
        m0.stack@.len() >= 2,
        is_list_with(m0.cells@[m0.stack@[m0.stack@.len() - 2].idx as int], rs),
        m0.cells@[m0.stack@.last().idx as int] == Value::Num(n),
        rs.len() <= n,
        n as int <= usize::MAX as int,
        index_post(m0, m1),
    ensures
        m1.cells@[m0.stack@[m0.stack@.len() - 2].idx as int] matches Value::List(rs2) && {
            &&& rs2@.len() == n + 1
            &&& (forall|j: int| 0 <= j < rs.len() ==> rs2@[j] == rs[j])
            &&& (forall|j: int|
                rs.len() <= j <= n ==> m1.cells@[(#[trigger] rs2@[j]).idx as int] == Value::Absent)
            &&& m1.stack@.last() == rs2@[n as int]
        },
{
    let t = m0.stack@[m0.stack@.len() - 2];
    let r = m1.stack@.last();
    let c1 = m1.cells@.update(t.idx as int, m0.cells@[t.idx as int]);
    let ext = n as int + 1 - rs.len();
    let rs2 = rs + Seq::new(ext as nat, |k: int| Ref { idx: (m0.cells@.len() + k) as usize });
    assert(is_list_with(m1.cells@[t.idx as int], rs2));
    assert(rs2[n as int] == (Ref { idx: (m0.cells@.len() + (n as int - rs.len())) as usize }));
    assert(r == rs2[n as int]);
    assert forall|j: int| rs.len() <= j <= n implies m1.cells@[(#[trigger] rs2[j]).idx as int]
        == Value::Absent by {
        assert(rs2[j].idx == m0.cells@.len() + (j - rs.len()));
        assert(c1[rs2[j].idx as int] == Value::Absent);
        assert(rs2[j].idx != t.idx);
    }
}

/// Indexing a tree at an absent key vivifies it: the key is bound to
/// a fresh absent cell, the pushed handle addresses that cell, and
/// afterwards the tree's map reports the key bound to it.
pub proof fn lemma_index_vivifies_tree(m0: Machine, m1: Machine, es: Seq<(Seq<char>, Ref)>)
    requires
        m0.wf(),
        m0.stack@.len() >= 2,
        is_tree_with(m0.cells@[m0.stack@[m0.stack@.len() - 2].idx as int], es),
        !env_map(es).contains_key(key_text(m0.cells@[m0.stack@.last().idx as int])),
        index_post(m0, m1),
    ensures
        m1.stack@.last().idx == m0.cells@.len(),
        m1.cells@[m1.stack@.last().idx as int] == Value::Absent,
        m1.cells@[m0.stack@[m0.stack@.len() - 2].idx as int] matches Value::Tree(env2) && {
            let key = key_text(m0.cells@[m0.stack@.last().idx as int]);
            &&& env2.kv() == es.push((key, m1.stack@.last()))
            &&& env_map(env2.kv()).contains_key(key)
            &&& env_map(env2.kv())[key] == m1.stack@.last()
        },
{
    let t = m0.stack@[m0.stack@.len() - 2];
    let r = m1.stack@.last();
    let c1 = m1.cells@.update(t.idx as int, m0.cells@[t.idx as int]);
    assert(c1[r.idx as int] == Value::Absent);
    assert(r.idx != t.idx);
}

/// A `call` runs the function in an isolated scope: whatever the
/// function stored in its registers, the caller's register table is
/// exactly what it was before the call.  The other half of the
/// isolation story — that the caller's stack is exactly the stack the
/// function's body left behind — is what
/// [`crate::machine::machine_call_rel`] and
/// [`crate::machine::value_call_rel`] state: the body runs on the
/// caller's stack under a capture of its own context, and only the
/// register table is put back.
pub proof fn lemma_call_isolates_registers(m0: Machine, m1: Machine, ok: bool)
    requires
        call_post(m0, m1, ok),
    ensures
        m1.registers == m0.registers,
        m1.registers@ == m0.registers@,
{
}

} // verus!
