use std::rc::Rc;

use xmachine::Instr;
use xmachine::Machine;
use xmachine::Value;

fn stack_values(m: &Machine) -> Vec<Value> {
    m.stack.iter().map(|r| m.cells[r.idx].clone()).collect()
}

fn register_value(m: &Machine, name: &str) -> Value {
    let r = m.registers.get(&String::from(name)).expect("register should be bound");
    m.cells[r.idx].clone()
}

/// A copy between a load and an assign shields the original: the
/// register cell, and every alias of it, keeps its old value.
#[test]
fn copy_then_assign_keeps_original() {
    let mut m = Machine::new();
    m.push(Value::number(5));
    m.push(Value::string("a"));
    m.store();
    // Bind b to the same cell as a.
    m.push(Value::string("a"));
    m.load();
    m.push(Value::string("b"));
    m.store();
    // a := 9, but through a detached copy.
    m.push(Value::number(9));
    m.push(Value::string("a"));
    m.load();
    m.copy();
    m.assign();

    assert_eq!(register_value(&m, "a"), Value::number(5));
    assert_eq!(register_value(&m, "b"), Value::number(5));
}

/// An assign without a copy writes through the alias: every holder of
/// a handle to the cell observes the new value.
#[test]
fn assign_mutates_every_alias() {
    let mut m = Machine::new();
    m.push(Value::number(5));
    m.push(Value::string("a"));
    m.store();
    m.push(Value::string("a"));
    m.load();
    m.push(Value::string("b"));
    m.store();
    m.push(Value::number(9));
    m.push(Value::string("a"));
    m.load();
    m.assign();

    assert_eq!(register_value(&m, "a"), Value::number(9));
    assert_eq!(register_value(&m, "b"), Value::number(9));
}

/// Indexing a list beyond its length extends it with absent slots up
/// to the index, and hands back a handle to the addressed slot.
#[test]
fn index_extends_list() {
    let mut m = Machine::new();
    m.push(Value::list());
    m.push(Value::string("l"));
    m.store();
    m.push(Value::string("l"));
    m.load();
    m.push(Value::number(2));
    m.index();

    let top = m.pop();
    assert!(matches!(m.cells[top.idx], Value::Absent));
    match register_value(&m, "l") {
        Value::List(rs) => {
            assert_eq!(rs.len(), 3);
            for r in &rs {
                assert!(matches!(m.cells[r.idx], Value::Absent));
            }
            assert_eq!(rs[2], top);
        },
        other => panic!("expected a list, got {:?}", other),
    }
}

/// Indexing a tree at an absent key binds the key to a fresh absent
/// cell and hands back its handle.
#[test]
fn index_vivifies_tree() {
    let mut m = Machine::new();
    m.push(Value::tree());
    m.push(Value::string("t"));
    m.store();
    m.push(Value::string("t"));
    m.load();
    m.push(Value::string("k"));
    m.index();

    let top = m.pop();
    assert!(matches!(m.cells[top.idx], Value::Absent));
    match register_value(&m, "t") {
        Value::Tree(env) => {
            assert_eq!(env.get(&String::from("k")), Some(top));
        },
        other => panic!("expected a tree, got {:?}", other),
    }
}

/// A register write inside a called function is invisible to the
/// caller, while the caller's stack reflects what the function pushed.
#[test]
fn call_isolates_registers() {
    let mut m = Machine::new();
    m.push(Value::number(1));
    m.push(Value::string("x"));
    m.store();
    let f = Value::function(
        Rc::new(vec![
            Instr::PushNum(42),
            Instr::PushStr(String::from("x")),
            Instr::Store,
            Instr::PushNum(7),
        ]),
        &mut m,
    );
    m.push(f);
    assert!(m.call(100));

    assert_eq!(register_value(&m, "x"), Value::number(1));
    assert_eq!(stack_values(&m), vec![Value::number(7)]);
}

/// A function captures its context as a detached copy: mutating the
/// register afterwards does not change what the function sees.
#[test]
fn capture_is_detached() {
    let mut m = Machine::new();
    m.push(Value::number(1));
    m.push(Value::string("x"));
    m.store();
    let f = Value::function(
        Rc::new(vec![Instr::PushStr(String::from("x")), Instr::Load]),
        &mut m,
    );
    // x := 2, in place, after the capture.
    m.push(Value::number(2));
    m.push(Value::string("x"));
    m.load();
    m.assign();
    assert_eq!(register_value(&m, "x"), Value::number(2));

    m.push(f);
    assert!(m.call(100));
    assert_eq!(stack_values(&m), vec![Value::number(1)]);
}

/// Popping an empty stack yields a recoverable error value.
#[test]
fn pop_empty_stack_is_error() {
    let mut m = Machine::new();
    let r = m.pop();
    assert!(m.cells[r.idx].is_err());
    assert_eq!(
        m.cells[r.idx].to_text(),
        String::from("Popped from empty stack, called function with too few arguments")
    );
}

/// Loading an unbound register pushes an error naming the register.
#[test]
fn load_unbound_is_error() {
    let mut m = Machine::new();
    m.push(Value::string("nope"));
    m.load();
    let r = m.pop();
    assert!(m.cells[r.idx].is_err());
    assert_eq!(m.cells[r.idx].to_text(), String::from("No register named nope"));
}

/// Indexing a non-container yields an error value.
#[test]
fn index_non_container_is_error() {
    let mut m = Machine::new();
    m.push(Value::number(1));
    m.push(Value::number(0));
    m.index();
    let r = m.pop();
    assert_eq!(m.cells[r.idx].to_text(), String::from("Can't index non-list or non-tree"));
}

/// Indexing a list with a non-numeric or negative key yields an error.
#[test]
fn index_list_bad_key_is_error() {
    let mut m = Machine::new();
    m.push(Value::list());
    m.push(Value::string("zero"));
    m.index();
    let r = m.pop();
    assert_eq!(m.cells[r.idx].to_text(), String::from("Can't index list with non-integer"));

    let mut m = Machine::new();
    m.push(Value::list());
    m.push(Value::number(-1));
    m.index();
    let r = m.pop();
    assert_eq!(m.cells[r.idx].to_text(), String::from("Can't index list with non-integer"));
}

/// Indexing a string yields a fresh one-character string, an error
/// out of bounds, and an error for a non-numeric key.
#[test]
fn index_string() {
    let mut m = Machine::new();
    m.push(Value::string("abc"));
    m.push(Value::number(1));
    m.index();
    let r = m.pop();
    assert_eq!(m.cells[r.idx], Value::string("b"));

    let mut m = Machine::new();
    m.push(Value::string("abc"));
    m.push(Value::number(3));
    m.index();
    let r = m.pop();
    assert_eq!(m.cells[r.idx].to_text(), String::from("String index out of bounds"));

    let mut m = Machine::new();
    m.push(Value::string("abc"));
    m.push(Value::string("x"));
    m.index();
    let r = m.pop();
    assert_eq!(m.cells[r.idx].to_text(), String::from("Can't index string with non-integer"));
}

/// A number used as a store key names the register by its decimal text.
#[test]
fn store_with_number_key() {
    let mut m = Machine::new();
    m.push(Value::number(5));
    m.push(Value::number(7));
    m.store();
    assert_eq!(register_value(&m, "7"), Value::number(5));
}

/// The machine renders its stack and registers deterministically.
#[test]
fn machine_render() {
    let mut m = Machine::new();
    m.push(Value::string("x"));
    m.push(Value::string("a"));
    m.store();
    m.push(Value::number(5));
    assert_eq!(m.render(), String::from("Machine {\n\tstack: [5]\n\theap:  {a: x}\n}"));
}

/// Values render to their diagnostic text.
#[test]
fn value_render() {
    let mut m = Machine::new();
    assert_eq!(Value::number(-42).render(&m, 8), String::from("-42"));
    assert_eq!(Value::number(0).render(&m, 8), String::from("0"));
    assert_eq!(Value::number(1234567890).render(&m, 8), String::from("1234567890"));
    assert_eq!(Value::none().render(&m, 8), String::from("None"));
    assert_eq!(Value::error("boom").render(&m, 8), String::from("<Exception: 'boom'>"));
    // A list renders its cells' values.
    m.push(Value::list());
    m.push(Value::string("l"));
    m.store();
    m.push(Value::number(3));
    m.push(Value::string("l"));
    m.load();
    m.push(Value::number(0));
    m.index();
    m.assign();
    assert_eq!(register_value(&m, "l").render(&m, 8), String::from("[3]"));
}

/// Numbers render in decimal at both ends of the range.
#[test]
fn number_render_extremes() {
    let m = Machine::new();
    assert_eq!(
        Value::number(i64::MIN).render(&m, 1),
        String::from("-9223372036854775808")
    );
    assert_eq!(
        Value::number(i64::MAX).render(&m, 1),
        String::from("9223372036854775807")
    );
}

/// Instructions on an empty stack degrade to error values instead of
/// failing: a store binds an error under the error's own key text.
#[test]
fn store_on_empty_stack_binds_error() {
    let mut m = Machine::new();
    m.store();
    let v = register_value(
        &m,
        "<Exception: 'Popped from empty stack, called function with too few arguments'>",
    );
    assert!(v.is_err());
}

/// A copy detaches one level: the copied list's slots are fresh
/// cells, but what those slots' values hold stays shared, so a write
/// through the original's inner list shows through the copy.
#[test]
fn copy_is_one_level_deep() {
    let mut m = Machine::new();
    m.push(Value::list());
    m.push(Value::string("l"));
    m.store();
    // l[0] = []
    m.push(Value::list());
    m.push(Value::string("l"));
    m.load();
    m.push(Value::number(0));
    m.index();
    m.assign();
    // l[0][0] = 5
    m.push(Value::number(5));
    m.push(Value::string("l"));
    m.load();
    m.push(Value::number(0));
    m.index();
    m.push(Value::number(0));
    m.index();
    m.assign();
    // c = copy of l
    m.push(Value::string("l"));
    m.load();
    m.copy();
    m.push(Value::string("c"));
    m.store();
    // l[0][0] = 9, through the original
    m.push(Value::number(9));
    m.push(Value::string("l"));
    m.load();
    m.push(Value::number(0));
    m.index();
    m.push(Value::number(0));
    m.index();
    m.assign();
    // The copy's own slot cell is detached, but its inner list shares
    // the mutated cell.
    m.push(Value::string("c"));
    m.load();
    m.push(Value::number(0));
    m.index();
    m.push(Value::number(0));
    m.index();
    assert_eq!(m.get_arg().to_number(), 9);
}

/// `method_call` passes the container itself as the first argument.
#[test]
fn method_call_passes_receiver() {
    let mut m = Machine::new();
    // t = {} ; t["me"] = fn -> (pops self, pushes 99 into stack)
    m.push(Value::tree());
    m.push(Value::string("t"));
    m.store();
    let f = Value::function(
        Rc::new(vec![
            Instr::PushStr(String::from("self")),
            Instr::Store,
            Instr::PushNum(99),
        ]),
        &mut m,
    );
    m.push(f);
    m.push(Value::string("t"));
    m.load();
    m.push(Value::string("me"));
    m.index();
    m.assign();

    m.push(Value::string("t"));
    m.load();
    m.push(Value::string("me"));
    assert!(m.method_call(100));
    assert_eq!(m.get_arg().to_number(), 99);
}
