use std::rc::Rc;

use xmachine::Instr;
use xmachine::Machine;
use xmachine::Value;

fn stack_values(m: &Machine) -> Vec<Value> {
    m.stack.iter().map(|r| m.cells[r.idx].clone()).collect()
}

fn register_value(m: &Machine, name: &str) -> Value {
    let r = m.registers.get(&String::from(name)).expect("register should be bound");
    m.cells[r.idx].clone()
}

/// Counts a register down to zero with a while loop, leaving the
/// loaded values on the stack.
#[test]
fn while_loop() {
    let mut m = Machine::new();
    let subf = Value::function(Rc::new(vec![Instr::Sub]), &mut m);
    m.push(subf);
    m.push(Value::string("sub"));
    m.store();

    m.push(Value::number(5));
    m.push(Value::string("test"));
    m.store();
    let body = Value::function(
        Rc::new(vec![
            Instr::PushStr(String::from("test")),
            Instr::Load,
            Instr::PushNum(1),
            Instr::PushStr(String::from("test")),
            Instr::Load,
            Instr::PushStr(String::from("sub")),
            Instr::Load,
            Instr::Call,
            Instr::PushStr(String::from("test")),
            Instr::Store,
        ]),
        &mut m,
    );
    m.push(body);
    let cond = Value::function(
        Rc::new(vec![Instr::PushStr(String::from("test")), Instr::Load]),
        &mut m,
    );
    m.push(cond);
    assert!(m.while_loop(1000));

    assert_eq!(
        stack_values(&m),
        vec![
            Value::number(5),
            Value::number(4),
            Value::number(3),
            Value::number(2),
            Value::number(1),
        ]
    );
}

/// A register write inside a while loop body is visible to the caller
/// after the loop completes.
#[test]
fn while_loop_writes_visible() {
    let mut m = Machine::new();
    m.push(Value::number(10));
    m.push(Value::string("counter"));
    m.store();

    let body = Value::function(
        Rc::new(vec![
            Instr::PushNum(0),
            Instr::PushStr(String::from("counter")),
            Instr::Store,
        ]),
        &mut m,
    );
    m.push(body);
    let cond = Value::function(
        Rc::new(vec![Instr::PushStr(String::from("counter")), Instr::Load]),
        &mut m,
    );
    m.push(cond);
    assert!(m.while_loop(100));

    assert_eq!(register_value(&m, "counter"), Value::number(0));
    assert_eq!(stack_values(&m), Vec::<Value>::new());
}

/// A for loop binds the element and counter names in the current
/// scope and runs the body once per list slot, in order.
#[test]
fn for_loop_iterates_in_order() {
    let mut m = Machine::new();
    m.push(Value::list());
    m.push(Value::string("l"));
    m.store();
    // l[0] = 10
    m.push(Value::number(10));
    m.push(Value::string("l"));
    m.load();
    m.push(Value::number(0));
    m.index();
    m.assign();
    // l[1] = 20
    m.push(Value::number(20));
    m.push(Value::string("l"));
    m.load();
    m.push(Value::number(1));
    m.index();
    m.assign();

    let body = Value::function(
        Rc::new(vec![Instr::PushStr(String::from("e")), Instr::Load]),
        &mut m,
    );
    m.push(body);
    m.push(Value::string("l"));
    m.load();
    m.push(Value::string("e"));
    m.push(Value::string("i"));
    assert!(m.for_loop(100));

    assert_eq!(stack_values(&m), vec![Value::number(10), Value::number(20)]);
    assert_eq!(register_value(&m, "i"), Value::number(1));
    assert_eq!(register_value(&m, "e"), Value::number(20));
}

/// The then function runs on a true condition, the else function on a
/// false one, both in the current scope.
#[test]
fn if_then_else_branches() {
    let mut m = Machine::new();
    let else_f = Value::function(Rc::new(vec![Instr::PushNum(222)]), &mut m);
    m.push(else_f);
    let then_f = Value::function(Rc::new(vec![Instr::PushNum(111)]), &mut m);
    m.push(then_f);
    let cond = Value::function(Rc::new(vec![Instr::PushNum(1)]), &mut m);
    m.push(cond);
    assert!(m.if_then_else(100));
    assert_eq!(stack_values(&m), vec![Value::number(111)]);

    let mut m = Machine::new();
    let else_f = Value::function(Rc::new(vec![Instr::PushNum(222)]), &mut m);
    m.push(else_f);
    let then_f = Value::function(Rc::new(vec![Instr::PushNum(111)]), &mut m);
    m.push(then_f);
    let cond = Value::function(Rc::new(vec![Instr::PushNum(0)]), &mut m);
    m.push(cond);
    assert!(m.if_then_else(100));
    assert_eq!(stack_values(&m), vec![Value::number(222)]);
}

/// A run that exhausts its fuel reports it instead of completing.
#[test]
fn fuel_runs_out() {
    let mut m = Machine::new();
    let f = Value::function(Rc::new(vec![Instr::PushNum(5)]), &mut m);
    m.push(f);
    assert!(!m.call(0));
}
