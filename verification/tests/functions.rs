use std::rc::Rc;

use xmachine::Instr;
use xmachine::Machine;
use xmachine::Value;

fn stack_values(m: &Machine) -> Vec<Value> {
    m.stack.iter().map(|r| m.cells[r.idx].clone()).collect()
}

fn register_value(m: &Machine, name: &str) -> Value {
    let r = m.registers.get(&String::from(name)).expect("register should be bound");
    m.cells[r.idx].clone()
}

/// Tests that functions can return values to the stack
#[test]
fn function_return() {
    // Test single return value
    let mut m = Machine::new();
    let f = Value::function(Rc::new(vec![Instr::PushNum(5)]), &mut m);
    m.push(f);
    assert!(m.call(100));

    assert_eq!(stack_values(&m), vec![Value::number(5)]);

    // Test multiple return values
    let mut m = Machine::new();
    let f = Value::function(
        Rc::new(vec![
            Instr::PushNum(5),
            Instr::PushStr(String::from("whoa")),
            Instr::PushTree,
        ]),
        &mut m,
    );
    m.push(f);
    assert!(m.call(100));

    assert_eq!(
        stack_values(&m),
        vec![Value::number(5), Value::string("whoa"), Value::tree()]
    );
}

/// This function tests the ability to pass a copy to a
/// function and mutate it while not changing the original
#[test]
fn function_copy() {
    let mut m = Machine::new();

    // Store `yo yo yo` in `test`
    m.push(Value::string("yo yo yo"));
    m.push(Value::string("test"));
    m.store();
    // Store call function with argument 5
    m.push(Value::number(5));
    let f = Value::function(
        Rc::new(vec![
            // Load `test` from global scope
            Instr::PushStr(String::from("test")),
            Instr::Load,
            // Copy item on stack to remove the alias
            Instr::CopyTop,
            // Assign to the COPY's location in memory!
            Instr::Assign,
        ]),
        &mut m,
    );
    m.push(f);
    assert!(m.call(100));

    assert_eq!(register_value(&m, "test"), Value::string("yo yo yo"));
}

/// Tests that functions can return values to the stack
#[test]
fn function_function_return() {
    let mut m = Machine::new();
    let f = Value::function(Rc::new(vec![Instr::PushNum(5)]), &mut m);
    m.push(f);
    assert!(m.call(100));

    assert_eq!(stack_values(&m), vec![Value::number(5)]);

    let mut m = Machine::new();
    let f = Value::function(
        Rc::new(vec![
            Instr::PushNum(5),
            Instr::PushStr(String::from("whoa")),
            Instr::PushTree,
        ]),
        &mut m,
    );
    m.push(f);
    assert!(m.call(100));

    assert_eq!(
        stack_values(&m),
        vec![Value::number(5), Value::string("whoa"), Value::tree()]
    );
}

/// This function tests the ability to pass a copy to a
/// function and mutate it while not changing the original
#[test]
fn function_function_copy() {
    let mut m = Machine::new();

    m.push(Value::string("yo yo yo"));
    m.push(Value::string("test"));
    m.store();
    m.push(Value::number(5));
    let f = Value::function(
        Rc::new(vec![
            Instr::PushStr(String::from("test")),
            Instr::Load,
            Instr::CopyTop,
            Instr::Assign,
        ]),
        &mut m,
    );
    m.push(f);
    assert!(m.call(100));

    assert_eq!(register_value(&m, "test"), Value::string("yo yo yo"));
}
