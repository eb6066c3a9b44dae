use std::rc::Rc;

use xmachine::Instr;
use xmachine::Machine;
use xmachine::Value;

/// Builds a small object system: a `Number` class whose constructor
/// stores a value and a sign into a fresh tree, then reads the value
/// back through a method call.
#[test]
fn object() {
    let mut xasm = Machine::new();

    let dict = Value::function(Rc::new(vec![Instr::PushTree]), &mut xasm);
    xasm.push(dict);
    xasm.copy();
    xasm.push(Value::string("new"));
    xasm.store();

    let constructor = Rc::new(vec![
        Instr::PushStr(String::from("self")),
        Instr::Store,
        Instr::PushStr(String::from("value")),
        Instr::Store,
        Instr::PushStr(String::from("sign")),
        Instr::Store,
        Instr::PushStr(String::from("value")),
        Instr::Load,
        Instr::CopyTop,
        Instr::PushStr(String::from("self")),
        Instr::Load,
        Instr::PushStr(String::from("value")),
        Instr::Index,
        Instr::Assign,
        Instr::PushStr(String::from("sign")),
        Instr::Load,
        Instr::CopyTop,
        Instr::PushStr(String::from("self")),
        Instr::Load,
        Instr::PushStr(String::from("sign")),
        Instr::Index,
        Instr::Assign,
        Instr::PushStr(String::from("self")),
        Instr::Load,
    ]);

    let set_value = Rc::new(vec![
        Instr::PushStr(String::from("self")),
        Instr::Store,
        Instr::PushStr(String::from("value")),
        Instr::Store,
        Instr::PushStr(String::from("value")),
        Instr::Load,
        Instr::CopyTop,
        Instr::PushStr(String::from("self")),
        Instr::Load,
        Instr::PushStr(String::from("value")),
        Instr::Index,
        Instr::Assign,
    ]);

    let number_class = Value::function(
        Rc::new(vec![
            Instr::PushStr(String::from("new")),
            Instr::Load,
            Instr::Call,
            Instr::CopyTop,
            Instr::PushStr(String::from("self")),
            Instr::Store,
            Instr::Lambda(constructor),
            Instr::CopyTop,
            Instr::PushStr(String::from("self")),
            Instr::Load,
            Instr::PushStr(String::from("constructor")),
            Instr::Index,
            Instr::Assign,
            Instr::Lambda(set_value),
            Instr::CopyTop,
            Instr::PushStr(String::from("self")),
            Instr::Load,
            Instr::PushStr(String::from("set_value")),
            Instr::Index,
            Instr::Assign,
            Instr::PushStr(String::from("self")),
            Instr::Load,
        ]),
        &mut xasm,
    );
    xasm.push(number_class);
    xasm.copy();
    xasm.push(Value::string("Number"));
    xasm.store();

    xasm.push(Value::number(0));
    xasm.push(Value::number(5));
    xasm.push(Value::string("Number"));
    xasm.load();
    assert!(xasm.call(1000));
    xasm.push(Value::string("constructor"));
    assert!(xasm.method_call(1000));
    xasm.push(Value::string("value"));
    xasm.index();

    assert_eq!(xasm.get_arg().to_number(), 5);
}
