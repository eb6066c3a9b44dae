use std::rc::Rc;

use xmachine::Instr;
use xmachine::Machine;
use xmachine::Value;

/// Church-encoded booleans: `True` keeps its first argument, `False`
/// its second; applying them through two nested calls validates the
/// closure capture and scope isolation of `call`.
#[test]
fn church() {
    let mut m = Machine::new();

    let t = Value::function(
        Rc::new(vec![
            Instr::PushStr(String::from("a")),
            Instr::Store,
            Instr::Lambda(Rc::new(vec![
                Instr::PushStr(String::from("b")),
                Instr::Store,
                Instr::PushStr(String::from("a")),
                Instr::Load,
            ])),
        ]),
        &mut m,
    );
    m.push(t);
    m.push(Value::string("True"));
    m.store();

    let f = Value::function(
        Rc::new(vec![
            Instr::PushStr(String::from("a")),
            Instr::Store,
            Instr::Lambda(Rc::new(vec![
                Instr::PushStr(String::from("b")),
                Instr::Store,
                Instr::PushStr(String::from("b")),
                Instr::Load,
            ])),
        ]),
        &mut m,
    );
    m.push(f);
    m.push(Value::string("False"));
    m.store();

    m.push(Value::number(0));
    m.push(Value::number(1));
    m.push(Value::string("True"));
    m.load();
    assert!(m.call(100));
    assert!(m.call(100));

    assert_eq!(m.get_arg().to_number(), 1);

    m.push(Value::number(0));
    m.push(Value::number(1));
    m.push(Value::string("False"));
    m.load();
    assert!(m.call(100));
    assert!(m.call(100));

    assert_eq!(m.get_arg().to_number(), 0);

    m.push(Value::number(1));
    m.push(Value::number(0));
    m.push(Value::string("True"));
    m.load();
    assert!(m.call(100));
    assert!(m.call(100));

    assert_eq!(m.get_arg().to_number(), 0);
}
