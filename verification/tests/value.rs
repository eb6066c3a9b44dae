use std::rc::Rc;

use xmachine::Env;
use xmachine::Instr;
use xmachine::Machine;
use xmachine::Value;

fn stack_values(m: &Machine) -> Vec<Value> {
    m.stack.iter().map(|r| m.cells[r.idx].clone()).collect()
}

#[test]
fn call() {
    let mut m = Machine::new();

    let f = Value::function(Rc::new(vec![Instr::PushNum(5)]), &mut m);

    assert!(f.call(&mut m, 100));
    assert_eq!(stack_values(&m), vec![Value::number(5)]);
}

#[test]
fn display() {
    let m = Machine::new();
    assert_eq!(String::from("test"), Value::string("test").render(&m, 8));
}

#[test]
fn index() {
    let mut m = Machine::new();
    m.push(Value::number(5));
    let r5 = m.pop();

    let mut env = Env::new();
    env.set(String::from("test"), r5);
    let mut tv = Value::Tree(env);

    let r = tv.index(&Value::string("test"), &mut m);
    assert_eq!(r, r5);
    assert_eq!(m.cells[r.idx].to_number(), 5);
}
