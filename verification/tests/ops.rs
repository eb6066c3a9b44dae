use std::rc::Rc;

use xmachine::Instr;
use xmachine::Machine;
use xmachine::Value;

#[test]
fn add_numbers_and_strings_and_lists() {
    assert_eq!(Value::number(2).add(Value::number(3)), Value::number(5));
    assert_eq!(Value::string("ab").add(Value::string("cd")), Value::string("abcd"));
    assert_eq!(Value::list().add(Value::list()), Value::list());
}

#[test]
fn add_wraps() {
    assert_eq!(
        Value::number(i64::MAX).add(Value::number(1)),
        Value::number(i64::MIN)
    );
}

#[test]
fn add_mismatch_is_error() {
    let r = Value::string("ab").add(Value::number(3));
    assert!(r.is_err());
    assert_eq!(r.to_text(), String::from("Could not add ab and 3"));
}

#[test]
fn sub_numbers() {
    assert_eq!(Value::number(5).sub(Value::number(2)), Value::number(3));
    let r = Value::string("a").sub(Value::number(1));
    assert_eq!(r.to_text(), String::from("Could not subtract a and 1"));
}

#[test]
fn mul_numbers_and_repeats_strings() {
    assert_eq!(Value::number(2).mul(Value::number(3)), Value::number(6));
    assert_eq!(Value::string("ab").mul(Value::number(3)), Value::string("ababab"));
    assert_eq!(Value::string("ab").mul(Value::number(-1)), Value::string(""));
    let r = Value::list().mul(Value::number(2));
    assert_eq!(r.to_text(), String::from("Could not multiply [...] and 2"));
}

#[test]
fn div_truncates_and_rejects_zero() {
    assert_eq!(Value::number(7).div(Value::number(2)), Value::number(3));
    assert_eq!(Value::number(-7).div(Value::number(2)), Value::number(-3));
    let r = Value::number(7).div(Value::number(0));
    assert_eq!(r.to_text(), String::from("Division by zero or overflow"));
    let r = Value::string("a").div(Value::number(1));
    assert_eq!(r.to_text(), String::from("Could not divide a and 1"));
}

#[test]
fn rem_and_rejects_zero() {
    assert_eq!(Value::number(7).rem(Value::number(2)), Value::number(1));
    let r = Value::number(7).rem(Value::number(0));
    assert_eq!(r.to_text(), String::from("Remainder by zero or overflow"));
    let r = Value::tree().rem(Value::number(1));
    assert_eq!(r.to_text(), String::from("Could not find the remainder of {...} and 1"));
}

#[test]
fn not_negates_numbers() {
    assert_eq!(Value::number(0).not(), Value::number(1));
    assert_eq!(Value::number(5).not(), Value::number(0));
    let r = Value::string("x").not();
    assert_eq!(r.to_text(), String::from("Could not negate x"));
}

#[test]
fn is_err_spots_errors() {
    assert!(Value::error("boom").is_err());
    assert!(!Value::number(0).is_err());
    assert!(!Value::none().is_err());
}

/// The arithmetic instructions pop their operands like a host function
/// and push the operator's result.
#[test]
fn arithmetic_instructions() {
    let mut m = Machine::new();
    let f = Value::function(
        Rc::new(vec![
            Instr::PushNum(2),
            Instr::PushNum(3),
            Instr::Add,
            Instr::PushNum(4),
            Instr::Mul,
            Instr::PushNum(3),
            Instr::Rem,
            Instr::Not,
        ]),
        &mut m,
    );
    m.push(f);
    assert!(m.call(100));
    // ((3 + 2) * 4) leaves 20 on the stack; then 3 % 20 is 3, and
    // not(3) is 0.
    assert_eq!(m.get_arg().to_number(), 0);
}
