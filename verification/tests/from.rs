use xmachine::Env;
use xmachine::Value;

#[test]
fn from_string() {
    assert_eq!(Value::string("test"), Value::Str(String::from("test")));

    assert_eq!(Value::string("test").to_text(), String::from("test"));
}

#[test]
fn from_tree() {
    assert_eq!(Value::tree(), Value::Tree(Env::new()));
}

#[test]
fn from_list() {
    assert_eq!(Value::list(), Value::List(Vec::new()));
}

#[test]
fn from_number() {
    assert_eq!(Value::number(5), Value::Num(5));
    assert_eq!(Value::number(-7), Value::Num(-7));
    assert_eq!(Value::number(5).to_number(), 5);
}

#[test]
fn from_tree_contents() {
    let env = Value::tree().to_tree();
    assert_eq!(env.entries.len(), 0);
    let env = Value::number(5).to_tree();
    assert_eq!(env.entries.len(), 0);
}

#[test]
fn from_function() {
    let f = Value::number(5).to_function();
    assert_eq!(f.code.len(), 0);
    assert_eq!(f.get_context().entries.len(), 0);
}

#[test]
fn from_list_contents() {
    assert_eq!(Value::number(5).to_list(), Vec::new());
    assert_eq!(Value::string("x").to_text(), String::from("x"));
    assert_eq!(Value::error("e").to_text(), String::from("e"));
    assert_eq!(Value::none().to_text(), String::from(""));
    assert_eq!(Value::string("x").to_number(), 0);
}

#[test]
fn from_bool() {
    assert_eq!(Value::number(1).truthy(), true);
    assert_eq!(Value::number(5).truthy(), true);
    assert_eq!(Value::number(0).truthy(), false);
    assert_eq!(Value::number(-5).truthy(), true);
    assert_eq!(Value::tree().truthy(), false);
    assert_eq!(Value::list().truthy(), false);
    assert_eq!(Value::string("test").truthy(), true);
    assert_eq!(Value::string("").truthy(), false);
}
