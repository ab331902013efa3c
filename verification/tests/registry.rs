use goap::Condition;
use goap::FactId;
use goap::FactMap;
use goap::NewFactError;
use goap::ParseConditionError;
use goap::Value;

#[test]
fn new_fact_allocates_sequential_ids() {
    let mut facts = FactMap::new();
    let a = facts.new_fact(String::from("has_axe")).expect("ok");
    let b = facts.new_fact(String::from("has_wood")).expect("ok");
    assert_eq!(a, FactId(0));
    assert_eq!(b, FactId(1));
    assert_eq!(facts.get_fact_id("has_axe"), Some(FactId(0)));
    assert_eq!(facts.get_fact_id("has_wood"), Some(FactId(1)));
    assert_eq!(facts.get_fact_id("has_gold"), None);
    assert_eq!(
        facts.get_fact_names(),
        &vec![String::from("has_axe"), String::from("has_wood")]
    );
}

#[test]
fn new_fact_rejects_empty_name() {
    let mut facts = FactMap::new();
    assert_eq!(
        facts.new_fact(String::from("")),
        Err(NewFactError::EmptyFactName)
    );
}

#[test]
fn new_fact_rejects_leading_digit() {
    let mut facts = FactMap::new();
    assert_eq!(
        facts.new_fact(String::from("9lives")),
        Err(NewFactError::InitialDigitFactName)
    );
}

#[test]
fn new_fact_rejects_whitespace() {
    let mut facts = FactMap::new();
    assert_eq!(
        facts.new_fact(String::from("has axe")),
        Err(NewFactError::ContainsAsciiWhitespaceFactName)
    );
    assert_eq!(
        facts.new_fact(String::from("has\taxe")),
        Err(NewFactError::ContainsAsciiWhitespaceFactName)
    );
}

#[test]
fn new_fact_rejects_duplicates() {
    let mut facts = FactMap::new();
    facts.new_fact(String::from("has_axe")).expect("ok");
    assert_eq!(
        facts.new_fact(String::from("has_axe")),
        Err(NewFactError::DuplicateFactName)
    );
}

#[test]
fn new_fact_runs_out_of_identifier_space() {
    let mut facts = FactMap::new();
    for i in 0..65536u32 {
        facts.new_fact(format!("f{}", i)).expect("ok");
    }
    assert_eq!(
        facts.new_fact(String::from("one_too_many")),
        Err(NewFactError::OutOfFactIdSpace)
    );
}

#[test]
fn parse_value_handles_ints_names_and_garbage() {
    let mut facts = FactMap::new();
    let my_fact = facts.new_fact(String::from("my_fact")).expect("ok");
    assert_eq!(facts.parse_value("3"), Value::Int(3));
    assert_eq!(facts.parse_value("-17"), Value::Int(-17));
    assert_eq!(facts.parse_value("my_fact"), Value::Ref(my_fact));
    assert_eq!(facts.parse_value("123 invalid"), Value::Error);
    assert_eq!(facts.parse_value("99999999999999999999"), Value::Error);
}

#[test]
fn parse_condition_recognizes_all_operators() {
    let mut facts = FactMap::new();
    let my_fact = facts.new_fact(String::from("my_fact")).expect("ok");
    let other = facts.new_fact(String::from("other")).expect("ok");
    assert_eq!(
        facts.parse_condition("my_fact == 3"),
        Ok(Condition::Eq(my_fact, Value::Int(3)))
    );
    assert_eq!(
        facts.parse_condition("my_fact != 3"),
        Ok(Condition::Ne(my_fact, Value::Int(3)))
    );
    assert_eq!(
        facts.parse_condition("my_fact > other"),
        Ok(Condition::Gt(my_fact, Value::Ref(other)))
    );
    assert_eq!(
        facts.parse_condition("my_fact < -2"),
        Ok(Condition::Lt(my_fact, Value::Int(-2)))
    );
    assert_eq!(
        facts.parse_condition("my_fact >= 0"),
        Ok(Condition::Ge(my_fact, Value::Int(0)))
    );
    assert_eq!(
        facts.parse_condition("  my_fact\t<= 10 "),
        Ok(Condition::Le(my_fact, Value::Int(10)))
    );
}

#[test]
fn parse_condition_reports_each_error() {
    let mut facts = FactMap::new();
    facts.new_fact(String::from("my_fact")).expect("ok");
    assert_eq!(
        facts.parse_condition("my_fact =="),
        Err(ParseConditionError::WrongFieldCount)
    );
    assert_eq!(
        facts.parse_condition("my_fact == 3 extra"),
        Err(ParseConditionError::WrongFieldCount)
    );
    assert_eq!(
        facts.parse_condition("unknown == 3"),
        Err(ParseConditionError::LhsNotAFactId)
    );
    assert_eq!(
        facts.parse_condition("my_fact ~ 3"),
        Err(ParseConditionError::UnrecognizedOperator)
    );
    assert_eq!(
        facts.parse_condition("my_fact == bogus"),
        Err(ParseConditionError::RhsNotAFactNameOrId)
    );
}
