use cookcore::ast;
use cookcore::quantity::{Quantity, QuantityValue, ScalableValue, Value};

#[test]
fn numbers_are_written_with_three_decimals_at_most() {
    assert_eq!(Value::Number(1500).to_text(), "1.5");
    assert_eq!(Value::Number(2000).to_text(), "2");
    assert_eq!(Value::Number(1234).to_text(), "1.234");
    assert_eq!(Value::Number(1050).to_text(), "1.05");
    assert_eq!(Value::Number(-500).to_text(), "-0.5");
    assert_eq!(Value::Number(0).to_text(), "0");
    assert_eq!(Value::Number(12_345_007).to_text(), "12345.007");
}

#[test]
fn ranges_and_text() {
    assert_eq!(Value::Range { start: 1000, end: 2500 }.to_text(), "1-2.5");
    assert_eq!(Value::Text("a pinch".to_string()).to_text(), "a pinch");
}

#[test]
fn servings_joined_with_bar() {
    let v = ScalableValue::ByServings(vec![Value::Number(1000), Value::Number(2000), Value::Number(3500)]);
    assert_eq!(v.to_text(), "1|2|3.5");
}

#[test]
fn quantity_with_and_without_unit() {
    let q = Quantity::new(QuantityValue::Fixed(Value::Number(250)), Some("g".to_string()));
    assert_eq!(q.to_text(), "0.25 g");
    let u = Quantity::unitless(QuantityValue::Fixed(Value::Number(3000)));
    assert_eq!(u.to_text(), "3");
}

#[test]
fn servings_round_trip() {
    let values = vec![Value::Number(1000), Value::Range { start: 2000, end: 3000 }, Value::Text("lots".to_string())];
    let expected: Vec<String> = values.iter().map(|v| v.to_text()).collect();
    let q = QuantityValue::from_ast(ast::QuantityValue::Many(values));
    let text = q.to_text();
    let tokens: Vec<&str> = text.split('|').collect();
    assert_eq!(tokens.len(), 3);
    assert_eq!(tokens, expected);
}
