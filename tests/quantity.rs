use cookcore::ast;
use cookcore::convert::{ConvertError, Converter, PhysicalQuantity, Unit, UnitSystem};
use cookcore::quantity::{
    IncompatibleUnits, Quantity, QuantityAddError, QuantityValue, ScalableValue, UnitInfo, UnitSide,
    Value,
};

fn unit(name: &str, pq: PhysicalQuantity, system: UnitSystem, ratio: u64) -> Unit {
    Unit { name: name.to_string(), physical_quantity: pq, system, ratio }
}

fn converter() -> Converter {
    Converter::new(vec![
        unit("g", PhysicalQuantity::Mass, UnitSystem::Metric, 1),
        unit("kg", PhysicalQuantity::Mass, UnitSystem::Metric, 1000),
        unit("ml", PhysicalQuantity::Volume, UnitSystem::Metric, 1),
        unit("l", PhysicalQuantity::Volume, UnitSystem::Metric, 1000),
        unit("oz", PhysicalQuantity::Mass, UnitSystem::Imperial, 28),
    ])
    .unwrap()
}

fn num(v: &Value) -> i64 {
    match v {
        Value::Number(n) => *n,
        _ => panic!("not a number"),
    }
}

fn fixed(n: i64) -> QuantityValue {
    QuantityValue::Fixed(Value::Number(n))
}

#[test]
fn numbers_add() {
    let r = Value::Number(1500).try_add(&Value::Number(250));
    assert!(matches!(r, Ok(Value::Number(1750))));
    let r = Value::Number(-2000).try_add(&Value::Number(500));
    assert!(matches!(r, Ok(Value::Number(-1500))));
}

#[test]
fn range_shifts_by_number_on_either_side() {
    let r = Value::Range { start: 1000, end: 3000 }.try_add(&Value::Number(500));
    assert!(matches!(r, Ok(Value::Range { start: 1500, end: 3500 })));
    let r = Value::Number(500).try_add(&Value::Range { start: 1000, end: 3000 });
    assert!(matches!(r, Ok(Value::Range { start: 1500, end: 3500 })));
}

#[test]
fn ranges_add_end_by_end() {
    let r = Value::Range { start: 1000, end: 2000 }.try_add(&Value::Range { start: 10, end: 20 });
    assert!(matches!(r, Ok(Value::Range { start: 1010, end: 2020 })));
}

#[test]
fn text_operand_fails_with_the_text() {
    let t = Value::Text("a pinch".to_string());
    for other in [Value::Number(1), Value::Range { start: 1, end: 2 }, Value::Text("x".to_string())] {
        match t.try_add(&other) {
            Err(e) => assert!(matches!(e.0, Value::Text(ref s) if s == "a pinch")),
            Ok(_) => panic!("text added"),
        }
    }
    match Value::Number(3).try_add(&Value::Text("some".to_string())) {
        Err(e) => assert!(matches!(e.0, Value::Text(ref s) if s == "some")),
        Ok(_) => panic!("text added"),
    }
}

#[test]
fn extract_value_fixed_and_scalable() {
    let f = fixed(2000);
    assert!(matches!(f.extract_value(), Ok(Value::Number(2000))));
    let l = QuantityValue::Scalable(ScalableValue::Linear(Value::Number(1)));
    assert!(matches!(l.extract_value(), Err(e) if matches!(e.0, ScalableValue::Linear(Value::Number(1)))));
    let b = QuantityValue::Scalable(ScalableValue::ByServings(vec![Value::Number(1), Value::Number(2)]));
    match b.extract_value() {
        Err(e) => assert!(matches!(e.0, ScalableValue::ByServings(ref v) if v.len() == 2)),
        Ok(_) => panic!("scalable extracted"),
    }
}

#[test]
fn contains_text_value_looks_everywhere() {
    assert!(!fixed(1).contains_text_value());
    assert!(QuantityValue::Fixed(Value::Text("a".to_string())).contains_text_value());
    assert!(QuantityValue::Scalable(ScalableValue::Linear(Value::Text("a".to_string()))).contains_text_value());
    let b = QuantityValue::Scalable(ScalableValue::ByServings(vec![
        Value::Number(1),
        Value::Text("b".to_string()),
    ]));
    assert!(b.contains_text_value());
    let c = QuantityValue::Scalable(ScalableValue::ByServings(vec![Value::Number(1), Value::Number(2)]));
    assert!(!c.contains_text_value());
}

#[test]
fn from_ast_modes() {
    let a = QuantityValue::from_ast(ast::QuantityValue::Single { value: Value::Number(1), auto_scale: false });
    assert!(matches!(a, QuantityValue::Fixed(Value::Number(1))));
    let b = QuantityValue::from_ast(ast::QuantityValue::Single { value: Value::Number(1), auto_scale: true });
    assert!(matches!(b, QuantityValue::Scalable(ScalableValue::Linear(Value::Number(1)))));
    let c = QuantityValue::from_ast(ast::QuantityValue::Many(vec![Value::Number(1), Value::Number(2)]));
    assert!(matches!(c, QuantityValue::Scalable(ScalableValue::ByServings(ref v)) if v.len() == 2));
}

#[test]
fn quantity_values_add_and_fail() {
    assert!(matches!(fixed(1000).try_add(&fixed(2000)), Ok(QuantityValue::Fixed(Value::Number(3000)))));
    let s = QuantityValue::Scalable(ScalableValue::Linear(Value::Number(1)));
    assert!(matches!(s.try_add(&fixed(1)), Err(QuantityAddError::NotScaled(_))));
    assert!(matches!(fixed(1).try_add(&s), Err(QuantityAddError::NotScaled(_))));
    let t = QuantityValue::Fixed(Value::Text("x".to_string()));
    assert!(matches!(fixed(1).try_add(&t), Err(QuantityAddError::Value(_))));
    assert!(matches!(fixed(i64::MAX).try_add(&fixed(1)), Err(QuantityAddError::Overflow)));
}

#[test]
fn unit_info_resolves_first_match() {
    let c = converter();
    assert_eq!(UnitInfo::new("kg", &c), UnitInfo::Known(1));
    assert_eq!(UnitInfo::new("cup", &c), UnitInfo::Unknown);
    assert_eq!(c.get_unit("l"), Some(3));
}

#[test]
fn converter_rejects_zero_ratio() {
    assert!(Converter::new(vec![unit("x", PhysicalQuantity::Time, UnitSystem::Metric, 0)]).is_none());
}

#[test]
fn unitless_are_compatible() {
    let c = converter();
    let mut a = Quantity::unitless(fixed(1));
    let mut b = Quantity::unitless(fixed(2));
    assert!(matches!(a.is_compatible(&mut b, &c), Ok(None)));
}

#[test]
fn one_unitless_names_the_side_with_unit() {
    let c = converter();
    let mut a = Quantity::new(fixed(1), Some("g".to_string()));
    let mut b = Quantity::unitless(fixed(2));
    match a.is_compatible(&mut b, &c) {
        Err(IncompatibleUnits::MissingUnit { found: UnitSide::Left(t) }) => assert_eq!(t, "g"),
        _ => panic!("expected a missing unit on the right"),
    }
    match b.is_compatible(&mut a, &c) {
        Err(IncompatibleUnits::MissingUnit { found: UnitSide::Right(t) }) => assert_eq!(t, "g"),
        _ => panic!("expected a missing unit on the left"),
    }
}

#[test]
fn different_physical_quantities() {
    let c = converter();
    let mut a = Quantity::new(fixed(1), Some("g".to_string()));
    let mut b = Quantity::new(fixed(2), Some("ml".to_string()));
    match a.is_compatible(&mut b, &c) {
        Err(IncompatibleUnits::DifferentPhysicalQuantities { a, b }) => {
            assert_eq!(a, PhysicalQuantity::Mass);
            assert_eq!(b, PhysicalQuantity::Volume);
        },
        _ => panic!("expected different physical quantities"),
    }
}

#[test]
fn unknown_units_compare_by_text() {
    let c = converter();
    let mut a = Quantity::new(fixed(1), Some("cup".to_string()));
    let mut b = Quantity::new(fixed(2), Some("cup".to_string()));
    assert!(matches!(a.is_compatible(&mut b, &c), Ok(None)));
    let mut d = Quantity::new(fixed(2), Some("tbsp".to_string()));
    match a.is_compatible(&mut d, &c) {
        Err(IncompatibleUnits::UnknownDifferentUnits { a, b }) => {
            assert_eq!(a, "cup");
            assert_eq!(b, "tbsp");
        },
        _ => panic!("expected unknown different units"),
    }
}

#[test]
fn known_units_give_left_unit_and_cache_resolution() {
    let c = converter();
    let mut a = Quantity::new(fixed(1), Some("kg".to_string()));
    let mut b = Quantity::new(fixed(2), Some("g".to_string()));
    assert_eq!(a.unit_info(), None);
    assert!(matches!(a.is_compatible(&mut b, &c), Ok(Some(1))));
    assert_eq!(a.unit_info(), Some(UnitInfo::Known(1)));
    assert_eq!(b.unit_info(), Some(UnitInfo::Known(0)));
}

#[test]
fn with_known_unit_skips_resolution() {
    let c = converter();
    let mut a = Quantity::with_known_unit(fixed(1), "g".to_string(), None);
    let mut b = Quantity::new(fixed(1), Some("g".to_string()));
    assert_eq!(a.unit_info(), Some(UnitInfo::Unknown));
    // the left unit is taken as unknown, so the texts decide
    assert!(matches!(a.is_compatible(&mut b, &c), Ok(None)));
    let p = Quantity::new_and_parse(fixed(1), Some("ml".to_string()), &c);
    assert_eq!(p.unit_info(), Some(UnitInfo::Known(2)));
    assert_eq!(p.unit_text(), Some("ml"));
}

#[test]
fn add_converts_right_into_left_unit() {
    let c = converter();
    let mut a = Quantity::new(fixed(1000), Some("kg".to_string()));
    let mut b = Quantity::new(fixed(500_000), Some("g".to_string()));
    let s = a.try_add(&mut b, &c).ok().unwrap();
    assert_eq!(num(s.value.extract_value().ok().unwrap()), 1500);
    assert_eq!(s.unit_text(), Some("kg"));
    assert_eq!(s.unit_info(), Some(UnitInfo::Known(1)));
}

#[test]
fn add_errors() {
    let c = converter();
    let mut a = Quantity::new(fixed(1), Some("g".to_string()));
    let mut b = Quantity::new(fixed(1), Some("l".to_string()));
    assert!(matches!(a.try_add(&mut b, &c), Err(QuantityAddError::IncompatibleUnits(_))));
    let mut t = Quantity::new(QuantityValue::Fixed(Value::Text("x".to_string())), Some("kg".to_string()));
    assert!(matches!(a.try_add(&mut t, &c), Err(QuantityAddError::Convert(ConvertError::TextValue))));
    let mut u = Quantity::unitless(fixed(1));
    let mut v = Quantity::unitless(QuantityValue::Fixed(Value::Text("y".to_string())));
    assert!(matches!(u.try_add(&mut v, &c), Err(QuantityAddError::Value(_))));
}

#[test]
fn fit_moves_to_larger_unit() {
    let c = converter();
    let mut q = Quantity::new_and_parse(fixed(1_500_000), Some("g".to_string()), &c);
    q.fit(&c);
    assert_eq!(q.unit_text(), Some("kg"));
    assert_eq!(num(q.value.extract_value().ok().unwrap()), 1500);
}

#[test]
fn fit_leaves_small_and_unresolved_alone() {
    let c = converter();
    let mut q = Quantity::new_and_parse(fixed(500), Some("kg".to_string()), &c);
    q.fit(&c);
    assert_eq!(q.unit_text(), Some("g"));
    assert_eq!(num(q.value.extract_value().ok().unwrap()), 500_000);
    let mut r = Quantity::new(fixed(1_500_000), Some("g".to_string()));
    r.fit(&c);
    assert_eq!(r.unit_text(), Some("g"));
    let mut s = Quantity::new_and_parse(fixed(1_500_000), Some("cup".to_string()), &c);
    s.fit(&c);
    assert_eq!(s.unit_text(), Some("cup"));
}

#[test]
fn conversion_overflow_and_bad_handle() {
    let c = converter();
    let mut a = Quantity::new(fixed(1), Some("g".to_string()));
    let mut b = Quantity::new(fixed(i64::MAX), Some("kg".to_string()));
    assert!(matches!(a.try_add(&mut b, &c), Err(QuantityAddError::Convert(ConvertError::Overflow))));
    assert!(matches!(c.convert(&fixed(1), 0, 99), Err(ConvertError::UnknownHandle)));
}

#[test]
fn conversion_rounds_toward_zero() {
    let c = converter();
    // 1234.5 g is 1.2345 kg, which keeps three decimals: 1.234
    assert!(matches!(c.convert_value(&Value::Number(1_234_500), 0, 1), Ok(Value::Number(1234))));
    assert!(matches!(c.convert_value(&Value::Number(-1_234_500), 0, 1), Ok(Value::Number(-1234))));
    assert!(matches!(
        c.convert_value(&Value::Range { start: 1000, end: 2000 }, 1, 0),
        Ok(Value::Range { start: 1_000_000, end: 2_000_000 })
    ));
}

#[test]
fn best_unit_stays_in_class() {
    let c = converter();
    assert_eq!(c.best_unit(0, 2_000_000), 1);
    assert_eq!(c.best_unit(0, 999), 0);
    assert_eq!(c.best_unit(2, 5_000_000), 3);
    assert_eq!(c.best_unit(4, 1_000_000), 4);
}

#[test]
fn scalable_values_convert_each_serving() {
    let c = converter();
    let v = QuantityValue::Scalable(ScalableValue::ByServings(vec![Value::Number(1000), Value::Number(2000)]));
    match c.convert(&v, 1, 0) {
        Ok(QuantityValue::Scalable(ScalableValue::ByServings(w))) => {
            assert_eq!(num(&w[0]), 1_000_000);
            assert_eq!(num(&w[1]), 2_000_000);
        },
        _ => panic!("expected converted servings"),
    }
}

#[test]
fn units_equal_by_text_only() {
    let c = converter();
    let a = Quantity::new_and_parse(fixed(1), Some("g".to_string()), &c);
    let b = Quantity::new(fixed(2), Some("g".to_string()));
    let d = Quantity::new(fixed(2), Some("kg".to_string()));
    assert!(a.unit().unwrap() == b.unit().unwrap());
    assert!(a.unit().unwrap() != d.unit().unwrap());
}

#[test]
fn conversion_error_is_the_first_failing_value() {
    let c = converter();
    let v = QuantityValue::Scalable(ScalableValue::ByServings(vec![
        Value::Number(1),
        Value::Text("x".to_string()),
        Value::Number(i64::MAX),
    ]));
    assert!(matches!(c.convert(&v, 1, 0), Err(ConvertError::TextValue)));
    let w = QuantityValue::Scalable(ScalableValue::ByServings(vec![
        Value::Number(i64::MAX),
        Value::Text("x".to_string()),
    ]));
    assert!(matches!(c.convert(&w, 1, 0), Err(ConvertError::Overflow)));
}
