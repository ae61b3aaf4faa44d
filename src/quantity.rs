//! Recipe quantities: values, scaling modes, units and their algebra.
//!
//! Numbers are fixed-point: a `Number(n)` stands for `n / 1000`, so that
//! three decimal places are kept exactly.
use vstd::prelude::*;

use crate::ast;
use crate::convert::{
    ConvertError, Converter, PhysicalQuantity, is_best_unit, qvalue_convert_error,
    qvalue_convertible, qvalue_converted, unit_index_from,
};

verus! {

/// One measured amount.
pub enum Value {
    /// A number, in thousandths.
    Number(i64),
    /// An inclusive range, in thousandths.
    Range { start: i64, end: i64 },
    /// Free text, which takes part in no arithmetic.
    Text(String),
}

/// An amount that depends on the number of servings.
pub enum ScalableValue {
    /// One value, scaled in proportion to the servings.
    Linear(Value),
    /// One value per serving count, never empty.
    ByServings(Vec<Value>),
}

/// A value that is either fixed or scalable.
pub enum QuantityValue {
    Fixed(Value),
    Scalable(ScalableValue),
}

/// Error of an addition with a text operand; holds that operand.
pub struct TextValueError(pub Value);

/// Error of an operation that needs a fixed value; holds the scalable one.
pub struct NotScaled(pub ScalableValue);

pub open spec fn fits_i64(x: int) -> bool {
    i64::MIN <= x <= i64::MAX
}

/// Some value of the sequence is text.
pub open spec fn has_text(vs: Seq<Value>) -> bool {
    exists|i: int| 0 <= i < vs.len() && (#[trigger] vs[i]).spec_is_text()
}

fn any_text(vs: &Vec<Value>) -> (r: bool)
    ensures
        r == has_text(vs@),
{
    let mut i: usize = 0;
    while i < vs.len()
        invariant
            i <= vs.len(),
            forall|j: int| 0 <= j < i ==> !(#[trigger] vs@[j]).spec_is_text(),
        decreases vs.len() - i,
    {
        if vs[i].is_text() {
            assert(vs@[i as int].spec_is_text());
            return true;
        }
        i = i + 1;
    }
    false
}

impl Value {
    pub open spec fn spec_is_text(&self) -> bool {
        self is Text
    }

    pub fn is_text(&self) -> (r: bool)
        ensures
            r == self.spec_is_text(),
    {
        match self {
            Value::Text(_) => true,
            _ => false,
        }
    }

    /// A copy of the value.
    pub fn duplicate(&self) -> (r: Value)
        ensures
            r == *self,
    {
        match self {
            Value::Number(n) => Value::Number(*n),
            Value::Range { start, end } => Value::Range { start: *start, end: *end },
            Value::Text(t) => Value::Text(t.clone()),
        }
    }

    /// The sum of two values as mathematical integers (thousandths), or the
    /// text operand that makes the sum undefined. The left operand is
    /// reported first.
    pub open spec fn sum(self, rhs: Value) -> Result<(int, int, bool), Value> {
        match (self, rhs) {
            (Value::Text(_), _) => Err(self),
            (_, Value::Text(_)) => Err(rhs),
            (Value::Number(a), Value::Number(b)) => Ok((a + b, a + b, false)),
            (Value::Number(n), Value::Range { start, end }) => Ok((start + n, end + n, true)),
            (Value::Range { start, end }, Value::Number(n)) => Ok((start + n, end + n, true)),
            (Value::Range { start: s1, end: e1 }, Value::Range { start: s2, end: e2 }) => Ok(
                (s1 + s2, e1 + e2, true),
            ),
        }
    }

    /// The sum fits the fixed-point representation (or there is a text operand).
    pub open spec fn add_fits(self, rhs: Value) -> bool {
        match self.sum(rhs) {
            Ok((a, b, _)) => fits_i64(a) && fits_i64(b),
            Err(_) => true,
        }
    }

    /// What `try_add` returns.
    pub open spec fn spec_add(self, rhs: Value) -> Result<Value, TextValueError>
        recommends
            self.add_fits(rhs),
    {
        match self.sum(rhs) {
            Ok((a, b, is_range)) => if is_range {
                Ok(Value::Range { start: a as i64, end: b as i64 })
            } else {
                Ok(Value::Number(a as i64))
            },
            Err(t) => Err(TextValueError(t)),
        }
    }

    pub fn check_add_fits(&self, rhs: &Value) -> (r: bool)
        ensures
            r == self.add_fits(*rhs),
    {
        match (self, rhs) {
            (Value::Text(_), _) | (_, Value::Text(_)) => true,
            (Value::Number(a), Value::Number(b)) => a.checked_add(*b).is_some(),
            (Value::Number(n), Value::Range { start, end })
            | (Value::Range { start, end }, Value::Number(n)) => {
                start.checked_add(*n).is_some() && end.checked_add(*n).is_some()
            },
            (Value::Range { start: s1, end: e1 }, Value::Range { start: s2, end: e2 }) => {
                s1.checked_add(*s2).is_some() && e1.checked_add(*e2).is_some()
            },
        }
    }

    /// Adds two values: numbers add, a number shifts both ends of a range,
    /// ranges add end by end; a text operand is an error that carries it.
    pub fn try_add(&self, rhs: &Value) -> (r: Result<Value, TextValueError>)
        requires
            self.add_fits(*rhs),
        ensures
            r == self.spec_add(*rhs),
    {
        match (self, rhs) {
            (Value::Text(_), _) => Err(TextValueError(self.duplicate())),
            (_, Value::Text(_)) => Err(TextValueError(rhs.duplicate())),
            (Value::Number(a), Value::Number(b)) => Ok(Value::Number(*a + *b)),
            (Value::Number(n), Value::Range { start, end })
            | (Value::Range { start, end }, Value::Number(n)) => Ok(
                Value::Range { start: *start + *n, end: *end + *n },
            ),
            (Value::Range { start: s1, end: e1 }, Value::Range { start: s2, end: e2 }) => Ok(
                Value::Range { start: *s1 + *s2, end: *e1 + *e2 },
            ),
        }
    }
}

impl ScalableValue {
    /// The two values hold the same values in the same mode.
    pub open spec fn same_as(self, other: ScalableValue) -> bool {
        match (self, other) {
            (ScalableValue::Linear(a), ScalableValue::Linear(b)) => a == b,
            (ScalableValue::ByServings(a), ScalableValue::ByServings(b)) => a@ == b@,
            _ => false,
        }
    }

    pub open spec fn spec_contains_text(self) -> bool {
        match self {
            ScalableValue::Linear(v) => v.spec_is_text(),
            ScalableValue::ByServings(vs) => has_text(vs@),
        }
    }

    pub fn duplicate(&self) -> (r: ScalableValue)
        ensures
            r.same_as(*self),
    {
        match self {
            ScalableValue::Linear(v) => ScalableValue::Linear(v.duplicate()),
            ScalableValue::ByServings(vs) => {
                let mut out: Vec<Value> = Vec::new();
                let mut i: usize = 0;
                while i < vs.len()
                    invariant
                        i <= vs.len(),
                        out@ == vs@.subrange(0, i as int),
                    decreases vs.len() - i,
                {
                    out.push(vs[i].duplicate());
                    i = i + 1;
                }
                assert(out@ == vs@);
                ScalableValue::ByServings(out)
            },
        }
    }
}

impl QuantityValue {
    pub open spec fn spec_contains_text(&self) -> bool {
        match self {
            QuantityValue::Fixed(v) => v.spec_is_text(),
            QuantityValue::Scalable(s) => s.spec_contains_text(),
        }
    }

    /// Whether any value reachable from this one is text.
    pub fn contains_text_value(&self) -> (r: bool)
        ensures
            r == self.spec_contains_text(),
    {
        match self {
            QuantityValue::Fixed(v) => v.is_text(),
            QuantityValue::Scalable(ScalableValue::Linear(v)) => v.is_text(),
            QuantityValue::Scalable(ScalableValue::ByServings(vs)) => any_text(vs),
        }
    }

    /// The plain value of a fixed quantity value; a scalable one is an error
    /// that carries it.
    pub fn extract_value(&self) -> (r: Result<&Value, NotScaled>)
        ensures
            match self {
                QuantityValue::Fixed(v) => r == Ok::<&Value, NotScaled>(v),
                QuantityValue::Scalable(s) => r is Err && r->Err_0.0.same_as(*s),
            },
    {
        match self {
            QuantityValue::Fixed(v) => Ok(v),
            QuantityValue::Scalable(s) => Err(NotScaled(s.duplicate())),
        }
    }

    /// Maps a parsed quantity: a single value is fixed unless marked to scale
    /// automatically, and a list of values is one value per serving count.
    pub fn from_ast(value: ast::QuantityValue) -> (r: QuantityValue)
        ensures
            r == QuantityValue::spec_from_ast(value),
    {
        match value {
            ast::QuantityValue::Single { value, auto_scale } => if auto_scale {
                QuantityValue::Scalable(ScalableValue::Linear(value))
            } else {
                QuantityValue::Fixed(value)
            },
            ast::QuantityValue::Many(vs) => QuantityValue::Scalable(ScalableValue::ByServings(vs)),
        }
    }

    pub open spec fn spec_from_ast(value: ast::QuantityValue) -> QuantityValue {
        match value {
            ast::QuantityValue::Single { value, auto_scale } => if auto_scale {
                QuantityValue::Scalable(ScalableValue::Linear(value))
            } else {
                QuantityValue::Fixed(value)
            },
            ast::QuantityValue::Many(vs) => QuantityValue::Scalable(ScalableValue::ByServings(vs)),
        }
    }
}

/// What a unit's text resolved to: a handle into the converter's table, or
/// nothing known.
#[derive(Clone, Copy, PartialEq, Eq, Structural, Debug)]
pub enum UnitInfo {
    Known(usize),
    Unknown,
}

/// A unit as written, with its resolution once it has been made.
pub struct QuantityUnit {
    text: String,
    info: Option<UnitInfo>,
}

/// A value with an optional unit; no unit means dimensionless.
pub struct Quantity {
    pub value: QuantityValue,
    pub unit: Option<QuantityUnit>,
}

/// The side of an addition that had a unit while the other had none.
pub enum UnitSide {
    Left(String),
    Right(String),
}

/// Why two quantities cannot be combined.
pub enum IncompatibleUnits {
    MissingUnit { found: UnitSide },
    DifferentPhysicalQuantities { a: PhysicalQuantity, b: PhysicalQuantity },
    UnknownDifferentUnits { a: String, b: String },
}

/// Why two quantities cannot be added.
pub enum QuantityAddError {
    IncompatibleUnits(IncompatibleUnits),
    Value(TextValueError),
    Convert(ConvertError),
    NotScaled(NotScaled),
    /// The sum does not fit the fixed-point representation.
    Overflow,
}

/// What the unit named `text` resolves to in the converter.
pub open spec fn resolve(c: Converter, text: Seq<char>) -> UnitInfo {
    match unit_index_from(c.spec_units(), text, 0) {
        Some(i) => UnitInfo::Known(i),
        None => UnitInfo::Unknown,
    }
}

/// The handle, if any, names a unit of the converter.
pub open spec fn info_in(i: UnitInfo, c: Converter) -> bool {
    match i {
        UnitInfo::Known(k) => k < c.spec_units().len(),
        UnitInfo::Unknown => true,
    }
}

impl UnitInfo {
    /// Resolves a unit's text through the converter.
    pub fn new(text: &str, converter: &Converter) -> (r: UnitInfo)
        ensures
            r == resolve(*converter, text@),
            info_in(r, *converter),
    {
        match converter.get_unit(text) {
            Some(i) => UnitInfo::Known(i),
            None => UnitInfo::Unknown,
        }
    }
}

impl QuantityUnit {
    pub closed spec fn spec_text(&self) -> String {
        self.text
    }

    pub closed spec fn spec_info(&self) -> Option<UnitInfo> {
        self.info
    }

    /// The resolution that this unit has, or gets on first use.
    pub open spec fn info_of(&self, c: Converter) -> UnitInfo {
        match self.spec_info() {
            Some(i) => i,
            None => resolve(c, self.spec_text()@),
        }
    }

    /// The same unit with its resolution made.
    pub closed spec fn resolved(self, c: Converter) -> QuantityUnit {
        QuantityUnit { text: self.text, info: Some(self.info_of(c)) }
    }

    pub proof fn lemma_resolved(self, c: Converter)
        ensures
            self.resolved(c).spec_text() == self.spec_text(),
            self.resolved(c).spec_info() == Some(self.info_of(c)),
    {
    }

    /// A resolution that is present names a unit of the converter.
    pub open spec fn info_ok(&self, c: Converter) -> bool {
        match self.spec_info() {
            Some(i) => info_in(i, c),
            None => true,
        }
    }

    pub fn text(&self) -> (r: &str)
        ensures
            r@ == self.spec_text()@,
    {
        self.text.as_str()
    }

    /// The resolution, if it has been made.
    pub fn unit(&self) -> (r: Option<UnitInfo>)
        ensures
            r == self.spec_info(),
    {
        self.info
    }

    /// The resolution; the first call makes it through the converter and
    /// keeps it, later calls return what was kept.
    pub fn unit_or_parse(&mut self, converter: &Converter) -> (r: UnitInfo)
        ensures
            r == old(self).info_of(*converter),
            *final(self) == old(self).resolved(*converter),
            old(self).info_ok(*converter) ==> info_in(r, *converter),
    {
        match self.info {
            Some(i) => i,
            None => {
                let i = UnitInfo::new(self.text.as_str(), converter);
                self.info = Some(i);
                i
            },
        }
    }

    pub fn duplicate(&self) -> (r: QuantityUnit)
        ensures
            r == *self,
    {
        QuantityUnit { text: self.text.clone(), info: self.info }
    }
}

/// Units are equal when they are written the same, resolved or not.
impl PartialEq for QuantityUnit {
    fn eq(&self, other: &QuantityUnit) -> (r: bool) {
        self.text == other.text
    }
}

impl vstd::std_specs::cmp::PartialEqSpecImpl for QuantityUnit {
    open spec fn obeys_eq_spec() -> bool {
        true
    }

    open spec fn eq_spec(&self, other: &QuantityUnit) -> bool {
        self.spec_text()@ == other.spec_text()@
    }
}

/// The outcome of adding two quantity values, as a relation on the result:
/// both must be fixed, the left checked first; then the plain values add.
pub open spec fn qvalue_sum(a: QuantityValue, b: QuantityValue, r: Result<QuantityValue, QuantityAddError>) -> bool {
    match (a, b) {
        (QuantityValue::Scalable(s), _) => r is Err && r->Err_0 is NotScaled && r->Err_0->NotScaled_0.0.same_as(s),
        (QuantityValue::Fixed(_), QuantityValue::Scalable(s)) => r is Err && r->Err_0 is NotScaled
            && r->Err_0->NotScaled_0.0.same_as(s),
        (QuantityValue::Fixed(x), QuantityValue::Fixed(y)) => if !x.add_fits(y) {
            r == Err::<QuantityValue, QuantityAddError>(QuantityAddError::Overflow)
        } else {
            match x.spec_add(y) {
                Ok(v) => r == Ok::<QuantityValue, QuantityAddError>(QuantityValue::Fixed(v)),
                Err(e) => r == Err::<QuantityValue, QuantityAddError>(QuantityAddError::Value(e)),
            }
        },
    }
}

impl QuantityValue {
    /// Adds two fixed values; a scalable operand is an error.
    pub fn try_add(&self, rhs: &QuantityValue) -> (r: Result<QuantityValue, QuantityAddError>)
        ensures
            qvalue_sum(*self, *rhs, r),
    {
        let a = match self.extract_value() {
            Ok(a) => a,
            Err(e) => return Err(QuantityAddError::NotScaled(e)),
        };
        let b = match rhs.extract_value() {
            Ok(b) => b,
            Err(e) => return Err(QuantityAddError::NotScaled(e)),
        };
        if !a.check_add_fits(b) {
            return Err(QuantityAddError::Overflow);
        }
        match a.try_add(b) {
            Ok(v) => Ok(QuantityValue::Fixed(v)),
            Err(e) => Err(QuantityAddError::Value(e)),
        }
    }
}

/// Whether two units (or their absence) are compatible, and the unit to
/// convert to when they are.
pub open spec fn compat(a: Option<QuantityUnit>, b: Option<QuantityUnit>, c: Converter) -> Result<Option<usize>, IncompatibleUnits> {
    match (a, b) {
        (None, None) => Ok(None),
        (None, Some(u)) => Err(IncompatibleUnits::MissingUnit { found: UnitSide::Right(u.spec_text()) }),
        (Some(u), None) => Err(IncompatibleUnits::MissingUnit { found: UnitSide::Left(u.spec_text()) }),
        (Some(x), Some(y)) => match (x.info_of(c), y.info_of(c)) {
            (UnitInfo::Known(i), UnitInfo::Known(j)) => {
                let (pa, pb) = (c.spec_units()[i as int].physical_quantity, c.spec_units()[j as int].physical_quantity);
                if pa != pb {
                    Err(IncompatibleUnits::DifferentPhysicalQuantities { a: pa, b: pb })
                } else {
                    Ok(Some(i))
                }
            },
            _ => if x.spec_text()@ != y.spec_text()@ {
                Err(IncompatibleUnits::UnknownDifferentUnits { a: x.spec_text(), b: y.spec_text() })
            } else {
                Ok(None)
            },
        },
    }
}

/// A unit after a compatibility check: resolved when both sides had one.
pub open spec fn after_check(u: Option<QuantityUnit>, other: Option<QuantityUnit>, c: Converter) -> Option<QuantityUnit> {
    match (u, other) {
        (Some(x), Some(_)) => Some(x.resolved(c)),
        _ => u,
    }
}

pub open spec fn lift(r: Result<Quantity, QuantityAddError>) -> Result<QuantityValue, QuantityAddError> {
    match r {
        Ok(q) => Ok(q.value),
        Err(e) => Err(e),
    }
}

impl Quantity {
    pub open spec fn spec_unit(&self) -> Option<QuantityUnit> {
        self.unit
    }

    /// Every resolution present names a unit of the converter.
    pub open spec fn infos_ok(&self, c: Converter) -> bool {
        match self.spec_unit() {
            Some(u) => u.info_ok(c),
            None => true,
        }
    }

    /// A quantity whose unit is resolved on first use.
    pub fn new(value: QuantityValue, unit: Option<String>) -> (r: Quantity)
        ensures
            r.value == value,
            match unit {
                Some(t) => r.spec_unit() is Some && r.spec_unit()->Some_0.spec_text() == t
                    && r.spec_unit()->Some_0.spec_info() is None,
                None => r.spec_unit() is None,
            },
    {
        let unit = match unit {
            Some(text) => Some(QuantityUnit { text, info: None }),
            None => None,
        };
        Quantity { value, unit }
    }

    /// A quantity whose unit is resolved at once.
    pub fn new_and_parse(value: QuantityValue, unit: Option<String>, converter: &Converter) -> (r: Quantity)
        ensures
            r.value == value,
            r.infos_ok(*converter),
            match unit {
                Some(t) => r.spec_unit() is Some && r.spec_unit()->Some_0.spec_text() == t
                    && r.spec_unit()->Some_0.spec_info() == Some(resolve(*converter, t@)),
                None => r.spec_unit() is None,
            },
    {
        let unit = match unit {
            Some(text) => {
                let info = UnitInfo::new(text.as_str(), converter);
                Some(QuantityUnit { text, info: Some(info) })
            },
            None => None,
        };
        Quantity { value, unit }
    }

    /// A quantity whose unit's resolution is given.
    pub fn with_known_unit(value: QuantityValue, unit_text: String, unit: Option<usize>) -> (r: Quantity)
        ensures
            r.value == value,
            r.spec_unit() is Some,
            r.spec_unit()->Some_0.spec_text() == unit_text,
            r.spec_unit()->Some_0.spec_info() == Some(
                match unit {
                    Some(k) => UnitInfo::Known(k),
                    None => UnitInfo::Unknown,
                },
            ),
    {
        let info = match unit {
            Some(k) => UnitInfo::Known(k),
            None => UnitInfo::Unknown,
        };
        Quantity { value, unit: Some(QuantityUnit { text: unit_text, info: Some(info) }) }
    }

    pub fn unitless(value: QuantityValue) -> (r: Quantity)
        ensures
            r.value == value,
            r.spec_unit() is None,
    {
        Quantity { value, unit: None }
    }

    pub fn unit(&self) -> (r: Option<&QuantityUnit>)
        ensures
            match self.spec_unit() {
                Some(u) => r == Some(&u),
                None => r is None,
            },
    {
        match &self.unit {
            Some(u) => Some(u),
            None => None,
        }
    }

    pub fn unit_text(&self) -> (r: Option<&str>)
        ensures
            match self.spec_unit() {
                Some(u) => r is Some && r->Some_0@ == u.spec_text()@,
                None => r is None,
            },
    {
        match &self.unit {
            Some(u) => Some(u.text.as_str()),
            None => None,
        }
    }

    /// The unit's resolution, if there is a unit and it has been resolved.
    pub fn unit_info(&self) -> (r: Option<UnitInfo>)
        ensures
            match self.spec_unit() {
                Some(u) => r == u.spec_info(),
                None => r is None,
            },
    {
        match &self.unit {
            Some(u) => u.info,
            None => None,
        }
    }

    /// Checks that two quantities can be combined: both without unit, or
    /// both with units that are known and measure the same physical
    /// quantity, or that are not both known and are written the same. Gives
    /// the left unit to convert to when both are known. Resolves both units
    /// when both are present.
    pub fn is_compatible(&mut self, rhs: &mut Quantity, converter: &Converter) -> (r: Result<Option<usize>, IncompatibleUnits>)
        requires
            old(self).infos_ok(*converter),
            old(rhs).infos_ok(*converter),
        ensures
            r == compat(old(self).spec_unit(), old(rhs).spec_unit(), *converter),
            final(self).value == old(self).value,
            final(rhs).value == old(rhs).value,
            final(self).spec_unit() == after_check(old(self).spec_unit(), old(rhs).spec_unit(), *converter),
            final(rhs).spec_unit() == after_check(old(rhs).spec_unit(), old(self).spec_unit(), *converter),
            final(self).infos_ok(*converter),
            final(rhs).infos_ok(*converter),
    {
        match (&mut self.unit, &mut rhs.unit) {
            (None, None) => Ok(None),
            (None, Some(u)) => Err(IncompatibleUnits::MissingUnit { found: UnitSide::Right(u.text.clone()) }),
            (Some(u), None) => Err(IncompatibleUnits::MissingUnit { found: UnitSide::Left(u.text.clone()) }),
            (Some(a), Some(b)) => {
                let ia = a.unit_or_parse(converter);
                let ib = b.unit_or_parse(converter);
                match (ia, ib) {
                    (UnitInfo::Known(i), UnitInfo::Known(j)) => {
                        let pa = converter.units()[i].physical_quantity;
                        let pb = converter.units()[j].physical_quantity;
                        if pa != pb {
                            Err(IncompatibleUnits::DifferentPhysicalQuantities { a: pa, b: pb })
                        } else {
                            Ok(Some(i))
                        }
                    },
                    _ => {
                        if a.text != b.text {
                            Err(IncompatibleUnits::UnknownDifferentUnits { a: a.text.clone(), b: b.text.clone() })
                        } else {
                            Ok(None)
                        }
                    },
                }
            },
        }
    }

    /// Adds `rhs` to this quantity. The units must be compatible; when they
    /// are known, `rhs` is first converted to this quantity's unit. The sum
    /// keeps this quantity's unit.
    pub fn try_add(&mut self, rhs: &mut Quantity, converter: &Converter) -> (r: Result<Quantity, QuantityAddError>)
        requires
            converter.wf(),
            old(self).infos_ok(*converter),
            old(rhs).infos_ok(*converter),
        ensures
            ({
                let c = compat(old(self).spec_unit(), old(rhs).spec_unit(), *converter);
                match c {
                    Err(e) => r == Err::<Quantity, QuantityAddError>(QuantityAddError::IncompatibleUnits(e)),
                    Ok(None) => qvalue_sum(old(self).value, old(rhs).value, lift(r)),
                    Ok(Some(to)) => {
                        let from = old(rhs).spec_unit()->Some_0.info_of(*converter)->Known_0;
                        let rf = converter.spec_units()[from as int].ratio as int;
                        let rt = converter.spec_units()[to as int].ratio as int;
                        if !qvalue_convertible(old(rhs).value, rf, rt) {
                            r == Err::<Quantity, QuantityAddError>(
                                QuantityAddError::Convert(qvalue_convert_error(old(rhs).value, rf, rt)),
                            )
                        } else {
                            exists|w: QuantityValue|
                                qvalue_converted(old(rhs).value, w, rf, rt) && qvalue_sum(old(self).value, w, lift(r))
                        }
                    },
                }
            }),
            r is Ok ==> r->Ok_0.unit == final(self).unit,
            final(self).value == old(self).value,
            final(rhs).value == old(rhs).value,
            final(self).spec_unit() == after_check(old(self).spec_unit(), old(rhs).spec_unit(), *converter),
            final(rhs).spec_unit() == after_check(old(rhs).spec_unit(), old(self).spec_unit(), *converter),
    {
        let ghost old_rhs_unit = rhs.unit;
        let c = match self.is_compatible(rhs, converter) {
            Ok(c) => c,
            Err(e) => return Err(QuantityAddError::IncompatibleUnits(e)),
        };
        let sum = match c {
            Some(to) => {
                proof {
                    old_rhs_unit->Some_0.lemma_resolved(*converter);
                }
                let from = match rhs.unit_info() {
                    Some(UnitInfo::Known(j)) => j,
                    _ => to,
                };
                match converter.convert(&rhs.value, from, to) {
                    Ok(w) => self.value.try_add(&w),
                    Err(e) => return Err(QuantityAddError::Convert(e)),
                }
            },
            None => self.value.try_add(&rhs.value),
        };
        let unit = match &self.unit {
            Some(u) => Some(u.duplicate()),
            None => None,
        };
        match sum {
            Ok(v) => Ok(Quantity { value: v, unit }),
            Err(e) => Err(e),
        }
    }

    /// When the unit is resolved and known, rewrites the quantity in the unit
    /// of the same class that reads best; otherwise, or when the value cannot
    /// be converted, leaves it as it is.
    pub fn fit(&mut self, converter: &Converter)
        requires
            converter.wf(),
            old(self).infos_ok(*converter),
        ensures
            ({
                let units = converter.spec_units();
                match (old(self).spec_unit(), magnitude(old(self).value)) {
                    (Some(u), Some(m)) => match u.spec_info() {
                        Some(UnitInfo::Known(from)) => exists|b: int| {
                            &&& is_best_unit(units, from as int, m, b)
                            &&& if b == from || !qvalue_convertible(old(self).value, units[from as int].ratio as int, units[b].ratio as int) {
                                *final(self) == *old(self)
                            } else {
                                &&& qvalue_converted(old(self).value, final(self).value, units[from as int].ratio as int, units[b].ratio as int)
                                &&& final(self).spec_unit() is Some
                                &&& final(self).spec_unit()->Some_0.spec_text()@ == units[b].name@
                                &&& final(self).spec_unit()->Some_0.spec_info() == Some(UnitInfo::Known(b as usize))
                            }
                        },
                        _ => *final(self) == *old(self),
                    },
                    _ => *final(self) == *old(self),
                }
            }),
    {
        let from = match self.unit_info() {
            Some(UnitInfo::Known(k)) => k,
            _ => return,
        };
        let m = match first_amount(&self.value) {
            Some(m) => m,
            None => return,
        };
        let b = converter.best_unit(from, m);
        if b == from {
            return;
        }
        match converter.convert(&self.value, from, b) {
            Ok(w) => {
                let name = converter.units()[b].name.clone();
                self.value = w;
                self.unit = Some(QuantityUnit { text: name, info: Some(UnitInfo::Known(b)) });
            },
            Err(_) => {},
        }
    }
}

/// The amount that decides which unit a value reads best in: a number, or
/// the start of a range; for values per serving count, the first one.
pub open spec fn value_magnitude(v: Value) -> Option<int> {
    match v {
        Value::Number(n) => Some(n as int),
        Value::Range { start, .. } => Some(start as int),
        Value::Text(_) => None,
    }
}

pub open spec fn magnitude(v: QuantityValue) -> Option<int> {
    match v {
        QuantityValue::Fixed(x) => value_magnitude(x),
        QuantityValue::Scalable(ScalableValue::Linear(x)) => value_magnitude(x),
        QuantityValue::Scalable(ScalableValue::ByServings(vs)) => if vs@.len() > 0 {
            value_magnitude(vs@[0])
        } else {
            None
        },
    }
}

fn value_amount(v: &Value) -> (r: Option<i64>)
    ensures
        match value_magnitude(*v) {
            Some(m) => r == Some(m as i64),
            None => r is None,
        },
{
    match v {
        Value::Number(n) => Some(*n),
        Value::Range { start, .. } => Some(*start),
        Value::Text(_) => None,
    }
}

fn first_amount(v: &QuantityValue) -> (r: Option<i64>)
    ensures
        match magnitude(*v) {
            Some(m) => r == Some(m as i64),
            None => r is None,
        },
{
    match v {
        QuantityValue::Fixed(x) => value_amount(x),
        QuantityValue::Scalable(ScalableValue::Linear(x)) => value_amount(x),
        QuantityValue::Scalable(ScalableValue::ByServings(vs)) => if vs.len() > 0 {
            value_amount(&vs[0])
        } else {
            None
        },
    }
}

/// Two numbers add to their sum.
pub proof fn lemma_numbers_add(a: i64, b: i64)
    requires
        fits_i64(a + b),
    ensures
        Value::Number(a).add_fits(Value::Number(b)),
        Value::Number(a).spec_add(Value::Number(b)) == Ok::<Value, TextValueError>(Value::Number((a + b) as i64)),
{
}

/// Adding a number to a range shifts both of its ends by the number, and
/// the addition of a number and a range gives the same on either side.
pub proof fn lemma_range_shift(start: i64, end: i64, n: i64)
    requires
        fits_i64(start + n),
        fits_i64(end + n),
    ensures
        (Value::Range { start, end }).add_fits(Value::Number(n)),
        (Value::Range { start, end }).spec_add(Value::Number(n)) == Ok::<Value, TextValueError>(
            (Value::Range { start: (start + n) as i64, end: (end + n) as i64 }),
        ),
        Value::Number(n).spec_add((Value::Range { start, end })) == (Value::Range { start, end }).spec_add(
            Value::Number(n),
        ),
{
}

/// Addition of numbers and ranges does not depend on the order of the
/// operands.
pub proof fn lemma_add_commutes(a: Value, b: Value)
    requires
        !(a is Text),
        !(b is Text),
        a is Number || b is Number,
    ensures
        a.add_fits(b) == b.add_fits(a),
        a.spec_add(b) == b.spec_add(a),
{
}

/// An addition with a text operand fails, with a text value, whatever the
/// other operand is.
pub proof fn lemma_text_never_adds(a: Value, b: Value)
    requires
        a is Text || b is Text,
    ensures
        a.spec_add(b) is Err,
        a.spec_add(b)->Err_0.0 is Text,
        a.spec_add(b)->Err_0.0 == (if a is Text { a } else { b }),
{
}

/// Compatibility of units: two quantities without unit are compatible with
/// no common unit; when only one has a unit the error names that side; two
/// known units of different physical quantities are incompatible.
pub proof fn lemma_compat_cases(a: QuantityUnit, b: QuantityUnit, c: Converter)
    ensures
        compat(None, None, c) == Ok::<Option<usize>, IncompatibleUnits>(None),
        compat(Some(a), None, c) == Err::<Option<usize>, IncompatibleUnits>(
            (IncompatibleUnits::MissingUnit { found: UnitSide::Left(a.spec_text()) }),
        ),
        compat(None, Some(b), c) == Err::<Option<usize>, IncompatibleUnits>(
            (IncompatibleUnits::MissingUnit { found: UnitSide::Right(b.spec_text()) }),
        ),
        a.info_of(c) is Known && b.info_of(c) is Known && c.spec_units()[a.info_of(c)->Known_0 as int].physical_quantity
            != c.spec_units()[b.info_of(c)->Known_0 as int].physical_quantity ==> compat(Some(a), Some(b), c)
            is Err && compat(Some(a), Some(b), c)->Err_0 is DifferentPhysicalQuantities,
{
}

} // verus!
