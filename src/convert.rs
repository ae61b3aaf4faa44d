//! The unit registry that quantities resolve their units against, and the
//! conversion of values between its units.
use vstd::prelude::*;

use crate::quantity::{QuantityValue, ScalableValue, Value, fits_i64};
use crate::text::str_eq;

verus! {

/// The dimension that a unit measures.
#[derive(Clone, Copy, PartialEq, Eq, Structural, Debug)]
pub enum PhysicalQuantity {
    Volume,
    Mass,
    Length,
    Temperature,
    Time,
}

/// The system of measurement that a unit belongs to.
#[derive(Clone, Copy, PartialEq, Eq, Structural, Debug)]
pub enum UnitSystem {
    Metric,
    Imperial,
}

/// A unit: its name, what it measures, and its size as a ratio to the other
/// units of the same physical quantity.
pub struct Unit {
    pub name: String,
    pub physical_quantity: PhysicalQuantity,
    pub system: UnitSystem,
    pub ratio: u64,
}

/// A table of units. Every unit has a positive ratio.
pub struct Converter {
    units: Vec<Unit>,
}

/// Why a conversion failed.
#[derive(Debug)]
pub enum ConvertError {
    /// A text value cannot be converted.
    TextValue,
    /// The converted amount does not fit the representation.
    Overflow,
    /// A unit handle that the table does not hold.
    UnknownHandle,
}

/// `n` units of size `from` expressed in units of size `to`, rounded
/// toward zero.
pub open spec fn scaled(n: int, from: int, to: int) -> int {
    if n >= 0 {
        n * from / to
    } else {
        -((-n) * from / to)
    }
}

/// The index of the first unit named `text` at or after position `i`.
pub open spec fn unit_index_from(units: Seq<Unit>, text: Seq<char>, i: int) -> Option<usize>
    decreases units.len() - i,
{
    if i < 0 || i >= units.len() {
        None
    } else if units[i].name@ == text {
        Some(i as usize)
    } else {
        unit_index_from(units, text, i + 1)
    }
}

/// `b` is the value `a` converted from a unit of size `from` to one of size `to`.
pub open spec fn value_converted(a: Value, b: Value, from: int, to: int) -> bool {
    match (a, b) {
        (Value::Number(x), Value::Number(y)) => y == scaled(x as int, from, to),
        (Value::Range { start: s1, end: e1 }, Value::Range { start: s2, end: e2 }) => s2
            == scaled(s1 as int, from, to) && e2 == scaled(e1 as int, from, to),
        _ => false,
    }
}

/// The value can be converted: it is no text and the result fits.
pub open spec fn value_convertible(a: Value, from: int, to: int) -> bool {
    match a {
        Value::Number(x) => fits_i64(scaled(x as int, from, to)),
        Value::Range { start, end } => fits_i64(scaled(start as int, from, to)) && fits_i64(
            scaled(end as int, from, to),
        ),
        Value::Text(_) => false,
    }
}

pub open spec fn all_convertible(vs: Seq<Value>, from: int, to: int) -> bool {
    forall|i: int| 0 <= i < vs.len() ==> value_convertible(#[trigger] vs[i], from, to)
}

pub open spec fn all_converted(xs: Seq<Value>, ys: Seq<Value>, from: int, to: int) -> bool {
    xs.len() == ys.len() && forall|i: int|
        0 <= i < xs.len() ==> value_converted(#[trigger] xs[i], ys[i], from, to)
}

/// The error of converting a value that cannot be converted.
pub open spec fn value_convert_error(a: Value) -> ConvertError {
    if a is Text {
        ConvertError::TextValue
    } else {
        ConvertError::Overflow
    }
}

/// The error of converting values in order: that of the first one that
/// cannot be converted.
pub open spec fn servings_convert_error(vs: Seq<Value>, from: int, to: int) -> ConvertError
    decreases vs.len(),
{
    if vs.len() == 0 {
        ConvertError::Overflow
    } else if !value_convertible(vs[0], from, to) {
        value_convert_error(vs[0])
    } else {
        servings_convert_error(vs.drop_first(), from, to)
    }
}

/// The error of converting a quantity value that cannot be converted.
pub open spec fn qvalue_convert_error(a: QuantityValue, from: int, to: int) -> ConvertError {
    match a {
        QuantityValue::Fixed(v) => value_convert_error(v),
        QuantityValue::Scalable(ScalableValue::Linear(v)) => value_convert_error(v),
        QuantityValue::Scalable(ScalableValue::ByServings(vs)) => servings_convert_error(vs@, from, to),
    }
}

pub open spec fn qvalue_convertible(a: QuantityValue, from: int, to: int) -> bool {
    match a {
        QuantityValue::Fixed(v) => value_convertible(v, from, to),
        QuantityValue::Scalable(ScalableValue::Linear(v)) => value_convertible(v, from, to),
        QuantityValue::Scalable(ScalableValue::ByServings(vs)) => all_convertible(vs@, from, to),
    }
}

pub open spec fn qvalue_converted(a: QuantityValue, b: QuantityValue, from: int, to: int) -> bool {
    match (a, b) {
        (QuantityValue::Fixed(x), QuantityValue::Fixed(y)) => value_converted(x, y, from, to),
        (
            QuantityValue::Scalable(ScalableValue::Linear(x)),
            QuantityValue::Scalable(ScalableValue::Linear(y)),
        ) => value_converted(x, y, from, to),
        (
            QuantityValue::Scalable(ScalableValue::ByServings(xs)),
            QuantityValue::Scalable(ScalableValue::ByServings(ys)),
        ) => all_converted(xs@, ys@, from, to),
        _ => false,
    }
}

fn scale_number(n: i64, from: u64, to: u64) -> (r: Option<i64>)
    requires
        to > 0,
    ensures
        r == (if fits_i64(scaled(n as int, from as int, to as int)) {
            Some(scaled(n as int, from as int, to as int) as i64)
        } else {
            None::<i64>
        }),
{
    let neg = n < 0;
    let m: u128 = if neg {
        (0i128 - n as i128) as u128
    } else {
        n as u128
    };
    assert(m <= 0x8000_0000_0000_0000);
    assert(m * (from as u128) <= 0x8000_0000_0000_0000 * 0xffff_ffff_ffff_ffff) by (nonlinear_arith)
        requires
            m <= 0x8000_0000_0000_0000,
            from <= 0xffff_ffff_ffff_ffff,
    ;
    let p: u128 = m * (from as u128);
    let q: u128 = p / (to as u128);
    if neg {
        if q <= 0x8000_0000_0000_0000 {
            Some((0i128 - q as i128) as i64)
        } else {
            None
        }
    } else if q <= 0x7fff_ffff_ffff_ffff {
        Some(q as i64)
    } else {
        None
    }
}

impl Converter {
    /// The units of the table, in order.
    pub closed spec fn spec_units(&self) -> Seq<Unit> {
        self.units@
    }

    /// Every unit has a positive ratio.
    pub open spec fn wf(&self) -> bool {
        forall|i: int| 0 <= i < self.spec_units().len() ==> (#[trigger] self.spec_units()[i]).ratio > 0
    }

    /// A converter over the given units; none when a unit has ratio zero.
    pub fn new(units: Vec<Unit>) -> (r: Option<Converter>)
        ensures
            r is Some <==> forall|i: int| 0 <= i < units@.len() ==> (#[trigger] units@[i]).ratio
                > 0,
            r is Some ==> r->Some_0.spec_units() == units@,
    {
        let mut i: usize = 0;
        while i < units.len()
            invariant
                i <= units.len(),
                forall|j: int| 0 <= j < i ==> (#[trigger] units@[j]).ratio > 0,
            decreases units.len() - i,
        {
            if units[i].ratio == 0 {
                return None;
            }
            i = i + 1;
        }
        Some(Converter { units })
    }

    pub fn units(&self) -> (r: &Vec<Unit>)
        ensures
            r@ == self.spec_units(),
    {
        &self.units
    }

    /// The handle of the first unit named `text`.
    pub fn get_unit(&self, text: &str) -> (r: Option<usize>)
        ensures
            r == unit_index_from(self.spec_units(), text@, 0),
            r is Some ==> r->Some_0 < self.spec_units().len(),
    {
        let mut i: usize = 0;
        while i < self.units.len()
            invariant
                i <= self.spec_units().len(),
                unit_index_from(self.spec_units(), text@, 0) == unit_index_from(self.spec_units(), text@, i as int),
            decreases self.units.len() - i,
        {
            if str_eq(self.units[i].name.as_str(), text) {
                return Some(i);
            }
            i = i + 1;
        }
        None
    }

    pub fn convert_value(&self, v: &Value, from: usize, to: usize) -> (r: Result<Value, ConvertError>)
        requires
            self.wf(),
            from < self.spec_units().len(),
            to < self.spec_units().len(),
        ensures
            ({
                let (rf, rt) = (self.spec_units()[from as int].ratio as int, self.spec_units()[to as int].ratio as int);
                match r {
                    Ok(w) => value_convertible(*v, rf, rt) && value_converted(*v, w, rf, rt),
                    Err(e) => !value_convertible(*v, rf, rt) && e == value_convert_error(*v),
                }
            }),
    {
        let rf = self.units[from].ratio;
        let rt = self.units[to].ratio;
        match v {
            Value::Number(n) => match scale_number(*n, rf, rt) {
                Some(m) => Ok(Value::Number(m)),
                None => Err(ConvertError::Overflow),
            },
            Value::Range { start, end } => match (scale_number(*start, rf, rt), scale_number(*end, rf, rt)) {
                (Some(s), Some(e)) => Ok(Value::Range { start: s, end: e }),
                _ => Err(ConvertError::Overflow),
            },
            Value::Text(_) => Err(ConvertError::TextValue),
        }
    }

    /// Converts every value of `v` from unit `from` to unit `to`.
    pub fn convert(&self, v: &QuantityValue, from: usize, to: usize) -> (r: Result<
        QuantityValue,
        ConvertError,
    >)
        requires
            self.wf(),
        ensures
            from < self.spec_units().len() && to < self.spec_units().len() ==> ({
                let (rf, rt) = (self.spec_units()[from as int].ratio as int, self.spec_units()[to as int].ratio as int);
                match r {
                    Ok(w) => qvalue_convertible(*v, rf, rt) && qvalue_converted(*v, w, rf, rt),
                    Err(e) => !qvalue_convertible(*v, rf, rt) && e == qvalue_convert_error(*v, rf, rt),
                }
            }),
            !(from < self.spec_units().len() && to < self.spec_units().len()) ==> r == Err::<QuantityValue, ConvertError>(ConvertError::UnknownHandle),
    {
        if from >= self.units.len() || to >= self.units.len() {
            return Err(ConvertError::UnknownHandle);
        }
        match v {
            QuantityValue::Fixed(x) => match self.convert_value(x, from, to) {
                Ok(y) => Ok(QuantityValue::Fixed(y)),
                Err(e) => Err(e),
            },
            QuantityValue::Scalable(ScalableValue::Linear(x)) => match self.convert_value(x, from, to) {
                Ok(y) => Ok(QuantityValue::Scalable(ScalableValue::Linear(y))),
                Err(e) => Err(e),
            },
            QuantityValue::Scalable(ScalableValue::ByServings(xs)) => {
                let ghost rf = self.spec_units()[from as int].ratio as int;
                let ghost rt = self.spec_units()[to as int].ratio as int;
                let mut ys: Vec<Value> = Vec::new();
                let mut i: usize = 0;
                assert(xs@.subrange(0, xs@.len() as int) =~= xs@);
                while i < xs.len()
                    invariant
                        self.wf(),
                        from < self.spec_units().len(),
                        to < self.spec_units().len(),
                        rf == self.spec_units()[from as int].ratio as int,
                        rt == self.spec_units()[to as int].ratio as int,
                        i <= xs.len(),
                        *v == QuantityValue::Scalable(ScalableValue::ByServings(*xs)),
                        ys@.len() == i,
                        forall|j: int| 0 <= j < i ==> value_convertible(#[trigger] xs@[j], rf, rt),
                        forall|j: int| 0 <= j < i ==> value_converted(#[trigger] xs@[j], ys@[j], rf, rt),
                        servings_convert_error(xs@, rf, rt) == servings_convert_error(
                            xs@.subrange(i as int, xs@.len() as int),
                            rf,
                            rt,
                        ),
                    decreases xs.len() - i,
                {
                    let ghost rest = xs@.subrange(i as int, xs@.len() as int);
                    assert(rest[0] == xs@[i as int]);
                    assert(rest.drop_first() =~= xs@.subrange(i + 1, xs@.len() as int));
                    match self.convert_value(&xs[i], from, to) {
                        Ok(y) => ys.push(y),
                        Err(e) => {
                            assert(!value_convertible(xs@[i as int], rf, rt));
                            assert(!all_convertible(xs@, rf, rt));
                            return Err(e);
                        },
                    }
                    i = i + 1;
                }
                assert(all_converted(xs@, ys@, rf, rt));
                Ok(QuantityValue::Scalable(ScalableValue::ByServings(ys)))
            },
        }
    }
}

} // verus!

verus! {

/// Unit `j` measures the same physical quantity in the same system as unit `i`.
pub open spec fn same_class(units: Seq<Unit>, i: int, j: int) -> bool {
    units[j].physical_quantity == units[i].physical_quantity && units[j].system == units[i].system
}

/// An amount `m` in unit `from` is at least one whole unit `j`.
pub open spec fn whole_in(units: Seq<Unit>, from: int, m: int, j: int) -> bool {
    let x = scaled(m, units[from].ratio as int, units[j].ratio as int);
    x >= 1000 || x <= -1000
}

/// `b` is the best unit for amount `m` given in unit `from`: of the units of
/// the same class in which `m` is at least one whole unit, the largest; or
/// `from` itself when there is none.
pub open spec fn is_best_unit(units: Seq<Unit>, from: int, m: int, b: int) -> bool {
    &&& 0 <= b < units.len()
    &&& (exists|j: int| 0 <= j < units.len() && same_class(units, from, j) && whole_in(units, from, m, j))
        ==> {
        &&& same_class(units, from, b)
        &&& whole_in(units, from, m, b)
        &&& forall|j: int|
            0 <= j < units.len() && same_class(units, from, j) && whole_in(units, from, m, j)
                ==> #[trigger] units[j].ratio <= units[b].ratio
    }
    &&& !(exists|j: int| 0 <= j < units.len() && same_class(units, from, j) && whole_in(units, from, m, j))
        ==> b == from
}

impl Converter {
    /// The unit that an amount `m` in unit `from` reads best in.
    pub fn best_unit(&self, from: usize, m: i64) -> (r: usize)
        requires
            self.wf(),
            from < self.spec_units().len(),
        ensures
            is_best_unit(self.spec_units(), from as int, m as int, r as int),
    {
        let units = &self.units;
        let mut best: Option<usize> = None;
        let mut i: usize = 0;
        while i < units.len()
            invariant
                units@ == self.spec_units(),
                self.wf(),
                from < units@.len(),
                i <= units.len(),
                best is None ==> forall|j: int|
                    0 <= j < i ==> !(same_class(units@, from as int, j) && #[trigger] whole_in(
                        units@,
                        from as int,
                        m as int,
                        j,
                    )),
                best is Some ==> {
                    let b = best->Some_0 as int;
                    &&& 0 <= b < units@.len()
                    &&& same_class(units@, from as int, b)
                    &&& whole_in(units@, from as int, m as int, b)
                    &&& forall|j: int|
                        0 <= j < i && same_class(units@, from as int, j) && whole_in(
                            units@,
                            from as int,
                            m as int,
                            j,
                        ) ==> #[trigger] units@[j].ratio <= units@[b].ratio
                },
            decreases units.len() - i,
        {
            let u = &units[i];
            if u.physical_quantity == units[from].physical_quantity && u.system == units[from].system {
                let whole = match scale_number(m, units[from].ratio, u.ratio) {
                    Some(x) => x >= 1000 || x <= -1000,
                    None => true,
                };
                if whole {
                    match best {
                        Some(b) => {
                            if u.ratio > units[b].ratio {
                                best = Some(i);
                            }
                        },
                        None => {
                            best = Some(i);
                        },
                    }
                }
            }
            i = i + 1;
        }
        match best {
            Some(b) => b,
            None => from,
        }
    }
}

} // verus!
