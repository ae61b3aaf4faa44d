//! How quantities are written: numbers with at most three decimals, ranges
//! as `start-end`, values per serving count separated by `|`, and a unit
//! after its value.
use vstd::prelude::*;
use vstd::string::*;

use crate::ast;
use crate::quantity::{Quantity, QuantityUnit, QuantityValue, ScalableValue, Value};

verus! {

pub open spec fn digit_char(d: int) -> char {
    if d == 0 {
        '0'
    } else if d == 1 {
        '1'
    } else if d == 2 {
        '2'
    } else if d == 3 {
        '3'
    } else if d == 4 {
        '4'
    } else if d == 5 {
        '5'
    } else if d == 6 {
        '6'
    } else if d == 7 {
        '7'
    } else if d == 8 {
        '8'
    } else {
        '9'
    }
}

/// The decimal digits of `n`.
pub open spec fn nat_text(n: nat) -> Seq<char>
    decreases n,
{
    if n < 10 {
        seq![digit_char(n as int)]
    } else {
        nat_text(n / 10).push(digit_char((n % 10) as int))
    }
}

/// Three decimals of `f` (below 1000), without trailing zeros.
pub open spec fn frac_text(f: nat) -> Seq<char> {
    let (d1, d2, d3) = ((f / 100) as int, ((f / 10) % 10) as int, (f % 10) as int);
    if d3 != 0 {
        seq![digit_char(d1), digit_char(d2), digit_char(d3)]
    } else if d2 != 0 {
        seq![digit_char(d1), digit_char(d2)]
    } else {
        seq![digit_char(d1)]
    }
}

pub open spec fn abs(n: int) -> nat {
    if n < 0 {
        (-n) as nat
    } else {
        n as nat
    }
}

/// A number of thousandths, written as a decimal.
pub open spec fn number_text(n: int) -> Seq<char> {
    let sign = if n < 0 {
        seq!['-']
    } else {
        seq![]
    };
    let frac = if abs(n) % 1000 == 0 {
        seq![]
    } else {
        seq!['.'] + frac_text(abs(n) % 1000)
    };
    sign + nat_text(abs(n) / 1000) + frac
}

pub open spec fn value_text(v: Value) -> Seq<char> {
    match v {
        Value::Number(n) => number_text(n as int),
        Value::Range { start, end } => number_text(start as int) + seq!['-'] + number_text(
            end as int,
        ),
        Value::Text(t) => t@,
    }
}

/// The parts joined with `|` between each two.
pub open spec fn join_bar(parts: Seq<Seq<char>>) -> Seq<char>
    decreases parts.len(),
{
    if parts.len() == 0 {
        seq![]
    } else if parts.len() == 1 {
        parts[0]
    } else {
        join_bar(parts.drop_last()) + seq!['|'] + parts.last()
    }
}

pub open spec fn value_texts(vs: Seq<Value>) -> Seq<Seq<char>> {
    vs.map_values(|v: Value| value_text(v))
}

pub open spec fn scalable_text(s: ScalableValue) -> Seq<char> {
    match s {
        ScalableValue::Linear(v) => value_text(v),
        ScalableValue::ByServings(vs) => join_bar(value_texts(vs@)),
    }
}

pub open spec fn quantity_value_text(q: QuantityValue) -> Seq<char> {
    match q {
        QuantityValue::Fixed(v) => value_text(v),
        QuantityValue::Scalable(s) => scalable_text(s),
    }
}

pub open spec fn quantity_text(q: Quantity) -> Seq<char> {
    match q.unit {
        Some(u) => quantity_value_text(q.value) + seq![' '] + u.spec_text()@,
        None => quantity_value_text(q.value),
    }
}

fn digit_str(d: u64) -> (r: &'static str)
    requires
        d < 10,
    ensures
        r@ == seq![digit_char(d as int)],
{
    proof {
        reveal_strlit("0");
        reveal_strlit("1");
        reveal_strlit("2");
        reveal_strlit("3");
        reveal_strlit("4");
        reveal_strlit("5");
        reveal_strlit("6");
        reveal_strlit("7");
        reveal_strlit("8");
        reveal_strlit("9");
    }
    let r = if d == 0 {
        "0"
    } else if d == 1 {
        "1"
    } else if d == 2 {
        "2"
    } else if d == 3 {
        "3"
    } else if d == 4 {
        "4"
    } else if d == 5 {
        "5"
    } else if d == 6 {
        "6"
    } else if d == 7 {
        "7"
    } else if d == 8 {
        "8"
    } else {
        "9"
    };
    assert(r@ =~= seq![digit_char(d as int)]);
    r
}

fn push_nat(s: &mut String, n: u64)
    ensures
        final(s)@ == old(s)@ + nat_text(n as nat),
    decreases n,
{
    if n < 10 {
        s.append(digit_str(n));
    } else {
        push_nat(s, n / 10);
        s.append(digit_str(n % 10));
        assert(old(s)@ + nat_text((n / 10) as nat) + seq![digit_char((n % 10) as int)] =~= old(s)@
            + nat_text(n as nat));
    }
}

fn push_number(s: &mut String, n: i64)
    ensures
        final(s)@ == old(s)@ + number_text(n as int),
{
    let ghost s0 = s@;
    proof {
        reveal_strlit("-");
        reveal_strlit(".");
    }
    let m: u64 = if n < 0 {
        (0i128 - n as i128) as u64
    } else {
        n as u64
    };
    assert(m as nat == abs(n as int));
    if n < 0 {
        s.append("-");
    }
    let ghost s1 = s@;
    push_nat(s, m / 1000);
    let f = m % 1000;
    if f != 0 {
        s.append(".");
        s.append(digit_str(f / 100));
        if f % 10 != 0 {
            s.append(digit_str((f / 10) % 10));
            s.append(digit_str(f % 10));
        } else if (f / 10) % 10 != 0 {
            s.append(digit_str((f / 10) % 10));
        }
    }
    let ghost sign: Seq<char> = if n < 0 { seq!['-'] } else { seq![] };
    assert(s1 =~= s0 + sign);
    assert(s@ =~= old(s)@ + number_text(n as int));
}

fn push_value(s: &mut String, v: &Value)
    ensures
        final(s)@ == old(s)@ + value_text(*v),
{
    proof {
        reveal_strlit("-");
    }
    match v {
        Value::Number(n) => push_number(s, *n),
        Value::Range { start, end } => {
            push_number(s, *start);
            s.append("-");
            push_number(s, *end);
            assert(s@ =~= old(s)@ + value_text(*v));
        },
        Value::Text(t) => s.append(t.as_str()),
    }
}

fn push_scalable(s: &mut String, v: &ScalableValue)
    ensures
        final(s)@ == old(s)@ + scalable_text(*v),
{
    proof {
        reveal_strlit("|");
    }
    match v {
        ScalableValue::Linear(x) => push_value(s, x),
        ScalableValue::ByServings(vs) => {
            let ghost s0 = s@;
            let mut i: usize = 0;
            while i < vs.len()
                invariant
                    i <= vs@.len(),
                    s@ == s0 + join_bar(value_texts(vs@.subrange(0, i as int))),
                decreases vs.len() - i,
            {
                let ghost pre = vs@.subrange(0, i as int);
                let ghost next = vs@.subrange(0, i + 1);
                assert(value_texts(next).drop_last() =~= value_texts(pre));
                assert(value_texts(next).last() == value_text(vs@[i as int]));
                if i > 0 {
                    s.append("|");
                }
                push_value(s, &vs[i]);
                proof {
                    if i == 0 {
                        assert(value_texts(pre) =~= seq![]);
                        assert(s@ =~= s0 + join_bar(value_texts(next)));
                    } else {
                        reveal_strlit("|");
                        assert("|"@ =~= seq!['|']);
                        assert(value_texts(next).len() == i + 1);
                        assert(join_bar(value_texts(next)) == join_bar(value_texts(pre)) + seq!['|']
                            + value_text(vs@[i as int]));
                        assert(s@ =~= s0 + join_bar(value_texts(next)));
                    }
                }
                i = i + 1;
            }
            assert(vs@.subrange(0, vs@.len() as int) =~= vs@);
        },
    }
}

impl Value {
    /// The value as written.
    pub fn to_text(&self) -> (r: String)
        ensures
            r@ == value_text(*self),
    {
        let mut s = String::new();
        push_value(&mut s, self);
        assert(s@ =~= value_text(*self));
        s
    }
}

impl ScalableValue {
    pub fn to_text(&self) -> (r: String)
        ensures
            r@ == scalable_text(*self),
    {
        let mut s = String::new();
        push_scalable(&mut s, self);
        assert(s@ =~= scalable_text(*self));
        s
    }
}

impl QuantityValue {
    pub fn to_text(&self) -> (r: String)
        ensures
            r@ == quantity_value_text(*self),
    {
        match self {
            QuantityValue::Fixed(v) => v.to_text(),
            QuantityValue::Scalable(v) => v.to_text(),
        }
    }
}

impl QuantityUnit {
    pub fn to_text(&self) -> (r: String)
        ensures
            r@ == self.spec_text()@,
    {
        String::from_str(self.text())
    }
}

impl Quantity {
    /// The value, then the unit after a space if there is one.
    pub fn to_text(&self) -> (r: String)
        ensures
            r@ == quantity_text(*self),
    {
        proof {
            reveal_strlit(" ");
        }
        let mut s = self.value.to_text();
        match &self.unit {
            Some(u) => {
                s.append(" ");
                s.append(u.text());
            },
            None => {},
        }
        s
    }
}

/// `s` cut at every `|`.
pub open spec fn split_bar(s: Seq<char>) -> Seq<Seq<char>>
    decreases s.len(),
{
    if s.len() == 0 {
        seq![seq![]]
    } else {
        let r = split_bar(s.drop_last());
        if s.last() == '|' {
            r.push(seq![])
        } else {
            r.update(r.len() - 1, r.last().push(s.last()))
        }
    }
}

proof fn lemma_split_len(s: Seq<char>)
    ensures
        split_bar(s).len() >= 1,
    decreases s.len(),
{
    if s.len() > 0 {
        lemma_split_len(s.drop_last());
    }
}

proof fn lemma_split_no_bar(p: Seq<char>, t: Seq<char>)
    requires
        !t.contains('|'),
    ensures
        split_bar(p + t) == split_bar(p).update(split_bar(p).len() - 1, split_bar(p).last() + t),
    decreases t.len(),
{
    lemma_split_len(p);
    if t.len() == 0 {
        assert(p + t =~= p);
        assert(split_bar(p).last() + t =~= split_bar(p).last());
        assert(split_bar(p).update(split_bar(p).len() - 1, split_bar(p).last()) =~= split_bar(p));
    } else {
        let t0 = t.drop_last();
        assert(!t0.contains('|')) by {
            if t0.contains('|') {
                let k = choose|k: int| 0 <= k < t0.len() && t0[k] == '|';
                assert(t[k] == '|');
            }
        }
        assert(t.last() != '|') by {
            assert(t[t.len() - 1] == t.last());
        }
        lemma_split_no_bar(p, t0);
        assert((p + t).drop_last() =~= p + t0);
        assert((p + t).last() == t.last());
        lemma_split_len(p + t0);
        let r = split_bar(p);
        let r1 = split_bar(p + t0);
        assert(r1 == r.update(r.len() - 1, r.last() + t0));
        assert(r1.len() == r.len());
        assert(r1.last() == r.last() + t0);
        assert((r.last() + t0).push(t.last()) =~= r.last() + t);
        assert(split_bar(p + t) == r1.update(r1.len() - 1, r1.last().push(t.last())));
        assert(split_bar(p + t) =~= r.update(r.len() - 1, r.last() + t));
    }
}

proof fn lemma_split_join(parts: Seq<Seq<char>>)
    requires
        parts.len() > 0,
        forall|i: int| 0 <= i < parts.len() ==> !(#[trigger] parts[i]).contains('|'),
    ensures
        split_bar(join_bar(parts)) == parts,
    decreases parts.len(),
{
    if parts.len() == 1 {
        lemma_split_no_bar(seq![], parts[0]);
        assert(seq![] + parts[0] =~= parts[0]);
        assert(split_bar(seq![]) == seq![Seq::<char>::empty()]);
        assert(split_bar(join_bar(parts)) =~= parts);
    } else {
        let init = parts.drop_last();
        assert forall|i: int| 0 <= i < init.len() implies !(#[trigger] init[i]).contains('|') by {
            assert(init[i] == parts[i]);
        }
        lemma_split_join(init);
        let j = join_bar(init);
        let jb = j + seq!['|'];
        assert(jb.drop_last() =~= j);
        assert(split_bar(jb) == init.push(seq![]));
        assert(!parts.last().contains('|')) by {
            assert(parts[parts.len() - 1] == parts.last());
        }
        lemma_split_no_bar(jb, parts.last());
        assert(Seq::<char>::empty() + parts.last() =~= parts.last());
        assert(split_bar(join_bar(parts)) =~= parts);
    }
}

proof fn lemma_nat_text_digits(n: nat)
    ensures
        !nat_text(n).contains('|'),
        !nat_text(n).contains('-'),
    decreases n,
{
    if n >= 10 {
        lemma_nat_text_digits(n / 10);
        let t = nat_text(n);
        assert forall|i: int| 0 <= i < t.len() implies t[i] != '|' && t[i] != '-' by {
            if i < t.len() - 1 {
                assert(t[i] == nat_text(n / 10)[i]);
            }
        }
    }
}

proof fn lemma_number_text_no_bar(n: int)
    ensures
        !number_text(n).contains('|'),
{
    lemma_nat_text_digits(abs(n) / 1000);
    let t = number_text(n);
    let sign: Seq<char> = if n < 0 {
        seq!['-']
    } else {
        seq![]
    };
    let d = nat_text(abs(n) / 1000);
    let frac: Seq<char> = if abs(n) % 1000 == 0 {
        seq![]
    } else {
        seq!['.'] + frac_text(abs(n) % 1000)
    };
    assert(t == sign + d + frac);
    assert forall|i: int| 0 <= i < t.len() implies t[i] != '|' by {
        if i < sign.len() {
        } else if i < sign.len() + d.len() {
            assert(t[i] == d[i - sign.len()]);
        } else {
            assert(t[i] == frac[i - sign.len() - d.len()]);
        }
    }
}

proof fn lemma_value_text_no_bar(v: Value)
    requires
        v is Text ==> !v->Text_0@.contains('|'),
    ensures
        !value_text(v).contains('|'),
{
    match v {
        Value::Number(n) => lemma_number_text_no_bar(n as int),
        Value::Range { start, end } => {
            lemma_number_text_no_bar(start as int);
            lemma_number_text_no_bar(end as int);
            let a = number_text(start as int);
            let b = number_text(end as int);
            let t = value_text(v);
            assert forall|i: int| 0 <= i < t.len() implies t[i] != '|' by {
                if i < a.len() {
                    assert(t[i] == a[i]);
                } else if i == a.len() {
                } else {
                    assert(t[i] == b[i - a.len() - 1]);
                }
            }
        },
        Value::Text(_) => {},
    }
}

/// A quantity given as one value per serving count is written as the texts
/// of its values, in order, separated by `|`: cutting the text at its `|`s
/// gives them back, as long as no text value holds a `|` itself.
pub proof fn lemma_servings_round_trip(vs: Vec<Value>)
    requires
        vs@.len() > 0,
        forall|i: int| 0 <= i < vs@.len() && (#[trigger] vs@[i]) is Text ==> !vs@[i]->Text_0@.contains('|'),
    ensures
        split_bar(quantity_value_text(QuantityValue::spec_from_ast(ast::QuantityValue::Many(vs))))
            == value_texts(vs@),
        value_texts(vs@).len() == vs@.len(),
{
    let parts = value_texts(vs@);
    assert forall|i: int| 0 <= i < parts.len() implies !(#[trigger] parts[i]).contains('|') by {
        lemma_value_text_no_bar(vs@[i]);
    }
    lemma_split_join(parts);
}

} // verus!
