//! Predicates as executable values: the leaves (`empty`, `eq`, `expect`,
//! `gt`/`ge`/`lt`/`le`, `len`, `range`) and the combinators (`not`, `and`,
//! `or`), each judged against its model in `predicate`.

use vstd::prelude::*;
use crate::number::{Decimal, decimal_le_exec, parse_float, parse_int};
use crate::predicate::{
    LenKind, NumKind, Pred, TypeGreater, accept_child, accept_param, bound_value, compare_holds,
    expects_more, leaf_for_name, len_kind_of, num_kind_of, number_value, pred_eval_full, pred_global,
    pred_needs, pred_test, strip_quotes,
};
use crate::text::{contains, count_char_exec, eq_trimmed, is_blank, same_text};
use crate::xlsx::ALLXLSX;

verus! {

pub open spec fn opt_text(o: Option<String>) -> Option<Seq<char>> {
    match o {
        Some(s) => Some(s@),
        None => None,
    }
}

pub open spec fn opt_number(o: Option<Decimal>) -> Option<(int, nat)> {
    match o {
        Some(d) => Some(d@),
        None => None,
    }
}

pub open spec fn opt_int(o: Option<i32>) -> Option<int> {
    match o {
        Some(n) => Some(n as int),
        None => None,
    }
}

/// The numeric domain of a field type: `float` before `int`.
pub fn num_kind(field_type: &str) -> (r: NumKind)
    ensures
        r == num_kind_of(field_type@),
{
    if contains(field_type, "float") {
        NumKind::Float
    } else if contains(field_type, "int") {
        NumKind::Int
    } else {
        NumKind::Unsupported
    }
}

/// What `len` counts on a field type.
pub fn len_kind(field_type: &str) -> (r: LenKind)
    ensures
        r == len_kind_of(field_type@),
{
    if contains(field_type, "string") || contains(field_type, "localize") {
        LenKind::Chars
    } else if contains(field_type, "[]") {
        LenKind::Items
    } else {
        LenKind::Unsupported
    }
}

/// Reads a value in a numeric domain.
pub fn parse_number(kind: NumKind, s: &str) -> (r: Option<Decimal>)
    ensures
        opt_number(r) == number_value(kind, s@),
{
    match kind {
        NumKind::Float => parse_float(s),
        NumKind::Int => parse_int(s),
        NumKind::Unsupported => None,
    }
}

fn parse_bound(kind: NumKind, s: &str) -> (r: Option<Decimal>)
    ensures
        opt_number(r) == bound_value(kind, s@),
{
    match kind {
        NumKind::Unsupported => Some(Decimal::zero()),
        _ => parse_number(kind, s),
    }
}

/// Whether `value <op> base`.
pub fn compare(op: TypeGreater, value: &Decimal, base: &Decimal) -> (r: bool)
    ensures
        r == compare_holds(op, value@, base@),
{
    match op {
        TypeGreater::Gt => !decimal_le_exec(value, base),
        TypeGreater::Ge => decimal_le_exec(base, value),
        TypeGreater::Lt => !decimal_le_exec(base, value),
        TypeGreater::Le => decimal_le_exec(value, base),
    }
}

/// `s` without one layer of surrounding quotes.
pub fn strip_quotes_exec(s: &String) -> (r: String)
    ensures
        r@ == strip_quotes(s@),
{
    let t = s.as_str();
    let n = t.unicode_len();
    if n >= 2 {
        let a = t.get_char(0);
        let b = t.get_char(n - 1);
        if a == b && (a == '\'' || a == '"') {
            return String::from_str(t.substring_char(1, n - 1));
        }
    }
    s.clone()
}

/// `empty()`: the value is blank once trimmed.
#[derive(Debug)]
pub struct Empty {}

impl Empty {
    pub closed spec fn model(&self) -> Pred {
        Pred::Empty
    }

    pub fn new() -> (r: Empty)
        ensures
            r.model() == Pred::Empty,
            Checker::Empty(r).model() == Pred::Empty,
    {
        Empty {  }
    }
}

/// `eq(x)`: the trimmed value equals the trimmed literal.
#[derive(Debug)]
pub struct Eq {
    expect: Option<String>,
}

impl Eq {
    pub closed spec fn model(&self) -> Pred {
        Pred::Eq(opt_text(self.expect))
    }

    pub fn new() -> (r: Eq)
        ensures
            r.model() == Pred::Eq(None),
            Checker::Eq(r).model() == Pred::Eq(None),
    {
        Eq { expect: None }
    }
}

/// `expect(table, field)`: the value must occur in that field of that table.
#[derive(Debug)]
pub struct ExpectField {
    tab: Option<String>,
    field: Option<String>,
}

impl ExpectField {
    pub closed spec fn model(&self) -> Pred {
        Pred::Expect(opt_text(self.tab), opt_text(self.field))
    }

    pub fn new() -> (r: ExpectField)
        ensures
            r.model() == Pred::Expect(None, None),
            Checker::Expect(r).model() == Pred::Expect(None, None),
    {
        ExpectField { tab: None, field: None }
    }
}

/// `gt(b)`, `ge(b)`, `lt(b)` and `le(b)`: the value compared with a bound.
#[derive(Debug)]
pub struct Generic {
    op: TypeGreater,
    kind: NumKind,
    base: Option<Decimal>,
}

impl Generic {
    pub closed spec fn model(&self) -> Pred {
        Pred::Compare(self.op, self.kind, opt_number(self.base))
    }

    pub fn new(op: TypeGreater, field_type: &str) -> (r: Generic)
        ensures
            r.model() == Pred::Compare(op, num_kind_of(field_type@), None),
            Checker::Compare(r).model() == Pred::Compare(op, num_kind_of(field_type@), None),
    {
        Generic { op, kind: num_kind(field_type), base: None }
    }
}

/// `len(min, max)`: the length of the value lies in `[min, max]`.
#[derive(Debug)]
pub struct Len {
    kind: LenKind,
    len_min: Option<i32>,
    len_max: Option<i32>,
}

impl Len {
    pub closed spec fn model(&self) -> Pred {
        Pred::Len(self.kind, opt_int(self.len_min), opt_int(self.len_max))
    }

    pub fn new(field_type: &str) -> (r: Len)
        ensures
            r.model() == Pred::Len(len_kind_of(field_type@), None, None),
            Checker::Len(r).model() == Pred::Len(len_kind_of(field_type@), None, None),
    {
        Len { kind: len_kind(field_type), len_min: None, len_max: None }
    }
}

/// `range(start, end)`: the value lies in `[start, end]`.
#[derive(Debug)]
pub struct Range {
    kind: NumKind,
    start: Option<Decimal>,
    end: Option<Decimal>,
}

impl Range {
    pub closed spec fn model(&self) -> Pred {
        Pred::Range(self.kind, opt_number(self.start), opt_number(self.end))
    }

    pub fn new(field_type: &str) -> (r: Range)
        ensures
            r.model() == Pred::Range(num_kind_of(field_type@), None, None),
            Checker::Range(r).model() == Pred::Range(num_kind_of(field_type@), None, None),
    {
        Range { kind: num_kind(field_type), start: None, end: None }
    }

    /// Fills the first free bound with a literal read in the range's domain.
    pub fn add_param(&mut self, param: String) -> (r: bool)
        ensures
            match accept_param(old(self).model(), param@) {
                Some(p) => r && final(self).model() == p,
                None => !r && final(self).model() == old(self).model(),
            },
    {
        if self.start.is_none() || self.end.is_none() {
            match parse_bound(self.kind, param.as_str()) {
                Some(d) => {
                    if self.start.is_none() {
                        self.start = Some(d);
                    } else {
                        self.end = Some(d);
                    }
                    true
                },
                None => false,
            }
        } else {
            false
        }
    }

    /// Whether the value lies between both bounds, where both are set.
    pub fn is_in_range(&self, value: &str) -> (r: bool)
        ensures
            r == pred_test(self.model(), value@),
    {
        match (&self.start, &self.end) {
            (Some(a), Some(b)) => match parse_number(self.kind, value) {
                Some(x) => decimal_le_exec(a, &x) && decimal_le_exec(&x, b),
                None => false,
            },
            _ => false,
        }
    }
}

/// `not(p)`: the negation of its one child.
#[derive(Debug)]
pub struct Not {
    next: Option<Box<Checker>>,
}

impl Not {
    pub fn new() -> (r: Not)
        ensures
            Checker::Not(r).model() == Pred::Not(None),
    {
        Not { next: None }
    }
}

/// A predicate: one variant per leaf and combinator.
#[derive(Debug)]
pub enum Checker {
    Empty(Empty),
    Eq(Eq),
    Expect(ExpectField),
    Compare(Generic),
    Len(Len),
    Range(Range),
    Not(Not),
    /// A left operand, and the right one once it has been supplied.
    And(Box<Checker>, Option<Box<Checker>>),
    Or(Box<Checker>, Option<Box<Checker>>),
}

impl Checker {
    pub closed spec fn model(&self) -> Pred
        decreases self,
    {
        match self {
            Checker::Empty(e) => e.model(),
            Checker::Eq(e) => e.model(),
            Checker::Expect(e) => e.model(),
            Checker::Compare(g) => g.model(),
            Checker::Len(l) => l.model(),
            Checker::Range(r) => r.model(),
            Checker::Not(n) => Pred::Not(
                match n.next {
                    Some(c) => Some(Box::new(c.model())),
                    None => None,
                },
            ),
            Checker::And(l, r) => Pred::And(
                Box::new(l.model()),
                match r {
                    Some(c) => Some(Box::new(c.model())),
                    None => None,
                },
            ),
            Checker::Or(l, r) => Pred::Or(
                Box::new(l.model()),
                match r {
                    Some(c) => Some(Box::new(c.model())),
                    None => None,
                },
            ),
        }
    }

    /// A leaf variant has the model of the leaf it holds.
    pub proof fn lemma_leaf_model(&self)
        ensures
            match self {
                Checker::Empty(e) => self.model() == e.model(),
                Checker::Eq(e) => self.model() == e.model(),
                Checker::Expect(e) => self.model() == e.model(),
                Checker::Compare(g) => self.model() == g.model(),
                Checker::Len(l) => self.model() == l.model(),
                Checker::Range(r) => self.model() == r.model(),
                _ => true,
            },
    {
    }

    /// `and` with its left operand, awaiting the right one.
    pub fn and_of(left: Checker) -> (r: Checker)
        ensures
            r.model() == Pred::And(Box::new(left.model()), None),
    {
        Checker::And(Box::new(left), None)
    }

    /// `or` with its left operand, awaiting the right one.
    pub fn or_of(left: Checker) -> (r: Checker)
        ensures
            r.model() == Pred::Or(Box::new(left.model()), None),
    {
        Checker::Or(Box::new(left), None)
    }

    /// The local judgement of one value.
    pub fn test(&self, value: &str) -> (r: bool)
        ensures
            r == pred_test(self.model(), value@),
        decreases self,
    {
        match self {
            Checker::Empty(_) => is_blank(value),
            Checker::Eq(e) => match &e.expect {
                Some(x) => eq_trimmed(value, x.as_str()),
                None => false,
            },
            Checker::Expect(_) => true,
            Checker::Compare(g) => match &g.base {
                Some(b) => match parse_number(g.kind, value) {
                    Some(x) => compare(g.op, &x, b),
                    None => false,
                },
                None => false,
            },
            Checker::Len(l) => match (l.len_min, l.len_max) {
                (Some(a), Some(b)) => {
                    let m: i128 = match l.kind {
                        LenKind::Chars => value.unicode_len() as i128,
                        LenKind::Items => count_char_exec(value, ',') as i128 + 1,
                        LenKind::Unsupported => return false,
                    };
                    a as i128 <= m && m <= b as i128
                },
                _ => false,
            },
            Checker::Range(r) => r.is_in_range(value),
            Checker::Not(n) => match &n.next {
                Some(c) => !c.test(value),
                None => false,
            },
            Checker::And(l, r) => match r {
                Some(c) => {
                    let a = l.test(value);
                    let b = c.test(value);
                    a && b
                },
                None => false,
            },
            Checker::Or(l, r) => match r {
                Some(c) => {
                    let a = l.test(value);
                    let b = c.test(value);
                    a || b
                },
                None => false,
            },
        }
    }

    /// Attaches a child where a child slot is free.
    pub fn add(&mut self, c: Checker) -> (r: bool)
        ensures
            match accept_child(old(self).model(), c.model()) {
                Some(p) => r && final(self).model() == p,
                None => !r && final(self).model() == old(self).model(),
            },
    {
        match self {
            Checker::Not(n) => {
                if n.next.is_none() {
                    n.next = Some(Box::new(c));
                    true
                } else {
                    false
                }
            },
            Checker::And(_, r) => {
                if r.is_none() {
                    *r = Some(Box::new(c));
                    true
                } else {
                    false
                }
            },
            Checker::Or(_, r) => {
                if r.is_none() {
                    *r = Some(Box::new(c));
                    true
                } else {
                    false
                }
            },
            _ => false,
        }
    }

    /// Fills the first free parameter slot with a literal.
    pub fn add_param(&mut self, param: String) -> (r: bool)
        ensures
            match accept_param(old(self).model(), param@) {
                Some(p) => r && final(self).model() == p,
                None => !r && final(self).model() == old(self).model(),
            },
    {
        match self {
            Checker::Eq(e) => {
                if e.expect.is_none() {
                    e.expect = Some(param);
                    true
                } else {
                    false
                }
            },
            Checker::Expect(x) => {
                if x.tab.is_none() {
                    x.tab = Some(strip_quotes_exec(&param));
                    true
                } else if x.field.is_none() {
                    x.field = Some(strip_quotes_exec(&param));
                    true
                } else {
                    false
                }
            },
            Checker::Compare(g) => {
                if g.base.is_none() {
                    match parse_bound(g.kind, param.as_str()) {
                        Some(d) => {
                            g.base = Some(d);
                            true
                        },
                        None => false,
                    }
                } else {
                    false
                }
            },
            Checker::Len(l) => {
                if l.len_min.is_none() || l.len_max.is_none() {
                    match parse_int(param.as_str()) {
                        Some(d) => {
                            let n = d.mantissa() as i32;
                            if l.len_min.is_none() {
                                l.len_min = Some(n);
                            } else {
                                l.len_max = Some(n);
                            }
                            true
                        },
                        None => false,
                    }
                } else {
                    false
                }
            },
            Checker::Range(rg) => rg.add_param(param),
            _ => false,
        }
    }

    /// Whether a child or parameter slot is still empty.
    pub fn expect_more(&self) -> (r: bool)
        ensures
            r == expects_more(self.model()),
    {
        match self {
            Checker::Empty(_) => false,
            Checker::Eq(e) => e.expect.is_none(),
            Checker::Expect(x) => x.tab.is_none() || x.field.is_none(),
            Checker::Compare(g) => g.base.is_none(),
            Checker::Len(l) => l.len_min.is_none() || l.len_max.is_none(),
            Checker::Range(r) => r.start.is_none() || r.end.is_none(),
            Checker::Not(n) => n.next.is_none(),
            Checker::And(_, r) => r.is_none(),
            Checker::Or(_, r) => r.is_none(),
        }
    }

    /// Whether the predicate holds an `expect`, and so needs the whole dataset.
    pub fn need_full_load(&self) -> (r: bool)
        ensures
            r == pred_needs(self.model()),
        decreases self,
    {
        match self {
            Checker::Expect(_) => true,
            Checker::Not(n) => match &n.next {
                Some(c) => c.need_full_load(),
                None => false,
            },
            Checker::And(l, r) | Checker::Or(l, r) => {
                let a = l.need_full_load();
                let b = match r {
                    Some(c) => c.need_full_load(),
                    None => false,
                };
                a || b
            },
            _ => false,
        }
    }

    fn eval_full(&self, value: &String, all: &ALLXLSX) -> (r: bool)
        ensures
            r == pred_eval_full(self.model(), value@, all@),
        decreases self,
    {
        match self {
            Checker::Expect(x) => match (&x.tab, &x.field) {
                (Some(t), Some(f)) => all.has_field(t, f, value),
                _ => true,
            },
            Checker::Not(n) => match &n.next {
                Some(c) => !c.eval_full(value, all),
                None => false,
            },
            Checker::And(l, r) => match r {
                Some(c) => {
                    let a = l.eval_full(value, all);
                    let b = c.eval_full(value, all);
                    a && b
                },
                None => false,
            },
            Checker::Or(l, r) => match r {
                Some(c) => {
                    let a = l.eval_full(value, all);
                    let b = c.eval_full(value, all);
                    a || b
                },
                None => false,
            },
            _ => self.test(value.as_str()),
        }
    }

    /// The global judgement of one value, with every table loaded.
    pub fn test_on_all_load(&self, value: &String, all: &ALLXLSX) -> (r: bool)
        ensures
            r == pred_global(self.model(), value@, all@),
    {
        if self.need_full_load() {
            self.eval_full(value, all)
        } else {
            true
        }
    }
}

/// The fresh leaf that a function name stands for.
pub fn func_name_to_checker_obj(name: &String, field_type: &str) -> (r: Option<Checker>)
    ensures
        match leaf_for_name(name@, field_type@) {
            Some(p) => match r {
                Some(c) => c.model() == p,
                None => false,
            },
            None => r is None,
        },
{
    let n = name.as_str();
    if same_text(n, "empty") {
        Some(Checker::Empty(Empty::new()))
    } else if same_text(n, "range") {
        Some(Checker::Range(Range::new(field_type)))
    } else if same_text(n, "gt") {
        Some(Checker::Compare(Generic::new(TypeGreater::Gt, field_type)))
    } else if same_text(n, "ge") {
        Some(Checker::Compare(Generic::new(TypeGreater::Ge, field_type)))
    } else if same_text(n, "lt") {
        Some(Checker::Compare(Generic::new(TypeGreater::Lt, field_type)))
    } else if same_text(n, "le") {
        Some(Checker::Compare(Generic::new(TypeGreater::Le, field_type)))
    } else if same_text(n, "eq") {
        Some(Checker::Eq(Eq::new()))
    } else if same_text(n, "len") {
        Some(Checker::Len(Len::new(field_type)))
    } else if same_text(n, "expect") {
        Some(Checker::Expect(ExpectField::new()))
    } else {
        None
    }
}

} // verus!
