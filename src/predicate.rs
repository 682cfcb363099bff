//! The meaning of constraint expressions: predicates as mathematical values,
//! how they judge a value, and how a token sequence builds them.

use vstd::prelude::*;
use crate::number::{decimal_le, float_value, int_value, count_char};
use crate::text::{trimmed, occurs_in};
use crate::token::TokenView;

verus! {

/// The numeric domain of a comparison, chosen by the declared field type.
#[derive(Clone, Copy, Debug, PartialEq, Eq, Structural)]
pub enum NumKind {
    Float,
    Int,
    /// Neither `float` nor `int`: the comparison never passes.
    Unsupported,
}

/// What `len` counts, chosen by the declared field type.
#[derive(Clone, Copy, Debug, PartialEq, Eq, Structural)]
pub enum LenKind {
    /// Characters (`string` and `localize` fields).
    Chars,
    /// Comma-separated segments (`[]` fields).
    Items,
    /// Neither: the check never passes.
    Unsupported,
}

/// The comparison of `gt`, `ge`, `lt` and `le`.
#[derive(Clone, Copy, Debug, PartialEq, Eq, Structural)]
pub enum TypeGreater {
    Gt,
    Ge,
    Lt,
    Le,
}

/// A predicate, complete or still under construction (a `None` is a slot
/// that has not been filled yet).
pub enum Pred {
    Empty,
    Eq(Option<Seq<char>>),
    Expect(Option<Seq<char>>, Option<Seq<char>>),
    Compare(TypeGreater, NumKind, Option<(int, nat)>),
    Len(LenKind, Option<int>, Option<int>),
    Range(NumKind, Option<(int, nat)>, Option<(int, nat)>),
    Not(Option<Box<Pred>>),
    And(Box<Pred>, Option<Box<Pred>>),
    Or(Box<Pred>, Option<Box<Pred>>),
}

pub open spec fn num_kind_of(field_type: Seq<char>) -> NumKind {
    if occurs_in("float"@, field_type) {
        NumKind::Float
    } else if occurs_in("int"@, field_type) {
        NumKind::Int
    } else {
        NumKind::Unsupported
    }
}

pub open spec fn len_kind_of(field_type: Seq<char>) -> LenKind {
    if occurs_in("string"@, field_type) || occurs_in("localize"@, field_type) {
        LenKind::Chars
    } else if occurs_in("[]"@, field_type) {
        LenKind::Items
    } else {
        LenKind::Unsupported
    }
}

/// The numeric value of text in a domain.
pub open spec fn number_value(kind: NumKind, s: Seq<char>) -> Option<(int, nat)> {
    match kind {
        NumKind::Float => float_value(s),
        NumKind::Int => match int_value(s) {
            Some(v) => Some((v, 0nat)),
            None => None,
        },
        NumKind::Unsupported => None,
    }
}

/// The value a bound literal stands for. Without a numeric domain the check
/// never passes, and the literal is not read.
pub open spec fn bound_value(kind: NumKind, s: Seq<char>) -> Option<(int, nat)> {
    match kind {
        NumKind::Unsupported => Some((0int, 0nat)),
        _ => number_value(kind, s),
    }
}

/// `value <op> base`.
pub open spec fn compare_holds(op: TypeGreater, value: (int, nat), base: (int, nat)) -> bool {
    match op {
        TypeGreater::Gt => !decimal_le(value, base),
        TypeGreater::Ge => decimal_le(base, value),
        TypeGreater::Lt => !decimal_le(base, value),
        TypeGreater::Le => decimal_le(value, base),
    }
}

/// What `len` measures of a value.
pub open spec fn measure(kind: LenKind, v: Seq<char>) -> int {
    match kind {
        LenKind::Chars => v.len() as int,
        LenKind::Items => count_char(v, ',') as int + 1,
        LenKind::Unsupported => -1,
    }
}

/// The local judgement of a predicate on one value.
pub open spec fn pred_test(p: Pred, v: Seq<char>) -> bool
    decreases p,
{
    match p {
        Pred::Empty => trimmed(v).len() == 0,
        Pred::Eq(e) => match e {
            Some(x) => trimmed(v) == trimmed(x),
            None => false,
        },
        Pred::Expect(_, _) => true,
        Pred::Compare(op, kind, base) => match (base, number_value(kind, v)) {
            (Some(b), Some(x)) => compare_holds(op, x, b),
            _ => false,
        },
        Pred::Len(kind, lo, hi) => match (lo, hi) {
            (Some(a), Some(b)) => kind != LenKind::Unsupported && a <= measure(kind, v) <= b,
            _ => false,
        },
        Pred::Range(kind, lo, hi) => match (lo, hi, number_value(kind, v)) {
            (Some(a), Some(b), Some(x)) => decimal_le(a, x) && decimal_le(x, b),
            _ => false,
        },
        Pred::Not(c) => match c {
            Some(c) => !pred_test(*c, v),
            None => false,
        },
        Pred::And(l, r) => match r {
            Some(r) => pred_test(*l, v) && pred_test(*r, v),
            None => false,
        },
        Pred::Or(l, r) => match r {
            Some(r) => pred_test(*l, v) || pred_test(*r, v),
            None => false,
        },
    }
}

/// Whether a predicate needs the whole dataset: it holds an `expect`.
pub open spec fn pred_needs(p: Pred) -> bool
    decreases p,
{
    match p {
        Pred::Expect(_, _) => true,
        Pred::Not(c) => match c {
            Some(c) => pred_needs(*c),
            None => false,
        },
        Pred::And(l, r) | Pred::Or(l, r) => pred_needs(*l) || match r {
            Some(r) => pred_needs(*r),
            None => false,
        },
        _ => false,
    }
}

/// A table as the global pass sees it: its field names, and its rows of
/// values (one per field, in field order).
pub struct TableView {
    pub fields: Seq<Seq<char>>,
    pub rows: Seq<Seq<Seq<char>>>,
}

/// Some row of `t` has, under a field named `field`, a value equal to `v`
/// once both are trimmed.
pub open spec fn table_has_value(t: TableView, field: Seq<char>, v: Seq<char>) -> bool {
    exists|i: int, r: int|
        0 <= i < t.fields.len() && t.fields[i] == field && 0 <= r < t.rows.len() && i
            < t.rows[r].len() && #[trigger] trimmed(t.rows[r][i]) == trimmed(v)
}

/// Some table named `table` in the dataset has the value under `field`.
pub open spec fn dataset_has_value(
    ds: Seq<(Seq<char>, TableView)>,
    table: Seq<char>,
    field: Seq<char>,
    v: Seq<char>,
) -> bool {
    exists|k: int|
        0 <= k < ds.len() && ds[k].0 == table && #[trigger] table_has_value(ds[k].1, field, v)
}

/// A predicate judged with the dataset at hand: `expect` looks the value up,
/// every other leaf judges as in the local pass.
pub open spec fn pred_eval_full(p: Pred, v: Seq<char>, ds: Seq<(Seq<char>, TableView)>) -> bool
    decreases p,
{
    match p {
        Pred::Expect(t, f) => match (t, f) {
            (Some(t), Some(f)) => dataset_has_value(ds, t, f, v),
            _ => true,
        },
        Pred::Not(c) => match c {
            Some(c) => !pred_eval_full(*c, v, ds),
            None => false,
        },
        Pred::And(l, r) => match r {
            Some(r) => pred_eval_full(*l, v, ds) && pred_eval_full(*r, v, ds),
            None => false,
        },
        Pred::Or(l, r) => match r {
            Some(r) => pred_eval_full(*l, v, ds) || pred_eval_full(*r, v, ds),
            None => false,
        },
        _ => pred_test(p, v),
    }
}

/// The global judgement: a predicate that does not need the dataset passes.
pub open spec fn pred_global(p: Pred, v: Seq<char>, ds: Seq<(Seq<char>, TableView)>) -> bool {
    pred_needs(p) ==> pred_eval_full(p, v, ds)
}

/// A check set passes a value when every root predicate does.
pub open spec fn set_test(ps: Seq<Pred>, v: Seq<char>) -> bool {
    forall|i: int| 0 <= i < ps.len() ==> #[trigger] pred_test(ps[i], v)
}

pub open spec fn set_needs(ps: Seq<Pred>) -> bool {
    exists|i: int| 0 <= i < ps.len() && #[trigger] pred_needs(ps[i])
}

pub open spec fn set_global(ps: Seq<Pred>, v: Seq<char>, ds: Seq<(Seq<char>, TableView)>) -> bool {
    forall|i: int| 0 <= i < ps.len() ==> #[trigger] pred_global(ps[i], v, ds)
}

/// A predicate with a slot still empty.
pub open spec fn expects_more(p: Pred) -> bool {
    match p {
        Pred::Empty => false,
        Pred::Eq(e) => e is None,
        Pred::Expect(t, f) => t is None || f is None,
        Pred::Compare(_, _, b) => b is None,
        Pred::Len(_, a, b) => a is None || b is None,
        Pred::Range(_, a, b) => a is None || b is None,
        Pred::Not(c) => c is None,
        Pred::And(_, r) => r is None,
        Pred::Or(_, r) => r is None,
    }
}

/// `p` with child `c` attached, where `p` has a free child slot.
pub open spec fn accept_child(p: Pred, c: Pred) -> Option<Pred> {
    match p {
        Pred::Not(None) => Some(Pred::Not(Some(Box::new(c)))),
        Pred::And(l, None) => Some(Pred::And(l, Some(Box::new(c)))),
        Pred::Or(l, None) => Some(Pred::Or(l, Some(Box::new(c)))),
        _ => None,
    }
}

/// `s` without one layer of surrounding quotes (`'...'` or `"..."`).
pub open spec fn strip_quotes(s: Seq<char>) -> Seq<char> {
    if s.len() >= 2 && s[0] == s.last() && (s[0] == '\'' || s[0] == '"') {
        s.subrange(1, s.len() - 1)
    } else {
        s
    }
}

/// `p` with the literal `t` in its first free parameter slot.
pub open spec fn accept_param(p: Pred, t: Seq<char>) -> Option<Pred> {
    match p {
        Pred::Eq(None) => Some(Pred::Eq(Some(t))),
        Pred::Expect(None, f) => Some(Pred::Expect(Some(strip_quotes(t)), f)),
        Pred::Expect(Some(a), None) => Some(Pred::Expect(Some(a), Some(strip_quotes(t)))),
        Pred::Compare(op, kind, None) => match bound_value(kind, t) {
            Some(n) => Some(Pred::Compare(op, kind, Some(n))),
            None => None,
        },
        Pred::Len(kind, None, b) => match int_value(t) {
            Some(n) => Some(Pred::Len(kind, Some(n), b)),
            None => None,
        },
        Pred::Len(kind, Some(a), None) => match int_value(t) {
            Some(n) => Some(Pred::Len(kind, Some(a), Some(n))),
            None => None,
        },
        Pred::Range(kind, None, b) => match bound_value(kind, t) {
            Some(n) => Some(Pred::Range(kind, Some(n), b)),
            None => None,
        },
        Pred::Range(kind, Some(a), None) => match bound_value(kind, t) {
            Some(n) => Some(Pred::Range(kind, Some(a), Some(n))),
            None => None,
        },
        _ => None,
    }
}

/// The fresh leaf that a function name stands for, on a field of the given type.
pub open spec fn leaf_for_name(name: Seq<char>, field_type: Seq<char>) -> Option<Pred> {
    let nk = num_kind_of(field_type);
    if name == "empty"@ {
        Some(Pred::Empty)
    } else if name == "range"@ {
        Some(Pred::Range(nk, None, None))
    } else if name == "gt"@ {
        Some(Pred::Compare(TypeGreater::Gt, nk, None))
    } else if name == "ge"@ {
        Some(Pred::Compare(TypeGreater::Ge, nk, None))
    } else if name == "lt"@ {
        Some(Pred::Compare(TypeGreater::Lt, nk, None))
    } else if name == "le"@ {
        Some(Pred::Compare(TypeGreater::Le, nk, None))
    } else if name == "eq"@ {
        Some(Pred::Eq(None))
    } else if name == "len"@ {
        Some(Pred::Len(len_kind_of(field_type), None, None))
    } else if name == "expect"@ {
        Some(Pred::Expect(None, None))
    } else {
        None
    }
}

/// The compiler's state: the build stack; the pending stack of what is still
/// open, each entry a position and whether it opens a group (`true`: a
/// parenthesised group whose content starts at that position) or a predicate
/// (`false`: the predicate at that position awaits children or parameters);
/// and whether the last token was a function name, whose `(` opens its
/// argument list rather than a group.
pub struct Build {
    pub stack: Seq<Pred>,
    pub pending: Seq<(int, bool)>,
    pub after_name: bool,
}

/// The completion cascade: while the top pending entry is an open
/// predicate that is not at the end of the stack, the last predicate
/// becomes its child, which completes it. A group stops the cascade.
pub open spec fn cascade(stack: Seq<Pred>, pending: Seq<(int, bool)>) -> Option<Build>
    decreases stack.len(),
{
    if pending.len() == 0 || pending.last().1 || pending.last().0 == stack.len() {
        Some(Build { stack, pending, after_name: false })
    } else {
        let j = pending.last().0;
        if 0 <= j && j + 1 < stack.len() {
            let rest = stack.drop_last();
            match accept_child(rest[j], stack.last()) {
                Some(np) => cascade(rest.update(j, np), pending.drop_last()),
                None => None,
            }
        } else {
            None
        }
    }
}

/// Pushes a new open predicate.
pub open spec fn open_pred(st: Build, p: Pred, after_name: bool) -> Build {
    Build {
        stack: st.stack.push(p),
        pending: st.pending.push((st.stack.len() as int, false)),
        after_name,
    }
}

/// Hands a literal to the predicate at the top pending entry.
pub open spec fn param_step(st: Build, t: Seq<char>) -> Option<Build> {
    if st.stack.len() == 0 || st.pending.len() == 0 || st.pending.last().1 {
        None
    } else {
        let i = st.pending.last().0;
        if 0 <= i < st.stack.len() {
            match accept_param(st.stack[i], t) {
                Some(p) => Some(
                    Build { stack: st.stack.update(i, p), pending: st.pending, after_name: false },
                ),
                None => None,
            }
        } else {
            None
        }
    }
}

/// `)`: closes the argument list of the predicate on top of the pending
/// stack, which must then be complete, or closes the group on top, which
/// must hold exactly one complete predicate. Then the cascade runs.
pub open spec fn close_step(st: Build) -> Option<Build> {
    if st.pending.len() == 0 {
        None
    } else {
        let (i, group) = st.pending.last();
        let ok = if group {
            0 <= i && i + 1 == st.stack.len()
        } else {
            0 <= i < st.stack.len()
        };
        if ok && !expects_more(st.stack[i]) {
            cascade(st.stack, st.pending.drop_last())
        } else {
            None
        }
    }
}

/// One token of the compiler; `None` is a malformed expression. A `(` after a
/// function name opens its argument list; any other `(` opens a group, and
/// only where something is already open.
pub open spec fn step(st: Build, t: TokenView, field_type: Seq<char>) -> Option<Build> {
    match t {
        TokenView::Not => Some(open_pred(st, Pred::Not(None), false)),
        TokenView::And => if st.stack.len() == 0 {
            None
        } else {
            let rest = Build { stack: st.stack.drop_last(), ..st };
            Some(open_pred(rest, Pred::And(Box::new(st.stack.last()), None), false))
        },
        TokenView::Or => if st.stack.len() == 0 {
            None
        } else {
            let rest = Build { stack: st.stack.drop_last(), ..st };
            Some(open_pred(rest, Pred::Or(Box::new(st.stack.last()), None), false))
        },
        TokenView::OpenParen => if st.after_name {
            Some(Build { after_name: false, ..st })
        } else if st.pending.len() == 0 {
            None
        } else {
            Some(
                Build {
                    stack: st.stack,
                    pending: st.pending.push((st.stack.len() as int, true)),
                    after_name: false,
                },
            )
        },
        TokenView::Comma => if st.pending.len() == 0 {
            None
        } else {
            Some(Build { after_name: false, ..st })
        },
        TokenView::CloseParen => close_step(st),
        TokenView::Name(n) => match leaf_for_name(n, field_type) {
            Some(p) => Some(open_pred(st, p, true)),
            None => None,
        },
        TokenView::Numeral(x) => param_step(st, x),
        TokenView::Literal(x) => param_step(st, x),
        TokenView::Other => None,
    }
}

/// The compiler over a token sequence.
pub open spec fn run(st: Build, toks: Seq<TokenView>, field_type: Seq<char>) -> Option<Build>
    decreases toks.len(),
{
    if toks.len() == 0 {
        Some(st)
    } else {
        match step(st, toks[0], field_type) {
            Some(next) => run(next, toks.drop_first(), field_type),
            None => None,
        }
    }
}

pub open spec fn all_complete(ps: Seq<Pred>) -> bool {
    forall|i: int| 0 <= i < ps.len() ==> !expects_more(#[trigger] ps[i])
}

pub open spec fn start_build() -> Build {
    Build { stack: Seq::empty(), pending: Seq::empty(), after_name: false }
}

/// The root predicates that a token sequence compiles to, or `None` where it
/// is malformed: nothing may be left open, every root must be complete, and
/// there must be at least one root.
pub open spec fn compile_spec(toks: Seq<TokenView>, field_type: Seq<char>) -> Option<Seq<Pred>> {
    match run(start_build(), toks, field_type) {
        Some(b) => if b.pending.len() == 0 && all_complete(b.stack) && b.stack.len() > 0 {
            Some(b.stack)
        } else {
            None
        },
        None => None,
    }
}

/// Expression text that stands for "no constraint".
pub open spec fn is_sentinel(expr: Seq<char>) -> bool {
    let t = trimmed(expr);
    t.len() == 0 || t == "c"@ || t == "~"@
}

} // verus!
