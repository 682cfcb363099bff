//! Properties of the expression language, proved over the model.

use vstd::prelude::*;
use crate::compiler::{CheckObj, compile_expr};
use crate::number::decimal_le;
use crate::predicate::{
    Build, NumKind, Pred, TableView, TypeGreater, accept_child, accept_param, all_complete, cascade,
    compare_holds, compile_spec, dataset_has_value, expects_more, is_sentinel, leaf_for_name,
    len_kind_of, num_kind_of, number_value, pred_needs, pred_test, run, set_global, set_needs,
    set_test, start_build, step, strip_quotes,
};
use crate::number::{count_char, int_value};
use crate::text::{occurs_in, trimmed, trim_start, trim_end};
use crate::token::TokenView;

verus! {

/// The tokens of `name(a, b)`.
pub open spec fn call2(name: Seq<char>, a: TokenView, b: TokenView) -> Seq<TokenView> {
    seq![TokenView::Name(name), TokenView::OpenParen, a, TokenView::Comma, b, TokenView::CloseParen]
}

/// A literal token with the given text.
pub open spec fn is_literal(t: TokenView, x: Seq<char>) -> bool {
    t == TokenView::Numeral(x) || t == TokenView::Literal(x)
}

proof fn lemma_run_step(st: Build, toks: Seq<TokenView>, field_type: Seq<char>, next: Build)
    requires
        toks.len() > 0,
        step(st, toks[0], field_type) == Some(next),
    ensures
        run(st, toks, field_type) == run(next, toks.drop_first(), field_type),
{
}

/// `name(a, b)` compiles to the leaf that takes both literals.
proof fn lemma_call2(
    name: Seq<char>,
    a: TokenView,
    x: Seq<char>,
    b: TokenView,
    y: Seq<char>,
    field_type: Seq<char>,
    leaf: Pred,
    p1: Pred,
    p2: Pred,
)
    requires
        is_literal(a, x),
        is_literal(b, y),
        leaf_for_name(name, field_type) == Some(leaf),
        accept_param(leaf, x) == Some(p1),
        accept_param(p1, y) == Some(p2),
        !expects_more(p2),
    ensures
        compile_spec(call2(name, a, b), field_type) == Some(seq![p2]),
{
    let t0 = call2(name, a, b);
    let s0 = start_build();
    let s1 = Build { stack: seq![leaf], pending: seq![(0int, false)], after_name: true };
    let s2 = Build { after_name: false, ..s1 };
    let s3 = Build { stack: seq![p1], pending: seq![(0int, false)], after_name: false };
    let s5 = Build { stack: seq![p2], pending: seq![(0int, false)], after_name: false };
    let s6 = Build { stack: seq![p2], pending: Seq::empty(), after_name: false };
    assert(s0.stack.push(leaf) =~= s1.stack);
    assert(s0.pending.push((0, false)) =~= s1.pending);
    lemma_run_step(s0, t0, field_type, s1);
    let t1 = t0.drop_first();
    lemma_run_step(s1, t1, field_type, s2);
    let t2 = t1.drop_first();
    assert(s2.stack.update(0, p1) =~= s3.stack);
    lemma_run_step(s2, t2, field_type, s3);
    let t3 = t2.drop_first();
    lemma_run_step(s3, t3, field_type, s3);
    let t4 = t3.drop_first();
    assert(s3.stack.update(0, p2) =~= s5.stack);
    lemma_run_step(s3, t4, field_type, s5);
    let t5 = t4.drop_first();
    assert(s5.pending.drop_last() =~= s6.pending);
    assert(cascade(s5.stack, s6.pending) == Some(s6));
    lemma_run_step(s5, t5, field_type, s6);
    assert(t5.drop_first() =~= Seq::<TokenView>::empty());
    assert(all_complete(s6.stack));
}

/// The characters of the function names.
proof fn reveal_names()
    ensures
        "empty"@ == seq!['e', 'm', 'p', 't', 'y'],
        "range"@ == seq!['r', 'a', 'n', 'g', 'e'],
        "gt"@ == seq!['g', 't'],
        "ge"@ == seq!['g', 'e'],
        "lt"@ == seq!['l', 't'],
        "le"@ == seq!['l', 'e'],
        "eq"@ == seq!['e', 'q'],
        "len"@ == seq!['l', 'e', 'n'],
        "expect"@ == seq!['e', 'x', 'p', 'e', 'c', 't'],
{
    reveal_strlit("empty");
    reveal_strlit("range");
    reveal_strlit("gt");
    reveal_strlit("ge");
    reveal_strlit("lt");
    reveal_strlit("le");
    reveal_strlit("eq");
    reveal_strlit("len");
    reveal_strlit("expect");
    assert("empty"@ =~= seq!['e', 'm', 'p', 't', 'y']);
    assert("range"@ =~= seq!['r', 'a', 'n', 'g', 'e']);
    assert("gt"@ =~= seq!['g', 't']);
    assert("ge"@ =~= seq!['g', 'e']);
    assert("lt"@ =~= seq!['l', 't']);
    assert("le"@ =~= seq!['l', 'e']);
    assert("eq"@ =~= seq!['e', 'q']);
    assert("len"@ =~= seq!['l', 'e', 'n']);
    assert("expect"@ =~= seq!['e', 'x', 'p', 'e', 'c', 't']);
}

/// `range(a, b)` on a numeric field compiles to a single predicate that
/// accepts a value exactly when the value reads, in the field's domain, as a
/// number between the two bounds inclusive. The empty value is never accepted.
pub proof fn law_range(a: Seq<char>, b: Seq<char>, field_type: Seq<char>, v: Seq<char>)
    requires
        number_value(num_kind_of(field_type), a) is Some,
        number_value(num_kind_of(field_type), b) is Some,
    ensures
        ({
            let kind = num_kind_of(field_type);
            let lo = number_value(kind, a)->0;
            let hi = number_value(kind, b)->0;
            let ps = seq![Pred::Range(kind, Some(lo), Some(hi))];
            &&& compile_spec(
                call2("range"@, TokenView::Numeral(a), TokenView::Numeral(b)),
                field_type,
            ) == Some(ps)
            &&& set_test(ps, v) == match number_value(kind, v) {
                Some(x) => decimal_le(lo, x) && decimal_le(x, hi),
                None => false,
            }
            &&& !set_test(ps, Seq::empty())
        }),
{
    reveal_names();
    let kind = num_kind_of(field_type);
    let lo = number_value(kind, a)->0;
    let hi = number_value(kind, b)->0;
    let ps = seq![Pred::Range(kind, Some(lo), Some(hi))];
    lemma_call2(
        "range"@,
        TokenView::Numeral(a),
        a,
        TokenView::Numeral(b),
        b,
        field_type,
        Pred::Range(kind, None, None),
        Pred::Range(kind, Some(lo), None),
        Pred::Range(kind, Some(lo), Some(hi)),
    );
    assert(set_test(ps, v) == pred_test(ps[0], v));
    assert(number_value(kind, Seq::empty()) is None);
    assert(set_test(ps, Seq::empty()) == pred_test(ps[0], Seq::empty()));
}

/// `gt` and `lt` are strict, `ge` and `le` inclusive: on a value equal to
/// the bound `ge` and `le` pass while `gt` and `lt` fail; on any other value
/// `gt` agrees with `ge` and `lt` with `le`. A field type that names both
/// `float` and `int` compares as `float`.
pub proof fn law_strict_and_inclusive(x: (int, nat), b: (int, nat), field_type: Seq<char>)
    ensures
        decimal_le(x, b) && decimal_le(b, x) ==> {
            &&& compare_holds(TypeGreater::Ge, x, b)
            &&& compare_holds(TypeGreater::Le, x, b)
            &&& !compare_holds(TypeGreater::Gt, x, b)
            &&& !compare_holds(TypeGreater::Lt, x, b)
        },
        !(decimal_le(x, b) && decimal_le(b, x)) ==> {
            &&& compare_holds(TypeGreater::Gt, x, b) == compare_holds(TypeGreater::Ge, x, b)
            &&& compare_holds(TypeGreater::Lt, x, b) == compare_holds(TypeGreater::Le, x, b)
        },
        occurs_in("float"@, field_type) && occurs_in("int"@, field_type) ==> num_kind_of(field_type)
            == NumKind::Float,
{
}

/// `len(min, max)` counts characters on a `string` field, and on a `[]`
/// field (naming neither `string` nor `localize`) comma-separated segments,
/// empty ones included: one more comma is one more segment.
pub proof fn law_len(min: Seq<char>, max: Seq<char>, field_type: Seq<char>, v: Seq<char>)
    requires
        int_value(min) is Some,
        int_value(max) is Some,
    ensures
        ({
            let lo = int_value(min)->0;
            let hi = int_value(max)->0;
            let ps = seq![Pred::Len(len_kind_of(field_type), Some(lo), Some(hi))];
            &&& compile_spec(
                call2("len"@, TokenView::Numeral(min), TokenView::Numeral(max)),
                field_type,
            ) == Some(ps)
            &&& occurs_in("string"@, field_type) ==> set_test(ps, v) == (lo <= v.len() <= hi)
            &&& occurs_in("[]"@, field_type) && !occurs_in("string"@, field_type) && !occurs_in(
                "localize"@,
                field_type,
            ) ==> set_test(ps, v) == (lo <= count_char(v, ',') + 1 <= hi)
        }),
        count_char(v.push(','), ',') == count_char(v, ',') + 1,
{
    reveal_names();
    assert("len"@ != "le"@) by {
        assert("len"@.len() != "le"@.len());
    }
    let kind = len_kind_of(field_type);
    let lo = int_value(min)->0;
    let hi = int_value(max)->0;
    let ps = seq![Pred::Len(kind, Some(lo), Some(hi))];
    lemma_call2(
        "len"@,
        TokenView::Numeral(min),
        min,
        TokenView::Numeral(max),
        max,
        field_type,
        Pred::Len(kind, None, None),
        Pred::Len(kind, Some(lo), None),
        Pred::Len(kind, Some(lo), Some(hi)),
    );
    assert(set_test(ps, v) == pred_test(ps[0], v));
    assert(v.push(',').drop_last() =~= v);
}

/// `not empty()` and `not(empty())` both compile to the negation of
/// `empty()`: on every value one passes exactly when the other fails.
pub proof fn law_not_empty(field_type: Seq<char>, v: Seq<char>)
    ensures
        compile_spec(
            seq![TokenView::Name("empty"@), TokenView::OpenParen, TokenView::CloseParen],
            field_type,
        ) == Some(seq![Pred::Empty]),
        compile_spec(
            seq![
                TokenView::Not,
                TokenView::Name("empty"@),
                TokenView::OpenParen,
                TokenView::CloseParen,
            ],
            field_type,
        ) == Some(seq![Pred::Not(Some(Box::new(Pred::Empty)))]),
        compile_spec(
            seq![
                TokenView::Not,
                TokenView::OpenParen,
                TokenView::Name("empty"@),
                TokenView::OpenParen,
                TokenView::CloseParen,
                TokenView::CloseParen,
            ],
            field_type,
        ) == Some(seq![Pred::Not(Some(Box::new(Pred::Empty)))]),
        set_test(seq![Pred::Not(Some(Box::new(Pred::Empty)))], v) == !set_test(
            seq![Pred::Empty],
            v,
        ),
{
    reveal_names();
    let e = TokenView::Name("empty"@);
    let s0 = start_build();
    // empty()
    let a = seq![e, TokenView::OpenParen, TokenView::CloseParen];
    let sa = Build { stack: seq![Pred::Empty], pending: seq![(0int, false)], after_name: true };
    let sa2 = Build { after_name: false, ..sa };
    let sb = Build { stack: seq![Pred::Empty], pending: Seq::empty(), after_name: false };
    assert(s0.stack.push(Pred::Empty) =~= sa.stack);
    assert(s0.pending.push((0, false)) =~= sa.pending);
    lemma_run_step(s0, a, field_type, sa);
    lemma_run_step(sa, a.drop_first(), field_type, sa2);
    assert(sa2.pending.drop_last() =~= sb.pending);
    lemma_run_step(sa2, a.drop_first().drop_first(), field_type, sb);
    assert(a.drop_first().drop_first().drop_first() =~= Seq::<TokenView>::empty());
    assert(all_complete(sb.stack));
    // not empty()
    let n = Pred::Not(None);
    let nn = Pred::Not(Some(Box::new(Pred::Empty)));
    let t = seq![TokenView::Not, e, TokenView::OpenParen, TokenView::CloseParen];
    let s1 = Build { stack: seq![n], pending: seq![(0int, false)], after_name: false };
    let s2 = Build {
        stack: seq![n, Pred::Empty],
        pending: seq![(0int, false), (1int, false)],
        after_name: true,
    };
    let s3 = Build { after_name: false, ..s2 };
    let s4 = Build { stack: seq![nn], pending: Seq::empty(), after_name: false };
    assert(s0.stack.push(n) =~= s1.stack);
    assert(s0.pending.push((0, false)) =~= s1.pending);
    lemma_run_step(s0, t, field_type, s1);
    assert(s1.stack.push(Pred::Empty) =~= s2.stack);
    assert(s1.pending.push((1, false)) =~= s2.pending);
    lemma_run_step(s1, t.drop_first(), field_type, s2);
    lemma_run_step(s2, t.drop_first().drop_first(), field_type, s3);
    assert(s3.pending.drop_last() =~= seq![(0int, false)]);
    assert(s3.stack.drop_last() =~= seq![n]);
    assert(seq![n].update(0, nn) =~= s4.stack);
    assert(seq![(0int, false)].drop_last() =~= s4.pending);
    assert(cascade(s4.stack, s4.pending) == Some(s4));
    assert(cascade(s3.stack, seq![(0int, false)]) == Some(s4));
    lemma_run_step(s3, t.drop_first().drop_first().drop_first(), field_type, s4);
    assert(t.drop_first().drop_first().drop_first().drop_first() =~= Seq::<TokenView>::empty());
    assert(all_complete(s4.stack));
    assert(set_test(seq![nn], v) == pred_test(nn, v));
    assert(set_test(seq![Pred::Empty], v) == pred_test(Pred::Empty, v));
    // not(empty())
    let u = seq![
        TokenView::Not,
        TokenView::OpenParen,
        e,
        TokenView::OpenParen,
        TokenView::CloseParen,
        TokenView::CloseParen,
    ];
    let g1 = Build { stack: seq![n], pending: seq![(0int, false), (1int, true)], after_name: false };
    let g2 = Build {
        stack: seq![n, Pred::Empty],
        pending: seq![(0int, false), (1int, true), (1int, false)],
        after_name: true,
    };
    let g3 = Build { after_name: false, ..g2 };
    let g4 = Build {
        stack: seq![n, Pred::Empty],
        pending: seq![(0int, false), (1int, true)],
        after_name: false,
    };
    lemma_run_step(s0, u, field_type, s1);
    let u1 = u.drop_first();
    assert(s1.pending.push((1, true)) =~= g1.pending);
    lemma_run_step(s1, u1, field_type, g1);
    let u2 = u1.drop_first();
    assert(g1.stack.push(Pred::Empty) =~= g2.stack);
    assert(g1.pending.push((1, false)) =~= g2.pending);
    lemma_run_step(g1, u2, field_type, g2);
    let u3 = u2.drop_first();
    lemma_run_step(g2, u3, field_type, g3);
    let u4 = u3.drop_first();
    assert(g3.pending.drop_last() =~= g4.pending);
    assert(cascade(g3.stack, g4.pending) == Some(g4));
    lemma_run_step(g3, u4, field_type, g4);
    let u5 = u4.drop_first();
    assert(g4.pending.drop_last() =~= seq![(0int, false)]);
    assert(cascade(g4.stack, seq![(0int, false)]) == Some(s4));
    lemma_run_step(g4, u5, field_type, s4);
    assert(u5.drop_first() =~= Seq::<TokenView>::empty());
}

proof fn lemma_run_fails_at(st: Build, toks: Seq<TokenView>, field_type: Seq<char>, k: int)
    requires
        0 <= k < toks.len(),
        forall|s: Build| #[trigger] step(s, toks[k], field_type) is None,
    ensures
        run(st, toks, field_type) is None,
    decreases toks.len(),
{
    if k > 0 {
        match step(st, toks[0], field_type) {
            Some(next) => {
                assert(toks.drop_first()[k - 1] == toks[k]);
                lemma_run_fails_at(next, toks.drop_first(), field_type, k - 1);
            },
            None => {},
        }
    }
}

/// A malformed expression never compiles: one that names an unknown
/// function, one that starts with `and` or `or` (no left operand) or with
/// `(`, `)` or `,` (nothing open), and `name(` left unclosed.
pub proof fn law_malformed(toks: Seq<TokenView>, k: int, n: Seq<char>, field_type: Seq<char>)
    ensures
        0 <= k < toks.len() && toks[k] == TokenView::Name(n) && leaf_for_name(n, field_type) is None
            ==> compile_spec(toks, field_type) is None,
        toks.len() > 0 && (toks[0] == TokenView::And || toks[0] == TokenView::Or || toks[0]
            == TokenView::CloseParen || toks[0] == TokenView::OpenParen || toks[0]
            == TokenView::Comma) ==> compile_spec(toks, field_type) is None,
        compile_spec(seq![TokenView::Name(n), TokenView::OpenParen], field_type) is None,
{
    let s0 = start_build();
    if 0 <= k < toks.len() && toks[k] == TokenView::Name(n) && leaf_for_name(n, field_type) is None {
        lemma_run_fails_at(s0, toks, field_type, k);
    }
    let t = seq![TokenView::Name(n), TokenView::OpenParen];
    match leaf_for_name(n, field_type) {
        Some(p) => {
            let s1 = Build { stack: seq![p], pending: seq![(0int, false)], after_name: true };
            let s2 = Build { after_name: false, ..s1 };
            assert(s0.stack.push(p) =~= s1.stack);
            assert(s0.pending.push((0, false)) =~= s1.pending);
            lemma_run_step(s0, t, field_type, s1);
            lemma_run_step(s1, t.drop_first(), field_type, s2);
            assert(t.drop_first().drop_first() =~= Seq::<TokenView>::empty());
        },
        None => {},
    }
}

/// `expect(t, f)` always passes the local pass; it passes the global pass
/// exactly when table `t` holds the value under field `f` (quotes removed,
/// values compared trimmed); and its check set needs the dataset. Every
/// check set that holds a predicate needing the dataset needs it.
pub proof fn law_expect(
    t: Seq<char>,
    f: Seq<char>,
    field_type: Seq<char>,
    v: Seq<char>,
    ds: Seq<(Seq<char>, TableView)>,
    others: Seq<Pred>,
    i: int,
)
    ensures
        ({
            let ps = seq![Pred::Expect(Some(strip_quotes(t)), Some(strip_quotes(f)))];
            &&& compile_spec(
                call2("expect"@, TokenView::Literal(t), TokenView::Literal(f)),
                field_type,
            ) == Some(ps)
            &&& set_test(ps, v)
            &&& set_needs(ps)
            &&& set_global(ps, v, ds) == dataset_has_value(ds, strip_quotes(t), strip_quotes(f), v)
        }),
        0 <= i < others.len() && pred_needs(others[i]) ==> set_needs(others),
{
    reveal_names();
    let a = Some(strip_quotes(t));
    let b = Some(strip_quotes(f));
    let ps = seq![Pred::Expect(a, b)];
    lemma_call2(
        "expect"@,
        TokenView::Literal(t),
        t,
        TokenView::Literal(f),
        f,
        field_type,
        Pred::Expect(None, None),
        Pred::Expect(a, None),
        Pred::Expect(a, b),
    );
    assert(set_test(ps, v) == pred_test(ps[0], v));
    assert(pred_needs(ps[0]));
    assert(set_global(ps, v, ds) == crate::predicate::pred_global(ps[0], v, ds));
}

/// The empty text, `c` and `~` (with any surrounding whitespace) compile to
/// the empty check set, which accepts every value in both passes.
pub proof fn law_sentinel(e: Seq<char>, field_type: Seq<char>, v: Seq<char>, ds: Seq<(Seq<char>, TableView)>)
    ensures
        is_sentinel(""@),
        is_sentinel("c"@),
        is_sentinel("~"@),
        is_sentinel(e) ==> compile_expr(e, field_type) == Some(Seq::<Pred>::empty()),
        set_test(Seq::empty(), v),
        set_global(Seq::empty(), v, ds),
        !set_needs(Seq::empty()),
{
    reveal_strlit("");
    reveal_strlit("c");
    reveal_strlit("~");
    assert(""@ =~= Seq::<char>::empty());
    assert(trimmed(""@) =~= Seq::<char>::empty());
    assert("c"@ =~= seq!['c']);
    assert(seq!['c'].drop_first() =~= Seq::<char>::empty());
    assert(trim_start(seq!['c']) == seq!['c']);
    assert(trim_end(seq!['c']) == seq!['c']);
    assert("~"@ =~= seq!['~']);
    assert(trim_start(seq!['~']) == seq!['~']);
    assert(trim_end(seq!['~']) == seq!['~']);
}

/// A `range` with both bounds accepts a value exactly when the value reads,
/// in the domain, as a number between the bounds inclusive. The empty
/// value, text that does not read as a number, and a field type with no
/// numeric domain are never accepted.
pub proof fn law_range_bounds(kind: NumKind, lo: (int, nat), hi: (int, nat), v: Seq<char>)
    ensures
        pred_test(Pred::Range(kind, Some(lo), Some(hi)), v) == match number_value(kind, v) {
            Some(x) => decimal_le(lo, x) && decimal_le(x, hi),
            None => false,
        },
        !pred_test(Pred::Range(kind, Some(lo), Some(hi)), Seq::empty()),
        !pred_test(Pred::Range(NumKind::Unsupported, Some(lo), Some(hi)), v),
{
    lemma_empty_has_no_number(kind);
}

/// `gt` and `lt` pass only on values strictly beyond the bound, `ge` and
/// `le` also on the bound itself; none passes the empty value or text that
/// does not read as a number.
pub proof fn law_compare_bounds(kind: NumKind, b: (int, nat), v: Seq<char>)
    ensures
        number_value(kind, v) matches Some(x) ==> {
            &&& pred_test(Pred::Compare(TypeGreater::Gt, kind, Some(b)), v) == !decimal_le(x, b)
            &&& pred_test(Pred::Compare(TypeGreater::Ge, kind, Some(b)), v) == decimal_le(b, x)
            &&& pred_test(Pred::Compare(TypeGreater::Lt, kind, Some(b)), v) == !decimal_le(b, x)
            &&& pred_test(Pred::Compare(TypeGreater::Le, kind, Some(b)), v) == decimal_le(x, b)
        },
        number_value(kind, v) is None ==> {
            &&& !pred_test(Pred::Compare(TypeGreater::Gt, kind, Some(b)), v)
            &&& !pred_test(Pred::Compare(TypeGreater::Ge, kind, Some(b)), v)
            &&& !pred_test(Pred::Compare(TypeGreater::Lt, kind, Some(b)), v)
            &&& !pred_test(Pred::Compare(TypeGreater::Le, kind, Some(b)), v)
        },
        number_value(kind, Seq::empty()) is None,
{
    lemma_empty_has_no_number(kind);
}

proof fn lemma_empty_has_no_number(kind: NumKind)
    ensures
        number_value(kind, Seq::empty()) is None,
{
    let e = Seq::<char>::empty();
    assert(crate::number::unsigned_part(e) =~= e);
    assert(crate::number::without_points(e) =~= e);
    assert(!(exists|p: int| crate::number::first_exp_mark(e, p)));
}

/// A predicate that holds an `expect` anywhere, at its root or under `not`,
/// `and` or `or`, needs the dataset, and so does every check set holding it.
pub proof fn law_needs_nested(p: Pred, q: Pred, ps: Seq<Pred>, i: int)
    ensures
        pred_needs(Pred::Not(Some(Box::new(p)))) == pred_needs(p),
        pred_needs(Pred::And(Box::new(p), Some(Box::new(q)))) == (pred_needs(p) || pred_needs(q)),
        pred_needs(Pred::Or(Box::new(p), Some(Box::new(q)))) == (pred_needs(p) || pred_needs(q)),
        pred_needs(Pred::Expect(None, None)),
        0 <= i < ps.len() && pred_needs(ps[i]) ==> set_needs(ps),
{
}

/// Pending entries moved up by `k` positions.
pub open spec fn shift_open(pending: Seq<(int, bool)>, k: int) -> Seq<(int, bool)> {
    pending.map_values(|e: (int, bool)| (e.0 + k, e.1))
}

/// The state `b` placed above an outer build stack and pending stack.
pub open spec fn nested(b: Build, outer: Seq<Pred>, open: Seq<(int, bool)>) -> Build {
    Build {
        stack: outer + b.stack,
        pending: open + shift_open(b.pending, outer.len() as int),
        after_name: b.after_name,
    }
}

proof fn lemma_cascade_nested(
    stack: Seq<Pred>,
    pending: Seq<(int, bool)>,
    outer: Seq<Pred>,
    open: Seq<(int, bool)>,
)
    requires
        open.len() > 0,
        open.last().1,
        cascade(stack, pending) is Some,
    ensures
        cascade(outer + stack, open + shift_open(pending, outer.len() as int)) == Some(
            nested(cascade(stack, pending)->0, outer, open),
        ),
    decreases stack.len(),
{
    let k = outer.len() as int;
    let ns = outer + stack;
    let np = open + shift_open(pending, k);
    if pending.len() == 0 {
        assert(np =~= open);
        assert(open + shift_open(Seq::<(int, bool)>::empty(), k) =~= open);
    } else {
        assert(np.last() == (pending.last().0 + k, pending.last().1));
        if pending.last().1 || pending.last().0 == stack.len() {
        } else {
            let j = pending.last().0;
            let rest = stack.drop_last();
            let c = accept_child(rest[j], stack.last())->0;
            assert(ns.drop_last() =~= outer + rest);
            assert(ns.last() == stack.last());
            assert((outer + rest)[j + k] == rest[j]);
            assert((outer + rest).update(j + k, c) =~= outer + rest.update(j, c));
            assert(np.drop_last() =~= open + shift_open(pending.drop_last(), k));
            lemma_cascade_nested(rest.update(j, c), pending.drop_last(), outer, open);
        }
    }
}

proof fn lemma_step_nested(
    b: Build,
    t: TokenView,
    field_type: Seq<char>,
    outer: Seq<Pred>,
    open: Seq<(int, bool)>,
)
    requires
        open.len() > 0,
        open.last().1,
        step(b, t, field_type) is Some,
    ensures
        step(nested(b, outer, open), t, field_type) == Some(
            nested(step(b, t, field_type)->0, outer, open),
        ),
{
    let k = outer.len() as int;
    let nb = nested(b, outer, open);
    let len = b.stack.len() as int;
    assert(nb.stack.len() == k + len);
    match t {
        TokenView::And | TokenView::Or => {
            assert(nb.stack.last() == b.stack.last());
            assert(nb.stack.drop_last() =~= outer + b.stack.drop_last());
            let p = if t == TokenView::And {
                Pred::And(Box::new(b.stack.last()), None)
            } else {
                Pred::Or(Box::new(b.stack.last()), None)
            };
            assert((outer + b.stack.drop_last()).push(p) =~= outer + b.stack.drop_last().push(p));
            assert(nb.pending.push((k + len - 1, false)) =~= open + shift_open(
                b.pending.push((len - 1, false)),
                k,
            ));
        },
        TokenView::CloseParen => {
            let (i, g) = b.pending.last();
            assert(nb.pending.last() == (i + k, g));
            assert(nb.stack[i + k] == b.stack[i]);
            assert(nb.pending.drop_last() =~= open + shift_open(b.pending.drop_last(), k));
            lemma_cascade_nested(b.stack, b.pending.drop_last(), outer, open);
        },
        TokenView::Numeral(x) | TokenView::Literal(x) => {
            let i = b.pending.last().0;
            assert(nb.pending.last() == (i + k, b.pending.last().1));
            assert(nb.stack[i + k] == b.stack[i]);
            let p = accept_param(b.stack[i], x)->0;
            assert(nb.stack.update(i + k, p) =~= outer + b.stack.update(i, p));
        },
        TokenView::OpenParen => {
            assert(nb.pending.push((k + len, true)) =~= open + shift_open(
                b.pending.push((len, true)),
                k,
            ));
        },
        TokenView::Comma => {},
        _ => {
            let p = match t {
                TokenView::Not => Pred::Not(None),
                TokenView::Name(n) => leaf_for_name(n, field_type)->0,
                _ => Pred::Empty,
            };
            assert(nb.stack.push(p) =~= outer + b.stack.push(p));
            assert(nb.pending.push((k + len, false)) =~= open + shift_open(
                b.pending.push((len, false)),
                k,
            ));
        },
    }
}

proof fn lemma_run_nested(
    b: Build,
    toks: Seq<TokenView>,
    field_type: Seq<char>,
    outer: Seq<Pred>,
    open: Seq<(int, bool)>,
)
    requires
        open.len() > 0,
        open.last().1,
        run(b, toks, field_type) is Some,
    ensures
        run(nested(b, outer, open), toks, field_type) == Some(
            nested(run(b, toks, field_type)->0, outer, open),
        ),
    decreases toks.len(),
{
    if toks.len() > 0 {
        let next = step(b, toks[0], field_type)->0;
        lemma_step_nested(b, toks[0], field_type, outer, open);
        lemma_run_nested(next, toks.drop_first(), field_type, outer, open);
    }
}

proof fn lemma_run_concat(st: Build, a: Seq<TokenView>, b: Seq<TokenView>, field_type: Seq<char>)
    ensures
        run(st, a + b, field_type) == match run(st, a, field_type) {
            Some(m) => run(m, b, field_type),
            None => None,
        },
    decreases a.len(),
{
    if a.len() == 0 {
        assert(a + b =~= b);
    } else {
        assert((a + b)[0] == a[0]);
        assert((a + b).drop_first() =~= a.drop_first() + b);
        match step(st, a[0], field_type) {
            Some(next) => lemma_run_concat(next, a.drop_first(), b, field_type),
            None => {},
        }
    }
}

/// Where a token sequence `x` compiles to a single root `p`, `not ( x )`
/// compiles to the negation of `p`: on every value it passes exactly when
/// `p` fails.
pub proof fn law_not_group(x: Seq<TokenView>, field_type: Seq<char>, p: Pred, v: Seq<char>)
    requires
        compile_spec(x, field_type) == Some(seq![p]),
    ensures
        compile_spec(
            seq![TokenView::Not, TokenView::OpenParen] + x + seq![TokenView::CloseParen],
            field_type,
        ) == Some(seq![Pred::Not(Some(Box::new(p)))]),
        set_test(seq![Pred::Not(Some(Box::new(p)))], v) == !set_test(seq![p], v),
{
    let n = Pred::Not(None);
    let np = Pred::Not(Some(Box::new(p)));
    let head = seq![TokenView::Not, TokenView::OpenParen];
    let tail = seq![TokenView::CloseParen];
    let s0 = start_build();
    let s1 = Build { stack: seq![n], pending: seq![(0int, false)], after_name: false };
    let open = seq![(0int, false), (1int, true)];
    let g1 = Build { stack: seq![n], pending: open, after_name: false };
    assert(s0.stack.push(n) =~= s1.stack);
    assert(s0.pending.push((0, false)) =~= s1.pending);
    assert(s1.pending.push((1, true)) =~= open);
    lemma_run_step(s0, head, field_type, s1);
    lemma_run_step(s1, head.drop_first(), field_type, g1);
    assert(head.drop_first().drop_first() =~= Seq::<TokenView>::empty());
    assert(run(s0, head, field_type) == Some(g1));
    assert(nested(s0, seq![n], open) =~= g1) by {
        assert(seq![n] + s0.stack =~= seq![n]);
        assert(open + shift_open(s0.pending, 1) =~= open);
    }
    let bx = run(s0, x, field_type)->0;
    lemma_run_nested(s0, x, field_type, seq![n], open);
    let m = nested(bx, seq![n], open);
    assert(bx.pending.len() == 0 && bx.stack == seq![p]);
    assert(m.stack =~= seq![n, p]);
    assert(m.pending =~= open);
    let fin = Build { stack: seq![np], pending: Seq::empty(), after_name: false };
    assert(open.drop_last() =~= seq![(0int, false)]);
    assert(seq![n, p].drop_last() =~= seq![n]);
    assert(seq![n].update(0, np) =~= fin.stack);
    assert(seq![(0int, false)].drop_last() =~= fin.pending);
    assert(cascade(fin.stack, fin.pending) == Some(fin));
    assert(cascade(m.stack, seq![(0int, false)]) == Some(fin));
    lemma_run_step(m, tail, field_type, fin);
    assert(tail.drop_first() =~= Seq::<TokenView>::empty());
    lemma_run_concat(s0, head, x, field_type);
    lemma_run_concat(s0, head + x, tail, field_type);
    assert(all_complete(fin.stack));
    assert(set_test(seq![np], v) == pred_test(np, v));
    assert(set_test(seq![p], v) == pred_test(p, v));
}

/// Every root predicate of a compiled check set is complete: no child or
/// parameter slot is left empty. Text other than "no constraint" never
/// compiles to an empty check set.
pub proof fn law_compiled_complete(e: Seq<char>, field_type: Seq<char>)
    ensures
        compile_expr(e, field_type) matches Some(ps) ==> all_complete(ps),
        !is_sentinel(e) ==> (compile_expr(e, field_type) matches Some(ps) ==> ps.len() >= 1),
{
}

/// Compiling the same text twice gives check sets that judge every value
/// alike, in both passes.
pub proof fn law_idempotent(
    e: Seq<char>,
    field_type: Seq<char>,
    c1: CheckObj,
    c2: CheckObj,
    v: Seq<char>,
    ds: Seq<(Seq<char>, TableView)>,
)
    requires
        compile_expr(e, field_type) == Some(c1@),
        compile_expr(e, field_type) == Some(c2@),
    ensures
        c1@ == c2@,
        set_test(c1@, v) == set_test(c2@, v),
        set_global(c1@, v, ds) == set_global(c2@, v, ds),
        set_needs(c1@) == set_needs(c2@),
{
}

} // verus!
