//! Check sets, and the compiler from expression text to a check set: a build
//! stack of predicates and a pending stack of what is still open (a
//! predicate awaiting children or parameters, or a parenthesised group).

use vstd::prelude::*;
use crate::checker::{Checker, Not, func_name_to_checker_obj};
use crate::predicate::{
    Build, Pred, accept_child, accept_param, all_complete, cascade, compile_spec,
    expects_more, is_sentinel, run, set_global, set_needs, set_test, start_build, step,
};
use crate::text::{same_text, trim};
use crate::token::{Token, TokenView, has_long_bracket, lua_tokens, tokenize, tokens_view};
use crate::xlsx::ALLXLSX;

verus! {

/// The check set an expression text compiles to on a field of the given
/// type, or `None` where the text is malformed. Empty text, `c` and `~` mean
/// "no constraint".
pub open spec fn compile_expr(expr: Seq<char>, field_type: Seq<char>) -> Option<Seq<Pred>> {
    if is_sentinel(expr) {
        Some(Seq::empty())
    } else if has_long_bracket(expr) {
        None
    } else {
        compile_spec(lua_tokens(expr), field_type)
    }
}

pub open spec fn positions(p: Seq<(usize, bool)>) -> Seq<(int, bool)> {
    p.map_values(|x: (usize, bool)| (x.0 as int, x.1))
}

/// The compiled checks of one field: root predicates that must all pass.
#[derive(Debug)]
pub struct CheckObj {
    checkers: Vec<Checker>,
}

/// An expression that does not compile, with the context it came from (the
/// table that declares the field).
#[derive(Debug)]
pub struct CompileError {
    pub context: String,
    pub expr: String,
}

impl View for CheckObj {
    type V = Seq<Pred>;

    closed spec fn view(&self) -> Seq<Pred> {
        self.checkers@.map_values(|c: Checker| c.model())
    }
}

impl CheckObj {
    pub fn new() -> (r: CheckObj)
        ensures
            r@ == Seq::<Pred>::empty(),
    {
        let r = CheckObj { checkers: Vec::new() };
        assert(r@ =~= Seq::<Pred>::empty());
        r
    }

    /// The local pass: every root predicate accepts the value.
    pub fn test(&self, value: &String) -> (r: bool)
        ensures
            r == set_test(self@, value@),
    {
        let mut i: usize = 0;
        while i < self.checkers.len()
            invariant
                i <= self.checkers@.len(),
                self@.len() == self.checkers@.len(),
                forall|j: int| 0 <= j < i ==> #[trigger] crate::predicate::pred_test(self@[j], value@),
            decreases self.checkers.len() - i,
        {
            assert(self@[i as int] == self.checkers@[i as int].model());
            if !self.checkers[i].test(value.as_str()) {
                return false;
            }
            i = i + 1;
        }
        true
    }

    /// The global pass: every root predicate passes with all tables loaded.
    pub fn test_on_all_load(&self, value: &String, all: &ALLXLSX) -> (r: bool)
        ensures
            r == set_global(self@, value@, all@),
    {
        let mut i: usize = 0;
        while i < self.checkers.len()
            invariant
                i <= self.checkers@.len(),
                self@.len() == self.checkers@.len(),
                forall|j: int| 0 <= j < i ==> #[trigger] crate::predicate::pred_global(self@[j], value@, all@),
            decreases self.checkers.len() - i,
        {
            assert(self@[i as int] == self.checkers@[i as int].model());
            if !self.checkers[i].test_on_all_load(value, all) {
                return false;
            }
            i = i + 1;
        }
        true
    }

    /// Whether some root predicate needs the whole dataset.
    pub fn need_full_load(&self) -> (r: bool)
        ensures
            r == set_needs(self@),
    {
        let mut i: usize = 0;
        while i < self.checkers.len()
            invariant
                i <= self.checkers@.len(),
                self@.len() == self.checkers@.len(),
                forall|j: int| 0 <= j < i ==> !#[trigger] crate::predicate::pred_needs(self@[j]),
            decreases self.checkers.len() - i,
        {
            assert(self@[i as int] == self.checkers@[i as int].model());
            if self.checkers[i].need_full_load() {
                return true;
            }
            i = i + 1;
        }
        false
    }

    pub fn get(&self, id: usize) -> (r: Option<&Checker>)
        ensures
            match r {
                Some(c) => id < self@.len() && c.model() == self@[id as int],
                None => id >= self@.len(),
            },
    {
        if id < self.checkers.len() {
            Some(&self.checkers[id])
        } else {
            None
        }
    }

    pub fn get_mut(&mut self, id: usize) -> (r: Option<&mut Checker>)
        ensures
            match r {
                Some(c) => id < old(self)@.len() && c.model() == old(self)@[id as int]
                    && final(self)@ == old(self)@.update(id as int, final(c).model()),
                None => id >= old(self)@.len() && final(self)@ == old(self)@,
            },
    {
        if id < self.checkers.len() {
            Some(&mut self.checkers[id])
        } else {
            None
        }
    }

    pub fn add(&mut self, c: Checker)
        ensures
            final(self)@ == old(self)@.push(c.model()),
    {
        self.checkers.push(c);
        assert(self@ =~= old(self)@.push(c.model()));
    }

    pub fn pop(&mut self) -> (r: Option<Checker>)
        ensures
            old(self)@.len() > 0 ==> match r {
                Some(c) => c.model() == old(self)@.last() && final(self)@ == old(self)@.drop_last(),
                None => false,
            },
            old(self)@.len() == 0 ==> r is None && final(self)@ == old(self)@,
    {
        let r = self.checkers.pop();
        assert(old(self)@.len() > 0 ==> self@ =~= old(self)@.drop_last());
        r
    }

    pub fn len(&self) -> (r: usize)
        ensures
            r == self@.len(),
    {
        self.checkers.len()
    }

    pub fn is_empty(&self) -> (r: bool)
        ensures
            r == (self@.len() == 0),
    {
        self.checkers.len() == 0
    }

    fn is_ready(&self, index: usize) -> (r: bool)
        ensures
            r == (index < self@.len() && !expects_more(self@[index as int])),
    {
        if index < self.checkers.len() {
            !self.checkers[index].expect_more()
        } else {
            false
        }
    }

    fn is_all_ready(&self) -> (r: bool)
        ensures
            r == all_complete(self@),
    {
        let mut i: usize = 0;
        while i < self.checkers.len()
            invariant
                i <= self.checkers@.len(),
                self@.len() == self.checkers@.len(),
                forall|j: int| 0 <= j < i ==> !expects_more(#[trigger] self@[j]),
            decreases self.checkers.len() - i,
        {
            assert(self@[i as int] == self.checkers@[i as int].model());
            if self.checkers[i].expect_more() {
                return false;
            }
            i = i + 1;
        }
        true
    }

    fn add_child_at(&mut self, j: usize, c: Checker) -> (r: bool)
        requires
            j < old(self)@.len(),
        ensures
            match accept_child(old(self)@[j as int], c.model()) {
                Some(p) => r && final(self)@ == old(self)@.update(j as int, p),
                None => !r && final(self)@ == old(self)@,
            },
    {
        let ghost before = self.checkers@;
        let mut p = self.checkers.remove(j);
        let ok = p.add(c);
        self.checkers.insert(j, p);
        proof {
            assert(self.checkers@ =~= before.update(j as int, p));
            assert(self@ =~= old(self)@.update(j as int, p.model()));
            if !ok {
                assert(self@ =~= old(self)@);
            }
        }
        ok
    }

    fn add_param_at(&mut self, i: usize, param: String) -> (r: bool)
        requires
            i < old(self)@.len(),
        ensures
            match accept_param(old(self)@[i as int], param@) {
                Some(p) => r && final(self)@ == old(self)@.update(i as int, p),
                None => !r,
            },
    {
        let ghost before = self.checkers@;
        let mut p = self.checkers.remove(i);
        let ok = p.add_param(param);
        self.checkers.insert(i, p);
        proof {
            assert(self.checkers@ =~= before.update(i as int, p));
            assert(self@ =~= old(self)@.update(i as int, p.model()));
        }
        ok
    }

    /// The completion cascade after a closing parenthesis.
    fn check_finished(&mut self, expects: &mut Vec<(usize, bool)>) -> (r: bool)
        ensures
            match cascade(old(self)@, positions(old(expects)@)) {
                Some(b) => r && final(self)@ == b.stack && positions(final(expects)@) == b.pending
                    && !b.after_name,
                None => !r,
            },
    {
        let ghost goal = cascade(self@, positions(expects@));
        loop
            invariant
                goal == cascade(old(self)@, positions(old(expects)@)),
                cascade(self@, positions(expects@)) == goal,
            decreases self@.len(),
        {
            if expects.len() == 0 {
                return true;
            }
            let (j, group) = expects[expects.len() - 1];
            let n = self.checkers.len();
            proof {
                assert(positions(expects@).last() == (j as int, group));
            }
            if group || j == n {
                return true;
            }
            if n < 2 || j > n - 2 {
                return false;
            }
            let ghost stack = self@;
            let last = match self.checkers.pop() {
                Some(c) => c,
                None => {
                    return false;
                },
            };
            proof {
                assert(self@ =~= stack.drop_last());
                assert(last.model() == stack.last());
            }
            let ok = self.add_child_at(j, last);
            if !ok {
                return false;
            }
            let ghost before = expects@;
            expects.pop();
            proof {
                assert(positions(expects@) =~= positions(before).drop_last());
            }
        }
    }
}

/// Pushes a new open predicate.
fn open_checker(checker: &mut CheckObj, expects: &mut Vec<(usize, bool)>, c: Checker)
    ensures
        final(checker)@ == old(checker)@.push(c.model()),
        positions(final(expects)@) == positions(old(expects)@).push(
            (old(checker)@.len() as int, false),
        ),
{
    checker.add(c);
    let ghost before = expects@;
    expects.push((checker.len() - 1, false));
    proof {
        assert(positions(expects@) =~= positions(before).push((old(checker)@.len() as int, false)));
    }
}

pub open spec fn build_of(stack: Seq<Pred>, pending: Seq<(usize, bool)>, after_name: bool) -> Build {
    Build { stack, pending: positions(pending), after_name }
}

/// One token of the compiler.
fn process_one(
    checker: &mut CheckObj,
    expects: &mut Vec<(usize, bool)>,
    after_name: &mut bool,
    tok: &Token,
    field_type: &str,
) -> (r: bool)
    ensures
        match step(build_of(old(checker)@, old(expects)@, *old(after_name)), tok@, field_type@) {
            Some(b) => r && build_of(final(checker)@, final(expects)@, *final(after_name)) == b,
            None => !r,
        },
{
    let follows_name = *after_name;
    *after_name = false;
    match tok {
        Token::Not => {
            open_checker(checker, expects, Checker::Not(Not::new()));
            true
        },
        Token::And => match checker.pop() {
            Some(c) => {
                let ab = Checker::and_of(c);
                open_checker(checker, expects, ab);
                    true
            },
            None => false,
        },
        Token::Or => match checker.pop() {
            Some(c) => {
                let ob = Checker::or_of(c);
                open_checker(checker, expects, ob);
                true
            },
            None => false,
        },
        Token::OpenParen => {
            if !follows_name && expects.len() == 0 {
                return false;
            }
            if !follows_name {
                let ghost before = expects@;
                expects.push((checker.len(), true));
                proof {
                    assert(positions(expects@) =~= positions(before).push((checker@.len() as int, true)));
                }
            }
            true
        },
        Token::Comma => expects.len() > 0,
        Token::CloseParen => {
            if expects.len() == 0 {
                false
            } else {
                let (i, group) = expects[expects.len() - 1];
                proof {
                    assert(positions(expects@).last() == (i as int, group));
                }
                let n = checker.len();
                let placed = if group {
                    n >= 1 && i == n - 1
                } else {
                    i < n
                };
                if placed && checker.is_ready(i) {
                    let ghost before = expects@;
                    expects.pop();
                    proof {
                        assert(positions(expects@) =~= positions(before).drop_last());
                    }
                    checker.check_finished(expects)
                } else {
                    false
                }
            }
        },
        Token::Name(n) => match func_name_to_checker_obj(n, field_type) {
            Some(c) => {
                open_checker(checker, expects, c);
                *after_name = true;
                    true
            },
            None => false,
        },
        Token::Numeral(x) | Token::Literal(x) => {
            if checker.is_empty() || expects.len() == 0 {
                false
            } else {
                let (i, group) = expects[expects.len() - 1];
                assert(positions(expects@).last() == (i as int, group));
                if !group && i < checker.len() {
                    checker.add_param_at(i, x.clone())
                } else {
                    false
                }
            }
        },
        Token::Other => false,
    }
}

/// Compiles a token sequence into a check set.
pub fn compile_tokens(toks: &Vec<Token>, field_type: &str) -> (r: Option<CheckObj>)
    ensures
        match compile_spec(tokens_view(toks@), field_type@) {
            Some(ps) => match r {
                Some(c) => c@ == ps,
                None => false,
            },
            None => r is None,
        },
{
    let ghost tv = tokens_view(toks@);
    let mut checker = CheckObj::new();
    let mut expects: Vec<(usize, bool)> = Vec::new();
    let mut after_name = false;
    proof {
        assert(positions(expects@) =~= Seq::<(int, bool)>::empty());
        assert(tv.skip(0) =~= tv);
    }
    let mut i: usize = 0;
    while i < toks.len()
        invariant
            i <= toks@.len(),
            tv == tokens_view(toks@),
            tv.len() == toks@.len(),
            run(start_build(), tv, field_type@) == run(
                build_of(checker@, expects@, after_name),
                tv.skip(i as int),
                field_type@,
            ),
        decreases toks.len() - i,
    {
        let ghost cur = build_of(checker@, expects@, after_name);
        proof {
            assert(tv.skip(i as int)[0] == toks@[i as int]@);
            assert(tv.skip(i as int).drop_first() =~= tv.skip(i + 1));
        }
        let ok = process_one(&mut checker, &mut expects, &mut after_name, &toks[i], field_type);
        proof {
            let rest = tv.skip(i as int);
            assert(run(cur, rest, field_type@) == match step(cur, rest[0], field_type@) {
                Some(next) => run(next, rest.drop_first(), field_type@),
                None => None,
            });
        }
        if !ok {
            return None;
        }
        i = i + 1;
    }
    proof {
        assert(tv.skip(i as int) =~= Seq::<TokenView>::empty());
    }
    if expects.len() == 0 && checker.len() > 0 && checker.is_all_ready() {
        Some(checker)
    } else {
        None
    }
}

/// Compiles the constraint expression of a field. `fname` names where the
/// field is declared, for the error.
pub fn generate_checker(expr: String, field_type: String, fname: &String) -> (r: Result<CheckObj, CompileError>)
    ensures
        match compile_expr(expr@, field_type@) {
            Some(ps) => match r {
                Ok(c) => c@ == ps,
                Err(_) => false,
            },
            None => match r {
                Ok(_) => false,
                Err(e) => e.context@ == fname@ && e.expr@ == expr@,
            },
        },
{
    let t = trim(expr.as_str());
    if t.is_empty() || same_text(t, "c") || same_text(t, "~") {
        return Ok(CheckObj::new());
    }
    let compiled = match tokenize(expr.as_str()) {
        Some(toks) => compile_tokens(&toks, field_type.as_str()),
        None => None,
    };
    match compiled {
        Some(c) => Ok(c),
        None => Err(CompileError { context: fname.clone(), expr: expr.clone() }),
    }
}

} // verus!
