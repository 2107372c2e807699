//! The evaluator: walks statements and expressions against a scope chain and
//! collects what `print` writes.
use vstd::prelude::*;
use crate::env::{
    assign_chain, define_chain, lemma_assign_iff_lookup, lemma_assign_keeps_names, lemma_lookup_none,
    lemma_none_binds, lookup, same_names, Env,
};
use crate::expression::Expr;
use crate::number::{lemma_make_exact, num_add, num_div, num_eq, num_less, num_mul, num_neg, num_sub, Number};
use crate::statement::Stmt;
use crate::token::{value_text, Literal, Token, TokenType, Value};

verus! {

/// A runtime value.
#[derive(Debug)]
pub struct Object {
    pub value: Literal,
}

impl View for Object {
    type V = Value;

    open spec fn view(&self) -> Value {
        self.value@
    }
}

impl Clone for Object {
    fn clone(&self) -> (r: Self)
        ensures
            r == *self,
    {
        Object { value: self.value.clone() }
    }
}

/// What stops a running program. Each carries the source line it arose at,
/// where one is known.
#[derive(Debug)]
pub enum RuntimeError {
    /// A name read that no scope binds.
    VarNotFound(String, usize),
    /// A name assigned that no scope binds.
    UndefinedAssign(String, usize),
    /// An arithmetic operator or `-` applied to something other than numbers.
    NotANumber(TokenType, usize),
    /// A comparison of something other than numbers.
    NotComparable(usize),
    DivideByZero(usize),
    /// An operator that has no meaning in this position.
    UnsupportedOperator(TokenType, usize),
    /// An exact result whose numerator or denominator leaves `i64`.
    Overflow(usize),
    /// A `while` loop that ran more iterations than the interpreter allows.
    LoopLimit,
}

/// The scope chain, outermost first.
pub type Chain = Seq<Map<Seq<char>, Value>>;

/// Truthiness of a value in conditions and logical operators: a boolean is
/// itself, a number is true when it is zero, a string when it is not empty, and
/// `nil` is false.
pub open spec fn truthy(v: Value) -> bool {
    match v {
        Value::Bool(b) => b,
        Value::Number(n) => n.numer() == 0,
        Value::Str(s) => s.len() > 0,
        Value::Nil => false,
    }
}

/// The result of `!`: a boolean is negated, a number gives whether it is zero,
/// a string whether it is not empty, and `nil` gives false.
pub open spec fn bang(v: Value) -> bool {
    match v {
        Value::Bool(b) => !b,
        Value::Number(n) => n.numer() == 0,
        Value::Str(s) => s.len() > 0,
        Value::Nil => false,
    }
}

/// The value of a unary operator applied to `v`.
pub open spec fn unary_value(op: TokenType, v: Value, line: usize) -> Result<Value, RuntimeError> {
    match op {
        TokenType::MINUS => match v {
            Value::Number(n) => match num_neg(n) {
                Some(m) => Ok(Value::Number(m)),
                None => Err(RuntimeError::Overflow(line)),
            },
            _ => Err(RuntimeError::NotANumber(op, line)),
        },
        TokenType::BANG => Ok(Value::Bool(bang(v))),
        _ => Err(RuntimeError::UnsupportedOperator(op, line)),
    }
}

pub open spec fn is_arithmetic(op: TokenType) -> bool {
    op == TokenType::MINUS || op == TokenType::PLUS || op == TokenType::STAR || op == TokenType::SLASH
}

pub open spec fn is_comparison(op: TokenType) -> bool {
    op == TokenType::LESS || op == TokenType::LESS_EQUAL || op == TokenType::GREATER
        || op == TokenType::GREATER_EQUAL || op == TokenType::EQUAL_EQUAL
}

/// Arithmetic on two numbers: exact, with division by zero an error.
pub open spec fn arith(op: TokenType, a: Number, b: Number, line: usize) -> Result<Value, RuntimeError> {
    let r = if op == TokenType::MINUS {
        num_sub(a, b)
    } else if op == TokenType::PLUS {
        num_add(a, b)
    } else if op == TokenType::STAR {
        num_mul(a, b)
    } else {
        num_div(a, b)
    };
    if op == TokenType::SLASH && b.numer() == 0 {
        Err(RuntimeError::DivideByZero(line))
    } else {
        match r {
            Some(n) => Ok(Value::Number(n)),
            None => Err(RuntimeError::Overflow(line)),
        }
    }
}

/// A comparison of two numbers by value.
pub open spec fn compare(op: TokenType, a: Number, b: Number) -> bool {
    if op == TokenType::LESS {
        num_less(a, b)
    } else if op == TokenType::LESS_EQUAL {
        num_less(a, b) || num_eq(a, b)
    } else if op == TokenType::GREATER {
        num_less(b, a)
    } else if op == TokenType::GREATER_EQUAL {
        !num_less(a, b)
    } else {
        num_eq(a, b)
    }
}

/// The value of a binary operator on two evaluated operands. Only numbers take
/// part in arithmetic and comparison.
pub open spec fn binary_value(op: TokenType, l: Value, r: Value, line: usize) -> Result<Value, RuntimeError> {
    if is_arithmetic(op) {
        match (l, r) {
            (Value::Number(a), Value::Number(b)) => arith(op, a, b, line),
            _ => Err(RuntimeError::NotANumber(op, line)),
        }
    } else if is_comparison(op) {
        match (l, r) {
            (Value::Number(a), Value::Number(b)) => Ok(Value::Bool(compare(op, a, b))),
            _ => Err(RuntimeError::NotComparable(line)),
        }
    } else {
        Err(RuntimeError::UnsupportedOperator(op, line))
    }
}

/// Evaluation of an expression against a scope chain: its value or error, and
/// the chain afterwards (assignment rebinds). Operands are evaluated left to
/// right; `and` / `or` evaluate their right side only when the left does not
/// decide, and yield an operand unchanged. An assignment yields `nil`.
pub open spec fn eval(e: Expr, c: Chain) -> (Result<Value, RuntimeError>, Chain)
    decreases e,
{
    match e {
        Expr::Literal(v) => (Ok(v@), c),
        Expr::Grouping(g) => eval(*g, c),
        Expr::Unary(op, x) => {
            let (r, c1) = eval(*x, c);
            match r {
                Ok(v) => (unary_value(op.token_type, v, op.line), c1),
                Err(err) => (Err(err), c1),
            }
        },
        Expr::Binary(l, op, r) => {
            let (lr, c1) = eval(*l, c);
            match lr {
                Err(err) => (Err(err), c1),
                Ok(lv) => {
                    let (rr, c2) = eval(*r, c1);
                    match rr {
                        Err(err) => (Err(err), c2),
                        Ok(rv) => (binary_value(op.token_type, lv, rv, op.line), c2),
                    }
                },
            }
        },
        Expr::Logical(l, op, r) => {
            let (lr, c1) = eval(*l, c);
            match lr {
                Err(err) => (Err(err), c1),
                Ok(lv) => {
                    if op.token_type == TokenType::OR {
                        if truthy(lv) { (Ok(lv), c1) } else { eval(*r, c1) }
                    } else {
                        if !truthy(lv) { (Ok(lv), c1) } else { eval(*r, c1) }
                    }
                },
            }
        },
        Expr::Var(t) => match lookup(c, t.lexeme@) {
            Some(v) => (Ok(v), c),
            None => (Err(RuntimeError::VarNotFound(t.lexeme, t.line)), c),
        },
        Expr::Assign(t, x) => {
            let (r, c1) = eval(*x, c);
            match r {
                Err(err) => (Err(err), c1),
                Ok(v) => match assign_chain(c1, t.lexeme@, v) {
                    Some(c2) => (Ok(Value::Nil), c2),
                    None => (Err(RuntimeError::UndefinedAssign(t.lexeme, t.line)), c1),
                },
            }
        },
    }
}

/// The state a program runs in: the scope chain and the lines printed so far.
pub struct Machine {
    pub scopes: Chain,
    pub out: Seq<Seq<char>>,
}

/// The chain after leaving a block; the global scope stays.
pub open spec fn pop_scope(c: Chain) -> Chain {
    if c.len() > 1 { c.drop_last() } else { c }
}

/// Running one statement. A `while` loop runs its body at most `limit` times
/// before it stops with `LoopLimit`.
pub open spec fn run(s: Stmt, m: Machine, limit: nat) -> (Result<(), RuntimeError>, Machine)
    decreases s, 0nat,
{
    match s {
        Stmt::Expression(e) => {
            let (r, c) = eval(e, m.scopes);
            (match r { Ok(_) => Ok(()), Err(err) => Err(err) }, Machine { scopes: c, out: m.out })
        },
        Stmt::Print(e) => {
            let (r, c) = eval(e, m.scopes);
            match r {
                Ok(v) => (Ok(()), Machine { scopes: c, out: m.out.push(value_text(v)) }),
                Err(err) => (Err(err), Machine { scopes: c, out: m.out }),
            }
        },
        Stmt::Var(t, init) => match init {
            None => (Ok(()), Machine { scopes: define_chain(m.scopes, t.lexeme@, Value::Nil), out: m.out }),
            Some(e) => {
                let (r, c) = eval(e, m.scopes);
                match r {
                    Ok(v) => (Ok(()), Machine { scopes: define_chain(c, t.lexeme@, v), out: m.out }),
                    Err(err) => (Err(err), Machine { scopes: c, out: m.out }),
                }
            },
        },
        Stmt::Block(v) => {
            let (r, m1) = run_seq(v, 0, Machine { scopes: m.scopes.push(Map::empty()), out: m.out }, limit);
            (r, Machine { scopes: pop_scope(m1.scopes), out: m1.out })
        },
        Stmt::If(cond, then_branch, else_branch) => {
            let (r, c) = eval(cond, m.scopes);
            let m1 = Machine { scopes: c, out: m.out };
            match r {
                Err(err) => (Err(err), m1),
                Ok(v) => if truthy(v) {
                    run(*then_branch, m1, limit)
                } else {
                    match *else_branch {
                        Some(e) => run(e, m1, limit),
                        None => (Ok(()), m1),
                    }
                },
            }
        },
        Stmt::While(cond, body) => run_loop(cond, *body, m, limit, limit),
    }
}

/// A `while` loop with at most `k` more iterations allowed.
pub open spec fn run_loop(cond: Expr, body: Stmt, m: Machine, limit: nat, k: nat)
    -> (Result<(), RuntimeError>, Machine)
    decreases body, k,
{
    let (r, c) = eval(cond, m.scopes);
    let m1 = Machine { scopes: c, out: m.out };
    match r {
        Err(err) => (Err(err), m1),
        Ok(v) => if !truthy(v) {
            (Ok(()), m1)
        } else if k == 0 {
            (Err(RuntimeError::LoopLimit), m1)
        } else {
            let (r2, m2) = run(body, m1, limit);
            match r2 {
                Err(err) => (Err(err), m2),
                Ok(_) => run_loop(cond, body, m2, limit, (k - 1) as nat),
            }
        },
    }
}

/// Running the statements of `v` from position `i` on, stopping at the first error.
pub open spec fn run_seq(v: Vec<Stmt>, i: nat, m: Machine, limit: nat) -> (Result<(), RuntimeError>, Machine)
    decreases v, v@.len() - i,
{
    if i >= v@.len() {
        (Ok(()), m)
    } else {
        let (r, m1) = run(v@[i as int], m, limit);
        match r {
            Err(err) => (Err(err), m1),
            Ok(_) => run_seq(v, i + 1, m1, limit),
        }
    }
}

} // verus!

verus! {

/// The view of an evaluation result.
pub open spec fn result_view(r: Result<Object, RuntimeError>) -> Result<Value, RuntimeError> {
    match r {
        Ok(o) => Ok(o@),
        Err(e) => Err(e),
    }
}

/// Truthiness of a value, as `truthy` states it.
pub fn is_truthy(v: &Literal) -> (r: bool)
    ensures
        r == truthy(v@),
{
    match v {
        Literal::Bool(b) => *b,
        Literal::Number(n) => n.is_zero(),
        Literal::String(s) => !s.as_str().is_empty(),
        Literal::Nil => false,
    }
}

fn number_result(r: Option<Number>, line: usize) -> (o: Result<Object, RuntimeError>)
    ensures
        result_view(o) == match r {
            Some(n) => Ok(Value::Number(n)),
            None => Err(RuntimeError::Overflow(line)),
        },
{
    match r {
        Some(n) => Ok(Object { value: Literal::Number(n) }),
        None => Err(RuntimeError::Overflow(line)),
    }
}

/// Applies a unary operator to an evaluated operand.
fn eval_unary(op: &Token, right: Object) -> (r: Result<Object, RuntimeError>)
    ensures
        result_view(r) == unary_value(op.token_type, right@, op.line),
{
    match op.token_type {
        TokenType::MINUS => match right.value {
            Literal::Number(x) => number_result(x.neg(), op.line),
            _ => Err(RuntimeError::NotANumber(op.token_type, op.line)),
        },
        TokenType::BANG => {
            let b = match &right.value {
                Literal::Bool(x) => !*x,
                Literal::String(x) => !x.as_str().is_empty(),
                Literal::Nil => false,
                Literal::Number(x) => x.is_zero(),
            };
            Ok(Object { value: Literal::Bool(b) })
        },
        _ => Err(RuntimeError::UnsupportedOperator(op.token_type, op.line)),
    }
}

/// Applies a binary operator to two evaluated operands.
fn eval_binary(op: &Token, left: Object, right: Object) -> (r: Result<Object, RuntimeError>)
    ensures
        result_view(r) == binary_value(op.token_type, left@, right@, op.line),
{
    let t = op.token_type;
    let line = op.line;
    match t {
        TokenType::MINUS | TokenType::PLUS | TokenType::STAR | TokenType::SLASH => {
            match (&left.value, &right.value) {
                (Literal::Number(a), Literal::Number(b)) => {
                    match t {
                        TokenType::MINUS => number_result(a.sub(b), line),
                        TokenType::PLUS => number_result(a.add(b), line),
                        TokenType::STAR => number_result(a.mul(b), line),
                        _ => {
                            if b.is_zero() {
                                Err(RuntimeError::DivideByZero(line))
                            } else {
                                number_result(a.div(b), line)
                            }
                        },
                    }
                },
                _ => Err(RuntimeError::NotANumber(t, line)),
            }
        },
        TokenType::LESS | TokenType::LESS_EQUAL | TokenType::GREATER | TokenType::GREATER_EQUAL
        | TokenType::EQUAL_EQUAL => {
            match (&left.value, &right.value) {
                (Literal::Number(a), Literal::Number(b)) => {
                    let v = match t {
                        TokenType::LESS => a.less(b),
                        TokenType::LESS_EQUAL => a.less(b) || a.equals(b),
                        TokenType::GREATER => b.less(a),
                        TokenType::GREATER_EQUAL => !a.less(b),
                        _ => a.equals(b),
                    };
                    Ok(Object { value: Literal::Bool(v) })
                },
                _ => Err(RuntimeError::NotComparable(line)),
            }
        },
        _ => Err(RuntimeError::UnsupportedOperator(t, line)),
    }
}

/// Runs programs: holds the scope chain and the lines printed so far.
pub struct Interpreter {
    env: Env,
    output: Vec<String>,
    loop_limit: u64,
}

/// How many iterations a single `while` loop may run by default.
pub const DEFAULT_LOOP_LIMIT: u64 = 0xffff_ffff_ffff_ffff;

impl Interpreter {
    /// The state of the interpreter.
    pub closed spec fn machine(&self) -> Machine {
        Machine { scopes: self.env@, out: self.output@.map_values(|s: String| s@) }
    }

    /// The most iterations one `while` loop may run.
    pub closed spec fn limit(&self) -> nat {
        self.loop_limit as nat
    }

    pub closed spec fn wf(&self) -> bool {
        self.env.wf()
    }

    /// An interpreter with only an empty global scope and no output.
    pub fn new() -> (r: Interpreter)
        ensures
            r.wf(),
            r.machine() == (Machine { scopes: seq![Map::empty()], out: Seq::empty() }),
            r.limit() == DEFAULT_LOOP_LIMIT,
    {
        Interpreter::with_loop_limit(DEFAULT_LOOP_LIMIT)
    }

    /// An interpreter whose `while` loops each run at most `limit` iterations.
    pub fn with_loop_limit(limit: u64) -> (r: Interpreter)
        ensures
            r.wf(),
            r.machine() == (Machine { scopes: seq![Map::empty()], out: Seq::empty() }),
            r.limit() == limit,
    {
        let r = Interpreter { env: Env::new(None), output: Vec::new(), loop_limit: limit };
        assert(r.machine().out =~= Seq::empty());
        r
    }

    /// The lines printed so far, in order.
    pub fn output(&self) -> (r: &Vec<String>)
        ensures
            r@.map_values(|s: String| s@) == self.machine().out,
    {
        &self.output
    }

    fn eval_literal(&self, lit_val: &Literal) -> (r: Object)
        ensures
            r@ == lit_val@,
    {
        Object { value: lit_val.clone() }
    }

    fn eval_expr(&mut self, expr: &Expr) -> (r: Result<Object, RuntimeError>)
        requires
            old(self).wf(),
        ensures
            final(self).wf(),
            final(self).output == old(self).output,
            final(self).loop_limit == old(self).loop_limit,
            (result_view(r), final(self).env@) == eval(*expr, old(self).env@),
        decreases expr,
    {
        match expr {
            Expr::Literal(lit_val) => Ok(self.eval_literal(lit_val)),
            Expr::Grouping(inner) => self.eval_expr(inner),
            Expr::Unary(op, right) => {
                let v = self.eval_expr(right)?;
                eval_unary(op, v)
            },
            Expr::Binary(left, op, right) => {
                let l = self.eval_expr(left)?;
                let r = self.eval_expr(right)?;
                eval_binary(op, l, r)
            },
            Expr::Logical(left, op, right) => {
                let left_val = self.eval_expr(left)?;
                if op.token_type == TokenType::OR {
                    if is_truthy(&left_val.value) {
                        return Ok(left_val);
                    }
                } else {
                    if !is_truthy(&left_val.value) {
                        return Ok(left_val);
                    }
                }
                self.eval_expr(right)
            },
            Expr::Var(var) => match self.env.get(var.lexeme.clone()) {
                Ok(v) => Ok(v),
                Err(_) => Err(RuntimeError::VarNotFound(var.lexeme.clone(), var.line)),
            },
            Expr::Assign(token, value) => {
                let v = self.eval_expr(value)?;
                proof {
                    lemma_assign_iff_lookup(self.env@, token.lexeme@, v@);
                }
                match self.env.assign(token.lexeme.clone(), v) {
                    Ok(()) => Ok(Object { value: Literal::Nil }),
                    Err(_) => Err(RuntimeError::UndefinedAssign(token.lexeme.clone(), token.line)),
                }
            },
        }
    }

    /// Prints a value: appends its canonical text as one output line.
    fn print_value(&mut self, value: &Object)
        ensures
            final(self).env == old(self).env,
            final(self).loop_limit == old(self).loop_limit,
            final(self).machine().out == old(self).machine().out.push(value_text(value@)),
    {
        let t = value.value.to_text();
        self.output.push(t);
        assert(self.output@.map_values(|s: String| s@)
            =~= old(self).output@.map_values(|s: String| s@).push(value_text(value@)));
    }

    fn eval_var_expr(&mut self, token: &Token, initializer: Object)
        requires
            old(self).wf(),
        ensures
            final(self).wf(),
            final(self).output == old(self).output,
            final(self).loop_limit == old(self).loop_limit,
            final(self).env@ == define_chain(old(self).env@, token.lexeme@, initializer@),
    {
        let _ = self.env.define(token.lexeme.clone(), initializer);
    }

    /// Runs a block: its statements in a new innermost scope, which is left
    /// again afterwards, also when a statement fails.
    fn exec_block(&mut self, statements: &Vec<Stmt>) -> (r: Result<(), RuntimeError>)
        requires
            old(self).wf(),
        ensures
            final(self).wf(),
            final(self).limit() == old(self).limit(),
            (r, final(self).machine()) == run(Stmt::Block(*statements), old(self).machine(), old(self).limit()),
        decreases statements,
    {
        self.env.enter_scope();
        let ghost m1 = self.machine();
        let mut i: usize = 0;
        while i < statements.len()
            invariant
                self.wf(),
                self.loop_limit == old(self).loop_limit,
                m1 == (Machine { scopes: old(self).env@.push(Map::empty()), out: old(self).machine().out }),
                i <= statements@.len(),
                run_seq(*statements, 0, m1, old(self).limit())
                    == run_seq(*statements, i as nat, self.machine(), old(self).limit()),
            decreases statements.len() - i,
        {
            proof {
                vstd::std_specs::vec::axiom_vec_index_decreases(*statements, i as int);
            }
            let r = self.execute(&statements[i]);
            if r.is_err() {
                self.env.exit_scope();
                return r;
            }
            i = i + 1;
        }
        self.env.exit_scope();
        Ok(())
    }

    /// Runs one statement.
    pub fn execute(&mut self, stmt: &Stmt) -> (r: Result<(), RuntimeError>)
        requires
            old(self).wf(),
        ensures
            final(self).wf(),
            final(self).limit() == old(self).limit(),
            (r, final(self).machine()) == run(*stmt, old(self).machine(), old(self).limit()),
        decreases stmt,
    {
        match stmt {
            Stmt::Expression(expr) => {
                self.eval_expr(expr)?;
                Ok(())
            },
            Stmt::Print(expr) => {
                let value = self.eval_expr(expr)?;
                self.print_value(&value);
                Ok(())
            },
            Stmt::Var(token, initializer) => {
                let init = match initializer {
                    Some(expr) => self.eval_expr(expr)?,
                    None => Object { value: Literal::Nil },
                };
                self.eval_var_expr(token, init);
                Ok(())
            },
            Stmt::Block(statements) => self.exec_block(statements),
            Stmt::If(condition, then_branch, else_branch) => {
                let cond_val = self.eval_expr(condition)?;
                if is_truthy(&cond_val.value) {
                    self.execute(then_branch)
                } else {
                    match &**else_branch {
                        Some(e) => self.execute(e),
                        None => Ok(()),
                    }
                }
            },
            Stmt::While(cond, block) => {
                let mut k: u64 = self.loop_limit;
                loop
                    invariant
                        self.wf(),
                        self.loop_limit == old(self).loop_limit,
                        k <= self.loop_limit,
                        *stmt == Stmt::While(*cond, *block),
                        run(*stmt, old(self).machine(), old(self).limit())
                            == run_loop(*cond, **block, self.machine(), old(self).limit(), k as nat),
                    decreases k,
                {
                    let cond_val = self.eval_expr(cond)?;
                    if !is_truthy(&cond_val.value) {
                        return Ok(());
                    }
                    if k == 0 {
                        return Err(RuntimeError::LoopLimit);
                    }
                    self.execute(block)?;
                    k = k - 1;
                }
            },
        }
    }

    /// Runs the statements of a program in order against the global scope,
    /// stopping at the first error.
    pub fn interpret(&mut self, stmts: Vec<Stmt>) -> (r: Result<(), RuntimeError>)
        requires
            old(self).wf(),
        ensures
            final(self).wf(),
            final(self).limit() == old(self).limit(),
            (r, final(self).machine()) == run_seq(stmts, 0, old(self).machine(), old(self).limit()),
    {
        let mut i: usize = 0;
        while i < stmts.len()
            invariant
                self.wf(),
                self.loop_limit == old(self).loop_limit,
                i <= stmts@.len(),
                run_seq(stmts, 0, old(self).machine(), old(self).limit())
                    == run_seq(stmts, i as nat, self.machine(), old(self).limit()),
            decreases stmts.len() - i,
        {
            self.execute(&stmts[i])?;
            i = i + 1;
        }
        Ok(())
    }
}

} // verus!

verus! {

/// Division by a zero number is an error, never a value.
pub proof fn lemma_division_by_zero(a: Number, b: Number, line: usize)
    requires
        b.numer() == 0,
    ensures
        binary_value(TokenType::SLASH, Value::Number(a), Value::Number(b), line)
            == Err::<Value, RuntimeError>(RuntimeError::DivideByZero(line)),
{
}

/// The exact numerator and denominator of `a op b` for an arithmetic operator.
pub open spec fn exact(op: TokenType, a: Number, b: Number) -> (int, int) {
    if op == TokenType::PLUS {
        (a.numer() * b.denom() + b.numer() * a.denom(), a.denom() * b.denom())
    } else if op == TokenType::MINUS {
        (a.numer() * b.denom() - b.numer() * a.denom(), a.denom() * b.denom())
    } else if op == TokenType::STAR {
        (a.numer() * b.numer(), a.denom() * b.denom())
    } else {
        (a.numer() * b.denom(), a.denom() * b.numer())
    }
}

/// Arithmetic on numbers is exact: a result `r` of `a op b` stands for the
/// rational `n / d` of `exact`, and the only errors are division by zero and a
/// result that does not fit.
pub proof fn lemma_arithmetic_exact(op: TokenType, a: Number, b: Number, line: usize)
    requires
        is_arithmetic(op),
        a.denom() > 0,
        b.denom() > 0,
    ensures
        match binary_value(op, Value::Number(a), Value::Number(b), line) {
            Ok(Value::Number(r)) => r.numer() * exact(op, a, b).1 == exact(op, a, b).0 * r.denom(),
            Ok(_) => false,
            Err(e) => e == RuntimeError::DivideByZero(line) && op == TokenType::SLASH && b.numer() == 0
                || e == RuntimeError::Overflow(line),
        },
{
    let (n, d) = exact(op, a, b);
    assert(a.denom() * b.denom() > 0) by (nonlinear_arith) requires a.denom() > 0, b.denom() > 0;
    if op == TokenType::SLASH && b.numer() < 0 {
        assert(-d > 0) by (nonlinear_arith) requires d == a.denom() * b.numer(), a.denom() > 0, b.numer() < 0;
        lemma_make_exact(-n, -d);
        match num_div(a, b) {
            Some(r) => {
                assert(r.numer() * d == n * r.denom()) by (nonlinear_arith)
                    requires r.numer() * (-d) == (-n) * r.denom();
            },
            None => {},
        }
    } else if op == TokenType::SLASH {
        if b.numer() > 0 {
            assert(d > 0) by (nonlinear_arith) requires d == a.denom() * b.numer(), a.denom() > 0, b.numer() > 0;
            lemma_make_exact(n, d);
        }
    } else {
        lemma_make_exact(n, d);
    }
}

/// The table of `!`: a boolean is negated, a number gives whether it is zero,
/// a string whether it is not empty, and `nil` gives false.
pub proof fn lemma_bang_table(v: Value, line: usize)
    ensures
        unary_value(TokenType::BANG, v, line) == Ok::<Value, RuntimeError>(Value::Bool(match v {
            Value::Bool(b) => !b,
            Value::Number(n) => n.numer() == 0,
            Value::Str(s) => s.len() > 0,
            Value::Nil => false,
        })),
{
}

/// `and` with a falsy left side, and `or` with a truthy one, yield the left
/// value without evaluating the right side: any right side gives the same
/// result and chain.
pub proof fn lemma_short_circuit(l: Expr, op: Token, r1: Expr, r2: Expr, c: Chain)
    requires
        eval(l, c).0 matches Ok(v) && (if op.token_type == TokenType::OR { truthy(v) } else { !truthy(v) }),
    ensures
        eval(Expr::Logical(Box::new(l), op, Box::new(r1)), c) == eval(Expr::Logical(Box::new(l), op, Box::new(r2)), c),
        eval(Expr::Logical(Box::new(l), op, Box::new(r1)), c) == (eval(l, c).0, eval(l, c).1),
{
}

/// Assigning to a name that no scope binds fails, and changes nothing.
pub proof fn lemma_assign_undefined_fails(t: Token, x: Expr, c: Chain)
    requires
        eval(x, c).0 is Ok,
        lookup(eval(x, c).1, t.lexeme@) is None,
    ensures
        eval(Expr::Assign(t, Box::new(x)), c)
            == (Err::<Value, RuntimeError>(RuntimeError::UndefinedAssign(t.lexeme, t.line)), eval(x, c).1),
{
    lemma_assign_iff_lookup(eval(x, c).1, t.lexeme@, eval(x, c).0->Ok_0);
}

/// A `var` declaration fails only where its initializer does, and then binds
/// the name in the innermost scope.
pub proof fn lemma_declaration_never_fails(t: Token, init: Option<Expr>, m: Machine, limit: nat)
    ensures
        run(Stmt::Var(t, init), m, limit).0 is Err ==> (init matches Some(e) && eval(e, m.scopes).0 is Err),
        init is None ==> run(Stmt::Var(t, init), m, limit).1.scopes
            == define_chain(m.scopes, t.lexeme@, Value::Nil),
{
}

/// Evaluation binds no new name and removes none.
pub proof fn lemma_eval_keeps_names(e: Expr, c: Chain)
    ensures
        same_names(c, eval(e, c).1, c.len() as int),
    decreases e,
{
    match e {
        Expr::Literal(_) => {},
        Expr::Grouping(g) => lemma_eval_keeps_names(*g, c),
        Expr::Unary(_, x) => lemma_eval_keeps_names(*x, c),
        Expr::Binary(l, _, r) | Expr::Logical(l, _, r) => {
            lemma_eval_keeps_names(*l, c);
            lemma_eval_keeps_names(*r, eval(*l, c).1);
        },
        Expr::Var(_) => {},
        Expr::Assign(t, x) => {
            lemma_eval_keeps_names(*x, c);
            match eval(*x, c).0 {
                Ok(v) => lemma_assign_keeps_names(eval(*x, c).1, t.lexeme@, v),
                Err(_) => {},
            }
        },
    }
}

/// Running a statement binds new names only in the innermost scope.
pub proof fn lemma_run_keeps_outer_names(s: Stmt, m: Machine, limit: nat)
    requires
        m.scopes.len() >= 1,
    ensures
        same_names(m.scopes, run(s, m, limit).1.scopes, m.scopes.len() - 1),
    decreases s, 0nat,
{
    match s {
        Stmt::Expression(e) | Stmt::Print(e) => lemma_eval_keeps_names(e, m.scopes),
        Stmt::Var(t, init) => {
            match init {
                Some(e) => {
                    lemma_eval_keeps_names(e, m.scopes);
                },
                None => {},
            }
        },
        Stmt::Block(v) => {
            let m1 = Machine { scopes: m.scopes.push(Map::empty()), out: m.out };
            lemma_seq_keeps_outer_names(v, 0, m1, limit);
            let r = run_seq(v, 0, m1, limit).1.scopes;
            assert forall|k: int| 0 <= k < m.scopes.len() - 1 && k < m.scopes.len()
                implies (#[trigger] m.scopes[k]).dom() == pop_scope(r)[k].dom() by {
                assert(m1.scopes[k] == m.scopes[k]);
            }
        },
        Stmt::If(cond, t, e) => {
            lemma_eval_keeps_names(cond, m.scopes);
            let m1 = Machine { scopes: eval(cond, m.scopes).1, out: m.out };
            lemma_run_keeps_outer_names(*t, m1, limit);
            match *e {
                Some(x) => lemma_run_keeps_outer_names(x, m1, limit),
                None => {},
            }
        },
        Stmt::While(cond, body) => lemma_loop_keeps_outer_names(cond, *body, m, limit, limit),
    }
}

pub proof fn lemma_loop_keeps_outer_names(cond: Expr, body: Stmt, m: Machine, limit: nat, k: nat)
    requires
        m.scopes.len() >= 1,
    ensures
        same_names(m.scopes, run_loop(cond, body, m, limit, k).1.scopes, m.scopes.len() - 1),
    decreases body, k,
{
    lemma_eval_keeps_names(cond, m.scopes);
    let m1 = Machine { scopes: eval(cond, m.scopes).1, out: m.out };
    match eval(cond, m.scopes).0 {
        Ok(v) => if truthy(v) && k > 0 {
            lemma_run_keeps_outer_names(body, m1, limit);
            let m2 = run(body, m1, limit).1;
            if run(body, m1, limit).0 is Ok {
                lemma_loop_keeps_outer_names(cond, body, m2, limit, (k - 1) as nat);
            }
        },
        Err(_) => {},
    }
}

pub proof fn lemma_seq_keeps_outer_names(v: Vec<Stmt>, i: nat, m: Machine, limit: nat)
    requires
        m.scopes.len() >= 1,
    ensures
        same_names(m.scopes, run_seq(v, i, m, limit).1.scopes, m.scopes.len() - 1),
    decreases v, v@.len() - i,
{
    if i < v@.len() {
        lemma_run_keeps_outer_names(v@[i as int], m, limit);
        let m1 = run(v@[i as int], m, limit).1;
        if run(v@[i as int], m, limit).0 is Ok {
            lemma_seq_keeps_outer_names(v, i + 1, m1, limit);
        }
    }
}

/// After a block, a name that was bound in no scope before it is still bound
/// in none: what the block declared left with its scope.
pub proof fn lemma_block_scope_ends(v: Vec<Stmt>, m: Machine, limit: nat, name: Seq<char>)
    requires
        m.scopes.len() >= 1,
        lookup(m.scopes, name) is None,
    ensures
        lookup(run(Stmt::Block(v), m, limit).1.scopes, name) is None,
{
    let m1 = Machine { scopes: m.scopes.push(Map::empty()), out: m.out };
    lemma_seq_keeps_outer_names(v, 0, m1, limit);
    let r = run_seq(v, 0, m1, limit).1.scopes;
    let after = pop_scope(r);
    lemma_lookup_none(m.scopes, name);
    assert forall|k: int| 0 <= k < after.len() implies !(#[trigger] after[k]).contains_key(name) by {
        assert(m1.scopes[k] == m.scopes[k]);
        assert(after[k] == r[k]);
    }
    lemma_none_binds(after, name, Value::Nil);
}

} // verus!
