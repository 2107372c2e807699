//! The recursive-descent parser: tokens to statements. Precedence, lowest
//! first: assignment, `or`, `and`, equality, comparison, `+ -`, `* /`, unary,
//! primary. Binary and logical operators associate to the left, assignment to
//! the right.
use vstd::prelude::*;
use crate::expression::Expr;
use crate::statement::{stmt_view, Stmt, StmtView};
use crate::token::{Literal, Token, TokenType};

verus! {

/// Why a token sequence does not parse.
#[derive(Debug, Clone, Copy, PartialEq, Eq, Structural)]
pub enum ParseError {
    /// The grammar needs a token of kind `expected` where one of kind `found`
    /// stands, on `line`.
    Expected { expected: TokenType, found: TokenType, line: usize },
    /// An expression must start where a token of kind `found` stands.
    ExpectedExpression { found: TokenType, line: usize },
    /// The left side of `=` is not a variable.
    InvalidAssignTarget { line: usize },
}

/// The kind of the token at `i`; past the end the input counts as ended.
pub open spec fn kind_at(toks: Seq<Token>, i: nat) -> TokenType {
    if i < toks.len() { toks[i as int].token_type } else { TokenType::EOF }
}

/// The line of the token at `i`, or of the last token past the end.
pub open spec fn line_at(toks: Seq<Token>, i: nat) -> usize {
    if i < toks.len() {
        toks[i as int].line
    } else if toks.len() > 0 {
        toks.last().line
    } else {
        0
    }
}

/// Whether the token at `i` has kind `k`; never at the end of the input.
pub open spec fn check(toks: Seq<Token>, i: nat, k: TokenType) -> bool {
    kind_at(toks, i) != TokenType::EOF && kind_at(toks, i) == k
}

pub open spec fn expected(toks: Seq<Token>, i: nat, k: TokenType) -> ParseError {
    ParseError::Expected { expected: k, found: kind_at(toks, i), line: line_at(toks, i) }
}

/// The operators of the binary levels: 1 `or`, 2 `and`, 3 equality,
/// 4 comparison, 5 `+ -`, 6 `* /`.
pub open spec fn level_op(level: nat, k: TokenType) -> bool {
    if level == 1 {
        k == TokenType::OR
    } else if level == 2 {
        k == TokenType::AND
    } else if level == 3 {
        k == TokenType::BANG_EQUAL || k == TokenType::EQUAL_EQUAL
    } else if level == 4 {
        k == TokenType::GREATER || k == TokenType::GREATER_EQUAL || k == TokenType::LESS
            || k == TokenType::LESS_EQUAL
    } else if level == 5 {
        k == TokenType::MINUS || k == TokenType::PLUS
    } else {
        k == TokenType::STAR || k == TokenType::SLASH
    }
}

/// Whether the token at `j` is an operator of binary level `level`.
pub open spec fn at_level_op(toks: Seq<Token>, j: nat, level: nat) -> bool {
    kind_at(toks, j) != TokenType::EOF && level_op(level, kind_at(toks, j))
}

/// The node that joins two operands at a binary level.
pub open spec fn combine(level: nat, l: Expr, op: Token, r: Expr) -> Expr {
    if level <= 2 {
        Expr::Logical(Box::new(l), op, Box::new(r))
    } else {
        Expr::Binary(Box::new(l), op, Box::new(r))
    }
}

/// The expression of precedence `level` that starts at `i`, and the position
/// after it. Level 0 is assignment, 1 to 6 the binary levels, 7 unary, 8
/// primary.
pub open spec fn parse_expr(toks: Seq<Token>, i: nat, level: nat) -> Result<(Expr, nat), ParseError>
    decreases toks.len() - i, 10 - level, 1nat,
{
    if i > toks.len() || level > 8 {
        Err(ParseError::ExpectedExpression { found: TokenType::EOF, line: line_at(toks, i) })
    } else if level == 0 {
        match parse_expr(toks, i, 1) {
            Err(e) => Err(e),
            Ok((e, j)) => if check(toks, j, TokenType::EQUAL) && i <= j {
                match parse_expr(toks, j + 1, 0) {
                    Err(err) => Err(err),
                    Ok((v, k)) => match e {
                        Expr::Var(t) => Ok((Expr::Assign(t, Box::new(v)), k)),
                        _ => Err(ParseError::InvalidAssignTarget { line: line_at(toks, j) }),
                    },
                }
            } else {
                Ok((e, j))
            },
        }
    } else if level <= 6 {
        match parse_expr(toks, i, level + 1) {
            Err(e) => Err(e),
            Ok((e, j)) => if i < j <= toks.len() { fold_level(toks, e, j, level) } else { Ok((e, j)) },
        }
    } else if level == 7 {
        if check(toks, i, TokenType::BANG) || check(toks, i, TokenType::MINUS) {
            match parse_expr(toks, i + 1, 7) {
                Err(e) => Err(e),
                Ok((r, k)) => Ok((Expr::Unary(toks[i as int], Box::new(r)), k)),
            }
        } else {
            parse_expr(toks, i, 8)
        }
    } else {
        let k = kind_at(toks, i);
        if k == TokenType::FALSE {
            Ok((Expr::Literal(Literal::Bool(false)), i + 1))
        } else if k == TokenType::TRUE {
            Ok((Expr::Literal(Literal::Bool(true)), i + 1))
        } else if k == TokenType::NIL {
            Ok((Expr::Literal(Literal::Nil), i + 1))
        } else if k == TokenType::NUMBER || k == TokenType::STRING {
            Ok((Expr::Literal(toks[i as int].literal), i + 1))
        } else if k == TokenType::LEFT_PAREN {
            match parse_expr(toks, i + 1, 0) {
                Err(e) => Err(e),
                Ok((e, j)) => if check(toks, j, TokenType::RIGHT_PAREN) {
                    Ok((Expr::Grouping(Box::new(e)), j + 1))
                } else {
                    Err(expected(toks, j, TokenType::RIGHT_PAREN))
                },
            }
        } else if k == TokenType::IDENTIFIER {
            Ok((Expr::Var(toks[i as int]), i + 1))
        } else {
            Err(ParseError::ExpectedExpression { found: k, line: line_at(toks, i) })
        }
    }
}

/// Folds operators of binary level `level` onto `left`, from position `j` on.
pub open spec fn fold_level(toks: Seq<Token>, left: Expr, j: nat, level: nat) -> Result<(Expr, nat), ParseError>
    decreases toks.len() - j, 10 - level, 0nat,
{
    if j < toks.len() && level <= 8 && at_level_op(toks, j, level) {
        match parse_expr(toks, j + 1, level + 1) {
            Err(e) => Err(e),
            Ok((r, k)) => if j < k <= toks.len() {
                fold_level(toks, combine(level, left, toks[j as int], r), k, level)
            } else {
                Ok((left, j))
            },
        }
    } else {
        Ok((left, j))
    }
}

/// The declaration that starts at `i` (a `var` declaration or a statement), and
/// the position after it. A `var` without initializer is initialized to `nil`.
pub open spec fn parse_decl(toks: Seq<Token>, i: nat) -> Result<(StmtView, nat), ParseError>
    decreases toks.len() - i, 13nat, 0nat,
{
    if i > toks.len() {
        Err(expected(toks, i, TokenType::EOF))
    } else if check(toks, i, TokenType::VAR) {
        let n = i + 1;
        if check(toks, n, TokenType::IDENTIFIER) {
            let j = n + 1;
            let init = if check(toks, j, TokenType::EQUAL) {
                parse_expr(toks, j + 1, 0)
            } else {
                Ok((Expr::Literal(Literal::Nil), j))
            };
            match init {
                Err(e) => Err(e),
                Ok((e, k)) => if check(toks, k, TokenType::SEMICOLON) {
                    Ok((StmtView::Var(toks[n as int], Some(e)), k + 1))
                } else {
                    Err(expected(toks, k, TokenType::SEMICOLON))
                },
            }
        } else {
            Err(expected(toks, n, TokenType::IDENTIFIER))
        }
    } else {
        parse_stmt(toks, i)
    }
}

/// An expression followed by `;`: a `print` statement where `print`, else an
/// expression statement.
pub open spec fn with_semicolon(toks: Seq<Token>, r: Result<(Expr, nat), ParseError>, print: bool)
    -> Result<(StmtView, nat), ParseError> {
    match r {
        Err(e) => Err(e),
        Ok((e, j)) => if check(toks, j, TokenType::SEMICOLON) {
            Ok((if print { StmtView::Print(e) } else { StmtView::Expression(e) }, j + 1))
        } else {
            Err(expected(toks, j, TokenType::SEMICOLON))
        },
    }
}

/// The statement that starts at `i`, and the position after it. An `else`
/// belongs to the nearest `if`.
pub open spec fn parse_stmt(toks: Seq<Token>, i: nat) -> Result<(StmtView, nat), ParseError>
    decreases toks.len() - i, 12nat, 0nat,
{
    if i > toks.len() {
        Err(expected(toks, i, TokenType::EOF))
    } else if check(toks, i, TokenType::PRINT) {
        with_semicolon(toks, parse_expr(toks, i + 1, 0), true)
    } else if check(toks, i, TokenType::IF) || check(toks, i, TokenType::WHILE) {
        let is_if = check(toks, i, TokenType::IF);
        if !check(toks, i + 1, TokenType::LEFT_PAREN) {
            Err(expected(toks, i + 1, TokenType::LEFT_PAREN))
        } else {
            match parse_expr(toks, i + 2, 0) {
                Err(e) => Err(e),
                Ok((c, j)) => if !check(toks, j, TokenType::RIGHT_PAREN) {
                    Err(expected(toks, j, TokenType::RIGHT_PAREN))
                } else if j < i {
                    Err(expected(toks, j, TokenType::RIGHT_PAREN))
                } else {
                    match parse_stmt(toks, j + 1) {
                        Err(e) => Err(e),
                        Ok((t, k)) => if !is_if {
                            Ok((StmtView::While(c, Box::new(t)), k))
                        } else if check(toks, k, TokenType::ELSE) && i <= k {
                            match parse_stmt(toks, k + 1) {
                                Err(e) => Err(e),
                                Ok((e, m)) => Ok((StmtView::If(c, Box::new(t), Some(Box::new(e))), m)),
                            }
                        } else {
                            Ok((StmtView::If(c, Box::new(t), None), k))
                        },
                    }
                },
            }
        }
    } else if check(toks, i, TokenType::LEFT_BRACE) {
        match parse_block_items(toks, i + 1) {
            Err(e) => Err(e),
            Ok((items, j)) => if check(toks, j, TokenType::RIGHT_BRACE) {
                Ok((StmtView::Block(items), j + 1))
            } else {
                Err(expected(toks, j, TokenType::RIGHT_BRACE))
            },
        }
    } else {
        with_semicolon(toks, parse_expr(toks, i, 0), false)
    }
}

/// The declarations of a block from `i` up to its closing brace (or the end).
pub open spec fn parse_block_items(toks: Seq<Token>, i: nat) -> Result<(Seq<StmtView>, nat), ParseError>
    decreases toks.len() - i, 14nat, 0nat,
{
    if i > toks.len() {
        Err(expected(toks, i, TokenType::EOF))
    } else if !check(toks, i, TokenType::RIGHT_BRACE) && kind_at(toks, i) != TokenType::EOF {
        match parse_decl(toks, i) {
            Err(e) => Err(e),
            Ok((s, j)) => if i < j <= toks.len() {
                prepend_items(seq![s], parse_block_items(toks, j))
            } else {
                Err(expected(toks, j, TokenType::EOF))
            },
        }
    } else {
        Ok((Seq::empty(), i))
    }
}

/// The declarations from `i` to the end of the input.
pub open spec fn parse_program(toks: Seq<Token>, i: nat) -> Result<Seq<StmtView>, ParseError>
    decreases toks.len() - i,
{
    if i >= toks.len() || kind_at(toks, i) == TokenType::EOF {
        Ok(Seq::empty())
    } else {
        match parse_decl(toks, i) {
            Err(e) => Err(e),
            Ok((s, j)) => if i < j <= toks.len() {
                match parse_program(toks, j) {
                    Ok(rest) => Ok(seq![s] + rest),
                    Err(e) => Err(e),
                }
            } else {
                Err(expected(toks, j, TokenType::EOF))
            },
        }
    }
}

pub open spec fn prepend_items(ss: Seq<StmtView>, r: Result<(Seq<StmtView>, nat), ParseError>)
    -> Result<(Seq<StmtView>, nat), ParseError> {
    match r {
        Ok((rest, k)) => Ok((ss + rest, k)),
        Err(e) => Err(e),
    }
}

/// Whether a token of kind `k` starts a statement, where recovery after an
/// error resumes.
pub open spec fn starts_statement(k: TokenType) -> bool {
    k == TokenType::CLASS || k == TokenType::FUN || k == TokenType::VAR || k == TokenType::FOR
        || k == TokenType::IF || k == TokenType::WHILE || k == TokenType::PRINT
        || k == TokenType::RETURN
}

/// The first position at or after `j` that follows a `;`, holds a token that
/// starts a statement, or ends the input.
pub open spec fn boundary_from(toks: Seq<Token>, j: nat) -> nat
    decreases toks.len() - j,
{
    if j >= toks.len() || kind_at(toks, j) == TokenType::EOF {
        j
    } else if j > 0 && kind_at(toks, (j - 1) as nat) == TokenType::SEMICOLON {
        j
    } else if starts_statement(kind_at(toks, j)) {
        j
    } else {
        boundary_from(toks, j + 1)
    }
}

/// Where parsing resumes after an error at `i`: one token on, then at the
/// next statement boundary.
pub open spec fn resume_at(toks: Seq<Token>, i: nat) -> nat {
    if kind_at(toks, i) == TokenType::EOF { i } else { boundary_from(toks, i + 1) }
}

/// The statements of the input from `i` on and the errors met, each error
/// followed by recovery at the next statement boundary.
pub open spec fn parse_recovering(toks: Seq<Token>, i: nat) -> (Seq<StmtView>, Seq<ParseError>)
    decreases toks.len() - i,
{
    if i >= toks.len() || kind_at(toks, i) == TokenType::EOF {
        (Seq::empty(), Seq::empty())
    } else {
        match parse_decl(toks, i) {
            Ok((s, j)) => if i < j <= toks.len() {
                let (ss, es) = parse_recovering(toks, j);
                (seq![s] + ss, es)
            } else {
                (Seq::empty(), Seq::empty())
            },
            Err(e) => {
                let j = resume_at(toks, i);
                if i < j <= toks.len() {
                    let (ss, es) = parse_recovering(toks, j);
                    (ss, seq![e] + es)
                } else {
                    (Seq::empty(), seq![e])
                }
            },
        }
    }
}

/// The models of a sequence of statements.
pub open spec fn stmt_views(v: Seq<Stmt>) -> Seq<StmtView> {
    v.map_values(|s: Stmt| stmt_view(s))
}

/// A statement parse result in terms of models.
pub open spec fn stmt_res(r: Result<(Stmt, usize), ParseError>) -> Result<(StmtView, nat), ParseError> {
    match r {
        Ok((s, j)) => Ok((stmt_view(s), j as nat)),
        Err(e) => Err(e),
    }
}

fn is_statement_start(k: TokenType) -> (r: bool)
    ensures
        r == starts_statement(k),
{
    match k {
        TokenType::CLASS | TokenType::FUN | TokenType::VAR | TokenType::FOR | TokenType::IF
        | TokenType::WHILE | TokenType::PRINT | TokenType::RETURN => true,
        _ => false,
    }
}

/// A parse result with its position as a mathematical integer.
pub open spec fn pos_nat<T>(r: Result<(T, usize), ParseError>) -> Result<(T, nat), ParseError> {
    match r {
        Ok((x, j)) => Ok((x, j as nat)),
        Err(e) => Err(e),
    }
}

/// Parses a token sequence into statements.
pub struct Parser {
    tokens: Vec<Token>,
}

impl Parser {
    /// The tokens being parsed.
    pub closed spec fn toks(&self) -> Seq<Token> {
        self.tokens@
    }

    /// A parser over `tokens`, at their start.
    pub fn new(tokens: Vec<Token>) -> (r: Parser)
        ensures
            r.toks() == tokens@,
    {
        Parser { tokens }
    }

    fn kind_at(&self, i: usize) -> (r: TokenType)
        ensures
            r == kind_at(self.tokens@, i as nat),
            r != TokenType::EOF ==> i < self.tokens@.len(),
            self.tokens@.len() <= usize::MAX,
    {
        if i < self.tokens.len() { self.tokens[i].token_type } else { TokenType::EOF }
    }

    fn line_at(&self, i: usize) -> (r: usize)
        ensures
            r == line_at(self.tokens@, i as nat),
    {
        if i < self.tokens.len() {
            self.tokens[i].line
        } else if self.tokens.len() > 0 {
            self.tokens[self.tokens.len() - 1].line
        } else {
            0
        }
    }

    fn check(&self, i: usize, token_type: TokenType) -> (r: bool)
        ensures
            r == check(self.tokens@, i as nat, token_type),
            r ==> i < self.tokens@.len(),
            self.tokens@.len() <= usize::MAX,
    {
        let k = self.kind_at(i);
        k != TokenType::EOF && k == token_type
    }

    /// Steps over a token of kind `token_type` at `i`, or fails naming it.
    fn consume(&self, i: usize, token_type: TokenType) -> (r: Result<usize, ParseError>)
        ensures
            check(self.tokens@, i as nat, token_type) ==> r == Ok::<usize, ParseError>((i + 1) as usize),
            !check(self.tokens@, i as nat, token_type) ==> r == Err::<usize, ParseError>(expected(self.tokens@, i as nat, token_type)),
            r is Ok ==> i < self.tokens@.len(),
            self.tokens@.len() <= usize::MAX,
    {
        if self.check(i, token_type) {
            Ok(i + 1)
        } else {
            Err(ParseError::Expected { expected: token_type, found: self.kind_at(i), line: self.line_at(i) })
        }
    }

    fn expression(&self, i: usize) -> (r: Result<(Expr, usize), ParseError>)
        requires
            i <= self.tokens@.len(),
        ensures
            pos_nat(r) == parse_expr(self.tokens@, i as nat, 0),
            r matches Ok((_, j)) ==> i < j <= self.tokens@.len(),
        decreases self.tokens@.len() - i, 11nat, 0nat,
    {
        self.assignment(i)
    }

    fn assignment(&self, i: usize) -> (r: Result<(Expr, usize), ParseError>)
        requires
            i <= self.tokens@.len(),
        ensures
            pos_nat(r) == parse_expr(self.tokens@, i as nat, 0),
            r matches Ok((_, j)) ==> i < j <= self.tokens@.len(),
        decreases self.tokens@.len() - i, 10nat, 1nat,
    {
        let (expr, j) = self.binary_level(i, 1)?;
        if self.check(j, TokenType::EQUAL) {
            let (value, k) = self.assignment(j + 1)?;
            match expr {
                Expr::Var(token) => Ok((Expr::Assign(token, Box::new(value)), k)),
                _ => Err(ParseError::InvalidAssignTarget { line: self.line_at(j) }),
            }
        } else {
            Ok((expr, j))
        }
    }

    /// One of the binary levels: `or`, `and`, equality, comparison, terms and
    /// factors, as `level` runs from 1 to 6.
    fn binary_level(&self, i: usize, level: u8) -> (r: Result<(Expr, usize), ParseError>)
        requires
            i <= self.tokens@.len(),
            1 <= level <= 6,
        ensures
            pos_nat(r) == parse_expr(self.tokens@, i as nat, level as nat),
            r matches Ok((_, j)) ==> i < j <= self.tokens@.len(),
        decreases self.tokens@.len() - i, 10 - level, 1nat,
    {
        let (expr, j) = if level < 6 { self.binary_level(i, level + 1)? } else { self.unary(i)? };
        self.fold_level(expr, j, level)
    }

    fn is_level_op(&self, j: usize, level: u8) -> (r: bool)
        requires
            1 <= level <= 6,
        ensures
            r == at_level_op(self.tokens@, j as nat, level as nat),
    {
        let k = self.kind_at(j);
        if k == TokenType::EOF {
            false
        } else if level == 1 {
            k == TokenType::OR
        } else if level == 2 {
            k == TokenType::AND
        } else if level == 3 {
            k == TokenType::BANG_EQUAL || k == TokenType::EQUAL_EQUAL
        } else if level == 4 {
            k == TokenType::GREATER || k == TokenType::GREATER_EQUAL || k == TokenType::LESS
                || k == TokenType::LESS_EQUAL
        } else if level == 5 {
            k == TokenType::MINUS || k == TokenType::PLUS
        } else {
            k == TokenType::STAR || k == TokenType::SLASH
        }
    }

    fn fold_level(&self, left: Expr, j: usize, level: u8) -> (r: Result<(Expr, usize), ParseError>)
        requires
            j <= self.tokens@.len(),
            1 <= level <= 6,
        ensures
            pos_nat(r) == fold_level(self.tokens@, left, j as nat, level as nat),
            r matches Ok((_, k)) ==> j <= k <= self.tokens@.len(),
        decreases self.tokens@.len() - j, 10 - level, 0nat,
    {
        if j < self.tokens.len() && self.is_level_op(j, level) {
            let op = self.tokens[j].clone();
            let (right, k) = if level < 6 { self.binary_level(j + 1, level + 1)? } else { self.unary(j + 1)? };
            let expr = if level <= 2 {
                Expr::Logical(Box::new(left), op, Box::new(right))
            } else {
                Expr::Binary(Box::new(left), op, Box::new(right))
            };
            self.fold_level(expr, k, level)
        } else {
            Ok((left, j))
        }
    }

    fn unary(&self, i: usize) -> (r: Result<(Expr, usize), ParseError>)
        requires
            i <= self.tokens@.len(),
        ensures
            pos_nat(r) == parse_expr(self.tokens@, i as nat, 7),
            r matches Ok((_, j)) ==> i < j <= self.tokens@.len(),
        decreases self.tokens@.len() - i, 3nat, 1nat,
    {
        if self.check(i, TokenType::BANG) || self.check(i, TokenType::MINUS) {
            let op = self.tokens[i].clone();
            let (right, k) = self.unary(i + 1)?;
            Ok((Expr::Unary(op, Box::new(right)), k))
        } else {
            self.primary(i)
        }
    }

    fn primary(&self, i: usize) -> (r: Result<(Expr, usize), ParseError>)
        requires
            i <= self.tokens@.len(),
        ensures
            pos_nat(r) == parse_expr(self.tokens@, i as nat, 8),
            r matches Ok((_, j)) ==> i < j <= self.tokens@.len(),
        decreases self.tokens@.len() - i, 2nat, 1nat,
    {
        let k = self.kind_at(i);
        if k == TokenType::FALSE {
            Ok((Expr::Literal(Literal::Bool(false)), i + 1))
        } else if k == TokenType::TRUE {
            Ok((Expr::Literal(Literal::Bool(true)), i + 1))
        } else if k == TokenType::NIL {
            Ok((Expr::Literal(Literal::Nil), i + 1))
        } else if k == TokenType::NUMBER || k == TokenType::STRING {
            Ok((Expr::Literal(self.tokens[i].literal.clone()), i + 1))
        } else if k == TokenType::LEFT_PAREN {
            let (expr, j) = self.expression(i + 1)?;
            let j = self.consume(j, TokenType::RIGHT_PAREN)?;
            Ok((Expr::Grouping(Box::new(expr)), j))
        } else if k == TokenType::IDENTIFIER {
            Ok((Expr::Var(self.tokens[i].clone()), i + 1))
        } else {
            Err(ParseError::ExpectedExpression { found: k, line: self.line_at(i) })
        }
    }

    fn declaration(&self, i: usize) -> (r: Result<(Stmt, usize), ParseError>)
        requires
            i <= self.tokens@.len(),
        ensures
            stmt_res(r) == parse_decl(self.tokens@, i as nat),
            r matches Ok((_, j)) ==> i < j <= self.tokens@.len(),
        decreases self.tokens@.len() - i, 13nat, 0nat,
    {
        if self.check(i, TokenType::VAR) {
            self.var_decl(i)
        } else {
            self.statement(i)
        }
    }

    /// A `var` declaration whose keyword stands at `i`.
    fn var_decl(&self, i: usize) -> (r: Result<(Stmt, usize), ParseError>)
        requires
            check(self.tokens@, i as nat, TokenType::VAR),
        ensures
            stmt_res(r) == parse_decl(self.tokens@, i as nat),
            r matches Ok((_, j)) ==> i < j <= self.tokens@.len(),
        decreases self.tokens@.len() - i, 12nat, 9nat,
    {
        let _n = self.tokens.len();
        let j = self.consume(i + 1, TokenType::IDENTIFIER)?;
        let ident = self.tokens[i + 1].clone();
        let (initializer, k) = if self.check(j, TokenType::EQUAL) {
            self.expression(j + 1)?
        } else {
            (Expr::Literal(Literal::Nil), j)
        };
        let k = self.consume(k, TokenType::SEMICOLON)?;
        Ok((Stmt::Var(ident, Some(initializer)), k))
    }

    fn statement(&self, i: usize) -> (r: Result<(Stmt, usize), ParseError>)
        requires
            i <= self.tokens@.len(),
        ensures
            stmt_res(r) == parse_stmt(self.tokens@, i as nat),
            r matches Ok((_, j)) ==> i < j <= self.tokens@.len(),
        decreases self.tokens@.len() - i, 12nat, 1nat,
    {
        if self.check(i, TokenType::PRINT) {
            self.print_statement(i)
        } else if self.check(i, TokenType::IF) {
            self.if_statement(i)
        } else if self.check(i, TokenType::LEFT_BRACE) {
            self.block_statement(i)
        } else if self.check(i, TokenType::WHILE) {
            self.while_statement(i)
        } else {
            self.expr_statement(i)
        }
    }

    fn print_statement(&self, i: usize) -> (r: Result<(Stmt, usize), ParseError>)
        requires
            check(self.tokens@, i as nat, TokenType::PRINT),
        ensures
            stmt_res(r) == parse_stmt(self.tokens@, i as nat),
            r matches Ok((_, j)) ==> i < j <= self.tokens@.len(),
        decreases self.tokens@.len() - i, 12nat, 0nat,
    {
        let _n = self.tokens.len();
        let (value, j) = self.expression(i + 1)?;
        let j = self.consume(j, TokenType::SEMICOLON)?;
        Ok((Stmt::Print(value), j))
    }

    fn expr_statement(&self, i: usize) -> (r: Result<(Stmt, usize), ParseError>)
        requires
            i <= self.tokens@.len(),
            !check(self.tokens@, i as nat, TokenType::PRINT),
            !check(self.tokens@, i as nat, TokenType::IF),
            !check(self.tokens@, i as nat, TokenType::WHILE),
            !check(self.tokens@, i as nat, TokenType::LEFT_BRACE),
        ensures
            stmt_res(r) == parse_stmt(self.tokens@, i as nat),
            r matches Ok((_, j)) ==> i < j <= self.tokens@.len(),
        decreases self.tokens@.len() - i, 12nat, 0nat,
    {
        let (expr, j0) = self.expression(i)?;
        let j = self.consume(j0, TokenType::SEMICOLON)?;
        Ok((Stmt::Expression(expr), j))
    }

    /// The condition in parentheses and the body of an `if` or `while` whose
    /// keyword stands at `i`.
    fn condition_and_body(&self, i: usize) -> (r: Result<(Expr, Stmt, usize), ParseError>)
        requires
            check(self.tokens@, i as nat, TokenType::IF) || check(self.tokens@, i as nat, TokenType::WHILE),
        ensures
            match r {
                Ok((c, t, k)) => {
                    &&& i < k <= self.tokens@.len()
                    &&& check(self.tokens@, (i + 1) as nat, TokenType::LEFT_PAREN)
                    &&& parse_expr(self.tokens@, (i + 2) as nat, 0) matches Ok((c2, j))
                    &&& c2 == c
                    &&& check(self.tokens@, j, TokenType::RIGHT_PAREN)
                    &&& i <= j
                    &&& parse_stmt(self.tokens@, j + 1) == Ok::<(StmtView, nat), ParseError>((stmt_view(t), k as nat))
                },
                Err(e) => parse_stmt(self.tokens@, i as nat) == Err::<(StmtView, nat), ParseError>(e),
            },
        decreases self.tokens@.len() - i, 11nat, 9nat,
    {
        let _n = self.tokens.len();
        let j = self.consume(i + 1, TokenType::LEFT_PAREN)?;
        let (condition, j) = self.expression(j)?;
        let j = self.consume(j, TokenType::RIGHT_PAREN)?;
        let (body, k) = self.statement(j)?;
        Ok((condition, body, k))
    }

    fn if_statement(&self, i: usize) -> (r: Result<(Stmt, usize), ParseError>)
        requires
            check(self.tokens@, i as nat, TokenType::IF),
        ensures
            stmt_res(r) == parse_stmt(self.tokens@, i as nat),
            r matches Ok((_, j)) ==> i < j <= self.tokens@.len(),
        decreases self.tokens@.len() - i, 12nat, 0nat,
    {
        let (condition, then_branch, k) = self.condition_and_body(i)?;
        if self.check(k, TokenType::ELSE) {
            let (else_branch, m) = self.statement(k + 1)?;
            Ok((Stmt::If(condition, Box::new(then_branch), Box::new(Some(else_branch))), m))
        } else {
            Ok((Stmt::If(condition, Box::new(then_branch), Box::new(None)), k))
        }
    }

    fn while_statement(&self, i: usize) -> (r: Result<(Stmt, usize), ParseError>)
        requires
            check(self.tokens@, i as nat, TokenType::WHILE),
        ensures
            stmt_res(r) == parse_stmt(self.tokens@, i as nat),
            r matches Ok((_, j)) ==> i < j <= self.tokens@.len(),
        decreases self.tokens@.len() - i, 12nat, 0nat,
    {
        let (condition, body, k) = self.condition_and_body(i)?;
        Ok((Stmt::While(condition, Box::new(body)), k))
    }

    fn block_statement(&self, i: usize) -> (r: Result<(Stmt, usize), ParseError>)
        requires
            check(self.tokens@, i as nat, TokenType::LEFT_BRACE),
        ensures
            stmt_res(r) == parse_stmt(self.tokens@, i as nat),
            r matches Ok((_, j)) ==> i < j <= self.tokens@.len(),
        decreases self.tokens@.len() - i, 12nat, 0nat,
    {
        let ghost toks = self.tokens@;
        let _n = self.tokens.len();
        let mut statements: Vec<Stmt> = Vec::new();
        let mut j = i + 1;
        assert(stmt_views(statements@) =~= Seq::<StmtView>::empty());
        proof {
            match parse_block_items(toks, j as nat) {
                Ok((x, k)) => {
                    assert(Seq::<StmtView>::empty() + x =~= x);
                },
                Err(_) => {},
            }
        }
        while !self.check(j, TokenType::RIGHT_BRACE) && self.kind_at(j) != TokenType::EOF
            invariant
                toks == self.tokens@,
                i < j <= toks.len(),
                check(toks, i as nat, TokenType::LEFT_BRACE),
                parse_block_items(toks, (i + 1) as nat)
                    == prepend_items(stmt_views(statements@), parse_block_items(toks, j as nat)),
            decreases toks.len() - j,
        {
            let (stmt, k) = self.declaration(j)?;
            let ghost before = statements@;
            proof {
                match parse_block_items(toks, k as nat) {
                    Ok((x, m)) => {
                        assert(stmt_views(before) + (seq![stmt_view(stmt)] + x)
                            =~= stmt_views(before.push(stmt)) + x);
                    },
                    Err(_) => {},
                }
            }
            statements.push(stmt);
            j = k;
        }
        let j = self.consume(j, TokenType::RIGHT_BRACE)?;
        let ghost sv = statements@;
        let ghost items = stmt_views(sv);
        let r = Stmt::Block(statements);
        proof {
            let x = stmt_view(r)->Block_0;
            assert(x =~= items);
        }
        Ok((r, j))
    }

    /// Parses all tokens into the statements of a program.
    pub fn parse(&mut self) -> (r: Result<Vec<Stmt>, ParseError>)
        ensures
            final(self).toks() == old(self).toks(),
            match parse_program(old(self).toks(), 0) {
                Ok(ss) => r matches Ok(v) && stmt_views(v@) == ss,
                Err(e) => r == Err::<Vec<Stmt>, ParseError>(e),
            },
    {
        let ghost toks = self.tokens@;
        let mut statements: Vec<Stmt> = Vec::new();
        let mut j: usize = 0;
        assert(stmt_views(statements@) =~= Seq::<StmtView>::empty());
        proof {
            match parse_program(toks, 0) {
                Ok(x) => {
                    assert(Seq::<StmtView>::empty() + x =~= x);
                },
                Err(_) => {},
            }
        }
        while j < self.tokens.len() && self.kind_at(j) != TokenType::EOF
            invariant
                toks == self.tokens@,
                toks == old(self).tokens@,
                j <= toks.len(),
                parse_program(toks, 0) == match parse_program(toks, j as nat) {
                    Ok(rest) => Ok(stmt_views(statements@) + rest),
                    Err(e) => Err(e),
                },
            decreases toks.len() - j,
        {
            let (stmt, k) = self.declaration(j)?;
            let ghost before = statements@;
            proof {
                match parse_program(toks, k as nat) {
                    Ok(x) => {
                        assert(stmt_views(before) + (seq![stmt_view(stmt)] + x)
                            =~= stmt_views(before.push(stmt)) + x);
                    },
                    Err(_) => {},
                }
            }
            statements.push(stmt);
            j = k;
        }
        assert(stmt_views(statements@) + Seq::<StmtView>::empty() =~= stmt_views(statements@));
        Ok(statements)
    }

    /// Skips tokens after an error at `i` to the next statement boundary: past a
    /// `;`, or before a keyword that starts a statement, or at the end.
    fn synchronize(&self, i: usize) -> (r: usize)
        requires
            i < self.tokens@.len(),
        ensures
            r == resume_at(self.tokens@, i as nat),
            kind_at(self.tokens@, i as nat) != TokenType::EOF ==> i < r <= self.tokens@.len(),
    {
        if self.kind_at(i) == TokenType::EOF {
            return i;
        }
        let mut j = i + 1;
        while j < self.tokens.len() && self.kind_at(j) != TokenType::EOF
            && !(j > 0 && self.kind_at(j - 1) == TokenType::SEMICOLON)
            && !is_statement_start(self.kind_at(j))
            invariant
                i < j <= self.tokens@.len(),
                boundary_from(self.tokens@, (i + 1) as nat) == boundary_from(self.tokens@, j as nat),
            decreases self.tokens@.len() - j,
        {
            j = j + 1;
        }
        j
    }

    /// Parses all tokens, and where a declaration fails records the error and
    /// resumes at the next statement boundary: the statements that parsed, in
    /// order, and the errors, in order.
    pub fn parse_all(&self) -> (r: (Vec<Stmt>, Vec<ParseError>))
        ensures
            stmt_views(r.0@) == parse_recovering(self.toks(), 0).0,
            r.1@ == parse_recovering(self.toks(), 0).1,
    {
        let ghost toks = self.tokens@;
        let mut statements: Vec<Stmt> = Vec::new();
        let mut errors: Vec<ParseError> = Vec::new();
        let mut j: usize = 0;
        assert(stmt_views(statements@) =~= Seq::<StmtView>::empty());
        assert(parse_recovering(toks, 0).0 =~= Seq::<StmtView>::empty() + parse_recovering(toks, 0).0);
        assert(parse_recovering(toks, 0).1 =~= Seq::<ParseError>::empty() + parse_recovering(toks, 0).1);
        while j < self.tokens.len() && self.kind_at(j) != TokenType::EOF
            invariant
                toks == self.tokens@,
                j <= toks.len(),
                parse_recovering(toks, 0).0 == stmt_views(statements@) + parse_recovering(toks, j as nat).0,
                parse_recovering(toks, 0).1 == errors@ + parse_recovering(toks, j as nat).1,
            decreases toks.len() - j,
        {
            let ghost ss = statements@;
            let ghost es = errors@;
            match self.declaration(j) {
                Ok((stmt, k)) => {
                    proof {
                        let rest = parse_recovering(toks, k as nat);
                        assert(stmt_views(ss) + (seq![stmt_view(stmt)] + rest.0)
                            =~= stmt_views(ss.push(stmt)) + rest.0);
                    }
                    statements.push(stmt);
                    j = k;
                },
                Err(e) => {
                    let k = self.synchronize(j);
                    proof {
                        let rest = parse_recovering(toks, k as nat);
                        assert(es + (seq![e] + rest.1) =~= es.push(e) + rest.1);
                    }
                    errors.push(e);
                    j = k;
                },
            }
        }
        assert(stmt_views(statements@) + Seq::<StmtView>::empty() =~= stmt_views(statements@));
        assert(errors@ + Seq::<ParseError>::empty() =~= errors@);
        (statements, errors)
    }
}

} // verus!
