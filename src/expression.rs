//! Expression trees.
use vstd::prelude::*;
use crate::token::{token_text, value_text, Literal, Token};
use crate::text::{push_str, push_char};

verus! {

/// An expression node; each node owns its children.
#[derive(Debug)]
pub enum Expr {
    Unary(Token, Box<Expr>),
    Binary(Box<Expr>, Token, Box<Expr>),
    Logical(Box<Expr>, Token, Box<Expr>),
    Grouping(Box<Expr>),
    Literal(Literal),
    Var(Token),
    Assign(Token, Box<Expr>),
}

/// The parenthesized prefix rendering of an expression, used for debugging
/// output: operators come first, groups are marked `group`.
pub open spec fn expr_text(e: Expr) -> Seq<char>
    decreases e,
{
    match e {
        Expr::Binary(l, op, r) => "("@ + token_text(op) + " "@ + expr_text(*l) + " "@
            + expr_text(*r) + ")"@,
        Expr::Logical(l, op, r) => "("@ + token_text(op) + " "@ + expr_text(*l) + " "@
            + expr_text(*r) + ")"@,
        Expr::Unary(op, v) => "("@ + token_text(op) + expr_text(*v) + ")"@,
        Expr::Grouping(g) => "(group "@ + expr_text(*g) + ")"@,
        Expr::Literal(v) => value_text(v@),
        Expr::Var(t) => "(var "@ + t.lexeme@ + ")"@,
        Expr::Assign(_t, v) => "(= "@ + expr_text(*v) + ")"@,
    }
}

impl Expr {
    /// Appends the rendering of this expression to `s`.
    pub fn push_text(&self, s: &mut String)
        ensures
            final(s)@ == old(s)@ + expr_text(*self),
        decreases self,
    {
        let ghost s0 = s@;
        match self {
            Expr::Binary(l, op, r) | Expr::Logical(l, op, r) => {
                push_char(s, '(');
                op.push_text(s);
                push_char(s, ' ');
                l.push_text(s);
                push_char(s, ' ');
                r.push_text(s);
                push_char(s, ')');
            },
            Expr::Unary(op, v) => {
                push_char(s, '(');
                op.push_text(s);
                v.push_text(s);
                push_char(s, ')');
            },
            Expr::Grouping(g) => {
                push_str(s, "(group ");
                g.push_text(s);
                push_char(s, ')');
            },
            Expr::Literal(v) => {
                let t = v.to_text();
                push_str(s, t.as_str());
            },
            Expr::Var(t) => {
                push_str(s, "(var ");
                push_str(s, t.lexeme.as_str());
                push_char(s, ')');
            },
            Expr::Assign(_t, v) => {
                push_str(s, "(= ");
                v.push_text(s);
                push_char(s, ')');
            },
        }
        proof {
            reveal_strlit("(");
            reveal_strlit(")");
            reveal_strlit(" ");
            assert(s@ =~= s0 + expr_text(*self));
        }
    }

    /// The rendering of this expression.
    pub fn to_text(&self) -> (r: String)
        ensures
            r@ == expr_text(*self),
    {
        let mut s = String::new();
        self.push_text(&mut s);
        assert(s@ =~= expr_text(*self));
        s
    }
}

} // verus!
