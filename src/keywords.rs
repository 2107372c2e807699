//! The reserved words of the language.
use vstd::prelude::*;
use crate::token::TokenType;

verus! {

/// The token kind of a reserved word, or `None` for any other word.
pub open spec fn keyword_kind(w: Seq<char>) -> Option<TokenType> {
    if w == "and"@ {
        Some(TokenType::AND)
    } else if w == "class"@ {
        Some(TokenType::CLASS)
    } else if w == "else"@ {
        Some(TokenType::ELSE)
    } else if w == "false"@ {
        Some(TokenType::FALSE)
    } else if w == "for"@ {
        Some(TokenType::FOR)
    } else if w == "fun"@ {
        Some(TokenType::FUN)
    } else if w == "if"@ {
        Some(TokenType::IF)
    } else if w == "nil"@ {
        Some(TokenType::NIL)
    } else if w == "or"@ {
        Some(TokenType::OR)
    } else if w == "print"@ {
        Some(TokenType::PRINT)
    } else if w == "return"@ {
        Some(TokenType::RETURN)
    } else if w == "super"@ {
        Some(TokenType::SUPER)
    } else if w == "this"@ {
        Some(TokenType::THIS)
    } else if w == "true"@ {
        Some(TokenType::TRUE)
    } else if w == "var"@ {
        Some(TokenType::VAR)
    } else if w == "while"@ {
        Some(TokenType::WHILE)
    } else {
        None
    }
}

/// Whether two texts hold the same characters.
fn same_text(a: &str, b: &str) -> (r: bool)
    ensures
        r == (a@ == b@),
{
    let n = a.unicode_len();
    if n != b.unicode_len() {
        return false;
    }
    let mut i: usize = 0;
    while i < n
        invariant
            n == a@.len(),
            n == b@.len(),
            i <= n,
            forall|k: int| 0 <= k < i ==> a@[k] == b@[k],
        decreases n - i,
    {
        if a.get_char(i) != b.get_char(i) {
            return false;
        }
        i = i + 1;
    }
    assert(a@ =~= b@);
    true
}

/// The token kind of `word` where it is a reserved word.
pub fn get_keywords(word: &str) -> (r: Option<TokenType>)
    ensures
        r == keyword_kind(word@),
{
    if same_text(word, "and") {
        Some(TokenType::AND)
    } else if same_text(word, "class") {
        Some(TokenType::CLASS)
    } else if same_text(word, "else") {
        Some(TokenType::ELSE)
    } else if same_text(word, "false") {
        Some(TokenType::FALSE)
    } else if same_text(word, "for") {
        Some(TokenType::FOR)
    } else if same_text(word, "fun") {
        Some(TokenType::FUN)
    } else if same_text(word, "if") {
        Some(TokenType::IF)
    } else if same_text(word, "nil") {
        Some(TokenType::NIL)
    } else if same_text(word, "or") {
        Some(TokenType::OR)
    } else if same_text(word, "print") {
        Some(TokenType::PRINT)
    } else if same_text(word, "return") {
        Some(TokenType::RETURN)
    } else if same_text(word, "super") {
        Some(TokenType::SUPER)
    } else if same_text(word, "this") {
        Some(TokenType::THIS)
    } else if same_text(word, "true") {
        Some(TokenType::TRUE)
    } else if same_text(word, "var") {
        Some(TokenType::VAR)
    } else if same_text(word, "while") {
        Some(TokenType::WHILE)
    } else {
        None
    }
}

} // verus!
