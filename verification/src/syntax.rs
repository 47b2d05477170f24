//! The words of the language in one place: change a word here and the lexer,
//! the parser and the compiler all follow.

use vstd::prelude::*;
use crate::text::str_eq;
use crate::token::{KindView, TokenKind};

verus! {

broadcast use vstd::string::group_string_axioms;

/// The special words and names of the language.
pub struct SyntaxConfig {
    pub print_fn: &'static str,
    pub for_kw: &'static str,
    pub in_kw: &'static str,
    pub range_fn: &'static str,
    pub through_kw: &'static str,
    pub if_kw: &'static str,
    pub else_kw: &'static str,
    pub while_kw: &'static str,
    pub return_kw: &'static str,
    pub and_kw: &'static str,
    pub or_kw: &'static str,
    pub not_kw: &'static str,
    pub true_kw: &'static str,
    pub false_kw: &'static str,
}

/// The default words, as `design/syntax.md` shows them.
pub open spec fn spec_syntax() -> SyntaxConfig {
    SyntaxConfig {
        print_fn: "out",
        for_kw: "for",
        in_kw: "in",
        range_fn: "range",
        through_kw: "through",
        if_kw: "if",
        else_kw: "else",
        while_kw: "while",
        return_kw: "return",
        and_kw: "and",
        or_kw: "or",
        not_kw: "not",
        true_kw: "true",
        false_kw: "false",
    }
}

/// The words the language uses.
#[allow(non_snake_case)]
pub fn SYNTAX() -> (c: SyntaxConfig)
    ensures
        c == spec_syntax(),
{
    SyntaxConfig {
        print_fn: "out",
        for_kw: "for",
        in_kw: "in",
        range_fn: "range",
        through_kw: "through",
        if_kw: "if",
        else_kw: "else",
        while_kw: "while",
        return_kw: "return",
        and_kw: "and",
        or_kw: "or",
        not_kw: "not",
        true_kw: "true",
        false_kw: "false",
    }
}

/// The token kind of a keyword, or `None` for an ordinary name.
pub open spec fn spec_keyword(word: Seq<char>) -> Option<KindView> {
    let s = spec_syntax();
    if word == s.for_kw@ {
        Some(KindView::For)
    } else if word == s.in_kw@ {
        Some(KindView::In)
    } else if word == s.range_fn@ {
        Some(KindView::Range)
    } else if word == s.through_kw@ {
        Some(KindView::Through)
    } else if word == s.if_kw@ {
        Some(KindView::If)
    } else if word == s.else_kw@ {
        Some(KindView::Else)
    } else if word == s.while_kw@ {
        Some(KindView::While)
    } else if word == s.return_kw@ {
        Some(KindView::Return)
    } else if word == s.and_kw@ {
        Some(KindView::And)
    } else if word == s.or_kw@ {
        Some(KindView::Or)
    } else if word == s.not_kw@ {
        Some(KindView::Not)
    } else if word == s.true_kw@ {
        Some(KindView::True)
    } else if word == s.false_kw@ {
        Some(KindView::False)
    } else {
        None
    }
}

/// The keywords and the tokens they are: `for` `in` `range` `through` `if`
/// `else` `while` `return` `and` `or` `not` `true` `false`; any other word is
/// no keyword.
pub proof fn lemma_keywords(word: Seq<char>)
    ensures
        spec_keyword(word) == if word == "for"@ {
            Some(KindView::For)
        } else if word == "in"@ {
            Some(KindView::In)
        } else if word == "range"@ {
            Some(KindView::Range)
        } else if word == "through"@ {
            Some(KindView::Through)
        } else if word == "if"@ {
            Some(KindView::If)
        } else if word == "else"@ {
            Some(KindView::Else)
        } else if word == "while"@ {
            Some(KindView::While)
        } else if word == "return"@ {
            Some(KindView::Return)
        } else if word == "and"@ {
            Some(KindView::And)
        } else if word == "or"@ {
            Some(KindView::Or)
        } else if word == "not"@ {
            Some(KindView::Not)
        } else if word == "true"@ {
            Some(KindView::True)
        } else if word == "false"@ {
            Some(KindView::False)
        } else {
            None
        },
{
}

pub open spec fn option_kind_view(k: Option<TokenKind>) -> Option<KindView> {
    match k {
        Some(kind) => Some(kind@),
        None => None,
    }
}

/// Turns a word into its keyword token kind; an ordinary name gives `None`.
pub fn keyword_token(word: &str) -> (r: Option<TokenKind>)
    ensures
        option_kind_view(r) == spec_keyword(word@),
{
    let s = SYNTAX();
    if str_eq(word, s.for_kw) {
        return Some(TokenKind::For);
    }
    if str_eq(word, s.in_kw) {
        return Some(TokenKind::In);
    }
    if str_eq(word, s.range_fn) {
        return Some(TokenKind::Range);
    }
    if str_eq(word, s.through_kw) {
        return Some(TokenKind::Through);
    }
    if str_eq(word, s.if_kw) {
        return Some(TokenKind::If);
    }
    if str_eq(word, s.else_kw) {
        return Some(TokenKind::Else);
    }
    if str_eq(word, s.while_kw) {
        return Some(TokenKind::While);
    }
    if str_eq(word, s.return_kw) {
        return Some(TokenKind::Return);
    }
    if str_eq(word, s.and_kw) {
        return Some(TokenKind::And);
    }
    if str_eq(word, s.or_kw) {
        return Some(TokenKind::Or);
    }
    if str_eq(word, s.not_kw) {
        return Some(TokenKind::Not);
    }
    if str_eq(word, s.true_kw) {
        return Some(TokenKind::True);
    }
    if str_eq(word, s.false_kw) {
        return Some(TokenKind::False);
    }
    None
}

/// Whether a call name is the built-in print function.
pub fn is_print_function(name: &str) -> (r: bool)
    ensures
        r == (name@ == spec_syntax().print_fn@),
{
    str_eq(name, SYNTAX().print_fn)
}

} // verus!
