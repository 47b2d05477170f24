//! The lexer cuts source text into tokens.
//!
//! Lines are significant: a line's leading spaces or tabs open (`Indent`) or
//! close (`Dedent`) indented blocks, and a line that holds tokens ends with a
//! `Newline`. Blank lines and lines holding only a `//` comment are ignored.
//! The token list always ends with the `Dedent`s still open and `EOF`.

use vstd::prelude::*;
use crate::error::{spec_error, spec_span, ErrorPhase, ErrorView, GupError, Span};
use crate::syntax::{keyword_token, option_kind_view, spec_keyword};
use crate::text::{
    char_is_alphabetic, char_is_alphanumeric, chars_of, is_alphabetic, is_alphanumeric,
    is_ascii_char, is_ascii_letter,
    is_whitespace, push_char, push_chars, spec_is_ascii_digit, spec_is_whitespace, string_of,
};
use crate::token::{spec_describe, tokens_view, KindView, Token, TokenKind, TokenView};

verus! {

broadcast use vstd::string::group_string_axioms;

// ---------------------------------------------------------------------------
// Specification
// ---------------------------------------------------------------------------

/// Where the lexer stands: the next character, the line and column it is on,
/// the open indentation widths, whether a new line is about to be measured,
/// whether the current line produced a token, and the tokens so far.
pub struct LexState {
    pub pos: int,
    pub line: int,
    pub column: int,
    pub indents: Seq<usize>,
    pub at_line_start: bool,
    pub line_has_tokens: bool,
    pub tokens: Seq<TokenView>,
}

/// One step of the lexer: on to a new state, or a lexing error.
pub enum LexStep {
    Next(LexState),
    Fail(ErrorView),
}

pub open spec fn lex_error(line: int, column: int, width: int, message: Seq<char>) -> ErrorView {
    spec_error(ErrorPhase::Lex, spec_span(line as usize, column as usize, width as usize), message)
}

pub open spec fn token_at(kind: KindView, line: int, column: int, width: int) -> TokenView {
    TokenView { kind, span: spec_span(line as usize, column as usize, width as usize) }
}

/// The state after a token of `width` characters at the current place.
pub open spec fn emit(st: LexState, kind: KindView, width: int) -> LexState {
    LexState {
        pos: st.pos + width,
        column: st.column + width,
        line_has_tokens: true,
        tokens: st.tokens.push(token_at(kind, st.line, st.column, width)),
        ..st
    }
}

/// The state after skipping `width` characters of the current line.
pub open spec fn skip(st: LexState, width: int) -> LexState {
    LexState { pos: st.pos + width, column: st.column + width, ..st }
}

/// The end of the run of spaces and tabs starting at `i`.
pub open spec fn indent_end(s: Seq<char>, i: int) -> int
    decreases s.len() - i,
{
    if 0 <= i < s.len() && (s[i] == ' ' || s[i] == '\t') {
        indent_end(s, i + 1)
    } else {
        i
    }
}

/// The end of the line that a `//` comment starting at `i` runs to.
pub open spec fn comment_end(s: Seq<char>, i: int) -> int
    decreases s.len() - i,
{
    if 0 <= i < s.len() && s[i] != '\n' {
        comment_end(s, i + 1)
    } else {
        i
    }
}

/// The first place from `i` holding the quote `q`, a line break, or the end.
pub open spec fn quote_end(s: Seq<char>, i: int, q: char) -> int
    decreases s.len() - i,
{
    if 0 <= i < s.len() && s[i] != q && s[i] != '\n' {
        quote_end(s, i + 1, q)
    } else {
        i
    }
}

/// The end of the run of ASCII digits and dots starting at `i`.
pub open spec fn number_end(s: Seq<char>, i: int) -> int
    decreases s.len() - i,
{
    if 0 <= i < s.len() && (spec_is_ascii_digit(s[i]) || s[i] == '.') {
        number_end(s, i + 1)
    } else {
        i
    }
}

/// A character that may continue a name: what `char::is_alphanumeric`
/// accepts, or `_`. In the ASCII range these are the letters, the digits
/// and `_`.
pub open spec fn is_name_char(c: char) -> bool {
    if is_ascii_char(c) {
        is_ascii_letter(c) || ('0' <= c && c <= '9') || c == '_'
    } else {
        char_is_alphanumeric(c)
    }
}

/// The end of the run of name characters starting at `i`.
pub open spec fn name_end(s: Seq<char>, i: int) -> int
    decreases s.len() - i,
{
    if 0 <= i < s.len() && is_name_char(s[i]) {
        name_end(s, i + 1)
    } else {
        i
    }
}

pub open spec fn count_dots(s: Seq<char>) -> nat
    decreases s.len(),
{
    if s.len() == 0 {
        0
    } else {
        count_dots(s.drop_last()) + if s.last() == '.' { 1nat } else { 0nat }
    }
}

/// The value of a run of ASCII digits.
pub open spec fn digits_value(s: Seq<char>) -> nat
    decreases s.len(),
{
    if s.len() == 0 {
        0
    } else {
        digits_value(s.drop_last()) * 10 + ((s.last() as int) - ('0' as int)) as nat
    }
}

/// A line that holds nothing but blanks, or only a comment, from `p` on.
pub open spec fn blank_from(s: Seq<char>, p: int) -> bool {
    ||| p >= s.len()
    ||| s[p] == '\n'
    ||| s[p] == '\r'
    ||| (s[p] == '/' && p + 1 < s.len() && s[p + 1] == '/')
}

/// Closes every indented block wider than `width`, one `Dedent` each.
pub open spec fn pop_dedents(
    indents: Seq<usize>,
    tokens: Seq<TokenView>,
    width: int,
    t: TokenView,
) -> (Seq<usize>, Seq<TokenView>)
    decreases indents.len(),
{
    if indents.len() > 1 && indents.last() > width {
        pop_dedents(indents.drop_last(), tokens.push(t), width, t)
    } else {
        (indents, tokens)
    }
}

/// Measuring the indentation of a fresh line.
pub open spec fn step_line_start(s: Seq<char>, st: LexState) -> LexStep {
    let p = indent_end(s, st.pos);
    let w = p - st.pos;
    let st1 = LexState { pos: p, column: st.column + w, at_line_start: false, ..st };
    let top = st.indents.last();
    if blank_from(s, p) {
        LexStep::Next(st1)
    } else if w > top {
        LexStep::Next(
            LexState {
                indents: st.indents.push(w as usize),
                tokens: st.tokens.push(token_at(KindView::Indent, st.line, 1, w)),
                ..st1
            },
        )
    } else if w == top {
        LexStep::Next(st1)
    } else {
        let (indents, tokens) = pop_dedents(
            st.indents,
            st.tokens,
            w,
            token_at(KindView::Dedent, st.line, w + 1, 1),
        );
        if indents.last() == w {
            LexStep::Next(LexState { indents, tokens, ..st1 })
        } else {
            LexStep::Fail(
                lex_error(
                    st.line,
                    1,
                    w,
                    "This line's indentation does not match any outer indented block."@,
                ),
            )
        }
    }
}

pub open spec fn one_char_kind(c: char) -> Option<KindView> {
    if c == '(' {
        Some(KindView::LeftParen)
    } else if c == ')' {
        Some(KindView::RightParen)
    } else if c == '[' {
        Some(KindView::LeftBracket)
    } else if c == ']' {
        Some(KindView::RightBracket)
    } else if c == ';' {
        Some(KindView::Semicolon)
    } else if c == ',' {
        Some(KindView::Comma)
    } else if c == '+' {
        Some(KindView::Plus)
    } else if c == '-' {
        Some(KindView::Minus)
    } else if c == '*' {
        Some(KindView::Star)
    } else if c == '/' {
        Some(KindView::Slash)
    } else {
        None
    }
}

/// The character after `i`, if any.
pub open spec fn next_is(s: Seq<char>, i: int, c: char) -> bool {
    i + 1 < s.len() && s[i + 1] == c
}

/// An operator made of `c` and an optional `=` after it.
pub open spec fn step_operator(s: Seq<char>, st: LexState) -> LexStep {
    let c = s[st.pos];
    let eq = next_is(s, st.pos, '=');
    if c == '=' {
        if eq { LexStep::Next(emit(st, KindView::EqualEqual, 2)) }
        else { LexStep::Next(emit(st, KindView::Equal, 1)) }
    } else if c == '!' {
        if eq {
            LexStep::Next(emit(st, KindView::BangEqual, 2))
        } else {
            LexStep::Fail(
                lex_error(
                    st.line,
                    st.column,
                    1,
                    "Found a lonely '!'. Use '!=' to compare, or 'not' to flip a value."@,
                ),
            )
        }
    } else if c == '<' {
        if eq { LexStep::Next(emit(st, KindView::LessEqual, 2)) }
        else { LexStep::Next(emit(st, KindView::Less, 1)) }
    } else {
        if eq { LexStep::Next(emit(st, KindView::GreaterEqual, 2)) }
        else { LexStep::Next(emit(st, KindView::Greater, 1)) }
    }
}

/// A `"text"` literal on one line.
pub open spec fn step_string(s: Seq<char>, st: LexState) -> LexStep {
    let i = st.pos;
    let e = quote_end(s, i + 1, '"');
    if e >= s.len() || s[e] == '\n' {
        LexStep::Fail(
            lex_error(st.line, st.column, 1, "You started a string with \" but never closed it."@),
        )
    } else {
        LexStep::Next(emit(st, KindView::StringLiteral(s.subrange(i + 1, e)), e - i + 1))
    }
}

/// A `'c'` literal: exactly one character between single quotes.
pub open spec fn step_char_literal(s: Seq<char>, st: LexState) -> LexStep {
    let i = st.pos;
    let e = quote_end(s, i + 1, '\'');
    if e >= s.len() || s[e] == '\n' {
        LexStep::Fail(
            lex_error(st.line, st.column, 1, "You started a char with ' but never closed it."@),
        )
    } else if e != i + 2 {
        LexStep::Fail(
            lex_error(
                st.line,
                st.column,
                e - i + 1,
                "A char must be exactly one character, like 'a'."@,
            ),
        )
    } else {
        LexStep::Next(emit(st, KindView::CharLiteral(s[i + 1]), 3))
    }
}

/// A number: digits, or digits with one decimal point between digits.
pub open spec fn step_number(s: Seq<char>, st: LexState) -> LexStep {
    let i = st.pos;
    let e = number_end(s, i);
    let text = s.subrange(i, e);
    let dots = count_dots(text);
    if dots > 1 {
        LexStep::Fail(
            lex_error(
                st.line,
                st.column,
                e - i,
                "Too many decimal points in number '"@ + text + "'."@,
            ),
        )
    } else if dots == 1 {
        if text.last() == '.' {
            LexStep::Fail(
                lex_error(
                    st.line,
                    st.column,
                    e - i,
                    "'"@ + text + "' is not a valid decimal number."@,
                ),
            )
        } else {
            LexStep::Next(emit(st, KindView::FloatLiteral(text), e - i))
        }
    } else if digits_value(text) > i64::MAX {
        LexStep::Fail(
            lex_error(st.line, st.column, e - i, "'"@ + text + "' is not a valid whole number."@),
        )
    } else {
        LexStep::Next(emit(st, KindView::NumberLiteral(digits_value(text) as i64), e - i))
    }
}

/// A name or keyword: a letter or `_`, then letters, digits and `_`.
pub open spec fn step_name(s: Seq<char>, st: LexState) -> LexStep {
    let i = st.pos;
    let e = name_end(s, i + 1);
    let word = s.subrange(i, e);
    let kind = match spec_keyword(word) {
        Some(k) => k,
        None => KindView::Identifier(word),
    };
    LexStep::Next(emit(st, kind, e - i))
}

/// One step inside a line.
pub open spec fn step_in_line(s: Seq<char>, st: LexState) -> LexStep {
    let i = st.pos;
    let c = s[i];
    if c == '\n' {
        let tokens = if st.line_has_tokens {
            st.tokens.push(token_at(KindView::Newline, st.line, st.column, 1))
        } else {
            st.tokens
        };
        LexStep::Next(
            LexState {
                pos: i + 1,
                line: st.line + 1,
                column: 1,
                at_line_start: true,
                line_has_tokens: false,
                tokens,
                ..st
            },
        )
    } else if spec_is_whitespace(c) {
        LexStep::Next(skip(st, 1))
    } else if c == '/' && next_is(s, i, '/') {
        LexStep::Next(skip(st, comment_end(s, i) - i))
    } else if one_char_kind(c) is Some {
        LexStep::Next(emit(st, one_char_kind(c)->0, 1))
    } else if c == '=' || c == '!' || c == '<' || c == '>' {
        step_operator(s, st)
    } else if c == '"' {
        step_string(s, st)
    } else if c == '\'' {
        step_char_literal(s, st)
    } else if spec_is_ascii_digit(c) {
        step_number(s, st)
    } else if char_is_alphabetic(c) || c == '_' {
        step_name(s, st)
    } else {
        LexStep::Fail(
            lex_error(
                st.line,
                st.column,
                1,
                "I do not know what to do with '"@ + seq![c] + "'."@,
            ),
        )
    }
}

pub open spec fn step(s: Seq<char>, st: LexState) -> LexStep {
    if st.at_line_start {
        step_line_start(s, st)
    } else {
        step_in_line(s, st)
    }
}

/// The tokens added once the text is used up: the last line's `Newline`,
/// a `Dedent` for every block still open, and `EOF`.
pub open spec fn finish(st: LexState) -> Seq<TokenView> {
    let t1 = if st.line_has_tokens {
        st.tokens.push(token_at(KindView::Newline, st.line, st.column, 1))
    } else {
        st.tokens
    };
    let closing = Seq::new(
        (st.indents.len() - 1) as nat,
        |k: int| token_at(KindView::Dedent, st.line, st.column, 1),
    );
    t1 + closing + seq![token_at(KindView::EOF, st.line, st.column, 1)]
}

pub open spec fn lex_measure(st: LexState) -> int {
    if st.at_line_start { 1 } else { 0 }
}

/// Whether a step moved forward: past a character, or past a line's indentation.
pub open spec fn advances(s: Seq<char>, st: LexState, st2: LexState) -> bool {
    ||| st.pos < st2.pos <= s.len()
    ||| (st2.pos == st.pos && st.at_line_start && !st2.at_line_start)
}

/// The tokens of the rest of the text from state `st`, or the first error.
pub open spec fn lex_from(s: Seq<char>, st: LexState) -> Result<Seq<TokenView>, ErrorView>
    decreases s.len() - st.pos, lex_measure(st),
{
    if st.pos < 0 || st.pos >= s.len() {
        Ok(finish(st))
    } else {
        match step(s, st) {
            LexStep::Next(st2) => if advances(s, st, st2) {
                lex_from(s, st2)
            } else {
                Ok(finish(st))
            },
            LexStep::Fail(e) => Err(e),
        }
    }
}

pub open spec fn initial_state() -> LexState {
    LexState {
        pos: 0,
        line: 1,
        column: 1,
        indents: seq![0usize],
        at_line_start: true,
        line_has_tokens: false,
        tokens: seq![],
    }
}

/// The tokens of a whole text, or the first lexing error.
pub open spec fn spec_lex(s: Seq<char>) -> Result<Seq<TokenView>, ErrorView> {
    lex_from(s, initial_state())
}

} // verus!

verus! {

// ---------------------------------------------------------------------------
// Implementation
// ---------------------------------------------------------------------------

struct Lexer {
    chars: Vec<char>,
    pos: usize,
    line: usize,
    column: usize,
    indents: Vec<usize>,
    at_line_start: bool,
    line_has_tokens: bool,
    tokens: Vec<Token>,
}

impl Lexer {
    spec fn state(&self) -> LexState {
        LexState {
            pos: self.pos as int,
            line: self.line as int,
            column: self.column as int,
            indents: self.indents@,
            at_line_start: self.at_line_start,
            line_has_tokens: self.line_has_tokens,
            tokens: tokens_view(self.tokens@),
        }
    }

    spec fn wf(&self) -> bool {
        &&& self.chars@.len() < usize::MAX
        &&& self.pos <= self.chars@.len()
        &&& 1 <= self.line <= self.pos + 1
        &&& 1 <= self.column <= self.pos + 1
        &&& self.indents@.len() >= 1
        &&& forall|k: int| 0 <= k < self.indents@.len() ==> self.indents@[k] <= self.chars@.len()
    }

    spec fn result_matches(&self, r: Result<(), GupError>, old_self: &Lexer, st: LexStep) -> bool {
        &&& self.chars@ == old_self.chars@
        &&& match st {
            LexStep::Next(st2) => {
                &&& r is Ok
                &&& self.state() == st2
                &&& self.wf()
                &&& advances(self.chars@, old_self.state(), st2)
            },
            LexStep::Fail(e) => r matches Err(err) && err@ == e,
        }
    }

    fn emit(&mut self, kind: TokenKind, width: usize)
        requires
            old(self).wf(),
            1 <= width,
            old(self).pos + width <= old(self).chars@.len(),
        ensures
            final(self).wf(),
            final(self).chars@ == old(self).chars@,
            final(self).state() == emit(old(self).state(), kind@, width as int),
    {
        let t = Token::at(kind, self.line, self.column, width);
        self.tokens.push(t);
        self.pos = self.pos + width;
        self.column = self.column + width;
        self.line_has_tokens = true;
        assert(tokens_view(self.tokens@) =~= tokens_view(old(self).tokens@).push(t@));
    }

    fn fail(&self, width: usize, message: &str) -> (e: GupError)
        ensures
            e@ == lex_error(self.line as int, self.column as int, width as int, message@),
    {
        GupError::lex(Span::new(self.line, self.column, width), message)
    }

    fn scan_indent(&self, i: usize) -> (e: usize)
        requires
            i <= self.chars@.len(),
        ensures
            e == indent_end(self.chars@, i as int),
            i <= e <= self.chars@.len(),
    {
        let mut j = i;
        while j < self.chars.len() && (self.chars[j] == ' ' || self.chars[j] == '\t')
            invariant
                i <= j <= self.chars@.len(),
                indent_end(self.chars@, j as int) == indent_end(self.chars@, i as int),
            decreases self.chars@.len() - j,
        {
            j = j + 1;
        }
        j
    }

    fn scan_comment(&self, i: usize) -> (e: usize)
        requires
            i <= self.chars@.len(),
        ensures
            e == comment_end(self.chars@, i as int),
            i <= e <= self.chars@.len(),
    {
        let mut j = i;
        while j < self.chars.len() && self.chars[j] != '\n'
            invariant
                i <= j <= self.chars@.len(),
                comment_end(self.chars@, j as int) == comment_end(self.chars@, i as int),
            decreases self.chars@.len() - j,
        {
            j = j + 1;
        }
        j
    }

    fn scan_quote(&self, i: usize, q: char) -> (e: usize)
        requires
            i <= self.chars@.len(),
        ensures
            e == quote_end(self.chars@, i as int, q),
            i <= e <= self.chars@.len(),
    {
        let mut j = i;
        while j < self.chars.len() && self.chars[j] != q && self.chars[j] != '\n'
            invariant
                i <= j <= self.chars@.len(),
                quote_end(self.chars@, j as int, q) == quote_end(self.chars@, i as int, q),
            decreases self.chars@.len() - j,
        {
            j = j + 1;
        }
        j
    }

    fn scan_number(&self, i: usize) -> (e: usize)
        requires
            i <= self.chars@.len(),
        ensures
            e == number_end(self.chars@, i as int),
            i <= e <= self.chars@.len(),
    {
        let mut j = i;
        while j < self.chars.len() && (('0' <= self.chars[j] && self.chars[j] <= '9')
            || self.chars[j] == '.')
            invariant
                i <= j <= self.chars@.len(),
                number_end(self.chars@, j as int) == number_end(self.chars@, i as int),
            decreases self.chars@.len() - j,
        {
            j = j + 1;
        }
        j
    }

    fn scan_name(&self, i: usize) -> (e: usize)
        requires
            i <= self.chars@.len(),
        ensures
            e == name_end(self.chars@, i as int),
            i <= e <= self.chars@.len(),
    {
        let mut j = i;
        while j < self.chars.len() && (is_alphanumeric(self.chars[j]) || self.chars[j] == '_')
            invariant
                i <= j <= self.chars@.len(),
                name_end(self.chars@, j as int) == name_end(self.chars@, i as int),
            decreases self.chars@.len() - j,
        {
            j = j + 1;
        }
        j
    }
}

} // verus!

verus! {

impl Lexer {
    fn step_line_start(&mut self) -> (r: Result<(), GupError>)
        requires
            old(self).wf(),
            old(self).at_line_start,
            old(self).pos < old(self).chars@.len(),
        ensures
            final(self).result_matches(r, old(self), step_line_start(old(self).chars@, old(self).state())),
    {
        let ghost s = self.chars@;
        let ghost st = self.state();
        let len = self.chars.len();
        let p = self.scan_indent(self.pos);
        let w = p - self.pos;
        let blank = p >= len || self.chars[p] == '\n' || self.chars[p] == '\r' || (self.chars[p]
            == '/' && p + 1 < len && self.chars[p + 1] == '/');
        let top = self.indents[self.indents.len() - 1];
        assert(top == st.indents.last());
        if !blank {
            if w > top {
                self.indents.push(w);
                let t = Token::at(TokenKind::Indent, self.line, 1, w);
                self.tokens.push(t);
                assert(tokens_view(self.tokens@) =~= st.tokens.push(t@));
            } else if w < top {
                let ghost dt = token_at(KindView::Dedent, st.line, w + 1, 1);
                while self.indents.len() > 1 && self.indents[self.indents.len() - 1] > w
                    invariant
                        self.chars@ == s,
                        self.indents@.len() >= 1,
                        forall|k: int|
                            0 <= k < self.indents@.len() ==> self.indents@[k] <= s.len(),
                        pop_dedents(st.indents, st.tokens, w as int, dt) == pop_dedents(
                            self.indents@,
                            tokens_view(self.tokens@),
                            w as int,
                            dt,
                        ),
                        self.line == st.line,
                        self.pos == st.pos,
                        self.column == st.column,
                        self.line_has_tokens == st.line_has_tokens,
                        self.at_line_start,
                        w < s.len(),
                        s.len() < usize::MAX,
                        dt == token_at(KindView::Dedent, st.line, w + 1, 1),
                        w == p - st.pos,
                        p <= s.len(),
                    decreases self.indents@.len(),
                {
                    let ghost before = tokens_view(self.tokens@);
                    self.indents.pop();
                    let t = Token::at(TokenKind::Dedent, self.line, w + 1, 1);
                    assert(t@ == dt);
                    self.tokens.push(t);
                    assert(tokens_view(self.tokens@) =~= before.push(dt));
                }
                if self.indents[self.indents.len() - 1] != w {
                    return Err(
                        GupError::lex(
                            Span::new(self.line, 1, w),
                            "This line's indentation does not match any outer indented block.",
                        ),
                    );
                }
            }
        }
        self.pos = p;
        self.column = self.column + w;
        self.at_line_start = false;
        Ok(())
    }
}

} // verus!

verus! {

proof fn lemma_digits_value_prefix(s: Seq<char>, j: int)
    requires
        0 <= j <= s.len(),
        forall|k: int| 0 <= k < s.len() ==> spec_is_ascii_digit(#[trigger] s[k]),
    ensures
        digits_value(s.take(j)) <= digits_value(s),
    decreases s.len(),
{
    if j < s.len() {
        let t = s.drop_last();
        assert(s.take(j) =~= t.take(j));
        lemma_digits_value_prefix(t, j);
        assert(t =~= s.take(s.len() - 1));
    } else {
        assert(s.take(j) =~= s);
    }
}

impl Lexer {
    fn step_operator(&mut self) -> (r: Result<(), GupError>)
        requires
            old(self).wf(),
            old(self).pos < old(self).chars@.len(),
            ({
                let c = old(self).chars@[old(self).pos as int];
                c == '=' || c == '!' || c == '<' || c == '>'
            }),
        ensures
            final(self).result_matches(r, old(self), step_operator(old(self).chars@, old(self).state())),
    {
        let i = self.pos;
        let c = self.chars[i];
        let eq = i + 1 < self.chars.len() && self.chars[i + 1] == '=';
        if c == '=' {
            if eq { self.emit(TokenKind::EqualEqual, 2) } else { self.emit(TokenKind::Equal, 1) }
        } else if c == '!' {
            if eq {
                self.emit(TokenKind::BangEqual, 2)
            } else {
                return Err(
                    self.fail(1, "Found a lonely '!'. Use '!=' to compare, or 'not' to flip a value."),
                );
            }
        } else if c == '<' {
            if eq { self.emit(TokenKind::LessEqual, 2) } else { self.emit(TokenKind::Less, 1) }
        } else {
            if eq { self.emit(TokenKind::GreaterEqual, 2) } else { self.emit(TokenKind::Greater, 1) }
        }
        Ok(())
    }

    fn step_string(&mut self) -> (r: Result<(), GupError>)
        requires
            old(self).wf(),
            old(self).pos < old(self).chars@.len(),
        ensures
            final(self).result_matches(r, old(self), step_string(old(self).chars@, old(self).state())),
    {
        let i = self.pos;
        let e = self.scan_quote(i + 1, '"');
        if e >= self.chars.len() || self.chars[e] == '\n' {
            return Err(self.fail(1, "You started a string with \" but never closed it."));
        }
        let text = string_of(&self.chars, i + 1, e);
        self.emit(TokenKind::StringLiteral(text), e - i + 1);
        Ok(())
    }

    fn step_char_literal(&mut self) -> (r: Result<(), GupError>)
        requires
            old(self).wf(),
            old(self).pos < old(self).chars@.len(),
        ensures
            final(self).result_matches(r, old(self), step_char_literal(old(self).chars@, old(self).state())),
    {
        let i = self.pos;
        let e = self.scan_quote(i + 1, '\'');
        if e >= self.chars.len() || self.chars[e] == '\n' {
            return Err(self.fail(1, "You started a char with ' but never closed it."));
        }
        if e != i + 2 {
            return Err(self.fail(e - i + 1, "A char must be exactly one character, like 'a'."));
        }
        let c = self.chars[i + 1];
        self.emit(TokenKind::CharLiteral(c), 3);
        Ok(())
    }

    fn fail_with_text(&self, width: usize, before: &str, from: usize, to: usize, after: &str) -> (e: GupError)
        requires
            from <= to <= self.chars@.len(),
        ensures
            e@ == lex_error(
                self.line as int,
                self.column as int,
                width as int,
                before@ + self.chars@.subrange(from as int, to as int) + after@,
            ),
    {
        let mut message = String::from_str(before);
        push_chars(&mut message, &self.chars, from, to);
        message.append(after);
        self.fail(width, message.as_str())
    }

    fn step_number(&mut self) -> (r: Result<(), GupError>)
        requires
            old(self).wf(),
            old(self).pos < old(self).chars@.len(),
            spec_is_ascii_digit(old(self).chars@[old(self).pos as int]),
        ensures
            final(self).result_matches(r, old(self), step_number(old(self).chars@, old(self).state())),
    {
        let ghost s = self.chars@;
        let i = self.pos;
        let e = self.scan_number(i);
        proof {
            lemma_number_end_ge(s, i + 1);
            assert(number_end(s, i as int) == number_end(s, i + 1));
        }
        let ghost text = s.subrange(i as int, e as int);
        let mut dots: usize = 0;
        let mut k = i;
        while k < e
            invariant
                i <= k <= e <= s.len(),
                s == self.chars@,
                dots as nat == count_dots(s.subrange(i as int, k as int)),
                dots <= k - i,
            decreases e - k,
        {
            assert(s.subrange(i as int, k + 1).drop_last() =~= s.subrange(i as int, k as int));
            if self.chars[k] == '.' {
                dots = dots + 1;
            }
            k = k + 1;
        }
        if dots > 1 {
            return Err(self.fail_with_text(e - i, "Too many decimal points in number '", i, e, "'."));
        }
        if dots == 1 {
            if self.chars[e - 1] == '.' {
                return Err(self.fail_with_text(e - i, "'", i, e, "' is not a valid decimal number."));
            }
            let digits = string_of(&self.chars, i, e);
            self.emit(TokenKind::FloatLiteral(digits), e - i);
            return Ok(());
        }
        proof {
            assert forall|m: int| 0 <= m < text.len() implies spec_is_ascii_digit(#[trigger] text[m]) by {
                lemma_number_run(s, i as int, i + m);
                lemma_count_dots_none(text, m);
            }
        }
        let mut value: u64 = 0;
        let mut k = i;
        while k < e
            invariant
                i <= k <= e <= s.len(),
                s == self.chars@,
                text == s.subrange(i as int, e as int),
                forall|m: int| 0 <= m < text.len() ==> spec_is_ascii_digit(#[trigger] text[m]),
                value as nat == digits_value(text.take(k - i)),
                value <= i64::MAX,
                count_dots(text) == 0,
                e == number_end(s, i as int),
                i == old(self).pos,
                *self == *old(self),
            decreases e - k,
        {
            assert(text.take(k - i + 1).drop_last() =~= text.take(k - i));
            assert(text[k - i] == s[k as int]);
            let d = (self.chars[k] as u32 - '0' as u32) as u64;
            assert(d as int == (text[k - i] as int) - ('0' as int));
            if value > (9223372036854775807u64 - d) / 10 {
                proof {
                    assert(value * 10 + d > 9223372036854775807) by (nonlinear_arith)
                        requires
                            value > (9223372036854775807u64 - d) / 10,
                            d <= 9,
                    ;
                    assert(digits_value(text.take(k - i + 1)) == value * 10 + d);
                    lemma_digits_value_prefix(text, k - i + 1);
                }
                return Err(self.fail_with_text(e - i, "'", i, e, "' is not a valid whole number."));
            }
            value = value * 10 + d;
            k = k + 1;
        }
        assert(text.take(e - i) =~= text);
        self.emit(TokenKind::NumberLiteral(value as i64), e - i);
        Ok(())
    }

    fn step_name(&mut self) -> (r: Result<(), GupError>)
        requires
            old(self).wf(),
            old(self).pos < old(self).chars@.len(),
        ensures
            final(self).result_matches(r, old(self), step_name(old(self).chars@, old(self).state())),
    {
        let i = self.pos;
        let e = self.scan_name(i + 1);
        let word = string_of(&self.chars, i, e);
        match keyword_token(word.as_str()) {
            Some(kind) => self.emit(kind, e - i),
            None => self.emit(TokenKind::Identifier(word), e - i),
        }
        Ok(())
    }
}

proof fn lemma_number_end_ge(s: Seq<char>, i: int)
    ensures
        number_end(s, i) >= i,
    decreases s.len() - i,
{
    if 0 <= i < s.len() && (spec_is_ascii_digit(s[i]) || s[i] == '.') {
        lemma_number_end_ge(s, i + 1);
    }
}

/// Every character of a number run is a digit or a dot.
proof fn lemma_number_run(s: Seq<char>, i: int, m: int)
    requires
        0 <= i <= m < number_end(s, i),
    ensures
        spec_is_ascii_digit(s[m]) || s[m] == '.',
    decreases m - i,
{
    if m > i {
        lemma_number_run(s, i + 1, m);
    }
}

/// Without dots, no character of the text is a dot.
proof fn lemma_count_dots_none(t: Seq<char>, m: int)
    requires
        0 <= m < t.len(),
        count_dots(t) == 0,
    ensures
        t[m] != '.',
    decreases t.len(),
{
    if m < t.len() - 1 {
        assert(t.drop_last()[m] == t[m]);
        lemma_count_dots_none(t.drop_last(), m);
    }
}

} // verus!

verus! {

fn one_char_token(c: char) -> (r: Option<TokenKind>)
    ensures
        option_kind_view(r) == one_char_kind(c),
{
    if c == '(' {
        Some(TokenKind::LeftParen)
    } else if c == ')' {
        Some(TokenKind::RightParen)
    } else if c == '[' {
        Some(TokenKind::LeftBracket)
    } else if c == ']' {
        Some(TokenKind::RightBracket)
    } else if c == ';' {
        Some(TokenKind::Semicolon)
    } else if c == ',' {
        Some(TokenKind::Comma)
    } else if c == '+' {
        Some(TokenKind::Plus)
    } else if c == '-' {
        Some(TokenKind::Minus)
    } else if c == '*' {
        Some(TokenKind::Star)
    } else if c == '/' {
        Some(TokenKind::Slash)
    } else {
        None
    }
}

proof fn lemma_comment_end_ge(s: Seq<char>, i: int)
    ensures
        comment_end(s, i) >= i,
    decreases s.len() - i,
{
    if 0 <= i < s.len() && s[i] != '\n' {
        lemma_comment_end_ge(s, i + 1);
    }
}

impl Lexer {
    fn step_in_line(&mut self) -> (r: Result<(), GupError>)
        requires
            old(self).wf(),
            old(self).pos < old(self).chars@.len(),
        ensures
            final(self).result_matches(r, old(self), step_in_line(old(self).chars@, old(self).state())),
    {
        let ghost s = self.chars@;
        let i = self.pos;
        let c = self.chars[i];
        if c == '\n' {
            if self.line_has_tokens {
                let t = Token::at(TokenKind::Newline, self.line, self.column, 1);
                let ghost before = tokens_view(self.tokens@);
                self.tokens.push(t);
                assert(tokens_view(self.tokens@) =~= before.push(t@));
            }
            self.pos = i + 1;
            self.line = self.line + 1;
            self.column = 1;
            self.at_line_start = true;
            self.line_has_tokens = false;
            return Ok(());
        }
        if is_whitespace(c) {
            self.pos = i + 1;
            self.column = self.column + 1;
            return Ok(());
        }
        if c == '/' && i + 1 < self.chars.len() && self.chars[i + 1] == '/' {
            let e = self.scan_comment(i + 1);
            proof {
                lemma_comment_end_ge(s, i + 1);
                assert(comment_end(s, i as int) == comment_end(s, i + 1));
            }
            self.column = self.column + (e - i);
            self.pos = e;
            return Ok(());
        }
        match one_char_token(c) {
            Some(kind) => {
                self.emit(kind, 1);
                return Ok(());
            },
            None => {},
        }
        if c == '=' || c == '!' || c == '<' || c == '>' {
            return self.step_operator();
        }
        if c == '"' {
            return self.step_string();
        }
        if c == '\'' {
            return self.step_char_literal();
        }
        if '0' <= c && c <= '9' {
            return self.step_number();
        }
        if is_alphabetic(c) || c == '_' {
            return self.step_name();
        }
        let mut message = String::from_str("I do not know what to do with '");
        push_char(&mut message, c);
        message.append("'.");
        assert(message@ == "I do not know what to do with '"@ + seq![c] + "'."@);
        Err(self.fail(1, message.as_str()))
    }

    fn step(&mut self) -> (r: Result<(), GupError>)
        requires
            old(self).wf(),
            old(self).pos < old(self).chars@.len(),
        ensures
            final(self).result_matches(r, old(self), step(old(self).chars@, old(self).state())),
    {
        if self.at_line_start {
            self.step_line_start()
        } else {
            self.step_in_line()
        }
    }

    fn finish(self) -> (tokens: Vec<Token>)
        requires
            self.wf(),
        ensures
            tokens_view(tokens@) == finish(self.state()),
    {
        let ghost st = self.state();
        let mut tokens = self.tokens;
        if self.line_has_tokens {
            let ghost before = tokens_view(tokens@);
            let t = Token::at(TokenKind::Newline, self.line, self.column, 1);
            tokens.push(t);
            assert(tokens_view(tokens@) =~= before.push(t@));
        }
        let ghost t1 = tokens_view(tokens@);
        assert(t1 =~= (if st.line_has_tokens {
            st.tokens.push(token_at(KindView::Newline, st.line, st.column, 1))
        } else {
            st.tokens
        }));
        let open = self.indents.len() - 1;
        let mut k: usize = 0;
        while k < open
            invariant
                k <= open,
                open == st.indents.len() - 1,
                st.line == self.line,
                st.column == self.column,
                tokens_view(tokens@) =~= t1 + Seq::new(
                    k as nat,
                    |j: int| token_at(KindView::Dedent, st.line, st.column, 1),
                ),
            decreases open - k,
        {
            let ghost before = tokens_view(tokens@);
            let t = Token::at(TokenKind::Dedent, self.line, self.column, 1);
            tokens.push(t);
            assert(tokens_view(tokens@) =~= before.push(t@));
            k = k + 1;
        }
        let ghost before = tokens_view(tokens@);
        let t = Token::at(TokenKind::EOF, self.line, self.column, 1);
        tokens.push(t);
        assert(tokens_view(tokens@) =~= before.push(t@));
        assert(tokens_view(tokens@) =~= finish(st));
        tokens
    }
}

/// Cuts `source` into tokens, or reports the first lexing error with its place.
pub fn lex(source: &str) -> (r: Result<Vec<Token>, GupError>)
    requires
        source@.len() < usize::MAX,
    ensures
        match spec_lex(source@) {
            Ok(tokens) => r matches Ok(v) && tokens_view(v@) == tokens,
            Err(e) => r matches Err(err) && err@ == e,
        },
{
    let chars = chars_of(source);
    let mut indents: Vec<usize> = Vec::new();
    indents.push(0);
    let mut lexer = Lexer {
        chars,
        pos: 0,
        line: 1,
        column: 1,
        indents,
        at_line_start: true,
        line_has_tokens: false,
        tokens: Vec::new(),
    };
    assert(lexer.state().indents =~= seq![0usize]);
    assert(lexer.state().tokens =~= Seq::<TokenView>::empty());
    while lexer.pos < lexer.chars.len()
        invariant
            lexer.wf(),
            lexer.chars@ == source@,
            lex_from(source@, lexer.state()) == spec_lex(source@),
        decreases source@.len() - lexer.pos, lex_measure(lexer.state()),
    {
        let ghost before = lexer.state();
        lexer.step()?;
    }
    Ok(lexer.finish())
}

} // verus!

verus! {

// ---------------------------------------------------------------------------
// Laws
// ---------------------------------------------------------------------------

/// How many tokens of `kind` a list holds.
pub open spec fn count_kind(ts: Seq<TokenView>, kind: KindView) -> nat
    decreases ts.len(),
{
    if ts.len() == 0 {
        0
    } else {
        count_kind(ts.drop_last(), kind) + if ts.last().kind == kind { 1nat } else { 0nat }
    }
}

pub open spec fn spans_ok(ts: Seq<TokenView>) -> bool {
    forall|i: int| 0 <= i < ts.len() ==> (#[trigger] ts[i]).span.well_formed()
}

/// No prefix of the list closes more indented blocks than it has opened.
pub open spec fn prefix_ok(ts: Seq<TokenView>) -> bool {
    forall|i: int|
        0 <= i <= ts.len() ==> count_kind(#[trigger] ts.take(i), KindView::Dedent) <= count_kind(
            ts.take(i),
            KindView::Indent,
        )
}

proof fn lemma_push_prefix(ts: Seq<TokenView>, t: TokenView)
    requires
        prefix_ok(ts),
        t.kind == KindView::Dedent ==> count_kind(ts, KindView::Dedent) < count_kind(ts, KindView::Indent),
    ensures
        prefix_ok(ts.push(t)),
{
    let u = ts.push(t);
    assert(ts.take(ts.len() as int) =~= ts);
    lemma_count_push(ts, t, KindView::Dedent);
    lemma_count_push(ts, t, KindView::Indent);
    assert forall|i: int| 0 <= i <= u.len() implies count_kind(#[trigger] u.take(i), KindView::Dedent)
        <= count_kind(u.take(i), KindView::Indent) by {
        if i <= ts.len() {
            assert(u.take(i) =~= ts.take(i));
        } else {
            assert(u.take(i) =~= u);
        }
    }
}

/// What holds of every state the lexer passes through.
pub open spec fn state_inv(s: Seq<char>, st: LexState) -> bool {
    &&& s.len() + 1 < usize::MAX
    &&& 0 <= st.pos <= s.len()
    &&& 1 <= st.line <= st.pos + 1
    &&& 1 <= st.column <= st.pos + 1
    &&& st.indents.len() >= 1
    &&& spans_ok(st.tokens)
    &&& count_kind(st.tokens, KindView::Indent) == count_kind(st.tokens, KindView::Dedent)
        + st.indents.len() - 1
    &&& count_kind(st.tokens, KindView::EOF) == 0
    &&& prefix_ok(st.tokens)
}

proof fn lemma_count_push(ts: Seq<TokenView>, t: TokenView, kind: KindView)
    ensures
        count_kind(ts.push(t), kind) == count_kind(ts, kind) + if t.kind == kind { 1nat } else { 0nat },
{
    assert(ts.push(t).drop_last() =~= ts);
}

proof fn lemma_count_append(a: Seq<TokenView>, b: Seq<TokenView>, kind: KindView)
    ensures
        count_kind(a + b, kind) == count_kind(a, kind) + count_kind(b, kind),
    decreases b.len(),
{
    if b.len() == 0 {
        assert(a + b =~= a);
    } else {
        lemma_count_append(a, b.drop_last(), kind);
        assert((a + b).drop_last() =~= a + b.drop_last());
    }
}

proof fn lemma_count_same(n: nat, t: TokenView, kind: KindView)
    ensures
        count_kind(Seq::new(n, |k: int| t), kind) == if t.kind == kind { n } else { 0 },
    decreases n,
{
    if n > 0 {
        lemma_count_same((n - 1) as nat, t, kind);
        assert(Seq::new(n, |k: int| t).drop_last() =~= Seq::new((n - 1) as nat, |k: int| t));
    }
}

proof fn lemma_run_bounds(s: Seq<char>, i: int)
    requires
        0 <= i <= s.len(),
    ensures
        i <= indent_end(s, i) <= s.len(),
        i <= comment_end(s, i) <= s.len(),
        i <= quote_end(s, i, '"') <= s.len(),
        i <= quote_end(s, i, '\'') <= s.len(),
        i <= number_end(s, i) <= s.len(),
        i <= name_end(s, i) <= s.len(),
    decreases s.len() - i,
{
    if i < s.len() {
        lemma_run_bounds(s, i + 1);
    }
}

proof fn lemma_pop_dedents(
    indents: Seq<usize>,
    tokens: Seq<TokenView>,
    width: int,
    t: TokenView,
)
    requires
        indents.len() >= 1,
        spans_ok(tokens),
        t.span.well_formed(),
        t.kind == KindView::Dedent,
        count_kind(tokens, KindView::Indent) == count_kind(tokens, KindView::Dedent) + indents.len() - 1,
        prefix_ok(tokens),
    ensures
        ({
            let (ind2, tok2) = pop_dedents(indents, tokens, width, t);
            &&& ind2.len() >= 1
            &&& ind2.len() <= indents.len()
            &&& spans_ok(tok2)
            &&& count_kind(tok2, KindView::Dedent) == count_kind(tokens, KindView::Dedent)
                + indents.len() - ind2.len()
            &&& count_kind(tok2, KindView::Indent) == count_kind(tokens, KindView::Indent)
            &&& count_kind(tok2, KindView::EOF) == count_kind(tokens, KindView::EOF)
            &&& prefix_ok(tok2)
        }),
    decreases indents.len(),
{
    if indents.len() > 1 && indents.last() > width {
        lemma_count_push(tokens, t, KindView::Dedent);
        lemma_count_push(tokens, t, KindView::Indent);
        lemma_count_push(tokens, t, KindView::EOF);
        lemma_push_prefix(tokens, t);
        lemma_pop_dedents(indents.drop_last(), tokens.push(t), width, t);
    }
}

proof fn lemma_emit_inv(s: Seq<char>, st: LexState, kind: KindView, width: int)
    requires
        state_inv(s, st),
        1 <= width,
        st.pos + width <= s.len(),
        kind != KindView::Indent,
        kind != KindView::Dedent,
        kind != KindView::EOF,
    ensures
        state_inv(s, emit(st, kind, width)),
{
    let t = token_at(kind, st.line, st.column, width);
    lemma_count_push(st.tokens, t, KindView::Indent);
    lemma_count_push(st.tokens, t, KindView::Dedent);
    lemma_count_push(st.tokens, t, KindView::EOF);
    lemma_push_prefix(st.tokens, t);
}

proof fn lemma_step_inv(s: Seq<char>, st: LexState)
    requires
        state_inv(s, st),
        st.pos < s.len(),
    ensures
        step(s, st) matches LexStep::Next(st2) ==> state_inv(s, st2),
{
    let i = st.pos;
    lemma_run_bounds(s, i);
    lemma_run_bounds(s, i + 1);
    if st.at_line_start {
        let p = indent_end(s, i);
        let w = p - i;
        if !blank_from(s, p) {
            let top = st.indents.last();
            if w > top {
                let t = token_at(KindView::Indent, st.line, 1, w);
                lemma_count_push(st.tokens, t, KindView::Indent);
                lemma_count_push(st.tokens, t, KindView::Dedent);
                lemma_count_push(st.tokens, t, KindView::EOF);
                lemma_push_prefix(st.tokens, t);
            } else if w < top {
                lemma_pop_dedents(
                    st.indents,
                    st.tokens,
                    w,
                    token_at(KindView::Dedent, st.line, w + 1, 1),
                );
            }
        }
    } else {
        let c = s[i];
        if c == '\n' {
            let t = token_at(KindView::Newline, st.line, st.column, 1);
            lemma_count_push(st.tokens, t, KindView::Indent);
            lemma_count_push(st.tokens, t, KindView::Dedent);
            lemma_count_push(st.tokens, t, KindView::EOF);
            lemma_push_prefix(st.tokens, t);
        } else if spec_is_whitespace(c) {
        } else if c == '/' && next_is(s, i, '/') {
        } else if one_char_kind(c) is Some {
            lemma_emit_inv(s, st, one_char_kind(c)->0, 1);
        } else if c == '=' || c == '!' || c == '<' || c == '>' {
            if next_is(s, i, '=') {
                if c == '=' {
                    lemma_emit_inv(s, st, KindView::EqualEqual, 2);
                } else if c == '!' {
                    lemma_emit_inv(s, st, KindView::BangEqual, 2);
                } else if c == '<' {
                    lemma_emit_inv(s, st, KindView::LessEqual, 2);
                } else {
                    lemma_emit_inv(s, st, KindView::GreaterEqual, 2);
                }
            } else {
                if c == '=' {
                    lemma_emit_inv(s, st, KindView::Equal, 1);
                } else if c == '<' {
                    lemma_emit_inv(s, st, KindView::Less, 1);
                } else if c == '>' {
                    lemma_emit_inv(s, st, KindView::Greater, 1);
                }
            }
        } else if c == '"' {
            let e = quote_end(s, i + 1, '"');
            if !(e >= s.len() || s[e] == '\n') {
                lemma_emit_inv(s, st, KindView::StringLiteral(s.subrange(i + 1, e)), e - i + 1);
            }
        } else if c == '\'' {
            let e = quote_end(s, i + 1, '\'');
            if !(e >= s.len() || s[e] == '\n') && e == i + 2 {
                lemma_emit_inv(s, st, KindView::CharLiteral(s[i + 1]), 3);
            }
        } else if spec_is_ascii_digit(c) {
            lemma_number_end_ge(s, i + 1);
            let e = number_end(s, i);
            let text = s.subrange(i, e);
            if count_dots(text) == 1 {
                lemma_emit_inv(s, st, KindView::FloatLiteral(text), e - i);
            } else if count_dots(text) == 0 && digits_value(text) <= i64::MAX {
                lemma_emit_inv(s, st, KindView::NumberLiteral(digits_value(text) as i64), e - i);
            }
        } else if char_is_alphabetic(c) || c == '_' {
            let e = name_end(s, i + 1);
            let word = s.subrange(i, e);
            let kind = match spec_keyword(word) {
                Some(k) => k,
                None => KindView::Identifier(word),
            };
            lemma_emit_inv(s, st, kind, e - i);
        }
    }
}

proof fn lemma_append_dedents(t1: Seq<TokenView>, k: nat, dd: TokenView)
    requires
        prefix_ok(t1),
        dd.kind == KindView::Dedent,
        count_kind(t1, KindView::Dedent) + k <= count_kind(t1, KindView::Indent),
    ensures
        prefix_ok(t1 + Seq::new(k, |j: int| dd)),
    decreases k,
{
    if k == 0 {
        assert(t1 + Seq::new(k, |j: int| dd) =~= t1);
    } else {
        let shorter = Seq::new((k - 1) as nat, |j: int| dd);
        lemma_append_dedents(t1, (k - 1) as nat, dd);
        assert(t1 + Seq::new(k, |j: int| dd) =~= (t1 + shorter).push(dd));
        lemma_count_append(t1, shorter, KindView::Dedent);
        lemma_count_append(t1, shorter, KindView::Indent);
        lemma_count_same((k - 1) as nat, dd, KindView::Dedent);
        lemma_count_same((k - 1) as nat, dd, KindView::Indent);
        lemma_push_prefix(t1 + shorter, dd);
    }
}

proof fn lemma_finish_ok(s: Seq<char>, st: LexState)
    requires
        state_inv(s, st),
    ensures
        ({
            let ts = finish(st);
            &&& ts.len() > 0
            &&& ts.last().kind == KindView::EOF
            &&& spans_ok(ts)
            &&& count_kind(ts, KindView::Indent) == count_kind(ts, KindView::Dedent)
            &&& count_kind(ts, KindView::EOF) == 1
            &&& prefix_ok(ts)
        }),
{
    let nl = token_at(KindView::Newline, st.line, st.column, 1);
    let dd = token_at(KindView::Dedent, st.line, st.column, 1);
    let eof = token_at(KindView::EOF, st.line, st.column, 1);
    let t1 = if st.line_has_tokens { st.tokens.push(nl) } else { st.tokens };
    lemma_count_push(st.tokens, nl, KindView::Indent);
    lemma_count_push(st.tokens, nl, KindView::Dedent);
    let closing = Seq::new((st.indents.len() - 1) as nat, |k: int| dd);
    lemma_count_same((st.indents.len() - 1) as nat, dd, KindView::Indent);
    lemma_count_same((st.indents.len() - 1) as nat, dd, KindView::Dedent);
    lemma_count_append(t1, closing, KindView::Indent);
    lemma_count_append(t1, closing, KindView::Dedent);
    lemma_count_push(t1 + closing, eof, KindView::Indent);
    lemma_count_push(t1 + closing, eof, KindView::Dedent);
    lemma_count_push(st.tokens, nl, KindView::EOF);
    lemma_count_same((st.indents.len() - 1) as nat, dd, KindView::EOF);
    lemma_count_append(t1, closing, KindView::EOF);
    lemma_count_push(t1 + closing, eof, KindView::EOF);
    if st.line_has_tokens {
        lemma_push_prefix(st.tokens, nl);
    }
    lemma_append_dedents(t1, (st.indents.len() - 1) as nat, dd);
    lemma_push_prefix(t1 + closing, eof);
    assert(finish(st) =~= (t1 + closing).push(eof));
    assert(spans_ok(finish(st))) by {
        assert forall|i: int| 0 <= i < finish(st).len() implies (#[trigger] finish(st)[i]).span.well_formed() by {
            assert(nl.span.well_formed() && dd.span.well_formed() && eof.span.well_formed());
            if i < t1.len() {
                assert(finish(st)[i] == t1[i]);
                if i < st.tokens.len() {
                    assert(t1[i] == st.tokens[i]);
                }
            } else if i < t1.len() + closing.len() {
                assert(finish(st)[i] == closing[i - t1.len()]);
            } else {
                assert(finish(st)[i] == eof);
            }
        }
    }
}

proof fn lemma_lex_from(s: Seq<char>, st: LexState)
    requires
        state_inv(s, st),
    ensures
        lex_from(s, st) matches Ok(ts) ==> {
            &&& ts.len() > 0
            &&& ts.last().kind == KindView::EOF
            &&& spans_ok(ts)
            &&& count_kind(ts, KindView::Indent) == count_kind(ts, KindView::Dedent)
            &&& count_kind(ts, KindView::EOF) == 1
            &&& prefix_ok(ts)
        },
    decreases s.len() - st.pos, lex_measure(st),
{
    if st.pos >= s.len() {
        lemma_finish_ok(s, st);
    } else {
        lemma_step_inv(s, st);
        match step(s, st) {
            LexStep::Next(st2) => {
                if advances(s, st, st2) {
                    lemma_lex_from(s, st2);
                } else {
                    lemma_finish_ok(s, st);
                }
            },
            LexStep::Fail(e) => {},
        }
    }
}

/// Whatever the lexer returns ends with `EOF`, its only `EOF`; gives every
/// token a well-formed span; and nests its blocks Python-style: no prefix
/// of the tokens closes more indented blocks than it has opened (no more
/// `Dedent`s than `Indent`s so far), and the whole list closes every block
/// it opens. This is what the parser asks of its tokens.
pub proof fn lemma_lex_output_well_formed(s: Seq<char>)
    requires
        s.len() + 1 < usize::MAX,
    ensures
        spec_lex(s) matches Ok(ts) ==> {
            &&& ts.len() > 0
            &&& ts.last().kind == KindView::EOF
            &&& count_kind(ts, KindView::EOF) == 1
            &&& spans_ok(ts)
            &&& count_kind(ts, KindView::Indent) == count_kind(ts, KindView::Dedent)
            &&& prefix_ok(ts)
        },
{
    assert(count_kind(initial_state().tokens, KindView::Indent) == 0);
    assert(count_kind(initial_state().tokens, KindView::EOF) == 0);
    assert(prefix_ok(initial_state().tokens)) by {
        assert forall|i: int| 0 <= i <= 0 implies count_kind(#[trigger] initial_state().tokens.take(i), KindView::Dedent)
            <= count_kind(initial_state().tokens.take(i), KindView::Indent) by {
            assert(initial_state().tokens.take(i) =~= Seq::<TokenView>::empty());
        }
    }
    lemma_lex_from(s, initial_state());
}


// ---------------------------------------------------------------------------
// Comments
// ---------------------------------------------------------------------------

/// The kinds of a list of tokens, positions left out.
pub open spec fn kinds_of(ts: Seq<TokenView>) -> Seq<KindView> {
    Seq::new(ts.len(), |i: int| ts[i].kind)
}

/// A one-line text with no quotes and no `/`.
pub open spec fn plain_line(s: Seq<char>) -> bool {
    forall|i: int| 0 <= i < s.len() ==> s[i] != '\n' && s[i] != '"' && s[i] != '\'' && s[i] != '/'
}

/// Two states that differ at most in where they stand.
pub open spec fn same_but_place(a: LexState, b: LexState) -> bool {
    &&& a.tokens == b.tokens
    &&& a.indents == b.indents
    &&& a.line_has_tokens == b.line_has_tokens
    &&& a.line == b.line
}

proof fn lemma_finish_kinds(a: LexState, b: LexState)
    requires
        same_but_place(a, b),
    ensures
        kinds_of(finish(a)) == kinds_of(finish(b)),
{
    assert(kinds_of(finish(a)) =~= kinds_of(finish(b)));
}

proof fn lemma_runs_agree(s: Seq<char>, u: Seq<char>, i: int)
    requires
        0 <= i <= s.len(),
        u.len() > s.len(),
        u.take(s.len() as int) == s,
        u[s.len() as int] == ' ',
    ensures
        number_end(u, i) == number_end(s, i),
        name_end(u, i) == name_end(s, i),
        indent_end(s, i) < s.len() ==> indent_end(u, i) == indent_end(s, i),
    decreases s.len() - i,
{
    if i < s.len() {
        assert(u[i] == s[i]);
        lemma_runs_agree(s, u, i + 1);
    } else {
        assert(!is_name_char(' '));
    }
}

proof fn lemma_comment_end_at_end(u: Seq<char>, i: int)
    requires
        0 <= i <= u.len(),
        forall|j: int| i <= j < u.len() ==> u[j] != '\n',
    ensures
        comment_end(u, i) == u.len(),
    decreases u.len() - i,
{
    if i < u.len() {
        lemma_comment_end_at_end(u, i + 1);
    }
}

/// Past the text before the comment: a space, then the comment to the end.
proof fn lemma_comment_tail(s: Seq<char>, c: Seq<char>, st: LexState)
    requires
        forall|j: int| 0 <= j < c.len() ==> c[j] != '\n',
        st.pos == s.len(),
    ensures
        ({
            let u = s + " // "@ + c;
            lex_from(u, st) matches Ok(ts) && kinds_of(ts) == kinds_of(finish(st))
        }),
{
    reveal_strlit(" // ");
    let u = s + " // "@ + c;
    let n = s.len() as int;
    assert(u[n] == ' ' && u[n + 1] == '/' && u[n + 2] == '/' && u[n + 3] == ' ');
    assert forall|j: int| n + 1 <= j < u.len() implies u[j] != '\n' by {
        if j >= n + 4 {
            assert(u[j] == c[j - n - 4]);
        }
    }
    lemma_comment_end_at_end(u, n + 1);
    let st1 = if st.at_line_start {
        assert(indent_end(u, n + 1) == n + 1);
        assert(indent_end(u, n) == n + 1);
        assert(blank_from(u, n + 1));
        LexState { pos: n + 1, column: st.column + 1, at_line_start: false, ..st }
    } else {
        assert(spec_is_whitespace(' '));
        skip(st, 1)
    };
    assert(step(u, st) == LexStep::Next(st1));
    assert(advances(u, st, st1));
    let st2 = skip(st1, comment_end(u, n + 1) - (n + 1));
    assert(!spec_is_whitespace('/'));
    assert(step(u, st1) == LexStep::Next(st2));
    assert(advances(u, st1, st2));
    assert(lex_from(u, st2) == Ok::<Seq<TokenView>, ErrorView>(finish(st2)));
    assert(lex_from(u, st1) == lex_from(u, st2));
    lemma_finish_kinds(st2, st);
}

proof fn lemma_comment_steps(s: Seq<char>, c: Seq<char>, st: LexState)
    requires
        plain_line(s),
        forall|j: int| 0 <= j < c.len() ==> c[j] != '\n',
        0 <= st.pos <= s.len(),
    ensures
        ({
            let u = s + " // "@ + c;
            &&& (lex_from(u, st) is Ok) == (lex_from(s, st) is Ok)
            &&& lex_from(u, st) matches Ok(a) ==> (lex_from(s, st) matches Ok(b) ==> kinds_of(a)
                == kinds_of(b))
        }),
    decreases s.len() - st.pos, lex_measure(st),
{
    reveal_strlit(" // ");
    let u = s + " // "@ + c;
    let n = s.len() as int;
    assert(u.take(n) =~= s);
    assert(u[n] == ' ' && u[n + 1] == '/' && u[n + 2] == '/');
    if st.pos == n {
        lemma_comment_tail(s, c, st);
    } else {
        let i = st.pos;
        assert(u[i] == s[i]);
        lemma_runs_agree(s, u, i);
        lemma_runs_agree(s, u, i + 1);
        lemma_run_bounds(s, i);
        lemma_run_bounds(s, i + 1);
        if st.at_line_start && indent_end(s, i) == n {
            // The rest of the text is indentation only.
            assert(indent_end(u, i) == n + 1) by {
                assert(indent_end(u, n + 1) == n + 1);
                assert(indent_end(u, n) == n + 1);
                lemma_indent_run(s, i);
                assert forall|j: int| i <= j < n implies u[j] == ' ' || u[j] == '\t' by {
                    assert(u[j] == s[j]);
                }
                lemma_indent_from(u, i, n);
            }
            let st1 = LexState { pos: n, column: st.column + (n - i), at_line_start: false, ..st };
            assert(step(s, st) == LexStep::Next(st1));
            assert(lex_from(s, st) == lex_from(s, st1));
            let st1u = LexState { pos: n + 1, column: st.column + (n + 1 - i), at_line_start: false, ..st };
            assert(blank_from(u, n + 1));
            assert(step(u, st) == LexStep::Next(st1u));
            assert(lex_from(u, st) == lex_from(u, st1u));
            lemma_comment_end_at_end_tail(s, c);
            let st2 = skip(st1u, comment_end(u, n + 1) - (n + 1));
            assert(!spec_is_whitespace('/'));
            assert(step(u, st1u) == LexStep::Next(st2));
            assert(lex_from(u, st1u) == lex_from(u, st2));
            lemma_finish_kinds(st2, st1);
        } else {
            assert(next_is(u, i, '=') == next_is(s, i, '='));
            if st.at_line_start {
                let p = indent_end(s, i);
                assert(u[p] == s[p]);
                assert(blank_from(u, p) == blank_from(s, p));
                assert(step_line_start(u, st) == step_line_start(s, st));
            } else {
                let ne = number_end(s, i);
                assert(u.subrange(i, ne) =~= s.subrange(i, ne));
                let me = name_end(s, i + 1);
                assert(u.subrange(i, me) =~= s.subrange(i, me));
                assert(step_number(u, st) == step_number(s, st));
                assert(step_name(u, st) == step_name(s, st));
                assert(step_operator(u, st) == step_operator(s, st));
                assert(step_in_line(u, st) == step_in_line(s, st));
            }
            assert(step(u, st) == step(s, st));
            match step(s, st) {
                LexStep::Next(st2) => {
                    if advances(s, st, st2) {
                        assert(st2.pos <= n);
                        assert(advances(u, st, st2));
                        lemma_comment_steps(s, c, st2);
                    } else {
                        assert(!advances(u, st, st2));
                    }
                },
                LexStep::Fail(e) => {},
            }
        }
    }
}

proof fn lemma_indent_run(s: Seq<char>, i: int)
    requires
        0 <= i <= s.len(),
    ensures
        forall|j: int| i <= j < indent_end(s, i) ==> s[j] == ' ' || s[j] == '\t',
    decreases s.len() - i,
{
    if i < s.len() && (s[i] == ' ' || s[i] == '\t') {
        lemma_indent_run(s, i + 1);
    }
}

proof fn lemma_indent_from(u: Seq<char>, i: int, n: int)
    requires
        0 <= i <= n < u.len(),
        forall|j: int| i <= j < n ==> u[j] == ' ' || u[j] == '\t',
        indent_end(u, n) == n + 1,
    ensures
        indent_end(u, i) == n + 1,
    decreases n - i,
{
    if i < n {
        lemma_indent_from(u, i + 1, n);
    }
}

proof fn lemma_comment_end_at_end_tail(s: Seq<char>, c: Seq<char>)
    requires
        forall|j: int| 0 <= j < c.len() ==> c[j] != '\n',
    ensures
        comment_end(s + " // "@ + c, (s.len() + 1) as int) == (s + " // "@ + c).len(),
{
    reveal_strlit(" // ");
    let u = s + " // "@ + c;
    let n = s.len() as int;
    assert forall|j: int| n + 1 <= j < u.len() implies u[j] != '\n' by {
        if j >= n + 4 {
            assert(u[j] == c[j - n - 4]);
        }
    }
    lemma_comment_end_at_end(u, n + 1);
}

/// A `//` comment at the end of a line adds no tokens: for a line of text
/// without quotes or `/`, adding ` // ` and a comment lexes exactly when the
/// line alone does, to tokens of the same kinds.
pub proof fn lemma_inline_comment(s: Seq<char>, c: Seq<char>)
    requires
        plain_line(s),
        forall|j: int| 0 <= j < c.len() ==> c[j] != '\n',
    ensures
        (spec_lex(s + " // "@ + c) is Ok) == (spec_lex(s) is Ok),
        spec_lex(s + " // "@ + c) matches Ok(a) ==> (spec_lex(s) matches Ok(b) ==> kinds_of(a)
            == kinds_of(b)),
{
    lemma_comment_steps(s, c, initial_state());
}

/// The token a symbol character starts, and how many characters it takes:
/// `(` `)` `[` `]` `;` `,` `+` `-` `*` `/` alone; `==` `!=` `<=` `>=` as
/// two characters when `=` follows; otherwise `=` is `Equal`, `<` is `Less`
/// and `>` is `Greater`, one character each (a lone `!` is no token).
pub open spec fn symbol_token(c: char, eq_follows: bool) -> Option<(KindView, int)> {
    if c == '(' {
        Some((KindView::LeftParen, 1))
    } else if c == ')' {
        Some((KindView::RightParen, 1))
    } else if c == '[' {
        Some((KindView::LeftBracket, 1))
    } else if c == ']' {
        Some((KindView::RightBracket, 1))
    } else if c == ';' {
        Some((KindView::Semicolon, 1))
    } else if c == ',' {
        Some((KindView::Comma, 1))
    } else if c == '+' {
        Some((KindView::Plus, 1))
    } else if c == '-' {
        Some((KindView::Minus, 1))
    } else if c == '*' {
        Some((KindView::Star, 1))
    } else if c == '/' {
        Some((KindView::Slash, 1))
    } else if c == '=' {
        if eq_follows { Some((KindView::EqualEqual, 2)) } else { Some((KindView::Equal, 1)) }
    } else if c == '!' {
        if eq_follows { Some((KindView::BangEqual, 2)) } else { None }
    } else if c == '<' {
        if eq_follows { Some((KindView::LessEqual, 2)) } else { Some((KindView::Less, 1)) }
    } else if c == '>' {
        if eq_follows { Some((KindView::GreaterEqual, 2)) } else { Some((KindView::Greater, 1)) }
    } else {
        None
    }
}

/// Inside a line, a symbol character (not the start of a `//` comment)
/// becomes exactly one token of its own kind, spanning its characters at the
/// current line and column; lexing then goes on right after it.
pub proof fn lemma_symbol_tokens(s: Seq<char>, st: LexState)
    requires
        !st.at_line_start,
        0 <= st.pos < s.len(),
        !(s[st.pos] == '/' && st.pos + 1 < s.len() && s[st.pos + 1] == '/'),
    ensures
        match symbol_token(s[st.pos], st.pos + 1 < s.len() && s[st.pos + 1] == '=') {
            Some((kind, width)) => lex_from(s, st) == lex_from(
                s,
                LexState {
                    pos: st.pos + width,
                    column: st.column + width,
                    line_has_tokens: true,
                    tokens: st.tokens.push(
                        TokenView {
                            kind,
                            span: spec_span(st.line as usize, st.column as usize, width as usize),
                        },
                    ),
                    ..st
                },
            ),
            None => true,
        },
{
}

} // verus!

verus! {

/// Inside a line, a word (a letter or `_`, then letters, digits and `_`)
/// becomes exactly one token spanning the whole word: its keyword when it is
/// one, else a name holding the word; lexing then goes on right after it.
pub proof fn lemma_word_tokens(s: Seq<char>, st: LexState)
    requires
        !st.at_line_start,
        0 <= st.pos < s.len(),
        char_is_alphabetic(s[st.pos]) || s[st.pos] == '_',
        !spec_is_whitespace(s[st.pos]),
        !spec_is_ascii_digit(s[st.pos]),
        symbol_token(s[st.pos], false) is None,
        s[st.pos] != '!' && s[st.pos] != '"' && s[st.pos] != '\'' && s[st.pos] != '\n',
    ensures
        ({
            let word = s.subrange(st.pos, name_end(s, st.pos + 1));
            let kind = match spec_keyword(word) {
                Some(k) => k,
                None => KindView::Identifier(word),
            };
            lex_from(s, st) == lex_from(
                s,
                LexState {
                    pos: st.pos + word.len(),
                    column: st.column + word.len(),
                    line_has_tokens: true,
                    tokens: st.tokens.push(
                        TokenView {
                            kind,
                            span: spec_span(
                                st.line as usize,
                                st.column as usize,
                                word.len() as usize,
                            ),
                        },
                    ),
                    ..st
                },
            )
        }),
{
    lemma_run_bounds(s, st.pos + 1);
}

} // verus!

verus! {

/// Messages name a symbol token by the characters it is written with, in
/// single quotes: what `symbol_token` reads as `>` is described as `'>'`,
/// and `<=` as `'<='`.
pub proof fn lemma_symbols_described_as_written(c: char, eq_follows: bool)
    ensures
        symbol_token(c, eq_follows) matches Some((kind, width)) ==> spec_describe(kind) == "'"@
            + (if width == 2 { seq![c, '='] } else { seq![c] }) + "'"@,
{
    reveal_strlit("'('");
    reveal_strlit("')'");
    reveal_strlit("'['");
    reveal_strlit("']'");
    reveal_strlit("';'");
    reveal_strlit("','");
    reveal_strlit("'+'");
    reveal_strlit("'-'");
    reveal_strlit("'*'");
    reveal_strlit("'/'");
    reveal_strlit("'='");
    reveal_strlit("'=='");
    reveal_strlit("'!='");
    reveal_strlit("'<'");
    reveal_strlit("'<='");
    reveal_strlit("'>'");
    reveal_strlit("'>='");
    reveal_strlit("'");
    if let Some((kind, width)) = symbol_token(c, eq_follows) {
        let t = "'"@ + (if width == 2 { seq![c, '='] } else { seq![c] }) + "'"@;
        assert(spec_describe(kind) =~= t);
    }
}

/// Messages name a keyword by the word in single quotes, except `true` and
/// `false`, which are named bare.
pub proof fn lemma_keywords_described_as_written(word: Seq<char>)
    ensures
        spec_keyword(word) matches Some(kind) ==> spec_describe(kind) == if word == "true"@ || word
            == "false"@ {
            word
        } else {
            "'"@ + word + "'"@
        },
{
    crate::syntax::lemma_keywords(word);
    reveal_strlit("'");
    reveal_strlit("for");
    reveal_strlit("in");
    reveal_strlit("range");
    reveal_strlit("through");
    reveal_strlit("if");
    reveal_strlit("else");
    reveal_strlit("while");
    reveal_strlit("return");
    reveal_strlit("and");
    reveal_strlit("or");
    reveal_strlit("not");
    reveal_strlit("true");
    reveal_strlit("false");
    reveal_strlit("'for'");
    reveal_strlit("'in'");
    reveal_strlit("'range'");
    reveal_strlit("'through'");
    reveal_strlit("'if'");
    reveal_strlit("'else'");
    reveal_strlit("'while'");
    reveal_strlit("'return'");
    reveal_strlit("'and'");
    reveal_strlit("'or'");
    reveal_strlit("'not'");
    if word == "for"@ {
        assert(spec_keyword(word) == Some(KindView::For));
        assert("'"@ + word + "'"@ =~= "'for'"@);
    } else if word == "in"@ {
        assert(spec_keyword(word) == Some(KindView::In));
        assert("'"@ + word + "'"@ =~= "'in'"@);
    } else if word == "range"@ {
        assert(spec_keyword(word) == Some(KindView::Range));
        assert("'"@ + word + "'"@ =~= "'range'"@);
        assert(word[0] != "true"@[0] && word[0] != "false"@[0]);
    } else if word == "through"@ {
        assert(spec_keyword(word) == Some(KindView::Through));
        assert("'"@ + word + "'"@ =~= "'through'"@);
    } else if word == "if"@ {
        assert(spec_keyword(word) == Some(KindView::If));
        assert("'"@ + word + "'"@ =~= "'if'"@);
    } else if word == "else"@ {
        assert(spec_keyword(word) == Some(KindView::Else));
        assert("'"@ + word + "'"@ =~= "'else'"@);
        assert(word[0] != "true"@[0] && word[0] != "false"@[0]);
    } else if word == "while"@ {
        assert(spec_keyword(word) == Some(KindView::While));
        assert("'"@ + word + "'"@ =~= "'while'"@);
        assert(word[0] != "true"@[0] && word[0] != "false"@[0]);
    } else if word == "return"@ {
        assert(spec_keyword(word) == Some(KindView::Return));
        assert("'"@ + word + "'"@ =~= "'return'"@);
    } else if word == "and"@ {
        assert(spec_keyword(word) == Some(KindView::And));
        assert("'"@ + word + "'"@ =~= "'and'"@);
    } else if word == "or"@ {
        assert(spec_keyword(word) == Some(KindView::Or));
        assert("'"@ + word + "'"@ =~= "'or'"@);
    } else if word == "not"@ {
        assert(spec_keyword(word) == Some(KindView::Not));
        assert("'"@ + word + "'"@ =~= "'not'"@);
    } else if word == "true"@ {
        assert(spec_keyword(word) == Some(KindView::True));
    } else if word == "false"@ {
        assert(spec_keyword(word) == Some(KindView::False));
    } else {
        assert(spec_keyword(word) is None);
    }
}

} // verus!
