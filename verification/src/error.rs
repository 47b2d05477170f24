//! Located, typed errors shared by every stage: where it happened (a span),
//! what kind it is, and a one-line suggestion for fixing it.

use vstd::prelude::*;
use crate::text::{ascii_lower, is_ascii_text, chars_of, contains_chars, int_decimal, lowercase_of, nat_decimal, push_char, push_decimal, push_repeat, repeat_seq, seq_contains, string_of, to_lowercase, usize_to_string};

verus! {

broadcast use vstd::string::group_string_axioms;

/// A place in the source: 1-based line and column, and a width in characters.
#[derive(Debug, Clone, Copy, PartialEq, Eq, Structural)]
pub struct Span {
    pub line: usize,
    pub column: usize,
    pub length: usize,
}

pub open spec fn max1(n: usize) -> usize {
    if n >= 1 { n } else { 1 }
}

pub open spec fn spec_span(line: usize, column: usize, length: usize) -> Span {
    Span { line: max1(line), column: max1(column), length: max1(length) }
}

impl Span {
    /// A span whose end column fits in a `usize`, with column and width at least 1.
    pub open spec fn well_formed(self) -> bool {
        &&& self.column >= 1
        &&& self.length >= 1
        &&& self.column + self.length <= usize::MAX
    }

    pub open spec fn spec_end_column(self) -> int {
        self.column + self.length
    }

    /// What `merge` returns: on another line, `self`; otherwise the smallest
    /// span of the line that covers both.
    pub open spec fn spec_merge(self, other: Span) -> Span {
        if self.line != other.line {
            self
        } else {
            let start = if self.column <= other.column { self.column } else { other.column };
            let end = if self.spec_end_column() >= other.spec_end_column() {
                self.spec_end_column()
            } else {
                other.spec_end_column()
            };
            let width: usize = if end >= start { (end - start) as usize } else { 0 };
            spec_span(self.line, start, width)
        }
    }

    /// Clamps each field to at least 1.
    pub fn new(line: usize, column: usize, length: usize) -> (s: Span)
        ensures
            s == spec_span(line, column, length),
    {
        Span {
            line: if line >= 1 { line } else { 1 },
            column: if column >= 1 { column } else { 1 },
            length: if length >= 1 { length } else { 1 },
        }
    }

    /// Joins two spans of one line into the span covering both.
    pub fn merge(self, other: Span) -> (s: Span)
        requires
            self.column + self.length <= usize::MAX,
            other.column + other.length <= usize::MAX,
        ensures
            s == self.spec_merge(other),
    {
        if self.line != other.line {
            return self;
        }
        let start = if self.column <= other.column { self.column } else { other.column };
        let a = self.end_column();
        let b = other.end_column();
        let end = if a >= b { a } else { b };
        let width = if end >= start { end - start } else { 0 };
        Span::new(self.line, start, width)
    }

    /// The first column after the span.
    pub fn end_column(self) -> (c: usize)
        requires
            self.column + self.length <= usize::MAX,
        ensures
            c == self.spec_end_column(),
    {
        self.column + self.length
    }
}

/// Merging keeps spans well formed, and on one line the merged span covers
/// both: it starts no later than either and ends no earlier than either.
pub proof fn lemma_merge_covers(a: Span, b: Span)
    requires
        a.well_formed(),
        b.well_formed(),
    ensures
        a.spec_merge(b).well_formed(),
        a.line == b.line ==> {
            let m = a.spec_merge(b);
            &&& m.line == max1(a.line)
            &&& m.column <= a.column && m.column <= b.column
            &&& m.spec_end_column() >= a.spec_end_column()
            &&& m.spec_end_column() >= b.spec_end_column()
        },
        a.line != b.line ==> a.spec_merge(b) == a,
{
}

/// Which stage of the pipeline produced an error.
#[derive(Debug, Clone, Copy, PartialEq, Eq, Structural)]
pub enum ErrorPhase {
    Lex,
    Parse,
    Runtime,
}

/// The short name of an error's kind.
#[derive(Debug, Clone, Copy, PartialEq, Eq, Structural)]
pub enum ErrorKind {
    SyntaxError,
    IndentationError,
    NameError,
    TypeError,
    ValueError,
    MathError,
    ArgumentError,
    IndexError,
    RuntimeError,
    InternalError,
}

pub open spec fn spec_title(kind: ErrorKind) -> Seq<char> {
    match kind {
        ErrorKind::SyntaxError => "SyntaxError"@,
        ErrorKind::IndentationError => "IndentationError"@,
        ErrorKind::NameError => "NameError"@,
        ErrorKind::TypeError => "TypeError"@,
        ErrorKind::ValueError => "ValueError"@,
        ErrorKind::MathError => "MathError"@,
        ErrorKind::ArgumentError => "ArgumentError"@,
        ErrorKind::IndexError => "IndexError"@,
        ErrorKind::RuntimeError => "RuntimeError"@,
        ErrorKind::InternalError => "InternalError"@,
    }
}

pub open spec fn spec_default_hint(kind: ErrorKind) -> Seq<char> {
    match kind {
        ErrorKind::SyntaxError => "Check the syntax around here for a typo or a missing symbol."@,
        ErrorKind::IndentationError =>
            "Line up this block with consistent indentation (use the same spaces as its siblings)."@,
        ErrorKind::NameError =>
            "Declare the name first (e.g. `name = value`) or fix the spelling before using it."@,
        ErrorKind::TypeError => "Use a value of the type this operation expects here."@,
        ErrorKind::ValueError => "Give this a valid value in the form Guppty expects."@,
        ErrorKind::MathError => "Adjust the numbers so the calculation is valid."@,
        ErrorKind::ArgumentError => "Call the function with the number of arguments it defines."@,
        ErrorKind::IndexError => "Use an index between 0 and the array's length minus one."@,
        ErrorKind::RuntimeError => "Re-check the values flowing into this line."@,
        ErrorKind::InternalError =>
            "This looks like a bug inside Guppty itself; please report it with your program."@,
    }
}

/// Each kind of error is shown under its own name (`SyntaxError`,
/// `IndentationError`, `NameError`, `TypeError`, `ValueError`, `MathError`,
/// `ArgumentError`, `IndexError`, `RuntimeError`, `InternalError`), and
/// carries its own general suggestion when no tailored one applies.
pub proof fn lemma_kind_names_and_hints(kind: ErrorKind)
    ensures
        spec_title(kind) == match kind {
            ErrorKind::SyntaxError => "SyntaxError"@,
            ErrorKind::IndentationError => "IndentationError"@,
            ErrorKind::NameError => "NameError"@,
            ErrorKind::TypeError => "TypeError"@,
            ErrorKind::ValueError => "ValueError"@,
            ErrorKind::MathError => "MathError"@,
            ErrorKind::ArgumentError => "ArgumentError"@,
            ErrorKind::IndexError => "IndexError"@,
            ErrorKind::RuntimeError => "RuntimeError"@,
            ErrorKind::InternalError => "InternalError"@,
        },
        spec_default_hint(kind) == match kind {
            ErrorKind::SyntaxError => "Check the syntax around here for a typo or a missing symbol."@,
            ErrorKind::IndentationError => "Line up this block with consistent indentation (use the same spaces as its siblings)."@,
            ErrorKind::NameError => "Declare the name first (e.g. `name = value`) or fix the spelling before using it."@,
            ErrorKind::TypeError => "Use a value of the type this operation expects here."@,
            ErrorKind::ValueError => "Give this a valid value in the form Guppty expects."@,
            ErrorKind::MathError => "Adjust the numbers so the calculation is valid."@,
            ErrorKind::ArgumentError => "Call the function with the number of arguments it defines."@,
            ErrorKind::IndexError => "Use an index between 0 and the array's length minus one."@,
            ErrorKind::RuntimeError => "Re-check the values flowing into this line."@,
            ErrorKind::InternalError => "This looks like a bug inside Guppty itself; please report it with your program."@,
        },
{
}

impl ErrorKind {
    /// The kind's display name, such as `NameError`.
    pub fn title(self) -> (t: &'static str)
        ensures
            t@ == spec_title(self),
    {
        match self {
            ErrorKind::SyntaxError => "SyntaxError",
            ErrorKind::IndentationError => "IndentationError",
            ErrorKind::NameError => "NameError",
            ErrorKind::TypeError => "TypeError",
            ErrorKind::ValueError => "ValueError",
            ErrorKind::MathError => "MathError",
            ErrorKind::ArgumentError => "ArgumentError",
            ErrorKind::IndexError => "IndexError",
            ErrorKind::RuntimeError => "RuntimeError",
            ErrorKind::InternalError => "InternalError",
        }
    }

    /// The generic suggestion for the kind, used when no tailored hint applies.
    pub fn default_hint(self) -> (h: &'static str)
        ensures
            h@ == spec_default_hint(self),
    {
        match self {
            ErrorKind::SyntaxError => "Check the syntax around here for a typo or a missing symbol.",
            ErrorKind::IndentationError =>
                "Line up this block with consistent indentation (use the same spaces as its siblings).",
            ErrorKind::NameError =>
                "Declare the name first (e.g. `name = value`) or fix the spelling before using it.",
            ErrorKind::TypeError => "Use a value of the type this operation expects here.",
            ErrorKind::ValueError => "Give this a valid value in the form Guppty expects.",
            ErrorKind::MathError => "Adjust the numbers so the calculation is valid.",
            ErrorKind::ArgumentError => "Call the function with the number of arguments it defines.",
            ErrorKind::IndexError => "Use an index between 0 and the array's length minus one.",
            ErrorKind::RuntimeError => "Re-check the values flowing into this line.",
            ErrorKind::InternalError =>
                "This looks like a bug inside Guppty itself; please report it with your program.",
        }
    }
}

} // verus!

verus! {

/// The kind and tailored suggestion that `classify` picks for an already
/// lowercased message: the first rule whose phrase occurs in the text wins,
/// and the stage decides when none does.
pub open spec fn spec_classify_lowered(phase: ErrorPhase, lower: Seq<char>) -> (ErrorKind, Seq<char>) {
    let has = |needle: Seq<char>| seq_contains(lower, needle);
    if has("lonely '!'"@) {
        (ErrorKind::SyntaxError, "Guppty uses '!=' for 'not equal'; there is no standalone '!'."@)
    } else if has("started a string"@) {
        (ErrorKind::SyntaxError, "Add a closing double quote (\") to finish the string."@)
    } else if has("started a char"@) {
        (ErrorKind::SyntaxError, "Close the char with a matching single quote, like 'a'."@)
    } else if has("char must be exactly one"@) {
        (ErrorKind::SyntaxError,
         "Put exactly one character in single quotes ('h'); use double quotes for text."@)
    } else if has("too many decimal points"@) {
        (ErrorKind::SyntaxError, "Use just one '.' in a number, like 3.14."@)
    } else if has("valid decimal number"@) {
        (ErrorKind::ValueError, "Write decimals as digits with a single dot, like 3.14."@)
    } else if has("valid whole number"@) {
        (ErrorKind::ValueError, "Write whole numbers as digits only, like 42."@)
    } else if has("do not know what to do with"@) {
        (ErrorKind::SyntaxError,
         "Remove this unexpected character or replace it with valid Guppty syntax."@)
    } else if has("indented block"@) || has("indent"@) {
        (ErrorKind::IndentationError, "Indent the block under this line so its statements line up."@)
    } else if has("expected an expression"@) {
        (ErrorKind::SyntaxError,
         "Put a value here: a number, string, name, or a (parenthesized) expression."@)
    } else if has("only empty arrays"@) {
        (ErrorKind::SyntaxError,
         "Guppty only supports empty arrays [] for now; remove the items inside."@)
    } else if has("expected"@) && has("but found"@) {
        (ErrorKind::SyntaxError,
         "A token is missing or misplaced here; add or fix what was expected."@)
    } else if has("is not defined yet"@) {
        (ErrorKind::NameError, "Declare it first (e.g. `name = value`) or check the spelling."@)
    } else if has("is not a function"@) {
        (ErrorKind::TypeError,
         "Only call functions; check the name before '(' or define it with a function."@)
    } else if has("range() can only be used"@) {
        (ErrorKind::ValueError,
         "Use range() only in a for-loop header: for i in range(1 through 6)."@)
    } else if has("wrong number of arguments"@) {
        (ErrorKind::ArgumentError,
         "Pass exactly the number of arguments the function was defined with."@)
    } else if has("divide by zero"@) {
        (ErrorKind::MathError, "Make sure the divisor is not zero before dividing."@)
    } else if has("cannot be used as a math operator"@) {
        (ErrorKind::TypeError, "Use +, -, *, or / with numbers here."@)
    } else if has("expected a number but got"@) {
        (ErrorKind::TypeError, "Use a number here, or convert the value to a number first."@)
    } else if has("expected an array but got"@) {
        (ErrorKind::TypeError, "Use an array here, like [] or a variable that holds an array."@)
    } else if has("index out of bounds"@) {
        (ErrorKind::IndexError, "Use an index from 0 to the array's length minus one."@)
    } else if has("opcode"@) || has("constant"@) || has("empty stack"@) || has("call frame"@) {
        (ErrorKind::InternalError,
         "This looks like a bug inside Guppty itself; please report it with your program."@)
    } else {
        let kind = match phase {
            ErrorPhase::Lex => ErrorKind::SyntaxError,
            ErrorPhase::Parse => ErrorKind::SyntaxError,
            ErrorPhase::Runtime => ErrorKind::RuntimeError,
        };
        (kind, spec_default_hint(kind))
    }
}

/// What `classify` returns for a message: the rules applied to its lowercase form.
pub open spec fn spec_classify(phase: ErrorPhase, message: Seq<char>) -> (ErrorKind, Seq<char>) {
    spec_classify_lowered(phase, lowercase_of(message))
}

fn has_phrase(lower: &Vec<char>, needle: &str) -> (r: bool)
    ensures
        r == seq_contains(lower@, needle@),
{
    let n = chars_of(needle);
    contains_chars(lower, &n)
}

/// Picks the error kind and tailored suggestion for an already lowercased message.
pub fn classify_lowered(phase: ErrorPhase, lower: &str) -> (r: (ErrorKind, String))
    ensures
        r.0 == spec_classify_lowered(phase, lower@).0,
        r.1@ == spec_classify_lowered(phase, lower@).1,
{
    let text = chars_of(lower);
    let (kind, hint) = classify_chars(phase, &text);
    (kind, String::from_str(hint))
}

fn classify_chars(phase: ErrorPhase, lower: &Vec<char>) -> (r: (ErrorKind, &'static str))
    ensures
        r.0 == spec_classify_lowered(phase, lower@).0,
        r.1@ == spec_classify_lowered(phase, lower@).1,
{
    if has_phrase(lower, "lonely '!'") {
        (ErrorKind::SyntaxError, "Guppty uses '!=' for 'not equal'; there is no standalone '!'.")
    } else if has_phrase(lower, "started a string") {
        (ErrorKind::SyntaxError, "Add a closing double quote (\") to finish the string.")
    } else if has_phrase(lower, "started a char") {
        (ErrorKind::SyntaxError, "Close the char with a matching single quote, like 'a'.")
    } else if has_phrase(lower, "char must be exactly one") {
        (ErrorKind::SyntaxError,
         "Put exactly one character in single quotes ('h'); use double quotes for text.")
    } else if has_phrase(lower, "too many decimal points") {
        (ErrorKind::SyntaxError, "Use just one '.' in a number, like 3.14.")
    } else if has_phrase(lower, "valid decimal number") {
        (ErrorKind::ValueError, "Write decimals as digits with a single dot, like 3.14.")
    } else if has_phrase(lower, "valid whole number") {
        (ErrorKind::ValueError, "Write whole numbers as digits only, like 42.")
    } else if has_phrase(lower, "do not know what to do with") {
        (ErrorKind::SyntaxError,
         "Remove this unexpected character or replace it with valid Guppty syntax.")
    } else if has_phrase(lower, "indented block") || has_phrase(lower, "indent") {
        (ErrorKind::IndentationError, "Indent the block under this line so its statements line up.")
    } else if has_phrase(lower, "expected an expression") {
        (ErrorKind::SyntaxError,
         "Put a value here: a number, string, name, or a (parenthesized) expression.")
    } else if has_phrase(lower, "only empty arrays") {
        (ErrorKind::SyntaxError,
         "Guppty only supports empty arrays [] for now; remove the items inside.")
    } else if has_phrase(lower, "expected") && has_phrase(lower, "but found") {
        (ErrorKind::SyntaxError,
         "A token is missing or misplaced here; add or fix what was expected.")
    } else if has_phrase(lower, "is not defined yet") {
        (ErrorKind::NameError, "Declare it first (e.g. `name = value`) or check the spelling.")
    } else if has_phrase(lower, "is not a function") {
        (ErrorKind::TypeError,
         "Only call functions; check the name before '(' or define it with a function.")
    } else if has_phrase(lower, "range() can only be used") {
        (ErrorKind::ValueError,
         "Use range() only in a for-loop header: for i in range(1 through 6).")
    } else if has_phrase(lower, "wrong number of arguments") {
        (ErrorKind::ArgumentError,
         "Pass exactly the number of arguments the function was defined with.")
    } else if has_phrase(lower, "divide by zero") {
        (ErrorKind::MathError, "Make sure the divisor is not zero before dividing.")
    } else if has_phrase(lower, "cannot be used as a math operator") {
        (ErrorKind::TypeError, "Use +, -, *, or / with numbers here.")
    } else if has_phrase(lower, "expected a number but got") {
        (ErrorKind::TypeError, "Use a number here, or convert the value to a number first.")
    } else if has_phrase(lower, "expected an array but got") {
        (ErrorKind::TypeError, "Use an array here, like [] or a variable that holds an array.")
    } else if has_phrase(lower, "index out of bounds") {
        (ErrorKind::IndexError, "Use an index from 0 to the array's length minus one.")
    } else if has_phrase(lower, "opcode") || has_phrase(lower, "constant") || has_phrase(
        lower,
        "empty stack",
    ) || has_phrase(lower, "call frame") {
        (ErrorKind::InternalError,
         "This looks like a bug inside Guppty itself; please report it with your program.")
    } else {
        let kind = match phase {
            ErrorPhase::Lex => ErrorKind::SyntaxError,
            ErrorPhase::Parse => ErrorKind::SyntaxError,
            ErrorPhase::Runtime => ErrorKind::RuntimeError,
        };
        (kind, kind.default_hint())
    }
}

/// Picks the error kind and tailored suggestion for a message, matching its
/// lowercase form against the phrases each stage uses.
pub fn classify(phase: ErrorPhase, message: &str) -> (r: (ErrorKind, String))
    ensures
        r.0 == spec_classify(phase, message@).0,
        r.1@ == spec_classify(phase, message@).1,
        is_ascii_text(message@) ==> r.0 == spec_classify_lowered(phase, ascii_lower(message@)).0
            && r.1@ == spec_classify_lowered(phase, ascii_lower(message@)).1,
{
    let lower = to_lowercase(message);
    classify_lowered(phase, lower.as_str())
}

/// How error messages are sorted, as rules tried in order: the phrases a
/// lowercased message must all contain, the kind it then gets, and the
/// suggestion shown with it.
pub open spec fn message_rules() -> Seq<(Seq<Seq<char>>, ErrorKind, Seq<char>)> {
    seq![
        (seq!["lonely '!'"@], ErrorKind::SyntaxError, "Guppty uses '!=' for 'not equal'; there is no standalone '!'."@),
        (seq!["started a string"@], ErrorKind::SyntaxError, "Add a closing double quote (\") to finish the string."@),
        (seq!["started a char"@], ErrorKind::SyntaxError, "Close the char with a matching single quote, like 'a'."@),
        (seq!["char must be exactly one"@], ErrorKind::SyntaxError, "Put exactly one character in single quotes ('h'); use double quotes for text."@),
        (seq!["too many decimal points"@], ErrorKind::SyntaxError, "Use just one '.' in a number, like 3.14."@),
        (seq!["valid decimal number"@], ErrorKind::ValueError, "Write decimals as digits with a single dot, like 3.14."@),
        (seq!["valid whole number"@], ErrorKind::ValueError, "Write whole numbers as digits only, like 42."@),
        (seq!["do not know what to do with"@], ErrorKind::SyntaxError, "Remove this unexpected character or replace it with valid Guppty syntax."@),
        (seq!["indented block"@], ErrorKind::IndentationError, "Indent the block under this line so its statements line up."@),
        (seq!["indent"@], ErrorKind::IndentationError, "Indent the block under this line so its statements line up."@),
        (seq!["expected an expression"@], ErrorKind::SyntaxError, "Put a value here: a number, string, name, or a (parenthesized) expression."@),
        (seq!["only empty arrays"@], ErrorKind::SyntaxError, "Guppty only supports empty arrays [] for now; remove the items inside."@),
        (seq!["expected"@, "but found"@], ErrorKind::SyntaxError, "A token is missing or misplaced here; add or fix what was expected."@),
        (seq!["is not defined yet"@], ErrorKind::NameError, "Declare it first (e.g. `name = value`) or check the spelling."@),
        (seq!["is not a function"@], ErrorKind::TypeError, "Only call functions; check the name before '(' or define it with a function."@),
        (seq!["range() can only be used"@], ErrorKind::ValueError, "Use range() only in a for-loop header: for i in range(1 through 6)."@),
        (seq!["wrong number of arguments"@], ErrorKind::ArgumentError, "Pass exactly the number of arguments the function was defined with."@),
        (seq!["divide by zero"@], ErrorKind::MathError, "Make sure the divisor is not zero before dividing."@),
        (seq!["cannot be used as a math operator"@], ErrorKind::TypeError, "Use +, -, *, or / with numbers here."@),
        (seq!["expected a number but got"@], ErrorKind::TypeError, "Use a number here, or convert the value to a number first."@),
        (seq!["expected an array but got"@], ErrorKind::TypeError, "Use an array here, like [] or a variable that holds an array."@),
        (seq!["index out of bounds"@], ErrorKind::IndexError, "Use an index from 0 to the array's length minus one."@),
        (seq!["opcode"@], ErrorKind::InternalError, "This looks like a bug inside Guppty itself; please report it with your program."@),
        (seq!["constant"@], ErrorKind::InternalError, "This looks like a bug inside Guppty itself; please report it with your program."@),
        (seq!["empty stack"@], ErrorKind::InternalError, "This looks like a bug inside Guppty itself; please report it with your program."@),
        (seq!["call frame"@], ErrorKind::InternalError, "This looks like a bug inside Guppty itself; please report it with your program."@),
    ]
}

/// Every phrase of a rule occurs in the lowercased message.
pub open spec fn rule_applies(lower: Seq<char>, phrases: Seq<Seq<char>>) -> bool {
    forall|k: int| 0 <= k < phrases.len() ==> seq_contains(lower, #[trigger] phrases[k])
}

proof fn lemma_one_phrase(lower: Seq<char>, p: Seq<char>)
    ensures
        rule_applies(lower, seq![p]) == seq_contains(lower, p),
{
    assert(seq![p][0] == p);
}

proof fn lemma_two_phrases(lower: Seq<char>, p: Seq<char>, q: Seq<char>)
    ensures
        rule_applies(lower, seq![p, q]) == (seq_contains(lower, p) && seq_contains(lower, q)),
{
    assert(seq![p, q][0] == p);
    assert(seq![p, q][1] == q);
}

/// A lowercased message gets the kind and suggestion of the first rule of
/// `message_rules` that applies to it, whatever the stage. When none
/// applies, lexing and parsing errors are syntax errors and run-time errors
/// are run-time errors, each with its general suggestion.
pub proof fn lemma_message_rules(phase: ErrorPhase, lower: Seq<char>)
    ensures
        forall|j: int|
            #![trigger rule_applies(lower, message_rules()[j].0)]
            0 <= j < message_rules().len() && rule_applies(lower, message_rules()[j].0) && (forall|
                k: int,
            |
                0 <= k < j ==> !rule_applies(lower, message_rules()[k].0)) ==> spec_classify_lowered(
                phase,
                lower,
            ) == (message_rules()[j].1, message_rules()[j].2),
        (forall|k: int|
            0 <= k < message_rules().len() ==> !rule_applies(lower, message_rules()[k].0))
            ==> spec_classify_lowered(phase, lower) == match phase {
            ErrorPhase::Runtime => (ErrorKind::RuntimeError, "Re-check the values flowing into this line."@),
            _ => (
                ErrorKind::SyntaxError,
                "Check the syntax around here for a typo or a missing symbol."@,
            ),
        },
{
    let r = message_rules();
    assert(r.len() == 26);
    lemma_one_phrase(lower, "lonely '!'"@);
    assert(r[0].0 == seq!["lonely '!'"@]);
    lemma_one_phrase(lower, "started a string"@);
    assert(r[1].0 == seq!["started a string"@]);
    lemma_one_phrase(lower, "started a char"@);
    assert(r[2].0 == seq!["started a char"@]);
    lemma_one_phrase(lower, "char must be exactly one"@);
    assert(r[3].0 == seq!["char must be exactly one"@]);
    lemma_one_phrase(lower, "too many decimal points"@);
    assert(r[4].0 == seq!["too many decimal points"@]);
    lemma_one_phrase(lower, "valid decimal number"@);
    assert(r[5].0 == seq!["valid decimal number"@]);
    lemma_one_phrase(lower, "valid whole number"@);
    assert(r[6].0 == seq!["valid whole number"@]);
    lemma_one_phrase(lower, "do not know what to do with"@);
    assert(r[7].0 == seq!["do not know what to do with"@]);
    lemma_one_phrase(lower, "indented block"@);
    assert(r[8].0 == seq!["indented block"@]);
    lemma_one_phrase(lower, "indent"@);
    assert(r[9].0 == seq!["indent"@]);
    lemma_one_phrase(lower, "expected an expression"@);
    assert(r[10].0 == seq!["expected an expression"@]);
    lemma_one_phrase(lower, "only empty arrays"@);
    assert(r[11].0 == seq!["only empty arrays"@]);
    lemma_two_phrases(lower, "expected"@, "but found"@);
    assert(r[12].0 == seq!["expected"@, "but found"@]);
    lemma_one_phrase(lower, "is not defined yet"@);
    assert(r[13].0 == seq!["is not defined yet"@]);
    lemma_one_phrase(lower, "is not a function"@);
    assert(r[14].0 == seq!["is not a function"@]);
    lemma_one_phrase(lower, "range() can only be used"@);
    assert(r[15].0 == seq!["range() can only be used"@]);
    lemma_one_phrase(lower, "wrong number of arguments"@);
    assert(r[16].0 == seq!["wrong number of arguments"@]);
    lemma_one_phrase(lower, "divide by zero"@);
    assert(r[17].0 == seq!["divide by zero"@]);
    lemma_one_phrase(lower, "cannot be used as a math operator"@);
    assert(r[18].0 == seq!["cannot be used as a math operator"@]);
    lemma_one_phrase(lower, "expected a number but got"@);
    assert(r[19].0 == seq!["expected a number but got"@]);
    lemma_one_phrase(lower, "expected an array but got"@);
    assert(r[20].0 == seq!["expected an array but got"@]);
    lemma_one_phrase(lower, "index out of bounds"@);
    assert(r[21].0 == seq!["index out of bounds"@]);
    lemma_one_phrase(lower, "opcode"@);
    assert(r[22].0 == seq!["opcode"@]);
    lemma_one_phrase(lower, "constant"@);
    assert(r[23].0 == seq!["constant"@]);
    lemma_one_phrase(lower, "empty stack"@);
    assert(r[24].0 == seq!["empty stack"@]);
    lemma_one_phrase(lower, "call frame"@);
    assert(r[25].0 == seq!["call frame"@]);
}

} // verus!

verus! {

/// An error from any stage, with its place, kind, message and suggestion.
#[derive(Debug, Clone)]
pub struct GupError {
    pub phase: ErrorPhase,
    pub kind: ErrorKind,
    pub span: Span,
    pub message: String,
    pub hint: Option<String>,
}

/// The plain-value form of a [`GupError`].
pub struct ErrorView {
    pub phase: ErrorPhase,
    pub kind: ErrorKind,
    pub span: Span,
    pub message: Seq<char>,
    pub hint: Option<Seq<char>>,
}

impl View for GupError {
    type V = ErrorView;

    open spec fn view(&self) -> ErrorView {
        ErrorView {
            phase: self.phase,
            kind: self.kind,
            span: self.span,
            message: self.message@,
            hint: self.hint.deep_view(),
        }
    }
}

/// The error a stage reports: its kind and suggestion come from the message.
pub open spec fn spec_error(phase: ErrorPhase, span: Span, message: Seq<char>) -> ErrorView {
    let (kind, hint) = spec_classify(phase, message);
    ErrorView { phase, kind, span, message, hint: Some(hint) }
}

/// Text without a line break.
pub open spec fn single_line(s: Seq<char>) -> bool {
    forall|i: int| 0 <= i < s.len() ==> s[i] != '\n'
}

/// Every suggestion the classifier picks fits on one line, whatever the
/// phase and message: the report's `help:` line is always a single line.
pub proof fn lemma_hint_is_single_line(phase: ErrorPhase, message: Seq<char>)
    ensures
        single_line(spec_classify(phase, message).1),
{
        reveal_strlit("Check the syntax around here for a typo or a missing symbol.");
        reveal_strlit("Line up this block with consistent indentation (use the same spaces as its siblings).");
        reveal_strlit("Declare the name first (e.g. `name = value`) or fix the spelling before using it.");
        reveal_strlit("Use a value of the type this operation expects here.");
        reveal_strlit("Give this a valid value in the form Guppty expects.");
        reveal_strlit("Adjust the numbers so the calculation is valid.");
        reveal_strlit("Call the function with the number of arguments it defines.");
        reveal_strlit("Use an index between 0 and the array's length minus one.");
        reveal_strlit("Re-check the values flowing into this line.");
        reveal_strlit("This looks like a bug inside Guppty itself; please report it with your program.");
        reveal_strlit("Guppty uses '!=' for 'not equal'; there is no standalone '!'.");
        reveal_strlit("Add a closing double quote (\") to finish the string.");
        reveal_strlit("Close the char with a matching single quote, like 'a'.");
        reveal_strlit("Put exactly one character in single quotes ('h'); use double quotes for text.");
        reveal_strlit("Use just one '.' in a number, like 3.14.");
        reveal_strlit("Write decimals as digits with a single dot, like 3.14.");
        reveal_strlit("Write whole numbers as digits only, like 42.");
        reveal_strlit("Remove this unexpected character or replace it with valid Guppty syntax.");
        reveal_strlit("Indent the block under this line so its statements line up.");
        reveal_strlit("Put a value here: a number, string, name, or a (parenthesized) expression.");
        reveal_strlit("Guppty only supports empty arrays [] for now; remove the items inside.");
        reveal_strlit("A token is missing or misplaced here; add or fix what was expected.");
        reveal_strlit("Declare it first (e.g. `name = value`) or check the spelling.");
        reveal_strlit("Only call functions; check the name before '(' or define it with a function.");
        reveal_strlit("Use range() only in a for-loop header: for i in range(1 through 6).");
        reveal_strlit("Pass exactly the number of arguments the function was defined with.");
        reveal_strlit("Make sure the divisor is not zero before dividing.");
        reveal_strlit("Use +, -, *, or / with numbers here.");
        reveal_strlit("Use a number here, or convert the value to a number first.");
        reveal_strlit("Use an array here, like [] or a variable that holds an array.");
        reveal_strlit("Use an index from 0 to the array's length minus one.");
}

/// A freshly made error always carries a hint: the kind and the hint are
/// the ones the classifier picks for its phase and message.
pub proof fn lemma_new_error_has_hint(phase: ErrorPhase, span: Span, message: Seq<char>)
    ensures
        spec_error(phase, span, message).hint == Some(spec_classify(phase, message).1),
        spec_error(phase, span, message).kind == spec_classify(phase, message).0,
        spec_error(phase, span, message).message == message,
        spec_error(phase, span, message).span == span,
{
}

/// The lines of a text as `str::lines` yields them: split after each `\n`,
/// with one `\r` before that `\n` removed, and no empty last line after a
/// final `\n`. `cur` is the part of the current line already read.
pub open spec fn split_lines(s: Seq<char>, cur: Seq<char>) -> Seq<Seq<char>>
    decreases s.len(),
{
    if s.len() == 0 {
        if cur.len() == 0 { seq![] } else { seq![cur] }
    } else if s[0] == '\n' {
        seq![strip_cr(cur)] + split_lines(s.drop_first(), seq![])
    } else {
        split_lines(s.drop_first(), cur.push(s[0]))
    }
}

pub open spec fn strip_cr(line: Seq<char>) -> Seq<char> {
    if line.len() > 0 && line.last() == '\r' { line.drop_last() } else { line }
}

pub open spec fn lines_of(s: Seq<char>) -> Seq<Seq<char>> {
    split_lines(s, seq![])
}

pub open spec fn nth_line(s: Seq<char>, k: nat) -> Option<Seq<char>> {
    if k < lines_of(s).len() { Some(lines_of(s)[k as int]) } else { None }
}

pub open spec fn sat_dec(n: usize) -> nat {
    if n >= 1 { (n - 1) as nat } else { 0 }
}

pub open spec fn caret_count(length: usize) -> nat {
    if length > 80 { 80 } else if length < 1 { 1 } else { length as nat }
}

/// The first line of a report: `file:line:column: Kind: message`.
pub open spec fn spec_head(e: ErrorView, filename: Seq<char>) -> Seq<char> {
    filename + ":"@ + nat_decimal(e.span.line as nat) + ":"@ + nat_decimal(e.span.column as nat)
        + ": "@ + spec_title(e.kind) + ": "@ + e.message
}

/// The quoted source line of a report, with carets under the span.
pub open spec fn spec_excerpt(e: ErrorView, text: Seq<char>) -> Seq<char> {
    spec_quoted_line(e, text) + spec_caret_line(e)
}

pub open spec fn spec_quoted_line(e: ErrorView, text: Seq<char>) -> Seq<char> {
    let label = nat_decimal(e.span.line as nat);
    let gutter = repeat_seq(' ', label.len());
    "\n"@ + gutter + " |"@ + "\n"@ + label + " | "@ + text
}

pub open spec fn spec_caret_line(e: ErrorView) -> Seq<char> {
    let gutter = repeat_seq(' ', nat_decimal(e.span.line as nat).len());
    "\n"@ + gutter + " | "@ + repeat_seq(' ', sat_dec(e.span.column)) + repeat_seq(
        '^',
        caret_count(e.span.length),
    ) + " "@ + spec_title(e.kind) + " here"@ + "\n"@ + gutter + " |"@
}

/// The last line of a report: the hint, or the kind's generic one.
pub open spec fn spec_help(e: ErrorView) -> Seq<char> {
    let gutter = repeat_seq(' ', nat_decimal(e.span.line as nat).len());
    let hint = match e.hint {
        Some(h) => h,
        None => spec_default_hint(e.kind),
    };
    "\n"@ + gutter + " = help: "@ + hint
}

/// The text `render` produces: the location and kind on the first line, the
/// source line with carets under the span when that line exists, and the
/// `help:` line with the hint (or the kind's generic one).
pub open spec fn spec_render(e: ErrorView, filename: Seq<char>, source: Seq<char>) -> Seq<char> {
    let excerpt = match nth_line(source, sat_dec(e.span.line)) {
        Some(text) => spec_excerpt(e, text),
        None => Seq::empty(),
    };
    spec_head(e, filename) + excerpt + spec_help(e)
}

/// A report starts with where the error is and what kind it is
/// (`file:line:column: Kind: message`) and ends with its `help:` line; when
/// the hint is one line (as every classified hint is), that help line is the
/// report's last line.
pub proof fn lemma_render_shape(e: ErrorView, filename: Seq<char>, source: Seq<char>)
    ensures
        ({
            let r = spec_render(e, filename, source);
            let head = spec_head(e, filename);
            let help = spec_help(e);
            &&& r.take(head.len() as int) == head
            &&& r.skip(r.len() - help.len()) == help
            &&& help[0] == '\n'
            &&& (e.hint matches Some(h) && single_line(h)) ==> single_line(help.skip(1))
        }),
{
    reveal_strlit("\n");
    reveal_strlit(" = help: ");
    let r = spec_render(e, filename, source);
    let head = spec_head(e, filename);
    let help = spec_help(e);
    let excerpt = match nth_line(source, sat_dec(e.span.line)) {
        Some(text) => spec_excerpt(e, text),
        None => Seq::empty(),
    };
    assert(r == head + excerpt + help);
    assert(r.take(head.len() as int) =~= head);
    assert(r.skip(r.len() - help.len()) =~= help);
    let gutter = repeat_seq(' ', nat_decimal(e.span.line as nat).len());
    match e.hint {
        Some(h) => {
            if single_line(h) {
                assert(help.skip(1) =~= gutter + " = help: "@ + h);
                assert forall|i: int| 0 <= i < help.skip(1).len() implies help.skip(1)[i] != '\n' by {
                    if i < gutter.len() {
                        assert(gutter[i] == ' ');
                    } else if i >= gutter.len() + 9 {
                        assert(help.skip(1)[i] == h[i - gutter.len() - 9]);
                    }
                }
            }
        },
        None => {},
    }
}

/// Text that does not end with a carriage return.
pub open spec fn no_cr_end(s: Seq<char>) -> bool {
    s.len() == 0 || s.last() != '\r'
}

/// The hint a report shows.
pub open spec fn report_hint(e: ErrorView) -> Seq<char> {
    match e.hint {
        Some(h) => h,
        None => spec_default_hint(e.kind),
    }
}

/// The gutter of a report: as wide as the line number.
pub open spec fn gutter_of(e: ErrorView) -> Seq<char> {
    repeat_seq(' ', nat_decimal(e.span.line as nat).len())
}

/// The last line of a report: the gutter, `= help:` and the hint.
pub open spec fn help_line(e: ErrorView) -> Seq<char> {
    gutter_of(e) + " = help: "@ + report_hint(e)
}

/// The numbered source line of a report.
pub open spec fn quoted_line(e: ErrorView, text: Seq<char>) -> Seq<char> {
    nat_decimal(e.span.line as nat) + " | "@ + text
}

/// The line of carets under the span, with the kind after them.
pub open spec fn caret_line(e: ErrorView) -> Seq<char> {
    gutter_of(e) + " | "@ + repeat_seq(' ', sat_dec(e.span.column)) + repeat_seq('^', caret_count(e.span.length))
        + " "@ + spec_title(e.kind) + " here"@
}

proof fn lemma_split_last_line(a: Seq<char>, cur: Seq<char>)
    requires
        single_line(a),
        cur.len() + a.len() > 0,
    ensures
        split_lines(a, cur) == seq![cur + a],
    decreases a.len(),
{
    if a.len() == 0 {
        assert(cur + a =~= cur);
    } else {
        assert(a[0] != '\n');
        lemma_split_last_line(a.drop_first(), cur.push(a[0]));
        assert(cur.push(a[0]) + a.drop_first() =~= cur + a);
    }
}

proof fn lemma_split_line_then(a: Seq<char>, rest: Seq<char>, cur: Seq<char>)
    requires
        single_line(a),
    ensures
        split_lines(a + seq!['\n'] + rest, cur) == seq![strip_cr(cur + a)] + split_lines(rest, seq![]),
    decreases a.len(),
{
    let s = a + seq!['\n'] + rest;
    if a.len() == 0 {
        assert(s =~= seq!['\n'] + rest);
        assert(s.drop_first() =~= rest);
        assert(cur + a =~= cur);
    } else {
        assert(s[0] == a[0]);
        assert(s.drop_first() =~= a.drop_first() + seq!['\n'] + rest);
        lemma_split_line_then(a.drop_first(), rest, cur.push(a[0]));
        assert(cur.push(a[0]) + a.drop_first() =~= cur + a);
    }
}

proof fn lemma_decimal_single_line(n: nat)
    ensures
        single_line(nat_decimal(n)),
        nat_decimal(n).len() > 0,
        nat_decimal(n).last() != '\r',
    decreases n,
{
    if n >= 10 {
        lemma_decimal_single_line(n / 10);
    }
}

proof fn lemma_title_single_line(kind: ErrorKind)
    ensures
        single_line(spec_title(kind)),
{
    reveal_strlit("SyntaxError");
    reveal_strlit("IndentationError");
    reveal_strlit("NameError");
    reveal_strlit("TypeError");
    reveal_strlit("ValueError");
    reveal_strlit("MathError");
    reveal_strlit("ArgumentError");
    reveal_strlit("IndexError");
    reveal_strlit("RuntimeError");
    reveal_strlit("InternalError");
}

proof fn lemma_lines_single_line(s: Seq<char>, cur: Seq<char>)
    requires
        single_line(cur),
    ensures
        forall|i: int| 0 <= i < split_lines(s, cur).len() ==> single_line(#[trigger] split_lines(s, cur)[i]),
    decreases s.len(),
{
    if s.len() == 0 {
        if cur.len() > 0 {
            assert(split_lines(s, cur) =~= seq![cur]);
        } else {
            assert(split_lines(s, cur).len() == 0);
        }
    } else if s[0] == '\n' {
        lemma_lines_single_line(s.drop_first(), seq![]);
        let rest = split_lines(s.drop_first(), seq![]);
        assert(single_line(strip_cr(cur))) by {
            assert forall|j: int| 0 <= j < strip_cr(cur).len() implies strip_cr(cur)[j] != '\n' by {
                assert(strip_cr(cur)[j] == cur[j]);
            }
        }
        assert(split_lines(s, cur) == seq![strip_cr(cur)] + rest);
        assert forall|i: int| 0 <= i < split_lines(s, cur).len() implies single_line(
            #[trigger] split_lines(s, cur)[i],
        ) by {
            if i > 0 {
                assert(split_lines(s, cur)[i] == rest[i - 1]);
            } else {
                assert(split_lines(s, cur)[0] == strip_cr(cur));
            }
        }
    } else {
        assert(single_line(cur.push(s[0]))) by {
            assert forall|j: int| 0 <= j < cur.push(s[0]).len() implies cur.push(s[0])[j] != '\n' by {
                if j < cur.len() {
                    assert(cur.push(s[0])[j] == cur[j]);
                }
            }
        }
        lemma_lines_single_line(s.drop_first(), cur.push(s[0]));
        assert(split_lines(s, cur) == split_lines(s.drop_first(), cur.push(s[0])));
    }
}

proof fn lemma_head_line(e: ErrorView, filename: Seq<char>)
    requires
        single_line(filename),
        single_line(e.message),
    ensures
        single_line(spec_head(e, filename)),
        no_cr_end(e.message) ==> no_cr_end(spec_head(e, filename)),
{
    reveal_strlit(":");
    reveal_strlit(": ");
    lemma_decimal_single_line(e.span.line as nat);
    lemma_decimal_single_line(e.span.column as nat);
    lemma_title_single_line(e.kind);
    let head = spec_head(e, filename);
    let a = filename;
    let b = a + ":"@;
    let c = b + nat_decimal(e.span.line as nat);
    let d = c + ":"@;
    let f = d + nat_decimal(e.span.column as nat);
    let g = f + ": "@;
    let h = g + spec_title(e.kind);
    let j = h + ": "@;
    assert(head == j + e.message);
    assert forall|i: int| 0 <= i < head.len() implies head[i] != '\n' by {
        if i >= j.len() {
            assert(head[i] == e.message[i - j.len()]);
        } else if i >= h.len() {
        } else if i >= g.len() {
            assert(head[i] == spec_title(e.kind)[i - g.len()]);
        } else if i >= f.len() {
        } else if i >= d.len() {
            assert(head[i] == nat_decimal(e.span.column as nat)[i - d.len()]);
        } else if i >= c.len() {
        } else if i >= b.len() {
            assert(head[i] == nat_decimal(e.span.line as nat)[i - b.len()]);
        } else if i >= a.len() {
        } else {
            assert(head[i] == filename[i]);
        }
    }
    if e.message.len() > 0 {
        assert(head.last() == e.message.last());
    }
}

proof fn lemma_gutter_lines(gutter: Seq<char>, hint: Seq<char>)
    requires
        forall|i: int| 0 <= i < gutter.len() ==> gutter[i] == ' ',
    ensures
        single_line(hint) ==> single_line(gutter + " = help: "@ + hint),
        single_line(gutter + " |"@),
        no_cr_end(gutter + " |"@),
        (gutter + " = help: "@ + hint).len() > 0,
{
    reveal_strlit(" = help: ");
    reveal_strlit(" |");
    let help = gutter + " = help: "@ + hint;
    if single_line(hint) {
        assert forall|i: int| 0 <= i < help.len() implies help[i] != '\n' by {
            if i >= gutter.len() + 9 {
                assert(help[i] == hint[i - gutter.len() - 9]);
            } else if i < gutter.len() {
                assert(help[i] == gutter[i]);
            }
        }
    }
    let gl = gutter + " |"@;
    assert forall|i: int| 0 <= i < gl.len() implies gl[i] != '\n' by {
        if i < gutter.len() {
            assert(gl[i] == gutter[i]);
        }
    }
}

proof fn lemma_source_lines(e: ErrorView, text: Seq<char>)
    requires
        single_line(text),
    ensures
        single_line(quoted_line(e, text)),
        no_cr_end(text) ==> no_cr_end(quoted_line(e, text)),
        single_line(caret_line(e)),
        no_cr_end(caret_line(e)),
{
    reveal_strlit(" | ");
    reveal_strlit(" ");
    reveal_strlit(" here");
    lemma_decimal_single_line(e.span.line as nat);
    lemma_title_single_line(e.kind);
    let label = nat_decimal(e.span.line as nat);
    let gutter = repeat_seq(' ', label.len());
    let ql = label + " | "@ + text;
    assert forall|i: int| 0 <= i < ql.len() implies ql[i] != '\n' by {
        if i < label.len() {
            assert(ql[i] == label[i]);
        } else if i >= label.len() + 3 {
            assert(ql[i] == text[i - label.len() - 3]);
        }
    }
    if text.len() > 0 {
        assert(ql.last() == text.last());
    }
    let a = gutter + " | "@ + repeat_seq(' ', sat_dec(e.span.column)) + repeat_seq(
        '^',
        caret_count(e.span.length),
    ) + " "@;
    let caret = a + spec_title(e.kind) + " here"@;
    assert forall|i: int| 0 <= i < caret.len() implies caret[i] != '\n' by {
        if i >= a.len() + spec_title(e.kind).len() {
        } else if i >= a.len() {
            assert(caret[i] == spec_title(e.kind)[i - a.len()]);
        } else {
            assert(caret[i] == a[i]);
        }
    }
}

/// The lines of a report: the head (with a final carriage return of the
/// message dropped, as line splitting drops it); when the error's line
/// exists in the source, a gutter line, the numbered source line, the caret
/// line and another gutter line; then the lines of the help text.
#[verifier::spinoff_prover]
#[verifier::rlimit(60)]
proof fn lemma_render_split(e: ErrorView, filename: Seq<char>, source: Seq<char>)
    requires
        single_line(filename),
        single_line(e.message),
    ensures
        lines_of(spec_render(e, filename, source)) == match nth_line(source, sat_dec(e.span.line)) {
            Some(text) => seq![
                strip_cr(spec_head(e, filename)),
                gutter_of(e) + " |"@,
                strip_cr(quoted_line(e, text)),
                caret_line(e),
                gutter_of(e) + " |"@,
            ] + lines_of(help_line(e)),
            None => seq![strip_cr(spec_head(e, filename))] + lines_of(help_line(e)),
        },
{
    reveal_strlit("\n");
    let gutter = gutter_of(e);
    let head = spec_head(e, filename);
    let help = help_line(e);
    let gl = gutter + " |"@;
    let nl = seq!['\n'];
    lemma_head_line(e, filename);
    lemma_gutter_lines(gutter, report_hint(e));
    assert(Seq::<char>::empty() + head =~= head);
    assert(spec_help(e) =~= nl + help);
    match nth_line(source, sat_dec(e.span.line)) {
        Some(text) => {
            lemma_lines_single_line(source, seq![]);
            assert(single_line(text));
            lemma_source_lines(e, text);
            let ql = quoted_line(e, text);
            let caret = caret_line(e);
            assert(Seq::<char>::empty() + gl =~= gl);
            assert(Seq::<char>::empty() + ql =~= ql);
            assert(Seq::<char>::empty() + caret =~= caret);
            assert(strip_cr(gl) == gl);
            assert(strip_cr(caret) == caret);
            let r4 = gl + nl + help;
            let r3 = caret + nl + r4;
            let r2 = ql + nl + r3;
            let r1 = gl + nl + r2;
            assert(spec_render(e, filename, source) =~= head + nl + r1);
            let lh = lines_of(help);
            lemma_split_line_then(gl, help, seq![]);
            assert(lines_of(r4) == seq![gl] + lh);
            lemma_split_line_then(caret, r4, seq![]);
            assert(lines_of(r3) == seq![caret] + (seq![gl] + lh));
            lemma_split_line_then(ql, r3, seq![]);
            assert(lines_of(r2) == seq![strip_cr(ql)] + (seq![caret] + (seq![gl] + lh)));
            lemma_split_line_then(gl, r2, seq![]);
            assert(lines_of(r1) == seq![gl] + (seq![strip_cr(ql)] + (seq![caret] + (seq![gl] + lh))));
            lemma_split_line_then(head, r1, seq![]);
            assert(lines_of(head + nl + r1) == seq![strip_cr(head)] + (seq![gl] + (seq![strip_cr(ql)] + (seq![
                caret,
            ] + (seq![gl] + lh)))));
            assert(seq![strip_cr(head)] + (seq![gl] + (seq![strip_cr(ql)] + (seq![caret] + (seq![gl] + lh))))
                =~= seq![strip_cr(head), gl, strip_cr(ql), caret, gl] + lh);
        },
        None => {
            assert(spec_render(e, filename, source) =~= head + nl + help);
            lemma_split_line_then(head, help, seq![]);
        },
    }
}

/// A report's first line gives where and what (`file:line:column: Kind:
/// message`), its last line the help, and it has six lines when the error's
/// line exists in the source, two otherwise. It holds whenever the file
/// name, the message and the hint are single lines and the message does not
/// end with a carriage return (which line splitting would drop).
pub proof fn lemma_render_lines(e: ErrorView, filename: Seq<char>, source: Seq<char>)
    requires
        single_line(filename),
        single_line(e.message),
        single_line(report_hint(e)),
        no_cr_end(e.message),
    ensures
        ({
            let ls = lines_of(spec_render(e, filename, source));
            &&& ls.len() == (if nth_line(source, sat_dec(e.span.line)) is Some { 6int } else { 2int })
            &&& ls[0] == spec_head(e, filename)
            &&& ls.last() == help_line(e)
        }),
{
    lemma_render_split(e, filename, source);
    lemma_head_line(e, filename);
    lemma_gutter_lines(gutter_of(e), report_hint(e));
    lemma_split_last_line(help_line(e), seq![]);
    assert(Seq::<char>::empty() + help_line(e) =~= help_line(e));
    assert(strip_cr(spec_head(e, filename)) == spec_head(e, filename));
}

/// When the error's line exists in the source, the report's second to fifth
/// lines are a gutter line, the numbered source line, the caret line under
/// the span, and another gutter line. It holds whenever the file name and
/// the message are single lines and the quoted line does not end with a
/// carriage return (which line splitting would drop).
pub proof fn lemma_render_source_lines(e: ErrorView, filename: Seq<char>, source: Seq<char>)
    requires
        single_line(filename),
        single_line(e.message),
        nth_line(source, sat_dec(e.span.line)) matches Some(t) && no_cr_end(t),
    ensures
        ({
            let ls = lines_of(spec_render(e, filename, source));
            let t = nth_line(source, sat_dec(e.span.line))->0;
            &&& ls.len() >= 6
            &&& ls[1] == gutter_of(e) + " |"@
            &&& ls[2] == quoted_line(e, t)
            &&& ls[3] == caret_line(e)
            &&& ls[4] == gutter_of(e) + " |"@
        }),
{
    lemma_render_split(e, filename, source);
    let t = nth_line(source, sat_dec(e.span.line))->0;
    lemma_lines_single_line(source, seq![]);
    lemma_source_lines(e, t);
    assert(strip_cr(quoted_line(e, t)) == quoted_line(e, t));
    lemma_gutter_lines(gutter_of(e), report_hint(e));
    lemma_lines_nonempty(help_line(e));
}

proof fn lemma_lines_nonempty(s: Seq<char>)
    requires
        s.len() > 0,
    ensures
        lines_of(s).len() >= 1,
{
    lemma_split_count(s, seq![]);
}

proof fn lemma_split_count(s: Seq<char>, cur: Seq<char>)
    requires
        s.len() + cur.len() > 0,
    ensures
        split_lines(s, cur).len() >= 1,
    decreases s.len(),
{
    if s.len() > 0 {
        if s[0] != '\n' {
            lemma_split_count(s.drop_first(), cur.push(s[0]));
        }
    }
}

proof fn lemma_split_lines_step(s: Seq<char>, cur: Seq<char>)
    requires
        s.len() > 0,
    ensures
        s[0] == '\n' ==> split_lines(s, cur) == seq![strip_cr(cur)] + split_lines(
            s.drop_first(),
            seq![],
        ),
        s[0] != '\n' ==> split_lines(s, cur) == split_lines(s.drop_first(), cur.push(s[0])),
{
}

/// The `k`-th line (from 0) of `source`, if it has that many lines.
pub fn nth_line_of(source: &Vec<char>, k: usize) -> (r: Option<String>)
    ensures
        r.deep_view() == nth_line(source@, k as nat),
{
    let n = source.len();
    let mut i: usize = 0;
    let mut count: usize = 0;
    let mut start: usize = 0;
    let ghost mut done: Seq<Seq<char>> = seq![];
    assert(source@.skip(0) =~= source@);
    assert(source@.subrange(0, 0) =~= Seq::<char>::empty());
    while i < n
        invariant
            n == source@.len(),
            start <= i <= n,
            count <= k,
            done.len() == count,
            lines_of(source@) == done + split_lines(source@.skip(i as int), source@.subrange(start as int, i as int)),
            forall|j: int| start <= j < i ==> source@[j] != '\n',
        decreases n - i,
    {
        let ghost cur = source@.subrange(start as int, i as int);
        let ghost rest = source@.skip(i as int);
        proof {
            lemma_split_lines_step(rest, cur);
            assert(rest.drop_first() =~= source@.skip(i + 1));
        }
        if source[i] == '\n' {
            let mut end = i;
            if end > start && source[end - 1] == '\r' {
                end = end - 1;
            }
            assert(source@.subrange(start as int, end as int) =~= strip_cr(cur));
            if count == k {
                let line = string_of(source, start, end);
                assert(lines_of(source@)[k as int] == strip_cr(cur));
                return Some(line);
            }
            proof {
                done = done.push(strip_cr(cur));
                assert(source@.subrange((i + 1) as int, (i + 1) as int) =~= Seq::<char>::empty());
                assert(lines_of(source@) =~= done + split_lines(source@.skip(i + 1), seq![]));
            }
            count = count + 1;
            i = i + 1;
            start = i;
        } else {
            assert(cur.push(source@[i as int]) =~= source@.subrange(start as int, i + 1));
            i = i + 1;
        }
    }
    let ghost cur = source@.subrange(start as int, n as int);
    assert(source@.skip(n as int) =~= Seq::<char>::empty());
    if start < n && count == k {
        let line = string_of(source, start, n);
        assert(lines_of(source@) == done + seq![cur]);
        return Some(line);
    }
    assert(start < n ==> lines_of(source@) == done + seq![cur]);
    assert(start >= n ==> cur =~= Seq::<char>::empty() && lines_of(source@) =~= done);
    None
}

impl GupError {
    pub fn lex(span: Span, message: &str) -> (e: GupError)
        ensures
            e@ == spec_error(ErrorPhase::Lex, span, message@),
    {
        Self::new(ErrorPhase::Lex, span, message)
    }

    pub fn parse(span: Span, message: &str) -> (e: GupError)
        ensures
            e@ == spec_error(ErrorPhase::Parse, span, message@),
    {
        Self::new(ErrorPhase::Parse, span, message)
    }

    pub fn runtime(span: Span, message: &str) -> (e: GupError)
        ensures
            e@ == spec_error(ErrorPhase::Runtime, span, message@),
    {
        Self::new(ErrorPhase::Runtime, span, message)
    }

    fn new(phase: ErrorPhase, span: Span, message: &str) -> (e: GupError)
        ensures
            e@ == spec_error(phase, span, message@),
    {
        let (kind, hint) = classify(phase, message);
        GupError { phase, kind, span, message: String::from_str(message), hint: Some(hint) }
    }

    /// Replaces the detected kind; everything else stays.
    pub fn with_kind(self, kind: ErrorKind) -> (e: GupError)
        ensures
            e@ == (ErrorView { kind, ..self@ }),
    {
        let mut e = self;
        e.kind = kind;
        e
    }

    /// Replaces the suggestion; everything else stays.
    pub fn with_hint(self, hint: &str) -> (e: GupError)
        ensures
            e@ == (ErrorView { hint: Some(hint@), ..self@ }),
    {
        let mut e = self;
        e.hint = Some(String::from_str(hint));
        e
    }

    fn push_head(&self, output: &mut String, filename: &str)
        ensures
            final(output)@ == old(output)@ + spec_head(self@, filename@),
    {
        output.append(filename);
        push_char(output, ':');
        push_decimal(output, self.span.line as u64);
        push_char(output, ':');
        push_decimal(output, self.span.column as u64);
        output.append(": ");
        output.append(self.kind.title());
        output.append(": ");
        output.append(self.message.as_str());
        proof {
            reveal_strlit(":");
        }
        assert(output@ =~= old(output)@ + spec_head(self@, filename@));
    }

    fn push_excerpt(&self, output: &mut String, gutter: &String, text: &String)
        requires
            gutter@ == repeat_seq(' ', nat_decimal(self.span.line as nat).len()),
        ensures
            final(output)@ == old(output)@ + spec_excerpt(self@, text@),
    {
        self.push_quoted_line(output, gutter, text);
        let ghost mid = output@;
        self.push_caret_line(output, gutter);
        assert(output@ =~= old(output)@ + spec_excerpt(self@, text@));
    }

    fn push_quoted_line(&self, output: &mut String, gutter: &String, text: &String)
        requires
            gutter@ == repeat_seq(' ', nat_decimal(self.span.line as nat).len()),
        ensures
            final(output)@ == old(output)@ + spec_quoted_line(self@, text@),
    {
        push_char(output, '\n');
        output.append(gutter.as_str());
        output.append(" |");
        push_char(output, '\n');
        push_decimal(output, self.span.line as u64);
        output.append(" | ");
        output.append(text.as_str());
        proof {
            reveal_strlit("\n");
        }
        assert(output@ =~= old(output)@ + spec_quoted_line(self@, text@));
    }

    fn push_caret_line(&self, output: &mut String, gutter: &String)
        requires
            gutter@ == repeat_seq(' ', nat_decimal(self.span.line as nat).len()),
        ensures
            final(output)@ == old(output)@ + spec_caret_line(self@),
    {
        let title = self.kind.title();
        push_char(output, '\n');
        output.append(gutter.as_str());
        output.append(" | ");
        let pad = if self.span.column >= 1 { self.span.column - 1 } else { 0 };
        push_repeat(output, ' ', pad);
        let carets = if self.span.length > 80 {
            80
        } else if self.span.length < 1 {
            1
        } else {
            self.span.length
        };
        push_repeat(output, '^', carets);
        push_char(output, ' ');
        output.append(title);
        output.append(" here");
        push_char(output, '\n');
        output.append(gutter.as_str());
        output.append(" |");
        proof {
            reveal_strlit("\n");
            reveal_strlit(" ");
        }
        assert(output@ =~= old(output)@ + spec_caret_line(self@));
    }

    fn push_help(&self, output: &mut String, gutter: &String)
        requires
            gutter@ == repeat_seq(' ', nat_decimal(self.span.line as nat).len()),
        ensures
            final(output)@ == old(output)@ + spec_help(self@),
    {
        push_char(output, '\n');
        output.append(gutter.as_str());
        output.append(" = help: ");
        match &self.hint {
            Some(h) => output.append(h.as_str()),
            None => output.append(self.kind.default_hint()),
        }
        proof {
            reveal_strlit("\n");
        }
        assert(output@ =~= old(output)@ + spec_help(self@));
    }

    /// The full report for the error in file `filename` whose text is `source`.
    pub fn render(&self, filename: &str, source: &str) -> (out: String)
        ensures
            out@ == spec_render(self@, filename@, source@),
    {
        let mut output = String::new();
        self.push_head(&mut output, filename);
        let label = usize_to_string(self.span.line);
        let mut gutter = String::new();
        push_repeat(&mut gutter, ' ', label.unicode_len());
        assert(gutter@ =~= repeat_seq(' ', nat_decimal(self.span.line as nat).len()));
        let source_chars = chars_of(source);
        let line_index = if self.span.line >= 1 { self.span.line - 1 } else { 0 };
        let found = nth_line_of(&source_chars, line_index);
        match found {
            Some(text) => self.push_excerpt(&mut output, &gutter, &text),
            None => {},
        }
        self.push_help(&mut output, &gutter);
        assert(output@ =~= spec_render(self@, filename@, source@));
        output
    }
}

} // verus!
