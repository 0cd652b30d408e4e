//! The grammar of the scripting dialect: expressions over the state map and
//! assignment statements, read from text into syntax trees.
//!
//! The grammar is given as functions on a sequence of characters; the
//! parsers compute exactly these functions.
//!
//! ```text
//! statements := [ statement { ';' statement } [ ';' ] ]
//! statement  := identifier ( '=' | '+=' | '-=' ) expression
//! expression := binary(0)
//! binary(n)  := binary(n+1) { operator(n) binary(n+1) }      for n < 6
//! binary(6)  := unary
//! unary      := '!' unary | '-' unary | primary
//! primary    := '(' expression ')' | integer | '"' characters '"'
//!             | 'true' | 'false' | identifier
//! ```
//!
//! The operators of level 0 to 5 are `||`; `&&`; `==` `!=`; `<` `<=` `>`
//! `>=`; `+` `-`; `*` `/` `%`. All of them associate to the left.

use vstd::prelude::*;
use vstd::string::StrSliceExecFns;

verus! {

/// Why a script could not be evaluated.
#[derive(Debug, Clone, Copy, PartialEq, Eq, Structural)]
pub enum EvalError {
    /// The text is not of the grammar.
    Syntax,
    /// The right side of `/` or `%` is zero.
    DivisionByZero,
    /// An operator met a value of a kind that it does not take.
    TypeMismatch,
    /// An integer result does not fit in 64 bits.
    Overflow,
}

/// The binary operators, from the lowest precedence to the highest.
#[derive(Debug, Clone, Copy, PartialEq, Eq, Structural)]
pub enum BinaryOp {
    Or,
    And,
    Equal,
    NotEqual,
    Less,
    LessEqual,
    Greater,
    GreaterEqual,
    Add,
    Subtract,
    Multiply,
    Divide,
    Remainder,
}

/// The assignment operators `=`, `+=` and `-=`.
#[derive(Debug, Clone, Copy, PartialEq, Eq, Structural)]
pub enum AssignOp {
    Assign,
    Add,
    Subtract,
}

/// An expression of the scripting dialect.
#[derive(Debug)]
pub enum Expr {
    Boolean(bool),
    Int(i64),
    Text(String),
    Variable(String),
    Not(Box<Expr>),
    Negate(Box<Expr>),
    Binary(BinaryOp, Box<Expr>, Box<Expr>),
}

/// The mathematical content of an [`Expr`].
pub enum ExprView {
    Boolean(bool),
    Int(i64),
    Text(Seq<char>),
    Variable(Seq<char>),
    Not(Box<ExprView>),
    Negate(Box<ExprView>),
    Binary(BinaryOp, Box<ExprView>, Box<ExprView>),
}

/// An assignment statement.
#[derive(Debug)]
pub struct Statement {
    pub target: String,
    pub op: AssignOp,
    pub value: Expr,
}

/// The mathematical content of a [`Statement`].
pub struct StatementView {
    pub target: Seq<char>,
    pub op: AssignOp,
    pub value: ExprView,
}

impl View for Expr {
    type V = ExprView;

    open spec fn view(&self) -> ExprView
        decreases self,
    {
        match self {
            Expr::Boolean(b) => ExprView::Boolean(*b),
            Expr::Int(i) => ExprView::Int(*i),
            Expr::Text(text) => ExprView::Text(text@),
            Expr::Variable(name) => ExprView::Variable(name@),
            Expr::Not(a) => ExprView::Not(Box::new((**a).view())),
            Expr::Negate(a) => ExprView::Negate(Box::new((**a).view())),
            Expr::Binary(op, a, b) => ExprView::Binary(
                *op,
                Box::new((**a).view()),
                Box::new((**b).view()),
            ),
        }
    }
}

impl View for Statement {
    type V = StatementView;

    open spec fn view(&self) -> StatementView {
        StatementView { target: self.target@, op: self.op, value: self.value@ }
    }
}

/// The views of a list of statements, in order.
pub open spec fn statement_views(stmts: Seq<Statement>) -> Seq<StatementView> {
    Seq::new(stmts.len(), |i: int| stmts[i]@)
}

// ---------------------------------------------------------------------
// Characters
// ---------------------------------------------------------------------

/// A set of characters that a scan runs over.
#[derive(Debug, Clone, Copy, PartialEq, Eq, Structural)]
pub enum CharClass {
    /// Blank, tab, line feed, carriage return.
    Space,
    /// `0` to `9`.
    Digit,
    /// What an identifier may hold: ASCII letters, digits, `_` and `.`.
    Ident,
    /// Every character but `"`.
    NotQuote,
}

/// A decimal digit.
pub open spec fn is_digit(c: char) -> bool {
    48 <= c as u32 <= 57
}

/// What an identifier may start with: an ASCII letter or `_`.
pub open spec fn is_ident_start(c: char) -> bool {
    let u = c as u32;
    (65 <= u <= 90) || (97 <= u <= 122) || u == 95
}

/// Whether the character is of the class.
pub open spec fn in_class(c: char, class: CharClass) -> bool {
    match class {
        CharClass::Space => c == ' ' || c == '\t' || c == '\n' || c == '\r',
        CharClass::Digit => is_digit(c),
        CharClass::Ident => is_ident_start(c) || is_digit(c) || c == '.',
        CharClass::NotQuote => c != '"',
    }
}

fn digit(c: char) -> (b: bool)
    ensures
        b == is_digit(c),
{
    let u: u32 = c as u32;
    48 <= u && u <= 57
}

fn ident_start(c: char) -> (b: bool)
    ensures
        b == is_ident_start(c),
{
    let u: u32 = c as u32;
    (65 <= u && u <= 90) || (97 <= u && u <= 122) || u == 95
}

fn char_in_class(c: char, class: CharClass) -> (b: bool)
    ensures
        b == in_class(c, class),
{
    match class {
        CharClass::Space => c == ' ' || c == '\t' || c == '\n' || c == '\r',
        CharClass::Digit => digit(c),
        CharClass::Ident => ident_start(c) || digit(c) || c == '.',
        CharClass::NotQuote => c != '"',
    }
}

/// The first position at or after `pos` whose character is not of `class`,
/// or the length of `s`.
pub open spec fn scan(s: Seq<char>, pos: int, class: CharClass) -> int
    decreases s.len() - pos,
{
    if 0 <= pos < s.len() && in_class(s[pos], class) {
        scan(s, pos + 1, class)
    } else {
        pos
    }
}

/// A scan goes forward, stays in the text, and passes only characters of
/// its class.
pub proof fn lemma_scan(s: Seq<char>, pos: int, class: CharClass)
    requires
        0 <= pos <= s.len(),
    ensures
        pos <= scan(s, pos, class) <= s.len(),
        forall|i: int| pos <= i < scan(s, pos, class) ==> in_class(#[trigger] s[i], class),
        scan(s, pos, class) < s.len() ==> !in_class(s[scan(s, pos, class)], class),
    decreases s.len() - pos,
{
    if pos < s.len() && in_class(s[pos], class) {
        lemma_scan(s, pos + 1, class);
    }
}

fn scan_chars(chars: &Vec<char>, pos: usize, class: CharClass) -> (r: usize)
    requires
        pos <= chars@.len(),
    ensures
        r == scan(chars@, pos as int, class),
        pos <= r <= chars@.len(),
{
    let mut i: usize = pos;
    while i < chars.len() && char_in_class(chars[i], class)
        invariant
            pos <= i <= chars@.len(),
            scan(chars@, pos as int, class) == scan(chars@, i as int, class),
        decreases chars@.len() - i,
    {
        i += 1;
    }
    i
}

/// Whether the character at `pos` is `c`.
pub open spec fn at(s: Seq<char>, pos: int, c: char) -> bool {
    0 <= pos < s.len() && s[pos] == c
}

fn char_at(chars: &Vec<char>, pos: usize, c: char) -> (b: bool)
    ensures
        b == at(chars@, pos as int, c),
        b ==> pos < usize::MAX,
{
    pos < chars.len() && chars[pos] == c
}

/// The number that the digits from `from` up to `to` write in base ten.
pub open spec fn digits_value(s: Seq<char>, from: int, to: int) -> int
    decreases to - from,
{
    if to <= from {
        0
    } else {
        digits_value(s, from, to - 1) * 10 + (s[to - 1] as u32 - 48)
    }
}

proof fn lemma_digits_value_grows(s: Seq<char>, from: int, mid: int, to: int)
    requires
        0 <= from <= mid <= to <= s.len(),
        forall|i: int| from <= i < to ==> is_digit(#[trigger] s[i]),
    ensures
        0 <= digits_value(s, from, mid) <= digits_value(s, from, to),
    decreases to - mid,
{
    if mid == from {
        lemma_digits_value_nonnegative(s, from, to);
    } else if mid < to {
        lemma_digits_value_grows(s, from, mid, to - 1);
        assert(is_digit(s[to - 1]));
    } else {
        lemma_digits_value_nonnegative(s, from, to);
    }
}

proof fn lemma_digits_value_nonnegative(s: Seq<char>, from: int, to: int)
    requires
        0 <= from <= to <= s.len(),
        forall|i: int| from <= i < to ==> is_digit(#[trigger] s[i]),
    ensures
        0 <= digits_value(s, from, to),
    decreases to - from,
{
    if from < to {
        lemma_digits_value_nonnegative(s, from, to - 1);
        assert(is_digit(s[to - 1]));
    }
}

fn read_integer(chars: &Vec<char>, from: usize, to: usize) -> (r: Option<i64>)
    requires
        from <= to <= chars@.len(),
        forall|i: int| from <= i < to ==> is_digit(#[trigger] chars@[i]),
    ensures
        match r {
            Some(v) => v == digits_value(chars@, from as int, to as int),
            None => digits_value(chars@, from as int, to as int) > i64::MAX,
        },
{
    let mut acc: i64 = 0;
    let mut i: usize = from;
    while i < to
        invariant
            from <= i <= to <= chars@.len(),
            forall|k: int| from <= k < to ==> is_digit(#[trigger] chars@[k]),
            acc == digits_value(chars@, from as int, i as int),
            0 <= acc,
        decreases to - i,
    {
        assert(is_digit(chars@[i as int]));
        let d: i64 = (chars[i] as u32 - 48) as i64;
        proof {
            assert(digits_value(chars@, from as int, i + 1) == acc * 10 + d);
            lemma_digits_value_grows(chars@, from as int, i + 1, to as int);
        }
        let next = match acc.checked_mul(10) {
            Some(m) => m.checked_add(d),
            None => None,
        };
        match next {
            Some(n) => {
                acc = n;
            },
            None => {
                return None;
            },
        }
        i += 1;
    }
    Some(acc)
}

/// The word `true`.
pub open spec fn word_true() -> Seq<char> {
    seq!['t', 'r', 'u', 'e']
}

/// The word `false`.
pub open spec fn word_false() -> Seq<char> {
    seq!['f', 'a', 'l', 's', 'e']
}

fn is_word_true(chars: &Vec<char>, from: usize, to: usize) -> (b: bool)
    requires
        from <= to <= chars@.len(),
    ensures
        b == (chars@.subrange(from as int, to as int) == word_true()),
{
    let ghost w = chars@.subrange(from as int, to as int);
    if to - from == 4 && chars[from] == 't' && chars[from + 1] == 'r' && chars[from + 2] == 'u'
        && chars[from + 3] == 'e' {
        assert(w =~= word_true());
        true
    } else {
        assert(w != word_true()) by {
            if w == word_true() {
                assert(w.len() == 4);
                assert(w[0] == 't' && w[1] == 'r' && w[2] == 'u' && w[3] == 'e');
            }
        }
        false
    }
}

fn is_word_false(chars: &Vec<char>, from: usize, to: usize) -> (b: bool)
    requires
        from <= to <= chars@.len(),
    ensures
        b == (chars@.subrange(from as int, to as int) == word_false()),
{
    let ghost w = chars@.subrange(from as int, to as int);
    if to - from == 5 && chars[from] == 'f' && chars[from + 1] == 'a' && chars[from + 2] == 'l'
        && chars[from + 3] == 's' && chars[from + 4] == 'e' {
        assert(w =~= word_false());
        true
    } else {
        assert(w != word_false()) by {
            if w == word_false() {
                assert(w.len() == 5);
                assert(w[0] == 'f' && w[1] == 'a' && w[2] == 'l' && w[3] == 's' && w[4] == 'e');
            }
        }
        false
    }
}

/// The characters of a text, in order.
pub fn chars_of(text: &str) -> (r: Vec<char>)
    ensures
        r@ == text@,
{
    let n = text.unicode_len();
    let mut out: Vec<char> = Vec::new();
    let mut i: usize = 0;
    while i < n
        invariant
            n == text@.len(),
            i <= n,
            out@ == text@.subrange(0, i as int),
        decreases n - i,
    {
        out.push(text.get_char(i));
        assert(out@ =~= text@.subrange(0, i + 1));
        i += 1;
    }
    assert(out@ =~= text@);
    out
}

// ---------------------------------------------------------------------
// The grammar
// ---------------------------------------------------------------------

/// The operator of precedence `level` that starts at `pos`, with its length.
pub open spec fn op_at(s: Seq<char>, pos: int, level: int) -> Option<(BinaryOp, int)> {
    if level == 0 {
        if at(s, pos, '|') && at(s, pos + 1, '|') {
            Some((BinaryOp::Or, 2))
        } else {
            None
        }
    } else if level == 1 {
        if at(s, pos, '&') && at(s, pos + 1, '&') {
            Some((BinaryOp::And, 2))
        } else {
            None
        }
    } else if level == 2 {
        if at(s, pos, '=') && at(s, pos + 1, '=') {
            Some((BinaryOp::Equal, 2))
        } else if at(s, pos, '!') && at(s, pos + 1, '=') {
            Some((BinaryOp::NotEqual, 2))
        } else {
            None
        }
    } else if level == 3 {
        if at(s, pos, '<') {
            if at(s, pos + 1, '=') {
                Some((BinaryOp::LessEqual, 2))
            } else {
                Some((BinaryOp::Less, 1))
            }
        } else if at(s, pos, '>') {
            if at(s, pos + 1, '=') {
                Some((BinaryOp::GreaterEqual, 2))
            } else {
                Some((BinaryOp::Greater, 1))
            }
        } else {
            None
        }
    } else if level == 4 {
        if at(s, pos, '+') {
            Some((BinaryOp::Add, 1))
        } else if at(s, pos, '-') {
            Some((BinaryOp::Subtract, 1))
        } else {
            None
        }
    } else if level == 5 {
        if at(s, pos, '*') {
            Some((BinaryOp::Multiply, 1))
        } else if at(s, pos, '/') {
            Some((BinaryOp::Divide, 1))
        } else if at(s, pos, '%') {
            Some((BinaryOp::Remainder, 1))
        } else {
            None
        }
    } else {
        None
    }
}

fn read_op(chars: &Vec<char>, pos: usize, level: u8) -> (r: Option<(BinaryOp, usize)>)
    requires
        pos <= chars@.len(),
    ensures
        match r {
            Some((op, n)) => op_at(chars@, pos as int, level as int) == Some((op, n as int)) && 1
                <= n && pos + n <= chars@.len() && pos + n <= usize::MAX,
            None => op_at(chars@, pos as int, level as int) is None,
        },
{
    if pos >= chars.len() {
        return None;
    }
    let c: char = chars[pos];
    let next_is_eq = pos + 1 < chars.len() && chars[pos + 1] == '=';
    if level == 0 {
        if c == '|' && pos + 1 < chars.len() && chars[pos + 1] == '|' {
            Some((BinaryOp::Or, 2))
        } else {
            None
        }
    } else if level == 1 {
        if c == '&' && pos + 1 < chars.len() && chars[pos + 1] == '&' {
            Some((BinaryOp::And, 2))
        } else {
            None
        }
    } else if level == 2 {
        if c == '=' && next_is_eq {
            Some((BinaryOp::Equal, 2))
        } else if c == '!' && next_is_eq {
            Some((BinaryOp::NotEqual, 2))
        } else {
            None
        }
    } else if level == 3 {
        if c == '<' {
            if next_is_eq {
                Some((BinaryOp::LessEqual, 2))
            } else {
                Some((BinaryOp::Less, 1))
            }
        } else if c == '>' {
            if next_is_eq {
                Some((BinaryOp::GreaterEqual, 2))
            } else {
                Some((BinaryOp::Greater, 1))
            }
        } else {
            None
        }
    } else if level == 4 {
        if c == '+' {
            Some((BinaryOp::Add, 1))
        } else if c == '-' {
            Some((BinaryOp::Subtract, 1))
        } else {
            None
        }
    } else if level == 5 {
        if c == '*' {
            Some((BinaryOp::Multiply, 1))
        } else if c == '/' {
            Some((BinaryOp::Divide, 1))
        } else if c == '%' {
            Some((BinaryOp::Remainder, 1))
        } else {
            None
        }
    } else {
        None
    }
}

/// An expression whose operators are of precedence `level` or higher, read
/// from `pos`: the tree and the position after it.
pub open spec fn parse_binary(s: Seq<char>, pos: int, level: int) -> Option<(ExprView, int)>
    decreases s.len() - pos, 2 * (6 - level) + 3,
{
    if pos < 0 || pos > s.len() || level < 0 || level > 6 {
        None
    } else if level == 6 {
        parse_unary(s, pos)
    } else {
        match parse_binary(s, pos, level + 1) {
            Some((lhs, p)) => if pos <= p <= s.len() {
                parse_tail(s, p, level, lhs)
            } else {
                None
            },
            None => None,
        }
    }
}

/// What follows a left operand `lhs` that ends at `pos`: operators of
/// precedence `level`, each with its right operand.
pub open spec fn parse_tail(s: Seq<char>, pos: int, level: int, lhs: ExprView) -> Option<
    (ExprView, int),
>
    decreases s.len() - pos, 2 * (6 - level) + 2,
{
    if pos < 0 || pos > s.len() || level < 0 || level >= 6 {
        None
    } else {
        let q = scan(s, pos, CharClass::Space);
        match op_at(s, q, level) {
            None => Some((lhs, pos)),
            Some((op, n)) => if pos <= q && 1 <= n && q + n <= s.len() {
                match parse_binary(s, q + n, level + 1) {
                    Some((rhs, p)) => if q + n <= p <= s.len() {
                        parse_tail(
                            s,
                            p,
                            level,
                            ExprView::Binary(op, Box::new(lhs), Box::new(rhs)),
                        )
                    } else {
                        None
                    },
                    None => None,
                }
            } else {
                None
            },
        }
    }
}

/// A primary expression behind any number of `!` and `-`.
pub open spec fn parse_unary(s: Seq<char>, pos: int) -> Option<(ExprView, int)>
    decreases s.len() - pos, 1int,
{
    if pos < 0 || pos > s.len() {
        None
    } else {
        let q = scan(s, pos, CharClass::Space);
        if q < pos || q > s.len() {
            None
        } else if at(s, q, '!') {
            match parse_unary(s, q + 1) {
                Some((e, p)) => Some((ExprView::Not(Box::new(e)), p)),
                None => None,
            }
        } else if at(s, q, '-') {
            match parse_unary(s, q + 1) {
                Some((e, p)) => Some((ExprView::Negate(Box::new(e)), p)),
                None => None,
            }
        } else {
            parse_primary(s, q)
        }
    }
}

/// A literal, a variable or an expression in parentheses, which starts at `pos`.
pub open spec fn parse_primary(s: Seq<char>, pos: int) -> Option<(ExprView, int)>
    decreases s.len() - pos, 0int,
{
    if pos < 0 || pos >= s.len() {
        None
    } else if s[pos] == '(' {
        match parse_binary(s, pos + 1, 0) {
            Some((e, p)) => {
                let q = scan(s, p, CharClass::Space);
                if at(s, q, ')') {
                    Some((e, q + 1))
                } else {
                    None
                }
            },
            None => None,
        }
    } else if is_digit(s[pos]) {
        let end = scan(s, pos, CharClass::Digit);
        let v = digits_value(s, pos, end);
        if v <= i64::MAX {
            Some((ExprView::Int(v as i64), end))
        } else {
            None
        }
    } else if s[pos] == '"' {
        let end = scan(s, pos + 1, CharClass::NotQuote);
        if end < s.len() {
            Some((ExprView::Text(s.subrange(pos + 1, end)), end + 1))
        } else {
            None
        }
    } else if is_ident_start(s[pos]) {
        let end = scan(s, pos, CharClass::Ident);
        let name = s.subrange(pos, end);
        if name == word_true() {
            Some((ExprView::Boolean(true), end))
        } else if name == word_false() {
            Some((ExprView::Boolean(false), end))
        } else {
            Some((ExprView::Variable(name), end))
        }
    } else {
        None
    }
}

/// The expression that the whole of `s` writes, if it writes one.
pub open spec fn parse_expression(s: Seq<char>) -> Option<ExprView> {
    match parse_binary(s, 0, 0) {
        Some((e, p)) => if scan(s, p, CharClass::Space) >= s.len() {
            Some(e)
        } else {
            None
        },
        None => None,
    }
}

/// The assignment operator that starts at `pos`, with its length.
pub open spec fn assign_op_at(s: Seq<char>, pos: int) -> Option<(AssignOp, int)> {
    if at(s, pos, '=') && !at(s, pos + 1, '=') {
        Some((AssignOp::Assign, 1))
    } else if at(s, pos, '+') && at(s, pos + 1, '=') {
        Some((AssignOp::Add, 2))
    } else if at(s, pos, '-') && at(s, pos + 1, '=') {
        Some((AssignOp::Subtract, 2))
    } else {
        None
    }
}

/// The statement that starts at `pos`, and the position after it.
pub open spec fn parse_statement(s: Seq<char>, pos: int) -> Option<(StatementView, int)> {
    if pos < 0 || pos >= s.len() || !is_ident_start(s[pos]) {
        None
    } else {
        let end = scan(s, pos, CharClass::Ident);
        let name = s.subrange(pos, end);
        let q = scan(s, end, CharClass::Space);
        if name == word_true() || name == word_false() {
            None
        } else {
            match assign_op_at(s, q) {
                Some((op, n)) => match parse_binary(s, q + n, 0) {
                    Some((value, p)) => Some((StatementView { target: name, op, value }, p)),
                    None => None,
                },
                None => None,
            }
        }
    }
}

/// The statements that `s` writes from `pos` to its end.
pub open spec fn parse_statements(s: Seq<char>, pos: int) -> Option<Seq<StatementView>>
    decreases s.len() - pos,
{
    if pos < 0 || pos > s.len() {
        None
    } else {
        let q = scan(s, pos, CharClass::Space);
        if q >= s.len() {
            Some(Seq::empty())
        } else {
            match parse_statement(s, q) {
                Some((st, p)) => {
                    let r = scan(s, p, CharClass::Space);
                    if r >= s.len() {
                        Some(seq![st])
                    } else if s[r] == ';' && pos <= r {
                        match parse_statements(s, r + 1) {
                            Some(rest) => Some(seq![st] + rest),
                            None => None,
                        }
                    } else {
                        None
                    }
                },
                None => None,
            }
        }
    }
}

// ---------------------------------------------------------------------
// The parsers
// ---------------------------------------------------------------------

/// Whether a parser's result is what the grammar gives.
pub open spec fn expr_result_is(
    r: Option<(Expr, usize)>,
    expected: Option<(ExprView, int)>,
) -> bool {
    match r {
        Some((e, p)) => expected == Some((e@, p as int)),
        None => expected is None,
    }
}

fn read_binary(text: &str, chars: &Vec<char>, pos: usize, level: u8) -> (r: Option<(Expr, usize)>)
    requires
        chars@ == text@,
        pos <= chars@.len(),
        level <= 6,
    ensures
        expr_result_is(r, parse_binary(chars@, pos as int, level as int)),
        r matches Some((_, p)) ==> pos <= p <= chars@.len(),
    decreases chars@.len() - pos, 2 * (6 - level) + 3,
{
    if level == 6 {
        return read_unary(text, chars, pos);
    }
    match read_binary(text, chars, pos, level + 1) {
        Some((lhs, p)) => read_tail(text, chars, p, level, lhs),
        None => None,
    }
}

fn read_tail(text: &str, chars: &Vec<char>, pos: usize, level: u8, lhs: Expr) -> (r: Option<
    (Expr, usize),
>)
    requires
        chars@ == text@,
        pos <= chars@.len(),
        level < 6,
    ensures
        expr_result_is(r, parse_tail(chars@, pos as int, level as int, lhs@)),
        r matches Some((_, p)) ==> pos <= p <= chars@.len(),
    decreases chars@.len() - pos, 2 * (6 - level) + 2,
{
    let q = scan_chars(chars, pos, CharClass::Space);
    match read_op(chars, q, level) {
        None => Some((lhs, pos)),
        Some((op, n)) => match read_binary(text, chars, q + n, level + 1) {
            Some((rhs, p)) => read_tail(
                text,
                chars,
                p,
                level,
                Expr::Binary(op, Box::new(lhs), Box::new(rhs)),
            ),
            None => None,
        },
    }
}

fn read_unary(text: &str, chars: &Vec<char>, pos: usize) -> (r: Option<(Expr, usize)>)
    requires
        chars@ == text@,
        pos <= chars@.len(),
    ensures
        expr_result_is(r, parse_unary(chars@, pos as int)),
        r matches Some((_, p)) ==> pos <= p <= chars@.len(),
    decreases chars@.len() - pos, 1int,
{
    let q = scan_chars(chars, pos, CharClass::Space);
    if char_at(chars, q, '!') {
        match read_unary(text, chars, q + 1) {
            Some((e, p)) => Some((Expr::Not(Box::new(e)), p)),
            None => None,
        }
    } else if char_at(chars, q, '-') {
        match read_unary(text, chars, q + 1) {
            Some((e, p)) => Some((Expr::Negate(Box::new(e)), p)),
            None => None,
        }
    } else {
        read_primary(text, chars, q)
    }
}

fn read_primary(text: &str, chars: &Vec<char>, pos: usize) -> (r: Option<(Expr, usize)>)
    requires
        chars@ == text@,
        pos <= chars@.len(),
    ensures
        expr_result_is(r, parse_primary(chars@, pos as int)),
        r matches Some((_, p)) ==> pos <= p <= chars@.len(),
    decreases chars@.len() - pos, 0int,
{
    if pos >= chars.len() {
        return None;
    }
    let c: char = chars[pos];
    if c == '(' {
        match read_binary(text, chars, pos + 1, 0) {
            Some((e, p)) => {
                let q = scan_chars(chars, p, CharClass::Space);
                if char_at(chars, q, ')') {
                    Some((e, q + 1))
                } else {
                    None
                }
            },
            None => None,
        }
    } else if digit(c) {
        let end = scan_chars(chars, pos, CharClass::Digit);
        proof {
            lemma_scan(chars@, pos as int, CharClass::Digit);
        }
        match read_integer(chars, pos, end) {
            Some(v) => Some((Expr::Int(v), end)),
            None => None,
        }
    } else if c == '"' {
        let end = scan_chars(chars, pos + 1, CharClass::NotQuote);
        if end < chars.len() {
            let content = text.substring_char(pos + 1, end).to_owned();
            Some((Expr::Text(content), end + 1))
        } else {
            None
        }
    } else if ident_start(c) {
        let end = scan_chars(chars, pos, CharClass::Ident);
        if is_word_true(chars, pos, end) {
            Some((Expr::Boolean(true), end))
        } else if is_word_false(chars, pos, end) {
            Some((Expr::Boolean(false), end))
        } else {
            let name = text.substring_char(pos, end).to_owned();
            Some((Expr::Variable(name), end))
        }
    } else {
        None
    }
}

/// Reads the expression that the whole of `text` writes.
pub fn read_expression(text: &str) -> (r: Option<Expr>)
    ensures
        match r {
            Some(e) => parse_expression(text@) == Some(e@),
            None => parse_expression(text@) is None,
        },
{
    let chars = chars_of(text);
    match read_binary(text, &chars, 0, 0) {
        Some((e, p)) => {
            let q = scan_chars(&chars, p, CharClass::Space);
            if q >= chars.len() {
                Some(e)
            } else {
                None
            }
        },
        None => None,
    }
}

fn read_assign_op(chars: &Vec<char>, pos: usize) -> (r: Option<(AssignOp, usize)>)
    requires
        pos <= chars@.len(),
    ensures
        match r {
            Some((op, n)) => assign_op_at(chars@, pos as int) == Some((op, n as int)) && pos + n
                <= chars@.len() && pos + n <= usize::MAX,
            None => assign_op_at(chars@, pos as int) is None,
        },
{
    let next_is_eq = pos < chars.len() && char_at(chars, pos + 1, '=');
    if char_at(chars, pos, '=') && !next_is_eq {
        Some((AssignOp::Assign, 1))
    } else if char_at(chars, pos, '+') && next_is_eq {
        Some((AssignOp::Add, 2))
    } else if char_at(chars, pos, '-') && next_is_eq {
        Some((AssignOp::Subtract, 2))
    } else {
        None
    }
}

fn read_statement(text: &str, chars: &Vec<char>, pos: usize) -> (r: Option<(Statement, usize)>)
    requires
        chars@ == text@,
        pos <= chars@.len(),
    ensures
        match r {
            Some((st, p)) => parse_statement(chars@, pos as int) == Some((st@, p as int)) && pos
                <= p <= chars@.len(),
            None => parse_statement(chars@, pos as int) is None,
        },
{
    if pos >= chars.len() || !ident_start(chars[pos]) {
        return None;
    }
    let end = scan_chars(chars, pos, CharClass::Ident);
    let q = scan_chars(chars, end, CharClass::Space);
    if is_word_true(chars, pos, end) || is_word_false(chars, pos, end) {
        return None;
    }
    match read_assign_op(chars, q) {
        Some((op, n)) => match read_binary(text, chars, q + n, 0) {
            Some((value, p)) => {
                let target = text.substring_char(pos, end).to_owned();
                Some((Statement { target, op, value }, p))
            },
            None => None,
        },
        None => None,
    }
}

/// Reads the statements that the whole of `text` writes.
pub fn read_statements(text: &str) -> (r: Option<Vec<Statement>>)
    ensures
        match r {
            Some(stmts) => parse_statements(text@, 0) == Some(statement_views(stmts@)),
            None => parse_statements(text@, 0) is None,
        },
{
    let chars = chars_of(text);
    let mut out: Vec<Statement> = Vec::new();
    let mut pos: usize = 0;
    loop
        invariant
            chars@ == text@,
            pos <= chars@.len(),
            match parse_statements(chars@, pos as int) {
                Some(rest) => parse_statements(chars@, 0) == Some(statement_views(out@) + rest),
                None => parse_statements(chars@, 0) is None,
            },
        decreases chars@.len() - pos,
    {
        let q = scan_chars(&chars, pos, CharClass::Space);
        if q >= chars.len() {
            assert(statement_views(out@) + Seq::<StatementView>::empty() =~= statement_views(
                out@,
            ));
            return Some(out);
        }
        match read_statement(text, &chars, q) {
            Some((st, p)) => {
                let r = scan_chars(&chars, p, CharClass::Space);
                let ghost before = statement_views(out@);
                let ghost stv = st@;
                out.push(st);
                assert(statement_views(out@) =~= before + seq![stv]);
                if r >= chars.len() {
                    return Some(out);
                } else if chars[r] == ';' {
                    proof {
                        match parse_statements(chars@, r + 1) {
                            Some(rest) => {
                                assert(before + (seq![stv] + rest) =~= (before + seq![stv])
                                    + rest);
                            },
                            None => {},
                        }
                    }
                    pos = r + 1;
                } else {
                    return None;
                }
            },
            None => {
                return None;
            },
        }
    }
}

} // verus!
