//! Lexical analysis: a finite-state scanner that turns raw text into a flat
//! sequence of tokens, validating expression syntax and parenthesis balance.
//!
//! The scanner's behaviour is captured by the spec-level state machine
//! [`lex_step`] / [`lex_from`]: [`Tokenizer::tokenize`] is proved to return
//! exactly what that machine computes on the view of its input.

use crate::float32::f32_of_str;
use crate::float32::parse_f32_bits;
use crate::float32::string_push;
use vstd::prelude::*;
use vstd::string::StrSliceExecFns;
use vstd::string::StringExecFns;

verus! {

/// One lexical unit of an expression. A numeric literal is carried as the
/// 32-bit IEEE bit pattern of its single-precision value.
#[derive(Debug)]
pub enum Token {
    Value(u32),
    Variable(String),
    /// `true`: open, `false`: closed.
    Parenthesis(bool),
    Operator(char),
}

/// The mathematical shadow of [`Token`]: variable names as character sequences.
pub enum TokenView {
    Value(u32),
    Variable(Seq<char>),
    Parenthesis(bool),
    Operator(char),
}

impl View for Token {
    type V = TokenView;

    open spec fn view(&self) -> TokenView {
        match self {
            Token::Value(bits) => TokenView::Value(*bits),
            Token::Variable(name) => TokenView::Variable(name@),
            Token::Parenthesis(open) => TokenView::Parenthesis(*open),
            Token::Operator(symbol) => TokenView::Operator(*symbol),
        }
    }
}

/// The view of a token sequence.
pub open spec fn token_views(tokens: Seq<Token>) -> Seq<TokenView> {
    tokens.map_values(|t: Token| t@)
}

impl PartialEq for Token {
    /// Two tokens are equal when they are the same kind and carry the same
    /// payload; variable names compare by their characters.
    fn eq(&self, other: &Token) -> (r: bool) {
        match (self, other) {
            (Token::Value(a), Token::Value(b)) => *a == *b,
            (Token::Variable(a), Token::Variable(b)) => a.eq(b),
            (Token::Parenthesis(a), Token::Parenthesis(b)) => *a == *b,
            (Token::Operator(a), Token::Operator(b)) => *a == *b,
            _ => false,
        }
    }
}

impl vstd::std_specs::cmp::PartialEqSpecImpl for Token {
    open spec fn obeys_eq_spec() -> bool {
        true
    }

    open spec fn eq_spec(&self, other: &Token) -> bool {
        self@ == other@
    }
}

/// A lexical fault, carrying the character offset where scanning failed.
#[derive(Debug)]
pub enum TokenizerError {
    UnmatchedParenthesis(usize),
    UnexpectedParenthesis(usize),
    UnexpectedDot(usize),
    UnexpectedOperator(usize),
    TooManyDots(usize),
    InvalidCharacter(usize),
    InternalError(usize, String),
}

/// The mathematical shadow of [`TokenizerError`].
pub enum TokenizerErrorView {
    UnmatchedParenthesis(int),
    UnexpectedParenthesis(int),
    UnexpectedDot(int),
    UnexpectedOperator(int),
    TooManyDots(int),
    InvalidCharacter(int),
    InternalError(int, Seq<char>),
}

impl View for TokenizerError {
    type V = TokenizerErrorView;

    open spec fn view(&self) -> TokenizerErrorView {
        match self {
            TokenizerError::UnmatchedParenthesis(pos) => TokenizerErrorView::UnmatchedParenthesis(
                *pos as int,
            ),
            TokenizerError::UnexpectedParenthesis(pos) => TokenizerErrorView::UnexpectedParenthesis(
                *pos as int,
            ),
            TokenizerError::UnexpectedDot(pos) => TokenizerErrorView::UnexpectedDot(*pos as int),
            TokenizerError::UnexpectedOperator(pos) => TokenizerErrorView::UnexpectedOperator(
                *pos as int,
            ),
            TokenizerError::TooManyDots(pos) => TokenizerErrorView::TooManyDots(*pos as int),
            TokenizerError::InvalidCharacter(pos) => TokenizerErrorView::InvalidCharacter(
                *pos as int,
            ),
            TokenizerError::InternalError(pos, message) => TokenizerErrorView::InternalError(
                *pos as int,
                message@,
            ),
        }
    }
}

/// The scanner's control state: which kind of lexeme is being accumulated,
/// or the fault that has been recorded and is about to be reported.
#[derive(Debug)]
pub enum TokenizerState {
    Initial,
    NumberBeforeDot,
    NumberAfterDot,
    VariableName,
    Error(TokenizerError),
}

/// The mathematical shadow of [`TokenizerState`].
pub enum TokenizerStateView {
    Initial,
    NumberBeforeDot,
    NumberAfterDot,
    VariableName,
    Error(TokenizerErrorView),
}

impl View for TokenizerState {
    type V = TokenizerStateView;

    open spec fn view(&self) -> TokenizerStateView {
        match self {
            TokenizerState::Initial => TokenizerStateView::Initial,
            TokenizerState::NumberBeforeDot => TokenizerStateView::NumberBeforeDot,
            TokenizerState::NumberAfterDot => TokenizerStateView::NumberAfterDot,
            TokenizerState::VariableName => TokenizerStateView::VariableName,
            TokenizerState::Error(e) => TokenizerStateView::Error(e@),
        }
    }
}

/// Whether `c` is a decimal digit.
pub open spec fn is_digit(c: char) -> bool {
    '0' <= c <= '9'
}

/// Whether `c` is an ASCII letter.
pub open spec fn is_letter(c: char) -> bool {
    ('a' <= c <= 'z') || ('A' <= c <= 'Z')
}

/// Whether `c` is one of the six operator symbols the engine knows.
pub open spec fn is_operator_symbol(c: char) -> bool {
    c == '+' || c == '-' || c == '*' || c == '/' || c == '>' || c == '<'
}

/// The token an accumulated lexeme flushes to: a `Value` if the float parser
/// accepts the characters, otherwise a `Variable` named by them verbatim.
pub open spec fn flush_token(buffer: Seq<char>) -> TokenView {
    match f32_of_str(buffer) {
        Some(bits) => TokenView::Value(bits),
        None => TokenView::Variable(buffer),
    }
}

/// The scanner's full configuration between two characters: control state,
/// accumulated lexeme, parenthesis depth, and the tokens emitted so far.
pub struct LexAcc {
    pub state: TokenizerStateView,
    pub buffer: Seq<char>,
    pub depth: int,
    pub toks: Seq<TokenView>,
}

/// The configuration scanning starts from.
pub open spec fn lex_init() -> LexAcc {
    LexAcc {
        state: TokenizerStateView::Initial,
        buffer: Seq::empty(),
        depth: 0,
        toks: Seq::empty(),
    }
}

/// One step of the scanner on character `c` at offset `i`: either the next
/// configuration, or the fault that ends the scan at this very character.
///
/// A blank is skipped in every state. A closing parenthesis at depth zero
/// aborts at once with `UnmatchedParenthesis`, whatever the state. A fault
/// recorded in the state is reported when the next non-blank character is
/// reached. All other transitions record the next state; a fault they record
/// is reported one character later.
///
/// An operator right after another operator is an `UnexpectedOperator`; so
/// is an operator before any token has been emitted, unless it is the minus,
/// the one symbol admitted in unary position.
pub open spec fn lex_step(c: char, i: int, acc: LexAcc) -> Result<LexAcc, TokenizerErrorView> {
    if c == ' ' {
        Ok(acc)
    } else if c == ')' && acc.depth == 0 {
        Err(TokenizerErrorView::UnmatchedParenthesis(i))
    } else {
        match acc.state {
            TokenizerStateView::Error(e) => Err(e),
            TokenizerStateView::Initial => {
                if is_digit(c) {
                    Ok(LexAcc { state: TokenizerStateView::NumberBeforeDot, buffer: acc.buffer.push(c), ..acc })
                } else if is_letter(c) {
                    Ok(LexAcc { state: TokenizerStateView::VariableName, buffer: acc.buffer.push(c), ..acc })
                } else if is_operator_symbol(c) {
                    if acc.toks.len() > 0 && acc.toks.last() is Operator {
                        Ok(LexAcc { state: TokenizerStateView::Error(TokenizerErrorView::UnexpectedOperator(i)), ..acc })
                    } else if acc.toks.len() == 0 && c != '-' {
                        Ok(LexAcc { state: TokenizerStateView::Error(TokenizerErrorView::UnexpectedOperator(i)), ..acc })
                    } else {
                        Ok(LexAcc { state: TokenizerStateView::Initial, toks: acc.toks.push(TokenView::Operator(c)), ..acc })
                    }
                } else if c == '(' {
                    Ok(LexAcc {
                        state: TokenizerStateView::Initial,
                        depth: acc.depth + 1,
                        toks: acc.toks.push(TokenView::Parenthesis(true)),
                        ..acc
                    })
                } else if c == ')' {
                    Ok(LexAcc {
                        state: TokenizerStateView::Initial,
                        depth: acc.depth - 1,
                        toks: acc.toks.push(TokenView::Parenthesis(false)),
                        ..acc
                    })
                } else if c == '.' {
                    Ok(LexAcc { state: TokenizerStateView::Error(TokenizerErrorView::UnexpectedDot(i)), ..acc })
                } else {
                    Ok(LexAcc { state: TokenizerStateView::Error(TokenizerErrorView::InvalidCharacter(i)), ..acc })
                }
            },
            TokenizerStateView::NumberBeforeDot => {
                if is_digit(c) {
                    Ok(LexAcc { buffer: acc.buffer.push(c), ..acc })
                } else if is_operator_symbol(c) {
                    Ok(LexAcc {
                        state: TokenizerStateView::Initial,
                        buffer: Seq::empty(),
                        toks: acc.toks.push(flush_token(acc.buffer)).push(TokenView::Operator(c)),
                        ..acc
                    })
                } else if c == ')' {
                    Ok(LexAcc {
                        state: TokenizerStateView::Initial,
                        buffer: Seq::empty(),
                        depth: acc.depth - 1,
                        toks: acc.toks.push(flush_token(acc.buffer)).push(TokenView::Parenthesis(false)),
                    })
                } else if c == '(' {
                    Ok(LexAcc { state: TokenizerStateView::Error(TokenizerErrorView::UnexpectedParenthesis(i)), ..acc })
                } else if c == '.' {
                    Ok(LexAcc { state: TokenizerStateView::NumberAfterDot, buffer: acc.buffer.push(c), ..acc })
                } else {
                    Ok(LexAcc { state: TokenizerStateView::Error(TokenizerErrorView::InvalidCharacter(i)), ..acc })
                }
            },
            TokenizerStateView::NumberAfterDot => {
                if is_digit(c) {
                    Ok(LexAcc { buffer: acc.buffer.push(c), ..acc })
                } else if is_operator_symbol(c) {
                    Ok(LexAcc {
                        state: TokenizerStateView::Initial,
                        buffer: Seq::empty(),
                        toks: acc.toks.push(flush_token(acc.buffer)).push(TokenView::Operator(c)),
                        ..acc
                    })
                } else if c == ')' {
                    Ok(LexAcc {
                        state: TokenizerStateView::Initial,
                        buffer: Seq::empty(),
                        depth: acc.depth - 1,
                        toks: acc.toks.push(flush_token(acc.buffer)).push(TokenView::Parenthesis(false)),
                    })
                } else if c == '(' {
                    Ok(LexAcc { state: TokenizerStateView::Error(TokenizerErrorView::UnexpectedParenthesis(i)), ..acc })
                } else if c == '.' {
                    Ok(LexAcc { state: TokenizerStateView::Error(TokenizerErrorView::TooManyDots(i)), ..acc })
                } else {
                    Ok(LexAcc { state: TokenizerStateView::Error(TokenizerErrorView::InvalidCharacter(i)), ..acc })
                }
            },
            TokenizerStateView::VariableName => {
                if is_digit(c) || is_letter(c) {
                    Ok(LexAcc { buffer: acc.buffer.push(c), ..acc })
                } else if is_operator_symbol(c) {
                    Ok(LexAcc {
                        state: TokenizerStateView::Initial,
                        buffer: Seq::empty(),
                        toks: acc.toks.push(flush_token(acc.buffer)).push(TokenView::Operator(c)),
                        ..acc
                    })
                } else if c == ')' {
                    Ok(LexAcc {
                        state: TokenizerStateView::Initial,
                        buffer: Seq::empty(),
                        depth: acc.depth - 1,
                        toks: acc.toks.push(flush_token(acc.buffer)).push(TokenView::Parenthesis(false)),
                    })
                } else if c == '(' {
                    Ok(LexAcc { state: TokenizerStateView::Error(TokenizerErrorView::UnexpectedParenthesis(i)), ..acc })
                } else if c == '.' {
                    Ok(LexAcc { state: TokenizerStateView::Error(TokenizerErrorView::UnexpectedDot(i)), ..acc })
                } else {
                    Ok(LexAcc { state: TokenizerStateView::Error(TokenizerErrorView::InvalidCharacter(i)), ..acc })
                }
            },
        }
    }
}

/// End of input: a recorded fault is reported; otherwise a pending lexeme is
/// flushed, and a depth left unclosed is an `UnmatchedParenthesis` at the
/// end-of-input offset.
pub open spec fn lex_finish(acc: LexAcc, end: int) -> Result<Seq<TokenView>, TokenizerErrorView> {
    match acc.state {
        TokenizerStateView::Error(e) => Err(e),
        _ => {
            let flushed = if acc.buffer.len() == 0 {
                acc.toks
            } else {
                acc.toks.push(flush_token(acc.buffer))
            };
            if acc.depth != 0 {
                Err(TokenizerErrorView::UnmatchedParenthesis(end))
            } else {
                Ok(flushed)
            }
        },
    }
}

/// The scan of `s` from offset `i` onward, starting in configuration `acc`.
pub open spec fn lex_from(s: Seq<char>, i: int, acc: LexAcc) -> Result<
    Seq<TokenView>,
    TokenizerErrorView,
>
    decreases s.len() - i,
{
    if i >= s.len() {
        lex_finish(acc, s.len() as int)
    } else {
        match lex_step(s[i], i, acc) {
            Ok(next) => lex_from(s, i + 1, next),
            Err(e) => Err(e),
        }
    }
}

/// What tokenizing a character sequence yields: the token sequence, or the
/// first lexical fault.
pub open spec fn spec_tokenize(s: Seq<char>) -> Result<Seq<TokenView>, TokenizerErrorView> {
    lex_from(s, 0, lex_init())
}

/// The view of a tokenizer result.
pub open spec fn tokenize_result_view(r: Result<Vec<Token>, TokenizerError>) -> Result<
    Seq<TokenView>,
    TokenizerErrorView,
> {
    match r {
        Ok(tokens) => Ok(token_views(tokens@)),
        Err(e) => Err(e@),
    }
}

/// What a token adds to the running parenthesis depth.
pub open spec fn paren_delta(t: TokenView) -> int {
    match t {
        TokenView::Parenthesis(open) => if open {
            1
        } else {
            -1
        },
        _ => 0,
    }
}

/// The parenthesis depth after the first `k` tokens.
pub open spec fn depth_after(toks: Seq<TokenView>, k: int) -> int
    decreases k,
{
    if k <= 0 {
        0
    } else {
        depth_after(toks, k - 1) + paren_delta(toks[k - 1])
    }
}

/// Whether the parenthesis tokens of a sequence are balanced: the running
/// depth never drops below zero and ends at zero.
pub open spec fn balanced(toks: Seq<TokenView>) -> bool {
    &&& forall|k: int| 0 <= k <= toks.len() ==> depth_after(toks, k) >= 0
    &&& depth_after(toks, toks.len() as int) == 0
}

/// Appending a token does not change the depth after any earlier prefix.
proof fn lemma_depth_after_push(toks: Seq<TokenView>, t: TokenView, k: int)
    requires
        0 <= k <= toks.len(),
    ensures
        depth_after(toks.push(t), k) == depth_after(toks, k),
    decreases k,
{
    if k > 0 {
        lemma_depth_after_push(toks, t, k - 1);
        assert(toks.push(t)[k - 1] == toks[k - 1]);
    }
}

/// Appending a token to a sequence whose prefix depths are all nonnegative
/// keeps them nonnegative, provided the new final depth is too; the final
/// depth moves by the token's own delta.
proof fn lemma_balance_push(toks: Seq<TokenView>, t: TokenView, d: int)
    requires
        depth_after(toks, toks.len() as int) == d,
        forall|k: int| 0 <= k <= toks.len() ==> depth_after(toks, k) >= 0,
        d + paren_delta(t) >= 0,
    ensures
        depth_after(toks.push(t), toks.push(t).len() as int) == d + paren_delta(t),
        forall|k: int| 0 <= k <= toks.push(t).len() ==> depth_after(toks.push(t), k) >= 0,
{
    assert forall|k: int| 0 <= k <= toks.push(t).len() implies depth_after(toks.push(t), k)
        >= 0 by {
        if k <= toks.len() {
            lemma_depth_after_push(toks, t, k);
        } else {
            lemma_depth_after_push(toks, t, k - 1);
            assert(toks.push(t)[k - 1] == t);
        }
    }
    lemma_depth_after_push(toks, t, toks.len() as int);
    assert(toks.push(t)[toks.len() as int] == t);
}

/// The induction behind [`lemma_tokenize_balanced`]: every configuration the
/// scan passes through keeps its emitted tokens prefix-nonnegative with a
/// final depth equal to the depth counter, which never goes negative; a scan
/// that ends well therefore ends balanced.
proof fn lemma_lex_balanced(s: Seq<char>, i: int, acc: LexAcc)
    requires
        acc.depth >= 0,
        depth_after(acc.toks, acc.toks.len() as int) == acc.depth,
        forall|k: int| 0 <= k <= acc.toks.len() ==> depth_after(acc.toks, k) >= 0,
    ensures
        lex_from(s, i, acc) matches Ok(toks) ==> balanced(toks),
    decreases s.len() - i,
{
    if i >= s.len() {
        if !(acc.state is Error) && acc.buffer.len() > 0 && acc.depth == 0 {
            lemma_balance_push(acc.toks, flush_token(acc.buffer), acc.depth);
        }
    } else {
        match lex_step(s[i], i, acc) {
            Err(_) => {},
            Ok(next) => {
                let c = s[i];
                if c == ' ' {
                } else {
                    match acc.state {
                        TokenizerStateView::Error(_) => {},
                        TokenizerStateView::Initial => {
                            if is_digit(c) || is_letter(c) {
                            } else if is_operator_symbol(c) {
                                if !(acc.toks.len() > 0 && acc.toks.last() is Operator) && !(
                                acc.toks.len() == 0 && c != '-') {
                                    lemma_balance_push(
                                        acc.toks,
                                        TokenView::Operator(c),
                                        acc.depth,
                                    );
                                }
                            } else if c == '(' {
                                lemma_balance_push(acc.toks, TokenView::Parenthesis(true), acc.depth);
                            } else if c == ')' {
                                lemma_balance_push(
                                    acc.toks,
                                    TokenView::Parenthesis(false),
                                    acc.depth,
                                );
                            }
                        },
                        _ => {
                            if is_digit(c) || (acc.state is VariableName && is_letter(c)) {
                            } else if is_operator_symbol(c) {
                                lemma_balance_push(acc.toks, flush_token(acc.buffer), acc.depth);
                                lemma_balance_push(
                                    acc.toks.push(flush_token(acc.buffer)),
                                    TokenView::Operator(c),
                                    acc.depth,
                                );
                            } else if c == ')' {
                                lemma_balance_push(acc.toks, flush_token(acc.buffer), acc.depth);
                                lemma_balance_push(
                                    acc.toks.push(flush_token(acc.buffer)),
                                    TokenView::Parenthesis(false),
                                    acc.depth,
                                );
                            }
                        },
                    }
                }
                lemma_lex_balanced(s, i + 1, next);
            },
        }
    }
}

/// Whatever text tokenizes successfully yields a token sequence whose
/// parenthesis tokens are balanced; every token of it is, by the shape of
/// [`TokenView`] itself, a value, a variable, an operator or a parenthesis.
pub proof fn lemma_tokenize_balanced(s: Seq<char>)
    ensures
        spec_tokenize(s) matches Ok(toks) ==> balanced(toks),
{
    lemma_lex_balanced(s, 0, lex_init());
}

/// The index of the last non-blank character before `i`, or -1 when none.
pub open spec fn prev_sig(s: Seq<char>, i: int) -> int
    decreases i,
{
    if i <= 0 {
        -1
    } else if s[i - 1] == ' ' {
        prev_sig(s, i - 1)
    } else {
        i - 1
    }
}

/// Whether `c` can stand inside a lexeme being accumulated.
pub open spec fn is_word_char(c: char) -> bool {
    is_digit(c) || is_letter(c) || c == '.'
}

/// Where the lexeme run reaching up to position `i` begins: the chain of
/// non-blank word characters is followed backwards to its first member.
/// Blanks do not end a run — the scanner skips them without flushing.
pub open spec fn run_start(s: Seq<char>, i: int) -> int
    decreases i,
    via run_start_decreases
{
    let p = prev_sig(s, i);
    if p < 0 || !is_word_char(s[p]) {
        i
    } else {
        run_start(s, p)
    }
}

#[via_fn]
proof fn run_start_decreases(s: Seq<char>, i: int) {
    if i > 0 {
        lemma_prev_sig_bounds(s, i);
    }
}

/// The parenthesis depth of the first `i` characters of the text.
pub open spec fn text_depth(s: Seq<char>, i: int) -> int
    decreases i,
{
    if i <= 0 {
        0
    } else {
        text_depth(s, i - 1) + (if s[i - 1] == '(' {
            1
        } else if s[i - 1] == ')' {
            -1
        } else {
            0
        })
    }
}

/// Whether a dot stands anywhere in `s[lo..hi)`.
pub open spec fn has_dot(s: Seq<char>, lo: int, hi: int) -> bool {
    exists|k: int| lo <= k < hi && s[k] == '.'
}

/// What it is for raw text to be a well-formed expression, stated over the
/// characters alone: only blanks, digits, ASCII letters, the six operator
/// symbols, parentheses and dots occur; parentheses are balanced, no prefix
/// closing more than it opened; no two operators are adjacent (blanks
/// ignored), and an operator before everything else is the minus; no opening
/// parenthesis touches the end of a number or identifier (no implicit
/// multiplication); every dot continues a number run that has none yet; and
/// no letter continues a number run.
pub open spec fn valid_expression_text(s: Seq<char>) -> bool {
    &&& forall|j: int|
        0 <= j < s.len() ==> ((#[trigger] s[j]) == ' ' || is_digit(s[j]) || is_letter(s[j])
            || is_operator_symbol(s[j]) || s[j] == '(' || s[j] == ')' || s[j] == '.')
    &&& forall|j: int| 0 <= j < s.len() && (#[trigger] s[j]) == ')' ==> text_depth(s, j) >= 1
    &&& text_depth(s, s.len() as int) == 0
    &&& forall|j: int|
        0 <= j < s.len() && is_operator_symbol(#[trigger] s[j]) ==> {
            let p = prev_sig(s, j);
            &&& (p >= 0 ==> !is_operator_symbol(s[p]))
            &&& (p < 0 ==> s[j] == '-')
        }
    &&& forall|j: int|
        0 <= j < s.len() && (#[trigger] s[j]) == '(' ==> {
            let p = prev_sig(s, j);
            p < 0 || !is_word_char(s[p])
        }
    &&& forall|j: int|
        0 <= j < s.len() && (#[trigger] s[j]) == '.' ==> {
            let p = prev_sig(s, j);
            &&& p >= 0 && is_word_char(s[p])
            &&& is_digit(s[run_start(s, j)])
            &&& !has_dot(s, run_start(s, j), j)
        }
    &&& forall|j: int|
        0 <= j < s.len() && is_letter(#[trigger] s[j]) ==> {
            let p = prev_sig(s, j);
            p < 0 || !is_word_char(s[p]) || !is_digit(s[run_start(s, j)])
        }
}

/// The relation the acceptance induction maintains between the scanned
/// prefix and the scanner's configuration: no fault recorded; the depth
/// counter is the prefix's parenthesis depth; outside a run the state is
/// `Initial` and the last emitted token is an operator exactly when the last
/// significant character is one; inside a run the state names the run's
/// kind.
spec fn scan_invariant(s: Seq<char>, i: int, acc: LexAcc) -> bool {
    let p = prev_sig(s, i);
    &&& !(acc.state is Error)
    &&& acc.depth == text_depth(s, i)
    &&& if p < 0 || !is_word_char(s[p]) {
        &&& acc.state is Initial
        &&& (acc.toks.len() == 0 <==> p < 0)
        &&& (acc.toks.len() > 0 ==> (acc.toks.last() is Operator <==> is_operator_symbol(s[p])))
    } else {
        let r = run_start(s, i);
        &&& (acc.state is NumberBeforeDot || acc.state is NumberAfterDot
            || acc.state is VariableName)
        &&& (acc.state is NumberBeforeDot <==> is_digit(s[r]) && !has_dot(s, r, i))
        &&& (acc.state is NumberAfterDot <==> is_digit(s[r]) && has_dot(s, r, i))
        &&& (acc.state is VariableName <==> is_letter(s[r]))
    }
}

/// The last significant index before `i` lies before `i`, when it exists.
proof fn lemma_prev_sig_bounds(s: Seq<char>, i: int)
    requires
        i >= 0,
    ensures
        -1 <= prev_sig(s, i) < i,
    decreases i,
{
    if i > 0 && s[i - 1] == ' ' {
        lemma_prev_sig_bounds(s, i - 1);
    }
}

/// A run begins at or before the position it reaches.
proof fn lemma_run_start_le(s: Seq<char>, i: int)
    requires
        i >= 0,
    ensures
        0 <= run_start(s, i) <= i,
    decreases i,
{
    lemma_prev_sig_bounds(s, i);
    let p = prev_sig(s, i);
    if !(p < 0 || !is_word_char(s[p])) {
        lemma_run_start_le(s, p);
    }
}

/// One step of [`lemma_tokenize_accepts_valid`]'s induction: on valid text
/// the scanner's step at `i` records no fault and keeps [`scan_invariant`].
#[verifier::rlimit(100)]
#[verifier::spinoff_prover]
proof fn lemma_scan_step(s: Seq<char>, i: int, acc: LexAcc)
    requires
        valid_expression_text(s),
        0 <= i < s.len(),
        scan_invariant(s, i, acc),
    ensures
        lex_step(s[i], i, acc) matches Ok(next) && scan_invariant(s, i + 1, next),
{
    let c = s[i];
    let p = prev_sig(s, i);
    lemma_prev_sig_bounds(s, i);
    assert(prev_sig(s, i + 1) == if c == ' ' {
        p
    } else {
        i
    });
    assert(text_depth(s, i + 1) == text_depth(s, i) + (if c == '(' {
        1int
    } else if c == ')' {
        -1int
    } else {
        0int
    }));

    let in_run = p >= 0 && is_word_char(s[p]);
    if in_run {
        lemma_run_start_le(s, i);
        let r = run_start(s, i);
        // The dot validity clause keeps a dot from ever starting a run, so a
        // run starts with a digit or a letter, and the state is one of the
        // three accumulating ones (part of the invariant).
        if c == ' ' {
            assert(run_start(s, i + 1) == run_start(s, i));
            assert(has_dot(s, r, i + 1) == has_dot(s, r, i)) by {
                if has_dot(s, r, i + 1) {
                    let k = choose|k: int| r <= k < i + 1 && s[k] == '.';
                    assert(r <= k < i && s[k] == '.');
                }
            }
        } else if is_word_char(c) {
            assert(run_start(s, i + 1) == run_start(s, i));
            assert(has_dot(s, r, i + 1) == (has_dot(s, r, i) || c == '.')) by {
                if c == '.' {
                    assert(r <= i < i + 1 && s[i] == '.');
                }
                if has_dot(s, r, i + 1) && c != '.' {
                    let k = choose|k: int| r <= k < i + 1 && s[k] == '.';
                    assert(r <= k < i && s[k] == '.');
                }
            }
            if c == '.' {
                // Only a dotless number run can take a dot.
                assert(is_digit(s[run_start(s, i)]) && !has_dot(s, run_start(s, i), i));
                assert(acc.state is NumberBeforeDot);
            }
            if is_letter(c) {
                // A letter never continues a number run.
                assert(!is_digit(s[run_start(s, i)]));
                assert(acc.state is VariableName);
            }
        } else if c == ')' {
            // The balance clause keeps the depth positive here.
            assert(text_depth(s, i) >= 1);
        } else if c == '(' {
            // The no-implicit-multiplication clause forbids this.
            assert(p < 0 || !is_word_char(s[p]));
            assert(false);
        }
    } else {
        // No run is accumulating: the state is Initial.
        if c == ' ' {
        } else if is_word_char(c) {
            assert(run_start(s, i) == i);
            assert(run_start(s, i + 1) == run_start(s, i));
            assert(has_dot(s, i, i + 1) == (c == '.')) by {
                if c == '.' {
                    assert(i <= i < i + 1 && s[i] == '.');
                }
            }
            if c == '.' {
                // A dot cannot open a run.
                assert(p >= 0 && is_word_char(s[p]));
                assert(false);
            }
        } else if is_operator_symbol(c) {
            // The operator clauses rule out both faulting subcases.
            assert(p >= 0 ==> !is_operator_symbol(s[p]));
            assert(p < 0 ==> c == '-');
        } else if c == ')' {
            assert(text_depth(s, i) >= 1);
        }
    }
}

/// The induction behind [`lemma_tokenize_accepts_valid`]: on valid text no
/// step of the scan records a fault, so the scan runs to the end, and the
/// final depth is zero.
proof fn lemma_lex_accepts(s: Seq<char>, i: int, acc: LexAcc)
    requires
        valid_expression_text(s),
        0 <= i <= s.len(),
        scan_invariant(s, i, acc),
    ensures
        lex_from(s, i, acc) is Ok,
    decreases s.len() - i,
{
    if i >= s.len() {
        assert(text_depth(s, i) == 0);
    } else {
        lemma_scan_step(s, i, acc);
        match lex_step(s[i], i, acc) {
            Ok(next) => {
                lemma_lex_accepts(s, i + 1, next);
            },
            Err(_) => {
                assert(false);
            },
        }
    }
}

/// Every valid expression text tokenizes successfully: balanced text over
/// the expression alphabet, with no adjacent operators, no leading operator
/// but the minus, no implicit multiplication, at most one dot per number and
/// no dot or digit-led letter outside one, is accepted by the scanner.
pub proof fn lemma_tokenize_accepts_valid(s: Seq<char>)
    requires
        valid_expression_text(s),
    ensures
        spec_tokenize(s) is Ok,
{
    lemma_lex_accepts(s, 0, lex_init());
}

/// Whether no two operator tokens stand next to each other.
pub open spec fn no_adjacent_operators(toks: Seq<TokenView>) -> bool {
    forall|j: int|
        0 <= j < toks.len() - 1 ==> !((#[trigger] toks[j]) is Operator && toks[j + 1] is Operator)
}

/// Appending any token after a non-operator end — or a non-operator token
/// after anything — creates no adjacent operator pair.
proof fn lemma_no_adjacent_push(toks: Seq<TokenView>, t: TokenView)
    requires
        no_adjacent_operators(toks),
        t is Operator ==> !(toks.len() > 0 && toks.last() is Operator),
    ensures
        no_adjacent_operators(toks.push(t)),
{
    let pushed = toks.push(t);
    assert forall|j: int|
        0 <= j < pushed.len() - 1 implies !((#[trigger] pushed[j]) is Operator && pushed[j
        + 1] is Operator) by {
        if j + 1 < toks.len() {
            assert(pushed[j] == toks[j] && pushed[j + 1] == toks[j + 1]);
        } else {
            assert(pushed[j] == toks[toks.len() - 1] && pushed[j + 1] == t);
        }
    }
}

/// The induction behind [`lemma_tokenize_no_adjacent_operators`]: the scan
/// emits an operator only right after a token it flushed, or when the last
/// emitted token is no operator.
proof fn lemma_lex_no_adjacent(s: Seq<char>, i: int, acc: LexAcc)
    requires
        no_adjacent_operators(acc.toks),
    ensures
        lex_from(s, i, acc) matches Ok(toks) ==> no_adjacent_operators(toks),
    decreases s.len() - i,
{
    if i >= s.len() {
        if !(acc.state is Error) && acc.buffer.len() > 0 {
            lemma_no_adjacent_push(acc.toks, flush_token(acc.buffer));
        }
    } else {
        match lex_step(s[i], i, acc) {
            Err(_) => {},
            Ok(next) => {
                let c = s[i];
                if c == ' ' {
                } else {
                    match acc.state {
                        TokenizerStateView::Error(_) => {},
                        TokenizerStateView::Initial => {
                            if is_digit(c) || is_letter(c) {
                            } else if is_operator_symbol(c) {
                                if !(acc.toks.len() > 0 && acc.toks.last() is Operator) && !(
                                acc.toks.len() == 0 && c != '-') {
                                    lemma_no_adjacent_push(acc.toks, TokenView::Operator(c));
                                }
                            } else if c == '(' {
                                lemma_no_adjacent_push(acc.toks, TokenView::Parenthesis(true));
                            } else if c == ')' {
                                lemma_no_adjacent_push(acc.toks, TokenView::Parenthesis(false));
                            }
                        },
                        _ => {
                            if is_digit(c) || (acc.state is VariableName && is_letter(c)) {
                            } else if is_operator_symbol(c) || c == ')' {
                                let flushed = flush_token(acc.buffer);
                                lemma_no_adjacent_push(acc.toks, flushed);
                                assert(!(flushed is Operator));
                                if is_operator_symbol(c) {
                                    lemma_no_adjacent_push(
                                        acc.toks.push(flushed),
                                        TokenView::Operator(c),
                                    );
                                } else {
                                    lemma_no_adjacent_push(
                                        acc.toks.push(flushed),
                                        TokenView::Parenthesis(false),
                                    );
                                }
                            }
                        },
                    }
                }
                lemma_lex_no_adjacent(s, i + 1, next);
            },
        }
    }
}

/// Whatever text tokenizes successfully yields a token sequence in which no
/// two operator tokens stand next to each other: the scanner refuses the
/// second of two adjacent operators with `UnexpectedOperator`.
pub proof fn lemma_tokenize_no_adjacent_operators(s: Seq<char>)
    ensures
        spec_tokenize(s) matches Ok(toks) ==> no_adjacent_operators(toks),
{
    lemma_lex_no_adjacent(s, 0, lex_init());
}

/// Appends a token, keeping on record that mapping to views commutes with
/// the append.
fn push_token(r: &mut Vec<Token>, t: Token)
    ensures
        token_views(final(r)@) == token_views(old(r)@).push(t@),
{
    let ghost tv = t@;
    let ghost r0 = r@;
    r.push(t);
    proof {
        assert(token_views(r@) =~= token_views(r0).push(tv));
    }
}

/// Whether `c` is a decimal digit.
fn digit(c: char) -> (b: bool)
    ensures
        b == is_digit(c),
{
    '0' <= c && c <= '9'
}

/// Whether `c` is an ASCII letter.
fn letter(c: char) -> (b: bool)
    ensures
        b == is_letter(c),
{
    ('a' <= c && c <= 'z') || ('A' <= c && c <= 'Z')
}

/// Whether `c` is one of the six operator symbols.
fn operator_symbol(c: char) -> (b: bool)
    ensures
        b == is_operator_symbol(c),
{
    c == '+' || c == '-' || c == '*' || c == '/' || c == '>' || c == '<'
}

/// The lexer. Scanning is a pure function of the input text; this type only
/// groups the entry point and its helper.
pub struct Tokenizer;

impl Tokenizer {
    /// Flushes the accumulated lexeme: `None` if it is empty, otherwise the
    /// token it denotes, leaving the buffer empty either way.
    fn parse_buffer(s: &mut String) -> (r: Option<Token>)
        ensures
            old(s)@.len() == 0 ==> r is None && final(s)@ == old(s)@,
            old(s)@.len() > 0 ==> (r matches Some(t) && t@ == flush_token(old(s)@))
                && final(s)@ == Seq::<char>::empty(),
    {
        if !(s.as_str().is_empty()) {
            let r = match parse_f32_bits(s.as_str()) {
                Some(bits) => Some(Token::Value(bits)),
                None => Some(Token::Variable(s.clone())),
            };
            *s = String::new();
            r
        } else {
            None
        }
    }

    /// Tokenizes raw text and checks expression syntax: returns the token
    /// sequence the state machine [`lex_from`] assigns to the text, or its
    /// first lexical fault with the character offset that triggered it.
    pub fn tokenize(raw: &str) -> (r: Result<Vec<Token>, TokenizerError>)
        ensures
            tokenize_result_view(r) == spec_tokenize(raw@),
    {
        let n = raw.unicode_len();
        let mut r: Vec<Token> = Vec::new();  // Result vector
        let mut parenthesis_stack: usize = 0;  // Checks that every opened parenthesis is closed
        let mut state = TokenizerState::Initial;  // This function is a state machine
        let mut buffer = String::new();  // The lexeme being accumulated

        proof {
            assert(token_views(r@) =~= Seq::<TokenView>::empty());
            assert(LexAcc {
                state: state@,
                buffer: buffer@,
                depth: parenthesis_stack as int,
                toks: token_views(r@),
            } == lex_init());
        }

        let mut i: usize = 0;
        while i < n
            invariant
                n == raw@.len(),
                i <= n,
                parenthesis_stack <= i,
                (state@ is NumberBeforeDot || state@ is NumberAfterDot || state@ is VariableName)
                    ==> buffer@.len() > 0,
                lex_from(
                    raw@,
                    i as int,
                    LexAcc {
                        state: state@,
                        buffer: buffer@,
                        depth: parenthesis_stack as int,
                        toks: token_views(r@),
                    },
                ) == spec_tokenize(raw@),
            decreases n - i,
        {
            let c = raw.get_char(i);
            let ghost acc0 = LexAcc {
                state: state@,
                buffer: buffer@,
                depth: parenthesis_stack as int,
                toks: token_views(r@),
            };

            if c != ' ' {
                // Behaviour common to every state: a closing parenthesis is
                // checked against the depth first, and its token is emitted
                // only after the state machine has had the chance to flush a
                // pending lexeme in front of it.
                let mut should_push_parenthesis = false;
                if c == ')' {
                    if parenthesis_stack == 0 {
                        state = TokenizerState::Error(TokenizerError::UnmatchedParenthesis(i));
                    } else {
                        should_push_parenthesis = true;
                        parenthesis_stack -= 1;
                    }
                }

                // The state machine
                match state {
                    TokenizerState::Initial => {
                        state = if digit(c) {
                            string_push(&mut buffer, c);
                            TokenizerState::NumberBeforeDot
                        } else if letter(c) {
                            string_push(&mut buffer, c);
                            TokenizerState::VariableName
                        } else if operator_symbol(c) {
                            // Two operators in a row: UnexpectedOperator.
                            let last_is_operator = match r.last() {
                                Some(Token::Operator(_)) => true,
                                _ => false,
                            };
                            if last_is_operator {
                                TokenizerState::Error(TokenizerError::UnexpectedOperator(i))
                            } else if r.is_empty() && c != '-' {
                                // A leading operator has nothing to act on;
                                // only the unary minus is admitted there.
                                TokenizerState::Error(TokenizerError::UnexpectedOperator(i))
                            } else {
                                push_token(&mut r, Token::Operator(c));
                                TokenizerState::Initial
                            }
                        } else if c == '(' {
                            push_token(&mut r, Token::Parenthesis(true));
                            parenthesis_stack += 1;
                            TokenizerState::Initial
                        } else if c == ')' {
                            // The depth bookkeeping already happened above.
                            TokenizerState::Initial
                        } else if c == '.' {
                            TokenizerState::Error(TokenizerError::UnexpectedDot(i))
                        } else {
                            TokenizerState::Error(TokenizerError::InvalidCharacter(i))
                        };
                    },
                    TokenizerState::NumberBeforeDot => {
                        state = if digit(c) {
                            string_push(&mut buffer, c);
                            TokenizerState::NumberBeforeDot
                        } else if operator_symbol(c) {
                            match Tokenizer::parse_buffer(&mut buffer) {
                                Some(token) => push_token(&mut r, token),
                                None => proof {
                                    assert(false);
                                },
                            }
                            push_token(&mut r, Token::Operator(c));
                            TokenizerState::Initial
                        } else if c == ')' {
                            match Tokenizer::parse_buffer(&mut buffer) {
                                Some(token) => push_token(&mut r, token),
                                None => proof {
                                    assert(false);
                                },
                            }
                            TokenizerState::Initial
                        } else if c == '(' {
                            TokenizerState::Error(TokenizerError::UnexpectedParenthesis(i))
                        } else if c == '.' {
                            string_push(&mut buffer, c);
                            TokenizerState::NumberAfterDot
                        } else {
                            TokenizerState::Error(TokenizerError::InvalidCharacter(i))
                        };
                    },
                    TokenizerState::NumberAfterDot => {
                        state = if digit(c) {
                            string_push(&mut buffer, c);
                            TokenizerState::NumberAfterDot
                        } else if operator_symbol(c) {
                            match Tokenizer::parse_buffer(&mut buffer) {
                                Some(token) => push_token(&mut r, token),
                                None => proof {
                                    assert(false);
                                },
                            }
                            push_token(&mut r, Token::Operator(c));
                            TokenizerState::Initial
                        } else if c == ')' {
                            match Tokenizer::parse_buffer(&mut buffer) {
                                Some(token) => push_token(&mut r, token),
                                None => proof {
                                    assert(false);
                                },
                            }
                            TokenizerState::Initial
                        } else if c == '(' {
                            TokenizerState::Error(TokenizerError::UnexpectedParenthesis(i))
                        } else if c == '.' {
                            TokenizerState::Error(TokenizerError::TooManyDots(i))
                        } else {
                            TokenizerState::Error(TokenizerError::InvalidCharacter(i))
                        };
                    },
                    TokenizerState::VariableName => {
                        state = if digit(c) || letter(c) {
                            string_push(&mut buffer, c);
                            TokenizerState::VariableName
                        } else if operator_symbol(c) {
                            match Tokenizer::parse_buffer(&mut buffer) {
                                Some(token) => push_token(&mut r, token),
                                None => proof {
                                    assert(false);
                                },
                            }
                            push_token(&mut r, Token::Operator(c));
                            TokenizerState::Initial
                        } else if c == ')' {
                            match Tokenizer::parse_buffer(&mut buffer) {
                                Some(token) => push_token(&mut r, token),
                                None => proof {
                                    assert(false);
                                },
                            }
                            TokenizerState::Initial
                        } else if c == '(' {
                            TokenizerState::Error(TokenizerError::UnexpectedParenthesis(i))
                        } else if c == '.' {
                            TokenizerState::Error(TokenizerError::UnexpectedDot(i))
                        } else {
                            TokenizerState::Error(TokenizerError::InvalidCharacter(i))
                        };
                    },
                    TokenizerState::Error(e) => {
                        return Err(e);
                    },
                }

                if should_push_parenthesis {
                    push_token(&mut r, Token::Parenthesis(false));
                }

                proof {
                    let acc1 = LexAcc {
                        state: state@,
                        buffer: buffer@,
                        depth: parenthesis_stack as int,
                        toks: token_views(r@),
                    };
                    assert(lex_step(raw@[i as int], i as int, acc0) == Ok::<LexAcc, TokenizerErrorView>(acc1));
                }
            } else {
                proof {
                    assert(lex_step(raw@[i as int], i as int, acc0) == Ok::<LexAcc, TokenizerErrorView>(acc0));
                }
            }

            i += 1;
        }

        // An error recorded by the last character has not been returned yet,
        // because of the one-character delay between its registration and its
        // treatment by the automaton.
        if let TokenizerState::Error(e) = state {
            return Err(e);
        }

        // A lexeme still accumulating at end of input is flushed now.
        if let Some(token) = Tokenizer::parse_buffer(&mut buffer) {
            push_token(&mut r, token);
        }

        if parenthesis_stack != 0 {
            Err(TokenizerError::UnmatchedParenthesis(n))
        } else {
            Ok(r)
        }
    }
}

} // verus!
