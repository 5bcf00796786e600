//! Evaluation: a divide-and-conquer evaluator that reduces a token sequence
//! to one single-precision value under a variable-binding context.
//!
//! The algorithm locates the least prior operator of a range — priorities
//! biased by parenthesis depth so that anything inside parentheses binds
//! tighter than anything outside, ties resolved to the rightmost occurrence —
//! and recurses on the two sub-ranges around it. Its behaviour is captured by
//! the spec functions [`eval_range`] / [`find_op_from`]: [`Parser::parse`] is
//! proved to return exactly what they compute on the views of its inputs.

use crate::float32::add_bits;
use crate::float32::div_bits;
use crate::float32::f32_add;
use crate::float32::f32_div;
use crate::float32::f32_gt;
use crate::float32::f32_lt;
use crate::float32::f32_mul;
use crate::float32::f32_neg;
use crate::float32::f32_sub;
use crate::float32::gt_bits;
use crate::float32::lt_bits;
use crate::float32::mul_bits;
use crate::float32::neg_bits;
use crate::float32::sub_bits;
use crate::tokening::token_views;
use crate::tokening::Token;
use crate::tokening::TokenView;
use crate::F32_ONE_BITS;
use crate::F32_ZERO_BITS;
use vstd::prelude::*;

verus! {

/// An evaluation fault.
#[derive(Debug)]
pub enum ParsingError {
    /// Reserved: a zero divisor follows IEEE semantics and yields an infinity
    /// or a NaN, so this variant is never raised.
    DivisionByZero,
    UnknownOperator(char),
    InvalidUnaryOperator(char),
    NoOperator,
    NotAValue,
    MissingVariableInContext(String),
    EmptyTokenData,
}

/// The mathematical shadow of [`ParsingError`].
pub enum ParsingErrorView {
    DivisionByZero,
    UnknownOperator(char),
    InvalidUnaryOperator(char),
    NoOperator,
    NotAValue,
    MissingVariableInContext(Seq<char>),
    EmptyTokenData,
}

impl View for ParsingError {
    type V = ParsingErrorView;

    open spec fn view(&self) -> ParsingErrorView {
        match self {
            ParsingError::DivisionByZero => ParsingErrorView::DivisionByZero,
            ParsingError::UnknownOperator(c) => ParsingErrorView::UnknownOperator(*c),
            ParsingError::InvalidUnaryOperator(c) => ParsingErrorView::InvalidUnaryOperator(*c),
            ParsingError::NoOperator => ParsingErrorView::NoOperator,
            ParsingError::NotAValue => ParsingErrorView::NotAValue,
            ParsingError::MissingVariableInContext(name) => ParsingErrorView::MissingVariableInContext(
                name@,
            ),
            ParsingError::EmptyTokenData => ParsingErrorView::EmptyTokenData,
        }
    }
}

/// The map a list of bindings denotes: an earlier entry shadows a later one
/// with the same name.
spec fn map_of(entries: Seq<(String, u32)>) -> Map<Seq<char>, u32>
    decreases entries.len(),
{
    if entries.len() == 0 {
        Map::empty()
    } else {
        map_of(entries.drop_first()).insert(entries[0].0@, entries[0].1)
    }
}

/// What looking a name up in a binding map yields.
pub open spec fn ctx_lookup(m: Map<Seq<char>, u32>, name: Seq<char>) -> Option<u32> {
    if m.contains_key(name) {
        Some(m[name])
    } else {
        None
    }
}

/// A mapping from variable name to the bit pattern of its single-precision
/// value, read by the evaluator to resolve `Variable` tokens. Its view is the
/// finite map the bindings denote.
pub struct VariableContext {
    entries: Vec<(String, u32)>,
}

impl View for VariableContext {
    type V = Map<Seq<char>, u32>;

    closed spec fn view(&self) -> Map<Seq<char>, u32> {
        map_of(self.entries@)
    }
}

/// Skipping entries whose names all differ from `name` does not change what
/// the lookup of `name` yields.
proof fn lemma_map_of_skip(entries: Seq<(String, u32)>, name: Seq<char>, j: int)
    requires
        0 <= j <= entries.len(),
        forall|k: int| 0 <= k < j ==> entries[k].0@ != name,
    ensures
        ctx_lookup(map_of(entries), name) == ctx_lookup(map_of(entries.skip(j)), name),
    decreases j,
{
    if j > 0 {
        assert(entries.len() > 0);
        lemma_map_of_skip(entries.drop_first(), name, j - 1);
        assert(entries.drop_first().skip(j - 1) =~= entries.skip(j));
    } else {
        assert(entries.skip(0) =~= entries);
    }
}

impl VariableContext {
    /// An empty context: no variable is bound.
    pub fn new() -> (c: VariableContext)
        ensures
            c@ == Map::<Seq<char>, u32>::empty(),
    {
        VariableContext { entries: Vec::new() }
    }

    /// Binds `name` to `bits`, shadowing any earlier binding of the same name.
    pub fn insert(&mut self, name: String, bits: u32)
        ensures
            final(self)@ == old(self)@.insert(name@, bits),
    {
        let ghost entries0 = self.entries@;
        let ghost name_view = name@;
        self.entries.insert(0, (name, bits));
        proof {
            assert(self.entries@.drop_first() =~= entries0);
            assert(self.entries@[0].0@ == name_view);
        }
    }

    /// Looks a name up: the value of its first binding, or `None` when it is
    /// not bound.
    pub fn get(&self, name: &String) -> (r: Option<u32>)
        ensures
            r == ctx_lookup(self@, name@),
    {
        let n = self.entries.len();
        let mut j: usize = 0;
        while j < n
            invariant
                n == self.entries@.len(),
                j <= n,
                forall|k: int| 0 <= k < j ==> self.entries@[k].0@ != name@,
            decreases n - j,
        {
            let pair: &(String, u32) = &self.entries[j];
            if pair.0.eq(name) {
                proof {
                    lemma_map_of_skip(self.entries@, name@, j as int);
                    assert(self.entries@.skip(j as int).drop_first() =~= self.entries@.skip(
                        j as int + 1,
                    ));
                    assert(self.entries@.skip(j as int)[0] == self.entries@[j as int]);
                }
                return Some(pair.1);
            }
            j += 1;
        }
        proof {
            lemma_map_of_skip(self.entries@, name@, n as int);
            assert(self.entries@.skip(n as int) =~= Seq::<(String, u32)>::empty());
        }
        None
    }
}

/// The base priority of an operator symbol: comparisons bind loosest, then
/// sums and differences, then products and quotients; an unknown symbol has
/// none.
pub open spec fn base_priority(c: char) -> Option<int> {
    if c == '>' || c == '<' {
        Some(0)
    } else if c == '+' || c == '-' {
        Some(1)
    } else if c == '*' || c == '/' {
        Some(2)
    } else {
        None
    }
}

/// The scan for the least prior operator, from `i` to `end`, carrying the
/// parenthesis level, the best candidate so far and its effective priority.
/// An operator's effective priority is its base priority plus a thousand per
/// parenthesis level; ties go to the rightmost occurrence. An unknown
/// operator symbol fails the scan at once.
pub open spec fn find_op_from(
    toks: Seq<TokenView>,
    i: int,
    end: int,
    level: int,
    best: Option<(char, int)>,
    lowest: int,
) -> Result<(char, int), ParsingErrorView>
    decreases end - i,
{
    if i >= end {
        match best {
            Some(op) => Ok(op),
            None => Err(ParsingErrorView::NoOperator),
        }
    } else {
        match toks[i] {
            TokenView::Operator(c) => match base_priority(c) {
                None => Err(ParsingErrorView::UnknownOperator(c)),
                Some(prio) => {
                    let eff = prio + level * 1000;
                    if best is None || eff <= lowest {
                        find_op_from(toks, i + 1, end, level, Some((c, i)), eff)
                    } else {
                        find_op_from(toks, i + 1, end, level, best, lowest)
                    }
                },
            },
            TokenView::Parenthesis(open) => find_op_from(
                toks,
                i + 1,
                end,
                if open {
                    level + 1
                } else {
                    level - 1
                },
                best,
                lowest,
            ),
            _ => find_op_from(toks, i + 1, end, level, best, lowest),
        }
    }
}

/// The least prior operator of the range `[start, end)`, if any.
pub open spec fn spec_find_op(toks: Seq<TokenView>, start: int, end: int) -> Result<
    (char, int),
    ParsingErrorView,
> {
    find_op_from(toks, start, end, 0, None, 0)
}

/// The index the scan returns always lies in the scanned range (or comes from
/// the candidate handed in).
proof fn lemma_find_op_in_range(
    toks: Seq<TokenView>,
    i: int,
    end: int,
    level: int,
    best: Option<(char, int)>,
    lowest: int,
    lo: int,
)
    requires
        lo <= i <= end,
        best matches Some(op) ==> lo <= op.1 < end,
    ensures
        find_op_from(toks, i, end, level, best, lowest) matches Ok(op) ==> lo <= op.1 < end,
    decreases end - i,
{
    if i < end {
        match toks[i] {
            TokenView::Operator(c) => match base_priority(c) {
                None => {},
                Some(prio) => {
                    let eff = prio + level * 1000;
                    if best is None || eff <= lowest {
                        lemma_find_op_in_range(toks, i + 1, end, level, Some((c, i)), eff, lo);
                    } else {
                        lemma_find_op_in_range(toks, i + 1, end, level, best, lowest, lo);
                    }
                },
            },
            TokenView::Parenthesis(open) => {
                lemma_find_op_in_range(
                    toks,
                    i + 1,
                    end,
                    if open {
                        level + 1
                    } else {
                        level - 1
                    },
                    best,
                    lowest,
                    lo,
                );
            },
            _ => {
                lemma_find_op_in_range(toks, i + 1, end, level, best, lowest, lo);
            },
        }
    }
}

/// What applying a binary operator to two operand bit patterns yields:
/// IEEE 754 arithmetic for `+ - / *`, one or zero for the comparisons, and
/// `UnknownOperator` for anything else.
pub open spec fn apply_operator(c: char, a: u32, b: u32) -> Result<u32, ParsingErrorView> {
    if c == '+' {
        Ok(f32_add(a, b))
    } else if c == '-' {
        Ok(f32_sub(a, b))
    } else if c == '/' {
        Ok(f32_div(a, b))
    } else if c == '*' {
        Ok(f32_mul(a, b))
    } else if c == '>' {
        Ok(
            if f32_gt(a, b) {
                F32_ONE_BITS
            } else {
                F32_ZERO_BITS
            },
        )
    } else if c == '<' {
        Ok(
            if f32_lt(a, b) {
                F32_ONE_BITS
            } else {
                F32_ZERO_BITS
            },
        )
    } else {
        Err(ParsingErrorView::UnknownOperator(c))
    }
}

/// What resolving one token to a value yields: a literal's own bits, a
/// variable's binding — `MissingVariableInContext` when it has none — and
/// `NotAValue` for anything else.
pub open spec fn resolve_token(t: TokenView, ctx: Map<Seq<char>, u32>) -> Result<
    u32,
    ParsingErrorView,
> {
    match t {
        TokenView::Value(bits) => Ok(bits),
        TokenView::Variable(name) => match ctx_lookup(ctx, name) {
            Some(bits) => Ok(bits),
            None => Err(ParsingErrorView::MissingVariableInContext(name)),
        },
        _ => Err(ParsingErrorView::NotAValue),
    }
}

/// What a range without an operator reduces to, by the shape of its ends: a
/// range led by a non-parenthesis resolves its first token; one led by a
/// parenthesis resolves its last token, or yields zero when that is an open
/// parenthesis, or resolves the second token of the range when it is a
/// closed one; every other shape is `NotAValue`. A degenerate shape whose
/// second token would lie past the end of the whole sequence is `NotAValue`.
pub open spec fn value_in_range(
    toks: Seq<TokenView>,
    ctx: Map<Seq<char>, u32>,
    start: int,
    end: int,
) -> Result<u32, ParsingErrorView>
    recommends
        0 <= start < end <= toks.len(),
{
    if !(toks[start] is Parenthesis) {
        resolve_token(toks[start], ctx)
    } else {
        match toks[end - 1] {
            TokenView::Value(_) => resolve_token(toks[end - 1], ctx),
            TokenView::Variable(_) => resolve_token(toks[end - 1], ctx),
            TokenView::Parenthesis(open) => {
                if open {
                    Ok(F32_ZERO_BITS)
                } else if start + 1 < toks.len() {
                    resolve_token(toks[start + 1], ctx)
                } else {
                    Err(ParsingErrorView::NotAValue)
                }
            },
            _ => Err(ParsingErrorView::NotAValue),
        }
    }
}

/// What evaluating the range `[start, end)` yields. An empty range is
/// `EmptyTokenData`. Otherwise the range splits at its least prior operator:
/// both operands evaluate and the operator applies; a left operand empty
/// under `-` realizes unary minus, under any other operator
/// `InvalidUnaryOperator`; an empty right operand is `EmptyTokenData`; any
/// other fault propagates, the left one first. A range without an operator
/// reduces to a single token by [`value_in_range`].
pub open spec fn eval_range(
    toks: Seq<TokenView>,
    ctx: Map<Seq<char>, u32>,
    start: int,
    end: int,
) -> Result<u32, ParsingErrorView>
    decreases end - start,
    via eval_range_decreases
{
    if start >= end {
        Err(ParsingErrorView::EmptyTokenData)
    } else {
        match spec_find_op(toks, start, end) {
            Ok(op) => {
                let left = eval_range(toks, ctx, start, op.1);
                let right = eval_range(toks, ctx, op.1 + 1, end);
                match (left, right) {
                    (Ok(a), Ok(b)) => apply_operator(op.0, a, b),
                    (Err(ParsingErrorView::EmptyTokenData), Ok(b)) => {
                        if op.0 == '-' {
                            Ok(f32_neg(b))
                        } else {
                            Err(ParsingErrorView::InvalidUnaryOperator(op.0))
                        }
                    },
                    (Ok(_), Err(ParsingErrorView::EmptyTokenData)) => Err(
                        ParsingErrorView::EmptyTokenData,
                    ),
                    (Err(e), Ok(_)) => Err(e),
                    (Ok(_), Err(e)) => Err(e),
                    (Err(e), Err(_)) => Err(e),
                }
            },
            Err(ParsingErrorView::NoOperator) => value_in_range(toks, ctx, start, end),
            Err(e) => Err(e),
        }
    }
}

#[via_fn]
proof fn eval_range_decreases(toks: Seq<TokenView>, ctx: Map<Seq<char>, u32>, start: int, end: int) {
    if start < end {
        lemma_find_op_in_range(toks, start, end, 0, None, 0, start);
    }
}

/// What evaluating a whole token sequence yields.
pub open spec fn spec_parse(toks: Seq<TokenView>, ctx: Map<Seq<char>, u32>) -> Result<
    u32,
    ParsingErrorView,
> {
    eval_range(toks, ctx, 0, toks.len() as int)
}

/// The view of an evaluation result.
pub open spec fn parse_result_view(r: Result<u32, ParsingError>) -> Result<u32, ParsingErrorView> {
    match r {
        Ok(bits) => Ok(bits),
        Err(e) => Err(e@),
    }
}

/// The scan for an operator fails only for want of one or on an unknown
/// symbol.
proof fn lemma_find_op_err_kind(
    toks: Seq<TokenView>,
    i: int,
    end: int,
    level: int,
    best: Option<(char, int)>,
    lowest: int,
)
    ensures
        find_op_from(toks, i, end, level, best, lowest) matches Err(e) ==> (e is NoOperator
            || e is UnknownOperator),
    decreases end - i,
{
    if i < end {
        match toks[i] {
            TokenView::Operator(c) => match base_priority(c) {
                None => {},
                Some(prio) => {
                    let eff = prio + level * 1000;
                    if best is None || eff <= lowest {
                        lemma_find_op_err_kind(toks, i + 1, end, level, Some((c, i)), eff);
                    } else {
                        lemma_find_op_err_kind(toks, i + 1, end, level, best, lowest);
                    }
                },
            },
            TokenView::Parenthesis(open) => {
                lemma_find_op_err_kind(
                    toks,
                    i + 1,
                    end,
                    if open {
                        level + 1
                    } else {
                        level - 1
                    },
                    best,
                    lowest,
                );
            },
            _ => {
                lemma_find_op_err_kind(toks, i + 1, end, level, best, lowest);
            },
        }
    }
}

/// A missing-variable fault names exactly a variable of the expression that
/// the context truly does not bind: whenever evaluating a range fails with
/// `MissingVariableInContext(name)`, the context has no binding for `name`,
/// and some `Variable` token of the sequence carries that very name.
pub proof fn lemma_missing_variable_unbound(
    toks: Seq<TokenView>,
    ctx: Map<Seq<char>, u32>,
    start: int,
    end: int,
)
    requires
        0 <= start,
        end <= toks.len(),
    ensures
        eval_range(toks, ctx, start, end) matches Err(
            ParsingErrorView::MissingVariableInContext(name),
        ) ==> !ctx.contains_key(name) && exists|j: int|
            0 <= j < toks.len() && toks[j] == TokenView::Variable(name),
    decreases end - start,
{
    reveal_with_fuel(eval_range, 2);
    if start < end {
        match spec_find_op(toks, start, end) {
            Ok(op) => {
                lemma_find_op_in_range(toks, start, end, 0, None, 0, start);
                lemma_missing_variable_unbound(toks, ctx, start, op.1);
                lemma_missing_variable_unbound(toks, ctx, op.1 + 1, end);
            },
            Err(e) => {
                lemma_find_op_err_kind(toks, start, end, 0, None, 0);
                if e is NoOperator {
                    match value_in_range(toks, ctx, start, end) {
                        Err(ParsingErrorView::MissingVariableInContext(name)) => {
                            // The fault came from resolving one of the three
                            // tokens the shape handling can pick, each inside
                            // the sequence.
                            if !(toks[start] is Parenthesis) {
                                assert(toks[start] == TokenView::Variable(name));
                            } else {
                                match toks[end - 1] {
                                    TokenView::Variable(_) => {
                                        assert(toks[end - 1] == TokenView::Variable(name));
                                    },
                                    TokenView::Parenthesis(open) => {
                                        assert(!open && start + 1 < toks.len());
                                        assert(toks[start + 1] == TokenView::Variable(name));
                                    },
                                    _ => {
                                        assert(false);
                                    },
                                }
                            }
                        },
                        _ => {},
                    }
                }
            },
        }
    }
}

/// Evaluation is a pure function of the token sequence and the context:
/// any two results that [`Parser::parse`]'s contract admits for the same
/// views are the same result, bit for bit — nothing is hidden in mutable
/// state, so evaluating twice yields bit-identical outcomes.
pub proof fn lemma_parse_deterministic(
    toks: Seq<TokenView>,
    ctx: Map<Seq<char>, u32>,
    r1: Result<u32, ParsingError>,
    r2: Result<u32, ParsingError>,
)
    requires
        parse_result_view(r1) == spec_parse(toks, ctx),
        parse_result_view(r2) == spec_parse(toks, ctx),
    ensures
        parse_result_view(r1) == parse_result_view(r2),
        r1 matches Ok(a) ==> (r2 matches Ok(b) && a == b),
{
}

/// The view of an operator-scan result.
pub open spec fn find_result_view(r: Result<(char, usize), ParsingError>) -> Result<
    (char, int),
    ParsingErrorView,
> {
    match r {
        Ok(op) => Ok((op.0, op.1 as int)),
        Err(e) => Err(e@),
    }
}

/// The base priority of an operator symbol, as executable code.
fn base_priority_of(c: char) -> (r: Option<i128>)
    ensures
        r is Some <==> base_priority(c) is Some,
        r matches Some(p) ==> base_priority(c) == Some(p as int),
{
    if c == '>' || c == '<' {
        Some(0)
    } else if c == '+' || c == '-' {
        Some(1)
    } else if c == '*' || c == '/' {
        Some(2)
    } else {
        None
    }
}

/// The view of the running candidate of the operator scan.
pub open spec fn candidate_view(o: Option<(char, usize)>) -> Option<(char, int)> {
    match o {
        Some(op) => Some((op.0, op.1 as int)),
        None => None,
    }
}

/// The evaluator. Evaluation is a pure function of the token sequence and the
/// context; this type only groups the entry point and its helpers.
pub struct Parser;

impl Parser {
    /// Gate to recursive evaluation: what the whole token sequence evaluates
    /// to under `context`. An empty sequence is a fault (`EmptyTokenData`),
    /// not a value; the caller owns any substitution policy.
    pub fn parse(tokens: &Vec<Token>, context: &VariableContext) -> (r: Result<u32, ParsingError>)
        ensures
            parse_result_view(r) == spec_parse(token_views(tokens@), context@),
    {
        Self::recursive_parsing(tokens, context, 0, tokens.len())
    }

    /// Locates the least prior operator of the range and recursively resolves
    /// the operand ranges on either side of it to perform one
    /// operand-operator-operand calculation.
    fn recursive_parsing(
        tokens: &Vec<Token>,
        context: &VariableContext,
        start: usize,
        end: usize,
    ) -> (r: Result<u32, ParsingError>)
        requires
            end <= tokens@.len(),
        ensures
            parse_result_view(r) == eval_range(
                token_views(tokens@),
                context@,
                start as int,
                end as int,
            ),
        decreases end - start,
    {
        // An empty range: either the caller passed an empty sequence, or an
        // operator stood at the border of the enclosing range.
        if start >= end {
            return Err(ParsingError::EmptyTokenData);
        }
        match Self::find_least_prior_operator(tokens, start, end) {
            Ok((symbol, position)) => {
                // Split at the least prior operator and resolve both sides.
                let left = Self::recursive_parsing(tokens, context, start, position);
                let right = Self::recursive_parsing(tokens, context, position + 1, end);
                match (left, right) {
                    (Ok(left_hand), Ok(right_hand)) => match symbol {
                        '+' => Ok(add_bits(left_hand, right_hand)),
                        '-' => Ok(sub_bits(left_hand, right_hand)),
                        '/' => Ok(div_bits(left_hand, right_hand)),
                        '*' => Ok(mul_bits(left_hand, right_hand)),
                        '>' => Ok(
                            if gt_bits(left_hand, right_hand) {
                                F32_ONE_BITS
                            } else {
                                F32_ZERO_BITS
                            },
                        ),
                        '<' => Ok(
                            if lt_bits(left_hand, right_hand) {
                                F32_ONE_BITS
                            } else {
                                F32_ZERO_BITS
                            },
                        ),
                        _ => Err(ParsingError::UnknownOperator(symbol)),
                    },
                    (Err(ParsingError::EmptyTokenData), Ok(value)) => {
                        // The operator had nothing before it: the unary case.
                        match symbol {
                            '-' => Ok(neg_bits(value)),
                            _ => Err(ParsingError::InvalidUnaryOperator(symbol)),
                        }
                    },
                    (Ok(_), Err(ParsingError::EmptyTokenData)) => {
                        // A trailing operator with nothing after it.
                        Err(ParsingError::EmptyTokenData)
                    },
                    (Err(e), Ok(_)) => Err(e),
                    (Ok(_), Err(e)) => Err(e),
                    (Err(e), Err(_)) => Err(e),
                }
            },
            Err(ParsingError::NoOperator) => {
                // The range reduces to a single value-bearing token, found by
                // the shape of its ends.
                proof {
                    assert(token_views(tokens@)[start as int] == tokens@[start as int]@);
                    assert(token_views(tokens@)[end - 1] == tokens@[end - 1]@);
                }
                let token_then_only_prths = match &tokens[start] {
                    Token::Parenthesis(_) => false,
                    _ => true,
                };

                // The token that carries the value or the variable.
                let contains_value: &Token = if token_then_only_prths {
                    &tokens[start]
                } else {
                    match &tokens[end - 1] {
                        Token::Value(_) => &tokens[end - 1],
                        Token::Variable(_) => &tokens[end - 1],
                        Token::Parenthesis(true) => {
                            return Ok(F32_ZERO_BITS);
                        },
                        Token::Parenthesis(false) => {
                            if start + 1 < tokens.len() {
                                proof {
                                    assert(token_views(tokens@)[start + 1] == tokens@[start + 1]@);
                                }
                                &tokens[start + 1]
                            } else {
                                return Err(ParsingError::NotAValue);
                            }
                        },
                        _ => {
                            return Err(ParsingError::NotAValue);
                        },
                    }
                };

                // Unboxing the value.
                match contains_value {
                    Token::Value(val) => Ok(*val),
                    Token::Variable(name) => match context.get(name) {
                        Some(val) => Ok(val),
                        None => Err(ParsingError::MissingVariableInContext(name.clone())),
                    },
                    _ => Err(ParsingError::NotAValue),
                }
            },
            Err(e) => Err(e),
        }
    }

    /// Scans the range for its least prior operator: base priority plus a
    /// thousand per parenthesis level, ties to the rightmost occurrence.
    fn find_least_prior_operator(tokens: &Vec<Token>, start: usize, end: usize) -> (r: Result<
        (char, usize),
        ParsingError,
    >)
        requires
            start <= end <= tokens@.len(),
        ensures
            find_result_view(r) == spec_find_op(token_views(tokens@), start as int, end as int),
            r matches Ok(op) ==> start <= op.1 < end,
    {
        let mut best: Option<(char, usize)> = None;  // Result candidate
        let mut lowest_prio: i128 = 0;
        let mut parenthesis_level: i128 = 0;

        let mut i = start;
        while i < end
            invariant
                start <= i <= end,
                end <= tokens@.len(),
                -(i as int) <= parenthesis_level as int <= i as int,
                best matches Some(op) ==> start <= op.1 < i,
                find_op_from(
                    token_views(tokens@),
                    i as int,
                    end as int,
                    parenthesis_level as int,
                    candidate_view(best),
                    lowest_prio as int,
                ) == spec_find_op(token_views(tokens@), start as int, end as int),
            decreases end - i,
        {
            proof {
                assert(token_views(tokens@)[i as int] == tokens@[i as int]@);
            }
            match &tokens[i] {
                Token::Operator(c) => {
                    match base_priority_of(*c) {
                        Some(prio) => {
                            let eff: i128 = prio + parenthesis_level * 1000;
                            if best.is_none() || eff <= lowest_prio {
                                best = Some((*c, i));
                                lowest_prio = eff;
                            }
                        },
                        None => {
                            return Err(ParsingError::UnknownOperator(*c));
                        },
                    }
                },
                Token::Parenthesis(true) => {
                    parenthesis_level = parenthesis_level + 1;
                },
                Token::Parenthesis(false) => {
                    parenthesis_level = parenthesis_level - 1;
                },
                _ => {},
            }
            i += 1;
        }

        match best {
            Some(op) => Ok(op),
            None => Err(ParsingError::NoOperator),
        }
    }
}

} // verus!
