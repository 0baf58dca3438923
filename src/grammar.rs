//! The grammar of Klang as spec functions over token values: what the parser
//! returns for every token sequence.
use vstd::prelude::*;

use crate::ast::{ExprView, NodeView, ProtoView};
use crate::token::TokenView;

verus! {

/// The outcome of parsing one construct that starts at a position: the value
/// and the position after it, or `NotComplete` when the tokens ran out before
/// it ended, or an error message.
pub enum PResult<T> {
    Good(T, int),
    NotComplete,
    Bad(Seq<char>),
}

/// Precedence of the binary operators; higher binds tighter.
pub open spec fn binary_precedence(op: Seq<char>) -> Option<int> {
    if op == seq!['<'] {
        Some(10)
    } else if op == seq!['+'] || op == seq!['-'] {
        Some(20)
    } else if op == seq!['*'] || op == seq!['/'] {
        Some(40)
    } else {
        None
    }
}

/// What finding anything but the expected token at `pos` gives: `NotComplete`
/// past the end, else the error.
pub open spec fn unexpected<T>(t: Seq<TokenView>, pos: int, m: Seq<char>) -> PResult<T> {
    if pos >= t.len() {
        PResult::NotComplete
    } else {
        PResult::Bad(m)
    }
}

pub open spec fn is_token(t: Seq<TokenView>, pos: int, tok: TokenView) -> bool {
    0 <= pos < t.len() && t[pos] == tok
}

/// The token at `pos` is an operator that binds tighter than `pr`.
pub open spec fn binds_tighter(t: Seq<TokenView>, pos: int, pr: int) -> bool {
    0 <= pos < t.len() && match t[pos] {
        TokenView::Operator(op) => match binary_precedence(op) {
            Some(p) => p > pr,
            None => false,
        },
        _ => false,
    }
}

pub open spec fn advances(t: Seq<TokenView>, from: int, to: int) -> bool {
    from < to <= t.len()
}

/// `expr := primary { OP primary }`, by precedence climbing from 0.
pub open spec fn p_expr(t: Seq<TokenView>, pos: int) -> PResult<ExprView>
    decreases t.len() - pos, 3int,
{
    match p_primary(t, pos) {
        PResult::Good(lhs, p1) => if advances(t, pos, p1) {
            p_climb(t, p1, 0, lhs)
        } else {
            PResult::NotComplete
        },
        PResult::NotComplete => PResult::NotComplete,
        PResult::Bad(m) => PResult::Bad(m),
    }
}

/// Extends `lhs` with every following operator of precedence at least `min`.
///
/// After an operator of precedence `pr` and its primary operand, an operator
/// that binds tighter than `pr` makes the operand the left side of a climb
/// from `pr`. That climb stops only before an operator of precedence below
/// `pr`, so no second such climb can follow.
pub open spec fn p_climb(t: Seq<TokenView>, pos: int, min: int, lhs: ExprView) -> PResult<ExprView>
    decreases t.len() - pos, 0int,
{
    if pos < 0 || pos >= t.len() {
        PResult::Good(lhs, pos)
    } else {
        match t[pos] {
            TokenView::Operator(op) => match binary_precedence(op) {
                None => PResult::Bad("unknown operator found"@),
                Some(pr) => if pr < min {
                    PResult::Good(lhs, pos)
                } else {
                    match p_primary(t, pos + 1) {
                        PResult::Good(rhs, p1) => if advances(t, pos, p1) {
                            let operand = if binds_tighter(t, p1, pr) {
                                p_climb(t, p1, pr, rhs)
                            } else {
                                PResult::Good(rhs, p1)
                            };
                            match operand {
                                PResult::Good(rhs2, p2) => if advances(t, pos, p2) {
                                    p_climb(
                                        t,
                                        p2,
                                        min,
                                        ExprView::Binary(op, Box::new(lhs), Box::new(rhs2)),
                                    )
                                } else {
                                    PResult::NotComplete
                                },
                                PResult::NotComplete => PResult::NotComplete,
                                PResult::Bad(m) => PResult::Bad(m),
                            }
                        } else {
                            PResult::NotComplete
                        },
                        PResult::NotComplete => PResult::NotComplete,
                        PResult::Bad(m) => PResult::Bad(m),
                    }
                },
            },
            _ => PResult::Good(lhs, pos),
        }
    }
}

/// `primary := NUMBER | IDENT [ '(' args ] | '(' expr ')' | if-expression`.
pub open spec fn p_primary(t: Seq<TokenView>, pos: int) -> PResult<ExprView>
    decreases t.len() - pos, 2int,
{
    if pos < 0 || pos >= t.len() {
        PResult::NotComplete
    } else {
        match t[pos] {
            TokenView::Ident(name) => if is_token(t, pos + 1, TokenView::OpeningParenthesis) {
                match p_args(t, pos + 2, Seq::empty()) {
                    PResult::Good(args, p) => PResult::Good(ExprView::Call(name, args), p),
                    PResult::NotComplete => PResult::NotComplete,
                    PResult::Bad(m) => PResult::Bad(m),
                }
            } else {
                PResult::Good(ExprView::Variable(name), pos + 1)
            },
            TokenView::Number(v) => PResult::Good(ExprView::Literal(v), pos + 1),
            TokenView::OpeningParenthesis => match p_expr(t, pos + 1) {
                PResult::Good(e, p) => if advances(t, pos, p) && is_token(
                    t,
                    p,
                    TokenView::ClosingParenthesis,
                ) {
                    PResult::Good(e, p + 1)
                } else {
                    unexpected(t, p, "')' expected"@)
                },
                PResult::NotComplete => PResult::NotComplete,
                PResult::Bad(m) => PResult::Bad(m),
            },
            TokenView::If => p_conditional(t, pos),
            _ => PResult::Bad("unknown token when expecting an expression"@),
        }
    }
}

/// `if expr '{' expr '}' else '{' expr '}'`, with `pos` at the `if`.
pub open spec fn p_conditional(t: Seq<TokenView>, pos: int) -> PResult<ExprView>
    decreases t.len() - pos, 1int,
{
    if pos < 0 || pos >= t.len() {
        PResult::NotComplete
    } else {
        match p_expr(t, pos + 1) {
            PResult::Good(c, p1) => if !advances(t, pos, p1) {
                PResult::NotComplete
            } else if !is_token(t, p1, TokenView::OpeningBrace) {
                unexpected(t, p1, "expected `{` after if's condition"@)
            } else {
                match p_expr(t, p1 + 1) {
                    PResult::Good(a, p2) => if !advances(t, p1, p2) {
                        PResult::NotComplete
                    } else if !is_token(t, p2, TokenView::ClosingBrace) {
                        unexpected(t, p2, "expected `}` after if's body"@)
                    } else if !is_token(t, p2 + 1, TokenView::Else) {
                        unexpected(t, p2 + 1, "expected else after if's body"@)
                    } else if !is_token(t, p2 + 2, TokenView::OpeningBrace) {
                        unexpected(t, p2 + 2, "expected `{` after else"@)
                    } else {
                        match p_expr(t, p2 + 3) {
                            PResult::Good(b, p3) => if !advances(t, p2, p3) {
                                PResult::NotComplete
                            } else if !is_token(t, p3, TokenView::ClosingBrace) {
                                unexpected(t, p3, "expected `}` after else's body"@)
                            } else {
                                PResult::Good(
                                    ExprView::Conditional(Box::new(c), Box::new(a), Box::new(b)),
                                    p3 + 1,
                                )
                            },
                            PResult::NotComplete => PResult::NotComplete,
                            PResult::Bad(m) => PResult::Bad(m),
                        }
                    },
                    PResult::NotComplete => PResult::NotComplete,
                    PResult::Bad(m) => PResult::Bad(m),
                }
            },
            PResult::NotComplete => PResult::NotComplete,
            PResult::Bad(m) => PResult::Bad(m),
        }
    }
}

/// The arguments of a call, from just after `(` or after a `,`, with the
/// arguments before in `acc`: `')'` when none came yet, else
/// `expr { ',' expr } ')'`.
pub open spec fn p_args(t: Seq<TokenView>, pos: int, acc: Seq<ExprView>) -> PResult<
    Seq<ExprView>,
>
    decreases t.len() - pos, 4int,
{
    if pos < 0 || pos >= t.len() {
        PResult::NotComplete
    } else if acc.len() == 0 && t[pos] == TokenView::ClosingParenthesis {
        PResult::Good(acc, pos + 1)
    } else {
        match p_expr(t, pos) {
            PResult::Good(e, p) => if !advances(t, pos, p) {
                PResult::NotComplete
            } else if is_token(t, p, TokenView::ClosingParenthesis) {
                PResult::Good(acc.push(e), p + 1)
            } else if is_token(t, p, TokenView::Comma) {
                p_args(t, p + 1, acc.push(e))
            } else {
                unexpected(t, p, "expected ',' or ')' in call arguments"@)
            },
            PResult::NotComplete => PResult::NotComplete,
            PResult::Bad(m) => PResult::Bad(m),
        }
    }
}

/// The parameters of a prototype from just after `(`, or after a `,` when
/// `acc` is not empty: `')'` when none came yet, else
/// `IDENT { ',' IDENT } ')'`.
pub open spec fn p_params(t: Seq<TokenView>, pos: int, acc: Seq<Seq<char>>) -> PResult<
    Seq<Seq<char>>,
>
    decreases t.len() - pos,
{
    if pos < 0 || pos >= t.len() {
        PResult::NotComplete
    } else {
        match t[pos] {
            TokenView::ClosingParenthesis => if acc.len() == 0 {
                PResult::Good(acc, pos + 1)
            } else {
                PResult::Bad("expected ')' in prototype"@)
            },
            TokenView::Ident(a) => if is_token(t, pos + 1, TokenView::ClosingParenthesis) {
                PResult::Good(acc.push(a), pos + 2)
            } else if is_token(t, pos + 1, TokenView::Comma) {
                p_params(t, pos + 2, acc.push(a))
            } else {
                unexpected(t, pos + 1, "expected ')' in prototype"@)
            },
            _ => PResult::Bad("expected ')' in prototype"@),
        }
    }
}

/// `proto := IDENT '(' params`.
pub open spec fn p_prototype(t: Seq<TokenView>, pos: int) -> PResult<ProtoView> {
    if pos < 0 || pos >= t.len() {
        PResult::NotComplete
    } else {
        match t[pos] {
            TokenView::Ident(name) => if !is_token(t, pos + 1, TokenView::OpeningParenthesis) {
                unexpected(t, pos + 1, "expected '(' in prototype"@)
            } else {
                match p_params(t, pos + 2, Seq::empty()) {
                    PResult::Good(args, p) => PResult::Good(ProtoView { name, args }, p),
                    PResult::NotComplete => PResult::NotComplete,
                    PResult::Bad(m) => PResult::Bad(m),
                }
            },
            _ => PResult::Bad("expected function name in prototype"@),
        }
    }
}

/// `'fun' proto '{' expr '}'`, with `pos` at `fun`.
pub open spec fn p_definition(t: Seq<TokenView>, pos: int) -> PResult<NodeView> {
    match p_prototype(t, pos + 1) {
        PResult::Good(proto, p1) => if !is_token(t, p1, TokenView::OpeningBrace) {
            unexpected(t, p1, "'{' expected"@)
        } else {
            match p_expr(t, p1 + 1) {
                PResult::Good(body, p2) => if !advances(t, p1, p2) {
                    PResult::NotComplete
                } else if !is_token(t, p2, TokenView::ClosingBrace) {
                    unexpected(t, p2, "'}' expected"@)
                } else {
                    PResult::Good(NodeView::Function(proto, Some(body)), p2 + 1)
                },
                PResult::NotComplete => PResult::NotComplete,
                PResult::Bad(m) => PResult::Bad(m),
            }
        },
        PResult::NotComplete => PResult::NotComplete,
        PResult::Bad(m) => PResult::Bad(m),
    }
}

/// `'use' proto`, with `pos` at `use`.
pub open spec fn p_declaration(t: Seq<TokenView>, pos: int) -> PResult<NodeView> {
    match p_prototype(t, pos + 1) {
        PResult::Good(proto, p) => PResult::Good(NodeView::Extern(proto), p),
        PResult::NotComplete => PResult::NotComplete,
        PResult::Bad(m) => PResult::Bad(m),
    }
}

/// The nameless function without parameters that a top-level expression becomes.
pub open spec fn anonymous(body: ExprView) -> NodeView {
    NodeView::Function(ProtoView { name: Seq::empty(), args: Seq::empty() }, Some(body))
}

/// One top-level item that starts at `pos`, which is not a `;`.
pub open spec fn p_item(t: Seq<TokenView>, pos: int) -> PResult<NodeView> {
    if is_token(t, pos, TokenView::Fun) {
        p_definition(t, pos)
    } else if is_token(t, pos, TokenView::Use) {
        p_declaration(t, pos)
    } else {
        match p_expr(t, pos) {
            PResult::Good(e, p) => PResult::Good(anonymous(e), p),
            PResult::NotComplete => PResult::NotComplete,
            PResult::Bad(m) => PResult::Bad(m),
        }
    }
}

/// Parses items from `pos` on after those in `acc`: the items and the
/// position of the first token not used, which starts an incomplete item.
pub open spec fn p_program(t: Seq<TokenView>, pos: int, acc: Seq<NodeView>) -> Result<
    (Seq<NodeView>, int),
    Seq<char>,
>
    decreases t.len() - pos,
{
    if pos < 0 || pos >= t.len() {
        Ok((acc, pos))
    } else if t[pos] == TokenView::Delimiter {
        p_program(t, pos + 1, acc)
    } else {
        match p_item(t, pos) {
            PResult::Good(n, p) => if advances(t, pos, p) {
                p_program(t, p, acc.push(n))
            } else {
                Ok((acc, pos))
            },
            PResult::NotComplete => Ok((acc, pos)),
            PResult::Bad(m) => Err(m),
        }
    }
}

/// The result of parsing `tokens` after the items `prefix`: all items, and
/// the tokens of the last item when it is incomplete.
pub open spec fn parse_tokens(tokens: Seq<TokenView>, prefix: Seq<NodeView>) -> Result<
    (Seq<NodeView>, Seq<TokenView>),
    Seq<char>,
> {
    match p_program(tokens, 0, prefix) {
        Ok((items, p)) => Ok((items, tokens.skip(p))),
        Err(m) => Err(m),
    }
}

/// A token that is a whole operand: an identifier or a number.
pub open spec fn is_atom(t: TokenView) -> bool {
    t is Ident || t is Number
}

/// The expression of an operand token.
pub open spec fn atom(t: TokenView) -> ExprView {
    match t {
        TokenView::Ident(n) => ExprView::Variable(n),
        TokenView::Number(v) => ExprView::Literal(v),
        _ => ExprView::Literal(Seq::empty()),
    }
}

pub open spec fn is_operator(o: Seq<char>) -> bool {
    binary_precedence(o) is Some
}

/// `x o1 y o2 z`, with operand tokens and known operators.
pub open spec fn three_operands(
    x: TokenView,
    o1: Seq<char>,
    y: TokenView,
    o2: Seq<char>,
    z: TokenView,
) -> Seq<TokenView> {
    seq![x, TokenView::Operator(o1), y, TokenView::Operator(o2), z]
}

pub open spec fn binary(op: Seq<char>, l: ExprView, r: ExprView) -> ExprView {
    ExprView::Binary(op, Box::new(l), Box::new(r))
}

/// An operator of higher precedence takes its operands first: `x o1 y o2 z`
/// is `x o1 (y o2 z)` when `o2` binds tighter than `o1`, and `(x o1 y) o2 z`
/// otherwise, so operators of equal precedence group from the left. A
/// top-level expression becomes a nameless function with that body.
pub proof fn lemma_precedence(x: TokenView, o1: Seq<char>, y: TokenView, o2: Seq<char>, z: TokenView)
    requires
        is_atom(x),
        is_atom(y),
        is_atom(z),
        is_operator(o1),
        is_operator(o2),
    ensures
        ({
            let t = three_operands(x, o1, y, o2, z);
            let e = if binary_precedence(o1)->0 < binary_precedence(o2)->0 {
                binary(o1, atom(x), binary(o2, atom(y), atom(z)))
            } else {
                binary(o2, binary(o1, atom(x), atom(y)), atom(z))
            };
            &&& p_expr(t, 0) == PResult::Good(e, 5)
            &&& parse_tokens(t, Seq::empty()) == Ok::<(Seq<NodeView>, Seq<TokenView>), Seq<char>>(
                (seq![anonymous(e)], Seq::empty()),
            )
        }),
{
    let t = three_operands(x, o1, y, o2, z);
    let p1 = binary_precedence(o1)->0;
    let p2 = binary_precedence(o2)->0;
    assert(t[0] == x && t[1] == TokenView::Operator(o1) && t[2] == y);
    assert(t[3] == TokenView::Operator(o2) && t[4] == z && t.len() == 5);
    assert(p_primary(t, 0) == PResult::Good(atom(x), 1));
    assert(p_primary(t, 2) == PResult::Good(atom(y), 3));
    assert(p_primary(t, 4) == PResult::Good(atom(z), 5));
    assert(p1 >= 0 && p2 >= 0);
    assert(!binds_tighter(t, 5, p1) && !binds_tighter(t, 5, p2) && !binds_tighter(t, 5, 0));
    let e = if p1 < p2 {
        let inner = binary(o2, atom(y), atom(z));
        assert(p_climb(t, 5, p1, inner) == PResult::Good(inner, 5));
        assert(binds_tighter(t, 3, p1));
        assert(p_climb(t, 3, p1, atom(y)) == PResult::Good(inner, 5));
        let whole = binary(o1, atom(x), inner);
        assert(p_climb(t, 5, 0, whole) == PResult::Good(whole, 5));
        assert(p_climb(t, 1, 0, atom(x)) == PResult::Good(whole, 5));
        whole
    } else {
        let left = binary(o1, atom(x), atom(y));
        let whole = binary(o2, left, atom(z));
        assert(!binds_tighter(t, 3, p1));
        assert(p_climb(t, 5, 0, whole) == PResult::Good(whole, 5));
        assert(p_climb(t, 3, 0, left) == PResult::Good(whole, 5));
        assert(p_climb(t, 1, 0, atom(x)) == PResult::Good(whole, 5));
        whole
    };
    assert(p_expr(t, 0) == PResult::Good(e, 5));
    assert(t[0] != TokenView::Delimiter && t[0] != TokenView::Fun && t[0] != TokenView::Use);
    assert(p_item(t, 0) == PResult::Good(anonymous(e), 5));
    let acc = Seq::<NodeView>::empty().push(anonymous(e));
    assert(p_program(t, 5, acc) == Ok::<(Seq<NodeView>, int), Seq<char>>((acc, 5)));
    assert(p_program(t, 0, Seq::empty()) == Ok::<(Seq<NodeView>, int), Seq<char>>((acc, 5)));
    assert(acc =~= seq![anonymous(e)]);
    assert(t.skip(5) =~= Seq::<TokenView>::empty());
}

/// `r` with its position counted from `k` on.
pub open spec fn shift<T>(r: PResult<T>, k: int) -> PResult<T> {
    match r {
        PResult::Good(v, p) => PResult::Good(v, p - k),
        PResult::NotComplete => PResult::NotComplete,
        PResult::Bad(m) => PResult::Bad(m),
    }
}

proof fn lemma_shift_expr(t: Seq<TokenView>, k: int, pos: int)
    requires
        0 <= k <= pos <= t.len(),
    ensures
        p_expr(t.skip(k), pos - k) == shift(p_expr(t, pos), k),
    decreases t.len() - pos, 3int,
{
    lemma_shift_primary(t, k, pos);
    if let PResult::Good(lhs, p1) = p_primary(t, pos) {
        if advances(t, pos, p1) {
            lemma_shift_climb(t, k, p1, 0, lhs);
        }
    }
}

proof fn lemma_shift_climb(t: Seq<TokenView>, k: int, pos: int, min: int, lhs: ExprView)
    requires
        0 <= k <= pos <= t.len(),
    ensures
        p_climb(t.skip(k), pos - k, min, lhs) == shift(p_climb(t, pos, min, lhs), k),
    decreases t.len() - pos, 0int,
{
    let u = t.skip(k);
    if pos < t.len() {
        assert(u[pos - k] == t[pos]);
        if let TokenView::Operator(op) = t[pos] {
            if let Some(pr) = binary_precedence(op) {
                if pr >= min {
                    lemma_shift_primary(t, k, pos + 1);
                    if let PResult::Good(rhs, p1) = p_primary(t, pos + 1) {
                        if advances(t, pos, p1) {
                            if p1 < t.len() {
                                assert(u[p1 - k] == t[p1]);
                            }
                            assert(binds_tighter(u, p1 - k, pr) == binds_tighter(t, p1, pr));
                            let operand = if binds_tighter(t, p1, pr) {
                                lemma_shift_climb(t, k, p1, pr, rhs);
                                p_climb(t, p1, pr, rhs)
                            } else {
                                PResult::Good(rhs, p1)
                            };
                            if let PResult::Good(rhs2, p2) = operand {
                                if advances(t, pos, p2) {
                                    lemma_shift_climb(
                                        t,
                                        k,
                                        p2,
                                        min,
                                        ExprView::Binary(op, Box::new(lhs), Box::new(rhs2)),
                                    );
                                }
                            }
                        }
                    }
                }
            }
        }
    }
}

proof fn lemma_shift_primary(t: Seq<TokenView>, k: int, pos: int)
    requires
        0 <= k <= pos <= t.len(),
    ensures
        p_primary(t.skip(k), pos - k) == shift(p_primary(t, pos), k),
    decreases t.len() - pos, 2int,
{
    let u = t.skip(k);
    if pos < t.len() {
        assert(u[pos - k] == t[pos]);
        if pos + 1 < t.len() {
            assert(u[pos + 1 - k] == t[pos + 1]);
        }
        match t[pos] {
            TokenView::Ident(name) => {
                if is_token(t, pos + 1, TokenView::OpeningParenthesis) {
                    lemma_shift_args(t, k, pos + 2, Seq::empty());
                }
            },
            TokenView::OpeningParenthesis => {
                lemma_shift_expr(t, k, pos + 1);
                if let PResult::Good(e, p) = p_expr(t, pos + 1) {
                    if advances(t, pos, p) && p < t.len() {
                        assert(u[p - k] == t[p]);
                    }
                }
            },
            TokenView::If => {
                lemma_shift_conditional(t, k, pos);
            },
            _ => {},
        }
    }
}

#[verifier::rlimit(50)]
proof fn lemma_shift_conditional(t: Seq<TokenView>, k: int, pos: int)
    requires
        0 <= k <= pos <= t.len(),
    ensures
        p_conditional(t.skip(k), pos - k) == shift(p_conditional(t, pos), k),
    decreases t.len() - pos, 1int,
{
    let u = t.skip(k);
    if pos < t.len() {
        lemma_shift_expr(t, k, pos + 1);
        if let PResult::Good(c, p1) = p_expr(t, pos + 1) {
            if advances(t, pos, p1) {
                if p1 < t.len() {
                    assert(u[p1 - k] == t[p1]);
                }
                if is_token(t, p1, TokenView::OpeningBrace) {
                    lemma_shift_expr(t, k, p1 + 1);
                    if let PResult::Good(a, p2) = p_expr(t, p1 + 1) {
                        if advances(t, p1, p2) {
                            if p2 < t.len() {
                                assert(u[p2 - k] == t[p2]);
                            }
                            if p2 + 1 < t.len() {
                                assert(u[p2 + 1 - k] == t[p2 + 1]);
                            }
                            if p2 + 2 < t.len() {
                                assert(u[p2 + 2 - k] == t[p2 + 2]);
                            }
                            if is_token(t, p2, TokenView::ClosingBrace) && is_token(
                                t,
                                p2 + 1,
                                TokenView::Else,
                            ) && is_token(t, p2 + 2, TokenView::OpeningBrace) {
                                lemma_shift_expr(t, k, p2 + 3);
                                if let PResult::Good(b, p3) = p_expr(t, p2 + 3) {
                                    if advances(t, p2, p3) && p3 < t.len() {
                                        assert(u[p3 - k] == t[p3]);
                                    }
                                }
                            }
                        }
                    }
                }
            }
        }
    }
}

proof fn lemma_shift_args(t: Seq<TokenView>, k: int, pos: int, acc: Seq<ExprView>)
    requires
        0 <= k <= pos <= t.len(),
    ensures
        p_args(t.skip(k), pos - k, acc) == shift(p_args(t, pos, acc), k),
    decreases t.len() - pos, 4int,
{
    let u = t.skip(k);
    if pos < t.len() {
        assert(u[pos - k] == t[pos]);
        lemma_shift_expr(t, k, pos);
        if let PResult::Good(e, p) = p_expr(t, pos) {
            if advances(t, pos, p) {
                if p < t.len() {
                    assert(u[p - k] == t[p]);
                }
                if is_token(t, p, TokenView::Comma) {
                    lemma_shift_args(t, k, p + 1, acc.push(e));
                }
            }
        }
    }
}

proof fn lemma_shift_params(t: Seq<TokenView>, k: int, pos: int, acc: Seq<Seq<char>>)
    requires
        0 <= k <= pos <= t.len(),
    ensures
        p_params(t.skip(k), pos - k, acc) == shift(p_params(t, pos, acc), k),
    decreases t.len() - pos,
{
    let u = t.skip(k);
    if pos < t.len() {
        assert(u[pos - k] == t[pos]);
        if pos + 1 < t.len() {
            assert(u[pos + 1 - k] == t[pos + 1]);
        }
        if let TokenView::Ident(a) = t[pos] {
            if is_token(t, pos + 1, TokenView::Comma) {
                lemma_shift_params(t, k, pos + 2, acc.push(a));
            }
        }
    }
}

proof fn lemma_params_advance(t: Seq<TokenView>, pos: int, acc: Seq<Seq<char>>)
    ensures
        p_params(t, pos, acc) matches PResult::Good(_, p) ==> p > pos,
    decreases t.len() - pos,
{
    if 0 <= pos < t.len() {
        if let TokenView::Ident(a) = t[pos] {
            if is_token(t, pos + 1, TokenView::Comma) {
                lemma_params_advance(t, pos + 2, acc.push(a));
            }
        }
    }
}

proof fn lemma_shift_prototype(t: Seq<TokenView>, k: int, pos: int)
    requires
        0 <= k <= pos <= t.len(),
    ensures
        p_prototype(t.skip(k), pos - k) == shift(p_prototype(t, pos), k),
        p_prototype(t, pos) matches PResult::Good(_, p) ==> p > pos,
{
    let u = t.skip(k);
    if pos < t.len() {
        assert(u[pos - k] == t[pos]);
        if pos + 1 < t.len() {
            assert(u[pos + 1 - k] == t[pos + 1]);
        }
        if t[pos] is Ident && is_token(t, pos + 1, TokenView::OpeningParenthesis) {
            lemma_shift_params(t, k, pos + 2, Seq::empty());
            lemma_params_advance(t, pos + 2, Seq::empty());
        }
    }
}

proof fn lemma_shift_item(t: Seq<TokenView>, k: int)
    requires
        0 <= k < t.len(),
    ensures
        p_item(t.skip(k), 0) == shift(p_item(t, k), k),
{
    let u = t.skip(k);
    assert(u[0] == t[k]);
    if is_token(t, k, TokenView::Fun) || is_token(t, k, TokenView::Use) {
        lemma_shift_prototype(t, k, k + 1);
        if let PResult::Good(proto, p1) = p_prototype(t, k + 1) {
            if p1 < t.len() {
                assert(u[p1 - k] == t[p1]);
            }
            if is_token(t, p1, TokenView::OpeningBrace) {
                lemma_shift_expr(t, k, p1 + 1);
                if let PResult::Good(body, p2) = p_expr(t, p1 + 1) {
                    if advances(t, p1, p2) && p2 < t.len() {
                        assert(u[p2 - k] == t[p2]);
                    }
                }
            }
        }
    } else {
        lemma_shift_expr(t, k, k);
    }
}

/// Where `p_program` stops: at the end, or at an item that is incomplete.
proof fn lemma_program_stop(t: Seq<TokenView>, pos: int, acc: Seq<NodeView>)
    requires
        0 <= pos <= t.len(),
    ensures
        p_program(t, pos, acc) matches Ok((items, q)) ==> pos <= q <= t.len() && (q == t.len()
            || (t[q] != TokenView::Delimiter && match p_item(t, q) {
            PResult::Good(_, p) => !advances(t, q, p),
            PResult::NotComplete => true,
            PResult::Bad(_) => false,
        })),
    decreases t.len() - pos,
{
    if pos < t.len() {
        if t[pos] == TokenView::Delimiter {
            lemma_program_stop(t, pos + 1, acc);
        } else if let PResult::Good(n, p) = p_item(t, pos) {
            if advances(t, pos, p) {
                lemma_program_stop(t, p, acc.push(n));
            }
        }
    }
}

/// Parsing again what a parse left over, after the items it returned, gives
/// the same items and leftover: without new tokens the result is a fixed point.
pub proof fn lemma_parse_reentry(tokens: Seq<TokenView>, prefix: Seq<NodeView>)
    ensures
        parse_tokens(tokens, prefix) matches Ok((tree, leftover)) ==> parse_tokens(leftover, tree)
            == Ok::<(Seq<NodeView>, Seq<TokenView>), Seq<char>>((tree, leftover)),
{
    lemma_program_stop(tokens, 0, prefix);
    if let Ok((tree, q)) = p_program(tokens, 0, prefix) {
        let l = tokens.skip(q);
        assert(l.skip(0) =~= l);
        if q < tokens.len() {
            lemma_shift_item(tokens, q);
            assert(l[0] == tokens[q]);
        }
    }
}

/// The tokens `o1 a1 o2 a2 ...` of a chain of operators and operands.
pub open spec fn chain_tokens(rest: Seq<(Seq<char>, TokenView)>) -> Seq<TokenView>
    decreases rest.len(),
{
    if rest.len() == 0 {
        Seq::empty()
    } else {
        seq![TokenView::Operator(rest[0].0), rest[0].1] + chain_tokens(rest.drop_first())
    }
}

/// `acc o1 a1 o2 a2 ...` grouped from the left.
pub open spec fn fold_left(acc: ExprView, rest: Seq<(Seq<char>, TokenView)>) -> ExprView
    decreases rest.len(),
{
    if rest.len() == 0 {
        acc
    } else {
        fold_left(binary(rest[0].0, acc, atom(rest[0].1)), rest.drop_first())
    }
}

proof fn lemma_chain_len(rest: Seq<(Seq<char>, TokenView)>)
    ensures
        chain_tokens(rest).len() == 2 * rest.len(),
    decreases rest.len(),
{
    if rest.len() > 0 {
        lemma_chain_len(rest.drop_first());
    }
}

proof fn lemma_climb_chain(
    pre: Seq<TokenView>,
    rest: Seq<(Seq<char>, TokenView)>,
    acc: ExprView,
    min: int,
    p: int,
)
    requires
        min <= p,
        forall|i: int|
            0 <= i < rest.len() ==> binary_precedence(#[trigger] rest[i].0) == Some(p) && is_atom(
                rest[i].1,
            ),
    ensures
        p_climb(pre + chain_tokens(rest), pre.len() as int, min, acc) == PResult::Good(
            fold_left(acc, rest),
            (pre + chain_tokens(rest)).len() as int,
        ),
    decreases rest.len(),
{
    let t = pre + chain_tokens(rest);
    let pos = pre.len() as int;
    lemma_chain_len(rest);
    if rest.len() > 0 {
        let (op, a) = rest[0];
        let tail = rest.drop_first();
        let pre2 = pre + seq![TokenView::Operator(op), a];
        assert(t =~= pre2 + chain_tokens(tail));
        assert(t[pos] == TokenView::Operator(op) && t[pos + 1] == a);
        assert(binary_precedence(op) == Some(p));
        lemma_chain_len(tail);
        if tail.len() > 0 {
            assert(t[pos + 2] == TokenView::Operator(tail[0].0));
            assert(binary_precedence(tail[0].0) == Some(p));
        }
        assert(p_primary(t, pos + 1) == PResult::Good(atom(a), pos + 2));
        assert(!binds_tighter(t, pos + 2, p));
        let next = binary(op, acc, atom(a));
        assert forall|i: int|
            0 <= i < tail.len() implies binary_precedence(#[trigger] tail[i].0) == Some(p)
            && is_atom(tail[i].1) by {
            assert(tail[i] == rest[i + 1]);
        }
        lemma_climb_chain(pre2, tail, next, min, p);
        assert(p_climb(t, pos, min, acc) == p_climb(t, pos + 2, min, next));
    } else {
        assert(t =~= pre);
    }
}

/// Operators of one precedence group from the left: `a0 o1 a1 o2 a2 ...`
/// parses as `((a0 o1 a1) o2 a2) ...`, however long the chain.
pub proof fn lemma_left_associative(a0: TokenView, rest: Seq<(Seq<char>, TokenView)>, p: int)
    requires
        is_atom(a0),
        forall|i: int|
            0 <= i < rest.len() ==> binary_precedence(#[trigger] rest[i].0) == Some(p) && is_atom(
                rest[i].1,
            ),
    ensures
        p_expr(seq![a0] + chain_tokens(rest), 0) == PResult::Good(
            fold_left(atom(a0), rest),
            1 + 2 * rest.len() as int,
        ),
{
    let t = seq![a0] + chain_tokens(rest);
    lemma_chain_len(rest);
    if rest.len() > 0 {
        assert(t[1] == TokenView::Operator(rest[0].0));
        assert(binary_precedence(rest[0].0) == Some(p));
        assert(p >= 0);
    }
    assert(p_primary(t, 0) == PResult::Good(atom(a0), 1));
    if rest.len() > 0 {
        lemma_climb_chain(seq![a0], rest, atom(a0), 0, p);
    }
}

} // verus!
