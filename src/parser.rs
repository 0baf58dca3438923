//! The parser: tokens to top-level items, by recursive descent with
//! precedence climbing for binary operators.
use vstd::prelude::*;

use crate::ast::{
    args_view, lemma_args_view_len, lemma_args_view_push, names_view, nodes_view, ASTNode,
    Expression, Function, Prototype,
};
use crate::grammar::{
    binary_precedence, binds_tighter, p_args, p_climb, p_conditional, p_declaration,
    p_definition, p_expr, p_item, p_params, p_primary, p_program, p_prototype, parse_tokens,
    PResult,
};
use crate::token::{tokens_view, Token, TokenView};

verus! {

/// The operators the parser knows and their precedences.
#[derive(Debug)]
pub struct ParserSettings {
    pub operator_precedence: Vec<(String, i32)>,
}

/// The precedence of the first entry for `op`.
pub open spec fn precedence_in(entries: Seq<(String, i32)>, op: Seq<char>) -> Option<int>
    decreases entries.len(),
{
    if entries.len() == 0 {
        None
    } else if entries[0].0@ == op {
        Some(entries[0].1 as int)
    } else {
        precedence_in(entries.drop_first(), op)
    }
}

impl ParserSettings {
    pub open spec fn precedence_of(&self, op: Seq<char>) -> Option<int> {
        precedence_in(self.operator_precedence@, op)
    }

    /// No operator has two entries, so the table is a map from operators to
    /// precedences.
    pub open spec fn keys_unique(&self) -> bool {
        forall|i: int, j: int|
            0 <= i < j < self.operator_precedence@.len() ==> (#[trigger] self.operator_precedence@[i]).0@
                != (#[trigger] self.operator_precedence@[j]).0@
    }

    /// The settings give every operator the precedence of the grammar.
    pub open spec fn is_standard(&self) -> bool {
        forall|op: Seq<char>| #[trigger] self.precedence_of(op) == binary_precedence(op)
    }

    /// The precedence of `op`, if it is an operator of these settings.
    pub fn precedence(&self, op: &String) -> (r: Option<i32>)
        ensures
            match r {
                Some(p) => self.precedence_of(op@) == Some(p as int),
                None => self.precedence_of(op@) is None,
            },
    {
        let entries = &self.operator_precedence;
        let mut i: usize = 0;
        assert(entries@.skip(0) =~= entries@);
        while i < entries.len()
            invariant
                i <= entries.len(),
                entries@ == self.operator_precedence@,
                precedence_in(entries@, op@) == precedence_in(entries@.skip(i as int), op@),
            decreases entries.len() - i,
        {
            assert(entries@.skip(i as int).drop_first() =~= entries@.skip(i + 1));
            assert(entries@.skip(i as int)[0] == entries@[i as int]);
            let same = entries[i].0.eq(op);
            if same {
                return Some(entries[i].1);
            }
            i += 1;
        }
        None
    }
}

impl Default for ParserSettings {
    /// `<` at 10, `+` and `-` at 20, `*` and `/` at 40.
    fn default() -> (r: Self)
        ensures
            r.is_standard(),
            r.keys_unique(),
    {
        let operator_precedence = vec![
            (String::from_str("<"), 10),
            (String::from_str("+"), 20),
            (String::from_str("-"), 20),
            (String::from_str("*"), 40),
            (String::from_str("/"), 40),
        ];
        let r = ParserSettings { operator_precedence };
        proof {
            reveal_strlit("<");
            reveal_strlit("+");
            reveal_strlit("-");
            reveal_strlit("*");
            reveal_strlit("/");
            reveal_with_fuel(precedence_in, 6);
            let e = r.operator_precedence@;
            assert(e.drop_first().drop_first().drop_first().drop_first().drop_first().len() == 0);
            assert forall|op: Seq<char>| #[trigger] r.precedence_of(op) == binary_precedence(op) by {
                assert(e[0].0@ =~= seq!['<']);
                assert(e[1].0@ =~= seq!['+']);
                assert(e[2].0@ =~= seq!['-']);
                assert(e[3].0@ =~= seq!['*']);
                assert(e[4].0@ =~= seq!['/']);
                assert(e.drop_first()[0] == e[1]);
                assert(e.drop_first().drop_first()[0] == e[2]);
                assert(e.drop_first().drop_first().drop_first()[0] == e[3]);
                assert(e.drop_first().drop_first().drop_first().drop_first()[0] == e[4]);
            }
            assert(e[0].0@ =~= seq!['<']);
            assert(e[1].0@ =~= seq!['+']);
            assert(e[2].0@ =~= seq!['-']);
            assert(e[3].0@ =~= seq!['*']);
            assert(e[4].0@ =~= seq!['/']);
            assert forall|i: int, j: int| 0 <= i < j < e.len() implies (#[trigger] e[i]).0@ != (
            #[trigger] e[j]).0@ by {
                assert(e[i].0@[0] != e[j].0@[0]);
            }
        }
        r
    }
}

/// The outcome of parsing one construct: the value and the position after
/// it, or `NotComplete` when the tokens ran out first, or an error message.
pub enum Step<T> {
    Good(T, usize),
    NotComplete,
    Bad(String),
}

/// `r` is the outcome `s`, with values compared through `view`.
pub open spec fn agrees<T, V>(r: Step<T>, s: PResult<V>, view: spec_fn(T) -> V) -> bool {
    match r {
        Step::Good(x, p) => s matches PResult::Good(v, q) && view(x) == v && p as int == q,
        Step::NotComplete => s is NotComplete,
        Step::Bad(m) => s matches PResult::Bad(n) && m@ == n,
    }
}

pub open spec fn moves_on<T>(r: Step<T>, from: int, len: int) -> bool {
    r matches Step::Good(_, p) ==> from < p <= len
}

fn bad<T>(m: &str) -> (r: Step<T>)
    ensures
        r matches Step::Bad(s) && s@ == m@,
{
    Step::Bad(String::from_str(m))
}

/// What finding anything but the expected token at `pos` gives.
fn unexpected<T>(t: &[Token], pos: usize, m: &str) -> (r: Step<T>)
    ensures
        pos >= t.len() ==> r is NotComplete,
        pos < t.len() ==> (r matches Step::Bad(s) && s@ == m@),
{
    if pos >= t.len() {
        Step::NotComplete
    } else {
        bad(m)
    }
}

fn binds_tighter_at(t: &[Token], pos: usize, pr: i32, settings: &ParserSettings) -> (r: bool)
    requires
        settings.is_standard(),
    ensures
        r == binds_tighter(tokens_view(t@), pos as int, pr as int),
{
    if pos >= t.len() {
        return false;
    }
    assert(tokens_view(t@)[pos as int] == t@[pos as int]@);
    match &t[pos] {
        Token::Operator(op) => match settings.precedence(op) {
            Some(p) => p > pr,
            None => false,
        },
        _ => false,
    }
}

/// Parses an expression that starts at `pos`.
pub fn parse_expr(t: &[Token], pos: usize, settings: &ParserSettings) -> (r: Step<Expression>)
    requires
        pos <= t.len(),
        settings.is_standard(),
    ensures
        agrees(r, p_expr(tokens_view(t@), pos as int), |e: Expression| e@),
        moves_on(r, pos as int, t.len() as int),
    decreases t.len() - pos, 3int,
{
    match parse_primary(t, pos, settings) {
        Step::Good(lhs, p1) => parse_climb(t, p1, 0, lhs, settings),
        Step::NotComplete => Step::NotComplete,
        Step::Bad(m) => Step::Bad(m),
    }
}

/// Extends `lhs` with the operators from `pos` on of precedence at least `min`.
fn parse_climb(t: &[Token], pos: usize, min: i32, lhs: Expression, settings: &ParserSettings) -> (r:
    Step<Expression>)
    requires
        pos <= t.len(),
        settings.is_standard(),
    ensures
        agrees(r, p_climb(tokens_view(t@), pos as int, min as int, lhs@), |e: Expression| e@),
        r matches Step::Good(_, p) ==> pos <= p <= t.len(),
    decreases t.len() - pos, 0int,
{
    if pos >= t.len() {
        return Step::Good(lhs, pos);
    }
    assert(tokens_view(t@)[pos as int] == t@[pos as int]@);
    match &t[pos] {
        Token::Operator(op) => match settings.precedence(op) {
            None => bad("unknown operator found"),
            Some(pr) => {
                if pr < min {
                    Step::Good(lhs, pos)
                } else {
                    match parse_primary(t, pos + 1, settings) {
                        Step::Good(rhs, p1) => {
                            let operand = if binds_tighter_at(t, p1, pr, settings) {
                                parse_climb(t, p1, pr, rhs, settings)
                            } else {
                                Step::Good(rhs, p1)
                            };
                            match operand {
                                Step::Good(rhs2, p2) => parse_climb(
                                    t,
                                    p2,
                                    min,
                                    Expression::Binary(op.clone(), Box::new(lhs), Box::new(rhs2)),
                                    settings,
                                ),
                                Step::NotComplete => Step::NotComplete,
                                Step::Bad(m) => Step::Bad(m),
                            }
                        },
                        Step::NotComplete => Step::NotComplete,
                        Step::Bad(m) => Step::Bad(m),
                    }
                }
            },
        },
        _ => Step::Good(lhs, pos),
    }
}

/// Parses a primary expression that starts at `pos`.
fn parse_primary(t: &[Token], pos: usize, settings: &ParserSettings) -> (r: Step<Expression>)
    requires
        pos <= t.len(),
        settings.is_standard(),
    ensures
        agrees(r, p_primary(tokens_view(t@), pos as int), |e: Expression| e@),
        moves_on(r, pos as int, t.len() as int),
    decreases t.len() - pos, 2int,
{
    if pos >= t.len() {
        return Step::NotComplete;
    }
    let ghost tv = tokens_view(t@);
    assert(tv[pos as int] == t@[pos as int]@);
    match &t[pos] {
        Token::Ident(name) => {
            if pos + 1 < t.len() && matches!(t[pos + 1], Token::OpeningParenthesis) {
                assert(tv[pos + 1] == t@[pos + 1]@);
                let empty: Vec<Expression> = Vec::new();
                match parse_args(t, pos + 2, empty, settings) {
                    Step::Good(args, p) => Step::Good(Expression::Call(name.clone(), args), p),
                    Step::NotComplete => Step::NotComplete,
                    Step::Bad(m) => Step::Bad(m),
                }
            } else {
                proof {
                    if pos + 1 < t.len() {
                        assert(tv[pos + 1] == t@[pos + 1]@);
                    }
                }
                Step::Good(Expression::Variable(name.clone()), pos + 1)
            }
        },
        Token::Number(v) => Step::Good(Expression::Literal(v.clone()), pos + 1),
        Token::OpeningParenthesis => match parse_expr(t, pos + 1, settings) {
            Step::Good(e, p) => {
                if p < t.len() && matches!(t[p], Token::ClosingParenthesis) {
                    assert(tv[p as int] == t@[p as int]@);
                    Step::Good(e, p + 1)
                } else {
                    proof {
                        if p < t.len() {
                            assert(tv[p as int] == t@[p as int]@);
                        }
                    }
                    unexpected(t, p, "')' expected")
                }
            },
            Step::NotComplete => Step::NotComplete,
            Step::Bad(m) => Step::Bad(m),
        },
        Token::If => parse_conditional(t, pos, settings),
        _ => bad("unknown token when expecting an expression"),
    }
}

/// Parses `if expr { expr } else { expr }` with `pos` at the `if`.
fn parse_conditional(t: &[Token], pos: usize, settings: &ParserSettings) -> (r: Step<Expression>)
    requires
        pos < t.len(),
        settings.is_standard(),
    ensures
        agrees(r, p_conditional(tokens_view(t@), pos as int), |e: Expression| e@),
        moves_on(r, pos as int, t.len() as int),
    decreases t.len() - pos, 1int,
{
    let ghost tv = tokens_view(t@);
    let (cond, p1) = match parse_expr(t, pos + 1, settings) {
        Step::Good(c, p) => (c, p),
        Step::NotComplete => return Step::NotComplete,
        Step::Bad(m) => return Step::Bad(m),
    };
    if !(p1 < t.len() && matches!(t[p1], Token::OpeningBrace)) {
        proof {
            if p1 < t.len() {
                assert(tv[p1 as int] == t@[p1 as int]@);
            }
        }
        return unexpected(t, p1, "expected `{` after if's condition");
    }
    assert(tv[p1 as int] == t@[p1 as int]@);
    let (then_expr, p2) = match parse_expr(t, p1 + 1, settings) {
        Step::Good(a, p) => (a, p),
        Step::NotComplete => return Step::NotComplete,
        Step::Bad(m) => return Step::Bad(m),
    };
    proof {
        if p2 < t.len() {
            assert(tv[p2 as int] == t@[p2 as int]@);
        }
        if p2 + 1 < t.len() {
            assert(tv[p2 + 1] == t@[p2 + 1]@);
        }
        if p2 + 2 < t.len() {
            assert(tv[p2 + 2] == t@[p2 + 2]@);
        }
    }
    if !(p2 < t.len() && matches!(t[p2], Token::ClosingBrace)) {
        return unexpected(t, p2, "expected `}` after if's body");
    }
    if !(p2 + 1 < t.len() && matches!(t[p2 + 1], Token::Else)) {
        return unexpected(t, p2 + 1, "expected else after if's body");
    }
    if !(p2 + 2 < t.len() && matches!(t[p2 + 2], Token::OpeningBrace)) {
        return unexpected(t, p2 + 2, "expected `{` after else");
    }
    let (else_expr, p3) = match parse_expr(t, p2 + 3, settings) {
        Step::Good(b, p) => (b, p),
        Step::NotComplete => return Step::NotComplete,
        Step::Bad(m) => return Step::Bad(m),
    };
    if !(p3 < t.len() && matches!(t[p3], Token::ClosingBrace)) {
        proof {
            if p3 < t.len() {
                assert(tv[p3 as int] == t@[p3 as int]@);
            }
        }
        return unexpected(t, p3, "expected `}` after else's body");
    }
    assert(tv[p3 as int] == t@[p3 as int]@);
    Step::Good(
        Expression::Conditional {
            cond_expr: Box::new(cond),
            if_block_expr: Box::new(then_expr),
            else_block_expr: Box::new(else_expr),
        },
        p3 + 1,
    )
}

/// Parses call arguments from `pos` on, after the arguments `acc`.
fn parse_args(t: &[Token], pos: usize, acc: Vec<Expression>, settings: &ParserSettings) -> (r:
    Step<Vec<Expression>>)
    requires
        pos <= t.len(),
        settings.is_standard(),
    ensures
        agrees(
            r,
            p_args(tokens_view(t@), pos as int, args_view(acc, acc.len() as nat)),
            |v: Vec<Expression>| args_view(v, v.len() as nat),
        ),
        moves_on(r, pos as int, t.len() as int),
    decreases t.len() - pos, 4int,
{
    if pos >= t.len() {
        return Step::NotComplete;
    }
    let ghost tv = tokens_view(t@);
    assert(tv[pos as int] == t@[pos as int]@);
    proof {
        lemma_args_view_len(acc, acc.len() as nat);
    }
    if acc.len() == 0 && matches!(t[pos], Token::ClosingParenthesis) {
        return Step::Good(acc, pos + 1);
    }
    match parse_expr(t, pos, settings) {
        Step::Good(e, p) => {
            let ghost before = acc;
            let mut acc = acc;
            acc.push(e);
            proof {
                lemma_args_view_push(before, acc, e);
                if p < t.len() {
                    assert(tv[p as int] == t@[p as int]@);
                }
            }
            if p < t.len() && matches!(t[p], Token::ClosingParenthesis) {
                Step::Good(acc, p + 1)
            } else if p < t.len() && matches!(t[p], Token::Comma) {
                parse_args(t, p + 1, acc, settings)
            } else {
                unexpected(t, p, "expected ',' or ')' in call arguments")
            }
        },
        Step::NotComplete => Step::NotComplete,
        Step::Bad(m) => Step::Bad(m),
    }
}

/// Parses prototype parameters from `pos` on, after the parameters `acc`.
fn parse_params(t: &[Token], pos: usize, acc: Vec<String>) -> (r: Step<Vec<String>>)
    requires
        pos <= t.len(),
    ensures
        agrees(
            r,
            p_params(tokens_view(t@), pos as int, names_view(acc@)),
            |v: Vec<String>| names_view(v@),
        ),
        moves_on(r, pos as int, t.len() as int),
    decreases t.len() - pos,
{
    if pos >= t.len() {
        return Step::NotComplete;
    }
    let ghost tv = tokens_view(t@);
    assert(tv[pos as int] == t@[pos as int]@);
    proof {
        if pos + 1 < t.len() {
            assert(tv[pos + 1] == t@[pos + 1]@);
        }
    }
    match &t[pos] {
        Token::ClosingParenthesis => {
            if acc.len() == 0 {
                Step::Good(acc, pos + 1)
            } else {
                bad("expected ')' in prototype")
            }
        },
        Token::Ident(a) => {
            let ghost before = acc@;
            let mut acc = acc;
            acc.push(a.clone());
            assert(names_view(acc@) =~= names_view(before).push(a@));
            if pos + 1 < t.len() && matches!(t[pos + 1], Token::ClosingParenthesis) {
                Step::Good(acc, pos + 2)
            } else if pos + 1 < t.len() && matches!(t[pos + 1], Token::Comma) {
                parse_params(t, pos + 2, acc)
            } else {
                unexpected(t, pos + 1, "expected ')' in prototype")
            }
        },
        _ => bad("expected ')' in prototype"),
    }
}

/// Parses `IDENT '(' params` at `pos`.
fn parse_prototype(t: &[Token], pos: usize) -> (r: Step<Prototype>)
    requires
        pos <= t.len(),
    ensures
        agrees(r, p_prototype(tokens_view(t@), pos as int), |p: Prototype| p@),
        moves_on(r, pos as int, t.len() as int),
{
    if pos >= t.len() {
        return Step::NotComplete;
    }
    let ghost tv = tokens_view(t@);
    assert(tv[pos as int] == t@[pos as int]@);
    proof {
        if pos + 1 < t.len() {
            assert(tv[pos + 1] == t@[pos + 1]@);
        }
    }
    match &t[pos] {
        Token::Ident(name) => {
            if !(pos + 1 < t.len() && matches!(t[pos + 1], Token::OpeningParenthesis)) {
                return unexpected(t, pos + 1, "expected '(' in prototype");
            }
            let empty: Vec<String> = Vec::new();
            assert(names_view(empty@) =~= Seq::<Seq<char>>::empty());
            match parse_params(t, pos + 2, empty) {
                Step::Good(args, p) => Step::Good(Prototype { name: name.clone(), args }, p),
                Step::NotComplete => Step::NotComplete,
                Step::Bad(m) => Step::Bad(m),
            }
        },
        _ => bad("expected function name in prototype"),
    }
}

/// Parses a function definition with `pos` at `fun`.
fn parse_definition(t: &[Token], pos: usize, settings: &ParserSettings) -> (r: Step<ASTNode>)
    requires
        pos < t.len(),
        settings.is_standard(),
    ensures
        agrees(r, p_definition(tokens_view(t@), pos as int), |n: ASTNode| n@),
        moves_on(r, pos as int, t.len() as int),
{
    let ghost tv = tokens_view(t@);
    let (prototype, p1) = match parse_prototype(t, pos + 1) {
        Step::Good(proto, p) => (proto, p),
        Step::NotComplete => return Step::NotComplete,
        Step::Bad(m) => return Step::Bad(m),
    };
    if !(p1 < t.len() && matches!(t[p1], Token::OpeningBrace)) {
        proof {
            if p1 < t.len() {
                assert(tv[p1 as int] == t@[p1 as int]@);
            }
        }
        return unexpected(t, p1, "'{' expected");
    }
    assert(tv[p1 as int] == t@[p1 as int]@);
    let (body, p2) = match parse_expr(t, p1 + 1, settings) {
        Step::Good(b, p) => (b, p),
        Step::NotComplete => return Step::NotComplete,
        Step::Bad(m) => return Step::Bad(m),
    };
    if !(p2 < t.len() && matches!(t[p2], Token::ClosingBrace)) {
        proof {
            if p2 < t.len() {
                assert(tv[p2 as int] == t@[p2 as int]@);
            }
        }
        return unexpected(t, p2, "'}' expected");
    }
    assert(tv[p2 as int] == t@[p2 as int]@);
    Step::Good(ASTNode::FunctionNode(Function { prototype, body: Some(body) }), p2 + 1)
}

/// Parses an external declaration with `pos` at `use`.
fn parse_declaration(t: &[Token], pos: usize) -> (r: Step<ASTNode>)
    requires
        pos < t.len(),
    ensures
        agrees(r, p_declaration(tokens_view(t@), pos as int), |n: ASTNode| n@),
        moves_on(r, pos as int, t.len() as int),
{
    match parse_prototype(t, pos + 1) {
        Step::Good(proto, p) => Step::Good(ASTNode::ExternNode(proto), p),
        Step::NotComplete => Step::NotComplete,
        Step::Bad(m) => Step::Bad(m),
    }
}

/// Parses the top-level item at `pos`: a definition, a declaration, or an
/// expression, which becomes a nameless function.
fn parse_item(t: &[Token], pos: usize, settings: &ParserSettings) -> (r: Step<ASTNode>)
    requires
        pos < t.len(),
        settings.is_standard(),
    ensures
        agrees(r, p_item(tokens_view(t@), pos as int), |n: ASTNode| n@),
        moves_on(r, pos as int, t.len() as int),
{
    assert(tokens_view(t@)[pos as int] == t@[pos as int]@);
    match &t[pos] {
        Token::Fun => parse_definition(t, pos, settings),
        Token::Use => parse_declaration(t, pos),
        _ => match parse_expr(t, pos, settings) {
            Step::Good(e, p) => {
                let no_args: Vec<String> = Vec::new();
                let prototype = Prototype { name: String::new(), args: no_args };
                assert(names_view(no_args@) =~= Seq::<Seq<char>>::empty());
                Step::Good(ASTNode::FunctionNode(Function { prototype, body: Some(e) }), p)
            },
            Step::NotComplete => Step::NotComplete,
            Step::Bad(m) => Step::Bad(m),
        },
    }
}

/// Parses `tokens` into top-level items, after the items `parsed_tree`.
///
/// Returns all items, `parsed_tree` first, and the tokens of a last item that
/// the tokens end in the middle of, so that more input can be appended to
/// them; or the first error.
pub fn parse(tokens: &[Token], parsed_tree: &[ASTNode]) -> (r: Result<
    (Vec<ASTNode>, Vec<Token>),
    String,
>)
    ensures
        match parse_tokens(tokens_view(tokens@), nodes_view(parsed_tree@)) {
            Ok((items, rest)) => r matches Ok((ns, ts)) && nodes_view(ns@) == items
                && tokens_view(ts@) == rest,
            Err(m) => r matches Err(e) && e@ == m,
        },
{
    let settings = ParserSettings::default();
    let ghost tv = tokens_view(tokens@);
    let mut tree: Vec<ASTNode> = Vec::new();
    let mut k: usize = 0;
    while k < parsed_tree.len()
        invariant
            k <= parsed_tree.len(),
            nodes_view(tree@) == nodes_view(parsed_tree@.take(k as int)),
        decreases parsed_tree.len() - k,
    {
        let ghost before = tree@;
        let node = parsed_tree[k].clone();
        tree.push(node);
        assert(nodes_view(tree@) =~= nodes_view(before).push(node@));
        assert(parsed_tree@.take(k + 1) =~= parsed_tree@.take(k as int).push(parsed_tree@[k as int]));
        assert(nodes_view(parsed_tree@.take(k + 1)) =~= nodes_view(parsed_tree@.take(k as int)).push(
            parsed_tree@[k as int]@,
        ));
        k += 1;
    }
    assert(parsed_tree@.take(parsed_tree.len() as int) =~= parsed_tree@);
    let mut pos: usize = 0;
    let mut stopped = false;
    while pos < tokens.len() && !stopped
        invariant
            pos <= tokens.len(),
            settings.is_standard(),
            tv == tokens_view(tokens@),
            p_program(tv, pos as int, nodes_view(tree@)) == p_program(
                tv,
                0,
                nodes_view(parsed_tree@),
            ),
            stopped ==> p_program(tv, pos as int, nodes_view(tree@)) == Ok::<
                (Seq<crate::ast::NodeView>, int),
                Seq<char>,
            >((nodes_view(tree@), pos as int)),
        decreases tokens.len() - pos, if stopped {
            0int
        } else {
            1int
        },
    {
        assert(tv[pos as int] == tokens@[pos as int]@);
        if matches!(tokens[pos], Token::Delimiter) {
            pos += 1;
        } else {
            match parse_item(tokens, pos, &settings) {
                Step::Good(n, p) => {
                    let ghost before = tree@;
                    tree.push(n);
                    assert(nodes_view(tree@) =~= nodes_view(before).push(n@));
                    pos = p;
                },
                Step::NotComplete => {
                    stopped = true;
                },
                Step::Bad(m) => {
                    return Err(m);
                },
            }
        }
    }
    let mut rest: Vec<Token> = Vec::new();
    let mut j: usize = pos;
    while j < tokens.len()
        invariant
            pos <= j <= tokens.len(),
            tokens_view(rest@) == tokens_view(tokens@.subrange(pos as int, j as int)),
        decreases tokens.len() - j,
    {
        let ghost before = rest@;
        let tok = tokens[j].clone();
        rest.push(tok);
        assert(tokens_view(rest@) =~= tokens_view(before).push(tok@));
        assert(tokens@.subrange(pos as int, j + 1) =~= tokens@.subrange(pos as int, j as int).push(
            tokens@[j as int],
        ));
        assert(tokens_view(tokens@.subrange(pos as int, j + 1)) =~= tokens_view(
            tokens@.subrange(pos as int, j as int),
        ).push(tokens@[j as int]@));
        j += 1;
        assert(tokens_view(rest@) =~= tokens_view(tokens@.subrange(pos as int, j as int)));
    }
    assert(tokens_view(tokens@.subrange(pos as int, tokens.len() as int)) =~= tv.skip(pos as int));
    Ok((tree, rest))
}

} // verus!
