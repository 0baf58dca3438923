//! The lexer: source text to tokens, in one left-to-right pass.
use vstd::prelude::*;

use crate::chars::{
    is_digit, is_digit_char, is_letter, is_letter_char, is_space, is_space_char, is_word,
    is_word_char, lemma_word_not_space,
};
use crate::text::{all_ascii, chars_of, string_from_chars};
use crate::token::{tokens_view, Token, TokenView};

verus! {

/// Number of leading identifier characters.
pub open spec fn word_run(s: Seq<char>) -> nat
    decreases s.len(),
{
    if s.len() > 0 && is_word(s[0]) {
        1 + word_run(s.drop_first())
    } else {
        0
    }
}

/// Number of leading decimal digits.
pub open spec fn digit_run(s: Seq<char>) -> nat
    decreases s.len(),
{
    if s.len() > 0 && is_digit(s[0]) {
        1 + digit_run(s.drop_first())
    } else {
        0
    }
}

/// Number of characters before the first newline; all of them when there is none.
pub open spec fn line_len(s: Seq<char>) -> nat
    decreases s.len(),
{
    if s.len() == 0 || s[0] == '\n' {
        0
    } else {
        1 + line_len(s.drop_first())
    }
}

/// Length of a numeral: digits, then optionally `.` and more digits.
pub open spec fn number_len(s: Seq<char>) -> nat {
    let d = digit_run(s);
    if d < s.len() && s[d as int] == '.' {
        d + 1 + digit_run(s.skip(d + 1int))
    } else {
        d
    }
}

/// Length of the token at the start of `s`.
pub open spec fn token_len(s: Seq<char>) -> nat
    recommends
        s.len() > 0,
{
    if is_letter(s[0]) {
        1 + word_run(s.drop_first())
    } else if is_digit(s[0]) {
        number_len(s)
    } else {
        1
    }
}

/// A line comment starts here: a `#` that a newline follows somewhere.
pub open spec fn comment_at(s: Seq<char>) -> bool {
    s.len() > 0 && s[0] == '#' && line_len(s) < s.len()
}

pub open spec fn strip_leading_zeros(s: Seq<char>) -> Seq<char>
    decreases s.len(),
{
    if s.len() > 0 && s[0] == '0' {
        strip_leading_zeros(s.drop_first())
    } else {
        s
    }
}

pub open spec fn strip_trailing_zeros(s: Seq<char>) -> Seq<char>
    decreases s.len(),
{
    if s.len() > 0 && s.last() == '0' {
        strip_trailing_zeros(s.drop_last())
    } else {
        s
    }
}

/// The value of a numeral written in canonical form: no leading zeros in the
/// whole part (which is `0` when empty), no trailing zeros in the fraction,
/// and no `.` when the fraction is empty.
pub open spec fn canonical_numeral(lexeme: Seq<char>) -> Seq<char> {
    let d = digit_run(lexeme);
    let w = strip_leading_zeros(lexeme.take(d as int));
    let whole = if w.len() == 0 {
        seq!['0']
    } else {
        w
    };
    let frac = if d < lexeme.len() {
        strip_trailing_zeros(lexeme.skip(d + 1int))
    } else {
        Seq::<char>::empty()
    };
    if frac.len() == 0 {
        whole
    } else {
        whole + seq!['.'] + frac
    }
}

/// The token for an identifier-shaped lexeme: a reserved word or an identifier.
pub open spec fn word_token(w: Seq<char>) -> TokenView {
    if w == seq!['f', 'u', 'n'] {
        TokenView::Fun
    } else if w == seq!['u', 's', 'e'] {
        TokenView::Use
    } else if w == seq!['i', 'f'] {
        TokenView::If
    } else if w == seq!['e', 'l', 's', 'e'] {
        TokenView::Else
    } else {
        TokenView::Ident(w)
    }
}

/// The token for a lexeme found by `token_len`.
pub open spec fn token_for(lexeme: Seq<char>) -> TokenView
    recommends
        lexeme.len() > 0,
{
    let c = lexeme[0];
    if is_letter(c) {
        word_token(lexeme)
    } else if is_digit(c) {
        TokenView::Number(canonical_numeral(lexeme))
    } else if c == ';' {
        TokenView::Delimiter
    } else if c == '(' {
        TokenView::OpeningParenthesis
    } else if c == ')' {
        TokenView::ClosingParenthesis
    } else if c == '{' {
        TokenView::OpeningBrace
    } else if c == '}' {
        TokenView::ClosingBrace
    } else if c == ',' {
        TokenView::Comma
    } else {
        TokenView::Operator(seq![c])
    }
}

pub proof fn lemma_word_run_bound(s: Seq<char>)
    ensures
        word_run(s) <= s.len(),
        forall|k: int| 0 <= k < word_run(s) ==> is_word(#[trigger] s[k]),
    decreases s.len(),
{
    if s.len() > 0 && is_word(s[0]) {
        lemma_word_run_bound(s.drop_first());
        assert forall|k: int| 0 <= k < word_run(s) implies is_word(#[trigger] s[k]) by {
            if k > 0 {
                assert(s[k] == s.drop_first()[k - 1]);
            }
        }
    }
}

pub proof fn lemma_digit_run_bound(s: Seq<char>)
    ensures
        digit_run(s) <= s.len(),
        forall|k: int| 0 <= k < digit_run(s) ==> is_digit(#[trigger] s[k]),
    decreases s.len(),
{
    if s.len() > 0 && is_digit(s[0]) {
        lemma_digit_run_bound(s.drop_first());
        assert forall|k: int| 0 <= k < digit_run(s) implies is_digit(#[trigger] s[k]) by {
            if k > 0 {
                assert(s[k] == s.drop_first()[k - 1]);
            }
        }
    }
}

pub proof fn lemma_line_len_bound(s: Seq<char>)
    ensures
        line_len(s) <= s.len(),
    decreases s.len(),
{
    if s.len() > 0 && s[0] != '\n' {
        lemma_line_len_bound(s.drop_first());
    }
}

pub proof fn lemma_token_len_bound(s: Seq<char>)
    requires
        s.len() > 0,
    ensures
        1 <= token_len(s) <= s.len(),
{
    lemma_word_run_bound(s.drop_first());
    lemma_digit_run_bound(s);
    let d = digit_run(s);
    if d < s.len() {
        lemma_digit_run_bound(s.skip(d + 1int));
    }
    if is_digit(s[0]) {
        assert(digit_run(s) >= 1);
    }
}

/// The tokens of a source text, comments removed.
pub open spec fn lex(s: Seq<char>) -> Seq<TokenView>
    decreases s.len(),
{
    if s.len() == 0 {
        Seq::<TokenView>::empty()
    } else if is_space(s[0]) {
        lex(s.drop_first())
    } else if comment_at(s) {
        lex(s.skip(line_len(s) as int))
    } else {
        proof {
            lemma_token_len_bound(s);
        }
        let n = token_len(s);
        seq![token_for(s.take(n as int))] + lex(s.skip(n as int))
    }
}

pub proof fn lemma_digit_run_take(s: Seq<char>, m: int)
    requires
        0 <= m <= s.len(),
    ensures
        digit_run(s.take(m)) == if digit_run(s) < m {
            digit_run(s) as int
        } else {
            m
        },
    decreases m,
{
    if m > 0 && is_digit(s[0]) {
        assert(s.take(m).drop_first() =~= s.drop_first().take(m - 1));
        lemma_digit_run_take(s.drop_first(), m - 1);
    }
}

pub proof fn lemma_no_newline_line_len(s: Seq<char>)
    requires
        forall|k: int| 0 <= k < s.len() ==> s[k] != '\n',
    ensures
        line_len(s) == s.len(),
    decreases s.len(),
{
    if s.len() > 0 {
        assert forall|k: int| 0 <= k < s.drop_first().len() implies s.drop_first()[k] != '\n' by {
            assert(s.drop_first()[k] == s[k + 1]);
        }
        lemma_no_newline_line_len(s.drop_first());
    }
}

/// Appends `cs[from..to]` to `out`.
fn push_range(out: &mut Vec<char>, cs: &Vec<char>, from: usize, to: usize)
    requires
        from <= to <= cs.len(),
    ensures
        final(out)@ == old(out)@ + cs@.subrange(from as int, to as int),
{
    let mut k = from;
    while k < to
        invariant
            from <= k <= to <= cs.len(),
            out@ == old(out)@ + cs@.subrange(from as int, k as int),
        decreases to - k,
    {
        out.push(cs[k]);
        k += 1;
        assert(out@ =~= old(out)@ + cs@.subrange(from as int, k as int));
    }
}

/// End of the run of identifier characters that starts at `from`.
fn scan_word(cs: &Vec<char>, from: usize) -> (j: usize)
    requires
        from <= cs.len(),
    ensures
        j == from + word_run(cs@.skip(from as int)),
        j <= cs.len(),
{
    let mut j = from;
    while j < cs.len() && is_word_char(cs[j])
        invariant
            from <= j <= cs.len(),
            word_run(cs@.skip(from as int)) == (j - from) + word_run(cs@.skip(j as int)),
        decreases cs.len() - j,
    {
        assert(cs@.skip(j as int).drop_first() =~= cs@.skip(j + 1));
        j += 1;
    }
    j
}

/// End of the run of decimal digits that starts at `from`.
fn scan_digits(cs: &Vec<char>, from: usize) -> (j: usize)
    requires
        from <= cs.len(),
    ensures
        j == from + digit_run(cs@.skip(from as int)),
        j <= cs.len(),
{
    let mut j = from;
    while j < cs.len() && is_digit_char(cs[j])
        invariant
            from <= j <= cs.len(),
            digit_run(cs@.skip(from as int)) == (j - from) + digit_run(cs@.skip(j as int)),
        decreases cs.len() - j,
    {
        assert(cs@.skip(j as int).drop_first() =~= cs@.skip(j + 1));
        j += 1;
    }
    j
}

/// Position of the first newline at or after `from`; the length when there is none.
fn scan_line(cs: &Vec<char>, from: usize) -> (j: usize)
    requires
        from <= cs.len(),
    ensures
        j == from + line_len(cs@.skip(from as int)),
        j <= cs.len(),
        forall|k: int| from <= k < j ==> cs@[k] != '\n',
{
    let mut j = from;
    while j < cs.len() && cs[j] != '\n'
        invariant
            from <= j <= cs.len(),
            line_len(cs@.skip(from as int)) == (j - from) + line_len(cs@.skip(j as int)),
            forall|k: int| from <= k < j ==> cs@[k] != '\n',
        decreases cs.len() - j,
    {
        assert(cs@.skip(j as int).drop_first() =~= cs@.skip(j + 1));
        j += 1;
    }
    j
}

/// The canonical numeral of the lexeme `cs[from..to]`, whose digits before
/// the `.` end at `dot`.
fn numeral_value(cs: &Vec<char>, from: usize, dot: usize, to: usize) -> (r: String)
    requires
        from <= dot <= to <= cs.len(),
        digit_run(cs@.subrange(from as int, to as int)) == dot - from,
    ensures
        r@ == canonical_numeral(cs@.subrange(from as int, to as int)),
{
    let ghost lexeme = cs@.subrange(from as int, to as int);
    let mut w = from;
    while w < dot && cs[w] == '0'
        invariant
            from <= w <= dot <= to <= cs.len(),
            strip_leading_zeros(cs@.subrange(from as int, dot as int)) == strip_leading_zeros(
                cs@.subrange(w as int, dot as int),
            ),
        decreases dot - w,
    {
        assert(cs@.subrange(w as int, dot as int).drop_first() =~= cs@.subrange(
            w + 1,
            dot as int,
        ));
        w += 1;
    }
    assert(lexeme.take(dot - from) =~= cs@.subrange(from as int, dot as int));
    let mut out: Vec<char> = Vec::new();
    if w == dot {
        out.push('0');
    } else {
        push_range(&mut out, cs, w, dot);
    }
    assert(out@ =~= (if strip_leading_zeros(lexeme.take(dot - from)).len() == 0 {
        seq!['0']
    } else {
        strip_leading_zeros(lexeme.take(dot - from))
    }));
    if dot < to {
        let mut f = to;
        while f > dot + 1 && cs[f - 1] == '0'
            invariant
                dot < to,
                dot + 1 <= f <= to <= cs.len(),
                strip_trailing_zeros(cs@.subrange(dot + 1, to as int)) == strip_trailing_zeros(
                    cs@.subrange(dot + 1, f as int),
                ),
            decreases f,
        {
            assert(cs@.subrange(dot + 1, f as int).drop_last() =~= cs@.subrange(
                dot + 1,
                f - 1,
            ));
            f -= 1;
        }
        assert(lexeme.skip(dot - from + 1) =~= cs@.subrange(dot + 1, to as int));
        if f > dot + 1 {
            out.push('.');
            push_range(&mut out, cs, dot + 1, f);
        }
    }
    string_from_chars(out)
}

/// Scans the token that starts at `from`: its end, and the token.
fn scan_token(cs: &Vec<char>, from: usize) -> (r: (Token, usize))
    requires
        from < cs.len(),
    ensures
        r.1 == from + token_len(cs@.skip(from as int)),
        r.1 <= cs.len(),
        r.0@ == token_for(cs@.subrange(from as int, r.1 as int)),
{
    let ghost s = cs@.skip(from as int);
    let c = cs[from];
    assert(s[0] == c);
    if is_letter_char(c) {
        let end = scan_word(cs, from + 1);
        assert(s.drop_first() =~= cs@.skip(from + 1));
        let mut word: Vec<char> = Vec::new();
        push_range(&mut word, cs, from, end);
        assert(word@ =~= cs@.subrange(from as int, end as int));
        let ghost w = word@;
        let n = end - from;
        let tok = if n == 3 && word[0] == 'f' && word[1] == 'u' && word[2] == 'n' {
            assert(w =~= seq!['f', 'u', 'n']);
            Token::Fun
        } else if n == 3 && word[0] == 'u' && word[1] == 's' && word[2] == 'e' {
            assert(w =~= seq!['u', 's', 'e']);
            Token::Use
        } else if n == 2 && word[0] == 'i' && word[1] == 'f' {
            assert(w =~= seq!['i', 'f']);
            Token::If
        } else if n == 4 && word[0] == 'e' && word[1] == 'l' && word[2] == 's' && word[3] == 'e' {
            assert(w =~= seq!['e', 'l', 's', 'e']);
            Token::Else
        } else {
            assert(w != seq!['f', 'u', 'n'] && w != seq!['u', 's', 'e'] && w != seq!['i', 'f']
                && w != seq!['e', 'l', 's', 'e']) by {
                if w == seq!['f', 'u', 'n'] {
                    assert(w[0] == 'f' && w[1] == 'u' && w[2] == 'n');
                }
                if w == seq!['u', 's', 'e'] {
                    assert(w[0] == 'u' && w[1] == 's' && w[2] == 'e');
                }
                if w == seq!['i', 'f'] {
                    assert(w[0] == 'i' && w[1] == 'f');
                }
                if w == seq!['e', 'l', 's', 'e'] {
                    assert(w[0] == 'e' && w[1] == 'l' && w[2] == 's' && w[3] == 'e');
                }
            }
            Token::Ident(string_from_chars(word))
        };
        (tok, end)
    } else if is_digit_char(c) {
        let dot = scan_digits(cs, from);
        proof {
            lemma_digit_run_bound(s);
        }
        let end = if dot < cs.len() && cs[dot] == '.' {
            assert(s.skip(dot - from + 1) =~= cs@.skip(dot + 1));
            scan_digits(cs, dot + 1)
        } else {
            dot
        };
        assert(s.take(end - from) =~= cs@.subrange(from as int, end as int));
        proof {
            lemma_digit_run_take(s, end - from);
            if dot < end {
                assert(s[dot - from] == cs@[dot as int]);
            }
        }
        let value = numeral_value(cs, from, dot, end);
        (Token::Number(value), end)
    } else {
        assert(cs@.subrange(from as int, from + 1) =~= seq![c]);
        let tok = if c == ';' {
            Token::Delimiter
        } else if c == '(' {
            Token::OpeningParenthesis
        } else if c == ')' {
            Token::ClosingParenthesis
        } else if c == '{' {
            Token::OpeningBrace
        } else if c == '}' {
            Token::ClosingBrace
        } else if c == ',' {
            Token::Comma
        } else {
            let mut op: Vec<char> = Vec::new();
            op.push(c);
            assert(op@ =~= seq![c]);
            Token::Operator(string_from_chars(op))
        };
        (tok, from + 1)
    }
}

/// Every character is ASCII.
pub open spec fn ascii_text(v: Seq<char>) -> bool {
    forall|i: int| 0 <= i < v.len() ==> (v[i] as u32) < 128
}

/// Every numeral is written in ASCII digits, so each has a float value.
pub open spec fn numbers_readable(ts: Seq<TokenView>) -> bool {
    forall|i: int| 0 <= i < ts.len() ==> (#[trigger] ts[i] matches TokenView::Number(v) ==> ascii_text(v))
}

/// Splits source text into tokens.
///
/// A `#` starts a comment that runs up to the next newline; a `#` that no
/// newline follows is an operator. Whitespace separates tokens. At each
/// remaining position the longest identifier (a letter, then letters, digits
/// and `_`) or numeral (digits, optionally `.` and digits) is taken, else one
/// character: a delimiter, a bracket, a comma, or an operator.
/// Reserved words become their own tokens. A numeral with a digit other
/// than an ASCII one has no float value: then lexing fails.
pub fn tokenize(input: &str) -> (r: Result<Vec<Token>, String>)
    ensures
        numbers_readable(lex(input@)) ==> (r matches Ok(ts) && tokens_view(ts@) == lex(input@)),
        !numbers_readable(lex(input@)) ==> (r matches Err(e) && e@
            == "Lexer failed trying to parse number"@),
{
    let cs = chars_of(input);
    let n = cs.len();
    let mut out: Vec<Token> = Vec::new();
    let mut i: usize = 0;
    // once no newline is left, a `#` cannot start a comment
    let mut no_newline_left = false;
    assert(cs@.skip(0) =~= cs@);
    assert(tokens_view(out@) =~= Seq::<TokenView>::empty());
    while i < n
        invariant
            i <= n == cs.len(),
            cs@ == input@,
            tokens_view(out@) + lex(cs@.skip(i as int)) == lex(cs@),
            numbers_readable(tokens_view(out@)),
            no_newline_left ==> forall|k: int| i <= k < n ==> cs@[k] != '\n',
        decreases n - i,
    {
        let ghost s = cs@.skip(i as int);
        let c = cs[i];
        assert(s[0] == c);
        let mut comment_end = n;
        if c == '#' && !no_newline_left {
            comment_end = scan_line(&cs, i);
            if comment_end == n {
                no_newline_left = true;
            }
        }
        if no_newline_left && c == '#' {
            proof {
                assert forall|k: int| 0 <= k < s.len() implies s[k] != '\n' by {
                    assert(s[k] == cs@[i + k]);
                }
                lemma_no_newline_line_len(s);
            }
        }
        if is_space_char(c) {
            assert(s.drop_first() =~= cs@.skip(i + 1));
            i += 1;
        } else if c == '#' && comment_end < n {
            assert(s.skip(line_len(s) as int) =~= cs@.skip(comment_end as int));
            i = comment_end;
        } else {
            let (tok, end) = scan_token(&cs, i);
            let readable = match &tok {
                Token::Number(v) => all_ascii(v.as_str()),
                _ => true,
            };
            proof {
                lemma_token_len_bound(s);
                assert(s.take(token_len(s) as int) =~= cs@.subrange(i as int, end as int));
                assert(s.skip(token_len(s) as int) =~= cs@.skip(end as int));
                let old_out = out@;
                assert(tokens_view(old_out.push(tok)) =~= tokens_view(old_out) + seq![tok@]);
                assert(lex(cs@)[old_out.len() as int] == tok@) by {
                    assert(lex(s) == seq![tok@] + lex(cs@.skip(end as int)));
                    assert((tokens_view(old_out) + lex(s))[old_out.len() as int] == lex(s)[0]);
                }
            }
            if !readable {
                return Err(String::from_str("Lexer failed trying to parse number"));
            }
            out.push(tok);
            i = end;
            proof {
                if no_newline_left {
                    assert forall|k: int| i <= k < n implies cs@[k] != '\n' by {
                    }
                }
            }
        }
    }
    assert(cs@.skip(n as int) =~= Seq::<char>::empty());
    assert(tokens_view(out@) + Seq::<TokenView>::empty() =~= tokens_view(out@));
    Ok(out)
}

/// Lexing depends on the text alone: equal texts give equal tokens.
pub proof fn lemma_lex_deterministic(a: Seq<char>, b: Seq<char>)
    requires
        a == b,
    ensures
        lex(a) == lex(b),
{
}

/// Each reserved word alone lexes to its reserved token and nothing else.
pub proof fn lemma_reserved_words()
    ensures
        lex(seq!['f', 'u', 'n']) == seq![TokenView::Fun],
        lex(seq!['u', 's', 'e']) == seq![TokenView::Use],
        lex(seq!['i', 'f']) == seq![TokenView::If],
        lex(seq!['e', 'l', 's', 'e']) == seq![TokenView::Else],
{
    lemma_reserved_word(seq!['f', 'u', 'n']);
    lemma_reserved_word(seq!['u', 's', 'e']);
    lemma_reserved_word(seq!['i', 'f']);
    lemma_reserved_word(seq!['e', 'l', 's', 'e']);
}

proof fn lemma_reserved_word(w: Seq<char>)
    requires
        2 <= w.len() <= 4,
        forall|k: int| 0 <= k < w.len() ==> 97 <= (#[trigger] w[k] as u32) <= 122,
    ensures
        lex(w) == seq![word_token(w)],
{
    lemma_all_word(w.drop_first());
    assert(w.take(w.len() as int) =~= w);
    assert(w.skip(w.len() as int) =~= Seq::<char>::empty());
    assert(lex(w.skip(w.len() as int)) == Seq::<TokenView>::empty());
    assert(seq![word_token(w)] + Seq::<TokenView>::empty() =~= seq![word_token(w)]);
}

proof fn lemma_all_word(s: Seq<char>)
    requires
        forall|k: int| 0 <= k < s.len() ==> 97 <= (#[trigger] s[k] as u32) <= 122,
    ensures
        word_run(s) == s.len(),
    decreases s.len(),
{
    if s.len() > 0 {
        assert(97 <= (s[0] as u32) <= 122);
        assert forall|k: int| 0 <= k < s.drop_first().len() implies 97 <= (
        #[trigger] s.drop_first()[k] as u32) <= 122 by {
            assert(s.drop_first()[k] == s[k + 1]);
        }
        lemma_all_word(s.drop_first());
    }
}

/// Every `#` of `s` has a newline after it in `s`, so no comment of `s`
/// reaches past its end.
pub open spec fn comments_closed(s: Seq<char>) -> bool {
    forall|i: int| 0 <= i < s.len() && s[i] == '#' ==> line_len(#[trigger] s.skip(i)) < s.len() - i
}

/// Whitespace, or an end of text, stands between `a` and `b`.
pub open spec fn separated(a: Seq<char>, b: Seq<char>) -> bool {
    a.len() == 0 || b.len() == 0 || is_space(a.last()) || is_space(b[0])
}

proof fn lemma_word_run_concat(a: Seq<char>, b: Seq<char>)
    requires
        word_run(a) < a.len() || b.len() == 0 || !is_word(b[0]),
    ensures
        word_run(a + b) == word_run(a),
    decreases a.len(),
{
    if a.len() == 0 {
        assert(a + b =~= b);
    } else if is_word(a[0]) {
        assert((a + b).drop_first() =~= a.drop_first() + b);
        lemma_word_run_concat(a.drop_first(), b);
    }
}

proof fn lemma_digit_run_concat(a: Seq<char>, b: Seq<char>)
    requires
        digit_run(a) < a.len() || b.len() == 0 || !is_digit(b[0]),
    ensures
        digit_run(a + b) == digit_run(a),
    decreases a.len(),
{
    if a.len() == 0 {
        assert(a + b =~= b);
    } else if is_digit(a[0]) {
        assert((a + b).drop_first() =~= a.drop_first() + b);
        lemma_digit_run_concat(a.drop_first(), b);
    }
}

proof fn lemma_line_len_concat(a: Seq<char>, b: Seq<char>)
    requires
        line_len(a) < a.len(),
    ensures
        line_len(a + b) == line_len(a),
    decreases a.len(),
{
    if a[0] != '\n' {
        assert((a + b).drop_first() =~= a.drop_first() + b);
        lemma_line_len_concat(a.drop_first(), b);
    }
}

proof fn lemma_line_len_prefix(a: Seq<char>, b: Seq<char>)
    requires
        forall|k: int| 0 <= k < a.len() ==> a[k] != '\n',
    ensures
        line_len(a + b) == a.len() + line_len(b),
    decreases a.len(),
{
    if a.len() == 0 {
        assert(a + b =~= b);
    } else {
        assert((a + b).drop_first() =~= a.drop_first() + b);
        assert forall|k: int| 0 <= k < a.drop_first().len() implies a.drop_first()[k] != '\n' by {
            assert(a.drop_first()[k] == a[k + 1]);
        }
        lemma_line_len_prefix(a.drop_first(), b);
    }
}

/// A run that reaches the last character ends with a run character.
proof fn lemma_runs_stop_at_space(a: Seq<char>)
    requires
        a.len() > 0,
        is_space(a.last()),
    ensures
        word_run(a) < a.len(),
        digit_run(a) < a.len(),
{
    lemma_word_run_bound(a);
    lemma_digit_run_bound(a);
    lemma_word_not_space(a.last());
}

proof fn lemma_token_len_concat(x: Seq<char>, y: Seq<char>)
    requires
        x.len() > 0,
        !is_space(x[0]),
        separated(x, y),
    ensures
        token_len(x + y) == token_len(x),
        token_len(x) <= x.len(),
        (x + y).take(token_len(x) as int) == x.take(token_len(x) as int),
{
    let s = x + y;
    assert(s[0] == x[0]);
    lemma_token_len_bound(x);
    if y.len() > 0 {
        lemma_word_not_space(y[0]);
    }
    if is_letter(x[0]) {
        let x1 = x.drop_first();
        assert(s.drop_first() =~= x1 + y);
        if x1.len() > 0 && is_space(x.last()) {
            assert(x1.last() == x.last());
            lemma_runs_stop_at_space(x1);
        }
        lemma_word_run_concat(x1, y);
    } else if is_digit(x[0]) {
        if is_space(x.last()) {
            lemma_runs_stop_at_space(x);
        }
        lemma_digit_run_concat(x, y);
        lemma_digit_run_bound(x);
        let d = digit_run(x);
        if d < x.len() {
            assert(s[d as int] == x[d as int]);
            if x[d as int] == '.' {
                let x2 = x.skip(d + 1int);
                assert(s.skip(d + 1int) =~= x2 + y);
                if x2.len() > 0 && is_space(x.last()) {
                    assert(x2.last() == x.last());
                    lemma_runs_stop_at_space(x2);
                }
                if x2.len() == 0 {
                    assert(x.last() == x[d as int]);
                }
                lemma_digit_run_concat(x2, y);
            }
        } else {
            assert(x.last() == x[x.len() - 1]);
            if y.len() > 0 {
                assert(s[d as int] == y[0]);
            }
        }
    }
    assert(s.take(token_len(x) as int) =~= x.take(token_len(x) as int));
}

proof fn lemma_closed_suffix(x: Seq<char>, n: int)
    requires
        comments_closed(x),
        0 <= n <= x.len(),
    ensures
        comments_closed(x.skip(n)),
{
    let t = x.skip(n);
    assert forall|i: int| 0 <= i < t.len() && t[i] == '#' implies line_len(#[trigger] t.skip(i))
        < t.len() - i by {
        assert(t[i] == x[n + i]);
        assert(t.skip(i) =~= x.skip(n + i));
    }
}

/// Lexing distributes over a concatenation at whitespace, when no comment
/// of the first part runs into the second.
pub proof fn lemma_lex_concat(x: Seq<char>, y: Seq<char>)
    requires
        comments_closed(x),
        separated(x, y),
    ensures
        lex(x + y) == lex(x) + lex(y),
    decreases x.len(),
{
    let s = x + y;
    if x.len() == 0 {
        assert(s =~= y);
        assert(lex(x) + lex(y) =~= lex(y));
        return;
    }
    assert(s[0] == x[0]);
    if is_space(x[0]) {
        let x1 = x.drop_first();
        assert(s.drop_first() =~= x1 + y);
        lemma_closed_suffix(x, 1);
        assert(x.skip(1) =~= x1);
        if x1.len() > 0 {
            assert(x1.last() == x.last());
        }
        lemma_lex_concat(x1, y);
    } else if x[0] == '#' {
        assert(x.skip(0) =~= x);
        let l = line_len(x);
        lemma_line_len_concat(x, y);
        assert(comment_at(s) && comment_at(x));
        assert(s.skip(l as int) =~= x.skip(l as int) + y);
        lemma_closed_suffix(x, l as int);
        assert(x.skip(l as int).last() == x.last());
        lemma_lex_concat(x.skip(l as int), y);
    } else {
        lemma_token_len_concat(x, y);
        let n = token_len(x);
        assert(!comment_at(s) && !comment_at(x));
        assert(s.skip(n as int) =~= x.skip(n as int) + y);
        lemma_closed_suffix(x, n as int);
        if n < x.len() {
            assert(x.skip(n as int).last() == x.last());
        }
        lemma_lex_concat(x.skip(n as int), y);
        assert(lex(x) == seq![token_for(x.take(n as int))] + lex(x.skip(n as int)));
        assert(lex(s) == seq![token_for(s.take(n as int))] + lex(s.skip(n as int)));
        assert(seq![token_for(x.take(n as int))] + (lex(x.skip(n as int)) + lex(y)) =~= (seq![
            token_for(x.take(n as int)),
        ] + lex(x.skip(n as int))) + lex(y));
    }
}

/// The text of a line comment on a line of its own: a newline, `#`, a
/// space, the comment's text, and a newline.
pub open spec fn comment_line(c: Seq<char>) -> Seq<char> {
    seq!['\n', '#', ' '] + c + seq!['\n']
}

/// Inserting a line comment where whitespace separates tokens leaves the
/// tokens as they were, provided no comment before that point is still open.
pub proof fn lemma_comment_transparent(a: Seq<char>, b: Seq<char>, c: Seq<char>)
    requires
        comments_closed(a),
        separated(a, b),
        forall|k: int| 0 <= k < c.len() ==> c[k] != '\n',
    ensures
        lex(a + comment_line(c) + b) == lex(a + b),
{
    let ins = comment_line(c);
    assert(a + ins + b =~= a + (ins + b));
    assert((ins + b)[0] == '\n');
    lemma_lex_concat(a, ins + b);
    lemma_lex_concat(a, b);
    let s = ins + b;
    let s1 = s.drop_first();
    let p = seq!['#', ' '] + c;
    assert(s1 =~= p + (seq!['\n'] + b));
    assert forall|k: int| 0 <= k < p.len() implies p[k] != '\n' by {
        if k >= 2 {
            assert(p[k] == c[k - 2]);
        }
    }
    lemma_line_len_prefix(p, seq!['\n'] + b);
    assert(line_len(seq!['\n'] + b) == 0);
    assert(comment_at(s1));
    assert(s1.skip(p.len() as int) =~= seq!['\n'] + b);
    assert((seq!['\n'] + b).drop_first() =~= b);
    assert(lex(seq!['\n'] + b) == lex(b));
    assert(is_space(s[0]));
    assert(lex(s) == lex(s1));
    assert(line_len(s1) == p.len());
    assert(lex(s1) == lex(s1.skip(p.len() as int)));
    assert(lex(s) == lex(b));
}

} // verus!
