use vstd::prelude::*;
use vstd::string::StrSliceExecFns;
use crate::text::{spec_clamp_i64, spec_digits_from, str_eq};
use crate::token::{SourceToken, SourceTokenModel, Token, TokenModel, tokens_view};

verus! {

/// Why lexing failed.
#[derive(Debug, PartialEq, Clone)]
pub enum LexErrorType {
    EmptySpecification,
    ParseError,
}

/// A lexing failure with the 1-based line it happened on.
#[derive(Debug, PartialEq, Clone)]
pub struct LexError {
    pub error_type: LexErrorType,
    pub line_number: u32,
}

impl LexError {
    pub fn new(error_type: LexErrorType, line_number: u32) -> (e: LexError)
        ensures
            e.error_type == error_type,
            e.line_number == line_number,
    {
        LexError { error_type, line_number }
    }
}

/// What one character of input does to the lexer.
enum TokenResult {
    Token(Token),
    PartialToken(String),
    Empty,
    Error,
}

/// The mathematical form of a lexer step.
pub enum TokenStep {
    Token(TokenModel),
    Partial(Seq<char>),
    Empty,
    Error,
}

/// Whether the character after the current one ends a word: anything but
/// ASCII `A`..`z`, a digit, or `:` does, and so does the end of input.
pub open spec fn spec_word_finished(next: Option<char>) -> bool {
    match next {
        Some(c) => !(('A' <= c && c <= 'z') || ('0' <= c && c <= '9') || c == ':'),
        None => true,
    }
}

/// The token a reserved word stands for, if the text is one.
pub open spec fn spec_keyword(p: Seq<char>) -> Option<TokenModel> {
    if p == "name"@ {
        Some(TokenModel::Name)
    } else if p == "stack"@ {
        Some(TokenModel::Stack)
    } else if p == "deck"@ {
        Some(TokenModel::Deck)
    } else if p == "players"@ {
        Some(TokenModel::Players)
    } else if p == "current_player"@ {
        Some(TokenModel::CurrentPlayer)
    } else if p == "define"@ {
        Some(TokenModel::Define)
    } else if p == "check"@ {
        Some(TokenModel::Check)
    } else if p == "is"@ {
        Some(TokenModel::Is)
    } else if p == "if"@ {
        Some(TokenModel::If)
    } else if p == "true"@ {
        Some(TokenModel::True)
    } else if p == "false"@ {
        Some(TokenModel::False)
    } else if p == "return"@ {
        Some(TokenModel::Return)
    } else {
        None
    }
}

/// Whether a pending comment body, read from position `i`, reaches the
/// closing parenthesis of its opening `.(` with nesting balanced.
pub open spec fn spec_comment_complete(p: Seq<char>, i: int, depth: int) -> bool
    decreases p.len() - i,
{
    if i < 0 || i >= p.len() {
        false
    } else if p[i] == '(' {
        spec_comment_complete(p, i + 1, depth + 1)
    } else if p[i] == ')' {
        if depth == 0 {
            true
        } else {
            spec_comment_complete(p, i + 1, depth - 1)
        }
    } else {
        spec_comment_complete(p, i + 1, depth)
    }
}

/// The value of a numeric literal: an optional sign, then decimal digits,
/// clamped to the machine integer range.
pub open spec fn spec_number_val(p: Seq<char>) -> Option<int> {
    if p.len() == 0 {
        None
    } else {
        let negative = p[0] == '-';
        let body = if p[0] == '-' || p[0] == '+' {
            p.drop_first()
        } else {
            p
        };
        if body.len() == 0 {
            None
        } else {
            match spec_digits_from(body, 0, 0) {
                Some(v) => Some(
                    spec_clamp_i64(
                        if negative {
                            -v
                        } else {
                            v
                        },
                    ),
                ),
                None => None,
            }
        }
    }
}

/// What a finished word resolves to: a symbol when it starts with a letter,
/// comment elision when it is a complete `.( ... )` comment, or a numeric
/// literal; anything else is a lexing error.
pub open spec fn spec_resolve_partial(p: Seq<char>) -> TokenStep {
    if p.len() == 0 {
        TokenStep::Error
    } else if 'A' <= p[0] && p[0] <= 'z' {
        TokenStep::Token(TokenModel::Symbol(p))
    } else if p[0] == '.' {
        if p.len() >= 2 && p[1] == '(' {
            if spec_comment_complete(p, 2, 0) {
                TokenStep::Empty
            } else {
                TokenStep::Partial(p)
            }
        } else {
            TokenStep::Error
        }
    } else {
        match spec_number_val(p) {
            Some(v) => TokenStep::Token(TokenModel::Number(v)),
            None => TokenStep::Error,
        }
    }
}

/// What a word in progress does once the current character is appended:
/// emit a keyword or resolve when the word is finished, else keep
/// accumulating.
pub open spec fn spec_handle_partial(p: Seq<char>, next: Option<char>) -> TokenStep {
    if spec_word_finished(next) {
        match spec_keyword(p) {
            Some(t) => TokenStep::Token(t),
            None => spec_resolve_partial(p),
        }
    } else {
        TokenStep::Partial(p)
    }
}

/// The token a character produces on its own, when no word is pending.
pub open spec fn spec_single_char(c: char) -> Option<TokenStep> {
    if c == '(' {
        Some(TokenStep::Token(TokenModel::OpenParens))
    } else if c == ')' {
        Some(TokenStep::Token(TokenModel::CloseParens))
    } else if c == ' ' {
        Some(TokenStep::Empty)
    } else if c == ',' {
        Some(TokenStep::Token(TokenModel::Comma))
    } else if c == '{' {
        Some(TokenStep::Token(TokenModel::OpenBracket))
    } else if c == '}' {
        Some(TokenStep::Token(TokenModel::CloseBracket))
    } else if c == '>' {
        Some(TokenStep::Token(TokenModel::Transfer))
    } else if c == '&' {
        Some(TokenStep::Token(TokenModel::Ampersand))
    } else if c == '\n' {
        Some(TokenStep::Token(TokenModel::Newline))
    } else if c == '.' {
        Some(TokenStep::Partial(seq!['.']))
    } else {
        None
    }
}

/// One step of the lexer on the current character, with one character of
/// lookahead.
pub open spec fn spec_handle_char(
    partial: Option<Seq<char>>,
    c: char,
    next: Option<char>,
) -> TokenStep {
    match partial {
        None => match spec_single_char(c) {
            Some(st) => st,
            None => spec_handle_partial(seq![c], next),
        },
        Some(p) => spec_handle_partial(p.push(c), next),
    }
}

pub open spec fn spec_line_inc(line: u32) -> u32 {
    if line < u32::MAX {
        (line + 1) as u32
    } else {
        line
    }
}

/// The whole lexer, from position `i` with the word in progress and the
/// tokens already emitted: at the end of input an empty token list is an
/// error, and an unterminated word is silently dropped.
pub open spec fn spec_lex_from(
    s: Seq<char>,
    i: int,
    line: u32,
    partial: Option<Seq<char>>,
    acc: Seq<SourceTokenModel>,
) -> Result<Seq<SourceTokenModel>, LexError>
    decreases s.len() - i,
{
    if i < 0 || i >= s.len() {
        if acc.len() == 0 {
            Err(LexError { error_type: LexErrorType::EmptySpecification, line_number: line })
        } else {
            Ok(acc)
        }
    } else {
        let next = if i + 1 < s.len() {
            Some(s[i + 1])
        } else {
            None
        };
        match spec_handle_char(partial, s[i], next) {
            TokenStep::Token(t) => {
                let line2 = if t is Newline {
                    spec_line_inc(line)
                } else {
                    line
                };
                spec_lex_from(
                    s,
                    i + 1,
                    line2,
                    None,
                    acc.push(SourceTokenModel { token: t, line_number: line2 }),
                )
            },
            TokenStep::Partial(p) => spec_lex_from(s, i + 1, line, Some(p), acc),
            TokenStep::Empty => spec_lex_from(s, i + 1, line, None, acc),
            TokenStep::Error => Err(
                LexError { error_type: LexErrorType::ParseError, line_number: line },
            ),
        }
    }
}

/// What `lexer` returns on a whole source text.
pub open spec fn spec_lex(s: Seq<char>) -> Result<Seq<SourceTokenModel>, LexError> {
    spec_lex_from(s, 0, 1, None, Seq::empty())
}

fn word_finished(next: Option<char>) -> (r: bool)
    ensures
        r == spec_word_finished(next),
{
    match next {
        Some(c) => !(('A' <= c && c <= 'z') || ('0' <= c && c <= '9') || c == ':'),
        None => true,
    }
}

fn keyword_of(p: &str) -> (r: Option<Token>)
    ensures
        match r {
            Some(t) => spec_keyword(p@) == Some(t@),
            None => spec_keyword(p@) is None,
        },
{
    if str_eq(p, "name") {
        Some(Token::Name)
    } else if str_eq(p, "stack") {
        Some(Token::Stack)
    } else if str_eq(p, "deck") {
        Some(Token::Deck)
    } else if str_eq(p, "players") {
        Some(Token::Players)
    } else if str_eq(p, "current_player") {
        Some(Token::CurrentPlayer)
    } else if str_eq(p, "define") {
        Some(Token::Define)
    } else if str_eq(p, "check") {
        Some(Token::Check)
    } else if str_eq(p, "is") {
        Some(Token::Is)
    } else if str_eq(p, "if") {
        Some(Token::If)
    } else if str_eq(p, "true") {
        Some(Token::True)
    } else if str_eq(p, "false") {
        Some(Token::False)
    } else if str_eq(p, "return") {
        Some(Token::Return)
    } else {
        None
    }
}

fn comment_complete(p: &str, i: usize, depth: usize) -> (r: bool)
    requires
        depth + p@.len() - i <= usize::MAX,
    ensures
        r == spec_comment_complete(p@, i as int, depth as int),
    decreases p@.len() - i,
{
    let len = p.unicode_len();
    if i >= len {
        false
    } else {
        let c = p.get_char(i);
        if c == '(' {
            comment_complete(p, i + 1, depth + 1)
        } else if c == ')' {
            if depth == 0 {
                true
            } else {
                comment_complete(p, i + 1, depth - 1)
            }
        } else {
            comment_complete(p, i + 1, depth)
        }
    }
}

/// Reads a numeric literal, clamping to the machine integer range.
fn number_val(p: &str) -> (r: Option<i64>)
    ensures
        match r {
            Some(v) => spec_number_val(p@) == Some(v as int),
            None => spec_number_val(p@) is None,
        },
{
    let len = p.unicode_len();
    if len == 0 {
        return None;
    }
    let first = p.get_char(0);
    let negative = first == '-';
    let start: usize = if first == '-' || first == '+' {
        1
    } else {
        0
    };
    let ghost body = if p@[0] == '-' || p@[0] == '+' {
        p@.drop_first()
    } else {
        p@
    };
    proof {
        assert(body.len() == p@.len() - start);
        assert(forall|k: int| 0 <= k < body.len() ==> body[k] == p@[k + start]);
    }
    if start >= len {
        return None;
    }
    let bound: u64 = 9223372036854775808u64;
    let mut acc: u64 = 0;
    let ghost mut acc_g: int = 0;
    let mut over: bool = false;
    let mut i: usize = start;
    while i < len
        invariant
            len == p@.len(),
            start <= i <= len,
            start < len,
            start as int == if p@[0] == '-' || p@[0] == '+' {
                1int
            } else {
                0int
            },
            negative == (p@[0] == '-'),
            bound == 9223372036854775808u64,
            body.len() == p@.len() - start,
            forall|k: int| 0 <= k < body.len() ==> body[k] == p@[k + start],
            spec_digits_from(body, 0, 0) == spec_digits_from(body, i - start, acc_g),
            acc_g >= 0,
            if over {
                acc_g > bound as int
            } else {
                acc as int == acc_g && acc <= bound
            },
        decreases len - i,
    {
        let c = p.get_char(i);
        proof {
            assert(body[i - start] == c);
        }
        if c >= '0' && c <= '9' {
            let d: u64 = (c as u64) - ('0' as u64);
            proof {
                let new_acc_g = acc_g * 10 + (c as int - '0' as int);
                if acc_g > bound as int {
                    assert(new_acc_g > bound as int) by (nonlinear_arith)
                        requires
                            acc_g > bound as int >= 0,
                            new_acc_g == acc_g * 10 + (c as int - '0' as int),
                            c as int - '0' as int >= 0,
                    ;
                }
            }
            if over {
                proof {
                    acc_g = acc_g * 10 + (c as int - '0' as int);
                }
            } else if acc > (bound - d) / 10 {
                proof {
                    let new_acc_g = acc_g * 10 + (c as int - '0' as int);
                    assert(new_acc_g > bound as int) by (nonlinear_arith)
                        requires
                            acc_g == acc as int,
                            acc as int > (bound as int - d as int) / 10,
                            0 <= d < 10,
                            d as int == c as int - '0' as int,
                            new_acc_g == acc_g * 10 + (c as int - '0' as int),
                    ;
                    acc_g = new_acc_g;
                }
                over = true;
            } else {
                proof {
                    assert(acc as int * 10 + d as int <= bound as int) by (nonlinear_arith)
                        requires
                            acc as int <= (bound as int - d as int) / 10,
                            0 <= d < 10,
                    ;
                    acc_g = acc_g * 10 + (c as int - '0' as int);
                }
                acc = acc * 10 + d;
            }
        } else {
            proof {
                assert(spec_digits_from(body, i - start, acc_g) is None);
                assert(body =~= (if p@[0] == '-' || p@[0] == '+' {
                    p@.drop_first()
                } else {
                    p@
                }));
            }
            return None;
        }
        i = i + 1;
    }
    proof {
        assert(spec_digits_from(body, i - start, acc_g) == Some(acc_g));
        assert(body =~= (if p@[0] == '-' || p@[0] == '+' {
            p@.drop_first()
        } else {
            p@
        }));
    }
    if negative {
        if over || acc > bound {
            Some(i64::MIN)
        } else if acc == bound {
            Some(i64::MIN)
        } else {
            Some(-(acc as i64))
        }
    } else {
        if over || acc >= bound {
            Some(i64::MAX)
        } else {
            Some(acc as i64)
        }
    }
}

fn resolve_partial(p: String) -> (r: TokenResult)
    ensures
        step_matches(r, spec_resolve_partial(p@)),
{
    let len = p.as_str().unicode_len();
    if len == 0 {
        return TokenResult::Error;
    }
    let first = p.as_str().get_char(0);
    if 'A' <= first && first <= 'z' {
        TokenResult::Token(Token::Symbol(p))
    } else if first == '.' {
        if len >= 2 && p.as_str().get_char(1) == '(' {
            if comment_complete(p.as_str(), 2, 0) {
                TokenResult::Empty
            } else {
                TokenResult::PartialToken(p)
            }
        } else {
            TokenResult::Error
        }
    } else {
        match number_val(p.as_str()) {
            Some(v) => TokenResult::Token(Token::Number(v)),
            None => TokenResult::Error,
        }
    }
}

/// How an executable lexer step corresponds to its mathematical form.
spec fn step_matches(r: TokenResult, m: TokenStep) -> bool {
    match r {
        TokenResult::Token(t) => m == TokenStep::Token(t@),
        TokenResult::PartialToken(p) => m == TokenStep::Partial(p@),
        TokenResult::Empty => m == TokenStep::Empty,
        TokenResult::Error => m == TokenStep::Error,
    }
}

fn handle_partial(p: String, next: Option<char>) -> (r: TokenResult)
    ensures
        step_matches(r, spec_handle_partial(p@, next)),
{
    if word_finished(next) {
        match keyword_of(p.as_str()) {
            Some(t) => TokenResult::Token(t),
            None => resolve_partial(p),
        }
    } else {
        TokenResult::PartialToken(p)
    }
}

fn handle_single_char(c: char) -> (r: Option<TokenResult>)
    ensures
        match r {
            Some(st) => spec_single_char(c) is Some && step_matches(st, spec_single_char(c)->0),
            None => spec_single_char(c) is None,
        },
{
    if c == '(' {
        Some(TokenResult::Token(Token::OpenParens))
    } else if c == ')' {
        Some(TokenResult::Token(Token::CloseParens))
    } else if c == ' ' {
        Some(TokenResult::Empty)
    } else if c == ',' {
        Some(TokenResult::Token(Token::Comma))
    } else if c == '{' {
        Some(TokenResult::Token(Token::OpenBracket))
    } else if c == '}' {
        Some(TokenResult::Token(Token::CloseBracket))
    } else if c == '>' {
        Some(TokenResult::Token(Token::Transfer))
    } else if c == '&' {
        Some(TokenResult::Token(Token::Ampersand))
    } else if c == '\n' {
        Some(TokenResult::Token(Token::Newline))
    } else if c == '.' {
        let mut p = String::new();
        p.push('.');
        proof {
            assert(p@ =~= seq!['.']);
        }
        Some(TokenResult::PartialToken(p))
    } else {
        None
    }
}

fn handle_char(partial: Option<String>, c: char, next: Option<char>) -> (r: TokenResult)
    ensures
        step_matches(r, spec_handle_char(opt_str_view(partial), c, next)),
{
    match partial {
        None => {
            match handle_single_char(c) {
                Some(st) => st,
                None => {
                    let mut p = String::new();
                    p.push(c);
                    proof {
                        assert(p@ =~= seq![c]);
                    }
                    handle_partial(p, next)
                },
            }
        },
        Some(mut p) => {
            p.push(c);
            handle_partial(p, next)
        },
    }
}

pub open spec fn opt_str_view(o: Option<String>) -> Option<Seq<char>> {
    match o {
        Some(s) => Some(s@),
        None => None,
    }
}

fn lex_from(s: &str, i: usize, line: u32, partial: Option<String>, acc: Vec<SourceToken>) -> (r:
    Result<Vec<SourceToken>, LexError>)
    requires
        i <= s@.len(),
    ensures
        match spec_lex_from(s@, i as int, line, opt_str_view(partial), tokens_view(acc@)) {
            Ok(ts) => r is Ok && tokens_view(r->Ok_0@) == ts,
            Err(e) => r == Result::<Vec<SourceToken>, LexError>::Err(e),
        },
    decreases s@.len() - i,
{
    let len = s.unicode_len();
    if i >= len {
        if acc.len() == 0 {
            proof {
                assert(tokens_view(acc@).len() == 0);
            }
            Err(LexError { error_type: LexErrorType::EmptySpecification, line_number: line })
        } else {
            proof {
                assert(tokens_view(acc@).len() == acc@.len());
            }
            Ok(acc)
        }
    } else {
        let c = s.get_char(i);
        let next = if i + 1 < len {
            Some(s.get_char(i + 1))
        } else {
            None
        };
        let step = handle_char(partial, c, next);
        match step {
            TokenResult::Token(t) => {
                let line2 = match t {
                    Token::Newline => if line < u32::MAX {
                        line + 1
                    } else {
                        line
                    },
                    _ => line,
                };
                let mut acc2 = acc;
                let ghost acc_v = tokens_view(acc2@);
                acc2.push(SourceToken { token: t, line_number: line2 });
                proof {
                    assert(tokens_view(acc2@) =~= acc_v.push(
                        SourceTokenModel { token: t@, line_number: line2 },
                    ));
                }
                lex_from(s, i + 1, line2, None, acc2)
            },
            TokenResult::PartialToken(p) => lex_from(s, i + 1, line, Some(p), acc),
            TokenResult::Empty => lex_from(s, i + 1, line, None, acc),
            TokenResult::Error => Err(
                LexError { error_type: LexErrorType::ParseError, line_number: line },
            ),
        }
    }
}

/// Turns raw source text into a stream of line-annotated tokens.
///
/// Comments written `.( ... )` are elided entirely; an input that yields no
/// tokens at all is an error.
pub fn lexer(source: &str) -> (r: Result<Vec<SourceToken>, LexError>)
    ensures
        match spec_lex(source@) {
            Ok(ts) => r is Ok && tokens_view(r->Ok_0@) == ts,
            Err(e) => r == Result::<Vec<SourceToken>, LexError>::Err(e),
        },
{
    let acc: Vec<SourceToken> = Vec::new();
    proof {
        assert(tokens_view(acc@) =~= Seq::<SourceTokenModel>::empty());
    }
    lex_from(source, 0, 1, None, acc)
}

} // verus!
