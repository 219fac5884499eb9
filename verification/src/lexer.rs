//! The lexer: a two-state scanner that cuts source text into tokens.

use crate::numeric::{is_float_literal, matches_float_literal, parse_i32, parsed_i32};
use crate::text::{chars_of, same_text};
use crate::token::{models, Keywords, Payload, Token, TokenModel, TokenType, TokenValue};
use vstd::prelude::*;

verus! {

/// The token that a run of characters outside a string literal stands for.
///
/// The rules apply in this order: the two truth values, the reserved words,
/// 32-bit integers, floating point literals, call names (marked by a `!`
/// anywhere in them), and names.
pub open spec fn classify(text: Seq<char>) -> TokenModel {
    if text == "true"@ {
        TokenModel { kind: TokenType::Boolean, value: Payload::Bool(true) }
    } else if text == "false"@ {
        TokenModel { kind: TokenType::Boolean, value: Payload::Bool(false) }
    } else if Keywords::lookup(text) is Some {
        TokenModel { kind: TokenType::Keyword, value: Payload::Keyword(text) }
    } else if parsed_i32(text) is Some {
        TokenModel { kind: TokenType::Integer, value: Payload::Int(parsed_i32(text).unwrap()) }
    } else if is_float_literal(text) {
        TokenModel { kind: TokenType::Float, value: Payload::Float(text) }
    } else if text.contains('!') {
        TokenModel { kind: TokenType::Function, value: Payload::Identifier(text) }
    } else {
        TokenModel { kind: TokenType::Identifier, value: Payload::Identifier(text) }
    }
}

/// The token that the text of a string literal stands for.
pub open spec fn string_token(text: Seq<char>) -> TokenModel {
    TokenModel { kind: TokenType::String, value: Payload::Str(text) }
}

/// The kind of token that a bracket character stands for.
pub open spec fn bracket(c: char) -> Option<TokenType> {
    if c == '(' {
        Some(TokenType::LParen)
    } else if c == ')' {
        Some(TokenType::RParen)
    } else if c == '{' {
        Some(TokenType::LBrace)
    } else if c == '}' {
        Some(TokenType::RBrace)
    } else {
        None
    }
}

/// The two states of the scanner.
#[derive(Debug, PartialEq, Eq, Clone, Copy)]
pub enum ScanMode {
    Normal,
    InString,
}

/// What the scanner holds between two characters: the tokens cut so far,
/// the characters gathered for the next one, and its state.
pub struct ScanState {
    pub emitted: Seq<TokenModel>,
    pub pending: Seq<char>,
    pub mode: ScanMode,
}

/// The tokens once the pending characters are classified: a pending run
/// that is empty adds nothing.
pub open spec fn flush(emitted: Seq<TokenModel>, pending: Seq<char>) -> Seq<TokenModel> {
    if pending.len() == 0 {
        emitted
    } else {
        emitted.push(classify(pending))
    }
}

/// The scanner before the first character.
pub open spec fn start() -> ScanState {
    ScanState { emitted: Seq::empty(), pending: Seq::empty(), mode: ScanMode::Normal }
}

/// The scanner after one more character.
pub open spec fn scan_step(state: ScanState, c: char) -> ScanState {
    if c == ';' {
        ScanState {
            emitted: flush(state.emitted, state.pending).push(
                TokenModel::bare(TokenType::Semicolon),
            ),
            pending: Seq::empty(),
            mode: state.mode,
        }
    } else if c == '"' || c == '\'' {
        match state.mode {
            ScanMode::Normal => ScanState {
                emitted: state.emitted,
                pending: state.pending,
                mode: ScanMode::InString,
            },
            ScanMode::InString => ScanState {
                emitted: if state.pending.len() == 0 {
                    state.emitted
                } else {
                    state.emitted.push(string_token(state.pending))
                },
                pending: Seq::empty(),
                mode: ScanMode::Normal,
            },
        }
    } else if c == '\n' {
        state
    } else if state.mode is Normal && c == ' ' {
        ScanState {
            emitted: flush(state.emitted, state.pending),
            pending: Seq::empty(),
            mode: state.mode,
        }
    } else if state.mode is Normal && bracket(c) is Some {
        ScanState {
            emitted: flush(state.emitted, state.pending).push(
                TokenModel::bare(bracket(c).unwrap()),
            ),
            pending: Seq::empty(),
            mode: state.mode,
        }
    } else {
        ScanState { emitted: state.emitted, pending: state.pending.push(c), mode: state.mode }
    }
}

/// The scanner after the characters of `input`, one by one from the left,
/// when it was in `state` before them.
pub open spec fn scan_from(state: ScanState, input: Seq<char>) -> ScanState
    decreases input.len(),
{
    if input.len() == 0 {
        state
    } else {
        scan_step(scan_from(state, input.drop_last()), input.last())
    }
}

/// The scanner after the whole of `input`.
pub open spec fn scan(input: Seq<char>) -> ScanState {
    scan_from(start(), input)
}

/// The tokens of `input`: what the scanner has cut at the end of the text,
/// with the characters still pending classified as a last token.
pub open spec fn lex(input: Seq<char>) -> Seq<TokenModel> {
    flush(scan(input).emitted, scan(input).pending)
}

/// What holds of every token that the lexer cuts: its payload has the shape
/// that its kind calls for, its kind is none of the reserved ones, a text
/// that it carries is not empty, and the text of a float is a float literal.
pub open spec fn cut_by_lexer(token: TokenModel) -> bool {
    &&& token.consistent()
    &&& token.kind != TokenType::LCurly
    &&& token.kind != TokenType::RCurly
    &&& token.kind != TokenType::Unknown
    &&& match token.value {
        Payload::Str(text) => text.len() > 0,
        Payload::Float(text) => text.len() > 0 && is_float_literal(text),
        Payload::Identifier(text) => text.len() > 0,
        Payload::Keyword(text) => Keywords::lookup(text) is Some,
        _ => true,
    }
}

/// A character that ends the pending run of characters when the scanner is
/// outside a string literal.
pub open spec fn cuts(c: char) -> bool {
    c == ' ' || c == ';' || bracket(c) is Some
}

/// `text` without the newlines that it begins with.
pub open spec fn after_newlines(text: Seq<char>) -> Seq<char>
    decreases text.len(),
{
    if text.len() > 0 && text[0] == '\n' {
        after_newlines(text.skip(1))
    } else {
        text
    }
}

/// Between `before` and `after` one token ends and the next has not begun:
/// the scanner is outside a string literal there, and either nothing is
/// pending, or what follows, newlines aside, is the end of the text or a
/// character that cuts.
pub open spec fn at_token_boundary(before: Seq<char>, after: Seq<char>) -> bool {
    scan(before).mode is Normal && (scan(before).pending.len() == 0 || after_newlines(after).len()
        == 0 || cuts(after_newlines(after)[0]))
}

/// A run of `count` spaces.
pub open spec fn spaces(count: nat) -> Seq<char> {
    Seq::new(count, |i: int| ' ')
}

/// The tokens depend on the text alone: whatever two runs over one text
/// return, they are the same tokens and as many.
pub proof fn tokens_depend_on_text_alone(first: Seq<Token>, second: Seq<Token>, input: Seq<char>)
    requires
        models(first) == lex(input),
        models(second) == lex(input),
    ensures
        models(first) == models(second),
        first.len() == second.len(),
{
    assert(models(first).len() == first.len());
    assert(models(second).len() == second.len());
}

/// Scanning a text in two parts is scanning the whole.
pub proof fn scan_in_two_parts(state: ScanState, first: Seq<char>, second: Seq<char>)
    ensures
        scan_from(state, first + second) == scan_from(scan_from(state, first), second),
    decreases second.len(),
{
    if second.len() == 0 {
        assert(first + second =~= first);
    } else {
        assert((first + second).drop_last() =~= first + second.drop_last());
        assert((first + second).last() == second.last());
        scan_in_two_parts(state, first, second.drop_last());
    }
}

/// Every token of a text is one that the lexer cuts: none has a reserved
/// kind or a payload that does not fit its kind.
pub proof fn tokens_are_cut_by_lexer(input: Seq<char>)
    ensures
        forall|i: int| 0 <= i < lex(input).len() ==> cut_by_lexer(#[trigger] lex(input)[i]),
        forall|i: int|
            0 <= i < scan(input).emitted.len() ==> cut_by_lexer(#[trigger] scan(input).emitted[i]),
    decreases input.len(),
{
    if input.len() > 0 {
        tokens_are_cut_by_lexer(input.drop_last());
        assert(scan(input) == scan_step(scan(input.drop_last()), input.last()));
    }
}

/// A newline changes no token, wherever it stands.
pub proof fn newlines_change_nothing(before: Seq<char>, after: Seq<char>)
    ensures
        lex(before + seq!['\n'] + after) == lex(before + after),
{
    let line_end = seq!['\n'];
    assert(scan_from(scan(before), line_end) == scan(before)) by {
        reveal_with_fuel(scan_from, 2);
    }
    scan_in_two_parts(start(), before, line_end);
    scan_in_two_parts(start(), before + line_end, after);
    scan_in_two_parts(start(), before, after);
}

/// Spaces put between two tokens, outside any string literal, change no
/// token: neither the kinds nor the payloads, nor how many there are.
pub proof fn spaces_between_tokens_change_nothing(
    before: Seq<char>,
    after: Seq<char>,
    count: nat,
)
    requires
        at_token_boundary(before, after),
    ensures
        lex(before + spaces(count) + after) == lex(before + after),
{
    let state = scan(before);
    let gap = scan_from(state, spaces(count));
    let rest = after_newlines(after);
    spaces_flush_once(state, count);
    scan_in_two_parts(start(), before, spaces(count));
    scan_in_two_parts(start(), before + spaces(count), after);
    scan_in_two_parts(start(), before, after);
    leading_newlines_are_skipped(state, after);
    leading_newlines_are_skipped(gap, after);
    assert(scan(before + spaces(count) + after) == scan_from(gap, rest));
    assert(scan(before + after) == scan_from(state, rest));
    if count == 0 {
    } else if state.pending.len() == 0 {
        assert(state.pending =~= Seq::<char>::empty());
        assert(gap == state);
    } else if rest.len() == 0 {
    } else {
        let head = seq![rest[0]];
        let tail = rest.skip(1);
        assert(rest =~= head + tail);
        assert(scan_from(state, head) == scan_step(state, rest[0])) by {
            reveal_with_fuel(scan_from, 2);
        }
        assert(scan_from(gap, head) == scan_step(gap, rest[0])) by {
            reveal_with_fuel(scan_from, 2);
        }
        assert(scan_step(gap, rest[0]) == scan_step(state, rest[0]));
        scan_in_two_parts(state, head, tail);
        scan_in_two_parts(gap, head, tail);
    }
}

/// The newlines that a text begins with leave the scanner as it was.
proof fn leading_newlines_are_skipped(state: ScanState, text: Seq<char>)
    ensures
        scan_from(state, text) == scan_from(state, after_newlines(text)),
    decreases text.len(),
{
    if text.len() > 0 && text[0] == '\n' {
        let head = seq![text[0]];
        assert(text =~= head + text.skip(1));
        assert(scan_from(state, head) == state) by {
            reveal_with_fuel(scan_from, 2);
        }
        scan_in_two_parts(state, head, text.skip(1));
        leading_newlines_are_skipped(state, text.skip(1));
    }
}

/// Outside a string literal, one space or many classify the pending
/// characters once and leave nothing pending.
proof fn spaces_flush_once(state: ScanState, count: nat)
    requires
        state.mode is Normal,
    ensures
        scan_from(state, spaces(count)) == if count == 0 {
            state
        } else {
            ScanState {
                emitted: flush(state.emitted, state.pending),
                pending: Seq::empty(),
                mode: ScanMode::Normal,
            }
        },
    decreases count,
{
    if count > 0 {
        let fewer = (count - 1) as nat;
        assert(spaces(count).drop_last() =~= spaces(fewer));
        spaces_flush_once(state, fewer);
    }
}

/// Tells which kind of token a bracket character stands for.
fn bracket_kind(c: char) -> (kind: Option<TokenType>)
    ensures
        kind == bracket(c),
{
    if c == '(' {
        Some(TokenType::LParen)
    } else if c == ')' {
        Some(TokenType::RParen)
    } else if c == '{' {
        Some(TokenType::LBrace)
    } else if c == '}' {
        Some(TokenType::RBrace)
    } else {
        None
    }
}

/// Tells whether `text` holds a `!`.
fn has_bang(text: &[char]) -> (found: bool)
    ensures
        found == text@.contains('!'),
{
    let mut i: usize = 0;
    while i < text.len()
        invariant
            i <= text.len(),
            !text@.take(i as int).contains('!'),
        decreases text.len() - i,
    {
        if text[i] == '!' {
            return true;
        }
        i += 1;
    }
    assert(text@.take(i as int) =~= text@);
    false
}

/// Classifies a run of characters as one token.
pub fn parse_token(token: &str) -> (parsed: Token)
    ensures
        parsed@ == classify(token@),
        parsed@.consistent(),
{
    if same_text(token, "true") {
        return Token { token_type: TokenType::Boolean, value: TokenValue::BoolValue(true) };
    }
    if same_text(token, "false") {
        return Token { token_type: TokenType::Boolean, value: TokenValue::BoolValue(false) };
    }
    if Keywords::from_text(token).is_some() {
        return Token {
            token_type: TokenType::Keyword,
            value: TokenValue::Keyword(token.to_owned()),
        };
    }
    let chars = chars_of(token);
    if let Some(number) = parse_i32(chars.as_slice()) {
        return Token { token_type: TokenType::Integer, value: TokenValue::IntValue(number) };
    }
    if matches_float_literal(chars.as_slice()) {
        return Token {
            token_type: TokenType::Float,
            value: TokenValue::FloatValue(token.to_owned()),
        };
    }
    if has_bang(chars.as_slice()) {
        return Token {
            token_type: TokenType::Function,
            value: TokenValue::Identifier(token.to_owned()),
        };
    }
    Token { token_type: TokenType::Identifier, value: TokenValue::Identifier(token.to_owned()) }
}

/// Puts one more token at the end of `tokens`.
fn append_token(tokens: &mut Vec<Token>, token: Token)
    ensures
        models(final(tokens)@) == models(old(tokens)@).push(token@),
{
    assert(models(tokens@).push(token@) =~= models(tokens@.push(token)));
    tokens.push(token);
}

/// Classifies the pending characters as one more token and empties them;
/// does nothing where none is pending.
fn push_token(tokens: &mut Vec<Token>, current_token: &mut String)
    ensures
        models(final(tokens)@) == flush(models(old(tokens)@), old(current_token)@),
        final(current_token)@ == Seq::<char>::empty(),
{
    if !current_token.as_str().is_empty() {
        let parsed = parse_token(current_token.as_str());
        append_token(tokens, parsed);
        *current_token = String::new();
    } else {
        assert(current_token@ =~= Seq::<char>::empty());
    }
}

/// Cuts `input` into tokens. Every text has tokens: what is neither a
/// number, a reserved word nor a call name is a name.
pub fn tokenize(input: &str) -> (tokens: Vec<Token>)
    ensures
        models(tokens@) == lex(input@),
        forall|i: int| 0 <= i < tokens.len() ==> cut_by_lexer((#[trigger] tokens[i])@),
{
    let mut tokens: Vec<Token> = Vec::new();
    let mut current_token = String::new();
    let mut mode = ScanMode::Normal;
    assert(models(tokens@) =~= Seq::<TokenModel>::empty());
    for c in it: input.chars()
        invariant
            it.seq() == input@,
            scan(input@.take(it.index())) == (ScanState {
                emitted: models(tokens@),
                pending: current_token@,
                mode,
            }),
    {
        proof {
            let longer = input@.take(it.index() + 1);
            assert(longer.drop_last() =~= input@.take(it.index()));
            assert(longer.last() == c);
        }
        let in_string = matches!(mode, ScanMode::InString);
        if c == ';' {
            push_token(&mut tokens, &mut current_token);
            append_token(&mut tokens, Token::bare(TokenType::Semicolon));
        } else if c == '"' || c == '\'' {
            if in_string {
                if !current_token.as_str().is_empty() {
                    append_token(
                        &mut tokens,
                        Token {
                            token_type: TokenType::String,
                            value: TokenValue::StrValue(current_token),
                        },
                    );
                    current_token = String::new();
                } else {
                    assert(current_token@ =~= Seq::<char>::empty());
                }
                mode = ScanMode::Normal;
            } else {
                mode = ScanMode::InString;
            }
        } else if c == '\n' {
        } else if !in_string && c == ' ' {
            push_token(&mut tokens, &mut current_token);
        } else if !in_string && bracket_kind(c).is_some() {
            push_token(&mut tokens, &mut current_token);
            append_token(&mut tokens, Token::bare(bracket_kind(c).unwrap()));
        } else {
            current_token.push(c);
        }
    }
    assert(input@.take(input@.len() as int) =~= input@);
    push_token(&mut tokens, &mut current_token);
    proof {
        tokens_are_cut_by_lexer(input@);
        assert forall|i: int| 0 <= i < tokens.len() implies cut_by_lexer(
            (#[trigger] tokens[i])@,
        ) by {
            assert(lex(input@)[i] == tokens[i]@);
        }
    }
    tokens
}

} // verus!
