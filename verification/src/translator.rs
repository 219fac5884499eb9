//! The translator: renders a token sequence as text of the target dialect.

use crate::text::same_text;
use crate::token::{models, Payload, Token, TokenModel, TokenType, TokenValue};
use vstd::prelude::*;
use vstd::string::StringExecFns;

verus! {

/// The text that one token adds to the output.
///
/// `in_call` tells whether the token stands inside the argument list of a
/// call, `before_closing_brace` whether the token after it is a closing
/// brace. A token whose payload does not fit its kind adds nothing.
pub open spec fn emission(token: TokenModel, in_call: bool, before_closing_brace: bool) -> Seq<
    char,
> {
    match (token.kind, token.value) {
        (TokenType::Keyword, Payload::Keyword(word)) => if word == "fn"@ {
            "function "@
        } else {
            Seq::empty()
        },
        (TokenType::Identifier, Payload::Identifier(name)) => name + " "@,
        (TokenType::LParen, _) => "("@,
        (TokenType::RParen, _) => if in_call {
            ")"@
        } else {
            ") "@
        },
        (TokenType::LBrace, _) => "{\n"@,
        (TokenType::RBrace, _) => "\n}\n"@,
        (TokenType::Function, Payload::Identifier(name)) => if name == "println!"@ {
            "print"@
        } else {
            Seq::empty()
        },
        (TokenType::String, Payload::Str(text)) => "\""@ + text + "\""@,
        (TokenType::Semicolon, _) => if before_closing_brace {
            ";"@
        } else {
            ";\n"@
        },
        _ => Seq::empty(),
    }
}

/// The call flag after a token: a call name sets it, a closing parenthesis
/// clears it, any other token leaves it as it was.
pub open spec fn call_flag_after(token: TokenModel, in_call: bool) -> bool {
    match token.kind {
        TokenType::Function => true,
        TokenType::RParen => false,
        _ => in_call,
    }
}

/// The call flag before the token at `pos`: clear at the start, then
/// carried from token to token.
pub open spec fn in_call_at(tokens: Seq<TokenModel>, pos: int) -> bool
    decreases pos,
{
    if pos <= 0 {
        false
    } else {
        call_flag_after(tokens[pos - 1], in_call_at(tokens, pos - 1))
    }
}

/// The token after the one at `pos` is a closing brace. After the last
/// token there is none.
pub open spec fn closing_brace_follows(tokens: Seq<TokenModel>, pos: int) -> bool {
    pos + 1 < tokens.len() && tokens[pos + 1].kind == TokenType::RBrace
}

/// The text that the first `count` tokens add to the output, in order.
pub open spec fn body_text(tokens: Seq<TokenModel>, count: int) -> Seq<char>
    decreases count,
{
    if count <= 0 {
        Seq::empty()
    } else {
        body_text(tokens, count - 1) + emission(
            tokens[count - 1],
            in_call_at(tokens, count - 1),
            closing_brace_follows(tokens, count - 1),
        )
    }
}

/// The translation of a token sequence: the text of all its tokens,
/// followed by the call that starts the program.
pub open spec fn render(tokens: Seq<TokenModel>) -> Seq<char> {
    body_text(tokens, tokens.len() as int) + "main()"@
}

/// Every translation ends with the call that starts the program, and the
/// translation of no tokens is that call alone.
pub proof fn translation_ends_with_entry_call(tokens: Seq<TokenModel>)
    ensures
        render(tokens).len() >= "main()"@.len(),
        render(tokens).skip(render(tokens).len() - "main()"@.len()) == "main()"@,
        tokens.len() == 0 ==> render(tokens) == "main()"@,
{
    let body = body_text(tokens, tokens.len() as int);
    assert((body + "main()"@).skip(body.len() as int) =~= "main()"@);
    if tokens.len() == 0 {
        assert(body + "main()"@ =~= "main()"@);
    }
}

/// Translates a token sequence into text of the target dialect.
pub fn translate(tokens: &Vec<Token>) -> (end_result: String)
    ensures
        end_result@ == render(models(tokens@)),
{
    let ghost all = models(tokens@);
    let mut end_result = String::new();
    let mut doing_function = false;
    for pos in 0..tokens.len()
        invariant
            all == models(tokens@),
            end_result@ == body_text(all, pos as int),
            doing_function == in_call_at(all, pos as int),
    {
        let token = &tokens[pos];
        let ghost before = end_result@;
        assert(all[pos as int] == token@);
        match token.token_type {
            TokenType::Keyword => {
                if let TokenValue::Keyword(keyword_value) = &token.value {
                    if same_text(keyword_value.as_str(), "fn") {
                        end_result.append("function ");
                    }
                }
            },
            TokenType::Identifier => {
                if let TokenValue::Identifier(identifier_value) = &token.value {
                    end_result.append(identifier_value.as_str());
                    end_result.append(" ");
                    assert(end_result@ =~= before + (identifier_value@ + " "@));
                }
            },
            TokenType::LParen => {
                end_result.append("(");
            },
            TokenType::RParen => {
                if doing_function {
                    end_result.append(")");
                    doing_function = false;
                } else {
                    end_result.append(") ");
                }
            },
            TokenType::LBrace => {
                end_result.append("{\n");
            },
            TokenType::RBrace => {
                end_result.append("\n}\n");
            },
            TokenType::Function => {
                doing_function = true;
                if let TokenValue::Identifier(function_name) = &token.value {
                    if same_text(function_name.as_str(), "println!") {
                        end_result.append("print");
                    }
                }
            },
            TokenType::String => {
                if let TokenValue::StrValue(string) = &token.value {
                    end_result.append("\"");
                    end_result.append(string.as_str());
                    end_result.append("\"");
                    assert(end_result@ =~= before + ("\""@ + string@ + "\""@));
                }
            },
            TokenType::Semicolon => {
                if pos + 1 < tokens.len() && matches!(tokens[pos + 1].token_type, TokenType::RBrace) {
                    end_result.append(";");
                } else {
                    end_result.append(";\n");
                }
            },
            _ => {},
        }
        assert(end_result@ =~= before + emission(
            all[pos as int],
            in_call_at(all, pos as int),
            closing_brace_follows(all, pos as int),
        ));
    }
    end_result.append("main()");
    end_result
}

} // verus!
