use vstd::prelude::*;

use crate::error::LexerError;
use crate::text::{
    alphabetic,
    ascii_alphanumeric,
    ascii_digit,
    chars_of,
    is_alphabetic,
    is_ascii_alphanumeric,
    is_ascii_digit,
    is_whitespace,
    whitespace,
};
use crate::token::{LexerTokenMap, ParserToken, SpecialTokenMap, Token, Tokens, tokens_view};

verus! {

/// The states of the scanner.
#[derive(Clone, Copy, PartialEq, Eq, Debug, Structural)]
pub enum LexerState {
    Normal,
    Identifier,
    Sign,
    Integer,
    Float,
    String,
    Comment,
    Error,
    End,
}

/// What one character does: the next state, the kind of the token to emit from
/// the characters buffered so far, whether to buffer the character, and whether
/// to move on to the next character.
#[derive(Clone, Copy)]
pub struct LexerResult<T> {
    pub state: LexerState,
    pub create: Option<T>,
    pub buffer: bool,
    pub move_cursor: bool,
}

pub open spec fn res<T>(state: LexerState, create: Option<T>, buffer: bool, move_cursor: bool) -> LexerResult<T> {
    LexerResult { state, create, buffer, move_cursor }
}

/// The character that stands for the end of the input.
pub open spec fn char_at(input: Seq<char>, i: int) -> char {
    if 0 <= i < input.len() {
        input[i]
    } else {
        '\0'
    }
}

/// What `ch` does in `state` with `buf` buffered.
pub open spec fn step<T: ParserToken>(
    signs: SpecialTokenMap<T>,
    kinds: LexerTokenMap<T>,
    state: LexerState,
    buf: Seq<char>,
    ch: char,
) -> Result<LexerResult<T>, LexerError> {
    match state {
        LexerState::Normal => {
            if alphabetic(ch) || ch == '_' {
                Ok(res(LexerState::Identifier, None, true, true))
            } else if whitespace(ch) {
                Ok(res(LexerState::Normal, None, false, true))
            } else if signs.sign_char(ch) {
                Ok(res(LexerState::Sign, None, true, true))
            } else if ascii_digit(ch) {
                Ok(res(LexerState::Integer, None, true, true))
            } else if ch == '"' {
                Ok(res(LexerState::String, None, false, true))
            } else if ch == '#' {
                Ok(res(LexerState::Comment, None, false, true))
            } else if ch == '\0' {
                Ok(res(LexerState::End, Some(kinds.eof), false, false))
            } else {
                Err(LexerError::UnexpectedToken(ch))
            }
        },
        LexerState::Identifier => {
            if ascii_alphanumeric(ch) || ch == '_' {
                Ok(res(LexerState::Identifier, None, true, true))
            } else if signs.keyword_type(buf) is Some {
                Ok(res(LexerState::Normal, signs.keyword_type(buf), false, false))
            } else {
                Ok(res(LexerState::Normal, Some(kinds.identifier), false, false))
            }
        },
        LexerState::Sign => {
            if signs.sign_type(buf.push(ch)) is Some {
                Ok(res(LexerState::Sign, None, true, true))
            } else if signs.sign_type(buf) is Some {
                Ok(res(LexerState::Normal, signs.sign_type(buf), false, false))
            } else {
                Err(LexerError::UnexpectedToken(ch))
            }
        },
        LexerState::Integer => {
            if ascii_digit(ch) {
                Ok(res(LexerState::Integer, None, true, true))
            } else if ch == '.' {
                Ok(res(LexerState::Float, None, true, true))
            } else {
                Ok(res(LexerState::Normal, Some(kinds.integer), false, false))
            }
        },
        LexerState::Float => {
            if ascii_digit(ch) {
                Ok(res(LexerState::Float, None, true, true))
            } else {
                Ok(res(LexerState::Normal, Some(kinds.float), false, false))
            }
        },
        LexerState::String => {
            if ch == '\0' {
                Err(LexerError::Error("Unexpected EOF"))
            } else if ch == '"' {
                Ok(res(LexerState::Normal, Some(kinds.string), false, true))
            } else {
                Ok(res(LexerState::String, None, true, true))
            }
        },
        LexerState::Comment => {
            if ch == '\0' || ch == '\n' {
                Ok(res(LexerState::Normal, None, false, true))
            } else {
                Ok(res(LexerState::Comment, None, false, true))
            }
        },
        _ => Ok(res(LexerState::Error, None, false, false)),
    }
}

/// The tokens that the rest of the scan adds to `toks`, from position `i` of
/// `input` in `state` with `buf` buffered, within `fuel` steps.
pub open spec fn lex_from<T: ParserToken>(
    signs: SpecialTokenMap<T>,
    kinds: LexerTokenMap<T>,
    input: Seq<char>,
    state: LexerState,
    i: int,
    buf: Seq<char>,
    toks: Seq<(T, Seq<char>)>,
    fuel: nat,
) -> Result<Seq<(T, Seq<char>)>, LexerError>
    decreases fuel,
{
    if state == LexerState::End {
        Ok(toks)
    } else if state == LexerState::Error || fuel == 0 {
        Err(LexerError::Error("Lexer is not at END State when parsing finished"))
    } else {
        let ch = char_at(input, i);
        match step(signs, kinds, state, buf, ch) {
            Err(e) => Err(e),
            Ok(r) => {
                let toks2 = match r.create {
                    Some(k) => toks.push((k, buf)),
                    None => toks,
                };
                let buf2 = if r.create is Some {
                    Seq::empty()
                } else {
                    buf
                };
                let buf3 = if r.buffer {
                    buf2.push(ch)
                } else {
                    buf2
                };
                let i2 = if r.move_cursor && i < input.len() {
                    i + 1
                } else {
                    i
                };
                lex_from(signs, kinds, input, r.state, i2, buf3, toks2, (fuel - 1) as nat)
            },
        }
    }
}

/// The tokens of `input`, or the error that stops the scan.
pub open spec fn lex<T: ParserToken>(
    signs: SpecialTokenMap<T>,
    kinds: LexerTokenMap<T>,
    input: Seq<char>,
) -> Result<Seq<(T, Seq<char>)>, LexerError> {
    if input.len() == 0 {
        Err(LexerError::Error("Empty input string"))
    } else {
        lex_from(signs, kinds, input, LexerState::Normal, 0, Seq::empty(), Seq::empty(), usize::MAX as nat)
    }
}

/// Relies on `String`'s `FromIterator<char>`: the string of these characters.
#[verifier::external_body]
fn string_of(cs: &Vec<char>) -> (r: String)
    ensures
        r@ == cs@,
{
    cs.iter().collect()
}

/// A character-level scanner with a table of operators and keywords.
pub struct Lexer<T> {
    state: LexerState,
    buffer: Vec<char>,
    tokens: Vec<Token<T>>,
    special_token_map: SpecialTokenMap<T>,
    token_map: LexerTokenMap<T>,
}

impl<T: ParserToken> Lexer<T> {
    /// The operators and keywords that the scanner recognises.
    pub closed spec fn signs(&self) -> SpecialTokenMap<T> {
        self.special_token_map
    }

    /// The kinds that the scanner gives to each class of lexeme.
    pub closed spec fn kinds(&self) -> LexerTokenMap<T> {
        self.token_map
    }

    /// The scanner's table of operator characters is complete.
    pub closed spec fn wf(&self) -> bool {
        self.special_token_map.wf()
    }

    fn handle_normal_state(&self, ch: char) -> (r: Result<LexerResult<T>, LexerError>)
        requires
            self.wf(),
        ensures
            r == step(self.signs(), self.kinds(), LexerState::Normal, self.buffer@, ch),
    {
        if is_alphabetic(ch) || ch == '_' {
            Ok(LexerResult { state: LexerState::Identifier, create: None, buffer: true, move_cursor: true })
        } else if is_whitespace(ch) {
            Ok(LexerResult { state: LexerState::Normal, create: None, buffer: false, move_cursor: true })
        } else if self.special_token_map.is_valid_sign_character(ch) {
            Ok(LexerResult { state: LexerState::Sign, create: None, buffer: true, move_cursor: true })
        } else if is_ascii_digit(ch) {
            Ok(LexerResult { state: LexerState::Integer, create: None, buffer: true, move_cursor: true })
        } else if ch == '"' {
            Ok(LexerResult { state: LexerState::String, create: None, buffer: false, move_cursor: true })
        } else if ch == '#' {
            Ok(LexerResult { state: LexerState::Comment, create: None, buffer: false, move_cursor: true })
        } else if ch == '\0' {
            Ok(
                LexerResult {
                    state: LexerState::End,
                    create: Some(self.token_map.eof),
                    buffer: false,
                    move_cursor: false,
                },
            )
        } else {
            Err(LexerError::UnexpectedToken(ch))
        }
    }

    fn handle_identifier_state(&self, ch: char) -> (r: Result<LexerResult<T>, LexerError>)
        ensures
            r == step(self.signs(), self.kinds(), LexerState::Identifier, self.buffer@, ch),
    {
        if is_ascii_alphanumeric(ch) || ch == '_' {
            return Ok(
                LexerResult { state: LexerState::Identifier, create: None, buffer: true, move_cursor: true },
            );
        }
        let keyword = self.special_token_map.keyword_type_of(&self.buffer);
        if keyword.is_some() {
            Ok(LexerResult { state: LexerState::Normal, create: keyword, buffer: false, move_cursor: false })
        } else {
            Ok(
                LexerResult {
                    state: LexerState::Normal,
                    create: Some(self.token_map.identifier),
                    buffer: false,
                    move_cursor: false,
                },
            )
        }
    }

    fn handle_sign_state(&self, ch: char) -> (r: Result<LexerResult<T>, LexerError>)
        ensures
            r == step(self.signs(), self.kinds(), LexerState::Sign, self.buffer@, ch),
    {
        if self.special_token_map.sign_type_of_pushed(&self.buffer, ch).is_some() {
            Ok(LexerResult { state: LexerState::Sign, create: None, buffer: true, move_cursor: true })
        } else {
            match self.special_token_map.sign_type_of(&self.buffer) {
                Some(token) => Ok(
                    LexerResult {
                        state: LexerState::Normal,
                        create: Some(token),
                        buffer: false,
                        move_cursor: false,
                    },
                ),
                None => Err(LexerError::UnexpectedToken(ch)),
            }
        }
    }

    fn handle_integer_state(&self, ch: char) -> (r: Result<LexerResult<T>, LexerError>)
        ensures
            r == step(self.signs(), self.kinds(), LexerState::Integer, self.buffer@, ch),
    {
        if is_ascii_digit(ch) {
            Ok(LexerResult { state: LexerState::Integer, create: None, buffer: true, move_cursor: true })
        } else if ch == '.' {
            Ok(LexerResult { state: LexerState::Float, create: None, buffer: true, move_cursor: true })
        } else {
            Ok(
                LexerResult {
                    state: LexerState::Normal,
                    create: Some(self.token_map.integer),
                    buffer: false,
                    move_cursor: false,
                },
            )
        }
    }

    fn handle_float_state(&self, ch: char) -> (r: Result<LexerResult<T>, LexerError>)
        ensures
            r == step(self.signs(), self.kinds(), LexerState::Float, self.buffer@, ch),
    {
        if is_ascii_digit(ch) {
            Ok(LexerResult { state: LexerState::Float, create: None, buffer: true, move_cursor: true })
        } else {
            Ok(
                LexerResult {
                    state: LexerState::Normal,
                    create: Some(self.token_map.float),
                    buffer: false,
                    move_cursor: false,
                },
            )
        }
    }

    fn handle_string_state(&self, ch: char) -> (r: Result<LexerResult<T>, LexerError>)
        ensures
            r == step(self.signs(), self.kinds(), LexerState::String, self.buffer@, ch),
    {
        if ch == '\0' {
            Err(LexerError::Error("Unexpected EOF"))
        } else if ch == '"' {
            Ok(
                LexerResult {
                    state: LexerState::Normal,
                    create: Some(self.token_map.string),
                    buffer: false,
                    move_cursor: true,
                },
            )
        } else {
            Ok(LexerResult { state: LexerState::String, create: None, buffer: true, move_cursor: true })
        }
    }

    fn handle_comment_state(&self, ch: char) -> (r: Result<LexerResult<T>, LexerError>)
        ensures
            r == step(self.signs(), self.kinds(), LexerState::Comment, self.buffer@, ch),
    {
        if ch == '\0' || ch == '\n' {
            Ok(LexerResult { state: LexerState::Normal, create: None, buffer: false, move_cursor: true })
        } else {
            Ok(LexerResult { state: LexerState::Comment, create: None, buffer: false, move_cursor: true })
        }
    }

    /// A scanner with these lexeme kinds, operators and keywords.
    pub fn new(token_map: LexerTokenMap<T>, special_token_map: SpecialTokenMap<T>) -> (r: Lexer<T>)
        requires
            special_token_map.wf(),
        ensures
            r.wf(),
            r.signs() == special_token_map,
            r.kinds() == token_map,
    {
        Lexer {
            state: LexerState::Normal,
            buffer: Vec::new(),
            tokens: Vec::new(),
            token_map,
            special_token_map,
        }
    }

    fn reset(&mut self)
        ensures
            final(self).state == LexerState::Normal,
            final(self).buffer@.len() == 0,
            final(self).tokens@.len() == 0,
            final(self).special_token_map == old(self).special_token_map,
            final(self).token_map == old(self).token_map,
    {
        self.state = LexerState::Normal;
        self.buffer.clear();
        self.tokens.clear();
    }

    /// Scans `input`: the tokens up to and with the end-of-input token, or the
    /// first lexical error.
    pub fn parse(&mut self, input: &str) -> (r: Result<Tokens<T>, LexerError>)
        requires
            old(self).wf(),
        ensures
            final(self).wf(),
            final(self).signs() == old(self).signs(),
            final(self).kinds() == old(self).kinds(),
            match r {
                Ok(ts) => lex(old(self).signs(), old(self).kinds(), input@) == Ok::<
                    Seq<(T, Seq<char>)>,
                    LexerError,
                >(tokens_view(ts.0@)),
                Err(e) => lex(old(self).signs(), old(self).kinds(), input@) == Err::<
                    Seq<(T, Seq<char>)>,
                    LexerError,
                >(e),
            },
    {
        self.reset();
        let chars = chars_of(input);
        if chars.len() == 0 {
            return Err(LexerError::Error("Empty input string"));
        }
        let ghost goal = lex(self.signs(), self.kinds(), input@);
        let mut i: usize = 0;
        let mut fuel: usize = usize::MAX;
        assert(tokens_view(self.tokens@) =~= Seq::<(T, Seq<char>)>::empty());
        assert(self.buffer@ =~= Seq::<char>::empty());
        assert(input@.len() != 0);
        while self.state != LexerState::End && self.state != LexerState::Error && fuel > 0
            invariant
                self.wf(),
                self.signs() == old(self).signs(),
                self.kinds() == old(self).kinds(),
                chars@ == input@,
                goal == lex(old(self).signs(), old(self).kinds(), input@),
                i <= chars@.len(),
                goal == lex_from(
                    self.signs(),
                    self.kinds(),
                    input@,
                    self.state,
                    i as int,
                    self.buffer@,
                    tokens_view(self.tokens@),
                    fuel as nat,
                ),
            decreases fuel,
        {
            let ch = if i < chars.len() {
                chars[i]
            } else {
                '\0'
            };
            let ghost st = self.state;
            let ghost b = self.buffer@;
            let ghost tv = tokens_view(self.tokens@);
            assert(goal == lex_from(self.signs(), self.kinds(), input@, st, i as int, b, tv, fuel as nat));
            assert(goal == lex(old(self).signs(), old(self).kinds(), input@));
            let moved = match self.parse_char(ch) {
                Ok(m) => m,
                Err(e) => {
                    assert(ch == char_at(input@, i as int));
                    assert(lex_from(self.signs(), self.kinds(), input@, st, i as int, b, tv, fuel as nat)
                        == Err::<Seq<(T, Seq<char>)>, LexerError>(e));
                    return Err(e);
                },
            };
            if moved && i < chars.len() {
                i = i + 1;
            }
            fuel = fuel - 1;
        }
        match self.state {
            LexerState::End => {
                assert(goal == Ok::<Seq<(T, Seq<char>)>, LexerError>(tokens_view(self.tokens@)));
                let mut tokens: Vec<Token<T>> = Vec::new();
                let ghost before = self.tokens@;
                core::mem::swap(&mut tokens, &mut self.tokens);
                assert(tokens@ == before);
                let ts = Tokens(tokens);
                assert(tokens_view(ts.0@) == tokens_view(before));
                assert(goal == lex(old(self).signs(), old(self).kinds(), input@));
                Ok(ts)
            },
            _ => Err(LexerError::Error("Lexer is not at END State when parsing finished")),
        }
    }

    /// Feeds one character to the scanner; tells whether to move on.
    fn parse_char(&mut self, ch: char) -> (r: Result<bool, LexerError>)
        requires
            old(self).wf(),
            old(self).state != LexerState::End,
            old(self).state != LexerState::Error,
        ensures
            final(self).wf(),
            final(self).special_token_map == old(self).special_token_map,
            final(self).token_map == old(self).token_map,
            match step(old(self).signs(), old(self).kinds(), old(self).state, old(self).buffer@, ch) {
                Err(e) => r == Err::<bool, LexerError>(e),
                Ok(s) => {
                    &&& r == Ok::<bool, LexerError>(s.move_cursor)
                    &&& final(self).state == s.state
                    &&& tokens_view(final(self).tokens@) == match s.create {
                        Some(k) => tokens_view(old(self).tokens@).push((k, old(self).buffer@)),
                        None => tokens_view(old(self).tokens@),
                    }
                    &&& final(self).buffer@ == {
                        let b = if s.create is Some {
                            Seq::empty()
                        } else {
                            old(self).buffer@
                        };
                        if s.buffer {
                            b.push(ch)
                        } else {
                            b
                        }
                    }
                },
            },
    {
        let res = match self.state {
            LexerState::Normal => self.handle_normal_state(ch),
            LexerState::Identifier => self.handle_identifier_state(ch),
            LexerState::Sign => self.handle_sign_state(ch),
            LexerState::Integer => self.handle_integer_state(ch),
            LexerState::Float => self.handle_float_state(ch),
            LexerState::String => self.handle_string_state(ch),
            LexerState::Comment => self.handle_comment_state(ch),
            LexerState::Error | LexerState::End => Ok(
                LexerResult { state: LexerState::Error, create: None, buffer: false, move_cursor: false },
            ),
        };
        let res = match res {
            Ok(x) => x,
            Err(e) => {
                return Err(e);
            },
        };
        self.state = res.state;
        match res.create {
            Some(kind) => {
                let value = string_of(&self.buffer);
                let ghost old_tokens = tokens_view(self.tokens@);
                self.tokens.push(Token { kind, value });
                assert(tokens_view(self.tokens@) =~= old_tokens.push((kind, value@)));
                self.buffer.clear();
            },
            None => {},
        }
        if res.buffer {
            self.buffer.push(ch);
        }
        Ok(res.move_cursor)
    }
}

} // verus!
