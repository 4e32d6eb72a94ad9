use crate::span::Span;
use vstd::prelude::*;

verus! {

/// A symbol handle handed out by the name interner.
#[derive(Copy, Clone, PartialEq, Eq, Hash, Debug, Structural)]
pub struct NameId(pub u32);

/// The tokens that the expression grammar reads.
#[derive(Clone, Debug)]
pub enum Token {
    Identifier(NameId),
    DecIntLiteral(u64),
    /// A decimal float literal, given by its IEEE-754 bit pattern.
    DecFloatLiteral(u64),
    BinLiteral(u64),
    HexLiteral(u64),
    StringLiteral(String),
    LParen,
    RParen,
    Comma,
    Invert,
    LogicalOr,
    LogicalAnd,
    BitOr,
    BitXor,
    BitAnd,
    EQ,
    NEQ,
    LT,
    LTE,
    GT,
    GTE,
    BitShiftL,
    BitShiftR,
    ArithShiftR,
    Add,
    Sub,
    Mult,
    Div,
    Mod,
}

/// A token together with the source range it was read from.
#[derive(Clone, Debug)]
pub struct TokenAt {
    pub token: Token,
    pub span: Span,
}


/// What the parser was looking for when it met an unexpected token.
#[derive(Copy, Clone, PartialEq, Eq, Debug, Structural)]
pub enum Expected {
    Identifier,
    Literal,
    LeftParen,
    RightParen,
    ArgumentSeparator,
}

/// A construct the grammar recognises but does not implement.
#[derive(Copy, Clone, PartialEq, Eq, Debug, Structural)]
pub enum Construct {
    StringLiteral,
    UnaryOperator,
}

/// A typed parse failure; `pos` is the index of the offending token.
#[derive(Copy, Clone, PartialEq, Eq, Debug, Structural)]
pub enum ParserError {
    UnexpectedToken { pos: usize, expected: Expected },
    UnexpectedEnd { pos: usize },
    Unsupported { pos: usize, construct: Construct },
}

/// Punctuation that the grammar requires at fixed places.
#[derive(Copy, Clone, PartialEq, Eq, Debug, Structural)]
pub enum Punct {
    LParen,
    RParen,
    Comma,
}

pub open spec fn is_punct(t: Token, p: Punct) -> bool {
    match p {
        Punct::LParen => t is LParen,
        Punct::RParen => t is RParen,
        Punct::Comma => t is Comma,
    }
}

/// A cursor over a materialised token list; a checkpoint is a position.
pub struct ParseInput {
    tokens: Vec<TokenAt>,
    pos: usize,
}

impl ParseInput {
    pub closed spec fn tokens(&self) -> Seq<TokenAt> {
        self.tokens@
    }

    /// The index of the next token to be read.
    pub closed spec fn pos(&self) -> int {
        self.pos as int
    }

    pub open spec fn wf(&self) -> bool {
        0 <= self.pos() <= self.tokens().len()
    }

    /// How many tokens are left to read.
    pub open spec fn remaining(&self) -> int {
        self.tokens().len() - self.pos()
    }

    pub fn new(tokens: Vec<TokenAt>) -> (r: ParseInput)
        ensures
            r.wf(),
            r.tokens() == tokens@,
            r.pos() == 0,
    {
        ParseInput { tokens, pos: 0 }
    }

    pub fn position(&self) -> (r: usize)
        ensures
            r == self.pos(),
    {
        self.pos
    }

    /// Whether every token has been read.
    pub fn at_end(&self) -> (r: bool)
        requires
            self.wf(),
        ensures
            r == (self.pos() == self.tokens().len()),
    {
        self.pos == self.tokens.len()
    }

    pub fn checkpoint(&self) -> (r: usize)
        ensures
            r == self.pos(),
    {
        self.pos
    }

    /// Rewinds (or advances) the cursor to a saved position.
    pub fn restore(&mut self, checkpoint: usize)
        requires
            checkpoint <= old(self).tokens().len(),
        ensures
            final(self).wf(),
            final(self).tokens() == old(self).tokens(),
            final(self).pos() == checkpoint,
    {
        self.pos = checkpoint;
    }

    /// The next token, without consuming it.
    pub fn peek(&self) -> (r: Result<&TokenAt, ParserError>)
        requires
            self.wf(),
        ensures
            match r {
                Ok(t) => self.pos() < self.tokens().len() && *t == self.tokens()[self.pos()],
                Err(e) => self.pos() == self.tokens().len() && e == (ParserError::UnexpectedEnd {
                    pos: self.pos() as usize,
                }),
            },
    {
        if self.pos < self.tokens.len() {
            Ok(&self.tokens[self.pos])
        } else {
            Err(ParserError::UnexpectedEnd { pos: self.pos })
        }
    }

    /// The token `n` places after the next one, without consuming anything.
    pub fn peekn(&self, n: usize) -> (r: Option<&Token>)
        requires
            self.wf(),
        ensures
            match r {
                Some(t) => self.pos() + n < self.tokens().len() && *t == self.tokens()[self.pos()
                    + n].token,
                None => self.pos() + n >= self.tokens().len(),
            },
    {
        if n < self.tokens.len() - self.pos {
            Some(&self.tokens[self.pos + n].token)
        } else {
            None
        }
    }

    /// Consumes the next token.
    pub fn advance(&mut self)
        requires
            old(self).wf(),
            old(self).pos() < old(self).tokens().len(),
        ensures
            final(self).wf(),
            final(self).tokens() == old(self).tokens(),
            final(self).pos() == old(self).pos() + 1,
    {
        if self.pos < self.tokens.len() {
            self.pos = self.pos + 1;
        }
    }

    /// Consumes the next token if it is the punctuation `want` and returns its
    /// span; otherwise consumes nothing and reports what was expected.
    pub fn assert_next(&mut self, want: Punct, expected: Expected) -> (r: Result<Span, ParserError>)
        requires
            old(self).wf(),
        ensures
            final(self).wf(),
            final(self).tokens() == old(self).tokens(),
            match r {
                Ok(span) => {
                    &&& old(self).pos() < old(self).tokens().len()
                    &&& is_punct(old(self).tokens()[old(self).pos()].token, want)
                    &&& span == old(self).tokens()[old(self).pos()].span
                    &&& final(self).pos() == old(self).pos() + 1
                },
                Err(e) => {
                    &&& final(self).pos() == old(self).pos()
                    &&& if old(self).pos() < old(self).tokens().len() {
                        &&& !is_punct(old(self).tokens()[old(self).pos()].token, want)
                        &&& e == (ParserError::UnexpectedToken { pos: old(self).pos() as usize, expected })
                    } else {
                        e == (ParserError::UnexpectedEnd { pos: old(self).pos() as usize })
                    }
                },
            },
    {
        let t = self.peek()?;
        let found = match want {
            Punct::LParen => matches!(t.token, Token::LParen),
            Punct::RParen => matches!(t.token, Token::RParen),
            Punct::Comma => matches!(t.token, Token::Comma),
        };
        if !found {
            return Err(ParserError::UnexpectedToken { pos: self.pos, expected });
        }
        let span = t.span;
        self.advance();
        Ok(span)
    }
}

} // verus!
