//! The tokenizer: from the bytes of a map to its tokens, each with the line
//! it was met on.

use crate::error::{LineView, TextParse, TextParseView};
use crate::text::{latin1, nul_free, push_decimal, Text};
use vstd::prelude::*;

verus! {

pub const QUOTE: u8 = 0x22;

pub const SLASH: u8 = 0x2f;

pub const LINE_FEED: u8 = 0x0a;

pub const CARRIAGE_RETURN: u8 = 0x0d;

/// ASCII whitespace: space, tab, line feed, form feed, carriage return.
pub open spec fn is_space(byte: u8) -> bool {
    byte == 0x20 || byte == 0x09 || byte == 0x0a || byte == 0x0c || byte == 0x0d
}

/// A span in quotes: at least the two quotes, one at each end.
pub open spec fn is_quoted(text: Seq<u8>) -> bool {
    text.len() >= 2 && text[0] == QUOTE && text[text.len() - 1] == QUOTE
}

/// The message for a NUL byte in the input.
pub open spec fn null_byte_message() -> Seq<char> {
    "Null byte"@
}

/// The message for an input that ends inside a quoted token.
pub open spec fn missing_quote_message() -> Seq<char> {
    "Missing closing quote"@
}

/// One token of a map's text.
#[derive(PartialEq, Eq, Debug, Clone)]
pub struct Token {
    pub text: Text,
    /// The line on which the token ended, counted from 1.
    pub line_number: u64,
}

/// What a `Token` holds, as contracts see it.
pub struct TokenView {
    pub text: Seq<u8>,
    pub line_number: u64,
}

impl TokenView {
    /// What holds of every token that the tokenizer gives out: it has a
    /// byte, none of its bytes is NUL, and where it begins with a quote it
    /// is a quoted span.
    pub open spec fn well_formed(self) -> bool {
        &&& self.text.len() >= 1
        &&& nul_free(self.text)
        &&& self.text[0] == QUOTE ==> is_quoted(self.text)
    }
}

impl View for Token {
    type V = TokenView;

    open spec fn view(&self) -> TokenView {
        TokenView { text: self.text@, line_number: self.line_number }
    }
}

impl DeepView for Token {
    type V = TokenView;

    open spec fn deep_view(&self) -> TokenView {
        self@
    }
}

impl Token {
    /// Is the token this one byte?
    pub fn match_byte(&self, byte: u8) -> (r: bool)
        ensures
            r == (self@.text.len() == 1 && self@.text[0] == byte),
            r == (self@.text == seq![byte]),
    {
        proof {
            if self@.text.len() == 1 && self@.text[0] == byte {
                assert(self@.text =~= seq![byte]);
            }
        }
        self.text.len() == 1 && self.text.byte(0) == byte
    }

    /// Is the token a span in quotes?
    pub fn match_quoted(&self) -> (r: bool)
        ensures
            r == is_quoted(self@.text),
    {
        self.text.len() >= 2 && self.text.byte(0) == QUOTE && self.text.byte(self.text.len() - 1)
            == QUOTE
    }

    /// The token's text as a string, each byte taken as the character of
    /// that number.
    pub fn text_as_string(&self) -> (s: String)
        ensures
            s@ == latin1(self@.text),
    {
        self.text.to_string()
    }

    /// The token as it is shown: its text, then its line.
    pub fn to_string(&self) -> (s: String)
        ensures
            s@ == latin1(self@.text) + ": line "@ + crate::text::decimal(
                self@.line_number as nat,
            ),
    {
        let mut s = self.text.to_string();
        s.append(": line ");
        push_decimal(&mut s, self.line_number);
        s
    }
}

/// What the tokenizer is in the middle of.
#[derive(Debug, Copy, Clone, PartialEq, Eq, Structural)]
pub enum LexerState {
    /// Between tokens.
    Default,
    /// Behind `//`, up to the end of the line.
    Comment,
    /// Behind one `/` that began no token yet.
    MaybeComment,
    /// In a token that whitespace will end.
    Unquoted,
    /// In a token that a quote will end.
    Quoted,
}

/// The tokens that are still to come, and the error that ends them where
/// there is one.
pub struct TokenStream {
    pub tokens: Seq<TokenView>,
    pub end: Option<LineView>,
}

impl TokenStream {
    pub open spec fn empty() -> TokenStream {
        TokenStream { tokens: Seq::empty(), end: None }
    }

    /// The stream of the one error `e`.
    pub open spec fn failed(e: LineView) -> TokenStream {
        TokenStream { tokens: Seq::empty(), end: Some(e) }
    }

    /// The stream that gives `token` and then goes on as `self`.
    pub open spec fn after(self, token: Option<TokenView>) -> TokenStream {
        match token {
            Some(t) => TokenStream { tokens: seq![t] + self.tokens, end: self.end },
            None => self,
        }
    }

    /// What the stream gives next: a token, the error, or nothing.
    pub open spec fn head(self) -> Option<Result<TokenView, LineView>> {
        if self.tokens.len() > 0 {
            Some(Ok(self.tokens[0]))
        } else {
            match self.end {
                Some(e) => Some(Err(e)),
                None => None,
            }
        }
    }

    /// The stream behind its head. Nothing follows an error.
    pub open spec fn tail(self) -> TokenStream {
        if self.tokens.len() > 0 {
            TokenStream { tokens: self.tokens.skip(1), end: self.end }
        } else {
            TokenStream::empty()
        }
    }

    /// Every token of the stream is well formed, and the error is one of
    /// the tokenizer's.
    pub open spec fn well_formed(self) -> bool {
        forall|i: int| 0 <= i < self.tokens.len() ==> (#[trigger] self.tokens[i]).well_formed()
    }
}

/// The tokenizer between two bytes.
pub struct Scanner {
    pub state: LexerState,
    /// The bytes of the token that is being read.
    pub text: Seq<u8>,
    /// The line of the next byte, counted from 1.
    pub line_number: u64,
    /// Whether the byte before was a carriage return.
    pub after_cr: bool,
}

impl Scanner {
    /// The tokenizer before the first byte.
    pub open spec fn start() -> Scanner {
        Scanner {
            state: LexerState::Default,
            text: Seq::empty(),
            line_number: 1,
            after_cr: false,
        }
    }

    /// The token that is being read, as it leaves.
    pub open spec fn token(self) -> TokenView {
        TokenView { text: self.text, line_number: self.line_number }
    }

    /// The tokenizer in `state` with `text` read.
    pub open spec fn in_state(self, state: LexerState, text: Seq<u8>) -> Scanner {
        Scanner { state, text, line_number: self.line_number, after_cr: self.after_cr }
    }

    /// Between tokens: whitespace is passed over, a quote opens a quoted
    /// token, a slash may open a comment, any other byte opens a token.
    pub open spec fn lex_default(self, byte: u8) -> (Scanner, Option<TokenView>) {
        if is_space(byte) {
            (self, None)
        } else if byte == QUOTE {
            (self.in_state(LexerState::Quoted, seq![byte]), None)
        } else if byte == SLASH {
            (self.in_state(LexerState::MaybeComment, self.text), None)
        } else {
            (self.in_state(LexerState::Unquoted, seq![byte]), None)
        }
    }

    /// In a comment: the end of the line ends it.
    pub open spec fn lex_comment(self, byte: u8) -> (Scanner, Option<TokenView>) {
        if byte == CARRIAGE_RETURN || byte == LINE_FEED {
            (self.in_state(LexerState::Default, self.text), None)
        } else {
            (self, None)
        }
    }

    /// Behind one slash: a second one opens a comment, any other byte goes
    /// with the slash into a token.
    pub open spec fn lex_maybe_comment(self, byte: u8) -> (Scanner, Option<TokenView>) {
        if byte == SLASH {
            (self.in_state(LexerState::Comment, self.text), None)
        } else {
            (self.in_state(LexerState::Unquoted, seq![SLASH, byte]), None)
        }
    }

    /// In a quoted token: every byte is taken, and a quote ends the token.
    pub open spec fn lex_quoted(self, byte: u8) -> (Scanner, Option<TokenView>) {
        let read = self.in_state(LexerState::Quoted, self.text.push(byte));
        if byte == QUOTE {
            (self.in_state(LexerState::Default, Seq::empty()), Some(read.token()))
        } else {
            (read, None)
        }
    }

    /// In an unquoted token: whitespace ends it, every other byte is taken.
    pub open spec fn lex_unquoted(self, byte: u8) -> (Scanner, Option<TokenView>) {
        if is_space(byte) {
            (self.in_state(LexerState::Default, Seq::empty()), Some(self.token()))
        } else {
            (self.in_state(LexerState::Unquoted, self.text.push(byte)), None)
        }
    }

    /// The line of the byte behind `byte`: one more after a line feed, and
    /// after any byte that follows a carriage return. The count stops at
    /// the largest number.
    pub open spec fn line_after(self, byte: u8) -> u64 {
        if (byte == LINE_FEED || self.after_cr) && self.line_number < u64::MAX {
            (self.line_number + 1) as u64
        } else {
            self.line_number
        }
    }

    /// The tokenizer behind `byte`, which is not NUL, and the token that
    /// the byte ended.
    pub open spec fn step(self, byte: u8) -> (Scanner, Option<TokenView>) {
        let (moved, token) = match self.state {
            LexerState::Default => self.lex_default(byte),
            LexerState::Comment => self.lex_comment(byte),
            LexerState::MaybeComment => self.lex_maybe_comment(byte),
            LexerState::Unquoted => self.lex_unquoted(byte),
            LexerState::Quoted => self.lex_quoted(byte),
        };
        (
            Scanner {
                state: moved.state,
                text: moved.text,
                line_number: self.line_after(byte),
                after_cr: byte == CARRIAGE_RETURN,
            },
            token,
        )
    }

    /// What the end of the input makes of the token that is being read: an
    /// unquoted one leaves as it is, a quoted one is an error.
    pub open spec fn finish(self) -> TokenStream {
        match self.state {
            LexerState::Unquoted => TokenStream::empty().after(Some(self.token())),
            LexerState::Quoted => TokenStream::failed(
                LineView { message: missing_quote_message(), line_number: Some(self.line_number) },
            ),
            _ => TokenStream::empty(),
        }
    }

    /// A token that is being read has a byte, and begins with a quote just
    /// when it is a quoted one.
    pub open spec fn well_formed(self) -> bool {
        &&& nul_free(self.text)
        &&& self.state == LexerState::Unquoted ==> self.text.len() >= 1 && self.text[0] != QUOTE
        &&& self.state == LexerState::Quoted ==> self.text.len() >= 1 && self.text[0] == QUOTE
    }
}

/// The tokens that the tokenizer `s` makes of `input`, up to the end of the
/// input or to the first error: a NUL byte, or the end inside a quoted
/// token.
pub open spec fn scan(s: Scanner, input: Seq<u8>) -> TokenStream
    decreases input.len(),
{
    if input.len() == 0 {
        s.finish()
    } else if input[0] == 0 {
        TokenStream::failed(
            LineView { message: null_byte_message(), line_number: Some(s.line_number) },
        )
    } else {
        let (next, token) = s.step(input[0]);
        scan(next, input.skip(1)).after(token)
    }
}

/// The tokens of `input`.
pub open spec fn lex_spec(input: Seq<u8>) -> TokenStream {
    scan(Scanner::start(), input)
}

/// A step keeps the tokenizer well formed, and the token it gives is well
/// formed.
pub proof fn lemma_step_well_formed(s: Scanner, byte: u8)
    requires
        s.well_formed(),
        byte != 0,
    ensures
        s.step(byte).0.well_formed(),
        s.step(byte).1 matches Some(t) ==> t.well_formed(),
{
}

/// Every token that the tokenizer gives out is well formed.
pub proof fn lemma_scan_well_formed(s: Scanner, input: Seq<u8>)
    requires
        s.well_formed(),
    ensures
        scan(s, input).well_formed(),
    decreases input.len(),
{
    if input.len() > 0 && input[0] != 0 {
        lemma_step_well_formed(s, input[0]);
        let (next, token) = s.step(input[0]);
        lemma_scan_well_formed(next, input.skip(1));
    }
}

/// One slash opens no comment: between tokens it leaves the tokenizer
/// waiting, and only a second slash right behind it opens the comment.
/// Any other byte goes with the slash into a token. No other way leads
/// into a comment.
pub proof fn lemma_comment_takes_two_slashes(s: Scanner, byte: u8)
    ensures
        s.state == LexerState::Default ==> s.step(SLASH).0.state == LexerState::MaybeComment
            && s.step(SLASH).1 is None,
        s.state == LexerState::MaybeComment && byte != SLASH ==> s.step(byte).0.state
            == LexerState::Unquoted && s.step(byte).0.text == seq![SLASH, byte],
        s.state == LexerState::MaybeComment && byte == SLASH ==> s.step(byte).0.state
            == LexerState::Comment,
        s.step(byte).0.state == LexerState::Comment ==> s.state == LexerState::Comment || (s.state
            == LexerState::MaybeComment && byte == SLASH),
{
}

/// Every token of an input is well formed.
pub proof fn lemma_lex_well_formed(input: Seq<u8>)
    ensures
        lex_spec(input).well_formed(),
{
    lemma_scan_well_formed(Scanner::start(), input);
}

/// Is the byte ASCII whitespace?
pub fn is_space_byte(byte: u8) -> (r: bool)
    ensures
        r == is_space(byte),
{
    byte == 0x20 || byte == 0x09 || byte == 0x0a || byte == 0x0c || byte == 0x0d
}

/// What a step hands out: the token that `token` says, if it says one.
pub open spec fn gives(r: Option<Token>, token: Option<TokenView>) -> bool {
    match r {
        Some(t) => token == Some(t@),
        None => token is None,
    }
}

/// What `next` hands out, held against the head of the stream.
pub open spec fn hands_out(
    r: Option<Result<Token, TextParse>>,
    head: Option<Result<TokenView, LineView>>,
) -> bool {
    match r {
        Some(Ok(t)) => head == Some(Ok::<TokenView, LineView>(t@)),
        Some(Err(e)) => exists|line: LineView|
            head == Some(Err::<TokenView, LineView>(line)) && e@ == TextParseView::Lexer(line),
        None => head is None,
    }
}

/// The tokenizer over bytes in memory. It gives the tokens one by one, and
/// nothing more once it has given an error.
pub struct TokenIterator<'a> {
    input: &'a [u8],
    pos: usize,
    state: LexerState,
    text: Vec<u8>,
    line_number: u64,
    after_cr: bool,
    done: bool,
}

impl<'a> View for TokenIterator<'a> {
    type V = TokenStream;

    /// What is still to come.
    closed spec fn view(&self) -> TokenStream {
        if self.done {
            TokenStream::empty()
        } else {
            scan(self.scanner(), self.input@.skip(self.pos as int))
        }
    }
}

impl<'a> TokenIterator<'a> {
    #[verifier::type_invariant]
    spec fn inv(self) -> bool {
        &&& self.pos <= self.input@.len()
        &&& self.line_number >= 1
        &&& self.scanner().well_formed()
    }

    spec fn scanner(&self) -> Scanner {
        Scanner {
            state: self.state,
            text: self.text@,
            line_number: self.line_number,
            after_cr: self.after_cr,
        }
    }

    /// Whether `self` reads the same input at the same place as `other`.
    spec fn same_place(&self, other: &Self) -> bool {
        &&& self.input == other.input
        &&& self.pos == other.pos
        &&& self.done == other.done
        &&& self.line_number == other.line_number
        &&& self.after_cr == other.after_cr
    }

    /// The tokenizer at the start of `input`.
    pub fn new(input: &'a [u8]) -> (r: Self)
        ensures
            r@ == lex_spec(input@),
            r@.well_formed(),
    {
        proof {
            assert(input@.skip(0) == input@);
            lemma_lex_well_formed(input@);
        }
        TokenIterator {
            input,
            pos: 0,
            state: LexerState::Default,
            text: Vec::new(),
            line_number: 1,
            after_cr: false,
            done: false,
        }
    }

    /// Every token that is still to come is well formed.
    proof fn lemma_well_formed(&self)
        requires
            self.inv(),
        ensures
            self@.well_formed(),
    {
        lemma_scan_well_formed(self.scanner(), self.input@.skip(self.pos as int));
    }

    /// The token that is being read leaves, and the tokenizer is between
    /// tokens again.
    fn emit(&mut self) -> (token: Token)
        ensures
            token@ == old(self).scanner().token(),
            final(self).same_place(old(self)),
            final(self).scanner() == old(self).scanner().in_state(
                LexerState::Default,
                Seq::empty(),
            ),
    {
        proof {
            use_type_invariant(&*self);
        }
        self.state = LexerState::Default;
        let mut text: Vec<u8> = Vec::new();
        std::mem::swap(&mut self.text, &mut text);
        Token { text: Text::from_nul_free(text), line_number: self.line_number }
    }

    /// A token begins with the byte `first`, and goes on in `state`.
    fn begin(&mut self, state: LexerState, first: u8)
        requires
            first != 0,
            state == LexerState::Unquoted || state == LexerState::Quoted,
            state == LexerState::Quoted <==> first == QUOTE,
            old(self).state != LexerState::Unquoted,
            old(self).state != LexerState::Quoted,
        ensures
            final(self).same_place(old(self)),
            final(self).scanner() == old(self).scanner().in_state(state, seq![first]),
    {
        proof {
            use_type_invariant(&*self);
        }
        let mut text: Vec<u8> = Vec::with_capacity(TEXT_CAPACITY);
        text.push(first);
        self.text = text;
        self.state = state;
        proof {
            assert(self.text@ =~= seq![first]);
        }
    }

    /// The token that is being read takes `byte`.
    fn take(&mut self, byte: u8)
        requires
            byte != 0,
            old(self).state == LexerState::Unquoted || old(self).state == LexerState::Quoted,
        ensures
            final(self).same_place(old(self)),
            final(self).scanner() == old(self).scanner().in_state(
                old(self).state,
                old(self).text@.push(byte),
            ),
    {
        proof {
            use_type_invariant(&*self);
        }
        let state = self.state;
        self.state = LexerState::Default;
        let mut text: Vec<u8> = Vec::new();
        std::mem::swap(&mut self.text, &mut text);
        text.push(byte);
        self.text = text;
        self.state = state;
    }

    fn byte_read(&mut self, byte: u8) -> (r: Result<Option<Token>, TextParse>)
        ensures
            final(self).input == old(self).input,
            final(self).pos == old(self).pos,
            final(self).done == old(self).done,
            match r {
                Ok(token) => {
                    &&& byte != 0
                    &&& final(self).scanner() == old(self).scanner().step(byte).0
                    &&& gives(token, old(self).scanner().step(byte).1)
                },
                Err(e) => {
                    &&& byte == 0
                    &&& final(self).scanner() == old(self).scanner()
                    &&& e@ == TextParseView::lexer(null_byte_message(), old(self).line_number)
                },
            },
    {
        proof {
            use_type_invariant(&*self);
        }
        if byte == 0 {
            return Err(TextParse::from_lexer(String::from_str("Null byte"), self.line_number));
        }
        let token = match self.state {
            LexerState::Default => lex_default(self, byte),
            LexerState::Comment => lex_comment(self, byte),
            LexerState::MaybeComment => lex_maybe_comment(self, byte),
            LexerState::Unquoted => lex_unquoted(self, byte),
            LexerState::Quoted => lex_quoted(self, byte),
        };
        if byte == LINE_FEED || self.after_cr {
            self.line_number = self.line_number.saturating_add(1);
        }
        self.after_cr = byte == CARRIAGE_RETURN;
        Ok(token)
    }

    fn eof_read(&mut self) -> (r: Result<Option<Token>, TextParse>)
        ensures
            final(self).input == old(self).input,
            final(self).pos == old(self).pos,
            final(self).done == old(self).done,
            match r {
                Ok(Some(t)) => old(self).scanner().finish() == TokenStream::empty().after(
                    Some(t@),
                ),
                Ok(None) => old(self).scanner().finish() == TokenStream::empty(),
                Err(e) => exists|line: LineView|
                    old(self).scanner().finish() == TokenStream::failed(line) && e@
                        == TextParseView::Lexer(line),
            },
    {
        match self.state {
            LexerState::Unquoted => {
                let token = self.emit();
                Ok(Some(token))
            },
            LexerState::Quoted => {
                let ghost line = LineView {
                    message: missing_quote_message(),
                    line_number: Some(self.line_number),
                };
                let e = TextParse::from_lexer(
                    String::from_str("Missing closing quote"),
                    self.line_number,
                );
                assert(old(self).scanner().finish() == TokenStream::failed(line));
                Err(e)
            },
            _ => Ok(None),
        }
    }

    /// The next token, or the error that ends the tokens, or nothing at
    /// the end.
    pub fn next(&mut self) -> (r: Option<Result<Token, TextParse>>)
        ensures
            hands_out(r, old(self)@.head()),
            final(self)@ == old(self)@.tail(),
            r matches Some(Ok(t)) ==> t@.well_formed(),
            final(self)@.well_formed(),
    {
        proof {
            use_type_invariant(&*self);
            self.lemma_well_formed();
        }
        if self.done {
            return None;
        }
        loop
            invariant
                !self.done,
                self.pos <= self.input@.len(),
                self.input == old(self).input,
                scan(self.scanner(), self.input@.skip(self.pos as int)) == old(self)@,
                old(self)@.well_formed(),
            decreases self.input@.len() - self.pos,
        {
            proof {
                use_type_invariant(&*self);
            }
            let ghost rest = self.input@.skip(self.pos as int);
            if self.pos < self.input.len() {
                let byte = self.input[self.pos];
                self.pos = self.pos + 1;
                proof {
                    assert(rest[0] == byte);
                    assert(rest.skip(1) == self.input@.skip(self.pos as int));
                }
                let r = self.byte_read(byte);
                proof {
                    use_type_invariant(&*self);
                }
                match r {
                    Err(e) => {
                        self.done = true;
                        assert(old(self)@.tokens.len() == 0);
                        return Some(Err(e));
                    },
                    Ok(Some(token)) => {
                        proof {
                            let stream = scan(self.scanner(), self.input@.skip(self.pos as int));
                            assert(old(self)@ == stream.after(Some(token@)));
                            assert(old(self)@.tokens[0] == token@);
                            assert(old(self)@.tail().tokens == stream.tokens);
                        }
                        return Some(Ok(token));
                    },
                    Ok(None) => {},
                }
            } else {
                proof {
                    assert(rest.len() == 0);
                }
                let r = self.eof_read();
                proof {
                    use_type_invariant(&*self);
                }
                self.done = true;
                match r {
                    Ok(Some(token)) => {
                        proof {
                            assert(old(self)@.tokens[0] == token@);
                            assert(old(self)@.tail().tokens =~= Seq::<TokenView>::empty());
                        }
                        return Some(Ok(token));
                    },
                    Ok(None) => {
                        return None;
                    },
                    Err(e) => {
                        return Some(Err(e));
                    },
                }
            }
        }
    }
}

/// The room that a token's text is given at first.
pub const TEXT_CAPACITY: usize = 32;

fn lex_default(iterator: &mut TokenIterator, byte: u8) -> (r: Option<Token>)
    requires
        byte != 0,
        old(iterator).state == LexerState::Default,
    ensures
        final(iterator).same_place(old(iterator)),
        final(iterator).scanner() == old(iterator).scanner().lex_default(byte).0,
        gives(r, old(iterator).scanner().lex_default(byte).1),
{
    if !is_space_byte(byte) {
        if byte == QUOTE {
            iterator.begin(LexerState::Quoted, byte);
        } else if byte == SLASH {
            proof {
                use_type_invariant(&*iterator);
            }
            iterator.state = LexerState::MaybeComment;
        } else {
            iterator.begin(LexerState::Unquoted, byte);
        }
    }
    None
}

fn lex_comment(iterator: &mut TokenIterator, byte: u8) -> (r: Option<Token>)
    requires
        byte != 0,
        old(iterator).state == LexerState::Comment,
    ensures
        final(iterator).same_place(old(iterator)),
        final(iterator).scanner() == old(iterator).scanner().lex_comment(byte).0,
        gives(r, old(iterator).scanner().lex_comment(byte).1),
{
    if byte == CARRIAGE_RETURN || byte == LINE_FEED {
        proof {
            use_type_invariant(&*iterator);
        }
        iterator.state = LexerState::Default;
    }
    None
}

fn lex_maybe_comment(iterator: &mut TokenIterator, byte: u8) -> (r: Option<Token>)
    requires
        byte != 0,
        old(iterator).state == LexerState::MaybeComment,
    ensures
        final(iterator).same_place(old(iterator)),
        final(iterator).scanner() == old(iterator).scanner().lex_maybe_comment(byte).0,
        gives(r, old(iterator).scanner().lex_maybe_comment(byte).1),
{
    if byte == SLASH {
        proof {
            use_type_invariant(&*iterator);
        }
        iterator.state = LexerState::Comment;
    } else {
        iterator.begin(LexerState::Unquoted, SLASH);
        iterator.take(byte);
        proof {
            assert(iterator.text@ =~= seq![SLASH, byte]);
        }
    }
    None
}

fn lex_quoted(iterator: &mut TokenIterator, byte: u8) -> (r: Option<Token>)
    requires
        byte != 0,
        old(iterator).state == LexerState::Quoted,
    ensures
        final(iterator).same_place(old(iterator)),
        final(iterator).scanner() == old(iterator).scanner().lex_quoted(byte).0,
        gives(r, old(iterator).scanner().lex_quoted(byte).1),
{
    iterator.take(byte);
    if byte == QUOTE {
        Some(iterator.emit())
    } else {
        None
    }
}

fn lex_unquoted(iterator: &mut TokenIterator, byte: u8) -> (r: Option<Token>)
    requires
        byte != 0,
        old(iterator).state == LexerState::Unquoted,
    ensures
        final(iterator).same_place(old(iterator)),
        final(iterator).scanner() == old(iterator).scanner().lex_unquoted(byte).0,
        gives(r, old(iterator).scanner().lex_unquoted(byte).1),
{
    if is_space_byte(byte) {
        Some(iterator.emit())
    } else {
        iterator.take(byte);
        None
    }
}

/// All the tokens of `input`, or the error that ends them.
pub fn lex(input: &[u8]) -> (r: Result<Vec<Token>, TextParse>)
    ensures
        match r {
            Ok(tokens) => lex_spec(input@).end is None && tokens.deep_view() == lex_spec(
                input@,
            ).tokens,
            Err(e) => lex_spec(input@).end matches Some(line) && e@ == TextParseView::Lexer(line),
        },
{
    let mut iterator = TokenIterator::new(input);
    let mut tokens: Vec<Token> = Vec::new();
    loop
        invariant
            iterator@.end == lex_spec(input@).end,
            tokens.deep_view() + iterator@.tokens == lex_spec(input@).tokens,
        decreases iterator@.tokens.len(), if iterator@.end is Some { 1int } else { 0int },
    {
        let ghost before = iterator@;
        let ghost seen = tokens.deep_view();
        match iterator.next() {
            Some(Ok(token)) => {
                tokens.push(token);
                proof {
                    assert(tokens.deep_view() =~= seen.push(token@));
                    assert(seen.push(token@) + before.tokens.skip(1) =~= seen + before.tokens);
                }
            },
            Some(Err(e)) => {
                return Err(e);
            },
            None => {
                proof {
                    assert(tokens.deep_view() + iterator@.tokens =~= tokens.deep_view());
                }
                return Ok(tokens);
            },
        }
    }
}

} // verus!
