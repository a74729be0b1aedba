//! The tokenizer: a deterministic finite automaton over a character sequence
//! with one character of pushback. Each call of [`HtmlLexer::next`] runs the
//! automaton until it emits one token or detects a fatal lexical error.
//!
//! The behaviour of `next` is pinned down completely by the recursive
//! specification function [`next_spec`], which transcribes the automaton's
//! transition table over the mathematical model [`LexerModel`].

use vstd::prelude::*;
use crate::ast::AttrModel;
use crate::strings::{
    is_alphabetic,
    is_ascii_uppercase,
    is_whitespace,
    push_char,
    spec_is_alphabetic,
    spec_is_ascii_uppercase,
    spec_is_whitespace,
    spec_to_lowercase,
    to_ascii_lowercase,
};
use crate::token::{attrs_model, Attribute, Token, TokenView};

verus! {

/// The tokenizer's states.
#[derive(Debug, Clone, Copy)]
pub enum State {
    Data,
    PlainText,
    TagOpen,
    TagName,
    EndTagOpen,
    BeforeAttributeName,
    AttributeName,
    AfterAttributeName,
    BeforeAttributeValue,
    AttributeValueDoubleQuoted,
    AttributeValueSingleQuoted,
    AttributeValueUnquoted,
    AfterAttributeValueQuoted,
    SelfClosingStartTag,
}

/// The class of a fatal lexical error.
#[derive(Debug, Clone, Copy, PartialEq, Eq, Structural)]
pub enum LexErrorKind {
    UnsupportedMarkupDeclaration,
    UnsupportedProcessingInstruction,
    UnsupportedCharacterReference,
    InvalidFirstCharacterOfTagName,
    MissingEndTagName,
    EofBeforeTagName,
    EofInTag,
    UnexpectedEqualsSignBeforeAttributeName,
    UnexpectedCharacterInAttributeName,
    MissingAttributeValue,
    UnexpectedCharacterInUnquotedAttributeValue,
    UnexpectedSolidusInTag,
    MissingWhitespaceBetweenAttributes,
}

/// A fatal lexical error: its class and the character offset at which it was
/// detected.
#[derive(Debug, Clone, Copy, PartialEq, Eq, Structural)]
pub struct LexError {
    pub kind: LexErrorKind,
    pub position: usize,
}

/// Mathematical model of the tokenizer: the input, the cursor, the pushback
/// flag, the automaton state, and the tag token under construction.
pub struct LexerModel {
    pub chars: Seq<char>,
    pub index: int,
    pub current: Option<char>,
    pub state: State,
    pub reconsume: bool,
    pub tag_name: Seq<char>,
    pub tag_self_closing: bool,
    pub tag_attributes: Seq<AttrModel>,
    pub tag_is_end: bool,
}

impl LexerModel {
    /// The cursor never runs past the end of the input.
    pub open spec fn wf(self) -> bool {
        0 <= self.index <= self.chars.len()
    }
}

/// The model of a fresh tokenizer over the given input.
pub open spec fn init_lexer(chars: Seq<char>) -> LexerModel {
    LexerModel {
        chars,
        index: 0,
        current: None,
        state: State::Data,
        reconsume: false,
        tag_name: Seq::empty(),
        tag_self_closing: false,
        tag_attributes: Seq::empty(),
        tag_is_end: false,
    }
}

/// One character is consumed: the pending pushback character if any, the next
/// input character otherwise, or the end-of-input sentinel.
pub open spec fn consumed(m: LexerModel) -> (LexerModel, Option<char>) {
    if m.reconsume {
        (LexerModel { reconsume: false, ..m }, m.current)
    } else if m.index < m.chars.len() {
        let c = m.chars[m.index];
        (LexerModel { index: m.index + 1, current: Some(c), ..m }, Some(c))
    } else {
        (LexerModel { current: None, ..m }, None)
    }
}

pub open spec fn switched_to(m: LexerModel, s: State) -> LexerModel {
    LexerModel { state: s, ..m }
}

pub open spec fn reconsumed_in(m: LexerModel, s: State) -> LexerModel {
    LexerModel { state: s, reconsume: true, ..m }
}

/// A fresh, empty tag token replaces the one under construction.
pub open spec fn with_new_tag(m: LexerModel, is_end: bool) -> LexerModel {
    LexerModel {
        tag_name: Seq::empty(),
        tag_self_closing: false,
        tag_attributes: Seq::empty(),
        tag_is_end: is_end,
        ..m
    }
}

pub open spec fn tag_name_pushed(m: LexerModel, c: char) -> LexerModel {
    LexerModel { tag_name: m.tag_name.push(c), ..m }
}

/// An attribute is appended to the tag under construction.
pub open spec fn attr_pushed(m: LexerModel, a: AttrModel) -> LexerModel {
    LexerModel { tag_attributes: m.tag_attributes.push(a), ..m }
}

/// A character is appended to the name of the last attribute; without any
/// attribute the model is unchanged (the automaton never reaches that case).
pub open spec fn attr_name_pushed(m: LexerModel, c: char) -> LexerModel {
    if m.tag_attributes.len() == 0 {
        m
    } else {
        let i = m.tag_attributes.len() - 1;
        let a = m.tag_attributes[i as int];
        LexerModel {
            tag_attributes: m.tag_attributes.update(
                i as int,
                AttrModel { name: a.name.push(c), ..a },
            ),
            ..m
        }
    }
}

/// A character is appended to the value of the last attribute.
pub open spec fn attr_value_pushed(m: LexerModel, c: char) -> LexerModel {
    if m.tag_attributes.len() == 0 {
        m
    } else {
        let i = m.tag_attributes.len() - 1;
        let a = m.tag_attributes[i as int];
        LexerModel {
            tag_attributes: m.tag_attributes.update(
                i as int,
                AttrModel { value: a.value.push(c), ..a },
            ),
            ..m
        }
    }
}

pub open spec fn with_self_closing(m: LexerModel) -> LexerModel {
    LexerModel { tag_self_closing: true, ..m }
}

/// The tag token currently under construction.
pub open spec fn tag_token(m: LexerModel) -> TokenView {
    TokenView::Tag {
        tag_name: m.tag_name,
        self_closing: m.tag_self_closing,
        attributes: m.tag_attributes,
        is_end_tag: m.tag_is_end,
    }
}

/// After a tag token is emitted its buffers are handed off and left empty.
pub open spec fn tag_cleared(m: LexerModel) -> LexerModel {
    LexerModel { tag_name: Seq::empty(), tag_attributes: Seq::empty(), ..m }
}

/// The automaton halts with a fatal lexical error at the current offset.
pub open spec fn lex_err(m: LexerModel, kind: LexErrorKind) -> (
    LexerModel,
    Result<TokenView, LexError>,
) {
    (m, Err(LexError { kind, position: m.index as usize }))
}

/// The emitted tag: the automaton returns to `Data` with cleared buffers.
pub open spec fn emit_tag(m: LexerModel) -> (LexerModel, Result<TokenView, LexError>) {
    (switched_to(tag_cleared(m), State::Data), Ok(tag_token(m)))
}

/// Termination rank for pushback chains: a state entered by `reconsume` can
/// reconsume the same character into at most finitely many further states.
pub open spec fn rank(m: LexerModel) -> int {
    if !m.reconsume {
        0
    } else {
        match m.state {
            State::TagOpen => 2,
            State::EndTagOpen => 2,
            State::BeforeAttributeName => 3,
            State::AttributeName => 2,
            State::BeforeAttributeValue => 2,
            State::AfterAttributeName => match m.current {
                Some(c) => if spec_is_whitespace(c) || c == '/' || c == '>' {
                    1
                } else {
                    3
                },
                None => 1,
            },
            _ => 1,
        }
    }
}

/// What one call of `next` does: the automaton consumes characters until it
/// emits a token or halts with a lexical error. The result is the model after
/// the call together with the emitted token or the error.
pub open spec fn next_spec(m: LexerModel) -> (LexerModel, Result<TokenView, LexError>)
    decreases m.chars.len() - m.index, rank(m),
        when m.wf()
{
    let (m1, oc) = consumed(m);
    match m.state {
        State::Data => match oc {
            None => (m1, Ok(TokenView::Eof)),
            Some(c) => if c == '<' {
                next_spec(switched_to(m1, State::TagOpen))
            } else {
                (m1, Ok(TokenView::Character(c)))
            },
        },
        State::PlainText => match oc {
            None => (m1, Ok(TokenView::Eof)),
            Some(c) => (m1, Ok(TokenView::Character(c))),
        },
        State::TagOpen => match oc {
            None => lex_err(m1, LexErrorKind::EofBeforeTagName),
            Some(c) => if c == '!' {
                lex_err(m1, LexErrorKind::UnsupportedMarkupDeclaration)
            } else if c == '?' {
                lex_err(m1, LexErrorKind::UnsupportedProcessingInstruction)
            } else if c == '/' {
                next_spec(switched_to(m1, State::EndTagOpen))
            } else if spec_is_alphabetic(c) {
                next_spec(reconsumed_in(with_new_tag(m1, false), State::TagName))
            } else {
                lex_err(m1, LexErrorKind::InvalidFirstCharacterOfTagName)
            },
        },
        State::EndTagOpen => match oc {
            None => lex_err(m1, LexErrorKind::EofBeforeTagName),
            Some(c) => if spec_is_alphabetic(c) {
                next_spec(reconsumed_in(with_new_tag(m1, true), State::TagName))
            } else if c == '>' {
                lex_err(m1, LexErrorKind::MissingEndTagName)
            } else {
                lex_err(m1, LexErrorKind::InvalidFirstCharacterOfTagName)
            },
        },
        State::TagName => match oc {
            None => lex_err(m1, LexErrorKind::EofInTag),
            Some(c) => if spec_is_whitespace(c) {
                next_spec(switched_to(m1, State::BeforeAttributeName))
            } else if c == '/' {
                next_spec(switched_to(m1, State::SelfClosingStartTag))
            } else if c == '>' {
                emit_tag(m1)
            } else if spec_is_ascii_uppercase(c) {
                next_spec(tag_name_pushed(m1, spec_to_lowercase(c)))
            } else {
                next_spec(tag_name_pushed(m1, c))
            },
        },
        State::BeforeAttributeName => match oc {
            None => lex_err(m1, LexErrorKind::EofInTag),
            Some(c) => if spec_is_whitespace(c) {
                next_spec(m1)
            } else if c == '/' {
                next_spec(reconsumed_in(m1, State::AfterAttributeName))
            } else if c == '=' {
                lex_err(m1, LexErrorKind::UnexpectedEqualsSignBeforeAttributeName)
            } else {
                next_spec(
                    reconsumed_in(
                        attr_pushed(
                            m1,
                            AttrModel { name: Seq::empty(), value: Seq::empty() },
                        ),
                        State::AttributeName,
                    ),
                )
            },
        },
        State::AttributeName => match oc {
            None => lex_err(m1, LexErrorKind::EofInTag),
            Some(c) => if spec_is_whitespace(c) || c == '/' || c == '>' {
                next_spec(reconsumed_in(m1, State::AfterAttributeName))
            } else if c == '=' {
                next_spec(switched_to(m1, State::BeforeAttributeValue))
            } else if c == '"' || c == '\'' || c == '<' {
                lex_err(m1, LexErrorKind::UnexpectedCharacterInAttributeName)
            } else {
                next_spec(attr_name_pushed(m1, c))
            },
        },
        State::AfterAttributeName => match oc {
            None => lex_err(m1, LexErrorKind::EofInTag),
            Some(c) => if spec_is_whitespace(c) {
                next_spec(m1)
            } else if c == '/' {
                next_spec(switched_to(m1, State::SelfClosingStartTag))
            } else if c == '=' {
                next_spec(switched_to(m1, State::BeforeAttributeValue))
            } else if c == '>' {
                emit_tag(m1)
            } else {
                next_spec(
                    reconsumed_in(
                        attr_pushed(
                            m1,
                            AttrModel { name: Seq::empty(), value: Seq::empty() },
                        ),
                        State::AttributeName,
                    ),
                )
            },
        },
        State::BeforeAttributeValue => match oc {
            None => lex_err(m1, LexErrorKind::EofInTag),
            Some(c) => if spec_is_whitespace(c) {
                next_spec(m1)
            } else if c == '"' {
                next_spec(switched_to(m1, State::AttributeValueDoubleQuoted))
            } else if c == '\'' {
                next_spec(switched_to(m1, State::AttributeValueSingleQuoted))
            } else if c == '>' {
                lex_err(m1, LexErrorKind::MissingAttributeValue)
            } else {
                next_spec(reconsumed_in(m1, State::AttributeValueUnquoted))
            },
        },
        State::AttributeValueDoubleQuoted => match oc {
            None => lex_err(m1, LexErrorKind::EofInTag),
            Some(c) => if c == '"' {
                next_spec(switched_to(m1, State::AfterAttributeValueQuoted))
            } else if c == '&' {
                lex_err(m1, LexErrorKind::UnsupportedCharacterReference)
            } else {
                next_spec(attr_value_pushed(m1, c))
            },
        },
        State::AttributeValueSingleQuoted => match oc {
            None => lex_err(m1, LexErrorKind::EofInTag),
            Some(c) => if c == '\'' {
                next_spec(switched_to(m1, State::AfterAttributeValueQuoted))
            } else if c == '&' {
                lex_err(m1, LexErrorKind::UnsupportedCharacterReference)
            } else {
                next_spec(attr_value_pushed(m1, c))
            },
        },
        State::AttributeValueUnquoted => match oc {
            None => lex_err(m1, LexErrorKind::EofInTag),
            Some(c) => if spec_is_whitespace(c) {
                next_spec(switched_to(m1, State::BeforeAttributeName))
            } else if c == '>' {
                emit_tag(m1)
            } else if c == '"' || c == '\'' || c == '<' || c == '=' || c == '`' {
                lex_err(m1, LexErrorKind::UnexpectedCharacterInUnquotedAttributeValue)
            } else {
                next_spec(attr_value_pushed(m1, c))
            },
        },
        State::AfterAttributeValueQuoted => match oc {
            None => lex_err(m1, LexErrorKind::EofInTag),
            Some(c) => if spec_is_whitespace(c) {
                next_spec(switched_to(m1, State::BeforeAttributeName))
            } else if c == '/' {
                next_spec(switched_to(m1, State::SelfClosingStartTag))
            } else if c == '>' {
                emit_tag(m1)
            } else {
                lex_err(m1, LexErrorKind::MissingWhitespaceBetweenAttributes)
            },
        },
        State::SelfClosingStartTag => match oc {
            None => lex_err(m1, LexErrorKind::EofInTag),
            Some(c) => if c == '>' {
                emit_tag(with_self_closing(m1))
            } else {
                lex_err(m1, LexErrorKind::UnexpectedSolidusInTag)
            },
        },
    }
}

/// The view of an emitted token or error, for stating `next`'s contract.
pub open spec fn token_result_view(r: Result<Token, LexError>) -> Result<TokenView, LexError> {
    match r {
        Ok(t) => Ok(t@),
        Err(e) => Err(e),
    }
}

/// The tokenizer. `new` positions it at the start of the input; each `next`
/// returns one token, or the first fatal lexical error.
pub struct HtmlLexer {
    // The input characters
    chars: Vec<char>,
    // The cursor into `chars`
    index: usize,
    // The most recently consumed character
    current_char: Option<char>,
    // The current automaton state
    state: State,
    // Whether the current character is pending reconsumption
    reconsume_char: bool,
    // The tag token under construction
    tag_name: String,
    tag_self_closing: bool,
    tag_attributes: Vec<Attribute>,
    tag_is_end: bool,
}

impl View for HtmlLexer {
    type V = LexerModel;

    closed spec fn view(&self) -> LexerModel {
        LexerModel {
            chars: self.chars@,
            index: self.index as int,
            current: self.current_char,
            state: self.state,
            reconsume: self.reconsume_char,
            tag_name: self.tag_name@,
            tag_self_closing: self.tag_self_closing,
            tag_attributes: attrs_model(self.tag_attributes@),
            tag_is_end: self.tag_is_end,
        }
    }
}

impl HtmlLexer {
    pub fn new(source: &str) -> (l: HtmlLexer)
        ensures
            l@ == init_lexer(source@),
            l@.wf(),
    {
        let l = HtmlLexer {
            chars: crate::strings::chars_of(source),
            index: 0,
            current_char: None,
            state: State::Data,
            reconsume_char: false,
            tag_name: String::new(),
            tag_self_closing: false,
            tag_attributes: Vec::new(),
            tag_is_end: false,
        };
        proof {
            assert(attrs_model(Seq::<Attribute>::empty()) =~= Seq::<AttrModel>::empty());
        }
        l
    }

    fn consume_next(&mut self) -> (oc: Option<char>)
        requires
            old(self)@.wf(),
        ensures
            (final(self)@, oc) == consumed(old(self)@),
            final(self)@.wf(),
    {
        if self.reconsume_char {
            self.reconsume_char = false;
            self.current_char
        } else if self.index < self.chars.len() {
            let c = self.chars[self.index];
            self.index = self.index + 1;
            self.current_char = Some(c);
            Some(c)
        } else {
            self.current_char = None;
            None
        }
    }

    fn switch_to(&mut self, state: State)
        ensures
            final(self)@ == switched_to(old(self)@, state),
    {
        self.state = state;
    }

    fn reconsume_in(&mut self, state: State)
        ensures
            final(self)@ == reconsumed_in(old(self)@, state),
    {
        self.reconsume_char = true;
        self.switch_to(state);
    }

    fn start_new_tag(&mut self, is_end: bool)
        ensures
            final(self)@ == with_new_tag(old(self)@, is_end),
    {
        self.tag_name = String::new();
        self.tag_self_closing = false;
        self.tag_attributes = Vec::new();
        self.tag_is_end = is_end;
        proof {
            assert(attrs_model(Seq::<Attribute>::empty()) =~= Seq::<AttrModel>::empty());
        }
    }

    fn new_attribute(&mut self, attribute: Attribute)
        ensures
            final(self)@ == attr_pushed(old(self)@, attribute@),
    {
        let ghost before = self.tag_attributes@;
        self.tag_attributes.push(attribute);
        proof {
            assert(attrs_model(self.tag_attributes@) =~= attrs_model(before).push(attribute@));
        }
    }

    fn append_character_to_tag_name(&mut self, ch: char)
        ensures
            final(self)@ == tag_name_pushed(old(self)@, ch),
    {
        push_char(&mut self.tag_name, ch);
    }

    fn append_character_to_attribute_name(&mut self, ch: char)
        ensures
            final(self)@ == attr_name_pushed(old(self)@, ch),
    {
        let ghost before = self.tag_attributes@;
        if let Some(mut a) = self.tag_attributes.pop() {
            push_char(&mut a.name, ch);
            self.tag_attributes.push(a);
            proof {
                let i = before.len() - 1;
                let av = before[i]@;
                assert(self.tag_attributes@ =~= before.update(i, a));
                assert(attrs_model(self.tag_attributes@) =~= attrs_model(before).update(
                    i,
                    (AttrModel { name: av.name.push(ch), ..av }),
                ));
            }
        }
    }

    fn append_character_to_attribute_value(&mut self, ch: char)
        ensures
            final(self)@ == attr_value_pushed(old(self)@, ch),
    {
        let ghost before = self.tag_attributes@;
        if let Some(mut a) = self.tag_attributes.pop() {
            push_char(&mut a.value, ch);
            self.tag_attributes.push(a);
            proof {
                let i = before.len() - 1;
                let av = before[i]@;
                assert(self.tag_attributes@ =~= before.update(i, a));
                assert(attrs_model(self.tag_attributes@) =~= attrs_model(before).update(
                    i,
                    (AttrModel { value: av.value.push(ch), ..av }),
                ));
            }
        }
    }

    /// Hands the finished tag token out, leaving the buffers empty.
    fn emit_current_token(&mut self) -> (t: Token)
        ensures
            final(self)@ == tag_cleared(old(self)@),
            t@ == tag_token(old(self)@),
    {
        let mut name = String::new();
        core::mem::swap(&mut name, &mut self.tag_name);
        let mut attrs: Vec<Attribute> = Vec::new();
        core::mem::swap(&mut attrs, &mut self.tag_attributes);
        proof {
            assert(attrs_model(Seq::<Attribute>::empty()) =~= Seq::<AttrModel>::empty());
        }
        Token::Tag {
            tag_name: name,
            self_closing: self.tag_self_closing,
            attributes: attrs,
            is_end_tag: self.tag_is_end,
        }
    }

    fn emit_char(&self) -> (t: Token)
        requires
            self@.current is Some,
        ensures
            self@.current matches Some(c) && t@ == TokenView::Character(c),
    {
        match self.current_char {
            Some(c) => Token::Character(c),
            None => vstd::pervasive::unreached(),
        }
    }

    fn emit_eof(&self) -> (t: Token)
        ensures
            t@ == TokenView::Eof,
    {
        Token::EOF
    }

    /// Returns the next token, or the first fatal lexical error. The result
    /// and the new tokenizer state are exactly what [`next_spec`] gives for
    /// the old state.
    pub fn next(&mut self) -> (r: Result<Token, LexError>)
        requires
            old(self)@.wf(),
        ensures
            next_spec(old(self)@) == (final(self)@, token_result_view(r)),
            final(self)@.wf(),
            final(self)@.chars == old(self)@.chars,
            final(self)@.index >= old(self)@.index,
            !final(self)@.reconsume,
            (match r {
                Ok(t) => !(t@ is Eof) ==> final(self)@.index > old(self)@.index || old(
                    self,
                )@.reconsume,
                Err(_) => true,
            }),
    {
        loop
            invariant
                self@.wf(),
                self@.chars == old(self)@.chars,
                next_spec(self@) == next_spec(old(self)@),
                self@.index >= old(self)@.index,
                self@.index > old(self)@.index || old(self)@.reconsume || self@ == old(self)@,
            decreases self@.chars.len() - self@.index, rank(self@),
        {
            let stepped = match self.state {
                State::Data => self.step_data(),
                State::PlainText => self.step_plain_text(),
                State::TagOpen => self.step_tag_open(),
                State::TagName => self.step_tag_name(),
                State::EndTagOpen => self.step_end_tag_open(),
                State::BeforeAttributeName => self.step_before_attribute_name(),
                State::AttributeName => self.step_attribute_name(),
                State::AfterAttributeName => self.step_after_attribute_name(),
                State::BeforeAttributeValue => self.step_before_attribute_value(),
                State::AttributeValueDoubleQuoted => self.step_attribute_value_double_quoted(),
                State::AttributeValueSingleQuoted => self.step_attribute_value_single_quoted(),
                State::AttributeValueUnquoted => self.step_attribute_value_unquoted(),
                State::AfterAttributeValueQuoted => self.step_after_attribute_value_quoted(),
                State::SelfClosingStartTag => self.step_self_closing_start_tag(),
            };
            if let Some(res) = stepped {
                return res;
            }
        }
    }

    fn step_data(&mut self) -> (r: Option<Result<Token, LexError>>)
        requires
            old(self)@.wf(),
            old(self)@.state == State::Data,
        ensures
            step_ok(old(self)@, final(self)@, r),
    {
        let oc = self.consume_next();
        match oc {
            None => Some(Ok(self.emit_eof())),
            Some(c) => {
                if c == '<' {
                    self.switch_to(State::TagOpen);
                    None
                } else {
                    Some(Ok(self.emit_char()))
                }
            },
        }
    }

    fn step_plain_text(&mut self) -> (r: Option<Result<Token, LexError>>)
        requires
            old(self)@.wf(),
            old(self)@.state == State::PlainText,
        ensures
            step_ok(old(self)@, final(self)@, r),
    {
        let oc = self.consume_next();
        match oc {
            None => Some(Ok(self.emit_eof())),
            Some(_) => Some(Ok(self.emit_char())),
        }
    }

    fn step_tag_open(&mut self) -> (r: Option<Result<Token, LexError>>)
        requires
            old(self)@.wf(),
            old(self)@.state == State::TagOpen,
        ensures
            step_ok(old(self)@, final(self)@, r),
    {
        let oc = self.consume_next();
        match oc {
            None => Some(self.lex_error(LexErrorKind::EofBeforeTagName)),
            Some(c) => {
                if c == '!' {
                    Some(self.lex_error(LexErrorKind::UnsupportedMarkupDeclaration))
                } else if c == '?' {
                    Some(self.lex_error(LexErrorKind::UnsupportedProcessingInstruction))
                } else if c == '/' {
                    self.switch_to(State::EndTagOpen);
                    None
                } else if is_alphabetic(c) {
                    self.start_new_tag(false);
                    self.reconsume_in(State::TagName);
                    None
                } else {
                    Some(self.lex_error(LexErrorKind::InvalidFirstCharacterOfTagName))
                }
            },
        }
    }

    fn step_end_tag_open(&mut self) -> (r: Option<Result<Token, LexError>>)
        requires
            old(self)@.wf(),
            old(self)@.state == State::EndTagOpen,
        ensures
            step_ok(old(self)@, final(self)@, r),
    {
        let oc = self.consume_next();
        match oc {
            None => Some(self.lex_error(LexErrorKind::EofBeforeTagName)),
            Some(c) => {
                if is_alphabetic(c) {
                    self.start_new_tag(true);
                    self.reconsume_in(State::TagName);
                    None
                } else if c == '>' {
                    Some(self.lex_error(LexErrorKind::MissingEndTagName))
                } else {
                    Some(self.lex_error(LexErrorKind::InvalidFirstCharacterOfTagName))
                }
            },
        }
    }

    fn step_tag_name(&mut self) -> (r: Option<Result<Token, LexError>>)
        requires
            old(self)@.wf(),
            old(self)@.state == State::TagName,
        ensures
            step_ok(old(self)@, final(self)@, r),
    {
        let oc = self.consume_next();
        match oc {
            None => Some(self.lex_error(LexErrorKind::EofInTag)),
            Some(c) => {
                if is_whitespace(c) {
                    self.switch_to(State::BeforeAttributeName);
                    None
                } else if c == '/' {
                    self.switch_to(State::SelfClosingStartTag);
                    None
                } else if c == '>' {
                    self.switch_to(State::Data);
                    Some(Ok(self.emit_current_token()))
                } else if is_ascii_uppercase(c) {
                    self.append_character_to_tag_name(to_ascii_lowercase(c));
                    None
                } else {
                    self.append_character_to_tag_name(c);
                    None
                }
            },
        }
    }

    fn step_before_attribute_name(&mut self) -> (r: Option<Result<Token, LexError>>)
        requires
            old(self)@.wf(),
            old(self)@.state == State::BeforeAttributeName,
        ensures
            step_ok(old(self)@, final(self)@, r),
    {
        let oc = self.consume_next();
        match oc {
            None => Some(self.lex_error(LexErrorKind::EofInTag)),
            Some(c) => {
                if is_whitespace(c) {
                    None
                } else if c == '/' {
                    self.reconsume_in(State::AfterAttributeName);
                    None
                } else if c == '=' {
                    Some(self.lex_error(LexErrorKind::UnexpectedEqualsSignBeforeAttributeName))
                } else {
                    let attribute = Attribute::new();
                    self.new_attribute(attribute);
                    self.reconsume_in(State::AttributeName);
                    None
                }
            },
        }
    }

    fn step_attribute_name(&mut self) -> (r: Option<Result<Token, LexError>>)
        requires
            old(self)@.wf(),
            old(self)@.state == State::AttributeName,
        ensures
            step_ok(old(self)@, final(self)@, r),
    {
        let oc = self.consume_next();
        match oc {
            None => Some(self.lex_error(LexErrorKind::EofInTag)),
            Some(c) => {
                if is_whitespace(c) || c == '/' || c == '>' {
                    self.reconsume_in(State::AfterAttributeName);
                    None
                } else if c == '=' {
                    self.switch_to(State::BeforeAttributeValue);
                    None
                } else if c == '"' || c == '\'' || c == '<' {
                    Some(self.lex_error(LexErrorKind::UnexpectedCharacterInAttributeName))
                } else {
                    self.append_character_to_attribute_name(c);
                    None
                }
            },
        }
    }

    fn step_after_attribute_name(&mut self) -> (r: Option<Result<Token, LexError>>)
        requires
            old(self)@.wf(),
            old(self)@.state == State::AfterAttributeName,
        ensures
            step_ok(old(self)@, final(self)@, r),
    {
        let oc = self.consume_next();
        match oc {
            None => Some(self.lex_error(LexErrorKind::EofInTag)),
            Some(c) => {
                if is_whitespace(c) {
                    None
                } else if c == '/' {
                    self.switch_to(State::SelfClosingStartTag);
                    None
                } else if c == '=' {
                    self.switch_to(State::BeforeAttributeValue);
                    None
                } else if c == '>' {
                    self.switch_to(State::Data);
                    Some(Ok(self.emit_current_token()))
                } else {
                    let attribute = Attribute::new();
                    self.new_attribute(attribute);
                    self.reconsume_in(State::AttributeName);
                    None
                }
            },
        }
    }

    fn step_before_attribute_value(&mut self) -> (r: Option<Result<Token, LexError>>)
        requires
            old(self)@.wf(),
            old(self)@.state == State::BeforeAttributeValue,
        ensures
            step_ok(old(self)@, final(self)@, r),
    {
        let oc = self.consume_next();
        match oc {
            None => Some(self.lex_error(LexErrorKind::EofInTag)),
            Some(c) => {
                if is_whitespace(c) {
                    None
                } else if c == '"' {
                    self.switch_to(State::AttributeValueDoubleQuoted);
                    None
                } else if c == '\'' {
                    self.switch_to(State::AttributeValueSingleQuoted);
                    None
                } else if c == '>' {
                    Some(self.lex_error(LexErrorKind::MissingAttributeValue))
                } else {
                    self.reconsume_in(State::AttributeValueUnquoted);
                    None
                }
            },
        }
    }

    fn step_attribute_value_double_quoted(&mut self) -> (r: Option<Result<Token, LexError>>)
        requires
            old(self)@.wf(),
            old(self)@.state == State::AttributeValueDoubleQuoted,
        ensures
            step_ok(old(self)@, final(self)@, r),
    {
        let oc = self.consume_next();
        match oc {
            None => Some(self.lex_error(LexErrorKind::EofInTag)),
            Some(c) => {
                if c == '"' {
                    self.switch_to(State::AfterAttributeValueQuoted);
                    None
                } else if c == '&' {
                    Some(self.lex_error(LexErrorKind::UnsupportedCharacterReference))
                } else {
                    self.append_character_to_attribute_value(c);
                    None
                }
            },
        }
    }

    fn step_attribute_value_single_quoted(&mut self) -> (r: Option<Result<Token, LexError>>)
        requires
            old(self)@.wf(),
            old(self)@.state == State::AttributeValueSingleQuoted,
        ensures
            step_ok(old(self)@, final(self)@, r),
    {
        let oc = self.consume_next();
        match oc {
            None => Some(self.lex_error(LexErrorKind::EofInTag)),
            Some(c) => {
                if c == '\'' {
                    self.switch_to(State::AfterAttributeValueQuoted);
                    None
                } else if c == '&' {
                    Some(self.lex_error(LexErrorKind::UnsupportedCharacterReference))
                } else {
                    self.append_character_to_attribute_value(c);
                    None
                }
            },
        }
    }

    fn step_attribute_value_unquoted(&mut self) -> (r: Option<Result<Token, LexError>>)
        requires
            old(self)@.wf(),
            old(self)@.state == State::AttributeValueUnquoted,
        ensures
            step_ok(old(self)@, final(self)@, r),
    {
        let oc = self.consume_next();
        match oc {
            None => Some(self.lex_error(LexErrorKind::EofInTag)),
            Some(c) => {
                if is_whitespace(c) {
                    self.switch_to(State::BeforeAttributeName);
                    None
                } else if c == '>' {
                    self.switch_to(State::Data);
                    Some(Ok(self.emit_current_token()))
                } else if c == '"' || c == '\'' || c == '<' || c == '=' || c == '`' {
                    Some(self.lex_error(LexErrorKind::UnexpectedCharacterInUnquotedAttributeValue))
                } else {
                    self.append_character_to_attribute_value(c);
                    None
                }
            },
        }
    }

    fn step_after_attribute_value_quoted(&mut self) -> (r: Option<Result<Token, LexError>>)
        requires
            old(self)@.wf(),
            old(self)@.state == State::AfterAttributeValueQuoted,
        ensures
            step_ok(old(self)@, final(self)@, r),
    {
        let oc = self.consume_next();
        match oc {
            None => Some(self.lex_error(LexErrorKind::EofInTag)),
            Some(c) => {
                if is_whitespace(c) {
                    self.switch_to(State::BeforeAttributeName);
                    None
                } else if c == '/' {
                    self.switch_to(State::SelfClosingStartTag);
                    None
                } else if c == '>' {
                    self.switch_to(State::Data);
                    Some(Ok(self.emit_current_token()))
                } else {
                    Some(self.lex_error(LexErrorKind::MissingWhitespaceBetweenAttributes))
                }
            },
        }
    }

    fn step_self_closing_start_tag(&mut self) -> (r: Option<Result<Token, LexError>>)
        requires
            old(self)@.wf(),
            old(self)@.state == State::SelfClosingStartTag,
        ensures
            step_ok(old(self)@, final(self)@, r),
    {
        let oc = self.consume_next();
        match oc {
            None => Some(self.lex_error(LexErrorKind::EofInTag)),
            Some(c) => {
                if c == '>' {
                    self.tag_self_closing = true;
                    self.switch_to(State::Data);
                    Some(Ok(self.emit_current_token()))
                } else {
                    Some(self.lex_error(LexErrorKind::UnexpectedSolidusInTag))
                }
            },
        }
    }

    /// A fatal lexical error at the current offset.
    fn lex_error(&self, kind: LexErrorKind) -> (r: Result<Token, LexError>)
        ensures
            r == Result::<Token, LexError>::Err(
                LexError { kind, position: self@.index as usize },
            ),
    {
        Err(LexError { kind, position: self.index })
    }
}

/// What one iteration of `next`'s automaton loop achieves, starting from
/// `pre` and ending at `post`: either the run is not finished (`None`) and
/// the remaining run is unchanged while the termination measure shrank, or a
/// token or error is produced exactly as [`next_spec`] requires.
pub open spec fn step_ok(
    pre: LexerModel,
    post: LexerModel,
    r: Option<Result<Token, LexError>>,
) -> bool {
    &&& post.wf()
    &&& post.chars == pre.chars
    &&& post.index >= pre.index
    &&& match r {
        None => next_spec(pre) == next_spec(post) && (pre.chars.len() - post.index
            < pre.chars.len() - pre.index || (post.index == pre.index && rank(post) < rank(pre))),
        Some(res) => next_spec(pre) == (post, token_result_view(res)) && !post.reconsume && (
        match res {
            Ok(t) => (t@ is Eof) || post.index > pre.index || pre.reconsume,
            Err(_) => true,
        }),
    }
}


/// Facts that hold of every step of the automaton: the cursor never moves
/// backwards, the input is unchanged, no pushback is pending afterwards, a
/// doctype token is never emitted, and a token other than end-of-input is
/// only emitted with progress.
pub open spec fn next_progress_ok(m: LexerModel) -> bool {
    let (m2, r) = next_spec(m);
    &&& m2.wf()
    &&& m2.chars == m.chars
    &&& m2.index >= m.index
    &&& !m2.reconsume
    &&& match r {
        Ok(t) => !(t is Doctype) && (!(t is Eof) ==> (m2.index > m.index || m.reconsume)),
        Err(_) => true,
    }
}

/// Every run of the automaton satisfies [`next_progress_ok`].
pub proof fn lemma_next_spec_progress(m: LexerModel)
    requires
        m.wf(),
    ensures
        next_progress_ok(m),
    decreases m.chars.len() - m.index, rank(m), 1int,
{
    match m.state {
        State::Data => lemma_progress_data(m),
        State::PlainText => lemma_progress_plain_text(m),
        State::TagOpen => lemma_progress_tag_open(m),
        State::TagName => lemma_progress_tag_name(m),
        State::EndTagOpen => lemma_progress_end_tag_open(m),
        State::BeforeAttributeName => lemma_progress_before_attribute_name(m),
        State::AttributeName => lemma_progress_attribute_name(m),
        State::AfterAttributeName => lemma_progress_after_attribute_name(m),
        State::BeforeAttributeValue => lemma_progress_before_attribute_value(m),
        State::AttributeValueDoubleQuoted => lemma_progress_value_double_quoted(m),
        State::AttributeValueSingleQuoted => lemma_progress_value_single_quoted(m),
        State::AttributeValueUnquoted => lemma_progress_value_unquoted(m),
        State::AfterAttributeValueQuoted => lemma_progress_after_value_quoted(m),
        State::SelfClosingStartTag => lemma_progress_self_closing(m),
    }
}

proof fn lemma_progress_data(m: LexerModel)
    requires
        m.wf(),
        m.state == State::Data,
    ensures
        next_progress_ok(m),
    decreases m.chars.len() - m.index, rank(m), 0int,
{
    let (m1, oc) = consumed(m);
    match oc {
        None => {},
        Some(c) => {
            if c == '<' {
                lemma_next_spec_progress(switched_to(m1, State::TagOpen));
            }
        },
    }
}

proof fn lemma_progress_plain_text(m: LexerModel)
    requires
        m.wf(),
        m.state == State::PlainText,
    ensures
        next_progress_ok(m),
    decreases m.chars.len() - m.index, rank(m), 0int,
{
    let (m1, oc) = consumed(m);
    match oc {
        None => {},
        Some(c) => {
            let _ = c;
        },
    }
}

proof fn lemma_progress_tag_open(m: LexerModel)
    requires
        m.wf(),
        m.state == State::TagOpen,
    ensures
        next_progress_ok(m),
    decreases m.chars.len() - m.index, rank(m), 0int,
{
    let (m1, oc) = consumed(m);
    match oc {
        None => {},
        Some(c) => {
            if c == '!' || c == '?' {
            } else if c == '/' {
                lemma_next_spec_progress(switched_to(m1, State::EndTagOpen));
            } else if spec_is_alphabetic(c) {
                lemma_next_spec_progress(reconsumed_in(with_new_tag(m1, false), State::TagName));
            }
        },
    }
}

proof fn lemma_progress_end_tag_open(m: LexerModel)
    requires
        m.wf(),
        m.state == State::EndTagOpen,
    ensures
        next_progress_ok(m),
    decreases m.chars.len() - m.index, rank(m), 0int,
{
    let (m1, oc) = consumed(m);
    match oc {
        None => {},
        Some(c) => {
            if spec_is_alphabetic(c) {
                lemma_next_spec_progress(reconsumed_in(with_new_tag(m1, true), State::TagName));
            }
        },
    }
}

proof fn lemma_progress_tag_name(m: LexerModel)
    requires
        m.wf(),
        m.state == State::TagName,
    ensures
        next_progress_ok(m),
    decreases m.chars.len() - m.index, rank(m), 0int,
{
    let (m1, oc) = consumed(m);
    match oc {
        None => {},
        Some(c) => {
            if spec_is_whitespace(c) {
                lemma_next_spec_progress(switched_to(m1, State::BeforeAttributeName));
            } else if c == '/' {
                lemma_next_spec_progress(switched_to(m1, State::SelfClosingStartTag));
            } else if c == '>' {
            } else if spec_is_ascii_uppercase(c) {
                lemma_next_spec_progress(tag_name_pushed(m1, spec_to_lowercase(c)));
            } else {
                lemma_next_spec_progress(tag_name_pushed(m1, c));
            }
        },
    }
}

proof fn lemma_progress_before_attribute_name(m: LexerModel)
    requires
        m.wf(),
        m.state == State::BeforeAttributeName,
    ensures
        next_progress_ok(m),
    decreases m.chars.len() - m.index, rank(m), 0int,
{
    let (m1, oc) = consumed(m);
    match oc {
        None => {},
        Some(c) => {
            if spec_is_whitespace(c) {
                lemma_next_spec_progress(m1);
            } else if c == '/' {
                lemma_next_spec_progress(reconsumed_in(m1, State::AfterAttributeName));
            } else if c == '=' {
            } else {
                lemma_next_spec_progress(
                    reconsumed_in(
                        attr_pushed(m1, AttrModel { name: Seq::empty(), value: Seq::empty() }),
                        State::AttributeName,
                    ),
                );
            }
        },
    }
}

proof fn lemma_progress_attribute_name(m: LexerModel)
    requires
        m.wf(),
        m.state == State::AttributeName,
    ensures
        next_progress_ok(m),
    decreases m.chars.len() - m.index, rank(m), 0int,
{
    let (m1, oc) = consumed(m);
    match oc {
        None => {},
        Some(c) => {
            if spec_is_whitespace(c) || c == '/' || c == '>' {
                lemma_next_spec_progress(reconsumed_in(m1, State::AfterAttributeName));
            } else if c == '=' {
                lemma_next_spec_progress(switched_to(m1, State::BeforeAttributeValue));
            } else if c == '"' || c == '\'' || c == '<' {
            } else {
                lemma_next_spec_progress(attr_name_pushed(m1, c));
            }
        },
    }
}

proof fn lemma_progress_after_attribute_name(m: LexerModel)
    requires
        m.wf(),
        m.state == State::AfterAttributeName,
    ensures
        next_progress_ok(m),
    decreases m.chars.len() - m.index, rank(m), 0int,
{
    let (m1, oc) = consumed(m);
    match oc {
        None => {},
        Some(c) => {
            if spec_is_whitespace(c) {
                lemma_next_spec_progress(m1);
            } else if c == '/' {
                lemma_next_spec_progress(switched_to(m1, State::SelfClosingStartTag));
            } else if c == '=' {
                lemma_next_spec_progress(switched_to(m1, State::BeforeAttributeValue));
            } else if c == '>' {
            } else {
                lemma_next_spec_progress(
                    reconsumed_in(
                        attr_pushed(m1, AttrModel { name: Seq::empty(), value: Seq::empty() }),
                        State::AttributeName,
                    ),
                );
            }
        },
    }
}

proof fn lemma_progress_before_attribute_value(m: LexerModel)
    requires
        m.wf(),
        m.state == State::BeforeAttributeValue,
    ensures
        next_progress_ok(m),
    decreases m.chars.len() - m.index, rank(m), 0int,
{
    let (m1, oc) = consumed(m);
    match oc {
        None => {},
        Some(c) => {
            if spec_is_whitespace(c) {
                lemma_next_spec_progress(m1);
            } else if c == '"' {
                lemma_next_spec_progress(switched_to(m1, State::AttributeValueDoubleQuoted));
            } else if c == '\'' {
                lemma_next_spec_progress(switched_to(m1, State::AttributeValueSingleQuoted));
            } else if c == '>' {
            } else {
                lemma_next_spec_progress(reconsumed_in(m1, State::AttributeValueUnquoted));
            }
        },
    }
}

proof fn lemma_progress_value_double_quoted(m: LexerModel)
    requires
        m.wf(),
        m.state == State::AttributeValueDoubleQuoted,
    ensures
        next_progress_ok(m),
    decreases m.chars.len() - m.index, rank(m), 0int,
{
    let (m1, oc) = consumed(m);
    match oc {
        None => {},
        Some(c) => {
            if c == '"' {
                lemma_next_spec_progress(switched_to(m1, State::AfterAttributeValueQuoted));
            } else if c == '&' {
            } else {
                lemma_next_spec_progress(attr_value_pushed(m1, c));
            }
        },
    }
}

proof fn lemma_progress_value_single_quoted(m: LexerModel)
    requires
        m.wf(),
        m.state == State::AttributeValueSingleQuoted,
    ensures
        next_progress_ok(m),
    decreases m.chars.len() - m.index, rank(m), 0int,
{
    let (m1, oc) = consumed(m);
    match oc {
        None => {},
        Some(c) => {
            if c == '\'' {
                lemma_next_spec_progress(switched_to(m1, State::AfterAttributeValueQuoted));
            } else if c == '&' {
            } else {
                lemma_next_spec_progress(attr_value_pushed(m1, c));
            }
        },
    }
}

proof fn lemma_progress_value_unquoted(m: LexerModel)
    requires
        m.wf(),
        m.state == State::AttributeValueUnquoted,
    ensures
        next_progress_ok(m),
    decreases m.chars.len() - m.index, rank(m), 0int,
{
    let (m1, oc) = consumed(m);
    match oc {
        None => {},
        Some(c) => {
            if spec_is_whitespace(c) {
                lemma_next_spec_progress(switched_to(m1, State::BeforeAttributeName));
            } else if c == '>' {
            } else if c == '"' || c == '\'' || c == '<' || c == '=' || c == '`' {
            } else {
                lemma_next_spec_progress(attr_value_pushed(m1, c));
            }
        },
    }
}

proof fn lemma_progress_after_value_quoted(m: LexerModel)
    requires
        m.wf(),
        m.state == State::AfterAttributeValueQuoted,
    ensures
        next_progress_ok(m),
    decreases m.chars.len() - m.index, rank(m), 0int,
{
    let (m1, oc) = consumed(m);
    match oc {
        None => {},
        Some(c) => {
            if spec_is_whitespace(c) {
                lemma_next_spec_progress(switched_to(m1, State::BeforeAttributeName));
            } else if c == '/' {
                lemma_next_spec_progress(switched_to(m1, State::SelfClosingStartTag));
            }
        },
    }
}

proof fn lemma_progress_self_closing(m: LexerModel)
    requires
        m.wf(),
        m.state == State::SelfClosingStartTag,
    ensures
        next_progress_ok(m),
    decreases m.chars.len() - m.index, rank(m), 0int,
{
    let (m1, oc) = consumed(m);
    match oc {
        None => {},
        Some(c) => {
            let _ = c;
        },
    }
}

} // verus!
