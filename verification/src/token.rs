//! Tokens produced by the tokenizer: tag boundaries, single characters, the
//! (unsupported) doctype marker, and the end-of-input sentinel.

use vstd::prelude::*;
use crate::ast::AttrModel;
use vstd::pervasive::unreached;

verus! {

/// Mathematical model of a token.
pub enum TokenView {
    Doctype,
    Tag { tag_name: Seq<char>, self_closing: bool, attributes: Seq<AttrModel>, is_end_tag: bool },
    Character(char),
    Eof,
}

/// An attribute collected while a tag token is built: a name/value pair,
/// both growing as characters arrive.
#[derive(Debug, Clone, PartialEq, PartialOrd)]
pub struct Attribute {
    pub name: String,
    pub value: String,
}

impl View for Attribute {
    type V = AttrModel;

    open spec fn view(&self) -> AttrModel {
        AttrModel { name: self.name@, value: self.value@ }
    }
}

pub open spec fn attrs_model(s: Seq<Attribute>) -> Seq<AttrModel> {
    s.map_values(|a: Attribute| a@)
}

impl Attribute {
    /// A fresh attribute with empty name and value.
    pub fn new() -> (a: Attribute)
        ensures
            a@ == (AttrModel { name: Seq::<char>::empty(), value: Seq::<char>::empty() }),
    {
        Attribute { name: String::new(), value: String::new() }
    }

    pub fn from_name_value(name: String, value: String) -> (a: Attribute)
        ensures
            a@ == (AttrModel { name: name@, value: value@ }),
    {
        Attribute { name, value }
    }
}

/// A token: a tag with its name, attributes and flags; one character of
/// character data; a doctype marker; or the end-of-input sentinel.
#[derive(Debug, Clone, PartialEq, PartialOrd)]
pub enum Token {
    Doctype,
    Tag { tag_name: String, self_closing: bool, attributes: Vec<Attribute>, is_end_tag: bool },
    Character(char),
    EOF,
}

impl View for Token {
    type V = TokenView;

    open spec fn view(&self) -> TokenView {
        match self {
            Token::Doctype => TokenView::Doctype,
            Token::Tag { tag_name, self_closing, attributes, is_end_tag } => TokenView::Tag {
                tag_name: tag_name@,
                self_closing: *self_closing,
                attributes: attrs_model(attributes@),
                is_end_tag: *is_end_tag,
            },
            Token::Character(c) => TokenView::Character(*c),
            Token::EOF => TokenView::Eof,
        }
    }
}

impl Token {
    /// A start tag with an empty name and no attributes yet.
    pub fn new_start_tag() -> (t: Token)
        ensures
            t@ == (TokenView::Tag {
                tag_name: Seq::<char>::empty(),
                self_closing: false,
                attributes: Seq::<AttrModel>::empty(),
                is_end_tag: false,
            }),
    {
        let t = Token::Tag {
            tag_name: String::new(),
            self_closing: false,
            attributes: Vec::new(),
            is_end_tag: false,
        };
        proof {
            assert(attrs_model(Seq::<Attribute>::empty()) =~= Seq::<AttrModel>::empty());
        }
        t
    }

    /// An end tag with an empty name and no attributes yet.
    pub fn new_end_tag() -> (t: Token)
        ensures
            t@ == (TokenView::Tag {
                tag_name: Seq::<char>::empty(),
                self_closing: false,
                attributes: Seq::<AttrModel>::empty(),
                is_end_tag: true,
            }),
    {
        let t = Token::Tag {
            tag_name: String::new(),
            self_closing: false,
            attributes: Vec::new(),
            is_end_tag: true,
        };
        proof {
            assert(attrs_model(Seq::<Attribute>::empty()) =~= Seq::<AttrModel>::empty());
        }
        t
    }

    pub fn is_tag(&self) -> (r: bool)
        ensures
            r == (self@ is Tag),
    {
        match self {
            Token::Tag { .. } => true,
            _ => false,
        }
    }

    pub fn is_start_tag(&self) -> (r: bool)
        ensures
            r == (self@ matches TokenView::Tag { is_end_tag, .. } && !is_end_tag),
    {
        if let Token::Tag { is_end_tag, .. } = self {
            !*is_end_tag
        } else {
            false
        }
    }

    pub fn is_end_tag(&self) -> (r: bool)
        ensures
            r == (self@ matches TokenView::Tag { is_end_tag, .. } && is_end_tag),
    {
        if let Token::Tag { is_end_tag, .. } = self {
            *is_end_tag
        } else {
            false
        }
    }

    /// The name of a tag token. Asking a non-tag token is an
    /// internal-consistency failure, excluded by the precondition.
    pub fn tag_name(&self) -> (r: &String)
        requires
            self@ is Tag,
        ensures
            self@ matches TokenView::Tag { tag_name, .. } && r@ == tag_name,
    {
        if let Token::Tag { tag_name, .. } = self {
            tag_name
        } else {
            unreached()
        }
    }

    /// The attributes of a tag token, in the order they were written.
    pub fn attributes(&self) -> (r: &Vec<Attribute>)
        requires
            self@ is Tag,
        ensures
            self@ matches TokenView::Tag { attributes, .. } && attrs_model(r@) == attributes,
    {
        if let Token::Tag { attributes, .. } = self {
            attributes
        } else {
            unreached()
        }
    }

    pub fn self_closing(&self) -> (r: bool)
        requires
            self@ is Tag,
        ensures
            self@ matches TokenView::Tag { self_closing, .. } && r == self_closing,
    {
        if let Token::Tag { self_closing, .. } = self {
            *self_closing
        } else {
            unreached()
        }
    }

    /// Replaces the name of a tag token.
    pub fn set_tag_name(&mut self, new_name: &str)
        requires
            old(self)@ is Tag,
        ensures
            old(self)@ matches TokenView::Tag { self_closing, attributes, is_end_tag, .. }
                && final(self)@ == (TokenView::Tag {
                tag_name: new_name@,
                self_closing,
                attributes,
                is_end_tag,
            }),
    {
        match self {
            Token::Tag { tag_name, .. } => {
                *tag_name = new_name.to_owned();
            },
            _ => {
                proof {
                    assert(false);
                }
            },
        }
    }

    /// The character of a character token.
    pub fn character(&self) -> (r: char)
        requires
            self@ is Character,
        ensures
            self@ == TokenView::Character(r),
    {
        if let Token::Character(ch) = self {
            *ch
        } else {
            unreached()
        }
    }
}

} // verus!
