//! The tree builder: it pulls tokens from the tokenizer one at a time and
//! maintains a stack of open elements, assembling the document tree. In the
//! payload-extracting mode the bodies of `script` and `style` elements are
//! captured verbatim and collected aside instead of entering the tree.
//!
//! The behaviour of `parse_html` and `parse_html_with_options` is pinned
//! down by [`parse_spec`]: a recursive specification that runs the tokenizer
//! automaton ([`crate::lexer::next_spec`]) and folds [`builder_step`] over
//! the emitted tokens.

use vstd::prelude::*;
use crate::{ast, token};
use crate::ast::{AttrModel, Document, Element, Node, NodeModel, Text};
use crate::lexer::{
    init_lexer,
    lemma_next_spec_progress,
    next_spec,
    token_result_view,
    HtmlLexer,
    LexError,
    LexerModel,
};
use crate::strings::{is_whitespace, push_char, spec_is_whitespace, str_eq};
use crate::token::{Token, TokenView};

verus! {

/// How the tree is built: whether `script`/`style` bodies are extracted as
/// raw-text payloads, and whether an end tag must match the innermost open
/// element.
#[derive(Debug, Clone, Copy, PartialEq, Eq, Structural)]
pub struct ParseOptions {
    pub extract_payloads: bool,
    pub strict_end_tags: bool,
}

/// The canonical mode: no payload extraction, and end tags pop the innermost
/// open element unconditionally, without checking its name.
pub open spec fn default_options() -> ParseOptions {
    ParseOptions { extract_payloads: false, strict_end_tags: false }
}

impl Default for ParseOptions {
    fn default() -> (o: ParseOptions)
        ensures
            o == default_options(),
    {
        ParseOptions { extract_payloads: false, strict_end_tags: false }
    }
}

/// Which side collection a raw-text payload belongs to.
#[derive(Debug, Clone, Copy, PartialEq, Eq, Structural)]
pub enum PayloadKind {
    Script,
    Style,
}

/// A fatal parse failure: a lexical error from the tokenizer, or a
/// structural error from the tree builder.
#[derive(Debug, Clone, Copy, PartialEq, Eq, Structural)]
pub enum ParseError {
    /// The tokenizer rejected the input.
    Lexical(LexError),
    /// A doctype token appeared; doctype-bearing documents are unsupported.
    DoctypeUnsupported,
    /// Content arrived after the root itself had been popped from the stack.
    NoOpenNode,
    /// In strict mode: an end tag did not name the innermost open element.
    MismatchedEndTag,
    /// In strict mode: an end tag arrived with no element open.
    StrayEndTag,
}

/// A raw-text payload: the verbatim body of a `script` or `style` element,
/// together with the attribute list carried on the tag token that closed the
/// capture.
#[derive(Debug, PartialEq)]
pub struct RawTextPayload {
    pub attributes: Vec<ast::Attribute>,
    pub source: String,
}

/// Mathematical model of a raw-text payload.
pub struct PayloadModel {
    pub attributes: Seq<AttrModel>,
    pub source: Seq<char>,
}

impl View for RawTextPayload {
    type V = PayloadModel;

    open spec fn view(&self) -> PayloadModel {
        PayloadModel { attributes: ast::attrs_model(self.attributes@), source: self.source@ }
    }
}

pub open spec fn payloads_model(s: Seq<RawTextPayload>) -> Seq<PayloadModel> {
    s.map_values(|p: RawTextPayload| p@)
}

/// Mathematical model of one open element: name and attributes from its
/// start tag, and the children collected so far.
pub struct FrameModel {
    pub name: Seq<char>,
    pub attributes: Seq<AttrModel>,
    pub children: Seq<NodeModel>,
}

/// The element a finished frame becomes.
pub open spec fn elem_of(f: FrameModel) -> NodeModel {
    NodeModel::Element { name: f.name, attributes: f.attributes, children: f.children }
}

/// Mathematical model of a pending raw-text capture.
pub struct CaptureModel {
    pub kind: PayloadKind,
    pub buffer: Seq<char>,
}

/// Mathematical model of the tree builder between two tokens.
pub struct BuilderModel {
    pub options: ParseOptions,
    /// The open-element stack, bottom first; the root is not an entry.
    pub open: Seq<FrameModel>,
    /// The children collected so far under the root.
    pub doc: Seq<NodeModel>,
    /// Whether the root itself is still on the conceptual stack.
    pub root_open: bool,
    /// The text run being collected, if one has started.
    pub text: Option<Seq<char>>,
    /// The raw-text capture in progress, if any.
    pub capture: Option<CaptureModel>,
    pub scripts: Seq<PayloadModel>,
    pub styles: Seq<PayloadModel>,
}

/// Mathematical model of a finished parse.
pub struct OutputModel {
    pub doc: Seq<NodeModel>,
    pub scripts: Seq<PayloadModel>,
    pub styles: Seq<PayloadModel>,
}

pub open spec fn init_builder(options: ParseOptions) -> BuilderModel {
    BuilderModel {
        options,
        open: Seq::empty(),
        doc: Seq::empty(),
        root_open: true,
        text: None,
        capture: None,
        scripts: Seq::empty(),
        styles: Seq::empty(),
    }
}

/// A node is appended to the current insertion point: the innermost open
/// element, or the root. With the root popped and nothing open, appending is
/// the builder's fatal internal-consistency failure.
pub open spec fn node_appended(b: BuilderModel, n: NodeModel) -> Result<BuilderModel, ParseError> {
    if b.open.len() > 0 {
        let i = b.open.len() - 1;
        let f = b.open[i as int];
        Ok(
            BuilderModel {
                open: b.open.update(i as int, FrameModel { children: f.children.push(n), ..f }),
                ..b
            },
        )
    } else if b.root_open {
        Ok(BuilderModel { doc: b.doc.push(n), ..b })
    } else {
        Err(ParseError::NoOpenNode)
    }
}

/// A pending text run is realized as one text node at the insertion point.
pub open spec fn text_flushed(b: BuilderModel) -> Result<BuilderModel, ParseError> {
    match b.text {
        None => Ok(b),
        Some(s) => match node_appended(b, NodeModel::Text { value: s }) {
            Ok(b2) => Ok(BuilderModel { text: None, ..b2 }),
            Err(e) => Err(e),
        },
    }
}

/// A pending capture is finished: the buffer and the given attribute list
/// become a payload in the collection of the capture's kind.
pub open spec fn payload_finished(b: BuilderModel, attributes: Seq<AttrModel>) -> BuilderModel {
    match b.capture {
        None => b,
        Some(cap) => {
            let p = PayloadModel { attributes, source: cap.buffer };
            match cap.kind {
                PayloadKind::Script => BuilderModel {
                    capture: None,
                    scripts: b.scripts.push(p),
                    ..b
                },
                PayloadKind::Style => BuilderModel { capture: None, styles: b.styles.push(p), ..b },
            }
        },
    }
}

/// A tag name that triggers raw-text capture in the payload-extracting mode.
pub open spec fn is_raw_text_name(name: Seq<char>) -> bool {
    name == "script"@ || name == "style"@
}

/// The innermost open element is closed: its frame becomes an element node
/// appended to the next insertion point out.
pub open spec fn frame_popped(b: BuilderModel) -> BuilderModel {
    if b.open.len() == 0 {
        b
    } else {
        let el = elem_of(b.open.last());
        let rest = b.open.drop_last();
        if rest.len() > 0 {
            let i = rest.len() - 1;
            let f = rest[i as int];
            BuilderModel {
                open: rest.update(i as int, FrameModel { children: f.children.push(el), ..f }),
                ..b
            }
        } else {
            BuilderModel { open: rest, doc: b.doc.push(el), ..b }
        }
    }
}

/// What a tag token does to the builder, after any pending text was flushed.
pub open spec fn tag_handled(
    b: BuilderModel,
    name: Seq<char>,
    self_closing: bool,
    attributes: Seq<AttrModel>,
    is_end: bool,
) -> Result<BuilderModel, ParseError> {
    if is_end {
        if b.options.strict_end_tags {
            if b.open.len() > 0 {
                if b.open.last().name == name {
                    Ok(frame_popped(b))
                } else {
                    Err(ParseError::MismatchedEndTag)
                }
            } else {
                Err(ParseError::StrayEndTag)
            }
        } else {
            if b.open.len() > 0 {
                Ok(frame_popped(b))
            } else if b.root_open {
                Ok(BuilderModel { root_open: false, ..b })
            } else {
                Ok(b)
            }
        }
    } else if b.options.extract_payloads && is_raw_text_name(name) {
        Ok(
            BuilderModel {
                capture: Some(
                    CaptureModel {
                        kind: if name == "script"@ {
                            PayloadKind::Script
                        } else {
                            PayloadKind::Style
                        },
                        buffer: Seq::empty(),
                    },
                ),
                ..b
            },
        )
    } else if self_closing {
        node_appended(
            b,
            NodeModel::Element { name, attributes, children: Seq::empty() },
        )
    } else {
        if b.open.len() == 0 && !b.root_open {
            Err(ParseError::NoOpenNode)
        } else {
            Ok(
                BuilderModel {
                    open: b.open.push(FrameModel { name, attributes, children: Seq::empty() }),
                    ..b
                },
            )
        }
    }
}

/// What one token does to the builder. The end-of-input token is handled by
/// [`finalized`] instead and leaves the builder unchanged here.
pub open spec fn builder_step(b: BuilderModel, t: TokenView) -> Result<BuilderModel, ParseError> {
    match t {
        TokenView::Character(c) => if b.capture is Some {
            Ok(
                BuilderModel {
                    capture: match b.capture {
                        Some(cap) => Some(CaptureModel { buffer: cap.buffer.push(c), ..cap }),
                        None => None,
                    },
                    ..b
                },
            )
        } else if b.text is Some {
            Ok(
                BuilderModel {
                    text: match b.text {
                        Some(s) => Some(s.push(c)),
                        None => None,
                    },
                    ..b
                },
            )
        } else if spec_is_whitespace(c) {
            Ok(b)
        } else {
            Ok(BuilderModel { text: Some(Seq::empty().push(c)), ..b })
        },
        TokenView::Doctype => Err(ParseError::DoctypeUnsupported),
        TokenView::Tag { tag_name, self_closing, attributes, is_end_tag } => if b.capture
            is Some {
            Ok(payload_finished(b, attributes))
        } else {
            match text_flushed(b) {
                Err(e) => Err(e),
                Ok(b1) => tag_handled(b1, tag_name, self_closing, attributes, is_end_tag),
            }
        },
        TokenView::Eof => Ok(b),
    }
}

/// The elements still open at end-of-input are closed innermost first; the
/// result is the final sequence of the root's children.
pub open spec fn unwound(open: Seq<FrameModel>, doc: Seq<NodeModel>) -> Seq<NodeModel>
    decreases open.len(),
{
    if open.len() == 0 {
        doc
    } else {
        let el = elem_of(open.last());
        let rest = open.drop_last();
        if rest.len() > 0 {
            let i = rest.len() - 1;
            let f = rest[i as int];
            unwound(rest.update(i as int, FrameModel { children: f.children.push(el), ..f }), doc)
        } else {
            doc.push(el)
        }
    }
}

/// End of input: a pending capture is finished with an empty attribute list,
/// a pending text run is flushed, and the remaining open elements are closed.
/// Unbalanced open tags are not an error.
pub open spec fn finalized(b: BuilderModel) -> Result<OutputModel, ParseError> {
    let b1 = payload_finished(b, Seq::empty());
    match text_flushed(b1) {
        Err(e) => Err(e),
        Ok(b2) => Ok(
            OutputModel {
                doc: unwound(b2.open, b2.doc),
                scripts: b2.scripts,
                styles: b2.styles,
            },
        ),
    }
}

/// The rest of a run, given the outcome of the most recent tokenizer call.
pub open spec fn step_state(
    b: BuilderModel,
    m: LexerModel,
    r: Result<TokenView, LexError>,
) -> Result<OutputModel, ParseError> {
    match r {
        Err(e) => Err(ParseError::Lexical(e)),
        Ok(t) => if t is Eof {
            finalized(b)
        } else {
            match builder_step(b, t) {
                Err(e) => Err(e),
                Ok(b2) => run_spec(b2, m),
            }
        },
    }
}

/// A whole run: tokens are pulled from the tokenizer one at a time and folded
/// into the builder until end-of-input, a lexical error, or a structural
/// error.
pub open spec fn run_spec(b: BuilderModel, m: LexerModel) -> Result<OutputModel, ParseError>
    decreases m.chars.len() - m.index,
        when m.wf() && !m.reconsume
        via run_spec_decreases
{
    let (m2, r) = next_spec(m);
    match r {
        Err(e) => Err(ParseError::Lexical(e)),
        Ok(t) => if t is Eof {
            finalized(b)
        } else {
            match builder_step(b, t) {
                Err(e) => Err(e),
                Ok(b2) => run_spec(b2, m2),
            }
        },
    }
}

#[via_fn]
proof fn run_spec_decreases(b: BuilderModel, m: LexerModel) {
    lemma_next_spec_progress(m);
}

/// What parsing an input yields: the finished tree's children plus the
/// collected payloads, or the first fatal error.
pub open spec fn parse_spec(source: Seq<char>, options: ParseOptions) -> Result<
    OutputModel,
    ParseError,
> {
    run_spec(init_builder(options), init_lexer(source))
}

/// The finished product of a parse: the document plus the raw-text payloads
/// collected in the payload-extracting mode (empty otherwise).
#[derive(Debug, PartialEq)]
pub struct ParseOutput {
    pub document: Document,
    pub scripts: Vec<RawTextPayload>,
    pub styles: Vec<RawTextPayload>,
}

impl View for ParseOutput {
    type V = OutputModel;

    open spec fn view(&self) -> OutputModel {
        OutputModel {
            doc: self.document@,
            scripts: payloads_model(self.scripts@),
            styles: payloads_model(self.styles@),
        }
    }
}

/// One open element under construction.
struct Frame {
    name: String,
    attributes: Vec<ast::Attribute>,
    children: Vec<Node>,
}

impl View for Frame {
    type V = FrameModel;

    closed spec fn view(&self) -> FrameModel {
        FrameModel {
            name: self.name@,
            attributes: ast::attrs_model(self.attributes@),
            children: ast::nodes_model(self.children@),
        }
    }
}

spec fn frames_model(s: Seq<Frame>) -> Seq<FrameModel> {
    s.map_values(|f: Frame| f@)
}

/// Converts a tag token's attribute list into tree attributes; the models
/// coincide.
fn convert_attributes(v: &Vec<token::Attribute>) -> (r: Vec<ast::Attribute>)
    ensures
        ast::attrs_model(r@) == token::attrs_model(v@),
{
    let mut r: Vec<ast::Attribute> = Vec::new();
    let mut i: usize = 0;
    proof {
        assert(ast::attrs_model(r@) =~= token::attrs_model(v@.subrange(0, 0)));
    }
    while i < v.len()
        invariant
            i <= v.len(),
            ast::attrs_model(r@) == token::attrs_model(v@.subrange(0, i as int)),
        decreases v.len() - i,
    {
        let ghost prev = r@;
        let a = &v[i];
        r.push(ast::Attribute::new(a.name.clone(), a.value.clone()));
        i = i + 1;
        proof {
            assert(ast::attrs_model(r@) =~= ast::attrs_model(prev).push(v@[i - 1]@));
            assert(token::attrs_model(v@.subrange(0, i as int)) =~= token::attrs_model(
                v@.subrange(0, i - 1),
            ).push(v@[i - 1]@));
        }
    }
    proof {
        assert(v@.subrange(0, v@.len() as int) =~= v@);
    }
    r
}

/// The tree builder: it owns the tokenizer, the open-element stack, and the
/// outputs under construction.
struct HtmlParser {
    lexer: HtmlLexer,
    options: ParseOptions,
    open: Vec<Frame>,
    doc_children: Vec<Node>,
    root_open: bool,
    has_text: bool,
    text: String,
    capture_kind: Option<PayloadKind>,
    capture_buffer: String,
    scripts: Vec<RawTextPayload>,
    styles: Vec<RawTextPayload>,
}

impl HtmlParser {
    /// The builder part of the parser's state, as a mathematical model.
    closed spec fn bm(self) -> BuilderModel {
        BuilderModel {
            options: self.options,
            open: frames_model(self.open@),
            doc: ast::nodes_model(self.doc_children@),
            root_open: self.root_open,
            text: if self.has_text {
                Some(self.text@)
            } else {
                None
            },
            capture: match self.capture_kind {
                Some(k) => Some(CaptureModel { kind: k, buffer: self.capture_buffer@ }),
                None => None,
            },
            scripts: payloads_model(self.scripts@),
            styles: payloads_model(self.styles@),
        }
    }

    fn new(source: &str, options: ParseOptions) -> (p: HtmlParser)
        ensures
            p.bm() == init_builder(options),
            p.lexer@ == init_lexer(source@),
    {
        let p = HtmlParser {
            lexer: HtmlLexer::new(source),
            options,
            open: Vec::new(),
            doc_children: Vec::new(),
            root_open: true,
            has_text: false,
            text: String::new(),
            capture_kind: None,
            capture_buffer: String::new(),
            scripts: Vec::new(),
            styles: Vec::new(),
        };
        proof {
            assert(frames_model(Seq::<Frame>::empty()) =~= Seq::<FrameModel>::empty());
            assert(ast::nodes_model(Seq::<Node>::empty()) =~= Seq::<NodeModel>::empty());
            assert(payloads_model(Seq::<RawTextPayload>::empty()) =~= Seq::<PayloadModel>::empty());
        }
        p
    }

    /// Appends a node at the current insertion point.
    fn append_node(&mut self, n: Node) -> (r: Result<(), ParseError>)
        ensures
            final(self).lexer == old(self).lexer,
            match node_appended(old(self).bm(), n@) {
                Ok(b2) => r is Ok && final(self).bm() == b2,
                Err(e) => r matches Err(pe) && pe == e && final(self).bm() == old(self).bm(),
            },
    {
        if self.open.len() > 0 {
            let ghost before = self.open@;
            if let Some(mut f) = self.open.pop() {
                let ghost fv = f@;
                f.children.push(n);
                proof {
                    crate::ast::lemma_nodes_model_push(before.last().children@, n);
                }
                self.open.push(f);
                proof {
                    let i = before.len() - 1;
                    assert(self.open@ =~= before.update(i, f));
                    assert(frames_model(self.open@) =~= frames_model(before).update(
                        i,
                        (FrameModel { children: fv.children.push(n@), ..fv }),
                    ));
                }
            }
            Ok(())
        } else if self.root_open {
            let ghost before = self.doc_children@;
            self.doc_children.push(n);
            proof {
                crate::ast::lemma_nodes_model_push(before, n);
            }
            Ok(())
        } else {
            Err(ParseError::NoOpenNode)
        }
    }

    /// Realizes the pending text run, if any, as a text node.
    fn handle_text(&mut self) -> (r: Result<(), ParseError>)
        ensures
            final(self).lexer == old(self).lexer,
            match text_flushed(old(self).bm()) {
                Ok(b2) => r is Ok && final(self).bm() == b2,
                Err(e) => r matches Err(pe) && pe == e,
            },
    {
        if self.has_text {
            let mut s = String::new();
            core::mem::swap(&mut s, &mut self.text);
            self.has_text = false;
            self.append_node(Node::Text(Text::new(s)))
        } else {
            Ok(())
        }
    }

    /// Closes the innermost open element.
    fn pop_and_append(&mut self)
        requires
            old(self).bm().open.len() > 0,
        ensures
            final(self).lexer == old(self).lexer,
            final(self).bm() == frame_popped(old(self).bm()),
    {
        let ghost before = self.open@;
        if let Some(f) = self.open.pop() {
            let ghost fv = f@;
            let element = Element::new(f.name, f.attributes, f.children);
            let node = Node::Element(element);
            assert(node@ == elem_of(fv));
            if self.open.len() > 0 {
                let ghost rest = self.open@;
                if let Some(mut p) = self.open.pop() {
                    let ghost pv = p@;
                    p.children.push(node);
                    proof {
                        crate::ast::lemma_nodes_model_push(rest.last().children@, node);
                    }
                    self.open.push(p);
                    proof {
                        let i = rest.len() - 1;
                        assert(self.open@ =~= rest.update(i, p));
                        assert(frames_model(self.open@) =~= frames_model(rest).update(
                            i,
                            (FrameModel { children: pv.children.push(node@), ..pv }),
                        ));
                        assert(frames_model(before).drop_last() =~= frames_model(rest));
                    }
                }
            } else {
                let ghost beforedoc = self.doc_children@;
                self.doc_children.push(node);
                proof {
                    crate::ast::lemma_nodes_model_push(beforedoc, node);
                    assert(frames_model(before).drop_last() =~= frames_model(self.open@));
                }
            }
        }
    }

    /// Finishes a pending raw-text capture into a payload carrying the given
    /// attribute list.
    fn finish_payload(&mut self, attributes: Vec<ast::Attribute>)
        ensures
            final(self).lexer == old(self).lexer,
            final(self).bm() == payload_finished(old(self).bm(), ast::attrs_model(attributes@)),
    {
        match self.capture_kind {
            None => {},
            Some(k) => {
                let mut buf = String::new();
                core::mem::swap(&mut buf, &mut self.capture_buffer);
                self.capture_kind = None;
                let p = RawTextPayload { attributes, source: buf };
                let ghost pv = p@;
                match k {
                    PayloadKind::Script => {
                        let ghost before = self.scripts@;
                        self.scripts.push(p);
                        proof {
                            assert(payloads_model(self.scripts@) =~= payloads_model(before).push(
                                pv,
                            ));
                        }
                    },
                    PayloadKind::Style => {
                        let ghost before = self.styles@;
                        self.styles.push(p);
                        proof {
                            assert(payloads_model(self.styles@) =~= payloads_model(before).push(
                                pv,
                            ));
                        }
                    },
                }
            },
        }
    }

    /// Applies a tag token to the builder, the pending text already flushed.
    fn handle_tag(&mut self, t: &Token) -> (r: Result<(), ParseError>)
        requires
            t@ is Tag,
        ensures
            final(self).lexer == old(self).lexer,
            t@ matches TokenView::Tag { tag_name, self_closing, attributes, is_end_tag }
                ==> match tag_handled(
                old(self).bm(),
                tag_name,
                self_closing,
                attributes,
                is_end_tag,
            ) {
                Ok(b2) => r is Ok && final(self).bm() == b2,
                Err(e) => r matches Err(pe) && pe == e,
            },
    {
        if t.is_end_tag() {
            if self.options.strict_end_tags {
                if self.open.len() > 0 {
                    let idx = self.open.len() - 1;
                    let name_matches = str_eq(self.open[idx].name.as_str(), t.tag_name().as_str());
                    if name_matches {
                        self.pop_and_append();
                        Ok(())
                    } else {
                        Err(ParseError::MismatchedEndTag)
                    }
                } else {
                    Err(ParseError::StrayEndTag)
                }
            } else {
                if self.open.len() > 0 {
                    self.pop_and_append();
                    Ok(())
                } else if self.root_open {
                    self.root_open = false;
                    Ok(())
                } else {
                    Ok(())
                }
            }
        } else {
            let name_is_script = str_eq(t.tag_name().as_str(), "script");
            let name_is_style = str_eq(t.tag_name().as_str(), "style");
            if self.options.extract_payloads && (name_is_script || name_is_style) {
                self.capture_kind = Some(
                    if name_is_script {
                        PayloadKind::Script
                    } else {
                        PayloadKind::Style
                    },
                );
                self.capture_buffer = String::new();
                Ok(())
            } else {
                let attributes = convert_attributes(t.attributes());
                let name = t.tag_name().clone();
                if t.self_closing() {
                    // A self-closing element is appended but never opened:
                    // it cannot receive children.
                    let element = Element::new(name, attributes, Vec::new());
                    proof {
                        assert(ast::nodes_model(Seq::<Node>::empty())
                            =~= Seq::<NodeModel>::empty());
                    }
                    self.append_node(Node::Element(element))
                } else {
                    if self.open.len() == 0 && !self.root_open {
                        Err(ParseError::NoOpenNode)
                    } else {
                        let ghost before = self.open@;
                        let f = Frame { name, attributes, children: Vec::new() };
                        let ghost fv = f@;
                        self.open.push(f);
                        proof {
                            assert(ast::nodes_model(Seq::<Node>::empty())
                                =~= Seq::<NodeModel>::empty());
                            assert(frames_model(self.open@) =~= frames_model(before).push(fv));
                        }
                        Ok(())
                    }
                }
            }
        }
    }

    /// Dispatches one token, exactly as [`builder_step`] says.
    fn handle_token(&mut self, t: &Token) -> (r: Result<(), ParseError>)
        ensures
            final(self).lexer == old(self).lexer,
            match builder_step(old(self).bm(), t@) {
                Ok(b2) => r is Ok && final(self).bm() == b2,
                Err(e) => r matches Err(pe) && pe == e,
            },
    {
        match t {
            Token::Character(c) => {
                if self.capture_kind.is_some() {
                    push_char(&mut self.capture_buffer, *c);
                    Ok(())
                } else if self.has_text {
                    push_char(&mut self.text, *c);
                    Ok(())
                } else if is_whitespace(*c) {
                    // Ignorable inter-tag whitespace: no text run starts.
                    Ok(())
                } else {
                    self.text = String::new();
                    push_char(&mut self.text, *c);
                    self.has_text = true;
                    Ok(())
                }
            },
            Token::Doctype => Err(ParseError::DoctypeUnsupported),
            Token::EOF => Ok(()),
            Token::Tag { .. } => {
                if self.capture_kind.is_some() {
                    let attributes = convert_attributes(t.attributes());
                    self.finish_payload(attributes);
                    Ok(())
                } else {
                    match self.handle_text() {
                        Err(e) => Err(e),
                        Ok(()) => self.handle_tag(t),
                    }
                }
            },
        }
    }

    /// End of input: close what is pending and hand the outputs over.
    fn finish(self) -> (r: Result<ParseOutput, ParseError>)
        ensures
            match finalized(self.bm()) {
                Ok(out) => r matches Ok(po) && po@ == out,
                Err(e) => r matches Err(pe) && pe == e,
            },
    {
        let mut me = self;
        proof {
            assert(ast::attrs_model(Seq::<ast::Attribute>::empty()) =~= Seq::<AttrModel>::empty());
        }
        me.finish_payload(Vec::new());
        match me.handle_text() {
            Err(e) => {
                return Err(e);
            },
            Ok(()) => {},
        }
        let ghost target = unwound(me.bm().open, me.bm().doc);
        let ghost bafter = me.bm();
        while me.open.len() > 0
            invariant
                unwound(me.bm().open, me.bm().doc) == target,
                me.bm() == (BuilderModel { open: me.bm().open, doc: me.bm().doc, ..bafter }),
            decreases me.open.len(),
        {
            me.pop_and_append();
        }
        let document = Document::new(me.doc_children);
        Ok(ParseOutput { document, scripts: me.scripts, styles: me.styles })
    }

    /// Pulls tokens to completion, building the tree.
    fn parse(self) -> (r: Result<ParseOutput, ParseError>)
        requires
            self.lexer@.wf(),
            !self.lexer@.reconsume,
        ensures
            match run_spec(self.bm(), self.lexer@) {
                Ok(out) => r matches Ok(po) && po@ == out,
                Err(e) => r matches Err(pe) && pe == e,
            },
    {
        let mut me = self;
        let ghost goal = run_spec(me.bm(), me.lexer@);
        proof {
            lemma_next_spec_progress(me.lexer@);
        }
        let mut cur = me.lexer.next();
        #[verifier::loop_isolation(false)]
        loop
            invariant
                me.lexer@.wf(),
                !me.lexer@.reconsume,
                step_state(me.bm(), me.lexer@, token_result_view(cur)) == goal,
            decreases me.lexer@.chars.len() - me.lexer@.index, (match cur {
                Ok(t) => if t@ is Eof {
                    0int
                } else {
                    1int
                },
                Err(_) => 0int,
            }),
        {
            match cur {
                Err(e) => {
                    return Err(ParseError::Lexical(e));
                },
                Ok(t) => {
                    match t {
                        Token::EOF => {
                            return me.finish();
                        },
                        _ => {},
                    }
                    match me.handle_token(&t) {
                        Err(e) => {
                            return Err(e);
                        },
                        Ok(()) => {},
                    }
                    proof {
                        lemma_next_spec_progress(me.lexer@);
                    }
                    cur = me.lexer.next();
                },
            }
        }
    }
}

/// Parses the input in the given mode and returns the finished tree together
/// with the collected raw-text payloads, or the first fatal error. The
/// result is exactly what [`parse_spec`] gives for the input.
pub fn parse_html_with_options(source: &str, options: ParseOptions) -> (r: Result<
    ParseOutput,
    ParseError,
>)
    ensures
        match parse_spec(source@, options) {
            Ok(out) => r matches Ok(po) && po@ == out,
            Err(e) => r matches Err(pe) && pe == e,
        },
{
    HtmlParser::new(source, options).parse()
}

/// Parses the input in the canonical mode: a document root, no payload
/// extraction, and unchecked end-tag popping. Returns the finished tree, or
/// the first fatal error.
pub fn parse_html(source: &str) -> (r: Result<Document, ParseError>)
    ensures
        match parse_spec(source@, default_options()) {
            Ok(out) => r matches Ok(d) && d@ == out.doc,
            Err(e) => r matches Err(pe) && pe == e,
        },
{
    match parse_html_with_options(source, ParseOptions::default()) {
        Ok(out) => Ok(out.document),
        Err(e) => Err(e),
    }
}

} // verus!
