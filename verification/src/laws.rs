//! Laws of the tree builder, stated over the same specification functions
//! that the builder's contracts use and proved once for all inputs.
//!
//! The central result is [`lemma_tokens_round_trip`]: folding
//! [`builder_step`] over the token serialization of any well-formed tree
//! rebuilds exactly that tree — same names, same attributes, same children
//! in the same order, and hence the same depth. It covers in one statement
//! the structural-mirror property of nested tags and the idempotence of a
//! lossless serialization, at the token level: what the tokenizer makes of
//! raw characters is specified separately by [`crate::lexer::next_spec`].

use vstd::prelude::*;
use crate::ast::NodeModel;
use crate::parser::{
    builder_step,
    finalized,
    init_builder,
    BuilderModel,
    FrameModel,
    OutputModel,
    ParseError,
    ParseOptions,
};
use crate::strings::spec_is_whitespace;
use crate::token::TokenView;

verus! {

broadcast use vstd::seq::group_seq_axioms;

/// Folding the tree builder over a whole sequence of tokens.
pub open spec fn build_tokens(b: BuilderModel, toks: Seq<TokenView>) -> Result<
    BuilderModel,
    ParseError,
>
    decreases toks.len(),
{
    if toks.len() == 0 {
        Ok(b)
    } else {
        match builder_step(b, toks[0]) {
            Err(e) => Err(e),
            Ok(b2) => build_tokens(b2, toks.drop_first()),
        }
    }
}

/// The character token carrying one character.
pub open spec fn char_token(c: char) -> TokenView {
    TokenView::Character(c)
}

/// One character token per character of a text run.
pub open spec fn char_tokens(s: Seq<char>) -> Seq<TokenView> {
    Seq::new(s.len(), |i: int| char_token(s[i]))
}

/// The token serialization of a node: a text run becomes its characters; an
/// element becomes its start tag (carrying the attributes), the serialization
/// of its children, and its end tag.
pub open spec fn node_tokens(n: NodeModel) -> Seq<TokenView>
    decreases n,
{
    match n {
        NodeModel::Document { .. } => Seq::empty(),
        NodeModel::Text { value } => char_tokens(value),
        NodeModel::Element { name, attributes, children } => seq![
            TokenView::Tag {
                tag_name: name,
                self_closing: false,
                attributes,
                is_end_tag: false,
            },
        ] + nodes_tokens(children) + seq![
            TokenView::Tag {
                tag_name: name,
                self_closing: false,
                attributes: Seq::empty(),
                is_end_tag: true,
            },
        ],
    }
}

pub open spec fn nodes_tokens(ns: Seq<NodeModel>) -> Seq<TokenView>
    decreases ns,
{
    if ns.len() == 0 {
        Seq::empty()
    } else {
        node_tokens(ns[0]) + nodes_tokens(ns.drop_first())
    }
}

/// A tree the builder can reproduce exactly: no document node below the
/// root, every text run nonempty and not led by whitespace (a leading
/// whitespace character would be skipped as inter-tag whitespace), and no
/// two adjacent text runs (they would coalesce into one).
pub open spec fn wf_node(n: NodeModel) -> bool
    decreases n,
{
    match n {
        NodeModel::Document { .. } => false,
        NodeModel::Text { value } => value.len() > 0 && !spec_is_whitespace(value[0]),
        NodeModel::Element { children, .. } => wf_nodes(children),
    }
}

pub open spec fn wf_nodes(ns: Seq<NodeModel>) -> bool
    decreases ns,
{
    if ns.len() == 0 {
        true
    } else {
        &&& wf_node(ns[0])
        &&& wf_nodes(ns.drop_first())
        &&& (ns.len() > 1 ==> !(ns[0] is Text && ns[1] is Text))
    }
}

/// The nesting depth of a tree: one more than its children's for an
/// element, zero for a text run.
pub open spec fn node_depth(n: NodeModel) -> int
    decreases n,
{
    match n {
        NodeModel::Document { children } => nodes_depth(children),
        NodeModel::Text { .. } => 0,
        NodeModel::Element { children, .. } => 1 + nodes_depth(children),
    }
}

pub open spec fn nodes_depth(ns: Seq<NodeModel>) -> int
    decreases ns,
{
    if ns.len() == 0 {
        0
    } else if node_depth(ns[0]) >= nodes_depth(ns.drop_first()) {
        node_depth(ns[0])
    } else {
        nodes_depth(ns.drop_first())
    }
}

/// There is somewhere to insert: an open element, or the root itself.
pub open spec fn has_insertion(b: BuilderModel) -> bool {
    b.open.len() > 0 || b.root_open
}

/// The nodes appended at the current insertion point.
pub open spec fn appended(b: BuilderModel, ns: Seq<NodeModel>) -> BuilderModel {
    if b.open.len() > 0 {
        let i = b.open.len() - 1;
        let f = b.open[i as int];
        BuilderModel {
            open: b.open.update(i as int, FrameModel { children: f.children + ns, ..f }),
            ..b
        }
    } else {
        BuilderModel { doc: b.doc + ns, ..b }
    }
}

/// The builder with its pending text run, if any, realized as a text node.
pub open spec fn delivered(b: BuilderModel) -> BuilderModel {
    match b.text {
        None => b,
        Some(s) => BuilderModel {
            text: None,
            ..appended(b, seq![NodeModel::Text { value: s }])
        },
    }
}

/// The builder state after the token serialization of one node: a text run
/// is still pending; an element (after flushing what was pending) stands
/// appended in full.
pub open spec fn built_state(b: BuilderModel, n: NodeModel) -> BuilderModel {
    match n {
        NodeModel::Text { value } => BuilderModel { text: Some(value), ..b },
        _ => appended(delivered(b), seq![n]),
    }
}

/// The builder state after the token serialization of a whole sequence of
/// nodes.
pub open spec fn built_states(b: BuilderModel, ns: Seq<NodeModel>) -> BuilderModel {
    if ns.len() == 0 {
        b
    } else if ns.last() is Text {
        match ns.last() {
            NodeModel::Text { value } => BuilderModel {
                text: Some(value),
                ..appended(delivered(b), ns.drop_last())
            },
            _ => b,
        }
    } else {
        appended(delivered(b), ns)
    }
}

/// Flushing the pending text run succeeds wherever there is an insertion
/// point, and yields exactly [`delivered`].
proof fn lemma_text_flushed_is_delivered(b: BuilderModel)
    requires
        has_insertion(b),
    ensures
        crate::parser::text_flushed(b) == Ok::<BuilderModel, ParseError>(delivered(b)),
{
    match b.text {
        None => {},
        Some(s) => {
            let node = NodeModel::Text { value: s };
            if b.open.len() > 0 {
                let i = b.open.len() - 1;
                let f = b.open[i as int];
                assert(f.children.push(node) =~= f.children + seq![node]);
                assert(b.open.update(
                    i as int,
                    (FrameModel { children: f.children.push(node), ..f }),
                ) =~= b.open.update(
                    i as int,
                    (FrameModel { children: f.children + seq![node], ..f }),
                ));
            } else {
                assert(b.doc.push(node) =~= b.doc + seq![node]);
            }
        },
    }
}

proof fn lemma_appended_empty(b: BuilderModel)
    ensures
        appended(b, Seq::empty()) == b,
{
    if b.open.len() > 0 {
        let i = b.open.len() - 1;
        let f = b.open[i as int];
        assert(f.children + Seq::empty() =~= f.children);
        assert(b.open.update(i as int, (FrameModel { children: f.children + Seq::empty(), ..f }))
            =~= b.open);
    } else {
        assert(b.doc + Seq::empty() =~= b.doc);
    }
}

proof fn lemma_appended_concat(b: BuilderModel, xs: Seq<NodeModel>, ys: Seq<NodeModel>)
    ensures
        appended(appended(b, xs), ys) == appended(b, xs + ys),
{
    if b.open.len() > 0 {
        let i = b.open.len() - 1;
        let f = b.open[i as int];
        assert((f.children + xs) + ys =~= f.children + (xs + ys));
        assert(appended(b, xs).open.len() == b.open.len());
        assert(appended(appended(b, xs), ys).open =~= b.open.update(
            i as int,
            (FrameModel { children: f.children + (xs + ys), ..f }),
        ));
    } else {
        assert((b.doc + xs) + ys =~= b.doc + (xs + ys));
    }
}

/// Composition: folding over concatenated token sequences folds them one
/// after the other.
proof fn lemma_build_tokens_concat(b: BuilderModel, s: Seq<TokenView>, t: Seq<TokenView>)
    ensures
        build_tokens(b, s + t) == (match build_tokens(b, s) {
            Ok(b2) => build_tokens(b2, t),
            Err(e) => Err(e),
        }),
    decreases s.len(),
{
    if s.len() == 0 {
        assert(s + t =~= t);
    } else {
        assert((s + t)[0] == s[0]);
        assert((s + t).drop_first() =~= s.drop_first() + t);
        match builder_step(b, s[0]) {
            Ok(b2) => {
                lemma_build_tokens_concat(b2, s.drop_first(), t);
            },
            Err(_) => {},
        }
    }
}

/// A run of character tokens appended to an open text run extends it.
proof fn lemma_build_chars_open(b: BuilderModel, s: Seq<char>)
    requires
        b.capture is None,
        b.text is Some,
    ensures
        ({
            let p = match b.text {
                Some(p) => p,
                None => Seq::empty(),
            };
            build_tokens(b, char_tokens(s)) == Ok::<BuilderModel, ParseError>(
                BuilderModel { text: Some(p + s), ..b },
            )
        }),
    decreases s.len(),
{
    let p = match b.text {
        Some(p) => p,
        None => Seq::empty(),
    };
    if s.len() == 0 {
        assert(char_tokens(s).len() == 0);
        assert(p + s =~= p);
        assert(BuilderModel { text: Some(p + s), ..b } == b);
    } else {
        assert(char_tokens(s)[0] == TokenView::Character(s[0]));
        let b2 = BuilderModel { text: Some(p.push(s[0])), ..b };
        assert(builder_step(b, char_tokens(s)[0]) == Ok::<BuilderModel, ParseError>(b2));
        assert(char_tokens(s).drop_first() =~= char_tokens(s.drop_first()));
        lemma_build_chars_open(b2, s.drop_first());
        assert(p.push(s[0]) + s.drop_first() =~= p + s);
    }
}

/// A run of character tokens beginning with a non-whitespace character
/// starts a text run holding exactly those characters.
proof fn lemma_build_chars_start(b: BuilderModel, s: Seq<char>)
    requires
        b.capture is None,
        b.text is None,
        s.len() > 0,
        !spec_is_whitespace(s[0]),
    ensures
        build_tokens(b, char_tokens(s)) == Ok::<BuilderModel, ParseError>(
            BuilderModel { text: Some(s), ..b },
        ),
{
    assert(char_tokens(s)[0] == TokenView::Character(s[0]));
    let b2 = BuilderModel { text: Some(Seq::empty().push(s[0])), ..b };
    assert(builder_step(b, char_tokens(s)[0]) == Ok::<BuilderModel, ParseError>(b2));
    assert(char_tokens(s).drop_first() =~= char_tokens(s.drop_first()));
    lemma_build_chars_open(b2, s.drop_first());
    assert(Seq::empty().push(s[0]) + s.drop_first() =~= s);
}

/// The token serialization of one well-formed node rebuilds exactly that
/// node.
proof fn lemma_build_node(b: BuilderModel, n: NodeModel)
    requires
        wf_node(n),
        !b.options.extract_payloads,
        b.capture is None,
        has_insertion(b),
        n is Text ==> b.text is None,
    ensures
        build_tokens(b, node_tokens(n)) == Ok::<BuilderModel, ParseError>(built_state(b, n)),
    decreases n, 1int,
{
    match n {
        NodeModel::Document { .. } => {},
        NodeModel::Text { value } => {
            lemma_build_chars_start(b, value);
        },
        NodeModel::Element { name, attributes, children } => {
            let start = TokenView::Tag {
                tag_name: name,
                self_closing: false,
                attributes,
                is_end_tag: false,
            };
            let end = TokenView::Tag {
                tag_name: name,
                self_closing: false,
                attributes: Seq::empty(),
                is_end_tag: true,
            };
            let d = delivered(b);
            lemma_text_flushed_is_delivered(b);
            assert(builder_step(b, start) == Ok::<BuilderModel, ParseError>(
                BuilderModel {
                    open: d.open.push(
                        FrameModel { name, attributes, children: Seq::empty() },
                    ),
                    ..d
                },
            ));
            let b1 = BuilderModel {
                open: d.open.push(FrameModel { name, attributes, children: Seq::empty() }),
                ..d
            };
            assert(node_tokens(n) =~= seq![start] + (nodes_tokens(children) + seq![end]));
            assert(node_tokens(n)[0] == start);
            assert(node_tokens(n).drop_first() =~= nodes_tokens(children) + seq![end]);
            lemma_build_nodes(b1, children);
            let b2 = built_states(b1, children);
            lemma_build_tokens_concat(b1, nodes_tokens(children), seq![end]);
            assert(build_tokens(b, node_tokens(n)) == build_tokens(b2, seq![end]));
            // The flushed state at the end tag holds the children in full.
            let bf = delivered(b2);
            assert(bf == (BuilderModel {
                open: d.open.push(FrameModel { name, attributes, children }),
                ..d
            })) by {
                lemma_built_states_flushed(b1, children);
                assert(delivered(b1) == b1) by {
                    lemma_appended_empty(b1);
                }
                let top = FrameModel { name, attributes, children: Seq::empty() };
                assert(b1.open.len() > 0);
                assert(b1.open[b1.open.len() - 1] == top);
                assert(appended(b1, children).open =~= d.open.push(
                    (FrameModel { name, attributes, children: Seq::empty() + children }),
                ));
                assert(Seq::empty() + children =~= children);
            }
            assert(seq![end].drop_first() =~= Seq::<TokenView>::empty());
            assert(seq![end][0] == end);
            lemma_text_flushed_is_delivered(b2);
            assert(bf.open.len() > 0);
            assert(builder_step(b2, end) == Ok::<BuilderModel, ParseError>(
                crate::parser::frame_popped(bf),
            ));
            assert(bf.open.last() == (FrameModel { name, attributes, children }));
            assert(bf.open.drop_last() =~= d.open);
            if d.open.len() > 0 {
                let i = d.open.len() - 1;
                let f = d.open[i as int];
                assert(f.children.push(n) =~= f.children + seq![n]);
                assert(crate::parser::frame_popped(bf).open =~= appended(d, seq![n]).open);
            } else {
                assert(d.doc.push(n) =~= d.doc + seq![n]);
            }
            assert(crate::parser::frame_popped(bf) == appended(d, seq![n]));
            assert(build_tokens(
                crate::parser::frame_popped(bf),
                seq![end].drop_first(),
            ) == Ok::<BuilderModel, ParseError>(crate::parser::frame_popped(bf)));
            assert(build_tokens(b2, seq![end]) == Ok::<BuilderModel, ParseError>(
                crate::parser::frame_popped(bf),
            ));
            assert(built_state(b, n) == appended(d, seq![n]));
        },
    }
}

/// The flushed state after a sequence of nodes holds them all, appended.
proof fn lemma_built_states_flushed(b: BuilderModel, ns: Seq<NodeModel>)
    requires
        has_insertion(b),
        b.text is None,
    ensures
        delivered(built_states(b, ns)) == appended(b, ns),
        built_states(b, ns).capture == b.capture,
        built_states(b, ns).options == b.options,
        built_states(b, ns).open.len() == b.open.len(),
        built_states(b, ns).root_open == b.root_open,
{
    if ns.len() == 0 {
        lemma_appended_empty(b);
    } else if ns.last() is Text {
        match ns.last() {
            NodeModel::Text { value } => {
                let base = appended(b, ns.drop_last());
                lemma_appended_concat(b, ns.drop_last(), seq![ns.last()]);
                assert(ns.drop_last() + seq![ns.last()] =~= ns);
                assert(delivered(built_states(b, ns)) == (BuilderModel {
                    text: None,
                    ..appended(base, seq![NodeModel::Text { value }])
                }));
            },
            _ => {},
        }
    } else {
    }
}

/// The token serialization of a well-formed sequence of nodes rebuilds
/// exactly those nodes, in order.
proof fn lemma_build_nodes(b: BuilderModel, ns: Seq<NodeModel>)
    requires
        wf_nodes(ns),
        !b.options.extract_payloads,
        b.capture is None,
        has_insertion(b),
        (ns.len() > 0 && ns[0] is Text) ==> b.text is None,
    ensures
        build_tokens(b, nodes_tokens(ns)) == Ok::<BuilderModel, ParseError>(built_states(b, ns)),
    decreases ns, 0int,
{
    if ns.len() == 0 {
    } else {
        let x = ns[0];
        let rest = ns.drop_first();
        lemma_build_tokens_concat_first(b, ns);
        lemma_build_node(b, x);
        let b2 = built_state(b, x);
        lemma_build_nodes(b2, rest);
        lemma_build_tokens_concat(b, node_tokens(x), nodes_tokens(rest));
        // Relate the two built states.
        lemma_built_states_step(b, ns);
    }
}

/// Helper: the front split of `nodes_tokens`.
proof fn lemma_build_tokens_concat_first(b: BuilderModel, ns: Seq<NodeModel>)
    requires
        ns.len() > 0,
    ensures
        nodes_tokens(ns) == node_tokens(ns[0]) + nodes_tokens(ns.drop_first()),
{
}

/// Helper: `built_states` unrolls from the front.
proof fn lemma_built_states_step(b: BuilderModel, ns: Seq<NodeModel>)
    requires
        ns.len() > 0,
        has_insertion(b),
        ns[0] is Text ==> b.text is None,
        wf_nodes(ns),
    ensures
        built_states(built_state(b, ns[0]), ns.drop_first()) == built_states(b, ns),
{
    let x = ns[0];
    let rest = ns.drop_first();
    let bx = built_state(b, x);
    if rest.len() == 0 {
        match x {
            NodeModel::Text { value } => {
                assert(ns.last() == x);
                assert(ns.drop_last() =~= Seq::<NodeModel>::empty());
                lemma_appended_empty(delivered(b));
                assert(built_states(b, ns) == (BuilderModel { text: Some(value), ..delivered(b) }));
                assert(delivered(b) == b);
            },
            _ => {
                assert(ns =~= seq![x]);
                assert(built_states(b, ns) == appended(delivered(b), ns));
                lemma_appended_empty(delivered(bx));
                assert(bx.text is None);
                assert(delivered(bx) == bx);
                assert(seq![x] =~= ns);
            },
        }
    } else {
        // delivered(bx) == appended(delivered(b), seq![x]) in every case.
        match x {
            NodeModel::Text { value } => {
                assert(delivered(b) == b);
                assert(delivered(bx) == (BuilderModel {
                    text: None,
                    ..appended(b, seq![NodeModel::Text { value }])
                }));
                assert(appended(delivered(b), seq![x]).text is None);
            },
            _ => {
                assert(bx.text is None);
                assert(delivered(bx) == bx);
            },
        }
        let dbx = appended(delivered(b), seq![x]);
        assert(delivered(bx) == dbx);
        assert(rest.last() == ns.last());
        if ns.last() is Text {
            match ns.last() {
                NodeModel::Text { value } => {
                    lemma_appended_concat(delivered(b), seq![x], rest.drop_last());
                    assert(seq![x] + rest.drop_last() =~= ns.drop_last());
                    assert(built_states(bx, rest) == (BuilderModel {
                        text: Some(value),
                        ..appended(delivered(bx), rest.drop_last())
                    }));
                },
                _ => {},
            }
        } else {
            lemma_appended_concat(delivered(b), seq![x], rest);
            assert(seq![x] + rest =~= ns);
        }
    }
}

/// Serializing a well-formed tree to tokens and folding the tree builder
/// over them rebuilds exactly that tree: the same elements with the same
/// attributes, the same text, the same order of children, and hence the
/// same nesting depth. This is the builder-level statement both of the
/// structural-mirror property of nested tags and of round-trip idempotence
/// for a lossless serializer.
pub proof fn lemma_tokens_round_trip(ns: Seq<NodeModel>, options: ParseOptions)
    requires
        wf_nodes(ns),
        !options.extract_payloads,
    ensures
        build_tokens(init_builder(options), nodes_tokens(ns)) matches Ok(b) && finalized(b)
            == Ok::<OutputModel, ParseError>(
            OutputModel { doc: ns, scripts: Seq::empty(), styles: Seq::empty() },
        ),
{
    let b0 = init_builder(options);
    lemma_build_nodes(b0, ns);
    let b = built_states(b0, ns);
    lemma_built_states_flushed(b0, ns);
    lemma_text_flushed_is_delivered(b);
    assert(delivered(b) == appended(b0, ns));
    assert(appended(b0, ns).doc =~= ns);
    let bf = delivered(b);
    assert(crate::parser::unwound(bf.open, bf.doc) == bf.doc);
    assert(finalized(b) == Ok::<OutputModel, ParseError>(
        OutputModel { doc: bf.doc, scripts: bf.scripts, styles: bf.styles },
    ));
}


/// The nesting level after one token: a start tag opens an element, an end
/// tag closes one, anything else leaves the level unchanged.
pub open spec fn step_level(t: TokenView, c: int) -> int {
    match t {
        TokenView::Tag { is_end_tag, .. } => if is_end_tag {
            c - 1
        } else {
            c + 1
        },
        _ => c,
    }
}

/// The nesting level after a whole token sequence, starting from level `c`.
pub open spec fn level_after(toks: Seq<TokenView>, c: int) -> int
    decreases toks.len(),
{
    if toks.len() == 0 {
        c
    } else {
        level_after(toks.drop_first(), step_level(toks[0], c))
    }
}

/// The maximum tag-nesting level reached over a token sequence, starting
/// from level `c`.
pub open spec fn max_nesting(toks: Seq<TokenView>, c: int) -> int
    decreases toks.len(),
{
    if toks.len() == 0 {
        c
    } else {
        let rest = max_nesting(toks.drop_first(), step_level(toks[0], c));
        if c >= rest {
            c
        } else {
            rest
        }
    }
}

proof fn lemma_max_nesting_lower_bound(toks: Seq<TokenView>, c: int)
    ensures
        max_nesting(toks, c) >= c,
    decreases toks.len(),
{
    if toks.len() > 0 {
        lemma_max_nesting_lower_bound(toks.drop_first(), step_level(toks[0], c));
    }
}

proof fn lemma_level_after_concat(s: Seq<TokenView>, t: Seq<TokenView>, c: int)
    ensures
        level_after(s + t, c) == level_after(t, level_after(s, c)),
    decreases s.len(),
{
    if s.len() == 0 {
        assert(s + t =~= t);
    } else {
        assert((s + t)[0] == s[0]);
        assert((s + t).drop_first() =~= s.drop_first() + t);
        lemma_level_after_concat(s.drop_first(), t, step_level(s[0], c));
    }
}

proof fn lemma_max_nesting_concat(s: Seq<TokenView>, t: Seq<TokenView>, c: int)
    ensures
        max_nesting(s + t, c) == (if max_nesting(s, c) >= max_nesting(t, level_after(s, c)) {
            max_nesting(s, c)
        } else {
            max_nesting(t, level_after(s, c))
        }),
    decreases s.len(),
{
    if s.len() == 0 {
        assert(s + t =~= t);
        lemma_max_nesting_lower_bound(t, c);
    } else {
        assert((s + t)[0] == s[0]);
        assert((s + t).drop_first() =~= s.drop_first() + t);
        lemma_max_nesting_concat(s.drop_first(), t, step_level(s[0], c));
    }
}

proof fn lemma_chars_flat(s: Seq<char>, c: int)
    ensures
        level_after(char_tokens(s), c) == c,
        max_nesting(char_tokens(s), c) == c,
    decreases s.len(),
{
    if s.len() > 0 {
        assert(char_tokens(s)[0] == char_token(s[0]));
        assert(char_tokens(s).drop_first() =~= char_tokens(s.drop_first()));
        lemma_chars_flat(s.drop_first(), c);
    }
}

proof fn lemma_depth_node(n: NodeModel, c: int)
    requires
        wf_node(n),
    ensures
        node_depth(n) >= 0,
        level_after(node_tokens(n), c) == c,
        max_nesting(node_tokens(n), c) == c + node_depth(n),
    decreases n, 1int,
{
    match n {
        NodeModel::Document { .. } => {},
        NodeModel::Text { value } => {
            lemma_chars_flat(value, c);
        },
        NodeModel::Element { name, attributes, children } => {
            let start = TokenView::Tag {
                tag_name: name,
                self_closing: false,
                attributes,
                is_end_tag: false,
            };
            let end = TokenView::Tag {
                tag_name: name,
                self_closing: false,
                attributes: Seq::empty(),
                is_end_tag: true,
            };
            let mid = nodes_tokens(children) + seq![end];
            assert(node_tokens(n) == seq![start] + mid);
            lemma_depth_nodes(children, c + 1);
            assert(seq![start][0] == start);
            assert(seq![start].drop_first() =~= Seq::<TokenView>::empty());
            assert(seq![end][0] == end);
            assert(seq![end].drop_first() =~= Seq::<TokenView>::empty());
            assert(level_after(seq![start].drop_first(), c + 1) == c + 1);
            assert(max_nesting(seq![start].drop_first(), c + 1) == c + 1);
            assert(level_after(seq![end].drop_first(), c) == c);
            assert(max_nesting(seq![end].drop_first(), c) == c);
            assert(level_after(seq![start], c) == c + 1);
            assert(max_nesting(seq![start], c) == c + 1);
            assert(level_after(seq![end], c + 1) == c);
            assert(max_nesting(seq![end], c + 1) == c + 1);
            lemma_max_nesting_concat(nodes_tokens(children), seq![end], c + 1);
            lemma_level_after_concat(nodes_tokens(children), seq![end], c + 1);
            lemma_max_nesting_concat(seq![start], mid, c);
            lemma_level_after_concat(seq![start], mid, c);
        },
    }
}

proof fn lemma_depth_nodes(ns: Seq<NodeModel>, c: int)
    requires
        wf_nodes(ns),
    ensures
        nodes_depth(ns) >= 0,
        level_after(nodes_tokens(ns), c) == c,
        max_nesting(nodes_tokens(ns), c) == c + nodes_depth(ns),
    decreases ns, 0int,
{
    if ns.len() == 0 {
    } else {
        let rest = ns.drop_first();
        assert(nodes_tokens(ns) == node_tokens(ns[0]) + nodes_tokens(rest));
        lemma_depth_node(ns[0], c);
        lemma_depth_nodes(rest, c);
        lemma_max_nesting_concat(node_tokens(ns[0]), nodes_tokens(rest), c);
        lemma_level_after_concat(node_tokens(ns[0]), nodes_tokens(rest), c);
    }
}

/// The depth of a well-formed tree equals the maximum tag-nesting depth of
/// its token serialization. Together with [`lemma_tokens_round_trip`], the
/// tree the builder makes of such a token stream is exactly as deep as the
/// nesting of the stream's start/end tag pairs, and its children stand in
/// source order.
pub proof fn lemma_depth_matches_nesting(ns: Seq<NodeModel>)
    requires
        wf_nodes(ns),
    ensures
        nodes_depth(ns) == max_nesting(nodes_tokens(ns), 0),
{
    lemma_depth_nodes(ns, 0);
}

} // verus!
