//! The Delta parser: a flat operation array (an editor snapshot) reduced to
//! a document tree. Only `insert` operations are interpreted; structure is
//! rebuilt from `"\n"` boundaries and their attribute hints.
use vstd::prelude::*;

use crate::ast::{ASTNode, GListItem, GNode, ListType, RootNode};
use crate::ast_builder::{
    ASTBuilder, GBuilder, empty_builder, flush_list, flush_para, flush_table, with_block,
};
use crate::codec::{obj_get, obj_get_x};
use crate::json::{GJson, Json, view_json_obj, view_json_arr};
use crate::jsonparse::sp_parse_json;
use crate::mathsplit::{GPart, split_delta, split_inline};

verus! {

broadcast use vstd::std_specs::vec::group_vec_axioms, vstd::seq::group_seq_axioms;

/// The parser's running state: the builder, the inline nodes accumulated
/// for the current line, and the open-list flag with its kind.
#[verifier::ext_equal]
pub struct GDelta {
    pub b: GBuilder,
    pub buf: Seq<GNode>,
    pub in_list: bool,
    pub ltype: ListType,
}

pub open spec fn delta_init() -> GDelta {
    GDelta { b: empty_builder(), buf: Seq::empty(), in_list: false, ltype: ListType::Bullet }
}

/// The accumulated buffer closed as one paragraph under the root (an empty
/// buffer gives an empty paragraph).
pub open spec fn emit_para(b: GBuilder, buf: Seq<GNode>) -> GBuilder {
    with_block(b, GNode::Paragraph { children: buf })
}

/// A string attribute of an attribute object, if it is a string.
pub open spec fn attr_str(am: Seq<(Seq<char>, GJson)>, k: Seq<char>) -> Option<Seq<char>> {
    match obj_get(am, k) {
        Some(GJson::Str(s)) => Some(s),
        _ => None,
    }
}

/// A boolean attribute; anything that is not `true` counts as absent.
pub open spec fn attr_true(am: Seq<(Seq<char>, GJson)>, k: Seq<char>) -> bool {
    obj_get(am, k) == Some(GJson::Bool(true))
}

/// One text leaf wrapped in its styling attributes, outermost bold first:
/// bold, italic, underline, strike, link, color, with a `code` attribute
/// short-circuiting all other styling.
pub open spec fn styled_leaf(text: Seq<char>, attrs: Option<Seq<(Seq<char>, GJson)>>) -> GNode {
    match attrs {
        None => GNode::Text { content: text },
        Some(am) => {
            if attr_true(am, "code"@) {
                GNode::Code { content: text }
            } else {
                let n0 = GNode::Text { content: text };
                let n1 = match attr_str(am, "color"@) {
                    Some(c) => GNode::Color { color: c, children: seq![n0] },
                    None => n0,
                };
                let n2 = match attr_str(am, "link"@) {
                    Some(u) => GNode::Link { url: u, children: seq![n1] },
                    None => n1,
                };
                let n3 = if attr_true(am, "strike"@) {
                    GNode::Strike { children: seq![n2] }
                } else {
                    n2
                };
                let n4 = if attr_true(am, "underline"@) {
                    GNode::Underline { children: seq![n3] }
                } else {
                    n3
                };
                let n5 = if attr_true(am, "italic"@) {
                    GNode::Em { children: seq![n4] }
                } else {
                    n4
                };
                if attr_true(am, "bold"@) {
                    GNode::Strong { children: seq![n5] }
                } else {
                    n5
                }
            }
        },
    }
}

/// The nodes for a list of split parts: formulas as math nodes, non-empty
/// text parts as styled leaves.
pub open spec fn styled_parts(ps: Seq<GPart>, attrs: Option<Seq<(Seq<char>, GJson)>>) -> Seq<GNode>
    decreases ps,
{
    if ps.len() == 0 {
        Seq::empty()
    } else {
        styled_parts(ps.drop_last(), attrs) + (match ps.last() {
            GPart::Math(c, d) => seq![GNode::Math { content: c, display: d }],
            GPart::Text(t) => if t.len() > 0 {
                seq![styled_leaf(t, attrs)]
            } else {
                Seq::empty()
            },
        })
    }
}

/// The nodes a text insertion contributes: its math spans split out, the
/// rest styled. An empty insertion contributes nothing: text leaves are
/// never empty.
pub open spec fn styled_text(text: Seq<char>, attrs: Option<Seq<(Seq<char>, GJson)>>) -> Seq<
    GNode,
> {
    if text.len() == 0 {
        Seq::empty()
    } else {
        let ps = split_delta(text);
        if ps.len() > 1 || (ps.len() >= 1 && ps[0] is Math) {
            styled_parts(ps, attrs)
        } else {
            seq![styled_leaf(text, attrs)]
        }
    }
}

/// The attributes member of an operation, when it is an object.
pub open spec fn op_attrs(ms: Seq<(Seq<char>, GJson)>) -> Option<Seq<(Seq<char>, GJson)>> {
    match obj_get(ms, "attributes"@) {
        Some(GJson::Obj(am)) => Some(am),
        _ => None,
    }
}

/// The list kind and task state that a `list` attribute value implies.
pub open spec fn list_kind(ls: Seq<char>) -> (ListType, Option<bool>) {
    if ls == "checked"@ {
        (ListType::Bullet, Some(true))
    } else if ls == "unchecked"@ {
        (ListType::Bullet, Some(false))
    } else if ls == "ordered"@ {
        (ListType::Ordered, None)
    } else {
        (ListType::Bullet, None)
    }
}

/// A `"\n"` carrying a `list` attribute: ends a list item. A different
/// open list kind (or none) closes the old list and opens a fresh one.
pub open spec fn step_list_newline(st: GDelta, ls: Seq<char>) -> GDelta {
    let (ntype, checked) = list_kind(ls);
    let b1 = if !st.in_list || st.ltype != ntype {
        let b0 = if st.in_list {
            flush_list(st.b)
        } else {
            st.b
        };
        GBuilder { list: Some((ntype, Seq::empty())), ..flush_list(flush_para(b0)) }
    } else {
        st.b
    };
    let item = GListItem { children: st.buf, checked };
    let b2 = match b1.list {
        Some((t, items)) => GBuilder { list: Some((t, items.push(item))), ..b1 },
        None => GBuilder {
            list: Some((ListType::Bullet, seq![item])),
            ..flush_list(flush_para(b1))
        },
    };
    GDelta { b: b2, buf: Seq::empty(), in_list: true, ltype: ntype }
}

/// A plain `"\n"`: closes the open list (flushing a pending buffer as a
/// final item), or closes the buffer as a paragraph.
pub open spec fn step_plain_newline(st: GDelta) -> GDelta {
    if st.in_list {
        let b1 = if st.buf.len() > 0 {
            match st.b.list {
                Some((t, items)) => GBuilder {
                    list: Some((t, items.push(GListItem { children: st.buf, checked: None }))),
                    ..st.b
                },
                None => GBuilder {
                    list: Some(
                        (ListType::Bullet, seq![GListItem { children: st.buf, checked: None }]),
                    ),
                    ..flush_list(flush_para(st.b))
                },
            }
        } else {
            st.b
        };
        GDelta { b: flush_list(b1), buf: Seq::empty(), in_list: false, ltype: st.ltype }
    } else {
        GDelta { b: emit_para(st.b, st.buf), buf: Seq::empty(), ..st }
    }
}

/// A text insertion that begins with `"\n"` but carries more: the leading
/// newline closes the current line, the remainder starts the next buffer.
pub open spec fn step_newline_prefix(
    st: GDelta,
    rest: Seq<char>,
    attrs: Option<Seq<(Seq<char>, GJson)>>,
) -> GDelta {
    let b1 = if st.in_list {
        let item = GListItem { children: st.buf, checked: None };
        match st.b.list {
            Some((t, items)) => GBuilder { list: Some((t, items.push(item))), ..st.b },
            None => GBuilder {
                list: Some((ListType::Bullet, seq![item])),
                ..flush_list(flush_para(st.b))
            },
        }
    } else {
        emit_para(st.b, st.buf)
    };
    let nbuf = if rest.len() > 0 {
        styled_text(rest, attrs)
    } else {
        Seq::empty()
    };
    GDelta { b: b1, buf: nbuf, ..st }
}

/// An embedded image object: closes the pending line and any open list
/// (images are block level), then emits the image when a URL is present.
pub open spec fn step_image(st: GDelta, io: Seq<(Seq<char>, GJson)>) -> GDelta {
    let b1 = if st.buf.len() > 0 {
        if st.in_list {
            let item = GListItem { children: st.buf, checked: None };
            match st.b.list {
                Some((t, items)) => GBuilder { list: Some((t, items.push(item))), ..st.b },
                None => GBuilder {
                    list: Some((ListType::Bullet, seq![item])),
                    ..flush_list(flush_para(st.b))
                },
            }
        } else {
            emit_para(st.b, st.buf)
        }
    } else {
        st.b
    };
    let b2 = if st.in_list {
        flush_list(b1)
    } else {
        b1
    };
    let url = match obj_get(io, "image"@) {
        Some(GJson::Str(u)) => Some(u),
        _ => match obj_get(io, "imageContainer"@) {
            Some(GJson::Obj(ic)) => match obj_get(ic, "url"@) {
                Some(GJson::Str(u)) => Some(u),
                _ => None,
            },
            _ => None,
        },
    };
    let b3 = match url {
        Some(u) => if u.len() > 0 {
            with_block(b2, GNode::Image { url: u, width: None, height: None, alt: None })
        } else {
            b2
        },
        None => b2,
    };
    GDelta { b: b3, buf: Seq::empty(), in_list: false, ltype: st.ltype }
}

/// A mention object: an inline node; the name falls back to the id.
pub open spec fn step_mention(st: GDelta, io: Seq<(Seq<char>, GJson)>) -> GDelta {
    match obj_get(io, "mention"@) {
        Some(GJson::Obj(mm)) => match obj_get(mm, "id"@) {
            Some(GJson::Str(id)) => {
                let name = match obj_get(mm, "name"@) {
                    Some(GJson::Str(n)) => Some(n),
                    Some(GJson::Null) => Some(id),
                    None => Some(id),
                    _ => None,
                };
                match name {
                    Some(n) => GDelta {
                        buf: st.buf.push(GNode::Mention { id, name: n }),
                        ..st
                    },
                    None => st,
                }
            },
            _ => st,
        },
        _ => st,
    }
}

/// An emoji object: an inline node.
pub open spec fn step_emoji(st: GDelta, io: Seq<(Seq<char>, GJson)>) -> GDelta {
    match obj_get(io, "emoji"@) {
        Some(GJson::Obj(em)) => match obj_get(em, "content"@) {
            Some(GJson::Str(c)) => GDelta { buf: st.buf.push(GNode::Emoji { content: c }), ..st },
            _ => st,
        },
        _ => st,
    }
}

/// A formula object: closes the pending paragraph (outside a list) and
/// emits a display-mode math node.
pub open spec fn step_formula(st: GDelta, f: Seq<char>) -> GDelta {
    let (b1, nbuf) = if !st.in_list && st.buf.len() > 0 {
        (emit_para(st.b, st.buf), Seq::<GNode>::empty())
    } else {
        (st.b, st.buf)
    };
    GDelta {
        b: with_block(b1, GNode::Math { content: f, display: true }),
        buf: nbuf,
        ..st
    }
}

/// One operation applied to the state. Anything that is not a well-formed
/// insert is skipped: a malformed operation never aborts the parse.
pub open spec fn delta_step(st: GDelta, op: GJson) -> GDelta {
    match op {
        GJson::Obj(ms) => match obj_get(ms, "insert"@) {
            Some(GJson::Str(text)) => {
                let attrs = op_attrs(ms);
                let list_attr = match attrs {
                    Some(am) => attr_str(am, "list"@),
                    None => None,
                };
                if text == seq!['\n'] && list_attr is Some {
                    step_list_newline(st, list_attr->0)
                } else if text == seq!['\n'] {
                    step_plain_newline(st)
                } else if text.len() > 0 && text[0] == '\n' {
                    step_newline_prefix(st, text.drop_first(), attrs)
                } else {
                    GDelta { buf: st.buf + styled_text(text, attrs), ..st }
                }
            },
            Some(GJson::Obj(io)) => {
                if obj_get(io, "imageContainer"@) is Some || obj_get(io, "image"@) is Some {
                    step_image(st, io)
                } else if obj_get(io, "mention"@) is Some {
                    step_mention(st, io)
                } else if obj_get(io, "emoji"@) is Some {
                    step_emoji(st, io)
                } else {
                    match obj_get(io, "formula"@) {
                        Some(GJson::Str(f)) => step_formula(st, f),
                        _ => st,
                    }
                }
            },
            _ => st,
        },
        _ => st,
    }
}

/// All operations applied in order.
pub open spec fn delta_fold(st: GDelta, ops: Seq<GJson>) -> GDelta
    decreases ops.len(),
{
    if ops.len() == 0 {
        st
    } else {
        delta_fold(delta_step(st, ops[0]), ops.drop_first())
    }
}

/// After the last operation: a pending buffer becomes a final paragraph,
/// an open list is closed, and the document is finished.
pub open spec fn delta_finish(st: GDelta) -> Seq<GNode> {
    let b1 = if st.buf.len() > 0 {
        emit_para(st.b, st.buf)
    } else {
        st.b
    };
    let b2 = if st.in_list {
        flush_list(b1)
    } else {
        b1
    };
    flush_table(flush_list(flush_para(b2))).root
}

/// The document that an operation list denotes.
pub open spec fn delta_result(ops: Seq<GJson>) -> Seq<GNode> {
    delta_finish(delta_fold(delta_init(), ops))
}

/// The operation array of a Delta document: the `ops` member of the
/// top-level object.
pub open spec fn delta_ops_of(j: GJson) -> Option<Seq<GJson>> {
    match j {
        GJson::Obj(ms) => match obj_get(ms, "ops"@) {
            Some(GJson::Arr(ops)) => Some(ops),
            _ => None,
        },
        _ => None,
    }
}

/// The model of an optional borrowed attribute object.
pub open spec fn view_attrs(a: Option<&Vec<(String, Json)>>) -> Option<Seq<(Seq<char>, GJson)>> {
    match a {
        Some(am) => Some(view_json_obj(am@)),
        None => None,
    }
}

pub proof fn lemma_view_nodes_len_d(s: Seq<ASTNode>)
    ensures
        crate::ast::view_nodes(s).len() == s.len(),
    decreases s.len(),
{
    if s.len() > 0 {
        lemma_view_nodes_len_d(s.drop_last());
        assert(crate::ast::view_nodes(s) == crate::ast::view_nodes(s.drop_last()).push(
            s.last()@,
        ));
    }
}

proof fn lemma_fold_snoc(st: GDelta, s: Seq<GJson>, x: GJson)
    ensures
        delta_fold(st, s.push(x)) == delta_step(delta_fold(st, s), x),
    decreases s.len(),
{
    if s.len() == 0 {
        assert(s.push(x)[0] == x);
        assert(s.push(x).drop_first() =~= Seq::<GJson>::empty());
        assert(delta_fold(st, s) == st);
        assert(delta_fold(delta_step(st, x), Seq::<GJson>::empty()) == delta_step(st, x));
        assert(delta_fold(st, s.push(x)) == delta_fold(delta_step(st, x), s.push(x).drop_first()));
    } else {
        assert(s.push(x)[0] == s[0]);
        assert(s.push(x).drop_first() =~= s.drop_first().push(x));
        lemma_fold_snoc(delta_step(st, s[0]), s.drop_first(), x);
    }
}

/// One styled text leaf built from the attribute object.
fn styled_leaf_x(text: String, attrs: Option<&Vec<(String, Json)>>) -> (r: ASTNode)
    ensures
        r@ == styled_leaf(text@, view_attrs(attrs)),
{
    match attrs {
        None => ASTNode::Text(crate::ast::TextNode { content: text }),
        Some(am) => {
            if attr_true_x(am, "code") {
                return ASTNode::Code(crate::ast::CodeNode { content: text });
            }
            let ghost gv = view_json_obj(am@);
            let mut cur = ASTNode::Text(crate::ast::TextNode { content: text });
            match attr_str_x(am, "color") {
                Some(c) => {
                    let ghost pre = cur@;
                    let mut ch: Vec<ASTNode> = Vec::new();
                    ch.push(cur);
                    proof {
                        crate::ast::lemma_view_nodes_push(Seq::<ASTNode>::empty(), ch@[0]);
                        assert(Seq::<ASTNode>::empty().push(ch@[0]) =~= ch@);
                        assert(crate::ast::view_nodes(ch@) =~= seq![pre]);
                    }
                    cur = ASTNode::Color(crate::ast::ColorNode { color: c, children: ch });
                },
                None => {},
            }
            match attr_str_x(am, "link") {
                Some(u) => {
                    let ghost pre = cur@;
                    let mut ch: Vec<ASTNode> = Vec::new();
                    ch.push(cur);
                    proof {
                        crate::ast::lemma_view_nodes_push(Seq::<ASTNode>::empty(), ch@[0]);
                        assert(Seq::<ASTNode>::empty().push(ch@[0]) =~= ch@);
                        assert(crate::ast::view_nodes(ch@) =~= seq![pre]);
                    }
                    cur = ASTNode::Link(crate::ast::LinkNode { url: u, children: ch });
                },
                None => {},
            }
            if attr_true_x(am, "strike") {
                let ghost pre = cur@;
                let mut ch: Vec<ASTNode> = Vec::new();
                ch.push(cur);
                proof {
                    crate::ast::lemma_view_nodes_push(Seq::<ASTNode>::empty(), ch@[0]);
                    assert(Seq::<ASTNode>::empty().push(ch@[0]) =~= ch@);
                    assert(crate::ast::view_nodes(ch@) =~= seq![pre]);
                }
                cur = ASTNode::Strike(crate::ast::StrikeNode { children: ch });
            }
            if attr_true_x(am, "underline") {
                let ghost pre = cur@;
                let mut ch: Vec<ASTNode> = Vec::new();
                ch.push(cur);
                proof {
                    crate::ast::lemma_view_nodes_push(Seq::<ASTNode>::empty(), ch@[0]);
                    assert(Seq::<ASTNode>::empty().push(ch@[0]) =~= ch@);
                    assert(crate::ast::view_nodes(ch@) =~= seq![pre]);
                }
                cur = ASTNode::Underline(crate::ast::UnderlineNode { children: ch });
            }
            if attr_true_x(am, "italic") {
                let ghost pre = cur@;
                let mut ch: Vec<ASTNode> = Vec::new();
                ch.push(cur);
                proof {
                    crate::ast::lemma_view_nodes_push(Seq::<ASTNode>::empty(), ch@[0]);
                    assert(Seq::<ASTNode>::empty().push(ch@[0]) =~= ch@);
                    assert(crate::ast::view_nodes(ch@) =~= seq![pre]);
                }
                cur = ASTNode::Em(crate::ast::EmNode { children: ch });
            }
            if attr_true_x(am, "bold") {
                let ghost pre = cur@;
                let mut ch: Vec<ASTNode> = Vec::new();
                ch.push(cur);
                proof {
                    crate::ast::lemma_view_nodes_push(Seq::<ASTNode>::empty(), ch@[0]);
                    assert(Seq::<ASTNode>::empty().push(ch@[0]) =~= ch@);
                    assert(crate::ast::view_nodes(ch@) =~= seq![pre]);
                }
                cur = ASTNode::Strong(crate::ast::StrongNode { children: ch });
            }
            cur
        },
    }
}

/// Whether a boolean attribute is exactly `true`.
fn attr_true_x(am: &Vec<(String, Json)>, k: &str) -> (r: bool)
    ensures
        r == attr_true(view_json_obj(am@), k@),
{
    let key = String::from_str(k);
    match obj_get_x(am, &key) {
        Some(Json::Bool(b)) => *b,
        _ => false,
    }
}

/// A string attribute, cloned out.
fn attr_str_x(am: &Vec<(String, Json)>, k: &str) -> (r: Option<String>)
    ensures
        match r {
            Some(s) => attr_str(view_json_obj(am@), k@) == Some(s@),
            None => attr_str(view_json_obj(am@), k@) is None,
        },
{
    let key = String::from_str(k);
    match obj_get_x(am, &key) {
        Some(Json::Str(s)) => Some(s.clone()),
        _ => None,
    }
}

/// The nodes a text insertion contributes, math spans split out.
fn styled_text_x(text: &String, attrs: Option<&Vec<(String, Json)>>) -> (r: Vec<ASTNode>)
    ensures
        crate::ast::view_nodes(r@) == styled_text(text@, view_attrs(attrs)),
{
    if text.as_str().is_empty() {
        let out: Vec<ASTNode> = Vec::new();
        proof {
            assert(crate::ast::view_nodes(out@) =~= Seq::<GNode>::empty());
        }
        return out;
    }
    let cs = crate::json::str_to_chars(text.as_str());
    let parts = crate::mathsplit::split_delta_chars(&cs);
    let ghost pv = crate::mathsplit::view_parts(parts@);
    let use_parts = if parts.len() > 1 {
        true
    } else if parts.len() >= 1 {
        proof {
            crate::mathsplit::lemma_view_parts_index(parts@, 0);
        }
        match &parts[0] {
            crate::mathsplit::TextPart::Math(_, _) => true,
            _ => false,
        }
    } else {
        false
    };
    proof {
        crate::mathsplit::lemma_view_parts_len(parts@);
        if parts@.len() >= 1 {
            crate::mathsplit::lemma_view_parts_index(parts@, 0);
        }
    }
    if use_parts {
        let mut out: Vec<ASTNode> = Vec::new();
        let n = parts.len();
        let mut k: usize = 0;
        proof {
            assert(crate::ast::view_nodes(out@) =~= Seq::<GNode>::empty());
            assert(pv.take(0) =~= Seq::<GPart>::empty());
        }
        while k < n
            invariant
                k <= n,
                n == parts@.len(),
                pv == crate::mathsplit::view_parts(parts@),
                pv.len() == n,
                crate::ast::view_nodes(out@) == styled_parts(pv.take(k as int), view_attrs(attrs)),
            decreases n - k,
        {
            let p = crate::mathsplit::part_clone(&parts, k);
            let ghost pre_out = out@;
            proof {
                crate::mathsplit::lemma_view_parts_index(parts@, k as int);
                assert(pv.take(k as int + 1).drop_last() =~= pv.take(k as int));
                assert(pv.take(k as int + 1).last() == pv[k as int]);
            }
            match p {
                crate::mathsplit::TextPart::Math(c, d) => {
                    let node = ASTNode::Math(crate::ast::MathNode { content: c, display: d });
                    proof {
                        crate::ast::lemma_view_nodes_push(out@, node);
                    }
                    out.push(node);
                    proof {
                        assert(crate::ast::view_nodes(out@) =~= styled_parts(
                            pv.take(k as int + 1),
                            view_attrs(attrs),
                        ));
                    }
                },
                crate::mathsplit::TextPart::Text(t) => {
                    if t.as_str().is_empty() {
                        proof {
                            assert(crate::ast::view_nodes(out@) =~= styled_parts(
                                pv.take(k as int + 1),
                                view_attrs(attrs),
                            ));
                        }
                    } else {
                        let node = styled_leaf_x(t, attrs);
                        proof {
                            crate::ast::lemma_view_nodes_push(out@, node);
                        }
                        out.push(node);
                        proof {
                            assert(crate::ast::view_nodes(out@) =~= styled_parts(
                                pv.take(k as int + 1),
                                view_attrs(attrs),
                            ));
                        }
                    }
                },
            }
            k += 1;
        }
        proof {
            assert(pv.take(n as int) =~= pv);
        }
        out
    } else {
        let node = styled_leaf_x(text.clone(), attrs);
        let mut out: Vec<ASTNode> = Vec::new();
        proof {
            crate::ast::lemma_view_nodes_push(out@, node);
        }
        out.push(node);
        proof {
            assert(crate::ast::view_nodes(out@) =~= seq![styled_leaf(text@, view_attrs(attrs))]);
        }
        out
    }
}

/// The parser over Delta operation snapshots.
#[derive(Debug)]
pub struct DeltaParser;

/// The combined parser state as a model value.
pub open spec fn st_of(b: GBuilder, buf: Seq<GNode>, in_list: bool, ltype: ListType) -> GDelta {
    GDelta { b, buf, in_list, ltype }
}

impl DeltaParser {
    pub fn new() -> (r: DeltaParser) {
        DeltaParser
    }

    /// Split a text on block `$$` spans and then inline `$` spans.
    pub fn split_math_formulas(&self, text: &str) -> (r: Vec<crate::mathsplit::TextPart>)
        ensures
            crate::mathsplit::view_parts(r@) == split_delta(text@),
    {
        let cs = crate::json::str_to_chars(text);
        crate::mathsplit::split_delta_chars(&cs)
    }

    /// Split a text on inline `$...$` spans alone.
    pub fn split_inline_math_delta(&self, text: &str) -> (r: Vec<crate::mathsplit::TextPart>)
        ensures
            crate::mathsplit::view_parts(r@) == split_inline(text@, false),
    {
        let cs = crate::json::str_to_chars(text);
        crate::mathsplit::split_inline_chars(&cs, false)
    }

    /// Parse a Delta snapshot. Succeeds exactly on a JSON object carrying
    /// an `ops` array, and then returns the document those operations
    /// denote; every malformed operation inside the array is skipped.
    pub fn parse(&self, input: &str) -> (r: Result<RootNode, crate::ParseError>)
        ensures
            ({
                let pj = sp_parse_json(input@);
                match r {
                    Ok(root) => {
                        &&& pj matches Some(j)
                        &&& delta_ops_of(j) matches Some(ops)
                        &&& root@ == delta_result(ops)
                    },
                    Err(e) => {
                        &&& (pj matches Some(j) ==> delta_ops_of(j) is None)
                        &&& e is JsonError
                    },
                }
            }),
    {
        let j = match crate::jsonparse::json_parse_str(input) {
            Some(j) => j,
            None => {
                return Err(crate::ParseError::JsonError(String::from_str("malformed JSON")));
            },
        };
        let ops: &Vec<Json> = match &j {
            Json::Obj(ms) => {
                let key = String::from_str("ops");
                match obj_get_x(ms, &key) {
                    Some(Json::Arr(a)) => a,
                    _ => {
                        return Err(
                            crate::ParseError::JsonError(
                                String::from_str("missing ops array"),
                            ),
                        );
                    },
                }
            },
            _ => {
                return Err(
                    crate::ParseError::JsonError(String::from_str("missing ops array")),
                );
            },
        };
        let ghost ops_v = view_json_arr(ops@);
        let mut b = ASTBuilder::new();
        let mut buf: Vec<ASTNode> = Vec::new();
        let mut in_list: bool = false;
        let mut ltype: ListType = ListType::Bullet;
        let n = ops.len();
        let mut k: usize = 0;
        proof {
            crate::json::lemma_view_json_arr_len(ops@);
            assert(ops_v.take(0) =~= Seq::<GJson>::empty());
            assert(crate::ast::view_nodes(buf@) =~= Seq::<GNode>::empty());
            assert(st_of(b@, crate::ast::view_nodes(buf@), in_list, ltype) =~= delta_fold(
                delta_init(),
                ops_v.take(0),
            ));
        }
        while k < n
            invariant
                k <= n,
                n == ops@.len(),
                ops_v == view_json_arr(ops@),
                ops_v.len() == n,
                st_of(b@, crate::ast::view_nodes(buf@), in_list, ltype) == delta_fold(
                    delta_init(),
                    ops_v.take(k as int),
                ),
            decreases n - k,
        {
            let ghost st_pre = st_of(b@, crate::ast::view_nodes(buf@), in_list, ltype);
            let ghost opv = ops_v[k as int];
            proof {
                crate::json::lemma_view_json_arr_index(ops@, k as int);
                assert(ops_v.take(k as int + 1) =~= ops_v.take(k as int).push(opv));
                lemma_fold_snoc(delta_init(), ops_v.take(k as int), opv);
            }
            self.apply_op(&ops[k], &mut b, &mut buf, &mut in_list, &mut ltype);
            proof {
                let st_now = st_of(b@, crate::ast::view_nodes(buf@), in_list, ltype);
                assert(st_now == delta_step(st_pre, opv));
                assert(st_pre == delta_fold(delta_init(), ops_v.take(k as int)));
                assert(delta_fold(delta_init(), ops_v.take(k as int + 1)) == delta_step(
                    delta_fold(delta_init(), ops_v.take(k as int)),
                    opv,
                ));
            }
            k += 1;
        }
        proof {
            assert(ops_v.take(n as int) =~= ops_v);
            lemma_view_nodes_len_d(buf@);
        }
        if buf.len() > 0 {
            let mut taken: Vec<ASTNode> = Vec::new();
            core::mem::swap(&mut taken, &mut buf);
            b.emit_paragraph(taken);
        }
        if in_list {
            b.end_list();
        }
        let root = b.end_document();
        proof {
            assert(root@ == delta_result(ops_v));
        }
        Ok(root)
    }

    /// Apply one operation to the running state.
    fn apply_op(
        &self,
        op: &Json,
        b: &mut ASTBuilder,
        buf: &mut Vec<ASTNode>,
        in_list: &mut bool,
        ltype: &mut ListType,
    )
        ensures
            st_of(final(b)@, crate::ast::view_nodes(final(buf)@), *final(in_list), *final(ltype))
                == delta_step(
                st_of(old(b)@, crate::ast::view_nodes(old(buf)@), *old(in_list), *old(ltype)),
                op@,
            ),
    {
        let ghost st_pre = st_of(old(b)@, crate::ast::view_nodes(old(buf)@), *old(in_list), *old(
            ltype,
        ));
        let ms = match op {
            Json::Obj(ms) => ms,
            _ => {
                return ;
            },
        };
        let k_insert = String::from_str("insert");
        let insert = match obj_get_x(ms, &k_insert) {
            Some(v) => v,
            None => {
                return ;
            },
        };
        match insert {
            Json::Str(text) => {
                let k_attributes = String::from_str("attributes");
                let attrs: Option<&Vec<(String, Json)>> = match obj_get_x(ms, &k_attributes) {
                    Some(Json::Obj(am)) => Some(am),
                    _ => None,
                };
                proof {
                    assert(view_attrs(attrs) == op_attrs(view_json_obj(ms@)));
                }
                let tc = crate::json::str_to_chars(text.as_str());
                let list_attr: Option<String> = match attrs {
                    Some(am) => attr_str_x(am, "list"),
                    None => None,
                };
                let is_nl = tc.len() == 1 && tc[0] == '\n';
                proof {
                    if is_nl {
                        assert(text@ =~= seq!['\n']);
                    } else {
                        assert(text@ != seq!['\n']) by {
                            if text@ == seq!['\n'] {
                                assert(tc@.len() == 1 && tc@[0] == '\n');
                            }
                        };
                    }
                }
                if is_nl && list_attr.is_some() {
                    let ls = match list_attr {
                        Some(ls) => ls,
                        None => {
                            proof {
                                assert(false);
                            }
                            return ;
                        },
                    };
                    self.do_list_newline(&ls, b, buf, in_list, ltype);
                } else if is_nl {
                    self.do_plain_newline(b, buf, in_list, ltype);
                } else if tc.len() > 0 && tc[0] == '\n' {
                    let rest = crate::jsonparse::copy_range(&tc, 1, tc.len());
                    let rest_s = crate::json::chars_to_string(&rest);
                    proof {
                        assert(rest_s@ =~= text@.drop_first());
                    }
                    if *in_list {
                        let mut taken: Vec<ASTNode> = Vec::new();
                        core::mem::swap(&mut taken, buf);
                        b.add_list_item(taken, None);
                    } else {
                        let mut taken: Vec<ASTNode> = Vec::new();
                        core::mem::swap(&mut taken, buf);
                        b.emit_paragraph(taken);
                    }
                    if rest_s.as_str().is_empty() {
                    } else {
                        let mut styled = styled_text_x(&rest_s, attrs);
                        core::mem::swap(buf, &mut styled);
                    }
                    proof {
                        assert(crate::ast::view_nodes(buf@) =~= (if text@.drop_first().len() > 0 {
                            styled_text(text@.drop_first(), view_attrs(attrs))
                        } else {
                            Seq::<GNode>::empty()
                        }));
                        assert(st_of(b@, crate::ast::view_nodes(buf@), *in_list, *ltype)
                            =~= delta_step(st_pre, op@));
                    }
                } else {
                    let styled = styled_text_x(text, attrs);
                    let ghost pre_buf = buf@;
                    let ghost styled_v = crate::ast::view_nodes(styled@);
                    append_nodes(buf, styled);
                    proof {
                        assert(st_of(b@, crate::ast::view_nodes(buf@), *in_list, *ltype)
                            =~= delta_step(st_pre, op@));
                    }
                }
            },
            Json::Obj(io) => {
                let k_ic = String::from_str("imageContainer");
                let k_img = String::from_str("image");
                let k_mention = String::from_str("mention");
                let k_emoji = String::from_str("emoji");
                let k_formula = String::from_str("formula");
                let has_ic = obj_get_x(io, &k_ic).is_some();
                let has_img = obj_get_x(io, &k_img).is_some();
                if has_ic || has_img {
                    self.do_image(io, b, buf, in_list, ltype);
                } else if obj_get_x(io, &k_mention).is_some() {
                    self.do_mention(io, buf);
                } else if obj_get_x(io, &k_emoji).is_some() {
                    self.do_emoji(io, buf);
                } else {
                    match obj_get_x(io, &k_formula) {
                        Some(Json::Str(f)) => {
                            let fo = f.clone();
                            proof {
                                lemma_view_nodes_len_d(buf@);
                            }
                            if !*in_list && buf.len() > 0 {
                                let mut taken: Vec<ASTNode> = Vec::new();
                                core::mem::swap(&mut taken, buf);
                                b.emit_paragraph(taken);
                                proof {
                                    assert(crate::ast::view_nodes(buf@)
                                        =~= Seq::<GNode>::empty());
                                }
                            }
                            b.add_math(fo, true);
                            proof {
                                assert(st_of(b@, crate::ast::view_nodes(buf@), *in_list, *ltype)
                                    =~= delta_step(st_pre, op@));
                            }
                        },
                        _ => {},
                    }
                }
            },
            _ => {},
        }
    }

    fn do_list_newline(
        &self,
        ls: &String,
        b: &mut ASTBuilder,
        buf: &mut Vec<ASTNode>,
        in_list: &mut bool,
        ltype: &mut ListType,
    )
        ensures
            st_of(final(b)@, crate::ast::view_nodes(final(buf)@), *final(in_list), *final(ltype))
                == step_list_newline(
                st_of(old(b)@, crate::ast::view_nodes(old(buf)@), *old(in_list), *old(ltype)),
                ls@,
            ),
    {
        let ghost st_pre = st_of(old(b)@, crate::ast::view_nodes(old(buf)@), *old(in_list), *old(
            ltype,
        ));
        let c_checked = String::from_str("checked");
        let c_unchecked = String::from_str("unchecked");
        let c_ordered = String::from_str("ordered");
        let checked: Option<bool> = if ls.eq(&c_checked) {
            Some(true)
        } else if ls.eq(&c_unchecked) {
            Some(false)
        } else {
            None
        };
        let ntype: ListType = if checked.is_some() {
            ListType::Bullet
        } else if ls.eq(&c_ordered) {
            ListType::Ordered
        } else {
            ListType::Bullet
        };
        proof {
            assert((ntype, checked) == list_kind(ls@)) by {
                reveal_strlit("checked");
                reveal_strlit("unchecked");
                reveal_strlit("ordered");
                assert("checked"@.len() == 7 && "unchecked"@.len() == 9 && "ordered"@.len() == 7);
                assert("checked"@[0] == 'c' && "ordered"@[0] == 'o');
                assert("checked"@ != "ordered"@);
            };
        }
        if !*in_list || !same_list_type(*ltype, ntype) {
            if *in_list {
                b.end_list();
            }
            *ltype = ntype;
            *in_list = true;
            b.start_list(ntype);
        }
        let mut taken: Vec<ASTNode> = Vec::new();
        core::mem::swap(&mut taken, buf);
        b.add_list_item(taken, checked);
        *in_list = true;
        *ltype = ntype;
        proof {
            assert(buf@ =~= Seq::<ASTNode>::empty());
            assert(crate::ast::view_nodes(buf@) =~= Seq::<GNode>::empty());
            assert(st_of(b@, crate::ast::view_nodes(buf@), *in_list, *ltype) =~= step_list_newline(
                st_pre,
                ls@,
            ));
        }
    }

    fn do_plain_newline(
        &self,
        b: &mut ASTBuilder,
        buf: &mut Vec<ASTNode>,
        in_list: &mut bool,
        ltype: &mut ListType,
    )
        ensures
            st_of(final(b)@, crate::ast::view_nodes(final(buf)@), *final(in_list), *final(ltype))
                == step_plain_newline(
                st_of(old(b)@, crate::ast::view_nodes(old(buf)@), *old(in_list), *old(ltype)),
            ),
    {
        let ghost st_pre = st_of(old(b)@, crate::ast::view_nodes(old(buf)@), *old(in_list), *old(
            ltype,
        ));
        if *in_list {
            if buf.len() > 0 {
                let mut taken: Vec<ASTNode> = Vec::new();
                core::mem::swap(&mut taken, buf);
                proof {
                    assert(crate::ast::view_nodes(taken@) == st_pre.buf);
                    assert(st_pre.buf.len() > 0) by {
                        lemma_view_nodes_len_d(taken@);
                    };
                }
                b.add_list_item(taken, None);
            } else {
                proof {
                    assert(st_pre.buf.len() == 0) by {
                        lemma_view_nodes_len_d(buf@);
                    };
                }
            }
            b.end_list();
            *in_list = false;
        } else {
            let mut taken: Vec<ASTNode> = Vec::new();
            core::mem::swap(&mut taken, buf);
            b.emit_paragraph(taken);
        }
        proof {
            assert(buf@ =~= Seq::<ASTNode>::empty());
            assert(crate::ast::view_nodes(buf@) =~= Seq::<GNode>::empty());
            assert(st_of(b@, crate::ast::view_nodes(buf@), *in_list, *ltype) =~= step_plain_newline(
                st_pre,
            ));
        }
    }

    fn do_image(
        &self,
        io: &Vec<(String, Json)>,
        b: &mut ASTBuilder,
        buf: &mut Vec<ASTNode>,
        in_list: &mut bool,
        ltype: &mut ListType,
    )
        ensures
            st_of(final(b)@, crate::ast::view_nodes(final(buf)@), *final(in_list), *final(ltype))
                == step_image(
                st_of(old(b)@, crate::ast::view_nodes(old(buf)@), *old(in_list), *old(ltype)),
                view_json_obj(io@),
            ),
    {
        let ghost st_pre = st_of(old(b)@, crate::ast::view_nodes(old(buf)@), *old(in_list), *old(
            ltype,
        ));
        proof {
            lemma_view_nodes_len_d(buf@);
        }
        if buf.len() > 0 {
            let mut taken: Vec<ASTNode> = Vec::new();
            core::mem::swap(&mut taken, buf);
            proof {
                assert(crate::ast::view_nodes(taken@) == st_pre.buf);
            }
            if *in_list {
                b.add_list_item(taken, None);
            } else {
                b.emit_paragraph(taken);
            }
        }
        if *in_list {
            b.end_list();
            *in_list = false;
        }
        let k_img = String::from_str("image");
        let k_ic = String::from_str("imageContainer");
        let k_url = String::from_str("url");
        let url: Option<String> = match obj_get_x(io, &k_img) {
            Some(Json::Str(u)) => Some(u.clone()),
            _ => match obj_get_x(io, &k_ic) {
                Some(Json::Obj(ic)) => match obj_get_x(ic, &k_url) {
                    Some(Json::Str(u)) => Some(u.clone()),
                    _ => None,
                },
                _ => None,
            },
        };
        match url {
            Some(u) => {
                if !u.as_str().is_empty() {
                    b.add_image(u, None, None, None);
                }
            },
            None => {},
        }
        proof {
            assert(crate::ast::view_nodes(buf@) =~= Seq::<GNode>::empty());
            assert(st_of(b@, crate::ast::view_nodes(buf@), *in_list, *ltype) =~= step_image(
                st_pre,
                view_json_obj(io@),
            ));
        }
    }

    fn do_mention(&self, io: &Vec<(String, Json)>, buf: &mut Vec<ASTNode>)
        ensures
            crate::ast::view_nodes(final(buf)@) == step_mention(
                st_of(empty_builder(), crate::ast::view_nodes(old(buf)@), false, ListType::Bullet),
                view_json_obj(io@),
            ).buf,
    {
        let ghost st_pre = st_of(empty_builder(), crate::ast::view_nodes(old(buf)@), false,
            ListType::Bullet);
        let k_mention = String::from_str("mention");
        let k_id = String::from_str("id");
        let k_name = String::from_str("name");
        match obj_get_x(io, &k_mention) {
            Some(Json::Obj(mm)) => {
                match obj_get_x(mm, &k_id) {
                    Some(Json::Str(id)) => {
                        let name: Option<String> = match obj_get_x(mm, &k_name) {
                            Some(Json::Str(n)) => Some(n.clone()),
                            Some(Json::Null) => Some(id.clone()),
                            None => Some(id.clone()),
                            _ => None,
                        };
                        match name {
                            Some(n) => {
                                let node = ASTNode::Mention(
                                    crate::ast::MentionNode { id: id.clone(), name: n },
                                );
                                let ghost pre = buf@;
                                proof {
                                    crate::ast::lemma_view_nodes_push(buf@, node);
                                }
                                buf.push(node);
                            },
                            None => {},
                        }
                    },
                    _ => {},
                }
            },
            _ => {},
        }
    }

    fn do_emoji(&self, io: &Vec<(String, Json)>, buf: &mut Vec<ASTNode>)
        ensures
            crate::ast::view_nodes(final(buf)@) == step_emoji(
                st_of(empty_builder(), crate::ast::view_nodes(old(buf)@), false, ListType::Bullet),
                view_json_obj(io@),
            ).buf,
    {
        let k_emoji = String::from_str("emoji");
        let k_content = String::from_str("content");
        match obj_get_x(io, &k_emoji) {
            Some(Json::Obj(em)) => {
                match obj_get_x(em, &k_content) {
                    Some(Json::Str(c)) => {
                        let node = ASTNode::Emoji(crate::ast::EmojiNode { content: c.clone() });
                        proof {
                            crate::ast::lemma_view_nodes_push(buf@, node);
                        }
                        buf.push(node);
                    },
                    _ => {},
                }
            },
            _ => {},
        }
    }
}

/// Whether two list kinds are the same.
fn same_list_type(a: ListType, b: ListType) -> (r: bool)
    ensures
        r == (a == b),
{
    match (a, b) {
        (ListType::Bullet, ListType::Bullet) => true,
        (ListType::Ordered, ListType::Ordered) => true,
        _ => false,
    }
}

/// Move all nodes of `extra` onto the end of `buf`.
fn append_nodes(buf: &mut Vec<ASTNode>, extra: Vec<ASTNode>)
    ensures
        crate::ast::view_nodes(final(buf)@) == crate::ast::view_nodes(old(buf)@)
            + crate::ast::view_nodes(extra@),
{
    let ghost pre = buf@;
    let ghost extra_v = extra@;
    let mut rest = extra;
    proof {
        assert(extra_v.skip(0) =~= extra_v);
        assert(extra_v.take(0) =~= Seq::<ASTNode>::empty());
        assert(pre + Seq::<ASTNode>::empty() =~= pre);
    }
    while rest.len() > 0
        invariant
            rest@.len() <= extra_v.len(),
            rest@ == extra_v.skip(extra_v.len() - rest@.len()),
            buf@ == pre + extra_v.take(extra_v.len() - rest@.len()),
        decreases rest@.len(),
    {
        let ghost done = extra_v.len() - rest@.len();
        let node = rest.remove(0);
        buf.push(node);
        proof {
            assert(extra_v.skip(done)[0] == extra_v[done]);
            assert(node == extra_v[done]);
            assert(rest@ =~= extra_v.skip(done + 1));
            assert(pre + extra_v.take(done + 1) =~= (pre + extra_v.take(done)).push(
                extra_v[done],
            ));
        }
    }
    proof {
        assert(pre + extra_v.take(extra_v.len() as int) =~= pre + extra_v);
        lemma_view_nodes_app(pre, extra_v);
    }
}

proof fn lemma_view_nodes_app(a: Seq<ASTNode>, c: Seq<ASTNode>)
    ensures
        crate::ast::view_nodes(a + c) == crate::ast::view_nodes(a) + crate::ast::view_nodes(c),
    decreases c.len(),
{
    if c.len() == 0 {
        assert(a + c =~= a);
        assert(crate::ast::view_nodes(c) =~= Seq::<GNode>::empty());
        assert(crate::ast::view_nodes(a) + crate::ast::view_nodes(c) =~= crate::ast::view_nodes(
            a,
        ));
    } else {
        lemma_view_nodes_app(a, c.drop_last());
        assert((a + c).drop_last() =~= a + c.drop_last());
        assert((a + c).last() == c.last());
        assert(crate::ast::view_nodes(a + c) == crate::ast::view_nodes(a + c.drop_last()).push(
            c.last()@,
        ));
        crate::ast::lemma_view_nodes_push(Seq::<ASTNode>::empty(), c.last());
        assert(crate::ast::view_nodes(c) == crate::ast::view_nodes(c.drop_last()).push(c.last()@));
        assert(crate::ast::view_nodes(a) + crate::ast::view_nodes(c) =~= (crate::ast::view_nodes(a)
            + crate::ast::view_nodes(c.drop_last())).push(c.last()@));
    }
}

/// The text-leaf invariant over the whole parser state: no empty text leaf
/// anywhere in the builder or the pending buffer.
pub open spec fn b_text_ok(b: GBuilder) -> bool {
    &&& crate::ast::text_nonempty_nodes(b.root)
    &&& (b.para matches Some(p) ==> crate::ast::text_nonempty_nodes(p))
    &&& (b.list matches Some(l) ==> crate::ast::text_nonempty_items(l.1))
    &&& (b.table matches Some(rows) ==> crate::ast::text_nonempty_rows(rows))
    &&& (b.row matches Some(cells) ==> crate::ast::text_nonempty_cells(cells))
}

pub open spec fn st_text_ok(st: GDelta) -> bool {
    b_text_ok(st.b) && crate::ast::text_nonempty_nodes(st.buf)
}

pub(crate) proof fn lemma_ok_flush_para(b: GBuilder)
    requires
        b_text_ok(b),
    ensures
        b_text_ok(flush_para(b)),
{
    match b.para {
        Some(p) => {
            crate::ast::lemma_text_nonempty_push(b.root, GNode::Paragraph { children: p });
        },
        None => {},
    }
}

pub(crate) proof fn lemma_ok_flush_list(b: GBuilder)
    requires
        b_text_ok(b),
    ensures
        b_text_ok(flush_list(b)),
{
    match b.list {
        Some((t, items)) => {
            crate::ast::lemma_text_nonempty_push(b.root, GNode::List { list_type: t, items });
        },
        None => {},
    }
}

pub(crate) proof fn lemma_ok_flush_table(b: GBuilder)
    requires
        b_text_ok(b),
    ensures
        b_text_ok(flush_table(b)),
{
    match b.table {
        Some(rows) => {
            crate::ast::lemma_text_nonempty_push(b.root, GNode::Table { rows });
        },
        None => {},
    }
}

pub(crate) proof fn lemma_ok_with_block(b: GBuilder, n: GNode)
    requires
        b_text_ok(b),
        crate::ast::text_nonempty(n),
    ensures
        b_text_ok(with_block(b, n)),
{
    lemma_ok_flush_para(b);
    crate::ast::lemma_text_nonempty_push(flush_para(b).root, n);
}

/// A styled leaf built from a non-empty run satisfies the invariant.
proof fn lemma_ok_styled_leaf(text: Seq<char>, attrs: Option<Seq<(Seq<char>, GJson)>>)
    requires
        text.len() > 0,
    ensures
        crate::ast::text_nonempty(styled_leaf(text, attrs)),
{
    match attrs {
        None => {},
        Some(am) => {
            if attr_true(am, "code"@) {
            } else {
                let n0 = GNode::Text { content: text };
                assert(crate::ast::text_nonempty(n0));
                let n1 = match attr_str(am, "color"@) {
                    Some(c) => GNode::Color { color: c, children: seq![n0] },
                    None => n0,
                };
                crate::ast::lemma_text_nonempty_singleton(n0);
                assert(crate::ast::text_nonempty(n1));
                let n2 = match attr_str(am, "link"@) {
                    Some(u) => GNode::Link { url: u, children: seq![n1] },
                    None => n1,
                };
                crate::ast::lemma_text_nonempty_singleton(n1);
                assert(crate::ast::text_nonempty(n2));
                let n3 = if attr_true(am, "strike"@) {
                    GNode::Strike { children: seq![n2] }
                } else {
                    n2
                };
                crate::ast::lemma_text_nonempty_singleton(n2);
                assert(crate::ast::text_nonempty(n3));
                let n4 = if attr_true(am, "underline"@) {
                    GNode::Underline { children: seq![n3] }
                } else {
                    n3
                };
                crate::ast::lemma_text_nonempty_singleton(n3);
                assert(crate::ast::text_nonempty(n4));
                let n5 = if attr_true(am, "italic"@) {
                    GNode::Em { children: seq![n4] }
                } else {
                    n4
                };
                crate::ast::lemma_text_nonempty_singleton(n4);
                assert(crate::ast::text_nonempty(n5));
                crate::ast::lemma_text_nonempty_singleton(n5);
            }
        },
    }
}

proof fn lemma_ok_styled_parts(ps: Seq<GPart>, attrs: Option<Seq<(Seq<char>, GJson)>>)
    ensures
        crate::ast::text_nonempty_nodes(styled_parts(ps, attrs)),
    decreases ps,
{
    if ps.len() > 0 {
        lemma_ok_styled_parts(ps.drop_last(), attrs);
        match ps.last() {
            GPart::Math(c, d) => {
                crate::ast::lemma_text_nonempty_concat(
                    styled_parts(ps.drop_last(), attrs),
                    seq![GNode::Math { content: c, display: d }],
                );
                crate::ast::lemma_text_nonempty_singleton(
                    GNode::Math { content: c, display: d },
                );
            },
            GPart::Text(t) => {
                if t.len() > 0 {
                    lemma_ok_styled_leaf(t, attrs);
                    crate::ast::lemma_text_nonempty_concat(
                        styled_parts(ps.drop_last(), attrs),
                        seq![styled_leaf(t, attrs)],
                    );
                    crate::ast::lemma_text_nonempty_singleton(styled_leaf(t, attrs));
                } else {
                    crate::ast::lemma_text_nonempty_concat(
                        styled_parts(ps.drop_last(), attrs),
                        Seq::<GNode>::empty(),
                    );
                }
            },
        }
    }
}

proof fn lemma_ok_styled_text(text: Seq<char>, attrs: Option<Seq<(Seq<char>, GJson)>>)
    ensures
        crate::ast::text_nonempty_nodes(styled_text(text, attrs)),
{
    if text.len() == 0 {
    } else {
        let ps = split_delta(text);
        if ps.len() > 1 || (ps.len() >= 1 && ps[0] is Math) {
            lemma_ok_styled_parts(ps, attrs);
        } else {
            lemma_ok_styled_leaf(text, attrs);
            crate::ast::lemma_text_nonempty_singleton(styled_leaf(text, attrs));
        }
    }
}

/// One step keeps the invariant: no operation can introduce an empty leaf.
proof fn lemma_ok_step(st: GDelta, op: GJson)
    requires
        st_text_ok(st),
    ensures
        st_text_ok(delta_step(st, op)),
{
    match op {
        GJson::Obj(ms) => match obj_get(ms, "insert"@) {
            Some(GJson::Str(text)) => {
                let attrs = op_attrs(ms);
                let list_attr = match attrs {
                    Some(am) => attr_str(am, "list"@),
                    None => None,
                };
                if text == seq!['\n'] && list_attr is Some {
                    lemma_ok_list_newline(st, list_attr->0);
                } else if text == seq!['\n'] {
                    lemma_ok_plain_newline(st);
                } else if text.len() > 0 && text[0] == '\n' {
                    lemma_ok_item_or_para(st);
                    lemma_ok_styled_text(text.drop_first(), attrs);
                } else {
                    lemma_ok_styled_text(text, attrs);
                    crate::ast::lemma_text_nonempty_concat(st.buf, styled_text(text, attrs));
                }
            },
            Some(GJson::Obj(io)) => {
                if obj_get(io, "imageContainer"@) is Some || obj_get(io, "image"@) is Some {
                    lemma_ok_image(st, io);
                } else if obj_get(io, "mention"@) is Some {
                    lemma_ok_mention(st, io);
                } else if obj_get(io, "emoji"@) is Some {
                    lemma_ok_emoji(st, io);
                } else {
                    match obj_get(io, "formula"@) {
                        Some(GJson::Str(f)) => {
                            if !st.in_list && st.buf.len() > 0 {
                                lemma_ok_with_block(st.b, GNode::Paragraph { children: st.buf });
                            }
                            let b1 = if !st.in_list && st.buf.len() > 0 {
                                emit_para(st.b, st.buf)
                            } else {
                                st.b
                            };
                            lemma_ok_with_block(b1, GNode::Math { content: f, display: true });
                        },
                        _ => {},
                    }
                }
            },
            _ => {},
        },
        _ => {},
    }
}

proof fn lemma_ok_list_newline(st: GDelta, ls: Seq<char>)
    requires
        st_text_ok(st),
    ensures
        st_text_ok(step_list_newline(st, ls)),
{
    let (ntype, checked) = list_kind(ls);
    let b1 = if !st.in_list || st.ltype != ntype {
        let b0 = if st.in_list {
            flush_list(st.b)
        } else {
            st.b
        };
        GBuilder { list: Some((ntype, Seq::empty())), ..flush_list(flush_para(b0)) }
    } else {
        st.b
    };
    if !st.in_list || st.ltype != ntype {
        if st.in_list {
            lemma_ok_flush_list(st.b);
        }
        let b0 = if st.in_list {
            flush_list(st.b)
        } else {
            st.b
        };
        lemma_ok_flush_para(b0);
        lemma_ok_flush_list(flush_para(b0));
    }
    assert(b_text_ok(b1));
    let item = GListItem { children: st.buf, checked };
    match b1.list {
        Some((t, items)) => {
            crate::ast::lemma_text_nonempty_items_push(items, item);
        },
        None => {
            lemma_ok_flush_para(b1);
            lemma_ok_flush_list(flush_para(b1));
            crate::ast::lemma_text_nonempty_items_singleton(item);
        },
    }
}

proof fn lemma_ok_plain_newline(st: GDelta)
    requires
        st_text_ok(st),
    ensures
        st_text_ok(step_plain_newline(st)),
{
    if st.in_list {
        let item = GListItem { children: st.buf, checked: None };
        if st.buf.len() > 0 {
            match st.b.list {
                Some((t, items)) => {
                    crate::ast::lemma_text_nonempty_items_push(items, item);
                },
                None => {
                    lemma_ok_flush_para(st.b);
                    lemma_ok_flush_list(flush_para(st.b));
                    crate::ast::lemma_text_nonempty_items_singleton(item);
                },
            }
        }
        let b1 = if st.buf.len() > 0 {
            match st.b.list {
                Some((t, items)) => GBuilder { list: Some((t, items.push(item))), ..st.b },
                None => GBuilder {
                    list: Some((ListType::Bullet, seq![item])),
                    ..flush_list(flush_para(st.b))
                },
            }
        } else {
            st.b
        };
        assert(b_text_ok(b1));
        lemma_ok_flush_list(b1);
    } else {
        lemma_ok_with_block(st.b, GNode::Paragraph { children: st.buf });
    }
}

/// The pending line flushed as an item (inside a list) or a paragraph.
proof fn lemma_ok_item_or_para(st: GDelta)
    requires
        st_text_ok(st),
    ensures
        st.in_list ==> b_text_ok(
            match st.b.list {
                Some((t, items)) => GBuilder {
                    list: Some(
                        (t, items.push(GListItem { children: st.buf, checked: None })),
                    ),
                    ..st.b
                },
                None => GBuilder {
                    list: Some(
                        (
                            ListType::Bullet,
                            seq![GListItem { children: st.buf, checked: None }],
                        ),
                    ),
                    ..flush_list(flush_para(st.b))
                },
            },
        ),
        !st.in_list ==> b_text_ok(emit_para(st.b, st.buf)),
{
    let item = GListItem { children: st.buf, checked: None };
    match st.b.list {
        Some((t, items)) => {
            crate::ast::lemma_text_nonempty_items_push(items, item);
        },
        None => {
            lemma_ok_flush_para(st.b);
            lemma_ok_flush_list(flush_para(st.b));
            crate::ast::lemma_text_nonempty_items_singleton(item);
        },
    }
    lemma_ok_with_block(st.b, GNode::Paragraph { children: st.buf });
}

proof fn lemma_ok_image(st: GDelta, io: Seq<(Seq<char>, GJson)>)
    requires
        st_text_ok(st),
    ensures
        st_text_ok(step_image(st, io)),
{
    if st.buf.len() > 0 {
        lemma_ok_item_or_para(st);
    }
    let b1 = if st.buf.len() > 0 {
        if st.in_list {
            let item = GListItem { children: st.buf, checked: None };
            match st.b.list {
                Some((t, items)) => GBuilder { list: Some((t, items.push(item))), ..st.b },
                None => GBuilder {
                    list: Some((ListType::Bullet, seq![item])),
                    ..flush_list(flush_para(st.b))
                },
            }
        } else {
            emit_para(st.b, st.buf)
        }
    } else {
        st.b
    };
    assert(b_text_ok(b1));
    let b2 = if st.in_list {
        flush_list(b1)
    } else {
        b1
    };
    if st.in_list {
        lemma_ok_flush_list(b1);
    }
    assert(b_text_ok(b2));
    let url = match obj_get(io, "image"@) {
        Some(GJson::Str(u)) => Some(u),
        _ => match obj_get(io, "imageContainer"@) {
            Some(GJson::Obj(ic)) => match obj_get(ic, "url"@) {
                Some(GJson::Str(u)) => Some(u),
                _ => None,
            },
            _ => None,
        },
    };
    match url {
        Some(u) => {
            if u.len() > 0 {
                lemma_ok_with_block(
                    b2,
                    GNode::Image { url: u, width: None, height: None, alt: None },
                );
            }
        },
        None => {},
    }
}

proof fn lemma_ok_mention(st: GDelta, io: Seq<(Seq<char>, GJson)>)
    requires
        st_text_ok(st),
    ensures
        st_text_ok(step_mention(st, io)),
{
    let st2 = step_mention(st, io);
    if st2 != st {
        crate::ast::lemma_text_nonempty_push(st.buf, st2.buf.last());
        assert(st2.buf == st.buf.push(st2.buf.last()));
    }
}

proof fn lemma_ok_emoji(st: GDelta, io: Seq<(Seq<char>, GJson)>)
    requires
        st_text_ok(st),
    ensures
        st_text_ok(step_emoji(st, io)),
{
    let st2 = step_emoji(st, io);
    if st2 != st {
        crate::ast::lemma_text_nonempty_push(st.buf, st2.buf.last());
        assert(st2.buf == st.buf.push(st2.buf.last()));
    }
}

proof fn lemma_ok_fold(st: GDelta, ops: Seq<GJson>)
    requires
        st_text_ok(st),
    ensures
        st_text_ok(delta_fold(st, ops)),
    decreases ops.len(),
{
    if ops.len() > 0 {
        lemma_ok_step(st, ops[0]);
        lemma_ok_fold(delta_step(st, ops[0]), ops.drop_first());
    }
}

/// Text leaves are never empty after insertion: the tree a Delta snapshot
/// parses to holds no empty text leaf, whatever the operations were.
pub proof fn lemma_delta_text_nonempty(ops: Seq<GJson>)
    ensures
        crate::ast::text_nonempty_nodes(delta_result(ops)),
{
    assert(st_text_ok(delta_init()));
    lemma_ok_fold(delta_init(), ops);
    let st = delta_fold(delta_init(), ops);
    let b1 = if st.buf.len() > 0 {
        emit_para(st.b, st.buf)
    } else {
        st.b
    };
    if st.buf.len() > 0 {
        lemma_ok_with_block(st.b, GNode::Paragraph { children: st.buf });
    }
    assert(b_text_ok(b1));
    let b2 = if st.in_list {
        flush_list(b1)
    } else {
        b1
    };
    if st.in_list {
        lemma_ok_flush_list(b1);
    }
    lemma_ok_flush_para(b2);
    lemma_ok_flush_list(flush_para(b2));
    lemma_ok_flush_table(flush_list(flush_para(b2)));
}

} // verus!
