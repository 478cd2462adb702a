//! The tagged-JSON encoding of the document tree: a mathematical encoder
//! and decoder over the ghost models, with the proof that decoding an
//! encoded tree gives it back.
use vstd::prelude::*;

use crate::ast::{ASTNode, GCell, GListItem, GNode, GRow, ListType, TextAlign};
use crate::json::{GJson, Json, view_json_obj, view_json_arr};
use crate::numstr::{sp_parse_u64, u64_digits};

verus! {

broadcast use vstd::std_specs::vec::group_vec_axioms, vstd::seq::group_seq_axioms;

pub open spec fn enc_opt_str(o: Option<Seq<char>>) -> GJson {
    match o {
        None => GJson::Null,
        Some(s) => GJson::Str(s),
    }
}

pub open spec fn enc_opt_u64(o: Option<u64>) -> GJson {
    match o {
        None => GJson::Null,
        Some(n) => GJson::Num(u64_digits(n as nat)),
    }
}

pub open spec fn enc_opt_bool(o: Option<bool>) -> GJson {
    match o {
        None => GJson::Null,
        Some(b) => GJson::Bool(b),
    }
}

pub open spec fn enc_align(o: Option<TextAlign>) -> GJson {
    match o {
        None => GJson::Null,
        Some(TextAlign::Left) => GJson::Str("left"@),
        Some(TextAlign::Center) => GJson::Str("center"@),
        Some(TextAlign::Right) => GJson::Str("right"@),
    }
}

pub open spec fn enc_list_type(t: ListType) -> GJson {
    match t {
        ListType::Bullet => GJson::Str("bullet"@),
        ListType::Ordered => GJson::Str("ordered"@),
    }
}

pub open spec fn enc_meta(m: Seq<(Seq<char>, Seq<char>)>) -> Seq<(Seq<char>, GJson)>
    decreases m,
{
    if m.len() == 0 {
        Seq::empty()
    } else {
        enc_meta(m.drop_last()).push((m.last().0, GJson::Str(m.last().1)))
    }
}

/// The members of a bare (untagged) list-item object.
pub open spec fn enc_item_fields(it: GListItem) -> Seq<(Seq<char>, GJson)>
    decreases it,
{
    seq![
        ("children"@, GJson::Arr(enc_nodes(it.children))),
        ("checked"@, enc_opt_bool(it.checked)),
    ]
}

/// The members of a bare (untagged) table-cell object.
pub open spec fn enc_cell_fields(c: GCell) -> Seq<(Seq<char>, GJson)>
    decreases c,
{
    seq![("children"@, GJson::Arr(enc_nodes(c.children))), ("align"@, enc_align(c.align))]
}

/// The members of a bare (untagged) table-row object.
pub open spec fn enc_row_fields(r: GRow) -> Seq<(Seq<char>, GJson)>
    decreases r,
{
    seq![("cells"@, GJson::Arr(enc_cells(r.cells)))]
}

pub open spec fn enc_nodes(s: Seq<GNode>) -> Seq<GJson>
    decreases s,
{
    if s.len() == 0 {
        Seq::empty()
    } else {
        enc_nodes(s.drop_last()).push(enc_node(s.last()))
    }
}

pub open spec fn enc_items(s: Seq<GListItem>) -> Seq<GJson>
    decreases s,
{
    if s.len() == 0 {
        Seq::empty()
    } else {
        enc_items(s.drop_last()).push(GJson::Obj(enc_item_fields(s.last())))
    }
}

pub open spec fn enc_rows(s: Seq<GRow>) -> Seq<GJson>
    decreases s,
{
    if s.len() == 0 {
        Seq::empty()
    } else {
        enc_rows(s.drop_last()).push(GJson::Obj(enc_row_fields(s.last())))
    }
}

pub open spec fn enc_cells(s: Seq<GCell>) -> Seq<GJson>
    decreases s,
{
    if s.len() == 0 {
        Seq::empty()
    } else {
        enc_cells(s.drop_last()).push(GJson::Obj(enc_cell_fields(s.last())))
    }
}

/// The tagged JSON object that one document node encodes to: a `type`
/// discriminator member followed by that variant's own fields.
pub open spec fn enc_node(g: GNode) -> GJson
    decreases g,
{
    match g {
        GNode::Root { children } => GJson::Obj(
            seq![
                ("type"@, GJson::Str("root"@)),
                ("children"@, GJson::Arr(enc_nodes(children))),
            ],
        ),
        GNode::Paragraph { children } => GJson::Obj(
            seq![
                ("type"@, GJson::Str("paragraph"@)),
                ("children"@, GJson::Arr(enc_nodes(children))),
            ],
        ),
        GNode::Heading { level, children } => GJson::Obj(
            seq![
                ("type"@, GJson::Str("heading"@)),
                ("level"@, GJson::Num(u64_digits(level as nat))),
                ("children"@, GJson::Arr(enc_nodes(children))),
            ],
        ),
        GNode::Text { content } => GJson::Obj(
            seq![("type"@, GJson::Str("text"@)), ("content"@, GJson::Str(content))],
        ),
        GNode::Strong { children } => GJson::Obj(
            seq![
                ("type"@, GJson::Str("strong"@)),
                ("children"@, GJson::Arr(enc_nodes(children))),
            ],
        ),
        GNode::Em { children } => GJson::Obj(
            seq![("type"@, GJson::Str("em"@)), ("children"@, GJson::Arr(enc_nodes(children)))],
        ),
        GNode::Underline { children } => GJson::Obj(
            seq![
                ("type"@, GJson::Str("underline"@)),
                ("children"@, GJson::Arr(enc_nodes(children))),
            ],
        ),
        GNode::Strike { children } => GJson::Obj(
            seq![
                ("type"@, GJson::Str("strike"@)),
                ("children"@, GJson::Arr(enc_nodes(children))),
            ],
        ),
        GNode::Color { color, children } => GJson::Obj(
            seq![
                ("type"@, GJson::Str("color"@)),
                ("color"@, GJson::Str(color)),
                ("children"@, GJson::Arr(enc_nodes(children))),
            ],
        ),
        GNode::Code { content } => GJson::Obj(
            seq![("type"@, GJson::Str("code"@)), ("content"@, GJson::Str(content))],
        ),
        GNode::CodeBlock { language, content } => GJson::Obj(
            seq![
                ("type"@, GJson::Str("codeBlock"@)),
                ("language"@, enc_opt_str(language)),
                ("content"@, GJson::Str(content)),
            ],
        ),
        GNode::Link { url, children } => GJson::Obj(
            seq![
                ("type"@, GJson::Str("link"@)),
                ("url"@, GJson::Str(url)),
                ("children"@, GJson::Arr(enc_nodes(children))),
            ],
        ),
        GNode::Image { url, width, height, alt } => GJson::Obj(
            seq![
                ("type"@, GJson::Str("image"@)),
                ("url"@, GJson::Str(url)),
                ("width"@, enc_opt_u64(width)),
                ("height"@, enc_opt_u64(height)),
                ("alt"@, enc_opt_str(alt)),
            ],
        ),
        GNode::List { list_type, items } => GJson::Obj(
            seq![
                ("type"@, GJson::Str("list"@)),
                ("listType"@, enc_list_type(list_type)),
                ("items"@, GJson::Arr(enc_items(items))),
            ],
        ),
        GNode::ListItem { item } => GJson::Obj(
            seq![("type"@, GJson::Str("listItem"@))] + enc_item_fields(item),
        ),
        GNode::Table { rows } => GJson::Obj(
            seq![("type"@, GJson::Str("table"@)), ("rows"@, GJson::Arr(enc_rows(rows)))],
        ),
        GNode::TableRow { row } => GJson::Obj(
            seq![("type"@, GJson::Str("tableRow"@))] + enc_row_fields(row),
        ),
        GNode::TableCell { cell } => GJson::Obj(
            seq![("type"@, GJson::Str("tableCell"@))] + enc_cell_fields(cell),
        ),
        GNode::Math { content, display } => GJson::Obj(
            seq![
                ("type"@, GJson::Str("math"@)),
                ("content"@, GJson::Str(content)),
                ("display"@, GJson::Bool(display)),
            ],
        ),
        GNode::Mermaid { content } => GJson::Obj(
            seq![("type"@, GJson::Str("mermaid"@)), ("content"@, GJson::Str(content))],
        ),
        GNode::Card { subtype, content, metadata } => GJson::Obj(
            seq![
                ("type"@, GJson::Str("card"@)),
                ("subtype"@, GJson::Str(subtype)),
                ("content"@, GJson::Str(content)),
                ("metadata"@, GJson::Obj(enc_meta(metadata))),
            ],
        ),
        GNode::Mention { id, name } => GJson::Obj(
            seq![
                ("type"@, GJson::Str("mention"@)),
                ("id"@, GJson::Str(id)),
                ("name"@, GJson::Str(name)),
            ],
        ),
        GNode::Emoji { content } => GJson::Obj(
            seq![("type"@, GJson::Str("emoji"@)), ("content"@, GJson::Str(content))],
        ),
        GNode::HorizontalRule => GJson::Obj(seq![("type"@, GJson::Str("horizontalRule"@))]),
        GNode::Blockquote { children } => GJson::Obj(
            seq![
                ("type"@, GJson::Str("blockquote"@)),
                ("children"@, GJson::Arr(enc_nodes(children))),
            ],
        ),
    }
}

/// The first member of an object with the given key.
pub open spec fn obj_get(ms: Seq<(Seq<char>, GJson)>, k: Seq<char>) -> Option<GJson>
    decreases ms,
{
    if ms.len() == 0 {
        None
    } else if ms[0].0 == k {
        Some(ms[0].1)
    } else {
        obj_get(ms.drop_first(), k)
    }
}

/// Whatever `obj_get` returns came out of the member list, so it is
/// structurally smaller.
pub proof fn lemma_obj_get_decreases(ms: Seq<(Seq<char>, GJson)>, k: Seq<char>)
    ensures
        obj_get(ms, k) matches Some(v) ==> decreases_to!(ms => v),
    decreases ms.len(),
{
    if ms.len() > 0 {
        if ms[0].0 == k {
            assert(decreases_to!(ms => ms[0]));
            assert(decreases_to!(ms[0] => ms[0].1));
        } else {
            lemma_obj_get_decreases(ms.drop_first(), k);
            assert(decreases_to!(ms => ms.drop_first()));
        }
    }
}

pub open spec fn dec_str(j: GJson) -> Option<Seq<char>> {
    match j {
        GJson::Str(s) => Some(s),
        _ => None,
    }
}

pub open spec fn dec_bool(j: GJson) -> Option<bool> {
    match j {
        GJson::Bool(b) => Some(b),
        _ => None,
    }
}

pub open spec fn dec_opt_str(j: GJson) -> Option<Option<Seq<char>>> {
    match j {
        GJson::Null => Some(None),
        GJson::Str(s) => Some(Some(s)),
        _ => None,
    }
}

pub open spec fn dec_opt_bool(j: GJson) -> Option<Option<bool>> {
    match j {
        GJson::Null => Some(None),
        GJson::Bool(b) => Some(Some(b)),
        _ => None,
    }
}

pub open spec fn dec_opt_u64(j: GJson) -> Option<Option<u64>> {
    match j {
        GJson::Null => Some(None),
        GJson::Num(s) => match sp_parse_u64(s) {
            Some(v) => Some(Some(v)),
            None => None,
        },
        _ => None,
    }
}

pub open spec fn dec_level(j: GJson) -> Option<u8> {
    match j {
        GJson::Num(s) => match sp_parse_u64(s) {
            Some(v) => if v <= 255 {
                Some(v as u8)
            } else {
                None
            },
            None => None,
        },
        _ => None,
    }
}

pub open spec fn dec_align(j: GJson) -> Option<Option<TextAlign>> {
    match j {
        GJson::Null => Some(None),
        GJson::Str(s) => if s == "left"@ {
            Some(Some(TextAlign::Left))
        } else if s == "center"@ {
            Some(Some(TextAlign::Center))
        } else if s == "right"@ {
            Some(Some(TextAlign::Right))
        } else {
            None
        },
        _ => None,
    }
}

pub open spec fn dec_list_type(j: GJson) -> Option<ListType> {
    match j {
        GJson::Str(s) => if s == "bullet"@ {
            Some(ListType::Bullet)
        } else if s == "ordered"@ {
            Some(ListType::Ordered)
        } else {
            None
        },
        _ => None,
    }
}

pub open spec fn dec_meta(ms: Seq<(Seq<char>, GJson)>) -> Option<Seq<(Seq<char>, Seq<char>)>>
    decreases ms, 0int,
{
    if ms.len() == 0 {
        Some(Seq::empty())
    } else {
        match (dec_meta(ms.drop_last()), dec_str(ms.last().1)) {
            (Some(init), Some(v)) => Some(init.push((ms.last().0, v))),
            _ => None,
        }
    }
}

pub open spec fn dec_nodes(s: Seq<GJson>) -> Option<Seq<GNode>>
    decreases s, 0int,
{
    if s.len() == 0 {
        Some(Seq::empty())
    } else {
        match (dec_nodes(s.drop_last()), dec_node(s.last())) {
            (Some(init), Some(n)) => Some(init.push(n)),
            _ => None,
        }
    }
}

pub open spec fn dec_items(s: Seq<GJson>) -> Option<Seq<GListItem>>
    decreases s, 0int,
{
    if s.len() == 0 {
        Some(Seq::empty())
    } else {
        match (dec_items(s.drop_last()), dec_item_obj(s.last())) {
            (Some(init), Some(n)) => Some(init.push(n)),
            _ => None,
        }
    }
}

pub open spec fn dec_rows(s: Seq<GJson>) -> Option<Seq<GRow>>
    decreases s, 0int,
{
    if s.len() == 0 {
        Some(Seq::empty())
    } else {
        match (dec_rows(s.drop_last()), dec_row_obj(s.last())) {
            (Some(init), Some(n)) => Some(init.push(n)),
            _ => None,
        }
    }
}

pub open spec fn dec_cells(s: Seq<GJson>) -> Option<Seq<GCell>>
    decreases s, 0int,
{
    if s.len() == 0 {
        Some(Seq::empty())
    } else {
        match (dec_cells(s.drop_last()), dec_cell_obj(s.last())) {
            (Some(init), Some(n)) => Some(init.push(n)),
            _ => None,
        }
    }
}

/// Decode a bare list-item object.
pub open spec fn dec_item_obj(j: GJson) -> Option<GListItem>
    decreases j, 0int,
    via dec_item_obj_decreases
{
    match j {
        GJson::Obj(ms) => match (obj_get(ms, "children"@), obj_get(ms, "checked"@)) {
            (Some(GJson::Arr(cs)), Some(cj)) => match (dec_nodes(cs), dec_opt_bool(cj)) {
                (Some(children), Some(checked)) => Some(GListItem { children, checked }),
                _ => None,
            },
            _ => None,
        },
        _ => None,
    }
}

#[via_fn]
proof fn dec_item_obj_decreases(j: GJson) {
    match j {
        GJson::Obj(ms) => {
            lemma_obj_get_decreases(ms, "children"@);
        },
        _ => {},
    }
}

/// Decode a bare table-cell object.
pub open spec fn dec_cell_obj(j: GJson) -> Option<GCell>
    decreases j, 0int,
    via dec_cell_obj_decreases
{
    match j {
        GJson::Obj(ms) => match (obj_get(ms, "children"@), obj_get(ms, "align"@)) {
            (Some(GJson::Arr(cs)), Some(aj)) => match (dec_nodes(cs), dec_align(aj)) {
                (Some(children), Some(align)) => Some(GCell { children, align }),
                _ => None,
            },
            _ => None,
        },
        _ => None,
    }
}

#[via_fn]
proof fn dec_cell_obj_decreases(j: GJson) {
    match j {
        GJson::Obj(ms) => {
            lemma_obj_get_decreases(ms, "children"@);
        },
        _ => {},
    }
}

/// Decode a bare table-row object.
pub open spec fn dec_row_obj(j: GJson) -> Option<GRow>
    decreases j, 0int,
    via dec_row_obj_decreases
{
    match j {
        GJson::Obj(ms) => match obj_get(ms, "cells"@) {
            Some(GJson::Arr(cs)) => match dec_cells(cs) {
                Some(cells) => Some(GRow { cells }),
                None => None,
            },
            _ => None,
        },
        _ => None,
    }
}

#[via_fn]
proof fn dec_row_obj_decreases(j: GJson) {
    match j {
        GJson::Obj(ms) => {
            lemma_obj_get_decreases(ms, "cells"@);
        },
        _ => {},
    }
}

/// Decode the children array member of a tagged object.
pub open spec fn dec_children(ms: Seq<(Seq<char>, GJson)>) -> Option<Seq<GNode>>
    decreases ms, 0int,
    via dec_children_decreases
{
    match obj_get(ms, "children"@) {
        Some(GJson::Arr(cs)) => dec_nodes(cs),
        _ => None,
    }
}

#[via_fn]
proof fn dec_children_decreases(ms: Seq<(Seq<char>, GJson)>) {
    lemma_obj_get_decreases(ms, "children"@);
}

/// Decode one tagged document node.
pub open spec fn dec_node(j: GJson) -> Option<GNode>
    decreases j, 1int,
    via dec_node_decreases
{
    match j {
        GJson::Obj(ms) => match obj_get(ms, "type"@) {
            Some(GJson::Str(tag)) => {
                if tag == "root"@ {
                    match dec_children(ms) {
                        Some(children) => Some(GNode::Root { children }),
                        None => None,
                    }
                } else if tag == "paragraph"@ {
                    match dec_children(ms) {
                        Some(children) => Some(GNode::Paragraph { children }),
                        None => None,
                    }
                } else if tag == "heading"@ {
                    match (obj_get(ms, "level"@), dec_children(ms)) {
                        (Some(lj), Some(children)) => match dec_level(lj) {
                            Some(level) => Some(GNode::Heading { level, children }),
                            None => None,
                        },
                        _ => None,
                    }
                } else if tag == "text"@ {
                    match obj_get(ms, "content"@) {
                        Some(GJson::Str(content)) => Some(GNode::Text { content }),
                        _ => None,
                    }
                } else if tag == "strong"@ {
                    match dec_children(ms) {
                        Some(children) => Some(GNode::Strong { children }),
                        None => None,
                    }
                } else if tag == "em"@ {
                    match dec_children(ms) {
                        Some(children) => Some(GNode::Em { children }),
                        None => None,
                    }
                } else if tag == "underline"@ {
                    match dec_children(ms) {
                        Some(children) => Some(GNode::Underline { children }),
                        None => None,
                    }
                } else if tag == "strike"@ {
                    match dec_children(ms) {
                        Some(children) => Some(GNode::Strike { children }),
                        None => None,
                    }
                } else if tag == "color"@ {
                    match (obj_get(ms, "color"@), dec_children(ms)) {
                        (Some(GJson::Str(color)), Some(children)) => Some(
                            GNode::Color { color, children },
                        ),
                        _ => None,
                    }
                } else if tag == "code"@ {
                    match obj_get(ms, "content"@) {
                        Some(GJson::Str(content)) => Some(GNode::Code { content }),
                        _ => None,
                    }
                } else if tag == "codeBlock"@ {
                    match (obj_get(ms, "language"@), obj_get(ms, "content"@)) {
                        (Some(lj), Some(GJson::Str(content))) => match dec_opt_str(lj) {
                            Some(language) => Some(GNode::CodeBlock { language, content }),
                            None => None,
                        },
                        _ => None,
                    }
                } else if tag == "link"@ {
                    match (obj_get(ms, "url"@), dec_children(ms)) {
                        (Some(GJson::Str(url)), Some(children)) => Some(
                            GNode::Link { url, children },
                        ),
                        _ => None,
                    }
                } else if tag == "image"@ {
                    match (
                        obj_get(ms, "url"@),
                        obj_get(ms, "width"@),
                        obj_get(ms, "height"@),
                        obj_get(ms, "alt"@),
                    ) {
                        (Some(GJson::Str(url)), Some(wj), Some(hj), Some(aj)) => match (
                            dec_opt_u64(wj),
                            dec_opt_u64(hj),
                            dec_opt_str(aj),
                        ) {
                            (Some(width), Some(height), Some(alt)) => Some(
                                GNode::Image { url, width, height, alt },
                            ),
                            _ => None,
                        },
                        _ => None,
                    }
                } else if tag == "list"@ {
                    match (obj_get(ms, "listType"@), obj_get(ms, "items"@)) {
                        (Some(tj), Some(GJson::Arr(is))) => match (dec_list_type(tj), dec_items(
                            is,
                        )) {
                            (Some(list_type), Some(items)) => Some(
                                GNode::List { list_type, items },
                            ),
                            _ => None,
                        },
                        _ => None,
                    }
                } else if tag == "listItem"@ {
                    match dec_item_obj(j) {
                        Some(item) => Some(GNode::ListItem { item }),
                        None => None,
                    }
                } else if tag == "table"@ {
                    match obj_get(ms, "rows"@) {
                        Some(GJson::Arr(rs)) => match dec_rows(rs) {
                            Some(rows) => Some(GNode::Table { rows }),
                            None => None,
                        },
                        _ => None,
                    }
                } else if tag == "tableRow"@ {
                    match dec_row_obj(j) {
                        Some(row) => Some(GNode::TableRow { row }),
                        None => None,
                    }
                } else if tag == "tableCell"@ {
                    match dec_cell_obj(j) {
                        Some(cell) => Some(GNode::TableCell { cell }),
                        None => None,
                    }
                } else if tag == "math"@ {
                    match (obj_get(ms, "content"@), obj_get(ms, "display"@)) {
                        (Some(GJson::Str(content)), Some(dj)) => match dec_bool(dj) {
                            Some(display) => Some(GNode::Math { content, display }),
                            None => None,
                        },
                        _ => None,
                    }
                } else if tag == "mermaid"@ {
                    match obj_get(ms, "content"@) {
                        Some(GJson::Str(content)) => Some(GNode::Mermaid { content }),
                        _ => None,
                    }
                } else if tag == "card"@ {
                    match (obj_get(ms, "subtype"@), obj_get(ms, "content"@), obj_get(
                        ms,
                        "metadata"@,
                    )) {
                        (Some(GJson::Str(subtype)), Some(GJson::Str(content)), Some(
                            GJson::Obj(mm),
                        )) => match dec_meta(mm) {
                            Some(metadata) => Some(GNode::Card { subtype, content, metadata }),
                            None => None,
                        },
                        _ => None,
                    }
                } else if tag == "mention"@ {
                    match (obj_get(ms, "id"@), obj_get(ms, "name"@)) {
                        (Some(GJson::Str(id)), Some(GJson::Str(name))) => Some(
                            GNode::Mention { id, name },
                        ),
                        _ => None,
                    }
                } else if tag == "emoji"@ {
                    match obj_get(ms, "content"@) {
                        Some(GJson::Str(content)) => Some(GNode::Emoji { content }),
                        _ => None,
                    }
                } else if tag == "horizontalRule"@ {
                    Some(GNode::HorizontalRule)
                } else if tag == "blockquote"@ {
                    match dec_children(ms) {
                        Some(children) => Some(GNode::Blockquote { children }),
                        None => None,
                    }
                } else {
                    None
                }
            },
            _ => None,
        },
        _ => None,
    }
}

#[via_fn]
proof fn dec_node_decreases(j: GJson) {
    match j {
        GJson::Obj(ms) => {
            lemma_obj_get_decreases(ms, "items"@);
            lemma_obj_get_decreases(ms, "rows"@);
            lemma_obj_get_decreases(ms, "metadata"@);
        },
        _ => {},
    }
}

proof fn lemma_obj_skip(ms: Seq<(Seq<char>, GJson)>, k: Seq<char>)
    requires
        ms.len() > 0,
        ms[0].0 != k,
    ensures
        obj_get(ms, k) == obj_get(ms.drop_first(), k),
{
}

proof fn lemma_obj_get_at(ms: Seq<(Seq<char>, GJson)>, i: int, k: Seq<char>)
    requires
        0 <= i < ms.len() <= 5,
        ms[i].0 == k,
        i >= 1 ==> ms[0].0 != k,
        i >= 2 ==> ms[1].0 != k,
        i >= 3 ==> ms[2].0 != k,
        i >= 4 ==> ms[3].0 != k,
    ensures
        obj_get(ms, k) == Some(ms[i].1),
    decreases i,
{
    if i == 0 {
    } else {
        lemma_obj_skip(ms, k);
        assert(ms.drop_first()[i - 1] == ms[i]);
        assert(i - 1 >= 1 ==> ms.drop_first()[0] == ms[1]);
        assert(i - 1 >= 2 ==> ms.drop_first()[1] == ms[2]);
        assert(i - 1 >= 3 ==> ms.drop_first()[2] == ms[3]);
        lemma_obj_get_at(ms.drop_first(), i - 1, k);
    }
}

/// Decoding an encoded bare list item yields it back.
proof fn lemma_codec_item(it: GListItem)
    ensures
        dec_item_obj(GJson::Obj(enc_item_fields(it))) == Some(it),
    decreases it, 1int,
{
    let ms = enc_item_fields(it);
    reveal_strlit("children");
    reveal_strlit("checked");
    assert(ms[0].0 == "children"@);
    lemma_obj_get_at(ms, 0, "children"@);
    assert(ms[1].0 == "checked"@);
    lemma_obj_get_at(ms, 1, "checked"@);
    lemma_codec_nodes(it.children);
}

/// Decoding an encoded bare table cell yields it back.
proof fn lemma_codec_cell(c: GCell)
    ensures
        dec_cell_obj(GJson::Obj(enc_cell_fields(c))) == Some(c),
    decreases c, 1int,
{
    let ms = enc_cell_fields(c);
    reveal_strlit("children");
    reveal_strlit("align");
    reveal_strlit("left");
    reveal_strlit("center");
    reveal_strlit("right");
    assert("left"@.len() == 4 && "center"@.len() == 6 && "right"@.len() == 5);
    assert("center"@ != "left"@ && "right"@ != "left"@ && "right"@ != "center"@);
    assert(ms[0].0 == "children"@);
    lemma_obj_get_at(ms, 0, "children"@);
    assert(ms[1].0 == "align"@);
    lemma_obj_get_at(ms, 1, "align"@);
    lemma_codec_nodes(c.children);
}

/// Decoding an encoded bare table row yields it back.
proof fn lemma_codec_row(r: GRow)
    ensures
        dec_row_obj(GJson::Obj(enc_row_fields(r))) == Some(r),
    decreases r, 1int,
{
    let ms = enc_row_fields(r);
    reveal_strlit("cells");
    assert(ms[0].0 == "cells"@);
    lemma_obj_get_at(ms, 0, "cells"@);
    lemma_codec_cells(r.cells);
}

proof fn lemma_codec_meta(m: Seq<(Seq<char>, Seq<char>)>)
    ensures
        dec_meta(enc_meta(m)) == Some(m),
    decreases m,
{
    if m.len() == 0 {
        assert(dec_meta(enc_meta(m)) =~= Some(Seq::<(Seq<char>, Seq<char>)>::empty()));
        assert(m =~= Seq::<(Seq<char>, Seq<char>)>::empty());
    } else {
        lemma_codec_meta(m.drop_last());
        let e = enc_meta(m);
        assert(e.drop_last() =~= enc_meta(m.drop_last()));
        assert(e.last() == (m.last().0, GJson::Str(m.last().1)));
        assert(m.drop_last().push(m.last()) =~= m);
    }
}

proof fn lemma_codec_nodes(s: Seq<GNode>)
    ensures
        dec_nodes(enc_nodes(s)) == Some(s),
    decreases s, 2int,
{
    if s.len() == 0 {
        assert(s =~= Seq::<GNode>::empty());
    } else {
        lemma_codec_nodes(s.drop_last());
        lemma_codec_node(s.last());
        let e = enc_nodes(s);
        assert(e.drop_last() =~= enc_nodes(s.drop_last()));
        assert(e.last() == enc_node(s.last()));
        assert(s.drop_last().push(s.last()) =~= s);
    }
}

proof fn lemma_codec_items(s: Seq<GListItem>)
    ensures
        dec_items(enc_items(s)) == Some(s),
    decreases s, 2int,
{
    if s.len() == 0 {
        assert(s =~= Seq::<GListItem>::empty());
    } else {
        lemma_codec_items(s.drop_last());
        lemma_codec_item(s.last());
        let e = enc_items(s);
        assert(e.drop_last() =~= enc_items(s.drop_last()));
        assert(e.last() == GJson::Obj(enc_item_fields(s.last())));
        assert(s.drop_last().push(s.last()) =~= s);
    }
}

proof fn lemma_codec_rows(s: Seq<GRow>)
    ensures
        dec_rows(enc_rows(s)) == Some(s),
    decreases s, 2int,
{
    if s.len() == 0 {
        assert(s =~= Seq::<GRow>::empty());
    } else {
        lemma_codec_rows(s.drop_last());
        lemma_codec_row(s.last());
        let e = enc_rows(s);
        assert(e.drop_last() =~= enc_rows(s.drop_last()));
        assert(e.last() == GJson::Obj(enc_row_fields(s.last())));
        assert(s.drop_last().push(s.last()) =~= s);
    }
}

proof fn lemma_codec_cells(s: Seq<GCell>)
    ensures
        dec_cells(enc_cells(s)) == Some(s),
    decreases s, 2int,
{
    if s.len() == 0 {
        assert(s =~= Seq::<GCell>::empty());
    } else {
        lemma_codec_cells(s.drop_last());
        lemma_codec_cell(s.last());
        let e = enc_cells(s);
        assert(e.drop_last() =~= enc_cells(s.drop_last()));
        assert(e.last() == GJson::Obj(enc_cell_fields(s.last())));
        assert(s.drop_last().push(s.last()) =~= s);
    }
}

#[verifier::rlimit(100)]
proof fn lemma_tags_distinct()
    ensures
        "root"@ != "paragraph"@,
        "root"@ != "heading"@,
        "root"@ != "text"@,
        "root"@ != "strong"@,
        "root"@ != "em"@,
        "root"@ != "underline"@,
        "root"@ != "strike"@,
        "root"@ != "color"@,
        "root"@ != "code"@,
        "root"@ != "codeBlock"@,
        "root"@ != "link"@,
        "root"@ != "image"@,
        "root"@ != "list"@,
        "root"@ != "listItem"@,
        "root"@ != "table"@,
        "root"@ != "tableRow"@,
        "root"@ != "tableCell"@,
        "root"@ != "math"@,
        "root"@ != "mermaid"@,
        "root"@ != "card"@,
        "root"@ != "mention"@,
        "root"@ != "emoji"@,
        "root"@ != "horizontalRule"@,
        "root"@ != "blockquote"@,
        "paragraph"@ != "heading"@,
        "paragraph"@ != "text"@,
        "paragraph"@ != "strong"@,
        "paragraph"@ != "em"@,
        "paragraph"@ != "underline"@,
        "paragraph"@ != "strike"@,
        "paragraph"@ != "color"@,
        "paragraph"@ != "code"@,
        "paragraph"@ != "codeBlock"@,
        "paragraph"@ != "link"@,
        "paragraph"@ != "image"@,
        "paragraph"@ != "list"@,
        "paragraph"@ != "listItem"@,
        "paragraph"@ != "table"@,
        "paragraph"@ != "tableRow"@,
        "paragraph"@ != "tableCell"@,
        "paragraph"@ != "math"@,
        "paragraph"@ != "mermaid"@,
        "paragraph"@ != "card"@,
        "paragraph"@ != "mention"@,
        "paragraph"@ != "emoji"@,
        "paragraph"@ != "horizontalRule"@,
        "paragraph"@ != "blockquote"@,
        "heading"@ != "text"@,
        "heading"@ != "strong"@,
        "heading"@ != "em"@,
        "heading"@ != "underline"@,
        "heading"@ != "strike"@,
        "heading"@ != "color"@,
        "heading"@ != "code"@,
        "heading"@ != "codeBlock"@,
        "heading"@ != "link"@,
        "heading"@ != "image"@,
        "heading"@ != "list"@,
        "heading"@ != "listItem"@,
        "heading"@ != "table"@,
        "heading"@ != "tableRow"@,
        "heading"@ != "tableCell"@,
        "heading"@ != "math"@,
        "heading"@ != "mermaid"@,
        "heading"@ != "card"@,
        "heading"@ != "mention"@,
        "heading"@ != "emoji"@,
        "heading"@ != "horizontalRule"@,
        "heading"@ != "blockquote"@,
        "text"@ != "strong"@,
        "text"@ != "em"@,
        "text"@ != "underline"@,
        "text"@ != "strike"@,
        "text"@ != "color"@,
        "text"@ != "code"@,
        "text"@ != "codeBlock"@,
        "text"@ != "link"@,
        "text"@ != "image"@,
        "text"@ != "list"@,
        "text"@ != "listItem"@,
        "text"@ != "table"@,
        "text"@ != "tableRow"@,
        "text"@ != "tableCell"@,
        "text"@ != "math"@,
        "text"@ != "mermaid"@,
        "text"@ != "card"@,
        "text"@ != "mention"@,
        "text"@ != "emoji"@,
        "text"@ != "horizontalRule"@,
        "text"@ != "blockquote"@,
        "strong"@ != "em"@,
        "strong"@ != "underline"@,
        "strong"@ != "strike"@,
        "strong"@ != "color"@,
        "strong"@ != "code"@,
        "strong"@ != "codeBlock"@,
        "strong"@ != "link"@,
        "strong"@ != "image"@,
        "strong"@ != "list"@,
        "strong"@ != "listItem"@,
        "strong"@ != "table"@,
        "strong"@ != "tableRow"@,
        "strong"@ != "tableCell"@,
        "strong"@ != "math"@,
        "strong"@ != "mermaid"@,
        "strong"@ != "card"@,
        "strong"@ != "mention"@,
        "strong"@ != "emoji"@,
        "strong"@ != "horizontalRule"@,
        "strong"@ != "blockquote"@,
        "em"@ != "underline"@,
        "em"@ != "strike"@,
        "em"@ != "color"@,
        "em"@ != "code"@,
        "em"@ != "codeBlock"@,
        "em"@ != "link"@,
        "em"@ != "image"@,
        "em"@ != "list"@,
        "em"@ != "listItem"@,
        "em"@ != "table"@,
        "em"@ != "tableRow"@,
        "em"@ != "tableCell"@,
        "em"@ != "math"@,
        "em"@ != "mermaid"@,
        "em"@ != "card"@,
        "em"@ != "mention"@,
        "em"@ != "emoji"@,
        "em"@ != "horizontalRule"@,
        "em"@ != "blockquote"@,
        "underline"@ != "strike"@,
        "underline"@ != "color"@,
        "underline"@ != "code"@,
        "underline"@ != "codeBlock"@,
        "underline"@ != "link"@,
        "underline"@ != "image"@,
        "underline"@ != "list"@,
        "underline"@ != "listItem"@,
        "underline"@ != "table"@,
        "underline"@ != "tableRow"@,
        "underline"@ != "tableCell"@,
        "underline"@ != "math"@,
        "underline"@ != "mermaid"@,
        "underline"@ != "card"@,
        "underline"@ != "mention"@,
        "underline"@ != "emoji"@,
        "underline"@ != "horizontalRule"@,
        "underline"@ != "blockquote"@,
        "strike"@ != "color"@,
        "strike"@ != "code"@,
        "strike"@ != "codeBlock"@,
        "strike"@ != "link"@,
        "strike"@ != "image"@,
        "strike"@ != "list"@,
        "strike"@ != "listItem"@,
        "strike"@ != "table"@,
        "strike"@ != "tableRow"@,
        "strike"@ != "tableCell"@,
        "strike"@ != "math"@,
        "strike"@ != "mermaid"@,
        "strike"@ != "card"@,
        "strike"@ != "mention"@,
        "strike"@ != "emoji"@,
        "strike"@ != "horizontalRule"@,
        "strike"@ != "blockquote"@,
        "color"@ != "code"@,
        "color"@ != "codeBlock"@,
        "color"@ != "link"@,
        "color"@ != "image"@,
        "color"@ != "list"@,
        "color"@ != "listItem"@,
        "color"@ != "table"@,
        "color"@ != "tableRow"@,
        "color"@ != "tableCell"@,
        "color"@ != "math"@,
        "color"@ != "mermaid"@,
        "color"@ != "card"@,
        "color"@ != "mention"@,
        "color"@ != "emoji"@,
        "color"@ != "horizontalRule"@,
        "color"@ != "blockquote"@,
        "code"@ != "codeBlock"@,
        "code"@ != "link"@,
        "code"@ != "image"@,
        "code"@ != "list"@,
        "code"@ != "listItem"@,
        "code"@ != "table"@,
        "code"@ != "tableRow"@,
        "code"@ != "tableCell"@,
        "code"@ != "math"@,
        "code"@ != "mermaid"@,
        "code"@ != "card"@,
        "code"@ != "mention"@,
        "code"@ != "emoji"@,
        "code"@ != "horizontalRule"@,
        "code"@ != "blockquote"@,
        "codeBlock"@ != "link"@,
        "codeBlock"@ != "image"@,
        "codeBlock"@ != "list"@,
        "codeBlock"@ != "listItem"@,
        "codeBlock"@ != "table"@,
        "codeBlock"@ != "tableRow"@,
        "codeBlock"@ != "tableCell"@,
        "codeBlock"@ != "math"@,
        "codeBlock"@ != "mermaid"@,
        "codeBlock"@ != "card"@,
        "codeBlock"@ != "mention"@,
        "codeBlock"@ != "emoji"@,
        "codeBlock"@ != "horizontalRule"@,
        "codeBlock"@ != "blockquote"@,
        "link"@ != "image"@,
        "link"@ != "list"@,
        "link"@ != "listItem"@,
        "link"@ != "table"@,
        "link"@ != "tableRow"@,
        "link"@ != "tableCell"@,
        "link"@ != "math"@,
        "link"@ != "mermaid"@,
        "link"@ != "card"@,
        "link"@ != "mention"@,
        "link"@ != "emoji"@,
        "link"@ != "horizontalRule"@,
        "link"@ != "blockquote"@,
        "image"@ != "list"@,
        "image"@ != "listItem"@,
        "image"@ != "table"@,
        "image"@ != "tableRow"@,
        "image"@ != "tableCell"@,
        "image"@ != "math"@,
        "image"@ != "mermaid"@,
        "image"@ != "card"@,
        "image"@ != "mention"@,
        "image"@ != "emoji"@,
        "image"@ != "horizontalRule"@,
        "image"@ != "blockquote"@,
        "list"@ != "listItem"@,
        "list"@ != "table"@,
        "list"@ != "tableRow"@,
        "list"@ != "tableCell"@,
        "list"@ != "math"@,
        "list"@ != "mermaid"@,
        "list"@ != "card"@,
        "list"@ != "mention"@,
        "list"@ != "emoji"@,
        "list"@ != "horizontalRule"@,
        "list"@ != "blockquote"@,
        "listItem"@ != "table"@,
        "listItem"@ != "tableRow"@,
        "listItem"@ != "tableCell"@,
        "listItem"@ != "math"@,
        "listItem"@ != "mermaid"@,
        "listItem"@ != "card"@,
        "listItem"@ != "mention"@,
        "listItem"@ != "emoji"@,
        "listItem"@ != "horizontalRule"@,
        "listItem"@ != "blockquote"@,
        "table"@ != "tableRow"@,
        "table"@ != "tableCell"@,
        "table"@ != "math"@,
        "table"@ != "mermaid"@,
        "table"@ != "card"@,
        "table"@ != "mention"@,
        "table"@ != "emoji"@,
        "table"@ != "horizontalRule"@,
        "table"@ != "blockquote"@,
        "tableRow"@ != "tableCell"@,
        "tableRow"@ != "math"@,
        "tableRow"@ != "mermaid"@,
        "tableRow"@ != "card"@,
        "tableRow"@ != "mention"@,
        "tableRow"@ != "emoji"@,
        "tableRow"@ != "horizontalRule"@,
        "tableRow"@ != "blockquote"@,
        "tableCell"@ != "math"@,
        "tableCell"@ != "mermaid"@,
        "tableCell"@ != "card"@,
        "tableCell"@ != "mention"@,
        "tableCell"@ != "emoji"@,
        "tableCell"@ != "horizontalRule"@,
        "tableCell"@ != "blockquote"@,
        "math"@ != "mermaid"@,
        "math"@ != "card"@,
        "math"@ != "mention"@,
        "math"@ != "emoji"@,
        "math"@ != "horizontalRule"@,
        "math"@ != "blockquote"@,
        "mermaid"@ != "card"@,
        "mermaid"@ != "mention"@,
        "mermaid"@ != "emoji"@,
        "mermaid"@ != "horizontalRule"@,
        "mermaid"@ != "blockquote"@,
        "card"@ != "mention"@,
        "card"@ != "emoji"@,
        "card"@ != "horizontalRule"@,
        "card"@ != "blockquote"@,
        "mention"@ != "emoji"@,
        "mention"@ != "horizontalRule"@,
        "mention"@ != "blockquote"@,
        "emoji"@ != "horizontalRule"@,
        "emoji"@ != "blockquote"@,
        "horizontalRule"@ != "blockquote"@,
{
    reveal_strlit("root");
    reveal_strlit("paragraph");
    reveal_strlit("heading");
    reveal_strlit("text");
    reveal_strlit("strong");
    reveal_strlit("em");
    reveal_strlit("underline");
    reveal_strlit("strike");
    reveal_strlit("color");
    reveal_strlit("code");
    reveal_strlit("codeBlock");
    reveal_strlit("link");
    reveal_strlit("image");
    reveal_strlit("list");
    reveal_strlit("listItem");
    reveal_strlit("table");
    reveal_strlit("tableRow");
    reveal_strlit("tableCell");
    reveal_strlit("math");
    reveal_strlit("mermaid");
    reveal_strlit("card");
    reveal_strlit("mention");
    reveal_strlit("emoji");
    reveal_strlit("horizontalRule");
    reveal_strlit("blockquote");
    assert("root"@.len() == 4);
    assert("paragraph"@.len() == 9);
    assert("heading"@.len() == 7);
    assert("text"@.len() == 4);
    assert("strong"@.len() == 6);
    assert("em"@.len() == 2);
    assert("underline"@.len() == 9);
    assert("strike"@.len() == 6);
    assert("color"@.len() == 5);
    assert("code"@.len() == 4);
    assert("codeBlock"@.len() == 9);
    assert("link"@.len() == 4);
    assert("image"@.len() == 5);
    assert("list"@.len() == 4);
    assert("listItem"@.len() == 8);
    assert("table"@.len() == 5);
    assert("tableRow"@.len() == 8);
    assert("tableCell"@.len() == 9);
    assert("math"@.len() == 4);
    assert("mermaid"@.len() == 7);
    assert("card"@.len() == 4);
    assert("mention"@.len() == 7);
    assert("emoji"@.len() == 5);
    assert("horizontalRule"@.len() == 14);
    assert("blockquote"@.len() == 10);
    assert("root"@ != "paragraph"@);
    assert("root"@ != "heading"@);
    assert("root"@[0] == 'r' && "text"@[0] == 't');
    assert("root"@ != "text"@);
    assert("root"@ != "strong"@);
    assert("root"@ != "em"@);
    assert("root"@ != "underline"@);
    assert("root"@ != "strike"@);
    assert("root"@ != "color"@);
    assert("root"@[0] == 'r' && "code"@[0] == 'c');
    assert("root"@ != "code"@);
    assert("root"@ != "codeBlock"@);
    assert("root"@[0] == 'r' && "link"@[0] == 'l');
    assert("root"@ != "link"@);
    assert("root"@ != "image"@);
    assert("root"@[0] == 'r' && "list"@[0] == 'l');
    assert("root"@ != "list"@);
    assert("root"@ != "listItem"@);
    assert("root"@ != "table"@);
    assert("root"@ != "tableRow"@);
    assert("root"@ != "tableCell"@);
    assert("root"@[0] == 'r' && "math"@[0] == 'm');
    assert("root"@ != "math"@);
    assert("root"@ != "mermaid"@);
    assert("root"@[0] == 'r' && "card"@[0] == 'c');
    assert("root"@ != "card"@);
    assert("root"@ != "mention"@);
    assert("root"@ != "emoji"@);
    assert("root"@ != "horizontalRule"@);
    assert("root"@ != "blockquote"@);
    assert("paragraph"@ != "heading"@);
    assert("paragraph"@ != "text"@);
    assert("paragraph"@ != "strong"@);
    assert("paragraph"@ != "em"@);
    assert("paragraph"@[0] == 'p' && "underline"@[0] == 'u');
    assert("paragraph"@ != "underline"@);
    assert("paragraph"@ != "strike"@);
    assert("paragraph"@ != "color"@);
    assert("paragraph"@ != "code"@);
    assert("paragraph"@[0] == 'p' && "codeBlock"@[0] == 'c');
    assert("paragraph"@ != "codeBlock"@);
    assert("paragraph"@ != "link"@);
    assert("paragraph"@ != "image"@);
    assert("paragraph"@ != "list"@);
    assert("paragraph"@ != "listItem"@);
    assert("paragraph"@ != "table"@);
    assert("paragraph"@ != "tableRow"@);
    assert("paragraph"@[0] == 'p' && "tableCell"@[0] == 't');
    assert("paragraph"@ != "tableCell"@);
    assert("paragraph"@ != "math"@);
    assert("paragraph"@ != "mermaid"@);
    assert("paragraph"@ != "card"@);
    assert("paragraph"@ != "mention"@);
    assert("paragraph"@ != "emoji"@);
    assert("paragraph"@ != "horizontalRule"@);
    assert("paragraph"@ != "blockquote"@);
    assert("heading"@ != "text"@);
    assert("heading"@ != "strong"@);
    assert("heading"@ != "em"@);
    assert("heading"@ != "underline"@);
    assert("heading"@ != "strike"@);
    assert("heading"@ != "color"@);
    assert("heading"@ != "code"@);
    assert("heading"@ != "codeBlock"@);
    assert("heading"@ != "link"@);
    assert("heading"@ != "image"@);
    assert("heading"@ != "list"@);
    assert("heading"@ != "listItem"@);
    assert("heading"@ != "table"@);
    assert("heading"@ != "tableRow"@);
    assert("heading"@ != "tableCell"@);
    assert("heading"@ != "math"@);
    assert("heading"@[0] == 'h' && "mermaid"@[0] == 'm');
    assert("heading"@ != "mermaid"@);
    assert("heading"@ != "card"@);
    assert("heading"@[0] == 'h' && "mention"@[0] == 'm');
    assert("heading"@ != "mention"@);
    assert("heading"@ != "emoji"@);
    assert("heading"@ != "horizontalRule"@);
    assert("heading"@ != "blockquote"@);
    assert("text"@ != "strong"@);
    assert("text"@ != "em"@);
    assert("text"@ != "underline"@);
    assert("text"@ != "strike"@);
    assert("text"@ != "color"@);
    assert("text"@[0] == 't' && "code"@[0] == 'c');
    assert("text"@ != "code"@);
    assert("text"@ != "codeBlock"@);
    assert("text"@[0] == 't' && "link"@[0] == 'l');
    assert("text"@ != "link"@);
    assert("text"@ != "image"@);
    assert("text"@[0] == 't' && "list"@[0] == 'l');
    assert("text"@ != "list"@);
    assert("text"@ != "listItem"@);
    assert("text"@ != "table"@);
    assert("text"@ != "tableRow"@);
    assert("text"@ != "tableCell"@);
    assert("text"@[0] == 't' && "math"@[0] == 'm');
    assert("text"@ != "math"@);
    assert("text"@ != "mermaid"@);
    assert("text"@[0] == 't' && "card"@[0] == 'c');
    assert("text"@ != "card"@);
    assert("text"@ != "mention"@);
    assert("text"@ != "emoji"@);
    assert("text"@ != "horizontalRule"@);
    assert("text"@ != "blockquote"@);
    assert("strong"@ != "em"@);
    assert("strong"@ != "underline"@);
    assert("strong"@[3] == 'o' && "strike"@[3] == 'i');
    assert("strong"@ != "strike"@);
    assert("strong"@ != "color"@);
    assert("strong"@ != "code"@);
    assert("strong"@ != "codeBlock"@);
    assert("strong"@ != "link"@);
    assert("strong"@ != "image"@);
    assert("strong"@ != "list"@);
    assert("strong"@ != "listItem"@);
    assert("strong"@ != "table"@);
    assert("strong"@ != "tableRow"@);
    assert("strong"@ != "tableCell"@);
    assert("strong"@ != "math"@);
    assert("strong"@ != "mermaid"@);
    assert("strong"@ != "card"@);
    assert("strong"@ != "mention"@);
    assert("strong"@ != "emoji"@);
    assert("strong"@ != "horizontalRule"@);
    assert("strong"@ != "blockquote"@);
    assert("em"@ != "underline"@);
    assert("em"@ != "strike"@);
    assert("em"@ != "color"@);
    assert("em"@ != "code"@);
    assert("em"@ != "codeBlock"@);
    assert("em"@ != "link"@);
    assert("em"@ != "image"@);
    assert("em"@ != "list"@);
    assert("em"@ != "listItem"@);
    assert("em"@ != "table"@);
    assert("em"@ != "tableRow"@);
    assert("em"@ != "tableCell"@);
    assert("em"@ != "math"@);
    assert("em"@ != "mermaid"@);
    assert("em"@ != "card"@);
    assert("em"@ != "mention"@);
    assert("em"@ != "emoji"@);
    assert("em"@ != "horizontalRule"@);
    assert("em"@ != "blockquote"@);
    assert("underline"@ != "strike"@);
    assert("underline"@ != "color"@);
    assert("underline"@ != "code"@);
    assert("underline"@[0] == 'u' && "codeBlock"@[0] == 'c');
    assert("underline"@ != "codeBlock"@);
    assert("underline"@ != "link"@);
    assert("underline"@ != "image"@);
    assert("underline"@ != "list"@);
    assert("underline"@ != "listItem"@);
    assert("underline"@ != "table"@);
    assert("underline"@ != "tableRow"@);
    assert("underline"@[0] == 'u' && "tableCell"@[0] == 't');
    assert("underline"@ != "tableCell"@);
    assert("underline"@ != "math"@);
    assert("underline"@ != "mermaid"@);
    assert("underline"@ != "card"@);
    assert("underline"@ != "mention"@);
    assert("underline"@ != "emoji"@);
    assert("underline"@ != "horizontalRule"@);
    assert("underline"@ != "blockquote"@);
    assert("strike"@ != "color"@);
    assert("strike"@ != "code"@);
    assert("strike"@ != "codeBlock"@);
    assert("strike"@ != "link"@);
    assert("strike"@ != "image"@);
    assert("strike"@ != "list"@);
    assert("strike"@ != "listItem"@);
    assert("strike"@ != "table"@);
    assert("strike"@ != "tableRow"@);
    assert("strike"@ != "tableCell"@);
    assert("strike"@ != "math"@);
    assert("strike"@ != "mermaid"@);
    assert("strike"@ != "card"@);
    assert("strike"@ != "mention"@);
    assert("strike"@ != "emoji"@);
    assert("strike"@ != "horizontalRule"@);
    assert("strike"@ != "blockquote"@);
    assert("color"@ != "code"@);
    assert("color"@ != "codeBlock"@);
    assert("color"@ != "link"@);
    assert("color"@[0] == 'c' && "image"@[0] == 'i');
    assert("color"@ != "image"@);
    assert("color"@ != "list"@);
    assert("color"@ != "listItem"@);
    assert("color"@[0] == 'c' && "table"@[0] == 't');
    assert("color"@ != "table"@);
    assert("color"@ != "tableRow"@);
    assert("color"@ != "tableCell"@);
    assert("color"@ != "math"@);
    assert("color"@ != "mermaid"@);
    assert("color"@ != "card"@);
    assert("color"@ != "mention"@);
    assert("color"@[0] == 'c' && "emoji"@[0] == 'e');
    assert("color"@ != "emoji"@);
    assert("color"@ != "horizontalRule"@);
    assert("color"@ != "blockquote"@);
    assert("code"@ != "codeBlock"@);
    assert("code"@[0] == 'c' && "link"@[0] == 'l');
    assert("code"@ != "link"@);
    assert("code"@ != "image"@);
    assert("code"@[0] == 'c' && "list"@[0] == 'l');
    assert("code"@ != "list"@);
    assert("code"@ != "listItem"@);
    assert("code"@ != "table"@);
    assert("code"@ != "tableRow"@);
    assert("code"@ != "tableCell"@);
    assert("code"@[0] == 'c' && "math"@[0] == 'm');
    assert("code"@ != "math"@);
    assert("code"@ != "mermaid"@);
    assert("code"@[1] == 'o' && "card"@[1] == 'a');
    assert("code"@ != "card"@);
    assert("code"@ != "mention"@);
    assert("code"@ != "emoji"@);
    assert("code"@ != "horizontalRule"@);
    assert("code"@ != "blockquote"@);
    assert("codeBlock"@ != "link"@);
    assert("codeBlock"@ != "image"@);
    assert("codeBlock"@ != "list"@);
    assert("codeBlock"@ != "listItem"@);
    assert("codeBlock"@ != "table"@);
    assert("codeBlock"@ != "tableRow"@);
    assert("codeBlock"@[0] == 'c' && "tableCell"@[0] == 't');
    assert("codeBlock"@ != "tableCell"@);
    assert("codeBlock"@ != "math"@);
    assert("codeBlock"@ != "mermaid"@);
    assert("codeBlock"@ != "card"@);
    assert("codeBlock"@ != "mention"@);
    assert("codeBlock"@ != "emoji"@);
    assert("codeBlock"@ != "horizontalRule"@);
    assert("codeBlock"@ != "blockquote"@);
    assert("link"@ != "image"@);
    assert("link"@[2] == 'n' && "list"@[2] == 's');
    assert("link"@ != "list"@);
    assert("link"@ != "listItem"@);
    assert("link"@ != "table"@);
    assert("link"@ != "tableRow"@);
    assert("link"@ != "tableCell"@);
    assert("link"@[0] == 'l' && "math"@[0] == 'm');
    assert("link"@ != "math"@);
    assert("link"@ != "mermaid"@);
    assert("link"@[0] == 'l' && "card"@[0] == 'c');
    assert("link"@ != "card"@);
    assert("link"@ != "mention"@);
    assert("link"@ != "emoji"@);
    assert("link"@ != "horizontalRule"@);
    assert("link"@ != "blockquote"@);
    assert("image"@ != "list"@);
    assert("image"@ != "listItem"@);
    assert("image"@[0] == 'i' && "table"@[0] == 't');
    assert("image"@ != "table"@);
    assert("image"@ != "tableRow"@);
    assert("image"@ != "tableCell"@);
    assert("image"@ != "math"@);
    assert("image"@ != "mermaid"@);
    assert("image"@ != "card"@);
    assert("image"@ != "mention"@);
    assert("image"@[0] == 'i' && "emoji"@[0] == 'e');
    assert("image"@ != "emoji"@);
    assert("image"@ != "horizontalRule"@);
    assert("image"@ != "blockquote"@);
    assert("list"@ != "listItem"@);
    assert("list"@ != "table"@);
    assert("list"@ != "tableRow"@);
    assert("list"@ != "tableCell"@);
    assert("list"@[0] == 'l' && "math"@[0] == 'm');
    assert("list"@ != "math"@);
    assert("list"@ != "mermaid"@);
    assert("list"@[0] == 'l' && "card"@[0] == 'c');
    assert("list"@ != "card"@);
    assert("list"@ != "mention"@);
    assert("list"@ != "emoji"@);
    assert("list"@ != "horizontalRule"@);
    assert("list"@ != "blockquote"@);
    assert("listItem"@ != "table"@);
    assert("listItem"@[0] == 'l' && "tableRow"@[0] == 't');
    assert("listItem"@ != "tableRow"@);
    assert("listItem"@ != "tableCell"@);
    assert("listItem"@ != "math"@);
    assert("listItem"@ != "mermaid"@);
    assert("listItem"@ != "card"@);
    assert("listItem"@ != "mention"@);
    assert("listItem"@ != "emoji"@);
    assert("listItem"@ != "horizontalRule"@);
    assert("listItem"@ != "blockquote"@);
    assert("table"@ != "tableRow"@);
    assert("table"@ != "tableCell"@);
    assert("table"@ != "math"@);
    assert("table"@ != "mermaid"@);
    assert("table"@ != "card"@);
    assert("table"@ != "mention"@);
    assert("table"@[0] == 't' && "emoji"@[0] == 'e');
    assert("table"@ != "emoji"@);
    assert("table"@ != "horizontalRule"@);
    assert("table"@ != "blockquote"@);
    assert("tableRow"@ != "tableCell"@);
    assert("tableRow"@ != "math"@);
    assert("tableRow"@ != "mermaid"@);
    assert("tableRow"@ != "card"@);
    assert("tableRow"@ != "mention"@);
    assert("tableRow"@ != "emoji"@);
    assert("tableRow"@ != "horizontalRule"@);
    assert("tableRow"@ != "blockquote"@);
    assert("tableCell"@ != "math"@);
    assert("tableCell"@ != "mermaid"@);
    assert("tableCell"@ != "card"@);
    assert("tableCell"@ != "mention"@);
    assert("tableCell"@ != "emoji"@);
    assert("tableCell"@ != "horizontalRule"@);
    assert("tableCell"@ != "blockquote"@);
    assert("math"@ != "mermaid"@);
    assert("math"@[0] == 'm' && "card"@[0] == 'c');
    assert("math"@ != "card"@);
    assert("math"@ != "mention"@);
    assert("math"@ != "emoji"@);
    assert("math"@ != "horizontalRule"@);
    assert("math"@ != "blockquote"@);
    assert("mermaid"@ != "card"@);
    assert("mermaid"@[2] == 'r' && "mention"@[2] == 'n');
    assert("mermaid"@ != "mention"@);
    assert("mermaid"@ != "emoji"@);
    assert("mermaid"@ != "horizontalRule"@);
    assert("mermaid"@ != "blockquote"@);
    assert("card"@ != "mention"@);
    assert("card"@ != "emoji"@);
    assert("card"@ != "horizontalRule"@);
    assert("card"@ != "blockquote"@);
    assert("mention"@ != "emoji"@);
    assert("mention"@ != "horizontalRule"@);
    assert("mention"@ != "blockquote"@);
    assert("emoji"@ != "horizontalRule"@);
    assert("emoji"@ != "blockquote"@);
    assert("horizontalRule"@ != "blockquote"@);
}

/// Decoding the encoding of any document node yields that node: the JSON
/// schema loses nothing, for every variant of the tree.
#[verifier::rlimit(100)]
pub proof fn lemma_codec_node(g: GNode)
    ensures
        dec_node(enc_node(g)) == Some(g),
    decreases g, 3int,
{
    reveal_strlit("type");
    reveal_strlit("root");
    reveal_strlit("paragraph");
    reveal_strlit("heading");
    reveal_strlit("level");
    reveal_strlit("children");
    reveal_strlit("text");
    reveal_strlit("content");
    reveal_strlit("strong");
    reveal_strlit("em");
    reveal_strlit("underline");
    reveal_strlit("strike");
    reveal_strlit("color");
    reveal_strlit("code");
    reveal_strlit("codeBlock");
    reveal_strlit("language");
    reveal_strlit("link");
    reveal_strlit("url");
    reveal_strlit("image");
    reveal_strlit("width");
    reveal_strlit("height");
    reveal_strlit("alt");
    reveal_strlit("list");
    reveal_strlit("listType");
    reveal_strlit("bullet");
    reveal_strlit("ordered");
    reveal_strlit("items");
    reveal_strlit("listItem");
    reveal_strlit("checked");
    reveal_strlit("table");
    reveal_strlit("rows");
    reveal_strlit("tableRow");
    reveal_strlit("cells");
    reveal_strlit("tableCell");
    reveal_strlit("align");
    reveal_strlit("math");
    reveal_strlit("display");
    reveal_strlit("mermaid");
    reveal_strlit("card");
    reveal_strlit("subtype");
    reveal_strlit("metadata");
    reveal_strlit("mention");
    reveal_strlit("id");
    reveal_strlit("name");
    reveal_strlit("emoji");
    reveal_strlit("horizontalRule");
    reveal_strlit("blockquote");
    reveal_strlit("left");
    reveal_strlit("center");
    reveal_strlit("right");
    lemma_tags_distinct();
    match g {
        GNode::Root { children } => {
            let ms = enc_node(g)->Obj_0;
            assert(enc_node(g) == GJson::Obj(ms));
            assert(ms[0].0 == "type"@);
            lemma_obj_get_at(ms, 0, "type"@);
            assert(obj_get(ms, "type"@) == Some(GJson::Str("root"@)));
            assert(ms[1].0 == "children"@);
            lemma_obj_get_at(ms, 1, "children"@);
            assert(obj_get(ms, "children"@) == Some(GJson::Arr(enc_nodes(children))));
            lemma_codec_nodes(children);
            assert(dec_children(ms) == Some(children));
            assert(g == (GNode::Root { children }));
            assert(Some(g) == Some(GNode::Root { children }));
            assert(dec_node(enc_node(g)) == Some(GNode::Root { children }));
            assert(dec_node(enc_node(g)) == Some(g));
        },
        GNode::Paragraph { children } => {
            let ms = enc_node(g)->Obj_0;
            assert(ms[0].0 == "type"@);
            lemma_obj_get_at(ms, 0, "type"@);
            assert(ms[1].0 == "children"@);
            lemma_obj_get_at(ms, 1, "children"@);
            lemma_codec_nodes(children);
            assert(dec_node(enc_node(g)) == Some(g));
        },
        GNode::Heading { level, children } => {
            let ms = enc_node(g)->Obj_0;
            assert(ms[0].0 == "type"@);
            lemma_obj_get_at(ms, 0, "type"@);
            assert(ms[1].0 == "level"@);
            lemma_obj_get_at(ms, 1, "level"@);
            assert(ms[2].0 == "children"@);
            lemma_obj_get_at(ms, 2, "children"@);
            crate::numstr::lemma_u64_digits_roundtrip(level as u64);
            lemma_codec_nodes(children);
            assert(dec_node(enc_node(g)) == Some(g));
        },
        GNode::Text { content } => {
            let ms = enc_node(g)->Obj_0;
            assert(ms[0].0 == "type"@);
            lemma_obj_get_at(ms, 0, "type"@);
            assert(ms[1].0 == "content"@);
            lemma_obj_get_at(ms, 1, "content"@);
            assert(dec_node(enc_node(g)) == Some(g));
        },
        GNode::Strong { children } => {
            let ms = enc_node(g)->Obj_0;
            assert(ms[0].0 == "type"@);
            lemma_obj_get_at(ms, 0, "type"@);
            assert(ms[1].0 == "children"@);
            lemma_obj_get_at(ms, 1, "children"@);
            lemma_codec_nodes(children);
            assert(dec_node(enc_node(g)) == Some(g));
        },
        GNode::Em { children } => {
            let ms = enc_node(g)->Obj_0;
            assert(ms[0].0 == "type"@);
            lemma_obj_get_at(ms, 0, "type"@);
            assert(ms[1].0 == "children"@);
            lemma_obj_get_at(ms, 1, "children"@);
            lemma_codec_nodes(children);
            assert(dec_node(enc_node(g)) == Some(g));
        },
        GNode::Underline { children } => {
            let ms = enc_node(g)->Obj_0;
            assert(ms[0].0 == "type"@);
            lemma_obj_get_at(ms, 0, "type"@);
            assert(ms[1].0 == "children"@);
            lemma_obj_get_at(ms, 1, "children"@);
            lemma_codec_nodes(children);
            assert(dec_node(enc_node(g)) == Some(g));
        },
        GNode::Strike { children } => {
            let ms = enc_node(g)->Obj_0;
            assert(ms[0].0 == "type"@);
            lemma_obj_get_at(ms, 0, "type"@);
            assert(ms[1].0 == "children"@);
            lemma_obj_get_at(ms, 1, "children"@);
            lemma_codec_nodes(children);
            assert(dec_node(enc_node(g)) == Some(g));
        },
        GNode::Color { color, children } => {
            let ms = enc_node(g)->Obj_0;
            assert(ms[0].0 == "type"@);
            lemma_obj_get_at(ms, 0, "type"@);
            assert(ms[1].0 == "color"@);
            lemma_obj_get_at(ms, 1, "color"@);
            assert(ms[2].0 == "children"@);
            lemma_obj_get_at(ms, 2, "children"@);
            lemma_codec_nodes(children);
            assert(dec_node(enc_node(g)) == Some(g));
        },
        GNode::Code { content } => {
            let ms = enc_node(g)->Obj_0;
            assert(ms[0].0 == "type"@);
            lemma_obj_get_at(ms, 0, "type"@);
            assert(ms[1].0 == "content"@);
            lemma_obj_get_at(ms, 1, "content"@);
            assert(dec_node(enc_node(g)) == Some(g));
        },
        GNode::CodeBlock { language, content } => {
            let ms = enc_node(g)->Obj_0;
            assert(ms[0].0 == "type"@);
            lemma_obj_get_at(ms, 0, "type"@);
            assert(ms[1].0 == "language"@);
            lemma_obj_get_at(ms, 1, "language"@);
            assert(ms[2].0 == "content"@);
            lemma_obj_get_at(ms, 2, "content"@);
            assert(dec_node(enc_node(g)) == Some(g));
        },
        GNode::Link { url, children } => {
            let ms = enc_node(g)->Obj_0;
            assert(ms[0].0 == "type"@);
            lemma_obj_get_at(ms, 0, "type"@);
            assert(ms[1].0 == "url"@);
            lemma_obj_get_at(ms, 1, "url"@);
            assert(ms[2].0 == "children"@);
            lemma_obj_get_at(ms, 2, "children"@);
            lemma_codec_nodes(children);
            assert(dec_node(enc_node(g)) == Some(g));
        },
        GNode::Image { url, width, height, alt } => {
            let ms = enc_node(g)->Obj_0;
            assert(ms[0].0 == "type"@);
            lemma_obj_get_at(ms, 0, "type"@);
            assert(ms[1].0 == "url"@);
            lemma_obj_get_at(ms, 1, "url"@);
            assert(ms[2].0 == "width"@);
            lemma_obj_get_at(ms, 2, "width"@);
            assert(ms[3].0 == "height"@);
            lemma_obj_get_at(ms, 3, "height"@);
            assert(ms[4].0 == "alt"@);
            assert("url"@[0] == 'u' && "alt"@[0] == 'a');
            assert("url"@ != "alt"@);
            lemma_obj_get_at(ms, 4, "alt"@);
            if width is Some {
                crate::numstr::lemma_u64_digits_roundtrip(width->0);
            }
            if height is Some {
                crate::numstr::lemma_u64_digits_roundtrip(height->0);
            }
            assert(dec_node(enc_node(g)) == Some(g));
        },
        GNode::List { list_type, items } => {
            let ms = enc_node(g)->Obj_0;
            assert(ms[0].0 == "type"@);
            lemma_obj_get_at(ms, 0, "type"@);
            assert(ms[1].0 == "listType"@);
            lemma_obj_get_at(ms, 1, "listType"@);
            assert(ms[2].0 == "items"@);
            lemma_obj_get_at(ms, 2, "items"@);
            assert("bullet"@.len() == 6 && "ordered"@.len() == 7);
            assert("ordered"@ != "bullet"@);
            lemma_codec_items(items);
            assert(dec_node(enc_node(g)) == Some(g));
        },
        GNode::ListItem { item } => {
            let ms = enc_node(g)->Obj_0;
            assert(ms[0] == ("type"@, GJson::Str("listItem"@)));
            assert(ms[1] == enc_item_fields(item)[0]);
            assert(ms[2] == enc_item_fields(item)[1]);
            assert(ms[0].0 == "type"@);
            lemma_obj_get_at(ms, 0, "type"@);
            assert(ms[1].0 == "children"@);
            lemma_obj_get_at(ms, 1, "children"@);
            assert(ms[2].0 == "checked"@);
            lemma_obj_get_at(ms, 2, "checked"@);
            lemma_codec_nodes(item.children);
            assert(dec_node(enc_node(g)) == Some(g));
        },
        GNode::Table { rows } => {
            let ms = enc_node(g)->Obj_0;
            assert(ms[0].0 == "type"@);
            lemma_obj_get_at(ms, 0, "type"@);
            assert(ms[1].0 == "rows"@);
            assert("type"@[0] == 't' && "rows"@[0] == 'r');
            assert("type"@ != "rows"@);
            lemma_obj_get_at(ms, 1, "rows"@);
            lemma_codec_rows(rows);
            assert(dec_node(enc_node(g)) == Some(g));
        },
        GNode::TableRow { row } => {
            let ms = enc_node(g)->Obj_0;
            assert(ms[0] == ("type"@, GJson::Str("tableRow"@)));
            assert(ms[1] == enc_row_fields(row)[0]);
            assert(ms[0].0 == "type"@);
            lemma_obj_get_at(ms, 0, "type"@);
            assert(ms[1].0 == "cells"@);
            lemma_obj_get_at(ms, 1, "cells"@);
            lemma_codec_cells(row.cells);
            assert(dec_node(enc_node(g)) == Some(g));
        },
        GNode::TableCell { cell } => {
            let ms = enc_node(g)->Obj_0;
            assert(ms[0] == ("type"@, GJson::Str("tableCell"@)));
            assert(ms[1] == enc_cell_fields(cell)[0]);
            assert(ms[2] == enc_cell_fields(cell)[1]);
            assert(ms[0].0 == "type"@);
            lemma_obj_get_at(ms, 0, "type"@);
            assert(ms[1].0 == "children"@);
            lemma_obj_get_at(ms, 1, "children"@);
            assert(ms[2].0 == "align"@);
            lemma_obj_get_at(ms, 2, "align"@);
            assert("left"@.len() == 4 && "center"@.len() == 6 && "right"@.len() == 5);
            assert("center"@ != "left"@ && "right"@ != "left"@ && "right"@ != "center"@);
            lemma_codec_nodes(cell.children);
            assert(dec_node(enc_node(g)) == Some(g));
        },
        GNode::Math { content, display } => {
            let ms = enc_node(g)->Obj_0;
            assert(ms[0].0 == "type"@);
            lemma_obj_get_at(ms, 0, "type"@);
            assert(ms[1].0 == "content"@);
            lemma_obj_get_at(ms, 1, "content"@);
            assert(ms[2].0 == "display"@);
            assert("content"@[0] == 'c' && "display"@[0] == 'd');
            assert("content"@ != "display"@);
            lemma_obj_get_at(ms, 2, "display"@);
            assert(dec_node(enc_node(g)) == Some(g));
        },
        GNode::Mermaid { content } => {
            let ms = enc_node(g)->Obj_0;
            assert(ms[0].0 == "type"@);
            lemma_obj_get_at(ms, 0, "type"@);
            assert(ms[1].0 == "content"@);
            lemma_obj_get_at(ms, 1, "content"@);
            assert(dec_node(enc_node(g)) == Some(g));
        },
        GNode::Card { subtype, content, metadata } => {
            let ms = enc_node(g)->Obj_0;
            assert(ms[0].0 == "type"@);
            lemma_obj_get_at(ms, 0, "type"@);
            assert(ms[1].0 == "subtype"@);
            lemma_obj_get_at(ms, 1, "subtype"@);
            assert(ms[2].0 == "content"@);
            assert("subtype"@[0] == 's' && "content"@[0] == 'c');
            assert("subtype"@ != "content"@);
            lemma_obj_get_at(ms, 2, "content"@);
            assert(ms[3].0 == "metadata"@);
            lemma_obj_get_at(ms, 3, "metadata"@);
            lemma_codec_meta(metadata);
            assert(dec_node(enc_node(g)) == Some(g));
        },
        GNode::Mention { id, name } => {
            let ms = enc_node(g)->Obj_0;
            assert(ms[0].0 == "type"@);
            lemma_obj_get_at(ms, 0, "type"@);
            assert(ms[1].0 == "id"@);
            lemma_obj_get_at(ms, 1, "id"@);
            assert(ms[2].0 == "name"@);
            assert("type"@[0] == 't' && "name"@[0] == 'n');
            assert("type"@ != "name"@);
            lemma_obj_get_at(ms, 2, "name"@);
            assert(dec_node(enc_node(g)) == Some(g));
        },
        GNode::Emoji { content } => {
            let ms = enc_node(g)->Obj_0;
            assert(ms[0].0 == "type"@);
            lemma_obj_get_at(ms, 0, "type"@);
            assert(ms[1].0 == "content"@);
            lemma_obj_get_at(ms, 1, "content"@);
            assert(dec_node(enc_node(g)) == Some(g));
        },
        GNode::HorizontalRule => {
            let ms = enc_node(g)->Obj_0;
            assert(ms[0].0 == "type"@);
            lemma_obj_get_at(ms, 0, "type"@);
            assert(dec_node(enc_node(g)) == Some(g));
        },
        GNode::Blockquote { children } => {
            let ms = enc_node(g)->Obj_0;
            assert(ms[0].0 == "type"@);
            lemma_obj_get_at(ms, 0, "type"@);
            assert(ms[1].0 == "children"@);
            lemma_obj_get_at(ms, 1, "children"@);
            lemma_codec_nodes(children);
            assert(dec_node(enc_node(g)) == Some(g));
        },
    }
}

/// Look up the first member with the given key in an object's members.
pub fn obj_get_x<'a>(ms: &'a Vec<(String, Json)>, key: &String) -> (r: Option<&'a Json>)
    ensures
        match r {
            Some(v) => obj_get(view_json_obj(ms@), key@) == Some(v@) && exists|i: int|
                0 <= i < ms@.len() && *v == #[trigger] ms@[i].1,
            None => obj_get(view_json_obj(ms@), key@) is None,
        },
{
    let n = ms.len();
    let mut i: usize = 0;
    proof {
        assert(ms@.skip(0) =~= ms@);
    }
    while i < n
        invariant
            i <= n,
            n == ms.len(),
            obj_get(view_json_obj(ms@), key@) == obj_get(
                view_json_obj(ms@.skip(i as int)),
                key@,
            ),
        decreases n - i,
    {
        proof {
            crate::json::lemma_view_json_obj_len(ms@.skip(i as int));
            crate::json::lemma_view_json_obj_index(ms@.skip(i as int), 0);
            assert(ms@.skip(i as int)[0] == ms@[i as int]);
            assert(view_json_obj(ms@.skip(i as int)).drop_first() =~= view_json_obj(
                ms@.skip(i as int).drop_first(),
            )) by {
                lemma_view_json_obj_drop_first(ms@.skip(i as int));
            };
            assert(ms@.skip(i as int).drop_first() =~= ms@.skip(i as int + 1));
        }
        if ms[i].0.eq(key) {
            return Some(&ms[i].1);
        }
        i += 1;
    }
    proof {
        assert(ms@.skip(n as int) =~= Seq::<(String, Json)>::empty());
        assert(view_json_obj(ms@.skip(n as int)) =~= Seq::<(Seq<char>, GJson)>::empty());
    }
    None
}

proof fn lemma_view_json_obj_drop_first(ms: Seq<(String, Json)>)
    requires
        ms.len() > 0,
    ensures
        view_json_obj(ms).drop_first() =~= view_json_obj(ms.drop_first()),
    decreases ms.len(),
{
    crate::json::lemma_view_json_obj_len(ms);
    assert forall|q: int| 0 <= q < ms.len() - 1 implies view_json_obj(ms).drop_first()[q]
        == view_json_obj(ms.drop_first())[q] by {
        crate::json::lemma_view_json_obj_index(ms, q + 1);
        crate::json::lemma_view_json_obj_len(ms.drop_first());
        crate::json::lemma_view_json_obj_index(ms.drop_first(), q);
        assert(ms.drop_first()[q] == ms[q + 1]);
    }
    crate::json::lemma_view_json_obj_len(ms.drop_first());
}

/// The tagged JSON object of one node.
#[verifier::rlimit(100)]
#[verifier::spinoff_prover]
pub fn node_to_json(n: &ASTNode) -> (r: Json)
    ensures
        r@ == enc_node(n@),
    decreases n, 3int,
{
    broadcast use vstd::std_specs::vec::group_vec_axioms, vstd::seq::group_seq_axioms;

    match n {
        ASTNode::Root(nd) => {
            let mut ms: Vec<(String, Json)> = Vec::new();
            proof {
                assert(view_json_obj(ms@) =~= Seq::<(Seq<char>, GJson)>::empty());
            }
            let ghost pg = ms@;
            ms.push((String::from_str("type"), Json::Str(String::from_str("root"))));
            proof {
                crate::json::lemma_view_json_obj_push(pg, ms@.last());
                assert(ms@ =~= pg.push(ms@.last()));
            }
            let ghost pg = ms@;
            ms.push((String::from_str("children"), Json::Arr(nodes_to_json(&nd.children))));
            proof {
                crate::json::lemma_view_json_obj_push(pg, ms@.last());
                assert(ms@ =~= pg.push(ms@.last()));
            }
            let r = Json::Obj(ms);
            proof {
                assert(view_json_obj(ms@) =~= seq![
                    ("type"@, GJson::Str("root"@)),
                    (
                        "children"@,
                        GJson::Arr(enc_nodes(crate::ast::view_nodes(nd.children@))),
                    ),
                ]);
                assert(n@ == (GNode::Root { children: crate::ast::view_nodes(nd.children@) }));
                assert(r@ =~= enc_node(n@));
            }
            r
        },
        ASTNode::Paragraph(nd) => {
            let mut ms: Vec<(String, Json)> = Vec::new();
            proof {
                assert(view_json_obj(ms@) =~= Seq::<(Seq<char>, GJson)>::empty());
            }
            let ghost pg = ms@;
            ms.push((String::from_str("type"), Json::Str(String::from_str("paragraph"))));
            proof {
                crate::json::lemma_view_json_obj_push(pg, ms@.last());
                assert(ms@ =~= pg.push(ms@.last()));
            }
            let ghost pg = ms@;
            ms.push((String::from_str("children"), Json::Arr(nodes_to_json(&nd.children))));
            proof {
                crate::json::lemma_view_json_obj_push(pg, ms@.last());
                assert(ms@ =~= pg.push(ms@.last()));
            }
            let r = Json::Obj(ms);
            proof {
                assert(view_json_obj(ms@) =~= seq![
                    ("type"@, GJson::Str("paragraph"@)),
                    ("children"@, GJson::Arr(enc_nodes(crate::ast::view_nodes(nd.children@)))),
                ]);
                assert(n@ == (GNode::Paragraph { children: crate::ast::view_nodes(nd.children@) }));
                assert(r@ =~= enc_node(n@));
            }
            r
        },
        ASTNode::Heading(nd) => {
            let mut ms: Vec<(String, Json)> = Vec::new();
            proof {
                assert(view_json_obj(ms@) =~= Seq::<(Seq<char>, GJson)>::empty());
            }
            let ghost pg = ms@;
            ms.push((String::from_str("type"), Json::Str(String::from_str("heading"))));
            proof {
                crate::json::lemma_view_json_obj_push(pg, ms@.last());
                assert(ms@ =~= pg.push(ms@.last()));
            }
            let ghost pg = ms@;
            ms.push((String::from_str("level"), Json::Num(crate::numstr::u64_to_dec(nd.level as u64))));
            proof {
                crate::json::lemma_view_json_obj_push(pg, ms@.last());
                assert(ms@ =~= pg.push(ms@.last()));
            }
            let ghost pg = ms@;
            ms.push((String::from_str("children"), Json::Arr(nodes_to_json(&nd.children))));
            proof {
                crate::json::lemma_view_json_obj_push(pg, ms@.last());
                assert(ms@ =~= pg.push(ms@.last()));
            }
            let r = Json::Obj(ms);
            proof {
                assert(view_json_obj(ms@) =~= seq![
                    ("type"@, GJson::Str("heading"@)),
                    ("level"@, GJson::Num(crate::numstr::u64_digits(nd.level as nat))),
                    ("children"@, GJson::Arr(enc_nodes(crate::ast::view_nodes(nd.children@)))),
                ]);
                assert(n@ == (GNode::Heading { level: nd.level, children: crate::ast::view_nodes(nd.children@) }));
                assert(r@ =~= enc_node(n@));
            }
            r
        },
        ASTNode::Text(nd) => {
            let mut ms: Vec<(String, Json)> = Vec::new();
            proof {
                assert(view_json_obj(ms@) =~= Seq::<(Seq<char>, GJson)>::empty());
            }
            let ghost pg = ms@;
            ms.push((String::from_str("type"), Json::Str(String::from_str("text"))));
            proof {
                crate::json::lemma_view_json_obj_push(pg, ms@.last());
                assert(ms@ =~= pg.push(ms@.last()));
            }
            let ghost pg = ms@;
            ms.push((String::from_str("content"), Json::Str(nd.content.clone())));
            proof {
                crate::json::lemma_view_json_obj_push(pg, ms@.last());
                assert(ms@ =~= pg.push(ms@.last()));
            }
            let r = Json::Obj(ms);
            proof {
                assert(view_json_obj(ms@) =~= seq![
                    ("type"@, GJson::Str("text"@)),
                    ("content"@, GJson::Str(nd.content@)),
                ]);
                assert(n@ == (GNode::Text { content: nd.content@ }));
                assert(r@ =~= enc_node(n@));
            }
            r
        },
        ASTNode::Strong(nd) => {
            let mut ms: Vec<(String, Json)> = Vec::new();
            proof {
                assert(view_json_obj(ms@) =~= Seq::<(Seq<char>, GJson)>::empty());
            }
            let ghost pg = ms@;
            ms.push((String::from_str("type"), Json::Str(String::from_str("strong"))));
            proof {
                crate::json::lemma_view_json_obj_push(pg, ms@.last());
                assert(ms@ =~= pg.push(ms@.last()));
            }
            let ghost pg = ms@;
            ms.push((String::from_str("children"), Json::Arr(nodes_to_json(&nd.children))));
            proof {
                crate::json::lemma_view_json_obj_push(pg, ms@.last());
                assert(ms@ =~= pg.push(ms@.last()));
            }
            let r = Json::Obj(ms);
            proof {
                assert(view_json_obj(ms@) =~= seq![
                    ("type"@, GJson::Str("strong"@)),
                    ("children"@, GJson::Arr(enc_nodes(crate::ast::view_nodes(nd.children@)))),
                ]);
                assert(n@ == (GNode::Strong { children: crate::ast::view_nodes(nd.children@) }));
                assert(r@ =~= enc_node(n@));
            }
            r
        },
        ASTNode::Em(nd) => {
            let mut ms: Vec<(String, Json)> = Vec::new();
            proof {
                assert(view_json_obj(ms@) =~= Seq::<(Seq<char>, GJson)>::empty());
            }
            let ghost pg = ms@;
            ms.push((String::from_str("type"), Json::Str(String::from_str("em"))));
            proof {
                crate::json::lemma_view_json_obj_push(pg, ms@.last());
                assert(ms@ =~= pg.push(ms@.last()));
            }
            let ghost pg = ms@;
            ms.push((String::from_str("children"), Json::Arr(nodes_to_json(&nd.children))));
            proof {
                crate::json::lemma_view_json_obj_push(pg, ms@.last());
                assert(ms@ =~= pg.push(ms@.last()));
            }
            let r = Json::Obj(ms);
            proof {
                assert(view_json_obj(ms@) =~= seq![
                    ("type"@, GJson::Str("em"@)),
                    ("children"@, GJson::Arr(enc_nodes(crate::ast::view_nodes(nd.children@)))),
                ]);
                assert(n@ == (GNode::Em { children: crate::ast::view_nodes(nd.children@) }));
                assert(r@ =~= enc_node(n@));
            }
            r
        },
        ASTNode::Underline(nd) => {
            let mut ms: Vec<(String, Json)> = Vec::new();
            proof {
                assert(view_json_obj(ms@) =~= Seq::<(Seq<char>, GJson)>::empty());
            }
            let ghost pg = ms@;
            ms.push((String::from_str("type"), Json::Str(String::from_str("underline"))));
            proof {
                crate::json::lemma_view_json_obj_push(pg, ms@.last());
                assert(ms@ =~= pg.push(ms@.last()));
            }
            let ghost pg = ms@;
            ms.push((String::from_str("children"), Json::Arr(nodes_to_json(&nd.children))));
            proof {
                crate::json::lemma_view_json_obj_push(pg, ms@.last());
                assert(ms@ =~= pg.push(ms@.last()));
            }
            let r = Json::Obj(ms);
            proof {
                assert(view_json_obj(ms@) =~= seq![
                    ("type"@, GJson::Str("underline"@)),
                    ("children"@, GJson::Arr(enc_nodes(crate::ast::view_nodes(nd.children@)))),
                ]);
                assert(n@ == (GNode::Underline { children: crate::ast::view_nodes(nd.children@) }));
                assert(r@ =~= enc_node(n@));
            }
            r
        },
        ASTNode::Strike(nd) => {
            let mut ms: Vec<(String, Json)> = Vec::new();
            proof {
                assert(view_json_obj(ms@) =~= Seq::<(Seq<char>, GJson)>::empty());
            }
            let ghost pg = ms@;
            ms.push((String::from_str("type"), Json::Str(String::from_str("strike"))));
            proof {
                crate::json::lemma_view_json_obj_push(pg, ms@.last());
                assert(ms@ =~= pg.push(ms@.last()));
            }
            let ghost pg = ms@;
            ms.push((String::from_str("children"), Json::Arr(nodes_to_json(&nd.children))));
            proof {
                crate::json::lemma_view_json_obj_push(pg, ms@.last());
                assert(ms@ =~= pg.push(ms@.last()));
            }
            let r = Json::Obj(ms);
            proof {
                assert(view_json_obj(ms@) =~= seq![
                    ("type"@, GJson::Str("strike"@)),
                    ("children"@, GJson::Arr(enc_nodes(crate::ast::view_nodes(nd.children@)))),
                ]);
                assert(n@ == (GNode::Strike { children: crate::ast::view_nodes(nd.children@) }));
                assert(r@ =~= enc_node(n@));
            }
            r
        },
        ASTNode::Color(nd) => {
            let mut ms: Vec<(String, Json)> = Vec::new();
            proof {
                assert(view_json_obj(ms@) =~= Seq::<(Seq<char>, GJson)>::empty());
            }
            let ghost pg = ms@;
            ms.push((String::from_str("type"), Json::Str(String::from_str("color"))));
            proof {
                crate::json::lemma_view_json_obj_push(pg, ms@.last());
                assert(ms@ =~= pg.push(ms@.last()));
            }
            let ghost pg = ms@;
            ms.push((String::from_str("color"), Json::Str(nd.color.clone())));
            proof {
                crate::json::lemma_view_json_obj_push(pg, ms@.last());
                assert(ms@ =~= pg.push(ms@.last()));
            }
            let ghost pg = ms@;
            ms.push((String::from_str("children"), Json::Arr(nodes_to_json(&nd.children))));
            proof {
                crate::json::lemma_view_json_obj_push(pg, ms@.last());
                assert(ms@ =~= pg.push(ms@.last()));
            }
            let r = Json::Obj(ms);
            proof {
                assert(view_json_obj(ms@) =~= seq![
                    ("type"@, GJson::Str("color"@)),
                    ("color"@, GJson::Str(nd.color@)),
                    ("children"@, GJson::Arr(enc_nodes(crate::ast::view_nodes(nd.children@)))),
                ]);
                assert(n@ == (GNode::Color { color: nd.color@, children: crate::ast::view_nodes(nd.children@) }));
                assert(r@ =~= enc_node(n@));
            }
            r
        },
        ASTNode::Code(nd) => {
            let mut ms: Vec<(String, Json)> = Vec::new();
            proof {
                assert(view_json_obj(ms@) =~= Seq::<(Seq<char>, GJson)>::empty());
            }
            let ghost pg = ms@;
            ms.push((String::from_str("type"), Json::Str(String::from_str("code"))));
            proof {
                crate::json::lemma_view_json_obj_push(pg, ms@.last());
                assert(ms@ =~= pg.push(ms@.last()));
            }
            let ghost pg = ms@;
            ms.push((String::from_str("content"), Json::Str(nd.content.clone())));
            proof {
                crate::json::lemma_view_json_obj_push(pg, ms@.last());
                assert(ms@ =~= pg.push(ms@.last()));
            }
            let r = Json::Obj(ms);
            proof {
                assert(view_json_obj(ms@) =~= seq![
                    ("type"@, GJson::Str("code"@)),
                    ("content"@, GJson::Str(nd.content@)),
                ]);
                assert(n@ == (GNode::Code { content: nd.content@ }));
                assert(r@ =~= enc_node(n@));
            }
            r
        },
        ASTNode::CodeBlock(nd) => {
            let mut ms: Vec<(String, Json)> = Vec::new();
            proof {
                assert(view_json_obj(ms@) =~= Seq::<(Seq<char>, GJson)>::empty());
            }
            let ghost pg = ms@;
            ms.push((String::from_str("type"), Json::Str(String::from_str("codeBlock"))));
            proof {
                crate::json::lemma_view_json_obj_push(pg, ms@.last());
                assert(ms@ =~= pg.push(ms@.last()));
            }
            let ghost pg = ms@;
            ms.push((String::from_str("language"), match &nd.language {
                Some(sv) => Json::Str(sv.clone()),
                None => Json::Null,
            }));
            proof {
                crate::json::lemma_view_json_obj_push(pg, ms@.last());
                assert(ms@ =~= pg.push(ms@.last()));
            }
            let ghost pg = ms@;
            ms.push((String::from_str("content"), Json::Str(nd.content.clone())));
            proof {
                crate::json::lemma_view_json_obj_push(pg, ms@.last());
                assert(ms@ =~= pg.push(ms@.last()));
            }
            let r = Json::Obj(ms);
            proof {
                assert(view_json_obj(ms@) =~= seq![
                    ("type"@, GJson::Str("codeBlock"@)),
                    ("language"@, enc_opt_str(crate::ast::view_opt_str(nd.language))),
                    ("content"@, GJson::Str(nd.content@)),
                ]);
                assert(n@ == (GNode::CodeBlock { language: crate::ast::view_opt_str(nd.language), content: nd.content@ }));
                assert(r@ =~= enc_node(n@));
            }
            r
        },
        ASTNode::Link(nd) => {
            let mut ms: Vec<(String, Json)> = Vec::new();
            proof {
                assert(view_json_obj(ms@) =~= Seq::<(Seq<char>, GJson)>::empty());
            }
            let ghost pg = ms@;
            ms.push((String::from_str("type"), Json::Str(String::from_str("link"))));
            proof {
                crate::json::lemma_view_json_obj_push(pg, ms@.last());
                assert(ms@ =~= pg.push(ms@.last()));
            }
            let ghost pg = ms@;
            ms.push((String::from_str("url"), Json::Str(nd.url.clone())));
            proof {
                crate::json::lemma_view_json_obj_push(pg, ms@.last());
                assert(ms@ =~= pg.push(ms@.last()));
            }
            let ghost pg = ms@;
            ms.push((String::from_str("children"), Json::Arr(nodes_to_json(&nd.children))));
            proof {
                crate::json::lemma_view_json_obj_push(pg, ms@.last());
                assert(ms@ =~= pg.push(ms@.last()));
            }
            let r = Json::Obj(ms);
            proof {
                assert(view_json_obj(ms@) =~= seq![
                    ("type"@, GJson::Str("link"@)),
                    ("url"@, GJson::Str(nd.url@)),
                    ("children"@, GJson::Arr(enc_nodes(crate::ast::view_nodes(nd.children@)))),
                ]);
                assert(n@ == (GNode::Link { url: nd.url@, children: crate::ast::view_nodes(nd.children@) }));
                assert(r@ =~= enc_node(n@));
            }
            r
        },
        ASTNode::Image(nd) => {
            let mut ms: Vec<(String, Json)> = Vec::new();
            proof {
                assert(view_json_obj(ms@) =~= Seq::<(Seq<char>, GJson)>::empty());
            }
            let ghost pg = ms@;
            ms.push((String::from_str("type"), Json::Str(String::from_str("image"))));
            proof {
                crate::json::lemma_view_json_obj_push(pg, ms@.last());
                assert(ms@ =~= pg.push(ms@.last()));
            }
            let ghost pg = ms@;
            ms.push((String::from_str("url"), Json::Str(nd.url.clone())));
            proof {
                crate::json::lemma_view_json_obj_push(pg, ms@.last());
                assert(ms@ =~= pg.push(ms@.last()));
            }
            let ghost pg = ms@;
            ms.push((String::from_str("width"), match nd.width {
                Some(v) => Json::Num(crate::numstr::u64_to_dec(v)),
                None => Json::Null,
            }));
            proof {
                crate::json::lemma_view_json_obj_push(pg, ms@.last());
                assert(ms@ =~= pg.push(ms@.last()));
            }
            let ghost pg = ms@;
            ms.push((String::from_str("height"), match nd.height {
                Some(v) => Json::Num(crate::numstr::u64_to_dec(v)),
                None => Json::Null,
            }));
            proof {
                crate::json::lemma_view_json_obj_push(pg, ms@.last());
                assert(ms@ =~= pg.push(ms@.last()));
            }
            let ghost pg = ms@;
            ms.push((String::from_str("alt"), match &nd.alt {
                Some(sv) => Json::Str(sv.clone()),
                None => Json::Null,
            }));
            proof {
                crate::json::lemma_view_json_obj_push(pg, ms@.last());
                assert(ms@ =~= pg.push(ms@.last()));
            }
            let r = Json::Obj(ms);
            proof {
                assert(view_json_obj(ms@) =~= seq![
                    ("type"@, GJson::Str("image"@)),
                    ("url"@, GJson::Str(nd.url@)),
                    ("width"@, enc_opt_u64(nd.width)),
                    ("height"@, enc_opt_u64(nd.height)),
                    ("alt"@, enc_opt_str(crate::ast::view_opt_str(nd.alt))),
                ]);
                assert(n@ == (GNode::Image { url: nd.url@, width: nd.width, height: nd.height, alt: crate::ast::view_opt_str(nd.alt) }));
                assert(r@ =~= enc_node(n@));
            }
            r
        },
        ASTNode::List(nd) => {
            let mut ms: Vec<(String, Json)> = Vec::new();
            proof {
                assert(view_json_obj(ms@) =~= Seq::<(Seq<char>, GJson)>::empty());
            }
            let ghost pg = ms@;
            ms.push((String::from_str("type"), Json::Str(String::from_str("list"))));
            proof {
                crate::json::lemma_view_json_obj_push(pg, ms@.last());
                assert(ms@ =~= pg.push(ms@.last()));
            }
            let ghost pg = ms@;
            ms.push((String::from_str("listType"), match nd.list_type {
                crate::ast::ListType::Bullet => Json::Str(String::from_str("bullet")),
                crate::ast::ListType::Ordered => Json::Str(String::from_str("ordered")),
            }));
            proof {
                crate::json::lemma_view_json_obj_push(pg, ms@.last());
                assert(ms@ =~= pg.push(ms@.last()));
            }
            let ghost pg = ms@;
            ms.push((String::from_str("items"), Json::Arr(items_to_json(&nd.items))));
            proof {
                crate::json::lemma_view_json_obj_push(pg, ms@.last());
                assert(ms@ =~= pg.push(ms@.last()));
            }
            let r = Json::Obj(ms);
            proof {
                assert(view_json_obj(ms@) =~= seq![
                    ("type"@, GJson::Str("list"@)),
                    ("listType"@, enc_list_type(nd.list_type)),
                    ("items"@, GJson::Arr(enc_items(crate::ast::view_items(nd.items@)))),
                ]);
                assert(n@ == (GNode::List { list_type: nd.list_type, items: crate::ast::view_items(nd.items@) }));
                assert(r@ =~= enc_node(n@));
            }
            r
        },
        ASTNode::ListItem(nd) => {
            let mut ms: Vec<(String, Json)> = Vec::new();
            proof {
                assert(view_json_obj(ms@) =~= Seq::<(Seq<char>, GJson)>::empty());
            }
            let ghost pg = ms@;
            ms.push((String::from_str("type"), Json::Str(String::from_str("listItem"))));
            proof {
                crate::json::lemma_view_json_obj_push(pg, ms@.last());
                assert(ms@ =~= pg.push(ms@.last()));
            }
            let ghost pg = ms@;
            ms.push((String::from_str("children"), Json::Arr(nodes_to_json(&nd.children))));
            proof {
                crate::json::lemma_view_json_obj_push(pg, ms@.last());
                assert(ms@ =~= pg.push(ms@.last()));
            }
            let ghost pg = ms@;
            ms.push((String::from_str("checked"), match nd.checked {
                Some(v) => Json::Bool(v),
                None => Json::Null,
            }));
            proof {
                crate::json::lemma_view_json_obj_push(pg, ms@.last());
                assert(ms@ =~= pg.push(ms@.last()));
            }
            let r = Json::Obj(ms);
            proof {
                assert(view_json_obj(ms@) =~= seq![
                    ("type"@, GJson::Str("listItem"@)),
                    ("children"@, GJson::Arr(enc_nodes(crate::ast::view_nodes(nd.children@)))),
                    ("checked"@, enc_opt_bool(nd.checked)),
                ]);
                assert(n@ == (GNode::ListItem { item: nd@ }));
                assert(view_json_obj(ms@) =~= seq![("type"@, GJson::Str("listItem"@))]
                    + enc_item_fields(nd@));
                assert(r@ =~= enc_node(n@));
            }
            r
        },
        ASTNode::Table(nd) => {
            let mut ms: Vec<(String, Json)> = Vec::new();
            proof {
                assert(view_json_obj(ms@) =~= Seq::<(Seq<char>, GJson)>::empty());
            }
            let ghost pg = ms@;
            ms.push((String::from_str("type"), Json::Str(String::from_str("table"))));
            proof {
                crate::json::lemma_view_json_obj_push(pg, ms@.last());
                assert(ms@ =~= pg.push(ms@.last()));
            }
            let ghost pg = ms@;
            ms.push((String::from_str("rows"), Json::Arr(rows_to_json(&nd.rows))));
            proof {
                crate::json::lemma_view_json_obj_push(pg, ms@.last());
                assert(ms@ =~= pg.push(ms@.last()));
            }
            let r = Json::Obj(ms);
            proof {
                assert(view_json_obj(ms@) =~= seq![
                    ("type"@, GJson::Str("table"@)),
                    ("rows"@, GJson::Arr(enc_rows(crate::ast::view_rows(nd.rows@)))),
                ]);
                assert(n@ == (GNode::Table { rows: crate::ast::view_rows(nd.rows@) }));
                assert(r@ =~= enc_node(n@));
            }
            r
        },
        ASTNode::TableRow(nd) => {
            let mut ms: Vec<(String, Json)> = Vec::new();
            proof {
                assert(view_json_obj(ms@) =~= Seq::<(Seq<char>, GJson)>::empty());
            }
            let ghost pg = ms@;
            ms.push((String::from_str("type"), Json::Str(String::from_str("tableRow"))));
            proof {
                crate::json::lemma_view_json_obj_push(pg, ms@.last());
                assert(ms@ =~= pg.push(ms@.last()));
            }
            let ghost pg = ms@;
            ms.push((String::from_str("cells"), Json::Arr(cells_to_json(&nd.cells))));
            proof {
                crate::json::lemma_view_json_obj_push(pg, ms@.last());
                assert(ms@ =~= pg.push(ms@.last()));
            }
            let r = Json::Obj(ms);
            proof {
                assert(view_json_obj(ms@) =~= seq![
                    ("type"@, GJson::Str("tableRow"@)),
                    ("cells"@, GJson::Arr(enc_cells(crate::ast::view_cells(nd.cells@)))),
                ]);
                assert(n@ == (GNode::TableRow { row: nd@ }));
                assert(view_json_obj(ms@) =~= seq![("type"@, GJson::Str("tableRow"@))]
                    + enc_row_fields(nd@));
                assert(r@ =~= enc_node(n@));
            }
            r
        },
        ASTNode::TableCell(nd) => {
            let mut ms: Vec<(String, Json)> = Vec::new();
            proof {
                assert(view_json_obj(ms@) =~= Seq::<(Seq<char>, GJson)>::empty());
            }
            let ghost pg = ms@;
            ms.push((String::from_str("type"), Json::Str(String::from_str("tableCell"))));
            proof {
                crate::json::lemma_view_json_obj_push(pg, ms@.last());
                assert(ms@ =~= pg.push(ms@.last()));
            }
            let ghost pg = ms@;
            ms.push((String::from_str("children"), Json::Arr(nodes_to_json(&nd.children))));
            proof {
                crate::json::lemma_view_json_obj_push(pg, ms@.last());
                assert(ms@ =~= pg.push(ms@.last()));
            }
            let ghost pg = ms@;
            ms.push((String::from_str("align"), match nd.align {
                None => Json::Null,
                Some(crate::ast::TextAlign::Left) => Json::Str(String::from_str("left")),
                Some(crate::ast::TextAlign::Center) => Json::Str(String::from_str("center")),
                Some(crate::ast::TextAlign::Right) => Json::Str(String::from_str("right")),
            }));
            proof {
                crate::json::lemma_view_json_obj_push(pg, ms@.last());
                assert(ms@ =~= pg.push(ms@.last()));
            }
            let r = Json::Obj(ms);
            proof {
                assert(view_json_obj(ms@) =~= seq![
                    ("type"@, GJson::Str("tableCell"@)),
                    ("children"@, GJson::Arr(enc_nodes(crate::ast::view_nodes(nd.children@)))),
                    ("align"@, enc_align(nd.align)),
                ]);
                assert(n@ == (GNode::TableCell { cell: nd@ }));
                assert(view_json_obj(ms@) =~= seq![("type"@, GJson::Str("tableCell"@))]
                    + enc_cell_fields(nd@));
                assert(r@ =~= enc_node(n@));
            }
            r
        },
        ASTNode::Math(nd) => {
            let mut ms: Vec<(String, Json)> = Vec::new();
            proof {
                assert(view_json_obj(ms@) =~= Seq::<(Seq<char>, GJson)>::empty());
            }
            let ghost pg = ms@;
            ms.push((String::from_str("type"), Json::Str(String::from_str("math"))));
            proof {
                crate::json::lemma_view_json_obj_push(pg, ms@.last());
                assert(ms@ =~= pg.push(ms@.last()));
            }
            let ghost pg = ms@;
            ms.push((String::from_str("content"), Json::Str(nd.content.clone())));
            proof {
                crate::json::lemma_view_json_obj_push(pg, ms@.last());
                assert(ms@ =~= pg.push(ms@.last()));
            }
            let ghost pg = ms@;
            ms.push((String::from_str("display"), Json::Bool(nd.display)));
            proof {
                crate::json::lemma_view_json_obj_push(pg, ms@.last());
                assert(ms@ =~= pg.push(ms@.last()));
            }
            let r = Json::Obj(ms);
            proof {
                assert(view_json_obj(ms@) =~= seq![
                    ("type"@, GJson::Str("math"@)),
                    ("content"@, GJson::Str(nd.content@)),
                    ("display"@, GJson::Bool(nd.display)),
                ]);
                assert(n@ == (GNode::Math { content: nd.content@, display: nd.display }));
                assert(r@ =~= enc_node(n@));
            }
            r
        },
        ASTNode::Mermaid(nd) => {
            let mut ms: Vec<(String, Json)> = Vec::new();
            proof {
                assert(view_json_obj(ms@) =~= Seq::<(Seq<char>, GJson)>::empty());
            }
            let ghost pg = ms@;
            ms.push((String::from_str("type"), Json::Str(String::from_str("mermaid"))));
            proof {
                crate::json::lemma_view_json_obj_push(pg, ms@.last());
                assert(ms@ =~= pg.push(ms@.last()));
            }
            let ghost pg = ms@;
            ms.push((String::from_str("content"), Json::Str(nd.content.clone())));
            proof {
                crate::json::lemma_view_json_obj_push(pg, ms@.last());
                assert(ms@ =~= pg.push(ms@.last()));
            }
            let r = Json::Obj(ms);
            proof {
                assert(view_json_obj(ms@) =~= seq![
                    ("type"@, GJson::Str("mermaid"@)),
                    ("content"@, GJson::Str(nd.content@)),
                ]);
                assert(n@ == (GNode::Mermaid { content: nd.content@ }));
                assert(r@ =~= enc_node(n@));
            }
            r
        },
        ASTNode::Card(nd) => {
            let mut ms: Vec<(String, Json)> = Vec::new();
            proof {
                assert(view_json_obj(ms@) =~= Seq::<(Seq<char>, GJson)>::empty());
            }
            let ghost pg = ms@;
            ms.push((String::from_str("type"), Json::Str(String::from_str("card"))));
            proof {
                crate::json::lemma_view_json_obj_push(pg, ms@.last());
                assert(ms@ =~= pg.push(ms@.last()));
            }
            let ghost pg = ms@;
            ms.push((String::from_str("subtype"), Json::Str(nd.subtype.clone())));
            proof {
                crate::json::lemma_view_json_obj_push(pg, ms@.last());
                assert(ms@ =~= pg.push(ms@.last()));
            }
            let ghost pg = ms@;
            ms.push((String::from_str("content"), Json::Str(nd.content.clone())));
            proof {
                crate::json::lemma_view_json_obj_push(pg, ms@.last());
                assert(ms@ =~= pg.push(ms@.last()));
            }
            let ghost pg = ms@;
            ms.push((String::from_str("metadata"), Json::Obj(meta_to_json(&nd.metadata))));
            proof {
                crate::json::lemma_view_json_obj_push(pg, ms@.last());
                assert(ms@ =~= pg.push(ms@.last()));
            }
            let r = Json::Obj(ms);
            proof {
                assert(view_json_obj(ms@) =~= seq![
                    ("type"@, GJson::Str("card"@)),
                    ("subtype"@, GJson::Str(nd.subtype@)),
                    ("content"@, GJson::Str(nd.content@)),
                    ("metadata"@, GJson::Obj(enc_meta(crate::ast::view_meta(nd.metadata@)))),
                ]);
                assert(n@ == (GNode::Card { subtype: nd.subtype@, content: nd.content@, metadata: crate::ast::view_meta(nd.metadata@) }));
                assert(r@ =~= enc_node(n@));
            }
            r
        },
        ASTNode::Mention(nd) => {
            let mut ms: Vec<(String, Json)> = Vec::new();
            proof {
                assert(view_json_obj(ms@) =~= Seq::<(Seq<char>, GJson)>::empty());
            }
            let ghost pg = ms@;
            ms.push((String::from_str("type"), Json::Str(String::from_str("mention"))));
            proof {
                crate::json::lemma_view_json_obj_push(pg, ms@.last());
                assert(ms@ =~= pg.push(ms@.last()));
            }
            let ghost pg = ms@;
            ms.push((String::from_str("id"), Json::Str(nd.id.clone())));
            proof {
                crate::json::lemma_view_json_obj_push(pg, ms@.last());
                assert(ms@ =~= pg.push(ms@.last()));
            }
            let ghost pg = ms@;
            ms.push((String::from_str("name"), Json::Str(nd.name.clone())));
            proof {
                crate::json::lemma_view_json_obj_push(pg, ms@.last());
                assert(ms@ =~= pg.push(ms@.last()));
            }
            let r = Json::Obj(ms);
            proof {
                assert(view_json_obj(ms@) =~= seq![
                    ("type"@, GJson::Str("mention"@)),
                    ("id"@, GJson::Str(nd.id@)),
                    ("name"@, GJson::Str(nd.name@)),
                ]);
                assert(n@ == (GNode::Mention { id: nd.id@, name: nd.name@ }));
                assert(r@ =~= enc_node(n@));
            }
            r
        },
        ASTNode::Emoji(nd) => {
            let mut ms: Vec<(String, Json)> = Vec::new();
            proof {
                assert(view_json_obj(ms@) =~= Seq::<(Seq<char>, GJson)>::empty());
            }
            let ghost pg = ms@;
            ms.push((String::from_str("type"), Json::Str(String::from_str("emoji"))));
            proof {
                crate::json::lemma_view_json_obj_push(pg, ms@.last());
                assert(ms@ =~= pg.push(ms@.last()));
            }
            let ghost pg = ms@;
            ms.push((String::from_str("content"), Json::Str(nd.content.clone())));
            proof {
                crate::json::lemma_view_json_obj_push(pg, ms@.last());
                assert(ms@ =~= pg.push(ms@.last()));
            }
            let r = Json::Obj(ms);
            proof {
                assert(view_json_obj(ms@) =~= seq![
                    ("type"@, GJson::Str("emoji"@)),
                    ("content"@, GJson::Str(nd.content@)),
                ]);
                assert(n@ == (GNode::Emoji { content: nd.content@ }));
                assert(r@ =~= enc_node(n@));
            }
            r
        },
        ASTNode::HorizontalRule(nd) => {
            let mut ms: Vec<(String, Json)> = Vec::new();
            proof {
                assert(view_json_obj(ms@) =~= Seq::<(Seq<char>, GJson)>::empty());
            }
            let ghost pg = ms@;
            ms.push((String::from_str("type"), Json::Str(String::from_str("horizontalRule"))));
            proof {
                crate::json::lemma_view_json_obj_push(pg, ms@.last());
                assert(ms@ =~= pg.push(ms@.last()));
            }
            let r = Json::Obj(ms);
            proof {
                assert(view_json_obj(ms@) =~= seq![
                    ("type"@, GJson::Str("horizontalRule"@)),
                ]);
                assert(n@ == (GNode::HorizontalRule));
                assert(r@ =~= enc_node(n@));
            }
            r
        },
        ASTNode::Blockquote(nd) => {
            let mut ms: Vec<(String, Json)> = Vec::new();
            proof {
                assert(view_json_obj(ms@) =~= Seq::<(Seq<char>, GJson)>::empty());
            }
            let ghost pg = ms@;
            ms.push((String::from_str("type"), Json::Str(String::from_str("blockquote"))));
            proof {
                crate::json::lemma_view_json_obj_push(pg, ms@.last());
                assert(ms@ =~= pg.push(ms@.last()));
            }
            let ghost pg = ms@;
            ms.push((String::from_str("children"), Json::Arr(nodes_to_json(&nd.children))));
            proof {
                crate::json::lemma_view_json_obj_push(pg, ms@.last());
                assert(ms@ =~= pg.push(ms@.last()));
            }
            let r = Json::Obj(ms);
            proof {
                assert(view_json_obj(ms@) =~= seq![
                    ("type"@, GJson::Str("blockquote"@)),
                    ("children"@, GJson::Arr(enc_nodes(crate::ast::view_nodes(nd.children@)))),
                ]);
                assert(n@ == (GNode::Blockquote { children: crate::ast::view_nodes(nd.children@) }));
                assert(r@ =~= enc_node(n@));
            }
            r
        },
    }
}

/// The JSON array elements of a node list.
pub fn nodes_to_json(ns: &Vec<ASTNode>) -> (r: Vec<Json>)
    ensures
        view_json_arr(r@) == enc_nodes(crate::ast::view_nodes(ns@)),
    decreases ns, 4int,
{
    let ghost gv = crate::ast::view_nodes(ns@);
    let mut out: Vec<Json> = Vec::new();
    let n = ns.len();
    let mut k: usize = 0;
    proof {
        crate::ast::lemma_view_nodes_len(ns@);
        assert(gv.take(0) =~= Seq::<GNode>::empty());
        assert(view_json_arr(out@) =~= Seq::<GJson>::empty());
    }
    while k < n
        invariant
            k <= n,
            n == ns@.len(),
            gv == crate::ast::view_nodes(ns@),
            gv.len() == n,
            view_json_arr(out@) == enc_nodes(gv.take(k as int)),
        decreases n - k,
    {
        proof {
            crate::ast::lemma_view_nodes_index(ns@, k as int);
            assert(gv.take(k as int + 1).drop_last() =~= gv.take(k as int));
            assert(gv.take(k as int + 1).last() == gv[k as int]);
            assert(decreases_to!(*ns => ns@[k as int]));
        }
        let j = node_to_json(&ns[k]);
        let ghost pg = out@;
        out.push(j);
        proof {
            crate::json::lemma_view_json_arr_push(pg, out@.last());
            assert(out@ =~= pg.push(out@.last()));
            assert(view_json_arr(out@) =~= enc_nodes(gv.take(k as int + 1)));
        }
        k += 1;
    }
    proof {
        assert(gv.take(n as int) =~= gv);
    }
    out
}

/// The bare JSON objects of a list's items.
pub fn items_to_json(items: &Vec<crate::ast::ListItemNode>) -> (r: Vec<Json>)
    ensures
        view_json_arr(r@) == enc_items(crate::ast::view_items(items@)),
    decreases items, 4int,
{
    let ghost gv = crate::ast::view_items(items@);
    let mut out: Vec<Json> = Vec::new();
    let n = items.len();
    let mut k: usize = 0;
    proof {
        crate::ast::lemma_view_items_len(items@);
        assert(gv.take(0) =~= Seq::<crate::ast::GListItem>::empty());
        assert(view_json_arr(out@) =~= Seq::<GJson>::empty());
    }
    while k < n
        invariant
            k <= n,
            n == items@.len(),
            gv == crate::ast::view_items(items@),
            gv.len() == n,
            view_json_arr(out@) == enc_items(gv.take(k as int)),
        decreases n - k,
    {
        proof {
            crate::ast::lemma_view_items_index(items@, k as int);
            assert(gv.take(k as int + 1).drop_last() =~= gv.take(k as int));
            assert(gv.take(k as int + 1).last() == gv[k as int]);
            assert(decreases_to!(*items => items@[k as int]));
        }
        let it = &items[k];
        let mut ms: Vec<(String, Json)> = Vec::new();
        proof {
            assert(view_json_obj(ms@) =~= Seq::<(Seq<char>, GJson)>::empty());
            assert(decreases_to!(items@[k as int] => items@[k as int].children));
        }
        let ghost p0 = ms@;
        ms.push((String::from_str("children"), Json::Arr(nodes_to_json(&it.children))));
        proof {
            crate::json::lemma_view_json_obj_push(p0, ms@.last());
            assert(ms@ =~= p0.push(ms@.last()));
        }
        let ghost p1 = ms@;
        ms.push(
            (
                String::from_str("checked"),
                match it.checked {
                    Some(v) => Json::Bool(v),
                    None => Json::Null,
                },
            ),
        );
        proof {
            crate::json::lemma_view_json_obj_push(p1, ms@.last());
            assert(ms@ =~= p1.push(ms@.last()));
        }
        let j = Json::Obj(ms);
        proof {
            assert(view_json_obj(j->Obj_0@) =~= enc_item_fields(gv[k as int]));
        }
        let ghost pg = out@;
        out.push(j);
        proof {
            crate::json::lemma_view_json_arr_push(pg, out@.last());
            assert(out@ =~= pg.push(out@.last()));
            assert(view_json_arr(out@) =~= enc_items(gv.take(k as int + 1)));
        }
        k += 1;
    }
    proof {
        assert(gv.take(n as int) =~= gv);
    }
    out
}

/// The bare JSON objects of a table's rows.
pub fn rows_to_json(rows: &Vec<crate::ast::TableRow>) -> (r: Vec<Json>)
    ensures
        view_json_arr(r@) == enc_rows(crate::ast::view_rows(rows@)),
    decreases rows, 6int,
{
    let ghost gv = crate::ast::view_rows(rows@);
    let mut out: Vec<Json> = Vec::new();
    let n = rows.len();
    let mut k: usize = 0;
    proof {
        crate::ast::lemma_view_rows_len(rows@);
        assert(gv.take(0) =~= Seq::<crate::ast::GRow>::empty());
        assert(view_json_arr(out@) =~= Seq::<GJson>::empty());
    }
    while k < n
        invariant
            k <= n,
            n == rows@.len(),
            gv == crate::ast::view_rows(rows@),
            gv.len() == n,
            view_json_arr(out@) == enc_rows(gv.take(k as int)),
        decreases n - k,
    {
        proof {
            crate::ast::lemma_view_rows_index(rows@, k as int);
            assert(gv.take(k as int + 1).drop_last() =~= gv.take(k as int));
            assert(gv.take(k as int + 1).last() == gv[k as int]);
            assert(decreases_to!(*rows => rows@[k as int]));
            assert(decreases_to!(rows@[k as int] => rows@[k as int].cells));
        }
        let mut ms: Vec<(String, Json)> = Vec::new();
        proof {
            assert(view_json_obj(ms@) =~= Seq::<(Seq<char>, GJson)>::empty());
        }
        let ghost p0 = ms@;
        ms.push((String::from_str("cells"), Json::Arr(cells_to_json(&rows[k].cells))));
        proof {
            crate::json::lemma_view_json_obj_push(p0, ms@.last());
            assert(ms@ =~= p0.push(ms@.last()));
        }
        let j = Json::Obj(ms);
        proof {
            assert(view_json_obj(j->Obj_0@) =~= enc_row_fields(gv[k as int]));
        }
        let ghost pg = out@;
        out.push(j);
        proof {
            crate::json::lemma_view_json_arr_push(pg, out@.last());
            assert(out@ =~= pg.push(out@.last()));
            assert(view_json_arr(out@) =~= enc_rows(gv.take(k as int + 1)));
        }
        k += 1;
    }
    proof {
        assert(gv.take(n as int) =~= gv);
    }
    out
}

/// The bare JSON objects of a row's cells.
pub fn cells_to_json(cells: &Vec<crate::ast::TableCell>) -> (r: Vec<Json>)
    ensures
        view_json_arr(r@) == enc_cells(crate::ast::view_cells(cells@)),
    decreases cells, 4int,
{
    let ghost gv = crate::ast::view_cells(cells@);
    let mut out: Vec<Json> = Vec::new();
    let n = cells.len();
    let mut k: usize = 0;
    proof {
        crate::ast::lemma_view_cells_len(cells@);
        assert(gv.take(0) =~= Seq::<crate::ast::GCell>::empty());
        assert(view_json_arr(out@) =~= Seq::<GJson>::empty());
    }
    while k < n
        invariant
            k <= n,
            n == cells@.len(),
            gv == crate::ast::view_cells(cells@),
            gv.len() == n,
            view_json_arr(out@) == enc_cells(gv.take(k as int)),
        decreases n - k,
    {
        proof {
            crate::ast::lemma_view_cells_index(cells@, k as int);
            assert(gv.take(k as int + 1).drop_last() =~= gv.take(k as int));
            assert(gv.take(k as int + 1).last() == gv[k as int]);
            assert(decreases_to!(*cells => cells@[k as int]));
            assert(decreases_to!(cells@[k as int] => cells@[k as int].children));
        }
        let it = &cells[k];
        let mut ms: Vec<(String, Json)> = Vec::new();
        proof {
            assert(view_json_obj(ms@) =~= Seq::<(Seq<char>, GJson)>::empty());
        }
        let ghost p0 = ms@;
        ms.push((String::from_str("children"), Json::Arr(nodes_to_json(&it.children))));
        proof {
            crate::json::lemma_view_json_obj_push(p0, ms@.last());
            assert(ms@ =~= p0.push(ms@.last()));
        }
        let ghost p1 = ms@;
        ms.push(
            (
                String::from_str("align"),
                match it.align {
                    None => Json::Null,
                    Some(crate::ast::TextAlign::Left) => Json::Str(String::from_str("left")),
                    Some(crate::ast::TextAlign::Center) => Json::Str(String::from_str("center")),
                    Some(crate::ast::TextAlign::Right) => Json::Str(String::from_str("right")),
                },
            ),
        );
        proof {
            crate::json::lemma_view_json_obj_push(p1, ms@.last());
            assert(ms@ =~= p1.push(ms@.last()));
        }
        let j = Json::Obj(ms);
        proof {
            assert(view_json_obj(j->Obj_0@) =~= enc_cell_fields(gv[k as int]));
        }
        let ghost pg = out@;
        out.push(j);
        proof {
            crate::json::lemma_view_json_arr_push(pg, out@.last());
            assert(out@ =~= pg.push(out@.last()));
            assert(view_json_arr(out@) =~= enc_cells(gv.take(k as int + 1)));
        }
        k += 1;
    }
    proof {
        assert(gv.take(n as int) =~= gv);
    }
    out
}

/// The JSON object members of a card's metadata map.
pub fn meta_to_json(meta: &Vec<(String, String)>) -> (r: Vec<(String, Json)>)
    ensures
        view_json_obj(r@) == enc_meta(crate::ast::view_meta(meta@)),
{
    let ghost gv = crate::ast::view_meta(meta@);
    let mut out: Vec<(String, Json)> = Vec::new();
    let n = meta.len();
    let mut k: usize = 0;
    proof {
        lemma_view_meta_len(meta@);
        assert(gv.take(0) =~= Seq::<(Seq<char>, Seq<char>)>::empty());
        assert(view_json_obj(out@) =~= Seq::<(Seq<char>, GJson)>::empty());
    }
    while k < n
        invariant
            k <= n,
            n == meta@.len(),
            gv == crate::ast::view_meta(meta@),
            gv.len() == n,
            view_json_obj(out@) == enc_meta(gv.take(k as int)),
        decreases n - k,
    {
        proof {
            lemma_view_meta_index(meta@, k as int);
            assert(gv.take(k as int + 1).drop_last() =~= gv.take(k as int));
            assert(gv.take(k as int + 1).last() == gv[k as int]);
        }
        let ghost pg = out@;
        out.push((meta[k].0.clone(), Json::Str(meta[k].1.clone())));
        proof {
            crate::json::lemma_view_json_obj_push(pg, out@.last());
            assert(out@ =~= pg.push(out@.last()));
            assert(view_json_obj(out@) =~= enc_meta(gv.take(k as int + 1)));
        }
        k += 1;
    }
    proof {
        assert(gv.take(n as int) =~= gv);
    }
    out
}

proof fn lemma_view_meta_len(s: Seq<(String, String)>)
    ensures
        crate::ast::view_meta(s).len() == s.len(),
    decreases s.len(),
{
    if s.len() > 0 {
        lemma_view_meta_len(s.drop_last());
        assert(crate::ast::view_meta(s) == crate::ast::view_meta(s.drop_last()).push(
            (s.last().0@, s.last().1@),
        ));
    }
}

proof fn lemma_view_meta_index(s: Seq<(String, String)>, i: int)
    requires
        0 <= i < s.len(),
    ensures
        crate::ast::view_meta(s)[i] == (s[i].0@, s[i].1@),
    decreases s.len(),
{
    lemma_view_meta_len(s);
    lemma_view_meta_len(s.drop_last());
    assert(crate::ast::view_meta(s) == crate::ast::view_meta(s.drop_last()).push(
        (s.last().0@, s.last().1@),
    ));
    if i < s.len() - 1 {
        lemma_view_meta_index(s.drop_last(), i);
        assert(s.drop_last()[i] == s[i]);
    }
}



proof fn lemma_dec_nodes_fail(s: Seq<GJson>, k: int)
    requires
        0 <= k < s.len(),
        dec_node(s[k]) is None,
    ensures
        dec_nodes(s) is None,
    decreases s.len(),
{
    if k < s.len() - 1 {
        assert(s.drop_last()[k] == s[k]);
        lemma_dec_nodes_fail(s.drop_last(), k);
    }
}

proof fn lemma_dec_items_fail(s: Seq<GJson>, k: int)
    requires
        0 <= k < s.len(),
        dec_item_obj(s[k]) is None,
    ensures
        dec_items(s) is None,
    decreases s.len(),
{
    if k < s.len() - 1 {
        assert(s.drop_last()[k] == s[k]);
        lemma_dec_items_fail(s.drop_last(), k);
    }
}

proof fn lemma_dec_rows_fail(s: Seq<GJson>, k: int)
    requires
        0 <= k < s.len(),
        dec_row_obj(s[k]) is None,
    ensures
        dec_rows(s) is None,
    decreases s.len(),
{
    if k < s.len() - 1 {
        assert(s.drop_last()[k] == s[k]);
        lemma_dec_rows_fail(s.drop_last(), k);
    }
}

proof fn lemma_dec_cells_fail(s: Seq<GJson>, k: int)
    requires
        0 <= k < s.len(),
        dec_cell_obj(s[k]) is None,
    ensures
        dec_cells(s) is None,
    decreases s.len(),
{
    if k < s.len() - 1 {
        assert(s.drop_last()[k] == s[k]);
        lemma_dec_cells_fail(s.drop_last(), k);
    }
}

proof fn lemma_dec_meta_fail(s: Seq<(Seq<char>, GJson)>, k: int)
    requires
        0 <= k < s.len(),
        dec_str(s[k].1) is None,
    ensures
        dec_meta(s) is None,
    decreases s.len(),
{
    if k < s.len() - 1 {
        assert(s.drop_last()[k] == s[k]);
        lemma_dec_meta_fail(s.drop_last(), k);
    }
}

/// Decode an optional string member value.
fn dec_opt_str_x(j: &Json) -> (r: Option<Option<String>>)
    ensures
        match r {
            Some(o) => dec_opt_str(j@) == Some(crate::ast::view_opt_str(o)),
            None => dec_opt_str(j@) is None,
        },
{
    match j {
        Json::Null => Some(None),
        Json::Str(s) => Some(Some(s.clone())),
        _ => None,
    }
}

/// Decode an optional boolean member value.
fn dec_opt_bool_x(j: &Json) -> (r: Option<Option<bool>>)
    ensures
        match r {
            Some(o) => dec_opt_bool(j@) == Some(o),
            None => dec_opt_bool(j@) is None,
        },
{
    match j {
        Json::Null => Some(None),
        Json::Bool(b) => Some(Some(*b)),
        _ => None,
    }
}

/// Decode an optional unsigned number member value.
fn dec_opt_u64_x(j: &Json) -> (r: Option<Option<u64>>)
    ensures
        match r {
            Some(o) => dec_opt_u64(j@) == Some(o),
            None => dec_opt_u64(j@) is None,
        },
{
    match j {
        Json::Null => Some(None),
        Json::Num(s) => {
            let cs = crate::json::str_to_chars(s.as_str());
            match crate::numstr::parse_u64_dec(&cs) {
                Some(v) => Some(Some(v)),
                None => None,
            }
        },
        _ => None,
    }
}

/// Decode a heading level member value.
fn dec_level_x(j: &Json) -> (r: Option<u8>)
    ensures
        r == dec_level(j@),
{
    match j {
        Json::Num(s) => {
            let cs = crate::json::str_to_chars(s.as_str());
            match crate::numstr::parse_u64_dec(&cs) {
                Some(v) => if v <= 255 {
                    Some(v as u8)
                } else {
                    None
                },
                None => None,
            }
        },
        _ => None,
    }
}

/// Decode a cell alignment member value.
fn dec_align_x(j: &Json) -> (r: Option<Option<TextAlign>>)
    ensures
        match r {
            Some(o) => dec_align(j@) == Some(o),
            None => dec_align(j@) is None,
        },
{
    match j {
        Json::Null => Some(None),
        Json::Str(s) => {
            if s.eq(&String::from_str("left")) {
                Some(Some(TextAlign::Left))
            } else if s.eq(&String::from_str("center")) {
                Some(Some(TextAlign::Center))
            } else if s.eq(&String::from_str("right")) {
                Some(Some(TextAlign::Right))
            } else {
                None
            }
        },
        _ => None,
    }
}

/// Decode a list kind member value.
fn dec_list_type_x(j: &Json) -> (r: Option<ListType>)
    ensures
        r == dec_list_type(j@),
{
    match j {
        Json::Str(s) => {
            if s.eq(&String::from_str("bullet")) {
                Some(ListType::Bullet)
            } else if s.eq(&String::from_str("ordered")) {
                Some(ListType::Ordered)
            } else {
                None
            }
        },
        _ => None,
    }
}

/// Decode a metadata object's members.
fn json_to_meta(ms: &Vec<(String, Json)>) -> (r: Option<Vec<(String, String)>>)
    ensures
        match r {
            Some(m) => dec_meta(view_json_obj(ms@)) == Some(crate::ast::view_meta(m@)),
            None => dec_meta(view_json_obj(ms@)) is None,
        },
{
    let ghost gv = view_json_obj(ms@);
    let mut out: Vec<(String, String)> = Vec::new();
    let n = ms.len();
    let mut k: usize = 0;
    proof {
        crate::json::lemma_view_json_obj_len(ms@);
        assert(gv.take(0) =~= Seq::<(Seq<char>, GJson)>::empty());
        assert(crate::ast::view_meta(out@) =~= Seq::<(Seq<char>, Seq<char>)>::empty());
    }
    while k < n
        invariant
            k <= n,
            n == ms@.len(),
            gv == view_json_obj(ms@),
            gv.len() == n,
            dec_meta(gv.take(k as int)) == Some(crate::ast::view_meta(out@)),
        decreases n - k,
    {
        proof {
            crate::json::lemma_view_json_obj_index(ms@, k as int);
            assert(gv.take(k as int + 1).drop_last() =~= gv.take(k as int));
            assert(gv.take(k as int + 1).last() == gv[k as int]);
        }
        match &ms[k].1 {
            Json::Str(v) => {
                let ghost pg = out@;
                out.push((ms[k].0.clone(), v.clone()));
                proof {
                    crate::ast::lemma_view_meta_push(pg, out@.last());
                    assert(out@ =~= pg.push(out@.last()));
                }
            },
            _ => {
                proof {
                    lemma_dec_meta_fail(gv, k as int);
                }
                return None;
            },
        }
        k += 1;
    }
    proof {
        assert(gv.take(n as int) =~= gv);
    }
    Some(out)
}

/// Decode a JSON array as a node list.
pub fn json_to_nodes(a: &Vec<Json>) -> (r: Option<Vec<ASTNode>>)
    ensures
        match r {
            Some(ns) => dec_nodes(view_json_arr(a@)) == Some(crate::ast::view_nodes(ns@)),
            None => dec_nodes(view_json_arr(a@)) is None,
        },
    decreases a, 4int,
{
    let ghost gv = view_json_arr(a@);
    let mut out: Vec<ASTNode> = Vec::new();
    let n = a.len();
    let mut k: usize = 0;
    proof {
        crate::json::lemma_view_json_arr_len(a@);
        assert(gv.take(0) =~= Seq::<GJson>::empty());
        assert(crate::ast::view_nodes(out@) =~= Seq::<GNode>::empty());
    }
    while k < n
        invariant
            k <= n,
            n == a@.len(),
            gv == view_json_arr(a@),
            gv.len() == n,
            dec_nodes(gv.take(k as int)) == Some(crate::ast::view_nodes(out@)),
        decreases n - k,
    {
        proof {
            crate::json::lemma_view_json_arr_index(a@, k as int);
            assert(gv.take(k as int + 1).drop_last() =~= gv.take(k as int));
            assert(gv.take(k as int + 1).last() == gv[k as int]);
            assert(decreases_to!(*a => a@[k as int]));
        }
        match json_to_node(&a[k]) {
            Some(node) => {
                let ghost pg = out@;
                out.push(node);
                proof {
                    crate::ast::lemma_view_nodes_push(pg, out@.last());
                    assert(out@ =~= pg.push(out@.last()));
                }
            },
            None => {
                proof {
                    lemma_dec_nodes_fail(gv, k as int);
                }
                return None;
            },
        }
        k += 1;
    }
    proof {
        assert(gv.take(n as int) =~= gv);
    }
    Some(out)
}

/// Decode the `children` array member of an object.
fn dec_children_x(ms: &Vec<(String, Json)>, Ghost(bound): Ghost<Json>) -> (r: Option<
    Vec<ASTNode>,
>)
    requires
        bound == Json::Obj(*ms),
    ensures
        match r {
            Some(ns) => dec_children(view_json_obj(ms@)) == Some(crate::ast::view_nodes(ns@)),
            None => dec_children(view_json_obj(ms@)) is None,
        },
    decreases bound, 2int,
{
    let key = String::from_str("children");
    match obj_get_x(ms, &key) {
        Some(Json::Arr(cs)) => {
            proof {
                let i = choose|i: int|
                    0 <= i < ms@.len() && Json::Arr(*cs) == #[trigger] ms@[i].1;
                assert(decreases_to!(bound => bound->Obj_0));
                assert(decreases_to!(*ms => ms@[i]));
                assert(decreases_to!(ms@[i] => ms@[i].1));
            }
            match json_to_nodes(cs) {
                Some(ns) => Some(ns),
                None => None,
            }
        },
        _ => None,
    }
}

/// Decode one tagged document node.
#[verifier::rlimit(100)]
#[verifier::spinoff_prover]
pub fn json_to_node(j: &Json) -> (r: Option<ASTNode>)
    ensures
        match r {
            Some(n) => dec_node(j@) == Some(n@),
            None => dec_node(j@) is None,
        },
    decreases j, 3int,
{
    broadcast use vstd::std_specs::vec::group_vec_axioms, vstd::seq::group_seq_axioms;

    let ghost bound = *j;
    let ms = match j {
        Json::Obj(ms) => ms,
        _ => {
            return None;
        },
    };
    let tag_s = match obj_get_x(ms, &String::from_str("type")) {
        Some(Json::Str(t)) => t,
        _ => {
            return None;
        },
    };
        if tag_s.eq(&String::from_str("root")) {
            return match dec_children_x(ms, Ghost(bound)) {
                Some(children) => Some(
                    ASTNode::Root(crate::ast::RootNode { children }),
                ),
                None => None,
            };
        }
        if tag_s.eq(&String::from_str("paragraph")) {
            return match dec_children_x(ms, Ghost(bound)) {
                Some(children) => Some(
                    ASTNode::Paragraph(crate::ast::ParagraphNode { children }),
                ),
                None => None,
            };
        }
        if tag_s.eq(&String::from_str("heading")) {
            let lj = match obj_get_x(ms, &String::from_str("level")) {
                Some(v) => v,
                None => {
                    return None;
                },
            };
            return match dec_children_x(ms, Ghost(bound)) {
                Some(children) => match dec_level_x(lj) {
                    Some(level) => Some(
                        ASTNode::Heading(crate::ast::HeadingNode { level, children }),
                    ),
                    None => None,
                },
                None => None,
            };
        }
        if tag_s.eq(&String::from_str("text")) {
            return match obj_get_x(ms, &String::from_str("content")) {
                Some(Json::Str(c)) => Some(
                    ASTNode::Text(crate::ast::TextNode { content: c.clone() }),
                ),
                _ => None,
            };
        }
        if tag_s.eq(&String::from_str("strong")) {
            return match dec_children_x(ms, Ghost(bound)) {
                Some(children) => Some(
                    ASTNode::Strong(crate::ast::StrongNode { children }),
                ),
                None => None,
            };
        }
        if tag_s.eq(&String::from_str("em")) {
            return match dec_children_x(ms, Ghost(bound)) {
                Some(children) => Some(
                    ASTNode::Em(crate::ast::EmNode { children }),
                ),
                None => None,
            };
        }
        if tag_s.eq(&String::from_str("underline")) {
            return match dec_children_x(ms, Ghost(bound)) {
                Some(children) => Some(
                    ASTNode::Underline(crate::ast::UnderlineNode { children }),
                ),
                None => None,
            };
        }
        if tag_s.eq(&String::from_str("strike")) {
            return match dec_children_x(ms, Ghost(bound)) {
                Some(children) => Some(
                    ASTNode::Strike(crate::ast::StrikeNode { children }),
                ),
                None => None,
            };
        }
        if tag_s.eq(&String::from_str("color")) {
            return match obj_get_x(ms, &String::from_str("color")) {
                Some(Json::Str(c)) => match dec_children_x(ms, Ghost(bound)) {
                    Some(children) => Some(
                        ASTNode::Color(
                            crate::ast::ColorNode { color: c.clone(), children },
                        ),
                    ),
                    None => None,
                },
                _ => None,
            };
        }
        if tag_s.eq(&String::from_str("code")) {
            return match obj_get_x(ms, &String::from_str("content")) {
                Some(Json::Str(c)) => Some(
                    ASTNode::Code(crate::ast::CodeNode { content: c.clone() }),
                ),
                _ => None,
            };
        }
        if tag_s.eq(&String::from_str("codeBlock")) {
            let lj = match obj_get_x(ms, &String::from_str("language")) {
                Some(v) => v,
                None => {
                    return None;
                },
            };
            return match obj_get_x(ms, &String::from_str("content")) {
                Some(Json::Str(c)) => match dec_opt_str_x(lj) {
                    Some(language) => Some(
                        ASTNode::CodeBlock(
                            crate::ast::CodeBlockNode { language, content: c.clone() },
                        ),
                    ),
                    None => None,
                },
                _ => None,
            };
        }
        if tag_s.eq(&String::from_str("link")) {
            return match obj_get_x(ms, &String::from_str("url")) {
                Some(Json::Str(u)) => match dec_children_x(ms, Ghost(bound)) {
                    Some(children) => Some(
                        ASTNode::Link(crate::ast::LinkNode { url: u.clone(), children }),
                    ),
                    None => None,
                },
                _ => None,
            };
        }
        if tag_s.eq(&String::from_str("image")) {
            let uj = match obj_get_x(ms, &String::from_str("url")) {
                Some(Json::Str(u)) => u.clone(),
                _ => {
                    return None;
                },
            };
            let wj = match obj_get_x(ms, &String::from_str("width")) {
                Some(v) => v,
                None => {
                    return None;
                },
            };
            let hj = match obj_get_x(ms, &String::from_str("height")) {
                Some(v) => v,
                None => {
                    return None;
                },
            };
            let aj = match obj_get_x(ms, &String::from_str("alt")) {
                Some(v) => v,
                None => {
                    return None;
                },
            };
            return match (dec_opt_u64_x(wj), dec_opt_u64_x(hj), dec_opt_str_x(aj)) {
                (Some(width), Some(height), Some(alt)) => Some(
                    ASTNode::Image(crate::ast::ImageNode { url: uj, width, height, alt }),
                ),
                _ => None,
            };
        }
        if tag_s.eq(&String::from_str("list")) {
            let tj = match obj_get_x(ms, &String::from_str("listType")) {
                Some(v) => v,
                None => {
                    return None;
                },
            };
            return match obj_get_x(ms, &String::from_str("items")) {
                Some(Json::Arr(is_)) => {
                    proof {
                        let i = choose|i: int|
                            0 <= i < ms@.len() && Json::Arr(*is_) == #[trigger] ms@[i].1;
                        assert(decreases_to!(bound => bound->Obj_0));
                        assert(decreases_to!(*ms => ms@[i]));
                        assert(decreases_to!(ms@[i] => ms@[i].1));
                    }
                    match (dec_list_type_x(tj), json_to_items(is_)) {
                        (Some(list_type), Some(items)) => Some(
                            ASTNode::List(crate::ast::ListNode { list_type, items }),
                        ),
                        _ => None,
                    }
                },
                _ => None,
            };
        }
        if tag_s.eq(&String::from_str("listItem")) {
            return match dec_item_obj_x(ms, Ghost(bound)) {
                Some(item) => Some(ASTNode::ListItem(item)),
                None => None,
            };
        }
        if tag_s.eq(&String::from_str("table")) {
            return match obj_get_x(ms, &String::from_str("rows")) {
                Some(Json::Arr(rs)) => {
                    proof {
                        let i = choose|i: int|
                            0 <= i < ms@.len() && Json::Arr(*rs) == #[trigger] ms@[i].1;
                        assert(decreases_to!(bound => bound->Obj_0));
                        assert(decreases_to!(*ms => ms@[i]));
                        assert(decreases_to!(ms@[i] => ms@[i].1));
                    }
                    match json_to_rows(rs) {
                        Some(rows) => Some(ASTNode::Table(crate::ast::TableNode { rows })),
                        None => None,
                    }
                },
                _ => None,
            };
        }
        if tag_s.eq(&String::from_str("tableRow")) {
            return match dec_row_obj_x(ms, Ghost(bound)) {
                Some(row) => Some(ASTNode::TableRow(row)),
                None => None,
            };
        }
        if tag_s.eq(&String::from_str("tableCell")) {
            return match dec_cell_obj_x(ms, Ghost(bound)) {
                Some(cell) => Some(ASTNode::TableCell(cell)),
                None => None,
            };
        }
        if tag_s.eq(&String::from_str("math")) {
            let dj = match obj_get_x(ms, &String::from_str("display")) {
                Some(v) => v,
                None => {
                    return None;
                },
            };
            return match obj_get_x(ms, &String::from_str("content")) {
                Some(Json::Str(c)) => match dj {
                    Json::Bool(display) => Some(
                        ASTNode::Math(
                            crate::ast::MathNode { content: c.clone(), display: *display },
                        ),
                    ),
                    _ => None,
                },
                _ => None,
            };
        }
        if tag_s.eq(&String::from_str("mermaid")) {
            return match obj_get_x(ms, &String::from_str("content")) {
                Some(Json::Str(c)) => Some(
                    ASTNode::Mermaid(crate::ast::MermaidNode { content: c.clone() }),
                ),
                _ => None,
            };
        }
        if tag_s.eq(&String::from_str("card")) {
            let sj = match obj_get_x(ms, &String::from_str("subtype")) {
                Some(Json::Str(st)) => st.clone(),
                _ => {
                    return None;
                },
            };
            let cj = match obj_get_x(ms, &String::from_str("content")) {
                Some(Json::Str(c)) => c.clone(),
                _ => {
                    return None;
                },
            };
            return match obj_get_x(ms, &String::from_str("metadata")) {
                Some(Json::Obj(mm)) => match json_to_meta(mm) {
                    Some(metadata) => Some(
                        ASTNode::Card(
                            crate::ast::CardNode { subtype: sj, content: cj, metadata },
                        ),
                    ),
                    None => None,
                },
                _ => None,
            };
        }
        if tag_s.eq(&String::from_str("mention")) {
            let ij = match obj_get_x(ms, &String::from_str("id")) {
                Some(Json::Str(v)) => v.clone(),
                _ => {
                    return None;
                },
            };
            return match obj_get_x(ms, &String::from_str("name")) {
                Some(Json::Str(nm)) => Some(
                    ASTNode::Mention(crate::ast::MentionNode { id: ij, name: nm.clone() }),
                ),
                _ => None,
            };
        }
        if tag_s.eq(&String::from_str("emoji")) {
            return match obj_get_x(ms, &String::from_str("content")) {
                Some(Json::Str(c)) => Some(
                    ASTNode::Emoji(crate::ast::EmojiNode { content: c.clone() }),
                ),
                _ => None,
            };
        }
        if tag_s.eq(&String::from_str("horizontalRule")) {
            return Some(ASTNode::HorizontalRule(crate::ast::HorizontalRuleNode));
        }
        if tag_s.eq(&String::from_str("blockquote")) {
            return match dec_children_x(ms, Ghost(bound)) {
                Some(children) => Some(
                    ASTNode::Blockquote(crate::ast::BlockquoteNode { children }),
                ),
                None => None,
            };
        }
    None
}

/// Decode a bare list-item object's members.
fn dec_item_obj_x(ms: &Vec<(String, Json)>, Ghost(bound): Ghost<Json>) -> (r: Option<
    crate::ast::ListItemNode,
>)
    requires
        bound == Json::Obj(*ms),
    ensures
        match r {
            Some(it) => dec_item_obj(GJson::Obj(view_json_obj(ms@))) == Some(it@),
            None => dec_item_obj(GJson::Obj(view_json_obj(ms@))) is None,
        },
    decreases bound, 2int,
{
    let cj = match obj_get_x(ms, &String::from_str("checked")) {
        Some(v) => v,
        None => {
            return None;
        },
    };
    match obj_get_x(ms, &String::from_str("children")) {
        Some(Json::Arr(cs)) => {
            proof {
                let i = choose|i: int| 0 <= i < ms@.len() && Json::Arr(*cs) == #[trigger] ms@[i].1;
                assert(decreases_to!(bound => bound->Obj_0));
                assert(decreases_to!(*ms => ms@[i]));
                assert(decreases_to!(ms@[i] => ms@[i].1));
            }
            match (json_to_nodes(cs), dec_opt_bool_x(cj)) {
                (Some(children), Some(checked)) => Some(
                    crate::ast::ListItemNode { children, checked },
                ),
                _ => None,
            }
        },
        _ => None,
    }
}

/// Decode a bare table-cell object's members.
fn dec_cell_obj_x(ms: &Vec<(String, Json)>, Ghost(bound): Ghost<Json>) -> (r: Option<
    crate::ast::TableCell,
>)
    requires
        bound == Json::Obj(*ms),
    ensures
        match r {
            Some(c) => dec_cell_obj(GJson::Obj(view_json_obj(ms@))) == Some(c@),
            None => dec_cell_obj(GJson::Obj(view_json_obj(ms@))) is None,
        },
    decreases bound, 2int,
{
    let aj = match obj_get_x(ms, &String::from_str("align")) {
        Some(v) => v,
        None => {
            return None;
        },
    };
    match obj_get_x(ms, &String::from_str("children")) {
        Some(Json::Arr(cs)) => {
            proof {
                let i = choose|i: int| 0 <= i < ms@.len() && Json::Arr(*cs) == #[trigger] ms@[i].1;
                assert(decreases_to!(bound => bound->Obj_0));
                assert(decreases_to!(*ms => ms@[i]));
                assert(decreases_to!(ms@[i] => ms@[i].1));
            }
            match (json_to_nodes(cs), dec_align_x(aj)) {
                (Some(children), Some(align)) => Some(crate::ast::TableCell { children, align }),
                _ => None,
            }
        },
        _ => None,
    }
}

/// Decode a bare table-row object's members.
fn dec_row_obj_x(ms: &Vec<(String, Json)>, Ghost(bound): Ghost<Json>) -> (r: Option<
    crate::ast::TableRow,
>)
    requires
        bound == Json::Obj(*ms),
    ensures
        match r {
            Some(c) => dec_row_obj(GJson::Obj(view_json_obj(ms@))) == Some(c@),
            None => dec_row_obj(GJson::Obj(view_json_obj(ms@))) is None,
        },
    decreases bound, 2int,
{
    match obj_get_x(ms, &String::from_str("cells")) {
        Some(Json::Arr(cs)) => {
            proof {
                let i = choose|i: int| 0 <= i < ms@.len() && Json::Arr(*cs) == #[trigger] ms@[i].1;
                assert(decreases_to!(bound => bound->Obj_0));
                assert(decreases_to!(*ms => ms@[i]));
                assert(decreases_to!(ms@[i] => ms@[i].1));
            }
            match json_to_cells(cs) {
                Some(cells) => Some(crate::ast::TableRow { cells }),
                None => None,
            }
        },
        _ => None,
    }
}

/// Decode a JSON array as bare list items.
fn json_to_items(a: &Vec<Json>) -> (r: Option<Vec<crate::ast::ListItemNode>>)
    ensures
        match r {
            Some(its) => dec_items(view_json_arr(a@)) == Some(crate::ast::view_items(its@)),
            None => dec_items(view_json_arr(a@)) is None,
        },
    decreases a, 4int,
{
    let ghost gv = view_json_arr(a@);
    let mut out: Vec<crate::ast::ListItemNode> = Vec::new();
    let n = a.len();
    let mut k: usize = 0;
    proof {
        crate::json::lemma_view_json_arr_len(a@);
        assert(gv.take(0) =~= Seq::<GJson>::empty());
        assert(crate::ast::view_items(out@) =~= Seq::<GListItem>::empty());
    }
    while k < n
        invariant
            k <= n,
            n == a@.len(),
            gv == view_json_arr(a@),
            gv.len() == n,
            dec_items(gv.take(k as int)) == Some(crate::ast::view_items(out@)),
        decreases n - k,
    {
        proof {
            crate::json::lemma_view_json_arr_index(a@, k as int);
            assert(gv.take(k as int + 1).drop_last() =~= gv.take(k as int));
            assert(gv.take(k as int + 1).last() == gv[k as int]);
            assert(decreases_to!(*a => a@[k as int]));
        }
        let mms = match &a[k] {
            Json::Obj(mms) => mms,
            _ => {
                proof {
                    lemma_dec_items_fail(gv, k as int);
                }
                return None;
            },
        };
        match dec_item_obj_x(mms, Ghost(a@[k as int])) {
            Some(item) => {
                let ghost pg = out@;
                out.push(item);
                proof {
                    crate::ast::lemma_view_items_push(pg, out@.last());
                    assert(out@ =~= pg.push(out@.last()));
                }
            },
            None => {
                proof {
                    lemma_dec_items_fail(gv, k as int);
                }
                return None;
            },
        }
        k += 1;
    }
    proof {
        assert(gv.take(n as int) =~= gv);
    }
    Some(out)
}

/// Decode a JSON array as bare table rows.
fn json_to_rows(a: &Vec<Json>) -> (r: Option<Vec<crate::ast::TableRow>>)
    ensures
        match r {
            Some(rs) => dec_rows(view_json_arr(a@)) == Some(crate::ast::view_rows(rs@)),
            None => dec_rows(view_json_arr(a@)) is None,
        },
    decreases a, 6int,
{
    let ghost gv = view_json_arr(a@);
    let mut out: Vec<crate::ast::TableRow> = Vec::new();
    let n = a.len();
    let mut k: usize = 0;
    proof {
        crate::json::lemma_view_json_arr_len(a@);
        assert(gv.take(0) =~= Seq::<GJson>::empty());
        assert(crate::ast::view_rows(out@) =~= Seq::<crate::ast::GRow>::empty());
    }
    while k < n
        invariant
            k <= n,
            n == a@.len(),
            gv == view_json_arr(a@),
            gv.len() == n,
            dec_rows(gv.take(k as int)) == Some(crate::ast::view_rows(out@)),
        decreases n - k,
    {
        proof {
            crate::json::lemma_view_json_arr_index(a@, k as int);
            assert(gv.take(k as int + 1).drop_last() =~= gv.take(k as int));
            assert(gv.take(k as int + 1).last() == gv[k as int]);
            assert(decreases_to!(*a => a@[k as int]));
        }
        let mms = match &a[k] {
            Json::Obj(mms) => mms,
            _ => {
                proof {
                    lemma_dec_rows_fail(gv, k as int);
                }
                return None;
            },
        };
        match dec_row_obj_x(mms, Ghost(a@[k as int])) {
            Some(row) => {
                let ghost pg = out@;
                out.push(row);
                proof {
                    crate::ast::lemma_view_rows_push(pg, out@.last());
                    assert(out@ =~= pg.push(out@.last()));
                }
            },
            None => {
                proof {
                    lemma_dec_rows_fail(gv, k as int);
                }
                return None;
            },
        }
        k += 1;
    }
    proof {
        assert(gv.take(n as int) =~= gv);
    }
    Some(out)
}

/// Decode a JSON array as bare table cells.
fn json_to_cells(a: &Vec<Json>) -> (r: Option<Vec<crate::ast::TableCell>>)
    ensures
        match r {
            Some(cs) => dec_cells(view_json_arr(a@)) == Some(crate::ast::view_cells(cs@)),
            None => dec_cells(view_json_arr(a@)) is None,
        },
    decreases a, 4int,
{
    let ghost gv = view_json_arr(a@);
    let mut out: Vec<crate::ast::TableCell> = Vec::new();
    let n = a.len();
    let mut k: usize = 0;
    proof {
        crate::json::lemma_view_json_arr_len(a@);
        assert(gv.take(0) =~= Seq::<GJson>::empty());
        assert(crate::ast::view_cells(out@) =~= Seq::<crate::ast::GCell>::empty());
    }
    while k < n
        invariant
            k <= n,
            n == a@.len(),
            gv == view_json_arr(a@),
            gv.len() == n,
            dec_cells(gv.take(k as int)) == Some(crate::ast::view_cells(out@)),
        decreases n - k,
    {
        proof {
            crate::json::lemma_view_json_arr_index(a@, k as int);
            assert(gv.take(k as int + 1).drop_last() =~= gv.take(k as int));
            assert(gv.take(k as int + 1).last() == gv[k as int]);
            assert(decreases_to!(*a => a@[k as int]));
        }
        let mms = match &a[k] {
            Json::Obj(mms) => mms,
            _ => {
                proof {
                    lemma_dec_cells_fail(gv, k as int);
                }
                return None;
            },
        };
        match dec_cell_obj_x(mms, Ghost(a@[k as int])) {
            Some(c) => {
                let ghost pg = out@;
                out.push(c);
                proof {
                    crate::ast::lemma_view_cells_push(pg, out@.last());
                    assert(out@ =~= pg.push(out@.last()));
                }
            },
            None => {
                proof {
                    lemma_dec_cells_fail(gv, k as int);
                }
                return None;
            },
        }
        k += 1;
    }
    proof {
        assert(gv.take(n as int) =~= gv);
    }
    Some(out)
}

/// The JSON document of a whole tree: a plain object holding the root's
/// children.
pub open spec fn enc_root_doc(children: Seq<GNode>) -> GJson {
    GJson::Obj(seq![("children"@, GJson::Arr(enc_nodes(children)))])
}

/// The children of a JSON tree document.
pub open spec fn dec_root_doc(j: GJson) -> Option<Seq<GNode>>
    decreases j, 2int,
    via dec_root_doc_decreases
{
    match j {
        GJson::Obj(ms) => match obj_get(ms, "children"@) {
            Some(GJson::Arr(cs)) => dec_nodes(cs),
            _ => None,
        },
        _ => None,
    }
}

#[via_fn]
proof fn dec_root_doc_decreases(j: GJson) {
    match j {
        GJson::Obj(ms) => {
            lemma_obj_get_decreases(ms, "children"@);
        },
        _ => {},
    }
}

/// Decoding an encoded document yields its children back.
pub proof fn lemma_codec_root_doc(children: Seq<GNode>)
    ensures
        dec_root_doc(enc_root_doc(children)) == Some(children),
{
    let ms = enc_root_doc(children)->Obj_0;
    assert(ms[0].0 == "children"@);
    lemma_obj_get_at(ms, 0, "children"@);
    lemma_codec_nodes(children);
}

/// Encode a whole tree as its JSON document.
pub fn root_to_json(ast: &crate::ast::RootNode) -> (r: Json)
    ensures
        r@ == enc_root_doc(ast@),
{
    let mut ms: Vec<(String, Json)> = Vec::new();
    proof {
        assert(view_json_obj(ms@) =~= Seq::<(Seq<char>, GJson)>::empty());
    }
    let ghost pg = ms@;
    ms.push((String::from_str("children"), Json::Arr(nodes_to_json(&ast.children))));
    proof {
        crate::json::lemma_view_json_obj_push(pg, ms@.last());
        assert(ms@ =~= pg.push(ms@.last()));
    }
    let r = Json::Obj(ms);
    proof {
        assert(view_json_obj(r->Obj_0@) =~= enc_root_doc(ast@)->Obj_0);
    }
    r
}

/// Decode a JSON document as a whole tree.
pub fn json_to_root(j: &Json) -> (r: Option<crate::ast::RootNode>)
    ensures
        match r {
            Some(root) => dec_root_doc(j@) == Some(root@),
            None => dec_root_doc(j@) is None,
        },
{
    let ms = match j {
        Json::Obj(ms) => ms,
        _ => {
            return None;
        },
    };
    match obj_get_x(ms, &String::from_str("children")) {
        Some(Json::Arr(cs)) => match json_to_nodes(cs) {
            Some(children) => Some(crate::ast::RootNode { children }),
            None => None,
        },
        _ => None,
    }
}

} // verus!
