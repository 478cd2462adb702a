//! The incremental tree builder: a cursor that accumulates at most one open
//! paragraph, list, table and table row, and flushes each into the root on
//! any conflicting transition. Every method's contract states the exact
//! transition it makes on the builder's model.
use vstd::prelude::*;

use crate::ast::{
    ASTNode, BlockquoteNode, CardNode, CodeBlockNode, CodeNode, EmNode, GListItem, GNode, GRow,
    GCell, HeadingNode, HorizontalRuleNode, ImageNode, LinkNode, ListItemNode, ListNode, ListType,
    MathNode, MentionNode, MermaidNode, ParagraphNode, RootNode, StrikeNode, StrongNode, TableCell,
    TableNode, TableRow, TextAlign, TextNode, UnderlineNode, clamp_level, clamp_heading_level,
    view_meta, view_nodes, view_items, view_cells, view_rows, lemma_view_nodes_push,
    lemma_view_items_push, lemma_view_cells_push, lemma_view_rows_push, view_opt_str,
};

verus! {

broadcast use vstd::std_specs::vec::group_vec_axioms, vstd::seq::group_seq_axioms;

/// Mathematical model of the builder: the finished top-level nodes and the
/// still-open block contexts.
#[verifier::ext_equal]
pub struct GBuilder {
    pub root: Seq<GNode>,
    pub para: Option<Seq<GNode>>,
    pub list: Option<(ListType, Seq<GListItem>)>,
    pub table: Option<Seq<GRow>>,
    pub row: Option<Seq<GCell>>,
}

/// A builder with nothing accumulated.
pub open spec fn empty_builder() -> GBuilder {
    GBuilder { root: Seq::empty(), para: None, list: None, table: None, row: None }
}

/// Close the open paragraph, if any, into the root.
pub open spec fn flush_para(b: GBuilder) -> GBuilder {
    match b.para {
        None => b,
        Some(p) => GBuilder {
            root: b.root.push(GNode::Paragraph { children: p }),
            para: None,
            ..b
        },
    }
}

/// Close the open list, if any, into the root.
pub open spec fn flush_list(b: GBuilder) -> GBuilder {
    match b.list {
        None => b,
        Some((t, items)) => GBuilder {
            root: b.root.push(GNode::List { list_type: t, items }),
            list: None,
            ..b
        },
    }
}

/// Close the open table, if any, into the root.
pub open spec fn flush_table(b: GBuilder) -> GBuilder {
    match b.table {
        None => b,
        Some(rows) => GBuilder {
            root: b.root.push(GNode::Table { rows }),
            table: None,
            ..b
        },
    }
}

/// Append an inline node to the open paragraph, opening one if needed.
pub open spec fn with_inline(b: GBuilder, n: GNode) -> GBuilder {
    match b.para {
        Some(p) => GBuilder { para: Some(p.push(n)), ..b },
        None => GBuilder { para: Some(seq![n]), ..b },
    }
}

/// Close the open paragraph and append a block node to the root.
pub open spec fn with_block(b: GBuilder, n: GNode) -> GBuilder {
    let f = flush_para(b);
    GBuilder { root: f.root.push(n), ..f }
}

pub struct ASTBuilder {
    root: RootNode,
    pub current_paragraph: Option<ParagraphNode>,
    current_list: Option<ListNode>,
    current_table: Option<TableNode>,
    current_table_row: Option<TableRow>,
}

impl View for ASTBuilder {
    type V = GBuilder;

    closed spec fn view(&self) -> GBuilder {
        GBuilder {
            root: view_nodes(self.root.children@),
            para: match self.current_paragraph {
                None => None,
                Some(p) => Some(view_nodes(p.children@)),
            },
            list: match self.current_list {
                None => None,
                Some(l) => Some((l.list_type, view_items(l.items@))),
            },
            table: match self.current_table {
                None => None,
                Some(t) => Some(view_rows(t.rows@)),
            },
            row: match self.current_table_row {
                None => None,
                Some(r) => Some(view_cells(r.cells@)),
            },
        }
    }
}

impl ASTBuilder {
    /// A fresh builder with nothing accumulated.
    pub fn new() -> (r: ASTBuilder)
        ensures
            r@ == empty_builder(),
    {
        let b = ASTBuilder {
            root: RootNode::new(),
            current_paragraph: None,
            current_list: None,
            current_table: None,
            current_table_row: None,
        };
        proof {
            assert(b@ =~= empty_builder());
        }
        b
    }

    /// Reset to a fresh document.
    pub fn start_document(&mut self)
        ensures
            final(self)@ == empty_builder(),
    {
        self.root = RootNode::new();
        self.current_paragraph = None;
        self.current_list = None;
        self.current_table = None;
        self.current_table_row = None;
        proof {
            assert(self@ =~= empty_builder());
        }
    }

    /// Finish: flush any open paragraph, list and table, and hand the root
    /// over, leaving the builder empty.
    pub fn end_document(&mut self) -> (r: RootNode)
        ensures
            r@ == flush_table(flush_list(flush_para(old(self)@))).root,
            final(self)@ == (GBuilder {
                root: Seq::empty(),
                para: None,
                list: None,
                table: None,
                row: old(self)@.row,
            }),
    {
        self.end_paragraph();
        self.end_list();
        self.end_table();
        let mut out = RootNode::new();
        core::mem::swap(&mut out, &mut self.root);
        proof {
            assert(self@ =~= (GBuilder {
                root: Seq::empty(),
                para: None,
                list: None,
                table: None,
                row: old(self)@.row,
            }));
        }
        out
    }

    /// Open a fresh paragraph, first closing any open one.
    pub fn start_paragraph(&mut self)
        ensures
            final(self)@ == (GBuilder {
                para: Some(Seq::empty()),
                ..flush_para(old(self)@)
            }),
    {
        self.end_paragraph();
        self.current_paragraph = Some(ParagraphNode { children: Vec::new() });
        proof {
            assert(self@ =~= (GBuilder { para: Some(Seq::empty()), ..flush_para(old(self)@) }));
        }
    }

    /// Close the open paragraph, if any, into the root.
    pub fn end_paragraph(&mut self)
        ensures
            final(self)@ == flush_para(old(self)@),
    {
        let mut taken: Option<ParagraphNode> = None;
        core::mem::swap(&mut taken, &mut self.current_paragraph);
        match taken {
            Some(para) => {
                let ghost pre = self.root.children@;
                self.root.children.push(ASTNode::Paragraph(para));
                proof {
                    lemma_view_nodes_push(pre, ASTNode::Paragraph(para));
                    assert(self@ =~= flush_para(old(self)@));
                }
            },
            None => {
                proof {
                    assert(self@ =~= flush_para(old(self)@));
                }
            },
        }
    }

    /// Append a text run to the open paragraph (opening one if needed);
    /// empty text is dropped.
    pub fn add_text(&mut self, text: String)
        ensures
            final(self)@ == (if text@.len() == 0 {
                old(self)@
            } else {
                with_inline(old(self)@, GNode::Text { content: text@ })
            }),
    {
        if text.as_str().is_empty() {
            return ;
        }
        let node = ASTNode::Text(TextNode { content: text });
        self.add_inline_node(node);
    }

    /// Close any paragraph and append a heading; the level is clamped
    /// into 1 ..= 6 before it is stored.
    pub fn add_heading(&mut self, level: u8, children: Vec<ASTNode>)
        ensures
            final(self)@ == with_block(
                old(self)@,
                GNode::Heading { level: clamp_level(level), children: view_nodes(children@) },
            ),
    {
        let lv = clamp_heading_level(level);
        self.end_paragraph();
        let ghost pre = self.root.children@;
        let node = ASTNode::Heading(HeadingNode { level: lv, children });
        self.root.children.push(node);
        proof {
            lemma_view_nodes_push(pre, node);
            assert(self@ =~= with_block(
                old(self)@,
                GNode::Heading { level: clamp_level(level), children: view_nodes(children@) },
            ));
        }
    }

    /// Append a strong (bold) wrapper to the open paragraph.
    pub fn add_strong(&mut self, children: Vec<ASTNode>)
        ensures
            final(self)@ == with_inline(
                old(self)@,
                GNode::Strong { children: view_nodes(children@) },
            ),
    {
        self.add_inline_node(ASTNode::Strong(StrongNode { children }));
    }

    /// Append an emphasis (italic) wrapper to the open paragraph.
    pub fn add_em(&mut self, children: Vec<ASTNode>)
        ensures
            final(self)@ == with_inline(old(self)@, GNode::Em { children: view_nodes(children@) }),
    {
        self.add_inline_node(ASTNode::Em(EmNode { children }));
    }

    /// Append an underline wrapper to the open paragraph.
    pub fn add_underline(&mut self, children: Vec<ASTNode>)
        ensures
            final(self)@ == with_inline(
                old(self)@,
                GNode::Underline { children: view_nodes(children@) },
            ),
    {
        self.add_inline_node(ASTNode::Underline(UnderlineNode { children }));
    }

    /// Append a strike-through wrapper to the open paragraph.
    pub fn add_strike(&mut self, children: Vec<ASTNode>)
        ensures
            final(self)@ == with_inline(
                old(self)@,
                GNode::Strike { children: view_nodes(children@) },
            ),
    {
        self.add_inline_node(ASTNode::Strike(StrikeNode { children }));
    }

    /// Append an inline code leaf to the open paragraph.
    pub fn add_code(&mut self, content: String)
        ensures
            final(self)@ == with_inline(old(self)@, GNode::Code { content: content@ }),
    {
        self.add_inline_node(ASTNode::Code(CodeNode { content }));
    }

    /// Close any paragraph and append a code block.
    pub fn add_code_block(&mut self, language: Option<String>, content: String)
        ensures
            final(self)@ == with_block(
                old(self)@,
                GNode::CodeBlock { language: view_opt_str(language), content: content@ },
            ),
    {
        self.end_paragraph();
        let ghost pre = self.root.children@;
        let node = ASTNode::CodeBlock(CodeBlockNode { language, content });
        self.root.children.push(node);
        proof {
            lemma_view_nodes_push(pre, node);
            assert(self@ =~= with_block(
                old(self)@,
                GNode::CodeBlock { language: view_opt_str(language), content: content@ },
            ));
        }
    }

    /// Append a link wrapper to the open paragraph.
    pub fn add_link(&mut self, url: String, children: Vec<ASTNode>)
        ensures
            final(self)@ == with_inline(
                old(self)@,
                GNode::Link { url: url@, children: view_nodes(children@) },
            ),
    {
        self.add_inline_node(ASTNode::Link(LinkNode { url, children }));
    }

    /// Close any paragraph and append a block-level image.
    pub fn add_image(
        &mut self,
        url: String,
        width: Option<u64>,
        height: Option<u64>,
        alt: Option<String>,
    )
        ensures
            final(self)@ == with_block(
                old(self)@,
                GNode::Image { url: url@, width, height, alt: view_opt_str(alt) },
            ),
    {
        self.end_paragraph();
        let ghost pre = self.root.children@;
        let node = ASTNode::Image(ImageNode { url, width, height, alt });
        self.root.children.push(node);
        proof {
            lemma_view_nodes_push(pre, node);
            assert(self@ =~= with_block(
                old(self)@,
                GNode::Image { url: url@, width, height, alt: view_opt_str(alt) },
            ));
        }
    }

    /// Open a fresh list of the given kind, closing any open paragraph
    /// and any open list first.
    pub fn start_list(&mut self, list_type: ListType)
        ensures
            final(self)@ == (GBuilder {
                list: Some((list_type, Seq::empty())),
                ..flush_list(flush_para(old(self)@))
            }),
    {
        self.end_paragraph();
        self.end_list();
        self.current_list = Some(ListNode { list_type, items: Vec::new() });
        proof {
            assert(self@ =~= (GBuilder {
                list: Some((list_type, Seq::empty())),
                ..flush_list(flush_para(old(self)@))
            }));
        }
    }

    /// Close the open list, if any, into the root.
    pub fn end_list(&mut self)
        ensures
            final(self)@ == flush_list(old(self)@),
    {
        let mut taken: Option<ListNode> = None;
        core::mem::swap(&mut taken, &mut self.current_list);
        match taken {
            Some(list) => {
                let ghost pre = self.root.children@;
                self.root.children.push(ASTNode::List(list));
                proof {
                    lemma_view_nodes_push(pre, ASTNode::List(list));
                    assert(self@ =~= flush_list(old(self)@));
                }
            },
            None => {
                proof {
                    assert(self@ =~= flush_list(old(self)@));
                }
            },
        }
    }

    /// Append an item to the open list, opening a bullet list if none is.
    pub fn add_list_item(&mut self, children: Vec<ASTNode>, checked: Option<bool>)
        ensures
            final(self)@ == (match old(self)@.list {
                Some((t, items)) => GBuilder {
                    list: Some(
                        (t, items.push(GListItem { children: view_nodes(children@), checked })),
                    ),
                    ..old(self)@
                },
                None => GBuilder {
                    list: Some(
                        (
                            ListType::Bullet,
                            seq![GListItem { children: view_nodes(children@), checked }],
                        ),
                    ),
                    ..flush_list(flush_para(old(self)@))
                },
            }),
    {
        let item = ListItemNode { children, checked };
        match &mut self.current_list {
            Some(list) => {
                let ghost pre = list.items@;
                list.items.push(item);
                proof {
                    lemma_view_items_push(pre, item);
                    assert(self@ =~= (match old(self)@.list {
                        Some((t, items)) => GBuilder {
                            list: Some((t, items.push(item@))),
                            ..old(self)@
                        },
                        None => old(self)@,
                    }));
                }
            },
            None => {
                self.start_list(ListType::Bullet);
                match &mut self.current_list {
                    Some(list) => {
                        let ghost pre = list.items@;
                        list.items.push(item);
                        proof {
                            lemma_view_items_push(pre, item);
                            assert(view_items(pre) =~= Seq::<GListItem>::empty());
                            assert(view_items(pre).push(item@) =~= seq![item@]);
                            assert(self@ =~= (GBuilder {
                                list: Some((ListType::Bullet, seq![item@])),
                                ..flush_list(flush_para(old(self)@))
                            }));
                        }
                    },
                    None => {
                        proof {
                            assert(false);
                        }
                    },
                }
            },
        }
    }

    /// Open a fresh table, closing any open paragraph and table first.
    pub fn start_table(&mut self)
        ensures
            final(self)@ == (GBuilder {
                table: Some(Seq::empty()),
                ..flush_table(flush_para(old(self)@))
            }),
    {
        self.end_paragraph();
        self.end_table();
        self.current_table = Some(TableNode { rows: Vec::new() });
        proof {
            assert(self@ =~= (GBuilder {
                table: Some(Seq::empty()),
                ..flush_table(flush_para(old(self)@))
            }));
        }
    }

    /// Close the open table, if any, into the root.
    pub fn end_table(&mut self)
        ensures
            final(self)@ == flush_table(old(self)@),
    {
        let mut taken: Option<TableNode> = None;
        core::mem::swap(&mut taken, &mut self.current_table);
        match taken {
            Some(table) => {
                let ghost pre = self.root.children@;
                self.root.children.push(ASTNode::Table(table));
                proof {
                    lemma_view_nodes_push(pre, ASTNode::Table(table));
                    assert(self@ =~= flush_table(old(self)@));
                }
            },
            None => {
                proof {
                    assert(self@ =~= flush_table(old(self)@));
                }
            },
        }
    }

    /// Open a fresh row; a previously open row goes into the open table,
    /// or is dropped when no table is open.
    pub fn start_table_row(&mut self)
        ensures
            final(self)@ == (GBuilder {
                row: Some(Seq::empty()),
                ..push_row(old(self)@)
            }),
    {
        self.flush_row();
        self.current_table_row = Some(TableRow { cells: Vec::new() });
        proof {
            assert(self@ =~= (GBuilder { row: Some(Seq::empty()), ..push_row(old(self)@) }));
        }
    }

    /// Close the open row into the open table (dropped when no table is
    /// open).
    pub fn end_table_row(&mut self)
        ensures
            final(self)@ == push_row(old(self)@),
    {
        self.flush_row();
    }

    fn flush_row(&mut self)
        ensures
            final(self)@ == push_row(old(self)@),
    {
        let mut taken: Option<TableRow> = None;
        core::mem::swap(&mut taken, &mut self.current_table_row);
        match taken {
            Some(row) => {
                match &mut self.current_table {
                    Some(table) => {
                        let ghost pre = table.rows@;
                        table.rows.push(row);
                        proof {
                            lemma_view_rows_push(pre, row);
                            assert(self@ =~= push_row(old(self)@));
                        }
                    },
                    None => {
                        proof {
                            assert(self@ =~= push_row(old(self)@));
                        }
                    },
                }
            },
            None => {
                proof {
                    assert(self@ =~= push_row(old(self)@));
                }
            },
        }
    }

    /// Append a cell to the open row; without an open row the cell is
    /// dropped.
    pub fn add_table_cell(&mut self, children: Vec<ASTNode>, align: Option<TextAlign>)
        ensures
            final(self)@ == (match old(self)@.row {
                Some(cells) => GBuilder {
                    row: Some(cells.push(GCell { children: view_nodes(children@), align })),
                    ..old(self)@
                },
                None => old(self)@,
            }),
    {
        let cell = TableCell { children, align };
        match &mut self.current_table_row {
            Some(row) => {
                let ghost pre = row.cells@;
                row.cells.push(cell);
                proof {
                    lemma_view_cells_push(pre, cell);
                    assert(self@ =~= (match old(self)@.row {
                        Some(cells) => GBuilder { row: Some(cells.push(cell@)), ..old(self)@ },
                        None => old(self)@,
                    }));
                }
            },
            None => {},
        }
    }

    /// Close any paragraph and append a math node.
    pub fn add_math(&mut self, content: String, display: bool)
        ensures
            final(self)@ == with_block(old(self)@, GNode::Math { content: content@, display }),
    {
        self.end_paragraph();
        let ghost pre = self.root.children@;
        let node = ASTNode::Math(MathNode { content, display });
        self.root.children.push(node);
        proof {
            lemma_view_nodes_push(pre, node);
            assert(self@ =~= with_block(old(self)@, GNode::Math { content: content@, display }));
        }
    }

    /// Append an inline math node to the open paragraph.
    pub fn add_inline_math(&mut self, content: String)
        ensures
            final(self)@ == with_inline(
                old(self)@,
                GNode::Math { content: content@, display: false },
            ),
    {
        self.add_inline_node(ASTNode::Math(MathNode { content, display: false }));
    }

    /// Close any paragraph and append a diagram node.
    pub fn add_mermaid(&mut self, content: String)
        ensures
            final(self)@ == with_block(old(self)@, GNode::Mermaid { content: content@ }),
    {
        self.end_paragraph();
        let ghost pre = self.root.children@;
        let node = ASTNode::Mermaid(MermaidNode { content });
        self.root.children.push(node);
        proof {
            lemma_view_nodes_push(pre, node);
            assert(self@ =~= with_block(old(self)@, GNode::Mermaid { content: content@ }));
        }
    }

    /// Close any paragraph and append a card node.
    pub fn add_card(&mut self, subtype: String, content: String, metadata: Vec<(String, String)>)
        ensures
            final(self)@ == with_block(
                old(self)@,
                GNode::Card {
                    subtype: subtype@,
                    content: content@,
                    metadata: view_meta(metadata@),
                },
            ),
    {
        self.end_paragraph();
        let ghost pre = self.root.children@;
        let ghost meta = metadata@;
        let node = ASTNode::Card(CardNode { subtype, content, metadata });
        self.root.children.push(node);
        proof {
            lemma_view_nodes_push(pre, node);
            assert(self@ =~= with_block(
                old(self)@,
                GNode::Card { subtype: subtype@, content: content@, metadata: view_meta(meta) },
            ));
        }
    }

    /// Append a mention to the open paragraph.
    pub fn add_mention(&mut self, id: String, name: String)
        ensures
            final(self)@ == with_inline(old(self)@, GNode::Mention { id: id@, name: name@ }),
    {
        self.add_inline_node(ASTNode::Mention(MentionNode { id, name }));
    }

    /// Close any paragraph and append a horizontal rule.
    pub fn add_horizontal_rule(&mut self)
        ensures
            final(self)@ == with_block(old(self)@, GNode::HorizontalRule),
    {
        self.end_paragraph();
        let ghost pre = self.root.children@;
        let node = ASTNode::HorizontalRule(HorizontalRuleNode);
        self.root.children.push(node);
        proof {
            lemma_view_nodes_push(pre, node);
            assert(self@ =~= with_block(old(self)@, GNode::HorizontalRule));
        }
    }

    /// Close any paragraph and append a blockquote.
    pub fn add_blockquote(&mut self, children: Vec<ASTNode>)
        ensures
            final(self)@ == with_block(
                old(self)@,
                GNode::Blockquote { children: view_nodes(children@) },
            ),
    {
        self.end_paragraph();
        let ghost pre = self.root.children@;
        let node = ASTNode::Blockquote(BlockquoteNode { children });
        self.root.children.push(node);
        proof {
            lemma_view_nodes_push(pre, node);
            assert(self@ =~= with_block(
                old(self)@,
                GNode::Blockquote { children: view_nodes(children@) },
            ));
        }
    }

    /// Take the open paragraph out, leaving none open.
    pub fn take_paragraph(&mut self) -> (r: Option<ParagraphNode>)
        ensures
            final(self)@ == (GBuilder { para: None, ..old(self)@ }),
            match r {
                Some(p) => old(self)@.para == Some(view_nodes(p.children@)),
                None => old(self)@.para is None,
            },
    {
        let mut taken: Option<ParagraphNode> = None;
        core::mem::swap(&mut taken, &mut self.current_paragraph);
        proof {
            assert(self@ =~= (GBuilder { para: None, ..old(self)@ }));
        }
        taken
    }

    /// Close any open paragraph and append one finished block node.
    pub fn add_block_node(&mut self, node: ASTNode)
        ensures
            final(self)@ == with_block(old(self)@, node@),
    {
        self.end_paragraph();
        let ghost pre = self.root.children@;
        let ghost nv = node@;
        self.root.children.push(node);
        proof {
            lemma_view_nodes_push(pre, self.root.children@.last());
            assert(self.root.children@ =~= pre.push(self.root.children@.last()));
            assert(self@ =~= with_block(old(self)@, nv));
        }
    }

    /// Close any open paragraph, then append the given nodes as one
    /// paragraph of their own (empty children give an empty paragraph).
    pub fn emit_paragraph(&mut self, children: Vec<ASTNode>)
        ensures
            final(self)@ == with_block(
                old(self)@,
                GNode::Paragraph { children: view_nodes(children@) },
            ),
    {
        self.end_paragraph();
        let ghost pre = self.root.children@;
        let node = ASTNode::Paragraph(ParagraphNode { children });
        self.root.children.push(node);
        proof {
            lemma_view_nodes_push(pre, node);
            assert(self@ =~= with_block(
                old(self)@,
                GNode::Paragraph { children: view_nodes(node->Paragraph_0.children@) },
            ));
        }
    }

    /// Append one inline node to the open paragraph, opening one if none.
    pub fn add_inline_node(&mut self, node: ASTNode)
        ensures
            final(self)@ == with_inline(old(self)@, node@),
    {
        match &mut self.current_paragraph {
            Some(para) => {
                let ghost pre = para.children@;
                para.children.push(node);
                proof {
                    lemma_view_nodes_push(pre, node);
                    assert(self@ =~= with_inline(old(self)@, node@));
                }
            },
            None => {
                let mut children: Vec<ASTNode> = Vec::new();
                children.push(node);
                self.current_paragraph = Some(ParagraphNode { children });
                proof {
                    lemma_view_nodes_push(Seq::<ASTNode>::empty(), node);
                    assert(view_nodes(seq![node]) =~= seq![node@]);
                    assert(self@ =~= with_inline(old(self)@, node@));
                }
            },
        }
    }
}

/// The open row closed into the open table (or dropped without one).
pub open spec fn push_row(b: GBuilder) -> GBuilder {
    match b.row {
        None => b,
        Some(cells) => match b.table {
            Some(rows) => GBuilder {
                table: Some(rows.push(GRow { cells })),
                row: None,
                ..b
            },
            None => GBuilder { row: None, ..b },
        },
    }
}

impl Default for ASTBuilder {
    fn default() -> (r: ASTBuilder)
        ensures
            r@ == empty_builder(),
    {
        ASTBuilder::new()
    }
}

} // verus!
