//! The height estimator: a pure recursive function over the document tree
//! and a layout context, used to size scroll viewports without rendering.
//! All lengths are integers in hundredths of a pixel; arithmetic saturates
//! instead of overflowing.
use vstd::prelude::*;

use crate::ast::{ASTNode, GListItem, GNode, GRow, GCell, ListItemNode, RootNode, TableCell,
    TableRow, clamp_level};

verus! {

broadcast use vstd::std_specs::vec::group_vec_axioms, vstd::seq::group_seq_axioms;

/// Layout parameters, all in hundredths (a font size of 16 px is 1600;
/// a line-height multiplier of 1.5 is 150).
#[derive(Debug, Clone, Copy)]
pub struct LayoutContext {
    pub font_size: u64,
    pub line_height: u64,
    pub paragraph_spacing: u64,
    pub code_font_size: u64,
    pub code_line_height: u64,
    pub table_cell_padding: u64,
    pub list_item_spacing: u64,
}

impl Default for LayoutContext {
    /// The stock context: 16 px text at 1.5 line height, 14 px code at
    /// 1.4, 8 px paragraph and table paddings, 4 px item spacing.
    fn default() -> (r: LayoutContext)
        ensures
            r == default_layout(),
    {
        LayoutContext {
            font_size: 1600,
            line_height: 150,
            paragraph_spacing: 800,
            code_font_size: 1400,
            code_line_height: 140,
            table_cell_padding: 800,
            list_item_spacing: 400,
        }
    }
}

pub open spec fn default_layout() -> LayoutContext {
    LayoutContext {
        font_size: 1600,
        line_height: 150,
        paragraph_spacing: 800,
        code_font_size: 1400,
        code_line_height: 140,
        table_cell_padding: 800,
        list_item_spacing: 400,
    }
}

/// Saturation to the `u64` range.
pub open spec fn sat(x: int) -> int {
    if x > u64::MAX {
        u64::MAX as int
    } else {
        x
    }
}

pub open spec fn sat_add(a: int, b: int) -> int {
    sat(a + b)
}

pub open spec fn sat_mul(a: int, b: int) -> int {
    sat(a * b)
}

/// One line of body text, in hundredths.
pub open spec fn line_px(ctx: LayoutContext) -> int {
    sat_mul(ctx.font_size as int, ctx.line_height as int) / 100
}

/// One line of code text, in hundredths.
pub open spec fn code_line_px(ctx: LayoutContext) -> int {
    sat_mul(ctx.code_font_size as int, ctx.code_line_height as int) / 100
}

/// Characters that fit on one line: the width over six tenths of the font
/// size, at least one.
pub open spec fn chars_per_line(width: int, font: int) -> int {
    let acw = if font * 6 / 10 < 1 {
        1
    } else {
        font * 6 / 10
    };
    if width / acw < 1 {
        1
    } else {
        width / acw
    }
}

/// Estimated line count of a run of `n` characters: its ceiling division
/// by the characters per line, at least one.
pub open spec fn line_count(n: int, width: int, font: int) -> int {
    let cpl = chars_per_line(width, font);
    let lc = (n + cpl - 1) / cpl;
    if lc < 1 {
        1
    } else {
        lc
    }
}

/// The newline-delimited line count of a code block's content: each
/// newline ends a line, and a final unterminated line still counts.
pub open spec fn text_lines(s: Seq<char>) -> int {
    if s.len() == 0 {
        0
    } else if s.last() == '\n' {
        newline_count(s)
    } else {
        1 + newline_count(s)
    }
}

pub open spec fn newline_count(s: Seq<char>) -> int
    decreases s,
{
    if s.len() == 0 {
        0
    } else {
        (if s.last() == '\n' {
            1int
        } else {
            0int
        }) + newline_count(s.drop_last())
    }
}

/// The total character count of the direct text children of a paragraph.
pub open spec fn para_text_len(children: Seq<GNode>) -> int
    decreases children,
{
    if children.len() == 0 {
        0
    } else {
        sat_add(
            para_text_len(children.drop_last()),
            match children.last() {
                GNode::Text { content } => content.len() as int,
                _ => 0,
            },
        )
    }
}

/// The estimated height of one node, in hundredths of a pixel.
pub open spec fn est(g: GNode, w: int, ctx: LayoutContext) -> int
    decreases g, 1int,
{
    match g {
        GNode::Root { children } => sat_add(
            est_sum(children, w, ctx),
            sat_mul(
                if children.len() > 0 {
                    children.len() as int - 1
                } else {
                    0
                },
                ctx.paragraph_spacing as int,
            ),
        ),
        GNode::Paragraph { children } => {
            if children.len() == 0 {
                line_px(ctx)
            } else {
                let content = est_sum(children, w, ctx);
                let lines = sat_mul(
                    line_count(para_text_len(children), w, ctx.font_size as int),
                    line_px(ctx),
                );
                if content > 0 {
                    if lines >= content {
                        lines
                    } else {
                        content
                    }
                } else {
                    lines
                }
            }
        },
        GNode::Heading { level, children } => {
            let hfont = sat_mul(
                ctx.font_size as int,
                100 + (6 - clamp_level(level) as int) * 20,
            ) / 100;
            let hline = sat_mul(hfont, 120) / 100;
            if children.len() == 0 {
                hline
            } else {
                let content = est_sum(children, w, ctx);
                if content >= hline {
                    content
                } else {
                    hline
                }
            }
        },
        GNode::Text { content } => sat_mul(
            line_count(content.len() as int, w, ctx.font_size as int),
            line_px(ctx),
        ),
        GNode::Strong { children } => est_sum(children, w, ctx),
        GNode::Em { children } => est_sum(children, w, ctx),
        GNode::Underline { children } => est_sum(children, w, ctx),
        GNode::Strike { children } => est_sum(children, w, ctx),
        GNode::Color { color, children } => est_sum(children, w, ctx),
        GNode::Code { content } => sat_mul(
            line_count(content.len() as int, w, ctx.code_font_size as int),
            code_line_px(ctx),
        ),
        GNode::CodeBlock { language, content } => {
            let lines = if text_lines(content) < 1 {
                1
            } else {
                text_lines(content)
            };
            sat_add(sat_mul(lines, code_line_px(ctx)), 3200)
        },
        GNode::Link { url, children } => est_sum(children, w, ctx),
        GNode::Image { url, width, height, alt } => {
            match (width, height) {
                (Some(iw), Some(ih)) => {
                    if iw as int * 100 > w {
                        sat_mul(ih as int * 100, w) / (iw as int * 100)
                    } else {
                        sat(ih as int * 100)
                    }
                },
                _ => sat_mul(w, 75) / 100,
            }
        },
        GNode::List { list_type, items } => sat_add(
            est_items(items, w, ctx),
            sat_mul(
                if items.len() > 0 {
                    items.len() as int - 1
                } else {
                    0
                },
                ctx.list_item_spacing as int,
            ),
        ),
        GNode::ListItem { item } => est_item(item, w, ctx),
        GNode::Table { rows } => {
            if rows.len() == 0 {
                0
            } else {
                sat_add(est_rows(rows, w, ctx), 2 * ctx.table_cell_padding as int)
            }
        },
        GNode::TableRow { row } => est_row(row, w, ctx),
        GNode::TableCell { cell } => est_cell(cell, w, ctx),
        GNode::Math { content, display } => {
            let lines = if (content.len() as int + 49) / 50 < 1 {
                1
            } else {
                (content.len() as int + 49) / 50
            };
            sat_add(
                sat_mul(
                    lines,
                    if display {
                        4000
                    } else {
                        2400
                    },
                ),
                1600,
            )
        },
        GNode::Mermaid { content } => {
            let h = if content.len() as int * 50 < 20000 {
                20000
            } else {
                content.len() as int * 50
            };
            if h > 80000 {
                80000
            } else {
                h
            }
        },
        GNode::Card { subtype, content, metadata } => sat_add(
            sat_mul(
                line_count(content.len() as int, w, ctx.font_size as int),
                line_px(ctx),
            ),
            3200,
        ),
        GNode::Mention { id, name } => line_px(ctx),
        GNode::Emoji { content } => line_px(ctx),
        GNode::HorizontalRule => 1700,
        GNode::Blockquote { children } => {
            if children.len() == 0 {
                line_px(ctx)
            } else {
                sat_add(est_sum(children, w, ctx), 1600)
            }
        },
    }
}

/// Sum of the estimated heights of a node list.
pub open spec fn est_sum(s: Seq<GNode>, w: int, ctx: LayoutContext) -> int
    decreases s, 2int,
{
    if s.len() == 0 {
        0
    } else {
        sat_add(est_sum(s.drop_last(), w, ctx), est(s.last(), w, ctx))
    }
}

/// The estimated height of one list item.
pub open spec fn est_item(it: GListItem, w: int, ctx: LayoutContext) -> int
    decreases it, 1int,
{
    if it.children.len() == 0 {
        line_px(ctx)
    } else {
        est_sum(it.children, w, ctx)
    }
}

/// Sum of the estimated heights of list items.
pub open spec fn est_items(s: Seq<GListItem>, w: int, ctx: LayoutContext) -> int
    decreases s, 2int,
{
    if s.len() == 0 {
        0
    } else {
        sat_add(est_items(s.drop_last(), w, ctx), est_item(s.last(), w, ctx))
    }
}

/// The estimated height of one table cell.
pub open spec fn est_cell(c: GCell, w: int, ctx: LayoutContext) -> int
    decreases c, 1int,
{
    if c.children.len() == 0 {
        line_px(ctx)
    } else {
        est_sum(c.children, w, ctx)
    }
}

/// The tallest cell of a row, over cells of equally divided width.
pub open spec fn est_cells_max(s: Seq<GCell>, w: int, ctx: LayoutContext) -> int
    decreases s, 2int,
{
    if s.len() == 0 {
        0
    } else {
        let rest = est_cells_max(s.drop_last(), w, ctx);
        let here = est_cell(s.last(), w, ctx);
        if here >= rest {
            here
        } else {
            rest
        }
    }
}

/// The estimated height of one table row: the tallest cell plus padding.
pub open spec fn est_row(r: GRow, w: int, ctx: LayoutContext) -> int
    decreases r, 3int,
{
    if r.cells.len() == 0 {
        sat_add(line_px(ctx), 2 * ctx.table_cell_padding as int)
    } else {
        sat_add(
            est_cells_max(r.cells, w / r.cells.len() as int, ctx),
            2 * ctx.table_cell_padding as int,
        )
    }
}

/// Sum of the estimated heights of table rows.
pub open spec fn est_rows(s: Seq<GRow>, w: int, ctx: LayoutContext) -> int
    decreases s, 4int,
{
    if s.len() == 0 {
        0
    } else {
        sat_add(est_rows(s.drop_last(), w, ctx), est_row(s.last(), w, ctx))
    }
}

/// The estimated height of a whole document.
pub open spec fn est_root(children: Seq<GNode>, w: int, ctx: LayoutContext) -> int {
    est(GNode::Root { children }, w, ctx)
}

fn sat_add_x(a: u64, b: u64) -> (r: u64)
    ensures
        r as int == sat_add(a as int, b as int),
{
    if a > u64::MAX - b {
        u64::MAX
    } else {
        a + b
    }
}

fn sat_mul_x(a: u64, b: u64) -> (r: u64)
    ensures
        r as int == sat_mul(a as int, b as int),
{
    if b == 0 {
        return 0;
    }
    let q = u64::MAX / b;
    if a > q {
        proof {
            vstd::arithmetic::div_mod::lemma_fundamental_div_mod(u64::MAX as int, b as int);
            assert(a as int * b as int > u64::MAX) by (nonlinear_arith)
                requires
                    a as int >= q as int + 1,
                    b as int >= 1,
                    u64::MAX as int == q as int * b as int + (u64::MAX as int % b as int),
                    (u64::MAX as int % b as int) < b as int,
            ;
        }
        u64::MAX
    } else {
        proof {
            vstd::arithmetic::div_mod::lemma_fundamental_div_mod(u64::MAX as int, b as int);
            assert(a as int * b as int <= u64::MAX) by (nonlinear_arith)
                requires
                    a as int <= q as int,
                    b as int >= 1,
                    u64::MAX as int == q as int * b as int + (u64::MAX as int % b as int),
                    (u64::MAX as int % b as int) >= 0,
            ;
        }
        a * b
    }
}

fn line_px_x(ctx: &LayoutContext) -> (r: u64)
    ensures
        r as int == line_px(*ctx),
{
    sat_mul_x(ctx.font_size, ctx.line_height) / 100
}

fn code_line_px_x(ctx: &LayoutContext) -> (r: u64)
    ensures
        r as int == code_line_px(*ctx),
{
    sat_mul_x(ctx.code_font_size, ctx.code_line_height) / 100
}

fn line_count_x(n: u64, width: u64, font: u64) -> (r: u64)
    ensures
        r as int == line_count(n as int, width as int, font as int),
{
    let acw128: u128 = (font as u128) * 6 / 10;
    proof {
        assert(font as int * 6 / 10 <= font as int) by {
            assert(font as int * 6 <= font as int * 10) by (nonlinear_arith)
                requires
                    font as int >= 0,
            ;
            vstd::arithmetic::div_mod::lemma_div_is_ordered(
                font as int * 6,
                font as int * 10,
                10,
            );
            vstd::arithmetic::div_mod::lemma_div_multiples_vanish(font as int, 10);
        };
    }
    let acw0 = acw128 as u64;
    let acw = if acw0 < 1 {
        1
    } else {
        acw0
    };
    let cpl0 = width / acw;
    let cpl = if cpl0 < 1 {
        1
    } else {
        cpl0
    };
    proof {
        assert(cpl as int == chars_per_line(width as int, font as int));
    }
    if n == 0 {
        proof {
            vstd::arithmetic::div_mod::lemma_basic_div((cpl - 1) as int, cpl as int);
        }
        1
    } else {
        let lc = (n - 1) / cpl + 1;
        proof {
            vstd::arithmetic::div_mod::lemma_div_plus_one((n - 1) as int, cpl as int);
            vstd::arithmetic::div_mod::lemma_div_pos_is_pos((n - 1) as int, cpl as int);
        }
        lc
    }
}

/// Count the newline-delimited lines of a code block's content.
fn text_lines_x(s: &String) -> (r: u64)
    ensures
        r as int == (if text_lines(s@) < 1 {
            1int
        } else {
            text_lines(s@)
        }),
{
    let cs = crate::json::str_to_chars(s.as_str());
    let n = cs.len();
    if n == 0 {
        return 1;
    }
    let mut nl: u64 = 0;
    let mut k: usize = 0;
    proof {
        assert(cs@.take(0) =~= Seq::<char>::empty());
    }
    while k < n
        invariant
            k <= n,
            n == cs.len(),
            cs@ == s@,
            nl as int == newline_count(cs@.take(k as int)),
            nl <= k as u64,
        decreases n - k,
    {
        proof {
            assert(cs@.take(k as int + 1).drop_last() =~= cs@.take(k as int));
            assert(cs@.take(k as int + 1).last() == cs@[k as int]);
        }
        if cs[k] == '\n' {
            nl = nl + 1;
        }
        k += 1;
    }
    proof {
        assert(cs@.take(n as int) =~= cs@);
    }
    let last_is_nl = cs[n - 1] == '\n';
    if last_is_nl {
        if nl < 1 {
            1
        } else {
            nl
        }
    } else {
        proof {
            lemma_nc_lt(cs@);
        }
        nl + 1
    }
}

proof fn lemma_nc_le(s: Seq<char>)
    ensures
        0 <= newline_count(s) <= s.len(),
    decreases s,
{
    if s.len() > 0 {
        lemma_nc_le(s.drop_last());
    }
}

proof fn lemma_nc_lt(s: Seq<char>)
    requires
        s.len() > 0,
        s.last() != '\n',
    ensures
        newline_count(s) < s.len(),
{
    lemma_nc_le(s.drop_last());
}


impl RootNode {
    /// The estimated height of the whole document, in hundredths of a
    /// pixel, for the given container width (also in hundredths).
    pub fn estimated_height(&self, width: u64, ctx: &LayoutContext) -> (r: u64)
        ensures
            r as int == est_root(self@, width as int, *ctx),
        decreases self, 4int,
    {
        let n = self.children.len();
        let mut total: u64 = 0;
        let mut k: usize = 0;
        proof {
            crate::ast::lemma_view_nodes_len(self.children@);
            assert(crate::ast::view_nodes(self.children@).take(0) =~= Seq::<GNode>::empty());
        }
        while k < n
            invariant
                k <= n,
                n == self.children@.len(),
                crate::ast::view_nodes(self.children@).len() == n,
                total as int == est_sum(
                    crate::ast::view_nodes(self.children@).take(k as int),
                    width as int,
                    *ctx,
                ),
            decreases n - k,
        {
            let ghost gv = crate::ast::view_nodes(self.children@);
            proof {
                crate::ast::lemma_view_nodes_index(self.children@, k as int);
                assert(gv.take(k as int + 1).drop_last() =~= gv.take(k as int));
                assert(gv.take(k as int + 1).last() == gv[k as int]);
                assert(decreases_to!(*self => self.children));
                assert(decreases_to!(self.children => self.children@[k as int]));
            }
            let h = self.children[k].estimated_height(width, ctx);
            total = sat_add_x(total, h);
            k += 1;
        }
        proof {
            assert(crate::ast::view_nodes(self.children@).take(n as int)
                =~= crate::ast::view_nodes(self.children@));
        }
        let spacing = if n > 0 {
            sat_mul_x((n - 1) as u64, ctx.paragraph_spacing)
        } else {
            0
        };
        sat_add_x(total, spacing)
    }
}

/// The character count of a string, as a `u64`.
fn char_count(s: &String) -> (r: u64)
    ensures
        r as int == s@.len(),
{
    let cs = crate::json::str_to_chars(s.as_str());
    cs.len() as u64
}

/// Sum of the estimated heights of a node list.
#[verifier::loop_isolation(false)]
fn est_sum_x(children: &Vec<ASTNode>, width: u64, ctx: &LayoutContext) -> (r: u64)
    ensures
        r as int == est_sum(crate::ast::view_nodes(children@), width as int, *ctx),
    decreases children, 0int,
{
    let ghost gv = crate::ast::view_nodes(children@);
    let n = children.len();
    let mut total: u64 = 0;
    let mut k: usize = 0;
    proof {
        crate::ast::lemma_view_nodes_len(children@);
        assert(gv.take(0) =~= Seq::<GNode>::empty());
    }
    while k < n
        invariant
            k <= n,
            total as int == est_sum(gv.take(k as int), width as int, *ctx),
        decreases n - k,
    {
        proof {
            crate::ast::lemma_view_nodes_index(children@, k as int);
            assert(gv.take(k as int + 1).drop_last() =~= gv.take(k as int));
            assert(gv.take(k as int + 1).last() == gv[k as int]);
            assert(decreases_to!(*children => children@[k as int]));
        }
        let h = children[k].estimated_height(width, ctx);
        total = sat_add_x(total, h);
        k += 1;
    }
    proof {
        assert(gv.take(n as int) =~= gv);
    }
    total
}

/// The summed character count of a paragraph's direct text children.
fn para_text_len_x(children: &Vec<ASTNode>) -> (r: u64)
    ensures
        r as int == para_text_len(crate::ast::view_nodes(children@)),
{
    let ghost gv = crate::ast::view_nodes(children@);
    let n = children.len();
    let mut total: u64 = 0;
    let mut k: usize = 0;
    proof {
        crate::ast::lemma_view_nodes_len(children@);
        assert(gv.take(0) =~= Seq::<GNode>::empty());
    }
    while k < n
        invariant
            k <= n,
            n == children@.len(),
            gv == crate::ast::view_nodes(children@),
            gv.len() == n,
            total as int == para_text_len(gv.take(k as int)),
        decreases n - k,
    {
        proof {
            crate::ast::lemma_view_nodes_index(children@, k as int);
            assert(gv.take(k as int + 1).drop_last() =~= gv.take(k as int));
            assert(gv.take(k as int + 1).last() == gv[k as int]);
        }
        match &children[k] {
            ASTNode::Text(t) => {
                let c = char_count(&t.content);
                total = sat_add_x(total, c);
            },
            _ => {
                proof {
                    assert(para_text_len(gv.take(k as int + 1)) == sat_add(
                        para_text_len(gv.take(k as int)),
                        0,
                    ));
                }
            },
        }
        k += 1;
    }
    proof {
        assert(gv.take(n as int) =~= gv);
    }
    total
}

impl ListItemNode {
    /// The estimated height of one list item.
    pub fn estimated_height(&self, width: u64, ctx: &LayoutContext) -> (r: u64)
        ensures
            r as int == est_item(self@, width as int, *ctx),
        decreases self, 1int,
    {
        if self.children.len() == 0 {
            proof {
                crate::ast::lemma_view_nodes_len(self.children@);
            }
            line_px_x(ctx)
        } else {
            proof {
                crate::ast::lemma_view_nodes_len(self.children@);
                assert(decreases_to!(*self => self.children));
            }
            est_sum_x(&self.children, width, ctx)
        }
    }
}

impl TableCell {
    /// The estimated height of one table cell.
    pub fn estimated_height(&self, width: u64, ctx: &LayoutContext) -> (r: u64)
        ensures
            r as int == est_cell(self@, width as int, *ctx),
        decreases self, 1int,
    {
        if self.children.len() == 0 {
            proof {
                crate::ast::lemma_view_nodes_len(self.children@);
            }
            line_px_x(ctx)
        } else {
            proof {
                crate::ast::lemma_view_nodes_len(self.children@);
                assert(decreases_to!(*self => self.children));
            }
            est_sum_x(&self.children, width, ctx)
        }
    }
}

impl TableRow {
    /// The estimated height of one table row: its tallest cell, over
    /// equally divided width, plus the cell padding.
    #[verifier::loop_isolation(false)]
    pub fn estimated_height(&self, width: u64, ctx: &LayoutContext) -> (r: u64)
        ensures
            r as int == est_row(self@, width as int, *ctx),
        decreases self, 2int,
    {
        let n = self.cells.len();
        proof {
            crate::ast::lemma_view_cells_len(self.cells@);
        }
        if n == 0 {
            sat_add_x(line_px_x(ctx), sat_mul_x(2, ctx.table_cell_padding))
        } else {
            let cw = width / (n as u64);
            let ghost gcells = crate::ast::view_cells(self.cells@);
            let mut best: u64 = 0;
            let mut k: usize = 0;
            proof {
                assert(gcells.take(0) =~= Seq::<GCell>::empty());
            }
            while k < n
                invariant
                    k <= n,
                    best as int == est_cells_max(gcells.take(k as int), cw as int, *ctx),
                decreases n - k,
            {
                proof {
                    crate::ast::lemma_view_cells_index(self.cells@, k as int);
                    assert(gcells.take(k as int + 1).drop_last() =~= gcells.take(k as int));
                    assert(gcells.take(k as int + 1).last() == gcells[k as int]);
                    assert(decreases_to!(*self => self.cells));
                    assert(decreases_to!(self.cells => self.cells@[k as int]));
                }
                let h = self.cells[k].estimated_height(cw, ctx);
                if h > best {
                    best = h;
                }
                k += 1;
            }
            proof {
                assert(gcells.take(n as int) =~= gcells);
            }
            sat_add_x(best, sat_mul_x(2, ctx.table_cell_padding))
        }
    }
}

impl ASTNode {
    /// The estimated height of one node, in hundredths of a pixel.
    #[verifier::loop_isolation(false)]
    #[verifier::rlimit(100)]
    pub fn estimated_height(&self, width: u64, ctx: &LayoutContext) -> (r: u64)
        ensures
            r as int == est(self@, width as int, *ctx),
        decreases self, 3int,
    {
        match self {
            ASTNode::Root(n) => {
                proof {
                    assert(decreases_to!(*self => *n));
                }
                n.estimated_height(width, ctx)
            },
            ASTNode::Paragraph(n) => {
                proof {
                    crate::ast::lemma_view_nodes_len(n.children@);
                    assert(decreases_to!(*self => *n));
                    assert(decreases_to!(*n => n.children));
                }
                if n.children.len() == 0 {
                    line_px_x(ctx)
                } else {
                    let content = est_sum_x(&n.children, width, ctx);
                    let tl = para_text_len_x(&n.children);
                    let lines = sat_mul_x(line_count_x(tl, width, ctx.font_size),
                        line_px_x(ctx));
                    if content > 0 {
                        if lines >= content {
                            lines
                        } else {
                            content
                        }
                    } else {
                        lines
                    }
                }
            },
            ASTNode::Heading(n) => {
                proof {
                    crate::ast::lemma_view_nodes_len(n.children@);
                    assert(decreases_to!(*self => *n));
                    assert(decreases_to!(*n => n.children));
                }
                let lv = crate::ast::clamp_heading_level(n.level);
                let hfont = sat_mul_x(ctx.font_size, 100 + (6 - lv as u64) * 20) / 100;
                let hline = sat_mul_x(hfont, 120) / 100;
                if n.children.len() == 0 {
                    hline
                } else {
                    let content = est_sum_x(&n.children, width, ctx);
                    if content >= hline {
                        content
                    } else {
                        hline
                    }
                }
            },
            ASTNode::Text(n) => {
                let c = char_count(&n.content);
                sat_mul_x(line_count_x(c, width, ctx.font_size), line_px_x(ctx))
            },
            ASTNode::Strong(n) => {
                proof {
                    assert(decreases_to!(*self => *n));
                    assert(decreases_to!(*n => n.children));
                }
                est_sum_x(&n.children, width, ctx)
            },
            ASTNode::Em(n) => {
                proof {
                    assert(decreases_to!(*self => *n));
                    assert(decreases_to!(*n => n.children));
                }
                est_sum_x(&n.children, width, ctx)
            },
            ASTNode::Underline(n) => {
                proof {
                    assert(decreases_to!(*self => *n));
                    assert(decreases_to!(*n => n.children));
                }
                est_sum_x(&n.children, width, ctx)
            },
            ASTNode::Strike(n) => {
                proof {
                    assert(decreases_to!(*self => *n));
                    assert(decreases_to!(*n => n.children));
                }
                est_sum_x(&n.children, width, ctx)
            },
            ASTNode::Color(n) => {
                proof {
                    assert(decreases_to!(*self => *n));
                    assert(decreases_to!(*n => n.children));
                }
                est_sum_x(&n.children, width, ctx)
            },
            ASTNode::Code(n) => {
                let c = char_count(&n.content);
                sat_mul_x(
                    line_count_x(c, width, ctx.code_font_size),
                    code_line_px_x(ctx),
                )
            },
            ASTNode::CodeBlock(n) => {
                let lines = text_lines_x(&n.content);
                sat_add_x(sat_mul_x(lines, code_line_px_x(ctx)), 3200)
            },
            ASTNode::Link(n) => {
                proof {
                    assert(decreases_to!(*self => *n));
                    assert(decreases_to!(*n => n.children));
                }
                est_sum_x(&n.children, width, ctx)
            },
            ASTNode::Image(n) => {
                match (n.width, n.height) {
                    (Some(iw), Some(ih)) => {
                        if (iw as u128) * 100 > width as u128 {
                            let num = sat_mul_x(sat_mul_x(ih, 100), width);
                            let den128: u128 = (iw as u128) * 100;
                            let q128: u128 = (num as u128) / den128;
                            proof {
                                assert(q128 <= num as u128) by {
                                    vstd::arithmetic::div_mod::lemma_div_nonincreasing(
                                        num as int,
                                        den128 as int,
                                    );
                                };
                                assert(sat_mul(ih as int * 100, width as int) == sat_mul(
                                    sat(ih as int * 100),
                                    width as int,
                                )) by {
                                    if ih as int * 100 > u64::MAX {
                                        if width == 0 {
                                            assert(ih as int * 100 * 0 == 0) by (nonlinear_arith);
                                            assert(u64::MAX as int * 0 == 0) by (nonlinear_arith);
                                        } else {
                                            assert(ih as int * 100 * width as int >= ih as int
                                                * 100) by (nonlinear_arith)
                                                requires
                                                    width as int >= 1,
                                                    ih as int * 100 >= 0,
                                            ;
                                            assert(u64::MAX as int * width as int
                                                >= u64::MAX) by (nonlinear_arith)
                                                requires
                                                    width as int >= 1,
                                            ;
                                        }
                                    }
                                };
                            }
                            q128 as u64
                        } else {
                            sat_mul_x(ih, 100)
                        }
                    },
                    _ => sat_mul_x(width, 75) / 100,
                }
            },
            ASTNode::List(n) => {
                proof {
                    crate::ast::lemma_view_items_len(n.items@);
                    assert(decreases_to!(*self => *n));
                    assert(decreases_to!(*n => n.items));
                }
                let ghost gitems = crate::ast::view_items(n.items@);
                let m = n.items.len();
                let mut total: u64 = 0;
                let mut k: usize = 0;
                proof {
                    assert(gitems.take(0) =~= Seq::<GListItem>::empty());
                }
                while k < m
                    invariant
                        k <= m,
                        total as int == est_items(gitems.take(k as int), width as int, *ctx),
                    decreases m - k,
                {
                    proof {
                        crate::ast::lemma_view_items_index(n.items@, k as int);
                        assert(gitems.take(k as int + 1).drop_last() =~= gitems.take(k as int));
                        assert(gitems.take(k as int + 1).last() == gitems[k as int]);
                        assert(decreases_to!(n.items => n.items@[k as int]));
                    }
                    let h = n.items[k].estimated_height(width, ctx);
                    total = sat_add_x(total, h);
                    k += 1;
                }
                proof {
                    assert(gitems.take(m as int) =~= gitems);
                }
                let spacing = if m > 0 {
                    sat_mul_x((m - 1) as u64, ctx.list_item_spacing)
                } else {
                    0
                };
                sat_add_x(total, spacing)
            },
            ASTNode::ListItem(n) => {
                proof {
                    assert(decreases_to!(*self => *n));
                }
                n.estimated_height(width, ctx)
            },
            ASTNode::Table(n) => {
                proof {
                    crate::ast::lemma_view_rows_len(n.rows@);
                    assert(decreases_to!(*self => *n));
                    assert(decreases_to!(*n => n.rows));
                }
                let m = n.rows.len();
                if m == 0 {
                    0
                } else {
                    let ghost grows = crate::ast::view_rows(n.rows@);
                    let mut total: u64 = 0;
                    let mut k: usize = 0;
                    proof {
                        assert(grows.take(0) =~= Seq::<GRow>::empty());
                    }
                    while k < m
                        invariant
                            k <= m,
                            total as int == est_rows(grows.take(k as int), width as int, *ctx),
                        decreases m - k,
                    {
                        proof {
                            crate::ast::lemma_view_rows_index(n.rows@, k as int);
                            assert(grows.take(k as int + 1).drop_last() =~= grows.take(
                                k as int,
                            ));
                            assert(grows.take(k as int + 1).last() == grows[k as int]);
                            assert(decreases_to!(n.rows => n.rows@[k as int]));
                        }
                        let h = n.rows[k].estimated_height(width, ctx);
                        total = sat_add_x(total, h);
                        k += 1;
                    }
                    proof {
                        assert(grows.take(m as int) =~= grows);
                    }
                    sat_add_x(total, sat_mul_x(2, ctx.table_cell_padding))
                }
            },
            ASTNode::TableRow(n) => {
                proof {
                    assert(decreases_to!(*self => *n));
                }
                n.estimated_height(width, ctx)
            },
            ASTNode::TableCell(n) => {
                proof {
                    assert(decreases_to!(*self => *n));
                }
                n.estimated_height(width, ctx)
            },
            ASTNode::Math(n) => {
                let c = char_count(&n.content);
                let lines = if c == 0 {
                    proof {
                        vstd::arithmetic::div_mod::lemma_basic_div(49, 50);
                    }
                    1
                } else {
                    proof {
                        vstd::arithmetic::div_mod::lemma_div_plus_one((c - 1) as int, 50);
                        vstd::arithmetic::div_mod::lemma_div_pos_is_pos((c - 1) as int, 50);
                    }
                    (c - 1) / 50 + 1
                };
                let lh: u64 = if n.display {
                    4000
                } else {
                    2400
                };
                sat_add_x(sat_mul_x(lines, lh), 1600)
            },
            ASTNode::Mermaid(n) => {
                let c = char_count(&n.content);
                if c >= 1600 {
                    proof {
                        assert(c as int * 50 >= 80000);
                    }
                    80000
                } else {
                    let h = c * 50;
                    if h < 20000 {
                        20000
                    } else {
                        h
                    }
                }
            },
            ASTNode::Card(n) => {
                let c = char_count(&n.content);
                sat_add_x(
                    sat_mul_x(line_count_x(c, width, ctx.font_size), line_px_x(ctx)),
                    3200,
                )
            },
            ASTNode::Mention(n) => line_px_x(ctx),
            ASTNode::Emoji(n) => line_px_x(ctx),
            ASTNode::HorizontalRule(n) => 1700,
            ASTNode::Blockquote(n) => {
                proof {
                    crate::ast::lemma_view_nodes_len(n.children@);
                    assert(decreases_to!(*self => *n));
                    assert(decreases_to!(*n => n.children));
                }
                if n.children.len() == 0 {
                    line_px_x(ctx)
                } else {
                    sat_add_x(est_sum_x(&n.children, width, ctx), 1600)
                }
            },
        }
    }
}


pub proof fn lemma_line_count_antitone(n: int, w1: int, w2: int, f: int)
    requires
        0 <= n,
        0 <= w1 <= w2,
    ensures
        line_count(n, w1, f) >= line_count(n, w2, f) >= 1,
{
    let acw = if f * 6 / 10 < 1 {
        1
    } else {
        f * 6 / 10
    };
    vstd::arithmetic::div_mod::lemma_div_is_ordered(w1, w2, acw);
    let cpl1 = chars_per_line(w1, f);
    let cpl2 = chars_per_line(w2, f);
    assert(1 <= cpl1 <= cpl2);
    if n == 0 {
        vstd::arithmetic::div_mod::lemma_basic_div(cpl1 - 1, cpl1);
        vstd::arithmetic::div_mod::lemma_basic_div(cpl2 - 1, cpl2);
    } else {
        vstd::arithmetic::div_mod::lemma_div_plus_one(n - 1, cpl1);
        vstd::arithmetic::div_mod::lemma_div_plus_one(n - 1, cpl2);
        vstd::arithmetic::div_mod::lemma_div_is_ordered_by_denominator(n - 1, cpl1, cpl2);
        vstd::arithmetic::div_mod::lemma_div_pos_is_pos(n - 1, cpl1);
        vstd::arithmetic::div_mod::lemma_div_pos_is_pos(n - 1, cpl2);
    }
}

proof fn lemma_sat_mul_mono(a1: int, a2: int, b: int)
    requires
        0 <= a2 <= a1,
        0 <= b,
    ensures
        sat_mul(a1, b) >= sat_mul(a2, b) >= 0,
{
    vstd::arithmetic::mul::lemma_mul_inequality(a2, a1, b);
    vstd::arithmetic::mul::lemma_mul_nonnegative(a2, b);
}

/// Height monotonicity: for fixed textual content, a wider container never
/// increases the estimated height of a single-paragraph text node.
pub proof fn lemma_paragraph_width_monotone(
    content: Seq<char>,
    w1: int,
    w2: int,
    ctx: LayoutContext,
)
    requires
        0 <= w1 <= w2,
    ensures
        est(GNode::Paragraph { children: seq![GNode::Text { content }] }, w1, ctx) >= est(
            GNode::Paragraph { children: seq![GNode::Text { content }] },
            w2,
            ctx,
        ),
        est(GNode::Text { content }, w1, ctx) >= est(GNode::Text { content }, w2, ctx),
{
    let t = GNode::Text { content };
    let children = seq![t];
    let fs = ctx.font_size as int;
    let lpx = line_px(ctx);
    assert(lpx >= 0) by {
        vstd::arithmetic::mul::lemma_mul_nonnegative(ctx.font_size as int,
            ctx.line_height as int);
        vstd::arithmetic::div_mod::lemma_div_pos_is_pos(
            sat_mul(ctx.font_size as int, ctx.line_height as int),
            100,
        );
    };
    let cl = content.len() as int;
    lemma_line_count_antitone(cl, w1, w2, fs);
    lemma_sat_mul_mono(line_count(cl, w1, fs), line_count(cl, w2, fs), lpx);
    assert(est(t, w1, ctx) >= est(t, w2, ctx));
    assert(children.drop_last() =~= Seq::<GNode>::empty());
    assert(children.last() == t);
    assert(est_sum(Seq::<GNode>::empty(), w1, ctx) == 0);
    assert(est_sum(Seq::<GNode>::empty(), w2, ctx) == 0);
    assert(para_text_len(Seq::<GNode>::empty()) == 0);
    assert(est_sum(children, w1, ctx) == sat_add(0, est(t, w1, ctx)));
    assert(est_sum(children, w2, ctx) == sat_add(0, est(t, w2, ctx)));
    assert(est(t, w1, ctx) <= u64::MAX && est(t, w2, ctx) <= u64::MAX);
    assert(est_sum(children, w1, ctx) == est(t, w1, ctx));
    assert(est_sum(children, w2, ctx) == est(t, w2, ctx));
    let ptl = para_text_len(children);
    assert(ptl == sat_add(0, cl));
    lemma_line_count_antitone(ptl, w1, w2, fs);
    lemma_sat_mul_mono(line_count(ptl, w1, fs), line_count(ptl, w2, fs), lpx);
}

} // verus!
