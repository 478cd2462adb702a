//! The unified document tree: one tagged node type covering every block and
//! inline element that either input dialect can produce, plus its ghost model.
use vstd::prelude::*;

verus! {

broadcast use vstd::std_specs::vec::group_vec_axioms, vstd::seq::group_seq_axioms;

/// Kind of a list: unordered bullets or a numbered sequence.
#[derive(Debug, Clone, Copy, PartialEq, Eq, Structural)]
pub enum ListType {
    Bullet,
    Ordered,
}

/// Horizontal alignment of a table cell.
#[derive(Debug, Clone, Copy, PartialEq, Eq, Structural)]
pub enum TextAlign {
    Left,
    Center,
    Right,
}

#[derive(Debug)]
pub struct RootNode {
    pub children: Vec<ASTNode>,
}

#[derive(Debug)]
pub struct ParagraphNode {
    pub children: Vec<ASTNode>,
}

#[derive(Debug)]
pub struct HeadingNode {
    /// Always within 1 ..= 6; clamped at construction.
    pub level: u8,
    pub children: Vec<ASTNode>,
}

#[derive(Debug)]
pub struct TextNode {
    pub content: String,
}

#[derive(Debug)]
pub struct StrongNode {
    pub children: Vec<ASTNode>,
}

#[derive(Debug)]
pub struct EmNode {
    pub children: Vec<ASTNode>,
}

#[derive(Debug)]
pub struct UnderlineNode {
    pub children: Vec<ASTNode>,
}

#[derive(Debug)]
pub struct StrikeNode {
    pub children: Vec<ASTNode>,
}

#[derive(Debug)]
pub struct ColorNode {
    /// A CSS color string, carried through verbatim.
    pub color: String,
    pub children: Vec<ASTNode>,
}

#[derive(Debug)]
pub struct CodeNode {
    pub content: String,
}

#[derive(Debug)]
pub struct CodeBlockNode {
    pub language: Option<String>,
    pub content: String,
}

#[derive(Debug)]
pub struct LinkNode {
    pub url: String,
    pub children: Vec<ASTNode>,
}

#[derive(Debug)]
pub struct ImageNode {
    pub url: String,
    /// Intrinsic size in whole pixels, when the source supplied one.
    pub width: Option<u64>,
    pub height: Option<u64>,
    pub alt: Option<String>,
}

#[derive(Debug)]
pub struct ListNode {
    pub list_type: ListType,
    pub items: Vec<ListItemNode>,
}

#[derive(Debug)]
pub struct ListItemNode {
    pub children: Vec<ASTNode>,
    /// None for a plain item, Some(done) for a task item.
    pub checked: Option<bool>,
}

#[derive(Debug)]
pub struct TableRow {
    pub cells: Vec<TableCell>,
}

#[derive(Debug)]
pub struct TableCell {
    pub children: Vec<ASTNode>,
    pub align: Option<TextAlign>,
}

#[derive(Debug)]
pub struct TableNode {
    pub rows: Vec<TableRow>,
}

#[derive(Debug)]
pub struct MathNode {
    pub content: String,
    /// True for a block formula on its own line, false for inline math.
    pub display: bool,
}

#[derive(Debug)]
pub struct MermaidNode {
    pub content: String,
}

#[derive(Debug)]
pub struct CardNode {
    pub subtype: String,
    pub content: String,
    /// Opaque string-keyed payload, kept in insertion order.
    pub metadata: Vec<(String, String)>,
}

#[derive(Debug)]
pub struct MentionNode {
    pub id: String,
    pub name: String,
}

#[derive(Debug)]
pub struct EmojiNode {
    pub content: String,
}

#[derive(Debug)]
pub struct HorizontalRuleNode;

#[derive(Debug)]
pub struct BlockquoteNode {
    pub children: Vec<ASTNode>,
}

/// One node of the document tree.
#[derive(Debug)]
pub enum ASTNode {
    Root(RootNode),
    Paragraph(ParagraphNode),
    Heading(HeadingNode),
    Text(TextNode),
    Strong(StrongNode),
    Em(EmNode),
    Underline(UnderlineNode),
    Strike(StrikeNode),
    Color(ColorNode),
    Code(CodeNode),
    CodeBlock(CodeBlockNode),
    Link(LinkNode),
    Image(ImageNode),
    List(ListNode),
    ListItem(ListItemNode),
    Table(TableNode),
    TableRow(TableRow),
    TableCell(TableCell),
    Math(MathNode),
    Mermaid(MermaidNode),
    Card(CardNode),
    Mention(MentionNode),
    Emoji(EmojiNode),
    HorizontalRule(HorizontalRuleNode),
    Blockquote(BlockquoteNode),
}

/// Mathematical model of a list item.
#[verifier::ext_equal]
pub struct GListItem {
    pub children: Seq<GNode>,
    pub checked: Option<bool>,
}

/// Mathematical model of a table cell.
#[verifier::ext_equal]
pub struct GCell {
    pub children: Seq<GNode>,
    pub align: Option<TextAlign>,
}

/// Mathematical model of a table row.
#[verifier::ext_equal]
pub struct GRow {
    pub cells: Seq<GCell>,
}

/// Mathematical model of a document node: the value a tree denotes,
/// free of any representation detail.
#[verifier::ext_equal]
pub enum GNode {
    Root { children: Seq<GNode> },
    Paragraph { children: Seq<GNode> },
    Heading { level: u8, children: Seq<GNode> },
    Text { content: Seq<char> },
    Strong { children: Seq<GNode> },
    Em { children: Seq<GNode> },
    Underline { children: Seq<GNode> },
    Strike { children: Seq<GNode> },
    Color { color: Seq<char>, children: Seq<GNode> },
    Code { content: Seq<char> },
    CodeBlock { language: Option<Seq<char>>, content: Seq<char> },
    Link { url: Seq<char>, children: Seq<GNode> },
    Image { url: Seq<char>, width: Option<u64>, height: Option<u64>, alt: Option<Seq<char>> },
    List { list_type: ListType, items: Seq<GListItem> },
    ListItem { item: GListItem },
    Table { rows: Seq<GRow> },
    TableRow { row: GRow },
    TableCell { cell: GCell },
    Math { content: Seq<char>, display: bool },
    Mermaid { content: Seq<char> },
    Card { subtype: Seq<char>, content: Seq<char>, metadata: Seq<(Seq<char>, Seq<char>)> },
    Mention { id: Seq<char>, name: Seq<char> },
    Emoji { content: Seq<char> },
    HorizontalRule,
    Blockquote { children: Seq<GNode> },
}

pub open spec fn view_opt_str(o: Option<String>) -> Option<Seq<char>> {
    match o {
        Some(s) => Some(s@),
        None => None,
    }
}

pub open spec fn view_meta(m: Seq<(String, String)>) -> Seq<(Seq<char>, Seq<char>)>
    decreases m,
{
    if m.len() == 0 {
        Seq::empty()
    } else {
        view_meta(m.drop_last()).push((m.last().0@, m.last().1@))
    }
}

pub open spec fn view_nodes(s: Seq<ASTNode>) -> Seq<GNode>
    decreases s,
{
    if s.len() == 0 {
        Seq::empty()
    } else {
        view_nodes(s.drop_last()).push(s.last()@)
    }
}

pub open spec fn view_items(s: Seq<ListItemNode>) -> Seq<GListItem>
    decreases s,
{
    if s.len() == 0 {
        Seq::empty()
    } else {
        view_items(s.drop_last()).push(s.last()@)
    }
}

pub open spec fn view_cells(s: Seq<TableCell>) -> Seq<GCell>
    decreases s,
{
    if s.len() == 0 {
        Seq::empty()
    } else {
        view_cells(s.drop_last()).push(s.last()@)
    }
}

pub open spec fn view_rows(s: Seq<TableRow>) -> Seq<GRow>
    decreases s,
{
    if s.len() == 0 {
        Seq::empty()
    } else {
        view_rows(s.drop_last()).push(s.last()@)
    }
}

impl View for ListItemNode {
    type V = GListItem;

    open spec fn view(&self) -> GListItem
        decreases self,
    {
        GListItem { children: view_nodes(self.children@), checked: self.checked }
    }
}

impl View for TableCell {
    type V = GCell;

    open spec fn view(&self) -> GCell
        decreases self,
    {
        GCell { children: view_nodes(self.children@), align: self.align }
    }
}

impl View for TableRow {
    type V = GRow;

    open spec fn view(&self) -> GRow
        decreases self,
    {
        GRow { cells: view_cells(self.cells@) }
    }
}

impl View for RootNode {
    type V = Seq<GNode>;

    open spec fn view(&self) -> Seq<GNode>
        decreases self,
    {
        view_nodes(self.children@)
    }
}

impl View for ASTNode {
    type V = GNode;

    open spec fn view(&self) -> GNode
        decreases self,
    {
        match self {
            ASTNode::Root(n) => GNode::Root { children: view_nodes(n.children@) },
            ASTNode::Paragraph(n) => GNode::Paragraph { children: view_nodes(n.children@) },
            ASTNode::Heading(n) => GNode::Heading {
                level: n.level,
                children: view_nodes(n.children@),
            },
            ASTNode::Text(n) => GNode::Text { content: n.content@ },
            ASTNode::Strong(n) => GNode::Strong { children: view_nodes(n.children@) },
            ASTNode::Em(n) => GNode::Em { children: view_nodes(n.children@) },
            ASTNode::Underline(n) => GNode::Underline { children: view_nodes(n.children@) },
            ASTNode::Strike(n) => GNode::Strike { children: view_nodes(n.children@) },
            ASTNode::Color(n) => GNode::Color {
                color: n.color@,
                children: view_nodes(n.children@),
            },
            ASTNode::Code(n) => GNode::Code { content: n.content@ },
            ASTNode::CodeBlock(n) => GNode::CodeBlock {
                language: view_opt_str(n.language),
                content: n.content@,
            },
            ASTNode::Link(n) => GNode::Link { url: n.url@, children: view_nodes(n.children@) },
            ASTNode::Image(n) => GNode::Image {
                url: n.url@,
                width: n.width,
                height: n.height,
                alt: view_opt_str(n.alt),
            },
            ASTNode::List(n) => GNode::List { list_type: n.list_type, items: view_items(n.items@) },
            ASTNode::ListItem(n) => GNode::ListItem { item: n@ },
            ASTNode::Table(n) => GNode::Table { rows: view_rows(n.rows@) },
            ASTNode::TableRow(n) => GNode::TableRow { row: n@ },
            ASTNode::TableCell(n) => GNode::TableCell { cell: n@ },
            ASTNode::Math(n) => GNode::Math { content: n.content@, display: n.display },
            ASTNode::Mermaid(n) => GNode::Mermaid { content: n.content@ },
            ASTNode::Card(n) => GNode::Card {
                subtype: n.subtype@,
                content: n.content@,
                metadata: view_meta(n.metadata@),
            },
            ASTNode::Mention(n) => GNode::Mention { id: n.id@, name: n.name@ },
            ASTNode::Emoji(n) => GNode::Emoji { content: n.content@ },
            ASTNode::HorizontalRule(_) => GNode::HorizontalRule,
            ASTNode::Blockquote(n) => GNode::Blockquote { children: view_nodes(n.children@) },
        }
    }
}

pub broadcast proof fn lemma_view_nodes_len(s: Seq<ASTNode>)
    ensures
        #[trigger] view_nodes(s).len() == s.len(),
    decreases s.len(),
{
    if s.len() > 0 {
        lemma_view_nodes_len(s.drop_last());
        assert(s.drop_last().len() == s.len() - 1);
        assert(view_nodes(s) == view_nodes(s.drop_last()).push(s.last()@));
    }
}

pub broadcast proof fn lemma_view_nodes_index(s: Seq<ASTNode>, i: int)
    requires
        0 <= i < s.len(),
    ensures
        #[trigger] view_nodes(s)[i] == s[i]@,
    decreases s.len(),
{
    lemma_view_nodes_len(s);
    lemma_view_nodes_len(s.drop_last());
    assert(view_nodes(s) == view_nodes(s.drop_last()).push(s.last()@));
    if i < s.len() - 1 {
        lemma_view_nodes_index(s.drop_last(), i);
        assert(s.drop_last()[i] == s[i]);
    }
}

pub broadcast proof fn lemma_view_nodes_push(s: Seq<ASTNode>, x: ASTNode)
    ensures
        #[trigger] view_nodes(s.push(x)) == view_nodes(s).push(x@),
{
    assert(s.push(x).drop_last() =~= s);
    assert(s.push(x).last() == x);
}

pub broadcast proof fn lemma_view_items_push(s: Seq<ListItemNode>, x: ListItemNode)
    ensures
        #[trigger] view_items(s.push(x)) == view_items(s).push(x@),
{
    assert(s.push(x).drop_last() =~= s);
    assert(s.push(x).last() == x);
}

pub broadcast proof fn lemma_view_cells_push(s: Seq<TableCell>, x: TableCell)
    ensures
        #[trigger] view_cells(s.push(x)) == view_cells(s).push(x@),
{
    assert(s.push(x).drop_last() =~= s);
    assert(s.push(x).last() == x);
}

pub broadcast proof fn lemma_view_rows_push(s: Seq<TableRow>, x: TableRow)
    ensures
        #[trigger] view_rows(s.push(x)) == view_rows(s).push(x@),
{
    assert(s.push(x).drop_last() =~= s);
    assert(s.push(x).last() == x);
}

pub broadcast proof fn lemma_view_meta_push(s: Seq<(String, String)>, x: (String, String))
    ensures
        #[trigger] view_meta(s.push(x)) == view_meta(s).push((x.0@, x.1@)),
{
    assert(s.push(x).drop_last() =~= s);
    assert(s.push(x).last() == x);
}


pub broadcast proof fn lemma_view_items_len(s: Seq<ListItemNode>)
    ensures
        #[trigger] view_items(s).len() == s.len(),
    decreases s.len(),
{
    if s.len() > 0 {
        lemma_view_items_len(s.drop_last());
        assert(view_items(s) == view_items(s.drop_last()).push(s.last()@));
    }
}

pub broadcast proof fn lemma_view_items_index(s: Seq<ListItemNode>, i: int)
    requires
        0 <= i < s.len(),
    ensures
        #[trigger] view_items(s)[i] == s[i]@,
    decreases s.len(),
{
    lemma_view_items_len(s);
    lemma_view_items_len(s.drop_last());
    assert(view_items(s) == view_items(s.drop_last()).push(s.last()@));
    if i < s.len() - 1 {
        lemma_view_items_index(s.drop_last(), i);
        assert(s.drop_last()[i] == s[i]);
    }
}

pub broadcast proof fn lemma_view_cells_len(s: Seq<TableCell>)
    ensures
        #[trigger] view_cells(s).len() == s.len(),
    decreases s.len(),
{
    if s.len() > 0 {
        lemma_view_cells_len(s.drop_last());
        assert(view_cells(s) == view_cells(s.drop_last()).push(s.last()@));
    }
}

pub broadcast proof fn lemma_view_cells_index(s: Seq<TableCell>, i: int)
    requires
        0 <= i < s.len(),
    ensures
        #[trigger] view_cells(s)[i] == s[i]@,
    decreases s.len(),
{
    lemma_view_cells_len(s);
    lemma_view_cells_len(s.drop_last());
    assert(view_cells(s) == view_cells(s.drop_last()).push(s.last()@));
    if i < s.len() - 1 {
        lemma_view_cells_index(s.drop_last(), i);
        assert(s.drop_last()[i] == s[i]);
    }
}

pub broadcast proof fn lemma_view_rows_len(s: Seq<TableRow>)
    ensures
        #[trigger] view_rows(s).len() == s.len(),
    decreases s.len(),
{
    if s.len() > 0 {
        lemma_view_rows_len(s.drop_last());
        assert(view_rows(s) == view_rows(s.drop_last()).push(s.last()@));
    }
}

pub broadcast proof fn lemma_view_rows_index(s: Seq<TableRow>, i: int)
    requires
        0 <= i < s.len(),
    ensures
        #[trigger] view_rows(s)[i] == s[i]@,
    decreases s.len(),
{
    lemma_view_rows_len(s);
    lemma_view_rows_len(s.drop_last());
    assert(view_rows(s) == view_rows(s.drop_last()).push(s.last()@));
    if i < s.len() - 1 {
        lemma_view_rows_index(s.drop_last(), i);
        assert(s.drop_last()[i] == s[i]);
    }
}


/// The tree invariant on text leaves: no text node is ever empty (empty
/// runs are dropped at insertion).
pub open spec fn text_nonempty(n: GNode) -> bool
    decreases n, 1int,
{
    match n {
        GNode::Text { content } => content.len() > 0,
        GNode::Root { children } => text_nonempty_nodes(children),
        GNode::Paragraph { children } => text_nonempty_nodes(children),
        GNode::Heading { level, children } => text_nonempty_nodes(children),
        GNode::Strong { children } => text_nonempty_nodes(children),
        GNode::Em { children } => text_nonempty_nodes(children),
        GNode::Underline { children } => text_nonempty_nodes(children),
        GNode::Strike { children } => text_nonempty_nodes(children),
        GNode::Color { color, children } => text_nonempty_nodes(children),
        GNode::Link { url, children } => text_nonempty_nodes(children),
        GNode::Blockquote { children } => text_nonempty_nodes(children),
        GNode::List { list_type, items } => text_nonempty_items(items),
        GNode::ListItem { item } => text_nonempty_nodes(item.children),
        GNode::Table { rows } => text_nonempty_rows(rows),
        GNode::TableRow { row } => text_nonempty_cells(row.cells),
        GNode::TableCell { cell } => text_nonempty_nodes(cell.children),
        _ => true,
    }
}

pub open spec fn text_nonempty_nodes(s: Seq<GNode>) -> bool
    decreases s, 0int,
{
    if s.len() == 0 {
        true
    } else {
        text_nonempty_nodes(s.drop_last()) && text_nonempty(s.last())
    }
}

pub open spec fn text_nonempty_items(s: Seq<GListItem>) -> bool
    decreases s, 0int,
{
    if s.len() == 0 {
        true
    } else {
        text_nonempty_items(s.drop_last()) && text_nonempty_nodes(s.last().children)
    }
}

pub open spec fn text_nonempty_rows(s: Seq<GRow>) -> bool
    decreases s, 2int,
{
    if s.len() == 0 {
        true
    } else {
        text_nonempty_rows(s.drop_last()) && text_nonempty_cells(s.last().cells)
    }
}

pub open spec fn text_nonempty_cells(s: Seq<GCell>) -> bool
    decreases s, 0int,
{
    if s.len() == 0 {
        true
    } else {
        text_nonempty_cells(s.drop_last()) && text_nonempty_nodes(s.last().children)
    }
}

pub proof fn lemma_text_nonempty_push(s: Seq<GNode>, x: GNode)
    ensures
        text_nonempty_nodes(s.push(x)) == (text_nonempty_nodes(s) && text_nonempty(x)),
{
    assert(s.push(x).drop_last() =~= s);
    assert(s.push(x).last() == x);
    assert(text_nonempty_nodes(s.push(x)) == (text_nonempty_nodes(s.push(x).drop_last())
        && text_nonempty(s.push(x).last())));
}

pub proof fn lemma_text_nonempty_items_push(s: Seq<GListItem>, x: GListItem)
    ensures
        text_nonempty_items(s.push(x)) == (text_nonempty_items(s) && text_nonempty_nodes(
            x.children,
        )),
{
    assert(s.push(x).drop_last() =~= s);
    assert(s.push(x).last() == x);
    assert(text_nonempty_items(s.push(x)) == (text_nonempty_items(s.push(x).drop_last())
        && text_nonempty_nodes(s.push(x).last().children)));
}

pub proof fn lemma_text_nonempty_singleton(x: GNode)
    ensures
        text_nonempty_nodes(seq![x]) == text_nonempty(x),
{
    assert(seq![x].drop_last() =~= Seq::<GNode>::empty());
    assert(seq![x].last() == x);
    assert(text_nonempty_nodes(Seq::<GNode>::empty()));
    assert(text_nonempty_nodes(seq![x]) == (text_nonempty_nodes(seq![x].drop_last())
        && text_nonempty(seq![x].last())));
}

pub proof fn lemma_text_nonempty_items_singleton(it: GListItem)
    ensures
        text_nonempty_items(seq![it]) == text_nonempty_nodes(it.children),
{
    assert(seq![it].drop_last() =~= Seq::<GListItem>::empty());
    assert(seq![it].last() == it);
    assert(text_nonempty_items(Seq::<GListItem>::empty()));
    assert(text_nonempty_items(seq![it]) == (text_nonempty_items(seq![it].drop_last())
        && text_nonempty_nodes(seq![it].last().children)));
}

pub proof fn lemma_text_nonempty_rows_push(s: Seq<GRow>, x: GRow)
    ensures
        text_nonempty_rows(s.push(x)) == (text_nonempty_rows(s) && text_nonempty_cells(x.cells)),
{
    assert(s.push(x).drop_last() =~= s);
    assert(s.push(x).last() == x);
    assert(text_nonempty_rows(s.push(x)) == (text_nonempty_rows(s.push(x).drop_last())
        && text_nonempty_cells(s.push(x).last().cells)));
}

pub proof fn lemma_text_nonempty_cells_push(s: Seq<GCell>, x: GCell)
    ensures
        text_nonempty_cells(s.push(x)) == (text_nonempty_cells(s) && text_nonempty_nodes(
            x.children,
        )),
{
    assert(s.push(x).drop_last() =~= s);
    assert(s.push(x).last() == x);
    assert(text_nonempty_cells(s.push(x)) == (text_nonempty_cells(s.push(x).drop_last())
        && text_nonempty_nodes(s.push(x).last().children)));
}

pub proof fn lemma_text_nonempty_concat(a: Seq<GNode>, b: Seq<GNode>)
    ensures
        text_nonempty_nodes(a + b) == (text_nonempty_nodes(a) && text_nonempty_nodes(b)),
    decreases b.len(),
{
    if b.len() == 0 {
        assert(a + b =~= a);
        assert(text_nonempty_nodes(Seq::<GNode>::empty()));
    } else {
        lemma_text_nonempty_concat(a, b.drop_last());
        assert((a + b).drop_last() =~= a + b.drop_last());
        assert((a + b).last() == b.last());
        assert(text_nonempty_nodes(a + b) == (text_nonempty_nodes((a + b).drop_last())
            && text_nonempty((a + b).last())));
        assert(text_nonempty_nodes(b) == (text_nonempty_nodes(b.drop_last()) && text_nonempty(
            b.last(),
        )));
    }
}

impl RootNode {
    /// A fresh root with no children.
    pub fn new() -> (r: RootNode)
        ensures
            r@ == Seq::<GNode>::empty(),
    {
        RootNode { children: Vec::new() }
    }
}

impl Default for RootNode {
    fn default() -> (r: RootNode)
        ensures
            r@ == Seq::<GNode>::empty(),
    {
        RootNode::new()
    }
}

/// The heading level actually stored for a requested level: forced into 1 ..= 6.
pub open spec fn clamp_level(level: u8) -> u8 {
    if level < 1 {
        1
    } else if level > 6 {
        6
    } else {
        level
    }
}

/// Clamp a requested heading level into the valid range.
pub fn clamp_heading_level(level: u8) -> (r: u8)
    ensures
        r == clamp_level(level),
        1 <= r <= 6,
{
    if level < 1 {
        1
    } else if level > 6 {
        6
    } else {
        level
    }
}

} // verus!
