//! The small vocabularies a document is described in.
use vstd::prelude::*;

verus! {

/// How a line under a run of text is drawn.
#[derive(Clone, Copy, Debug, PartialEq, Eq, Structural)]
pub enum UnderlineStyle {
    NoUnderline,
    SingleUnderline,
    DashUnderline,
    DotLine,
    DashDotLine,
    DashDotDotLine,
    WaveUnderline,
    SpellCheckUnderline,
}

/// Where a run of text sits relative to the line it is on.
#[derive(Clone, Copy, Debug, PartialEq, Eq, Structural)]
pub enum CharVerticalAlignment {
    Normal,
    SuperScript,
    SubScript,
    Middle,
    Bottom,
    Top,
    Baseline,
}

/// How the lines of a block are set between its margins.
#[derive(Clone, Copy, Debug, PartialEq, Eq, Structural)]
pub enum Alignment {
    Left,
    Right,
    Center,
    Justify,
}

/// The task marker of a block.
#[derive(Clone, Copy, Debug, PartialEq, Eq, Structural)]
pub enum MarkerType {
    NoMarker,
    Unchecked,
    Checked,
}

/// The reading direction of a block.
#[derive(Clone, Copy, Debug, PartialEq, Eq, Structural)]
pub enum TextDirection {
    LeftToRight,
    RightToLeft,
}

/// How the items of a list are marked.
#[derive(Clone, Copy, Debug, PartialEq, Eq, Structural)]
pub enum ListStyle {
    Disc,
    Circle,
    Square,
    Decimal,
    LowerAlpha,
    UpperAlpha,
    LowerRoman,
    UpperRoman,
}

/// What a block is for, beyond how it looks.
#[derive(Clone, Copy, Debug, PartialEq, Eq, Structural)]
pub enum SemanticRole {
    Epigraph,
}

/// Where a frame is set relative to the flow.
#[derive(Clone, Copy, Debug, PartialEq, Eq, Structural)]
pub enum FramePosition {
    InFlow,
    FloatLeft,
    FloatRight,
}

/// What identifies a row of the store.
pub type EntityId = u64;

/// The id of the one root.
pub const ROOT_ENTITY_ID: EntityId = 1;

/// A copy of a list of numbers.
pub fn copy_list<T: Copy>(list: &Vec<T>) -> (copy: Vec<T>)
    ensures
        copy@ == list@,
{
    let mut copy: Vec<T> = Vec::new();
    for i in 0..list.len()
        invariant
            copy@ == list@.take(i as int),
    {
        copy.push(list[i]);
        assert(list@.take(i + 1) =~= list@.take(i as int).push(list@[i as int]));
    }
    assert(list@.take(list@.len() as int) =~= list@);
    copy
}

/// What a [`Root`] holds.
#[verifier::ext_equal]
pub struct RootModel {
    pub id: EntityId,
    pub documents: Seq<EntityId>,
}

/// What everything hangs from.
#[derive(Debug, PartialEq, Eq)]
pub struct Root {
    pub id: EntityId,
    pub documents: Vec<EntityId>,
}

impl DeepView for Root {
    type V = RootModel;

    open spec fn deep_view(&self) -> RootModel {
        RootModel { id: self.id, documents: self.documents@ }
    }
}

impl Clone for Root {
    fn clone(&self) -> (copy: Self)
        ensures
            copy.deep_view() == self.deep_view(),
    {
        Root { id: self.id, documents: copy_list(&self.documents) }
    }
}

/// What a [`Document`] holds.
#[verifier::ext_equal]
pub struct DocumentModel {
    pub id: EntityId,
    pub created_at: i64,
    pub updated_at: i64,
    pub frames: Seq<EntityId>,
    pub character_count: i64,
}

/// A document. Its first frame is the one that holds its flow.
#[derive(Debug, PartialEq, Eq)]
pub struct Document {
    pub id: EntityId,
    /// Milliseconds since the epoch, as all times here.
    pub created_at: i64,
    pub updated_at: i64,
    pub frames: Vec<EntityId>,
    pub character_count: i64,
}

impl DeepView for Document {
    type V = DocumentModel;

    open spec fn deep_view(&self) -> DocumentModel {
        DocumentModel {
            id: self.id,
            created_at: self.created_at,
            updated_at: self.updated_at,
            frames: self.frames@,
            character_count: self.character_count,
        }
    }
}

impl Clone for Document {
    fn clone(&self) -> (copy: Self)
        ensures
            copy.deep_view() == self.deep_view(),
    {
        Document {
            id: self.id,
            created_at: self.created_at,
            updated_at: self.updated_at,
            frames: copy_list(&self.frames),
            character_count: self.character_count,
        }
    }
}

/// What a frame looks like.
#[derive(Clone, Copy, Debug, PartialEq, Eq, Structural)]
pub struct FrameFormat {
    pub height: Option<i64>,
    pub width: Option<i64>,
    pub top_margin: Option<i64>,
    pub bottom_margin: Option<i64>,
    pub left_margin: Option<i64>,
    pub right_margin: Option<i64>,
    pub padding: Option<i64>,
    pub border: Option<i64>,
    pub position: Option<FramePosition>,
    pub is_blockquote: Option<bool>,
}

/// What a [`Frame`] holds.
#[verifier::ext_equal]
pub struct FrameModel {
    pub id: EntityId,
    pub created_at: i64,
    pub updated_at: i64,
    pub parent_frame: Option<EntityId>,
    pub blocks: Seq<EntityId>,
    pub child_order: Seq<i64>,
    pub format: FrameFormat,
    pub table: Option<EntityId>,
    pub byte_range: (u32, u32),
}

/// A frame: a part of a document that holds blocks and further frames.
#[derive(Debug, PartialEq, Eq)]
pub struct Frame {
    pub id: EntityId,
    pub created_at: i64,
    pub updated_at: i64,
    pub parent_frame: Option<EntityId>,
    pub blocks: Vec<EntityId>,
    /// The children in order: the id of a block, or the negated id of a frame.
    pub child_order: Vec<i64>,
    pub format: FrameFormat,
    /// Set where the frame stands for a table.
    pub table: Option<EntityId>,
    pub byte_range: (u32, u32),
}

impl DeepView for Frame {
    type V = FrameModel;

    open spec fn deep_view(&self) -> FrameModel {
        FrameModel {
            id: self.id,
            created_at: self.created_at,
            updated_at: self.updated_at,
            parent_frame: self.parent_frame,
            blocks: self.blocks@,
            child_order: self.child_order@,
            format: self.format,
            table: self.table,
            byte_range: self.byte_range,
        }
    }
}

impl Clone for Frame {
    fn clone(&self) -> (copy: Self)
        ensures
            copy.deep_view() == self.deep_view(),
    {
        Frame {
            id: self.id,
            created_at: self.created_at,
            updated_at: self.updated_at,
            parent_frame: self.parent_frame,
            blocks: copy_list(&self.blocks),
            child_order: copy_list(&self.child_order),
            format: self.format,
            table: self.table,
            byte_range: self.byte_range,
        }
    }
}

/// A block, by what is not in the text or in its runs.
#[derive(Clone, Copy, Debug, PartialEq, Eq, Structural)]
pub struct Block {
    pub id: EntityId,
    pub created_at: i64,
    pub updated_at: i64,
    /// Where the block begins, in the document's addressable characters.
    pub document_position: i64,
}

/// What a [`Table`] holds.
#[verifier::ext_equal]
pub struct TableRowModel {
    pub id: EntityId,
    pub cells: Seq<EntityId>,
}

/// A table, by its cells.
#[derive(Debug, PartialEq, Eq)]
pub struct Table {
    pub id: EntityId,
    pub cells: Vec<EntityId>,
}

impl DeepView for Table {
    type V = TableRowModel;

    open spec fn deep_view(&self) -> TableRowModel {
        TableRowModel { id: self.id, cells: self.cells@ }
    }
}

impl Clone for Table {
    fn clone(&self) -> (copy: Self)
        ensures
            copy.deep_view() == self.deep_view(),
    {
        Table { id: self.id, cells: copy_list(&self.cells) }
    }
}

/// A cell of a table, and the frame that holds its content.
#[derive(Clone, Copy, Debug, PartialEq, Eq, Structural)]
pub struct TableCell {
    pub id: EntityId,
    pub row: i64,
    pub column: i64,
    pub cell_frame: Option<EntityId>,
}

/// A list, by how its items are marked.
#[derive(Clone, Copy, Debug, PartialEq, Eq, Structural)]
pub struct List {
    pub id: EntityId,
    pub style: ListStyle,
    pub indent: i64,
}

/// What a [`Resource`] holds.
#[verifier::ext_equal]
pub struct ResourceModel {
    pub id: EntityId,
    pub name: Seq<char>,
    pub mime_type: Seq<char>,
}

/// A resource that a document names, such as an image.
#[derive(Debug, PartialEq, Eq)]
pub struct Resource {
    pub id: EntityId,
    pub name: String,
    pub mime_type: String,
}

impl DeepView for Resource {
    type V = ResourceModel;

    open spec fn deep_view(&self) -> ResourceModel {
        ResourceModel { id: self.id, name: self.name@, mime_type: self.mime_type@ }
    }
}

impl Clone for Resource {
    fn clone(&self) -> (copy: Self)
        ensures
            copy.deep_view() == self.deep_view(),
    {
        Resource { id: self.id, name: self.name.clone(), mime_type: self.mime_type.clone() }
    }
}

} // verus!
