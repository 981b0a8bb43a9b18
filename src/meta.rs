//! Indexed declarations awaiting resolution, the metadata they resolve to,
//! and the entries of the build queue.
use vstd::prelude::*;
use crate::ast::{Block, Call, ExprClosure, ItemFn, Span, StructBody};
use crate::error::MetaTag;
use crate::ir::Ir;
use crate::item::{ComponentView, Item};
use crate::table::Keyed;

verus! {

/// Whether a value is being evaluated because it is used or not.
#[derive(Clone, Copy, Debug, PartialEq, Eq, Structural)]
pub enum Used {
    /// The value is not being used.
    Unused,
    /// The value is being used.
    Used,
}

impl Used {
    /// Test if this used indicates unuse.
    pub fn is_unused(self) -> (r: bool)
        ensures
            r == (self == Used::Unused),
    {
        matches!(self, Used::Unused)
    }
}

/// A name that a closure or async block closes over.
#[derive(Clone, Debug)]
pub struct Capture {
    pub ident: String,
}

/// The names of a capture list.
pub open spec fn captures_view(c: Seq<Capture>) -> Seq<Seq<char>> {
    c.map_values(|x: Capture| x.ident@)
}

/// The contents of a list of strings.
pub open spec fn strings_view(s: Seq<String>) -> Seq<Seq<char>> {
    s.map_values(|x: String| x@)
}

/// A copy of a capture list.
pub fn copy_captures(c: &Vec<Capture>) -> (r: Vec<Capture>)
    ensures
        captures_view(r@) == captures_view(c@),
{
    let mut r: Vec<Capture> = Vec::new();
    let mut i: usize = 0;
    while i < c.len()
        invariant
            i <= c@.len(),
            captures_view(r@) == captures_view(c@.subrange(0, i as int)),
        decreases c@.len() - i,
    {
        r.push(Capture { ident: c[i].ident.clone() });
        proof {
            assert(captures_view(c@.subrange(0, i as int + 1)) =~= captures_view(c@.subrange(0, i as int)).push(c@[i as int].ident@));
        }
        i = i + 1;
    }
    assert(c@.subrange(0, c@.len() as int) =~= c@);
    r
}

/// A copy of a list of strings.
pub fn copy_strings(c: &Vec<String>) -> (r: Vec<String>)
    ensures
        strings_view(r@) == strings_view(c@),
{
    let mut r: Vec<String> = Vec::new();
    let mut i: usize = 0;
    while i < c.len()
        invariant
            i <= c@.len(),
            strings_view(r@) == strings_view(c@.subrange(0, i as int)),
        decreases c@.len() - i,
    {
        r.push(c[i].clone());
        proof {
            assert(strings_view(c@.subrange(0, i as int + 1)) =~= strings_view(c@.subrange(0, i as int)).push(c@[i as int]@));
        }
        i = i + 1;
    }
    assert(c@.subrange(0, c@.len() as int) =~= c@);
    r
}

/// A struct declaration awaiting resolution.
pub struct Struct {
    /// The body of the struct.
    pub body: StructBody,
}

impl Struct {
    /// Construct a new struct entry.
    pub fn new(body: StructBody) -> (r: Self)
        ensures
            r.body == body,
    {
        Self { body }
    }
}

/// An enum variant declaration awaiting resolution.
pub struct Variant {
    /// Item of the enum type.
    pub enum_item: Item,
    /// The body of the variant.
    pub body: StructBody,
}

impl Variant {
    /// Construct a new variant.
    pub fn new(enum_item: Item, body: StructBody) -> (r: Self)
        ensures
            r.enum_item == enum_item && r.body == body,
    {
        Self { enum_item, body }
    }
}

/// A function declaration.
pub struct Function {
    pub ast: ItemFn,
    pub call: Call,
}

/// A closure with its capture list.
pub struct Closure {
    pub ast: ExprClosure,
    pub captures: Vec<Capture>,
    pub call: Call,
}

/// An async block with its capture list.
pub struct AsyncBlock {
    pub ast: Block,
    pub captures: Vec<Capture>,
    pub call: Call,
}

/// A constant expression in intermediate form.
pub struct Const {
    pub ir: Ir,
}

/// The pre-build record of a declaration.
pub enum Indexed {
    Enum,
    Struct(Struct),
    Variant(Variant),
    Function(Function),
    Closure(Closure),
    AsyncBlock(AsyncBlock),
    Const(Const),
}

/// A declaration in the index: where it stands and what it is.
pub struct IndexedEntry {
    pub span: Span,
    pub source_id: usize,
    pub indexed: Indexed,
}

impl Keyed for (Item, IndexedEntry) {
    open spec fn key(&self) -> Seq<ComponentView> {
        self.0@
    }

    fn item(&self) -> (r: &Item) {
        &self.0
    }
}

/// Where a resolved item was declared.
#[derive(Clone, Copy, Debug, PartialEq, Eq, Structural)]
pub struct CompileSource {
    pub span: Span,
    pub source_id: usize,
}

/// The shape of a resolved item.
#[derive(Debug)]
pub enum MetaKind {
    Enum { type_of: u64 },
    Tuple { type_of: u64, args: usize },
    TupleVariant { type_of: u64, enum_item: Item, args: usize },
    Struct { type_of: u64, fields: Vec<String> },
    ObjectVariant { type_of: u64, enum_item: Item, fields: Vec<String> },
    Function { type_of: u64, call: Call },
    Closure { type_of: u64, captures: Vec<Capture>, call: Call },
    AsyncBlock { type_of: u64, captures: Vec<Capture>, call: Call },
    Const { value: i64 },
}

/// The mathematical value of a metadata shape; named fields form a set.
pub ghost enum MetaKindView {
    Enum { type_of: u64 },
    Tuple { type_of: u64, args: nat },
    TupleVariant { type_of: u64, enum_item: Seq<ComponentView>, args: nat },
    Struct { type_of: u64, fields: Set<Seq<char>> },
    ObjectVariant { type_of: u64, enum_item: Seq<ComponentView>, fields: Set<Seq<char>> },
    Function { type_of: u64, call: Call },
    Closure { type_of: u64, captures: Seq<Seq<char>>, call: Call },
    AsyncBlock { type_of: u64, captures: Seq<Seq<char>>, call: Call },
    Const { value: i64 },
}

impl View for MetaKind {
    type V = MetaKindView;

    open spec fn view(&self) -> MetaKindView {
        match self {
            MetaKind::Enum { type_of } => MetaKindView::Enum { type_of: *type_of },
            MetaKind::Tuple { type_of, args } => MetaKindView::Tuple { type_of: *type_of, args: *args as nat },
            MetaKind::TupleVariant { type_of, enum_item, args } => MetaKindView::TupleVariant {
                type_of: *type_of,
                enum_item: enum_item@,
                args: *args as nat,
            },
            MetaKind::Struct { type_of, fields } => MetaKindView::Struct {
                type_of: *type_of,
                fields: strings_view(fields@).to_set(),
            },
            MetaKind::ObjectVariant { type_of, enum_item, fields } => MetaKindView::ObjectVariant {
                type_of: *type_of,
                enum_item: enum_item@,
                fields: strings_view(fields@).to_set(),
            },
            MetaKind::Function { type_of, call } => MetaKindView::Function { type_of: *type_of, call: *call },
            MetaKind::Closure { type_of, captures, call } => MetaKindView::Closure {
                type_of: *type_of,
                captures: captures_view(captures@),
                call: *call,
            },
            MetaKind::AsyncBlock { type_of, captures, call } => MetaKindView::AsyncBlock {
                type_of: *type_of,
                captures: captures_view(captures@),
                call: *call,
            },
            MetaKind::Const { value } => MetaKindView::Const { value: *value },
        }
    }
}

impl MetaKind {
    /// The shape's name.
    pub fn tag(&self) -> (r: MetaTag)
        ensures
            r == tag_of(self@),
    {
        match self {
            MetaKind::Enum { .. } => MetaTag::Enum,
            MetaKind::Tuple { .. } => MetaTag::Tuple,
            MetaKind::TupleVariant { .. } => MetaTag::TupleVariant,
            MetaKind::Struct { .. } => MetaTag::Struct,
            MetaKind::ObjectVariant { .. } => MetaTag::ObjectVariant,
            MetaKind::Function { .. } => MetaTag::Function,
            MetaKind::Closure { .. } => MetaTag::Closure,
            MetaKind::AsyncBlock { .. } => MetaTag::AsyncBlock,
            MetaKind::Const { .. } => MetaTag::Const,
        }
    }

    /// A copy of the shape.
    pub fn duplicate(&self) -> (r: MetaKind)
        ensures
            r@ == self@,
    {
        match self {
            MetaKind::Enum { type_of } => MetaKind::Enum { type_of: *type_of },
            MetaKind::Tuple { type_of, args } => MetaKind::Tuple { type_of: *type_of, args: *args },
            MetaKind::TupleVariant { type_of, enum_item, args } => MetaKind::TupleVariant {
                type_of: *type_of,
                enum_item: enum_item.duplicate(),
                args: *args,
            },
            MetaKind::Struct { type_of, fields } => MetaKind::Struct {
                type_of: *type_of,
                fields: copy_strings(fields),
            },
            MetaKind::ObjectVariant { type_of, enum_item, fields } => MetaKind::ObjectVariant {
                type_of: *type_of,
                enum_item: enum_item.duplicate(),
                fields: copy_strings(fields),
            },
            MetaKind::Function { type_of, call } => MetaKind::Function { type_of: *type_of, call: *call },
            MetaKind::Closure { type_of, captures, call } => MetaKind::Closure {
                type_of: *type_of,
                captures: copy_captures(captures),
                call: *call,
            },
            MetaKind::AsyncBlock { type_of, captures, call } => MetaKind::AsyncBlock {
                type_of: *type_of,
                captures: copy_captures(captures),
                call: *call,
            },
            MetaKind::Const { value } => MetaKind::Const { value: *value },
        }
    }
}

/// The name of a metadata shape.
pub open spec fn tag_of(k: MetaKindView) -> MetaTag {
    match k {
        MetaKindView::Enum { .. } => MetaTag::Enum,
        MetaKindView::Tuple { .. } => MetaTag::Tuple,
        MetaKindView::TupleVariant { .. } => MetaTag::TupleVariant,
        MetaKindView::Struct { .. } => MetaTag::Struct,
        MetaKindView::ObjectVariant { .. } => MetaTag::ObjectVariant,
        MetaKindView::Function { .. } => MetaTag::Function,
        MetaKindView::Closure { .. } => MetaTag::Closure,
        MetaKindView::AsyncBlock { .. } => MetaTag::AsyncBlock,
        MetaKindView::Const { .. } => MetaTag::Const,
    }
}

/// The resolved record of an item.
#[derive(Debug)]
pub struct CompileMeta {
    pub item: Item,
    pub kind: MetaKind,
    pub source: CompileSource,
}

/// The mathematical value of a resolved record.
pub ghost struct MetaView {
    pub item: Seq<ComponentView>,
    pub kind: MetaKindView,
    pub source: CompileSource,
}

impl View for CompileMeta {
    type V = MetaView;

    open spec fn view(&self) -> MetaView {
        MetaView { item: self.item@, kind: self.kind@, source: self.source }
    }
}

impl CompileMeta {
    /// A copy of the record.
    pub fn duplicate(&self) -> (r: CompileMeta)
        ensures
            r@ == self@,
    {
        CompileMeta { item: self.item.duplicate(), kind: self.kind.duplicate(), source: self.source }
    }
}

impl Keyed for CompileMeta {
    open spec fn key(&self) -> Seq<ComponentView> {
        self.item@
    }

    fn item(&self) -> (r: &Item) {
        &self.item
    }
}

/// What a build queue entry asks the emitter to do.
pub enum Build {
    Function(Function),
    Closure(Closure),
    AsyncBlock(AsyncBlock),
    UnusedConst(Const),
}

/// An entry in the build queue.
pub struct BuildEntry {
    /// The item of the build entry.
    pub item: Item,
    /// The build entry.
    pub build: Build,
    /// The source id of the build entry.
    pub source_id: usize,
    /// If the queued up entry was unused or not.
    pub used: Used,
}

} // verus!
