use vstd::prelude::*;

verus! {

/// A named element: a struct field, an enum variant, or a registry entry.
pub struct Named<T> {
    pub name: String,
    pub value: T,
}

/// The recursive shape of a single value.
pub enum Format {
    /// A reference to another container by name.
    TypeName(String),
    Unit,
    Bool,
    I8,
    I16,
    I32,
    I64,
    I128,
    U8,
    U16,
    U32,
    U64,
    U128,
    F32,
    F64,
    Char,
    Str,
    Bytes,
    /// An optional value.
    Option(Box<Format>),
    /// A variable-length ordered sequence.
    Sequence(Box<Format>),
    /// An associative container with unique keys.
    Mapping { key: Box<Format>, value: Box<Format> },
    /// A fixed heterogeneous record.
    Tuple(Vec<Format>),
    /// A fixed-size homogeneous array.
    TupleArray { content: Box<Format>, size: usize },
    /// An unresolved placeholder: never present in a finalized registry.
    Variable,
}

/// The shape of one alternative of an enum container.
pub enum VariantFormat {
    Unit,
    NewType(Box<Format>),
    Tuple(Vec<Format>),
    Struct(Vec<Named<Format>>),
    /// An unresolved placeholder: never present in a finalized registry.
    Variable,
}

/// The shape of a top-level registry entry.
pub enum ContainerFormat {
    UnitStruct,
    NewTypeStruct(Box<Format>),
    TupleStruct(Vec<Format>),
    Struct(Vec<Named<Format>>),
    /// Variants keyed by their index; a valid enum uses exactly `0..N-1`.
    Enum(Vec<(u32, Named<VariantFormat>)>),
}

/// An ordered mapping from globally unique container name to its shape.
/// The entry order is the registry order; it is not assumed to be a
/// dependency order.
pub struct Registry {
    pub entries: Vec<Named<ContainerFormat>>,
}

/// A mapping from module name (possibly empty) to the type names that this
/// module already defines; such names are never re-emitted locally.
pub struct ExternalDefinitions {
    pub entries: Vec<(String, Vec<String>)>,
}

/// A mapping from dotted qualified path to the doc comment attached to it.
pub struct DocComments {
    pub entries: Vec<(Vec<String>, String)>,
}

/// The views of a sequence of strings.
pub open spec fn views(v: Seq<String>) -> Seq<Seq<char>> {
    v.map_values(|s: String| s@)
}

/// No placeholder occurs anywhere in the format.
pub open spec fn format_finalized(f: Format) -> bool
    decreases f,
{
    match f {
        Format::Variable => false,
        Format::Option(inner) => format_finalized(*inner),
        Format::Sequence(inner) => format_finalized(*inner),
        Format::Mapping { key, value } => format_finalized(*key) && format_finalized(*value),
        Format::Tuple(inners) => forall|i: int|
            0 <= i < inners@.len() ==> format_finalized(#[trigger] inners@[i]),
        Format::TupleArray { content, size } => format_finalized(*content),
        _ => true,
    }
}

pub open spec fn formats_finalized(fs: Seq<Format>) -> bool {
    forall|i: int| 0 <= i < fs.len() ==> format_finalized(#[trigger] fs[i])
}

pub open spec fn fields_finalized(fields: Seq<Named<Format>>) -> bool {
    forall|i: int| 0 <= i < fields.len() ==> format_finalized(#[trigger] fields[i].value)
}

pub open spec fn variant_finalized(v: VariantFormat) -> bool
    decreases v,
{
    match v {
        VariantFormat::Variable => false,
        VariantFormat::Unit => true,
        VariantFormat::NewType(inner) => format_finalized(*inner),
        VariantFormat::Tuple(inners) => formats_finalized(inners@),
        VariantFormat::Struct(fields) => fields_finalized(fields@),
    }
}

/// The enum variant indices are exactly `0..N-1`, in order.
pub open spec fn enum_indices_contiguous(entries: Seq<(u32, Named<VariantFormat>)>) -> bool {
    forall|i: int| 0 <= i < entries.len() ==> (#[trigger] entries[i].0) as int == i
}

/// The container can be emitted: no placeholder inside, and, for an enum,
/// contiguous variant indices.
pub open spec fn container_valid(c: ContainerFormat) -> bool {
    match c {
        ContainerFormat::UnitStruct => true,
        ContainerFormat::NewTypeStruct(inner) => format_finalized(*inner),
        ContainerFormat::TupleStruct(inners) => formats_finalized(inners@),
        ContainerFormat::Struct(fields) => fields_finalized(fields@),
        ContainerFormat::Enum(entries) => enum_indices_contiguous(entries@) && (forall|i: int|
            0 <= i < entries@.len() ==> variant_finalized(#[trigger] entries@[i].1.value)),
    }
}

impl Registry {
    /// The names of the registry entries, in registry order.
    pub open spec fn names(self) -> Seq<Seq<char>> {
        Seq::new(self.entries@.len(), |i: int| self.entries@[i].name@)
    }

    /// Registry names are globally unique.
    pub open spec fn wf(self) -> bool {
        forall|i: int, j: int|
            0 <= i < j < self.entries@.len() ==> self.names()[i] != self.names()[j]
    }

    /// Whether some entry carries this name.
    pub open spec fn has_name(self, n: Seq<char>) -> bool {
        self.names().contains(n)
    }

    /// Every container of the registry is valid for emission.
    pub open spec fn all_valid(self) -> bool {
        forall|i: int|
            0 <= i < self.entries@.len() ==> container_valid(#[trigger] self.entries@[i].value)
    }

    /// The shape registered under the name `n` (meaningful when `has_name`).
    pub open spec fn value_of(self, n: Seq<char>) -> ContainerFormat {
        self.entries@[choose|i: int|
            0 <= i < self.entries@.len() && self.entries@[i].name@ == n].value
    }
}

/// The view of an external-definition map: module name and type names,
/// in entry order.
pub type ExtView = Seq<(Seq<char>, Seq<Seq<char>>)>;

pub open spec fn ext_view(e: ExternalDefinitions) -> ExtView {
    Seq::new(e.entries@.len(), |i: int| (e.entries@[i].0@, views(e.entries@[i].1@)))
}

impl ExternalDefinitions {
    /// An empty map of external definitions.
    pub fn new() -> (r: ExternalDefinitions)
        ensures
            ext_view(r) =~= Seq::<(Seq<char>, Seq<Seq<char>>)>::empty(),
    {
        ExternalDefinitions { entries: Vec::new() }
    }
}

/// The view of a doc-comment index: qualified path and comment text, in
/// entry order.
pub type CommentsView = Seq<(Seq<Seq<char>>, Seq<char>)>;

pub open spec fn dc_view(d: DocComments) -> CommentsView {
    Seq::new(d.entries@.len(), |i: int| (views(d.entries@[i].0@), d.entries@[i].1@))
}

/// Qualified paths are unique.
pub open spec fn cv_wf(c: CommentsView) -> bool {
    forall|i: int, j: int| 0 <= i < j < c.len() ==> (#[trigger] c[i]).0 != (#[trigger] c[j]).0
}

/// Whether a comment is attached to this qualified path.
pub open spec fn cv_has(c: CommentsView, path: Seq<Seq<char>>) -> bool {
    exists|i: int| 0 <= i < c.len() && (#[trigger] c[i]).0 == path
}

/// The comment attached to this qualified path (meaningful when `cv_has`).
pub open spec fn cv_at(c: CommentsView, path: Seq<Seq<char>>) -> Seq<char> {
    c[choose|i: int| 0 <= i < c.len() && (#[trigger] c[i]).0 == path].1
}

impl DocComments {
    /// An empty doc-comment index.
    pub fn new() -> (r: DocComments)
        ensures
            dc_view(r) =~= Seq::<(Seq<Seq<char>>, Seq<char>)>::empty(),
    {
        DocComments { entries: Vec::new() }
    }
}

} // verus!
