//! The data of a crate as the compiler saves it, in plain values. Rows and
//! columns are counted from one, and ids are relative to the crate.
use vstd::prelude::*;

use crate::path::FilePath;

verus! {

/// What kind of thing a definition defines.
#[derive(Copy, Clone, PartialEq, Eq, Structural, Debug, Hash)]
pub enum DefKind {
    Enum,
    TupleVariant,
    StructVariant,
    Tuple,
    Struct,
    Union,
    Trait,
    Function,
    ForeignFunction,
    Method,
    Macro,
    Mod,
    Type,
    Local,
    Static,
    ForeignStatic,
    Const,
    Field,
    ExternType,
}

/// The letter of the name space of a definition: `t` for types, `m` for macros,
/// `v` for everything that is a value or a module.
pub open spec fn name_space(kind: DefKind) -> char {
    match kind {
        DefKind::Enum
        | DefKind::Struct
        | DefKind::Union
        | DefKind::Type
        | DefKind::ExternType
        | DefKind::Trait => 't',
        DefKind::Macro => 'm',
        _ => 'v',
    }
}

/// The letter of the name space that a kind of definition lives in.
pub fn name_space_for_def_kind(kind: DefKind) -> (c: char)
    ensures
        c == name_space(kind),
{
    match kind {
        DefKind::Enum
        | DefKind::Struct
        | DefKind::Union
        | DefKind::Type
        | DefKind::ExternType
        | DefKind::Trait => 't',
        DefKind::Macro => 'm',
        _ => 'v',
    }
}

/// An id as the compiler gives it: the number of a crate, zero for the crate
/// itself and from one on for the crates it depends on, and an index in that
/// crate. The largest number in either place means that there is none.
#[derive(Copy, Clone, PartialEq, Eq, Structural, Debug, Hash)]
pub struct CompilerId {
    pub krate: u32,
    pub index: u32,
}

/// A range of a file, counted from one.
#[derive(PartialEq, Eq, Debug)]
pub struct SpanData {
    pub file_name: FilePath,
    pub line_start: u32,
    pub line_end: u32,
    pub column_start: u32,
    pub column_end: u32,
}

/// A crate that another one depends on, and the number it has there.
#[derive(PartialEq, Eq, Debug)]
pub struct ExternalCrateData {
    pub name: String,
    pub num: u32,
}

/// What a crate is and which crates it depends on.
#[derive(PartialEq, Eq, Debug)]
pub struct CratePreludeData {
    pub crate_name: String,
    pub crate_root: String,
    pub external_crates: Vec<ExternalCrateData>,
}

/// An import. The value is that of a glob import, and empty for any other.
#[derive(PartialEq, Eq, Debug)]
pub struct Import {
    pub ref_id: Option<CompilerId>,
    pub span: SpanData,
    pub value: String,
}

/// A definition.
#[derive(PartialEq, Eq, Debug)]
pub struct Def {
    pub kind: DefKind,
    pub id: CompilerId,
    pub span: SpanData,
    pub name: String,
    pub qualname: String,
    pub value: String,
    pub parent: Option<CompilerId>,
    pub children: Vec<CompilerId>,
    pub docs: String,
}

/// A use of a definition.
#[derive(PartialEq, Eq, Debug)]
pub struct Ref {
    pub span: SpanData,
    pub ref_id: CompilerId,
}

/// How two definitions are related.
#[derive(Copy, Clone, PartialEq, Eq, Structural, Debug)]
pub enum RelationKind {
    Impl,
    SuperTrait,
}

/// A relation between two definitions, such as the implementation of a trait
/// (`to`) for a type (`from`).
#[derive(PartialEq, Eq, Debug)]
pub struct Relation {
    pub span: SpanData,
    pub kind: RelationKind,
    pub from: CompilerId,
    pub to: CompilerId,
}

/// The analysis of one crate.
#[derive(PartialEq, Eq, Debug)]
pub struct Analysis {
    pub prelude: Option<CratePreludeData>,
    pub imports: Vec<Import>,
    pub defs: Vec<Def>,
    pub refs: Vec<Ref>,
    pub relations: Vec<Relation>,
    /// Whether the crate is one of those that the compiler is shipped with.
    pub distro_crate: bool,
}

/// The analysis of one crate, the file it was read from and the time of that
/// file, in nanoseconds since the start of 1970.
#[derive(PartialEq, Eq, Debug)]
pub struct Crate {
    pub analysis: Analysis,
    pub timestamp: u128,
    pub path: FilePath,
}

impl Crate {
    pub fn new(analysis: Analysis, timestamp: u128, path: FilePath) -> (c: Crate)
        ensures
            c == (Crate { analysis, timestamp, path }),
    {
        Crate { analysis, timestamp, path }
    }
}

} // verus!
