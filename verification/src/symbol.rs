//! Symbols: what a declaration is, where it lives and how it is qualified.

use vstd::prelude::*;
use vstd::std_specs::cmp::PartialEqSpec;

use crate::relationship::Metadata;
use crate::text::{owned, text_eq, to_lowercase, unicode_lowercase};

verus! {

/// Identifies a symbol in a graph (the 128 bits of a random UUID).
pub type SymbolId = u128;

/// The source language a symbol was found in.
#[derive(Debug, Clone, Copy, PartialEq, Eq, Structural)]
pub enum Language {
    Java,
    Cpp,
}

impl Default for Language {
    fn default() -> (res: Self)
        ensures
            res == Language::Java,
    {
        Language::Java
    }
}

/// The declared visibility of a symbol.
#[derive(Debug, Clone, Copy, PartialEq, Eq, Structural)]
pub enum Visibility {
    Public,
    Private,
    Protected,
    Package,
    Unknown,
}

impl Default for Visibility {
    fn default() -> (res: Self)
        ensures
            res == Visibility::Unknown,
    {
        Visibility::Unknown
    }
}

/// The visibility a keyword denotes, compared after lower-casing. The word
/// `package` yields `Protected`.
pub open spec fn visibility_of(value: Seq<char>) -> Visibility {
    let lower = unicode_lowercase(value);
    if lower == "public"@ {
        Visibility::Public
    } else if lower == "private"@ {
        Visibility::Private
    } else if lower == "protected"@ {
        Visibility::Protected
    } else if lower == "package"@ {
        Visibility::Protected
    } else {
        Visibility::Unknown
    }
}

/// Visibility keywords are compared without regard to case: two words with
/// the same lower-case form denote the same visibility.
pub proof fn law_visibility_ignores_case(a: Seq<char>, b: Seq<char>)
    requires
        unicode_lowercase(a) == unicode_lowercase(b),
    ensures
        visibility_of(a) == visibility_of(b),
{
}

impl<'a> From<&'a str> for Visibility {
    /// The visibility that a keyword denotes, ignoring case.
    fn from(value: &'a str) -> (res: Visibility) {
        let lower = to_lowercase(value);
        let lower = lower.as_str();
        if text_eq(lower, "public") {
            Visibility::Public
        } else if text_eq(lower, "private") {
            Visibility::Private
        } else if text_eq(lower, "protected") {
            Visibility::Protected
        } else if text_eq(lower, "package") {
            Visibility::Protected
        } else {
            Visibility::Unknown
        }
    }
}

impl<'a> vstd::std_specs::convert::FromSpecImpl<&'a str> for Visibility {
    open spec fn obeys_from_spec() -> bool {
        true
    }

    open spec fn from_spec(value: &'a str) -> Visibility {
        visibility_of(value@)
    }
}

/// A qualifier of a declaration.
#[derive(Debug)]
pub enum Modifier {
    Static,
    Final,
    Abstract,
    Volatile,
    Constant,
    Virtual,
    Override,
    Special(String),
}

/// The mathematical value of a `Modifier`.
pub enum ModifierSpec {
    Static,
    Final,
    Abstract,
    Volatile,
    Constant,
    Virtual,
    Override,
    Special(Seq<char>),
}

impl DeepView for Modifier {
    type V = ModifierSpec;

    open spec fn deep_view(&self) -> ModifierSpec {
        match self {
            Modifier::Static => ModifierSpec::Static,
            Modifier::Final => ModifierSpec::Final,
            Modifier::Abstract => ModifierSpec::Abstract,
            Modifier::Volatile => ModifierSpec::Volatile,
            Modifier::Constant => ModifierSpec::Constant,
            Modifier::Virtual => ModifierSpec::Virtual,
            Modifier::Override => ModifierSpec::Override,
            Modifier::Special(s) => ModifierSpec::Special(s@),
        }
    }
}

impl Clone for Modifier {
    fn clone(&self) -> (res: Self)
        ensures
            res.deep_view() == self.deep_view(),
    {
        match self {
            Modifier::Static => Modifier::Static,
            Modifier::Final => Modifier::Final,
            Modifier::Abstract => Modifier::Abstract,
            Modifier::Volatile => Modifier::Volatile,
            Modifier::Constant => Modifier::Constant,
            Modifier::Virtual => Modifier::Virtual,
            Modifier::Override => Modifier::Override,
            Modifier::Special(s) => Modifier::Special(s.clone()),
        }
    }
}

/// The modifier a keyword denotes; any other word is kept as `Special`.
/// (The keyword for `Override` is spelled `ovveride`.)
pub open spec fn modifier_of(value: Seq<char>) -> ModifierSpec {
    if value == "const"@ {
        ModifierSpec::Constant
    } else if value == "static"@ {
        ModifierSpec::Static
    } else if value == "abstract"@ {
        ModifierSpec::Abstract
    } else if value == "virtual"@ {
        ModifierSpec::Virtual
    } else if value == "ovveride"@ {
        ModifierSpec::Override
    } else if value == "volatile"@ {
        ModifierSpec::Volatile
    } else if value == "final"@ {
        ModifierSpec::Final
    } else {
        ModifierSpec::Special(value)
    }
}

impl Modifier {
    /// The modifier a keyword denotes.
    pub fn from(value: &str) -> (res: Modifier)
        ensures
            res.deep_view() == modifier_of(value@),
    {
        if text_eq(value, "const") {
            Modifier::Constant
        } else if text_eq(value, "static") {
            Modifier::Static
        } else if text_eq(value, "abstract") {
            Modifier::Abstract
        } else if text_eq(value, "virtual") {
            Modifier::Virtual
        } else if text_eq(value, "ovveride") {
            Modifier::Override
        } else if text_eq(value, "volatile") {
            Modifier::Volatile
        } else if text_eq(value, "final") {
            Modifier::Final
        } else {
            Modifier::Special(owned(value))
        }
    }
}

/// A generic (template) parameter and the bounds placed on it.
#[derive(Debug)]
pub struct Generic {
    pub name: String,
    pub bounds: Vec<String>,
}

/// The mathematical value of a `Generic`.
pub struct GenericSpec {
    pub name: Seq<char>,
    pub bounds: Seq<Seq<char>>,
}

impl DeepView for Generic {
    type V = GenericSpec;

    open spec fn deep_view(&self) -> GenericSpec {
        GenericSpec { name: self.name@, bounds: self.bounds.deep_view() }
    }
}

/// A parameter of a function or constructor.
#[derive(Debug)]
pub struct Parameter {
    pub type_specifier: String,
    pub modifiers: Vec<Modifier>,
    pub variadic: bool,
    pub name: String,
    pub reference: bool,
    pub pointer_depth: usize,
    pub default: Option<String>,
}

/// The mathematical value of a `Parameter`.
pub struct ParameterSpec {
    pub type_specifier: Seq<char>,
    pub modifiers: Seq<ModifierSpec>,
    pub variadic: bool,
    pub name: Seq<char>,
    pub reference: bool,
    pub pointer_depth: usize,
    pub default: Option<Seq<char>>,
}

impl DeepView for Parameter {
    type V = ParameterSpec;

    open spec fn deep_view(&self) -> ParameterSpec {
        ParameterSpec {
            type_specifier: self.type_specifier@,
            modifiers: self.modifiers.deep_view(),
            variadic: self.variadic,
            name: self.name@,
            reference: self.reference,
            pointer_depth: self.pointer_depth,
            default: self.default.deep_view(),
        }
    }
}

/// A type as written in a declaration.
#[derive(Debug)]
pub struct Type {
    pub reference: bool,
    pub pointer_depth: usize,
    pub name: String,
}

/// The mathematical value of a `Type`.
pub struct TypeSpec {
    pub reference: bool,
    pub pointer_depth: usize,
    pub name: Seq<char>,
}

impl DeepView for Type {
    type V = TypeSpec;

    open spec fn deep_view(&self) -> TypeSpec {
        TypeSpec { reference: self.reference, pointer_depth: self.pointer_depth, name: self.name@ }
    }
}

/// A function or method definition.
#[derive(Debug)]
pub struct FunctionDefinition {
    pub value: String,
    pub params: Vec<Parameter>,
    pub return_type: Type,
}

/// A constructor.
#[derive(Debug)]
pub struct Constructor {
    pub value: String,
    pub params: Vec<Parameter>,
}

/// A member variable (field) with its initial value, if any.
#[derive(Debug)]
pub struct MemberVariable {
    pub value: String,
    pub dtype: Type,
}

/// What a symbol is.
#[derive(Debug)]
pub enum SymbolKind {
    Destructor(String),
    Constructor(Constructor),
    Class,
    Struct,
    Interface,
    Trait,
    Enum,
    FunctionDefinition(FunctionDefinition),
    MemberVariable(MemberVariable),
    FunctionCall,
    Module,
    Import,
    Root,
    Unknown,
}

/// The mathematical value of a `SymbolKind`.
pub enum SymbolKindSpec {
    Destructor(Seq<char>),
    Constructor { value: Seq<char>, params: Seq<ParameterSpec> },
    Class,
    Struct,
    Interface,
    Trait,
    Enum,
    FunctionDefinition { value: Seq<char>, params: Seq<ParameterSpec>, return_type: TypeSpec },
    MemberVariable { value: Seq<char>, dtype: TypeSpec },
    FunctionCall,
    Module,
    Import,
    Root,
    Unknown,
}

impl DeepView for SymbolKind {
    type V = SymbolKindSpec;

    open spec fn deep_view(&self) -> SymbolKindSpec {
        match self {
            SymbolKind::Destructor(v) => SymbolKindSpec::Destructor(v@),
            SymbolKind::Constructor(c) => SymbolKindSpec::Constructor {
                value: c.value@,
                params: c.params.deep_view(),
            },
            SymbolKind::Class => SymbolKindSpec::Class,
            SymbolKind::Struct => SymbolKindSpec::Struct,
            SymbolKind::Interface => SymbolKindSpec::Interface,
            SymbolKind::Trait => SymbolKindSpec::Trait,
            SymbolKind::Enum => SymbolKindSpec::Enum,
            SymbolKind::FunctionDefinition(f) => SymbolKindSpec::FunctionDefinition {
                value: f.value@,
                params: f.params.deep_view(),
                return_type: f.return_type.deep_view(),
            },
            SymbolKind::MemberVariable(m) => SymbolKindSpec::MemberVariable {
                value: m.value@,
                dtype: m.dtype.deep_view(),
            },
            SymbolKind::FunctionCall => SymbolKindSpec::FunctionCall,
            SymbolKind::Module => SymbolKindSpec::Module,
            SymbolKind::Import => SymbolKindSpec::Import,
            SymbolKind::Root => SymbolKindSpec::Root,
            SymbolKind::Unknown => SymbolKindSpec::Unknown,
        }
    }
}

/// The variant of a kind, without its data: two kinds are equal exactly
/// when their variants are.
pub open spec fn kind_tag(k: SymbolKindSpec) -> int {
    match k {
        SymbolKindSpec::Destructor(..) => 0,
        SymbolKindSpec::Constructor { .. } => 1,
        SymbolKindSpec::Class => 2,
        SymbolKindSpec::Struct => 3,
        SymbolKindSpec::Interface => 4,
        SymbolKindSpec::Trait => 5,
        SymbolKindSpec::Enum => 6,
        SymbolKindSpec::FunctionDefinition { .. } => 7,
        SymbolKindSpec::MemberVariable { .. } => 8,
        SymbolKindSpec::FunctionCall => 9,
        SymbolKindSpec::Module => 10,
        SymbolKindSpec::Import => 11,
        SymbolKindSpec::Root => 12,
        SymbolKindSpec::Unknown => 13,
    }
}

impl SymbolKind {
    /// The number of the variant (see `kind_tag`).
    pub fn tag(&self) -> (res: u8)
        ensures
            res as int == kind_tag(self.deep_view()),
    {
        match self {
            SymbolKind::Destructor(..) => 0,
            SymbolKind::Constructor(..) => 1,
            SymbolKind::Class => 2,
            SymbolKind::Struct => 3,
            SymbolKind::Interface => 4,
            SymbolKind::Trait => 5,
            SymbolKind::Enum => 6,
            SymbolKind::FunctionDefinition(..) => 7,
            SymbolKind::MemberVariable(..) => 8,
            SymbolKind::FunctionCall => 9,
            SymbolKind::Module => 10,
            SymbolKind::Import => 11,
            SymbolKind::Root => 12,
            SymbolKind::Unknown => 13,
        }
    }

}

impl PartialEq for SymbolKind {
    /// Whether two kinds are the same variant, whatever their data.
    fn eq(&self, other: &SymbolKind) -> (res: bool) {
        self.tag() == other.tag()
    }
}

impl vstd::std_specs::cmp::PartialEqSpecImpl for SymbolKind {
    open spec fn obeys_eq_spec() -> bool {
        true
    }

    open spec fn eq_spec(&self, other: &SymbolKind) -> bool {
        kind_tag(self.deep_view()) == kind_tag(other.deep_view())
    }
}

impl Eq for SymbolKind {
}

/// `<u8 as Hash>::hash`: feeds a byte to a hasher. Nothing is claimed of
/// the hasher's state afterwards.
#[verifier::external_body]
fn hash_byte<H: core::hash::Hasher>(byte: u8, state: &mut H) {
    core::hash::Hash::hash(&byte, state)
}

impl core::hash::Hash for SymbolKind {
    /// Hashes the variant alone, as equality compares it alone.
    fn hash<H: core::hash::Hasher>(&self, state: &mut H) {
        hash_byte(self.tag(), state);
    }
}

/// Equality of kinds, which looks at the variant alone, is an equivalence:
/// reflexive, symmetric and transitive, and two kinds of one variant are
/// equal whatever data they carry.
pub proof fn law_kind_equality_is_an_equivalence(a: SymbolKind, b: SymbolKind, c: SymbolKind)
    ensures
        a.eq_spec(&a),
        a.eq_spec(&b) == b.eq_spec(&a),
        a.eq_spec(&b) && b.eq_spec(&c) ==> a.eq_spec(&c),
        a.eq_spec(&b) <==> kind_tag(a.deep_view()) == kind_tag(b.deep_view()),
{
}

impl Clone for Type {
    fn clone(&self) -> (res: Self)
        ensures
            res.deep_view() == self.deep_view(),
    {
        Type { reference: self.reference, pointer_depth: self.pointer_depth, name: self.name.clone() }
    }
}

/// A copy of each modifier.
pub fn clone_modifiers(v: &Vec<Modifier>) -> (res: Vec<Modifier>)
    ensures
        res.deep_view() == v.deep_view(),
{
    let mut out: Vec<Modifier> = Vec::new();
    let mut i: usize = 0;
    while i < v.len()
        invariant
            i <= v@.len(),
            out.deep_view() == v.deep_view().take(i as int),
        decreases v@.len() - i,
    {
        let m = v[i].clone();
        let ghost before = out.deep_view();
        out.push(m);
        assert(out.deep_view() =~= before.push(m.deep_view()));
        assert(v.deep_view().take(i + 1) =~= v.deep_view().take(i as int).push(v.deep_view()[i as int]));
        i = i + 1;
    }
    assert(v.deep_view().take(v@.len() as int) =~= v.deep_view());
    out
}

impl Clone for Parameter {
    fn clone(&self) -> (res: Self)
        ensures
            res.deep_view() == self.deep_view(),
    {
        Parameter {
            type_specifier: self.type_specifier.clone(),
            modifiers: clone_modifiers(&self.modifiers),
            variadic: self.variadic,
            name: self.name.clone(),
            reference: self.reference,
            pointer_depth: self.pointer_depth,
            default: match &self.default {
                Some(d) => Some(d.clone()),
                None => None,
            },
        }
    }
}

/// A copy of each parameter.
pub fn clone_parameters(v: &Vec<Parameter>) -> (res: Vec<Parameter>)
    ensures
        res.deep_view() == v.deep_view(),
{
    let mut out: Vec<Parameter> = Vec::new();
    let mut i: usize = 0;
    while i < v.len()
        invariant
            i <= v@.len(),
            out.deep_view() == v.deep_view().take(i as int),
        decreases v@.len() - i,
    {
        let p = v[i].clone();
        let ghost before = out.deep_view();
        out.push(p);
        assert(out.deep_view() =~= before.push(p.deep_view()));
        assert(v.deep_view().take(i + 1) =~= v.deep_view().take(i as int).push(v.deep_view()[i as int]));
        i = i + 1;
    }
    assert(v.deep_view().take(v@.len() as int) =~= v.deep_view());
    out
}

impl Clone for SymbolKind {
    fn clone(&self) -> (res: Self)
        ensures
            res.deep_view() == self.deep_view(),
    {
        match self {
            SymbolKind::Destructor(v) => SymbolKind::Destructor(v.clone()),
            SymbolKind::Constructor(c) => SymbolKind::Constructor(
                Constructor { value: c.value.clone(), params: clone_parameters(&c.params) },
            ),
            SymbolKind::Class => SymbolKind::Class,
            SymbolKind::Struct => SymbolKind::Struct,
            SymbolKind::Interface => SymbolKind::Interface,
            SymbolKind::Trait => SymbolKind::Trait,
            SymbolKind::Enum => SymbolKind::Enum,
            SymbolKind::FunctionDefinition(f) => SymbolKind::FunctionDefinition(
                FunctionDefinition {
                    value: f.value.clone(),
                    params: clone_parameters(&f.params),
                    return_type: f.return_type.clone(),
                },
            ),
            SymbolKind::MemberVariable(m) => SymbolKind::MemberVariable(
                MemberVariable { value: m.value.clone(), dtype: m.dtype.clone() },
            ),
            SymbolKind::FunctionCall => SymbolKind::FunctionCall,
            SymbolKind::Module => SymbolKind::Module,
            SymbolKind::Import => SymbolKind::Import,
            SymbolKind::Root => SymbolKind::Root,
            SymbolKind::Unknown => SymbolKind::Unknown,
        }
    }
}

/// A source position, as a zero-based row and byte column.
#[derive(Debug, Clone, Copy, PartialEq, Eq, Structural)]
pub struct Point {
    pub row: usize,
    pub column: usize,
}

/// Where a symbol stands in its file, one-based.
#[derive(Debug, Clone, Copy, PartialEq, Eq, Structural)]
pub struct Location {
    pub start_line: usize,
    pub start_column: usize,
    pub end_line: usize,
    pub end_column: usize,
}

impl Location {
    /// The one-based location of the span between two zero-based points.
    pub fn from(start: Point, end: Point) -> (res: Location)
        requires
            start.row < usize::MAX,
            start.column < usize::MAX,
            end.row < usize::MAX,
            end.column < usize::MAX,
        ensures
            res.start_line == start.row + 1,
            res.start_column == start.column + 1,
            res.end_line == end.row + 1,
            res.end_column == end.column + 1,
    {
        Location {
            start_line: start.row + 1,
            start_column: start.column + 1,
            end_line: end.row + 1,
            end_column: end.column + 1,
        }
    }
}

/// A declaration found in a source file.
#[derive(Debug)]
pub struct Symbol {
    pub id: SymbolId,
    pub name: String,
    pub kind: SymbolKind,
    pub file: String,
    pub location: Vec<Location>,
    pub visibility: Visibility,
    pub modifier: Vec<Modifier>,
    pub generics: Vec<Generic>,
    pub metadata: Metadata,
    pub language: Language,
}

/// The mathematical value of a `Symbol`.
pub struct SymbolSpec {
    pub id: SymbolId,
    pub name: Seq<char>,
    pub kind: SymbolKindSpec,
    pub file: Seq<char>,
    pub location: Seq<Location>,
    pub visibility: Visibility,
    pub modifier: Seq<ModifierSpec>,
    pub generics: Seq<GenericSpec>,
    pub metadata: Seq<(Seq<char>, Seq<char>)>,
    pub language: Language,
}

impl DeepView for Symbol {
    type V = SymbolSpec;

    open spec fn deep_view(&self) -> SymbolSpec {
        SymbolSpec {
            id: self.id,
            name: self.name@,
            kind: self.kind.deep_view(),
            file: self.file@,
            location: self.location@,
            visibility: self.visibility,
            modifier: self.modifier.deep_view(),
            generics: self.generics.deep_view(),
            metadata: self.metadata.deep_view(),
            language: self.language,
        }
    }
}

} // verus!
