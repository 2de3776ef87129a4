//! What a language contributes to the graph: which syntax nodes declare
//! symbols, and how a symbol's kind, name, qualifiers, generics,
//! inheritance and relationships are read from its node.

use vstd::prelude::*;

use crate::relationship::{Relationship, RelationshipKind, RelationshipSpec};
use crate::symbol::{GenericSpec, Language, ModifierSpec, SymbolKindSpec, Visibility};
use crate::syntax::SyntaxTree;
use crate::text::text_eq;

pub mod cpp;
pub mod java;

verus! {

/// The texts of a list of string slices.
pub open spec fn strs_view(s: Seq<&str>) -> Seq<Seq<char>> {
    s.map_values(|x: &str| x@)
}

/// Whether two lists of node kinds name no kind twice and share none.
pub open spec fn kinds_apart(declared: Seq<Seq<char>>, flattened: Seq<Seq<char>>) -> bool {
    &&& declared.no_duplicates()
    &&& flattened.no_duplicates()
    &&& forall|k: Seq<char>| flattened.contains(k) ==> !declared.contains(k)
}

/// Whether `k` is one of `list`.
pub fn contains_text(list: &Vec<&str>, k: &str) -> (res: bool)
    ensures
        res == strs_view(list@).contains(k@),
{
    let mut i: usize = 0;
    while i < list.len()
        invariant
            i <= list@.len(),
            forall|j: int| 0 <= j < i ==> list@[j]@ != k@,
        decreases list@.len() - i,
    {
        if text_eq(list[i], k) {
            assert(strs_view(list@)[i as int] == k@);
            return true;
        }
        i = i + 1;
    }
    assert forall|j: int| 0 <= j < strs_view(list@).len() implies strs_view(list@)[j] != k@ by {
        assert(strs_view(list@)[j] == list@[j]@);
    }
    false
}

/// The relationship that ties a declaration to the symbol it stands in.
pub open spec fn pairing(parent_id: u128, child_id: u128, kind: RelationshipKind) -> RelationshipSpec {
    RelationshipSpec {
        from: parent_id,
        to: crate::relationship::TargetSpec::Resolved(child_id),
        kind,
        metadata: Seq::empty(),
    }
}

/// A language grammar. Every method reads node `n` of a well-formed tree.
pub trait Grammer {
    /// Kinds of the nodes that declare a symbol.
    spec fn spec_declaration_nodes(&self) -> Seq<Seq<char>>;

    /// Kinds of the nodes whose children are searched for declarations.
    spec fn spec_flatten_nodes(&self) -> Seq<Seq<char>>;

    spec fn spec_symbolkind(&self, t: &SyntaxTree, n: int) -> SymbolKindSpec;

    spec fn spec_name(&self, t: &SyntaxTree, n: int) -> Seq<char>;

    spec fn spec_attributes(&self, t: &SyntaxTree, n: int) -> (Visibility, Seq<ModifierSpec>);

    spec fn spec_generics(&self, t: &SyntaxTree, n: int) -> Seq<GenericSpec>;

    /// Whether the permits clause of `n`, if any, can be read.
    spec fn permits_readable(&self, t: &SyntaxTree, n: int) -> bool;

    spec fn spec_permits(&self, t: &SyntaxTree, n: int) -> Option<Seq<Seq<char>>>;

    spec fn spec_inheritance(&self, t: &SyntaxTree, n: int) -> Option<Seq<Seq<char>>>;

    spec fn spec_language(&self) -> Language;

    /// The visibility in force after passing node `n`.
    spec fn spec_visibility_change(
        &self,
        t: &SyntaxTree,
        n: int,
        current: Option<Visibility>,
    ) -> Option<Visibility>;

    /// The metadata entries after reading node `n`.
    spec fn spec_metadata(
        &self,
        t: &SyntaxTree,
        n: int,
        entries: Seq<(Seq<char>, Seq<char>)>,
    ) -> Seq<(Seq<char>, Seq<char>)>;

    /// The kind of the relationship from the symbol that holds declaration
    /// `n` to the symbol of `n`.
    spec fn spec_pair_kind(&self, t: &SyntaxTree, n: int) -> RelationshipKind;

    fn declaration_nodes(&self) -> (res: Vec<&'static str>)
        ensures
            strs_view(res@) == self.spec_declaration_nodes(),
    ;

    fn flatten_nodes(&self) -> (res: Vec<&'static str>)
        ensures
            strs_view(res@) == self.spec_flatten_nodes(),
    ;

    fn to_symbolkind(&self, t: &SyntaxTree, n: usize) -> (res: crate::symbol::SymbolKind)
        requires
            t.wf(),
            t.valid(n as int),
        ensures
            res.deep_view() == self.spec_symbolkind(t, n as int),
    ;

    fn to_name(&self, t: &SyntaxTree, n: usize) -> (res: String)
        requires
            t.wf(),
            t.valid(n as int),
        ensures
            res@ == self.spec_name(t, n as int),
    ;

    fn extract_declaration_attributes(&self, t: &SyntaxTree, n: usize) -> (res: (
        Visibility,
        Vec<crate::symbol::Modifier>,
    ))
        requires
            t.wf(),
            t.valid(n as int),
        ensures
            (res.0, res.1.deep_view()) == self.spec_attributes(t, n as int),
    ;

    fn to_generics(&self, t: &SyntaxTree, n: usize) -> (res: Vec<crate::symbol::Generic>)
        requires
            t.wf(),
            t.valid(n as int),
        ensures
            res.deep_view() == self.spec_generics(t, n as int),
    ;

    /// Whether the permits clause of `n`, if any, can be read.
    fn permits_are_readable(&self, t: &SyntaxTree, n: usize) -> (res: bool)
        requires
            t.wf(),
            t.valid(n as int),
        ensures
            res == self.permits_readable(t, n as int),
    ;

    fn gather_all_permits(&self, t: &SyntaxTree, n: usize) -> (res: Option<Vec<String>>)
        requires
            t.wf(),
            t.valid(n as int),
            self.permits_readable(t, n as int),
        ensures
            res.deep_view() == self.spec_permits(t, n as int),
    ;

    fn gather_all_inheritance(&self, t: &SyntaxTree, n: usize) -> (res: Option<Vec<String>>)
        requires
            t.wf(),
            t.valid(n as int),
        ensures
            res.deep_view() == self.spec_inheritance(t, n as int),
    ;

    fn language(&self) -> (res: Language)
        ensures
            res == self.spec_language(),
    ;

    fn apply_visibility_change(
        &self,
        t: &SyntaxTree,
        n: usize,
        scoped_vis: &mut Option<Visibility>,
    )
        requires
            t.wf(),
            t.valid(n as int),
        ensures
            *final(scoped_vis) == self.spec_visibility_change(t, n as int, *old(scoped_vis)),
    ;

    fn extract_metadata(&self, t: &SyntaxTree, n: usize, metadata: &mut crate::relationship::Metadata)
        requires
            t.wf(),
            t.valid(n as int),
        ensures
            final(metadata).deep_view() == self.spec_metadata(
                t,
                n as int,
                old(metadata).deep_view(),
            ),
            crate::relationship::keys_distinct(old(metadata).deep_view())
                ==> crate::relationship::keys_distinct(final(metadata).deep_view()),
    ;

    fn pair_relationships(
        &self,
        t: &SyntaxTree,
        n: usize,
        parent_id: u128,
        child_id: u128,
        relationships: &mut Vec<Relationship>,
    )
        requires
            t.wf(),
            t.valid(n as int),
        ensures
            final(relationships).deep_view() == old(relationships).deep_view().push(
                pairing(parent_id, child_id, self.spec_pair_kind(t, n as int)),
            ),
    ;
}

/// Appends the relationship from `parent_id` to `child_id` of the given kind.
pub fn push_pairing(
    relationships: &mut Vec<Relationship>,
    parent_id: u128,
    child_id: u128,
    kind: RelationshipKind,
)
    ensures
        final(relationships).deep_view() == old(relationships).deep_view().push(
            pairing(parent_id, child_id, kind),
        ),
{
    let ghost before = relationships.deep_view();
    let rel = Relationship {
        from: parent_id,
        to: crate::relationship::RelationshipTarget::Resolved(child_id),
        kind,
        metadata: crate::relationship::Metadata::new(),
    };
    relationships.push(rel);
    assert(relationships.deep_view() =~= before.push(pairing(parent_id, child_id, kind)));
}

} // verus!
