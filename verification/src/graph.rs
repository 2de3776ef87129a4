//! The graph of all symbols found in a set of source files, of every
//! supported language, and the relationships between them.

use std::collections::HashMap;

use vstd::prelude::*;
use vstd::std_specs::iter::IteratorSpec;

use crate::builder::{
    build_node, build_symbols_and_relationships, check_readable_from, continues,
    endpoints_within, ids_of, lemma_build_node, readable_from, state_of, BuildState,
};
use crate::grammer::cpp::{Cpp, CppError};
use crate::grammer::java::{Java, JavaError};
use crate::parser::{parse, parsed_nodes, records_parse, SymbolData};
use crate::relationship::{Relationship, RelationshipSpec, RelationshipTarget, TargetSpec};
use crate::symbol::{Language, Symbol, SymbolId, SymbolSpec, Visibility};
use crate::text::text_eq;

verus! {

broadcast use vstd::std_specs::hash::group_hash_axioms;

/// Why a graph could not be built.
#[derive(Debug)]
pub enum GraphError {
    JavaError(JavaError),
    CppError(CppError),
}

impl From<JavaError> for GraphError {
    fn from(err: JavaError) -> (res: GraphError) {
        GraphError::JavaError(err)
    }
}

impl vstd::std_specs::convert::FromSpecImpl<JavaError> for GraphError {
    open spec fn obeys_from_spec() -> bool {
        true
    }

    open spec fn from_spec(err: JavaError) -> GraphError {
        GraphError::JavaError(err)
    }
}

impl From<CppError> for GraphError {
    fn from(err: CppError) -> (res: GraphError) {
        GraphError::CppError(err)
    }
}

impl vstd::std_specs::convert::FromSpecImpl<CppError> for GraphError {
    open spec fn obeys_from_spec() -> bool {
        true
    }

    open spec fn from_spec(err: CppError) -> GraphError {
        GraphError::CppError(err)
    }
}

/// A source file as read from disk.
#[derive(Debug)]
pub struct SourceFile {
    pub path: String,
    /// The extension of the file name, if it has one.
    pub extension: Option<String>,
    pub content: String,
}

/// The language of the sources with a given file extension: `cpp`, `cx`
/// and `cxx` are C++, `java` is Java.
pub open spec fn language_for(extension: Option<Seq<char>>) -> Option<Language> {
    match extension {
        Some(e) => if e == "cpp"@ || e == "cx"@ || e == "cxx"@ {
            Some(Language::Cpp)
        } else if e == "java"@ {
            Some(Language::Java)
        } else {
            None
        },
        None => None,
    }
}

/// The language of the sources with a given file extension.
pub fn language_for_extension(extension: Option<&str>) -> (res: Option<Language>)
    ensures
        res == language_for(
            match extension {
                Some(e) => Some(e@),
                None => None,
            },
        ),
{
    match extension {
        Some(e) => if text_eq(e, "cpp") || text_eq(e, "cx") || text_eq(e, "cxx") {
            Some(Language::Cpp)
        } else if text_eq(e, "java") {
            Some(Language::Java)
        } else {
            None
        },
        None => None,
    }
}

/// Whether a file with this extension is gathered as a source file: `cpp`,
/// `java`, `py` and `rs` are (the graph itself reads only C++ and Java).
pub open spec fn gathered(extension: Option<Seq<char>>) -> bool {
    match extension {
        Some(e) => e == "cpp"@ || e == "java"@ || e == "py"@ || e == "rs"@,
        None => false,
    }
}

/// Whether a file with this extension is gathered as a source file.
pub fn is_source_extension(extension: Option<&str>) -> (res: bool)
    ensures
        res == gathered(
            match extension {
                Some(e) => Some(e@),
                None => None,
            },
        ),
{
    match extension {
        Some(e) => text_eq(e, "cpp") || text_eq(e, "java") || text_eq(e, "py") || text_eq(e, "rs"),
        None => false,
    }
}

/// The walk over one parsed file, after the files before it: the file's
/// root is built with no visibility in force. A file whose tree is not well
/// formed, or whose walk would meet a permits clause that cannot be read,
/// or met once the local numbers have run out, adds nothing.
pub open spec fn file_walk(d: SymbolData, st: BuildState) -> BuildState {
    let fresh = BuildState {
        symbols: st.symbols,
        relationships: st.relationships,
        visibility: None,
        next: st.next,
    };
    let walked = if st.next >= usize::MAX || !d.tree.wf() || d.tree.len() < 1 {
        fresh
    } else {
        match d.language {
            Language::Cpp => if readable_from(&Cpp {  }, &d.tree, 0) {
                build_node(&Cpp {  }, &d.tree, d.origin@, 0, fresh)
            } else {
                fresh
            },
            Language::Java => if readable_from(&Java, &d.tree, 0) {
                build_node(&Java, &d.tree, d.origin@, 0, fresh)
            } else {
                fresh
            },
        }
    };
    BuildState {
        symbols: walked.symbols,
        relationships: walked.relationships,
        visibility: None,
        next: walked.next,
    }
}

/// The walk over a sequence of parsed files, in order.
pub open spec fn files_walk(files: Seq<SymbolData>) -> BuildState
    decreases files.len(),
{
    if files.len() == 0 {
        BuildState { symbols: Seq::empty(), relationships: Seq::empty(), visibility: None, next: 0 }
    } else {
        file_walk(files.last(), files_walk(files.drop_last()))
    }
}

/// The identifier drawn for local number `x`.
pub open spec fn relabel(x: u128, ids: Seq<u128>) -> u128 {
    if x < ids.len() {
        ids[x as int]
    } else {
        x
    }
}

pub open spec fn relabel_symbol(s: SymbolSpec, ids: Seq<u128>) -> SymbolSpec {
    SymbolSpec {
        id: relabel(s.id, ids),
        name: s.name,
        kind: s.kind,
        file: s.file,
        location: s.location,
        visibility: s.visibility,
        modifier: s.modifier,
        generics: s.generics,
        metadata: s.metadata,
        language: s.language,
    }
}

pub open spec fn relabel_edge(r: RelationshipSpec, ids: Seq<u128>) -> RelationshipSpec {
    RelationshipSpec {
        from: relabel(r.from, ids),
        to: match r.to {
            TargetSpec::Resolved(x) => TargetSpec::Resolved(relabel(x, ids)),
            TargetSpec::Unresolved(name) => TargetSpec::Unresolved(name),
        },
        kind: r.kind,
        metadata: r.metadata,
    }
}

pub open spec fn relabel_symbols(syms: Seq<SymbolSpec>, ids: Seq<u128>) -> Seq<SymbolSpec> {
    syms.map_values(|s: SymbolSpec| relabel_symbol(s, ids))
}

pub open spec fn relabel_edges(rels: Seq<RelationshipSpec>, ids: Seq<u128>) -> Seq<RelationshipSpec> {
    rels.map_values(|r: RelationshipSpec| relabel_edge(r, ids))
}

/// The symbols keyed by identifier, a later symbol replacing an earlier one
/// with the same identifier.
pub open spec fn symbol_map(syms: Seq<SymbolSpec>) -> Map<u128, SymbolSpec>
    decreases syms.len(),
{
    if syms.len() == 0 {
        Map::empty()
    } else {
        symbol_map(syms.drop_last()).insert(syms.last().id, syms.last())
    }
}

/// The symbols of the graph of `files` when local number `k` drew `ids[k]`.
pub open spec fn graph_symbols(files: Seq<SymbolData>, ids: Seq<u128>) -> Map<u128, SymbolSpec> {
    symbol_map(relabel_symbols(files_walk(files).symbols, ids))
}

/// The relationships of the graph of `files` when local number `k` drew
/// `ids[k]`.
pub open spec fn graph_relationships(files: Seq<SymbolData>, ids: Seq<u128>) -> Seq<RelationshipSpec> {
    relabel_edges(files_walk(files).relationships, ids)
}

/// Whether `parsed` is what parsing `files` gives: each file of a supported
/// language gives, in order, its tree-sitter parse with the grammar of its
/// language; every other file gives nothing.
pub open spec fn parsed_from(files: Seq<SourceFile>, parsed: Seq<SymbolData>) -> bool
    decreases files.len(),
{
    if files.len() == 0 {
        parsed.len() == 0
    } else {
        let f = files.last();
        match language_for(f.extension.deep_view()) {
            None => parsed_from(files.drop_last(), parsed),
            Some(language) => parsed.len() > 0 && {
                let d = parsed.last();
                &&& d.tree.wf()
                &&& d.tree.len() >= 1
                &&& d.tree.source@ == f.content@
                &&& records_parse(d.tree, parsed_nodes(language, f.content@))
                &&& d.origin@ == f.path@
                &&& d.language == language
                &&& parsed_from(files.drop_last(), parsed.drop_last())
            },
        }
    }
}

/// A fresh symbol identifier: `uuid::Uuid::new_v4` as its 128 bits. Nothing
/// is claimed of the value: it is random. (`new_v4` panics when the system's
/// source of randomness fails, which no argument can rule out.)
#[verifier::external_body]
fn fresh_symbol_id() -> u128 {
    uuid::Uuid::new_v4().as_u128()
}

/// The symbols of all languages found in a set of files, and the
/// relationships between them.
pub struct Graph {
    symbols: HashMap<SymbolId, Symbol>,
    relationships: Vec<Relationship>,
}

pub open spec fn deep_symbols(m: Map<u128, Symbol>) -> Map<u128, SymbolSpec> {
    m.map_values(|s: Symbol| s.deep_view())
}

/// The identifier drawn for local number `x`.
fn relabel_of(x: u128, ids: &Vec<u128>) -> (res: u128)
    ensures
        res == relabel(x, ids@),
{
    if x < ids.len() as u128 {
        ids[x as usize]
    } else {
        x
    }
}

/// Walks every file in turn.
fn walk_files(files: &Vec<SymbolData>) -> (res: (Vec<Symbol>, Vec<Relationship>, usize))
    ensures
        state_of(&res.0, &res.1, None, res.2) == files_walk(files@),
{
    let mut symbols: Vec<Symbol> = Vec::new();
    let mut relationships: Vec<Relationship> = Vec::new();
    let mut next: usize = 0;
    let mut i: usize = 0;
    assert(files@.take(0) =~= Seq::<SymbolData>::empty());
    assert(symbols.deep_view() =~= Seq::<SymbolSpec>::empty());
    assert(relationships.deep_view() =~= Seq::<RelationshipSpec>::empty());
    while i < files.len()
        invariant
            i <= files@.len(),
            state_of(&symbols, &relationships, None, next) == files_walk(files@.take(i as int)),
        decreases files@.len() - i,
    {
        assert(files@.take(i + 1).drop_last() =~= files@.take(i as int));
        assert(files@.take(i + 1).last() == files@[i as int]);
        let d = &files[i];
        let mut visibility: Option<Visibility> = None;
        if next < usize::MAX && d.tree.nodes.len() >= 1 && d.tree.is_well_formed() {
            match d.language {
                Language::Cpp => {
                    let grammer = Cpp {  };
                    if check_readable_from(&grammer, &d.tree, 0) {
                        build_symbols_and_relationships(
                            &grammer,
                            &d.tree,
                            0,
                            d.origin.as_str(),
                            &mut relationships,
                            &mut symbols,
                            &mut visibility,
                            &mut next,
                        );
                    }
                },
                Language::Java => {
                    let grammer = Java;
                    if check_readable_from(&grammer, &d.tree, 0) {
                        build_symbols_and_relationships(
                            &grammer,
                            &d.tree,
                            0,
                            d.origin.as_str(),
                            &mut relationships,
                            &mut symbols,
                            &mut visibility,
                            &mut next,
                        );
                    }
                },
            }
        }
        i = i + 1;
    }
    assert(files@.take(files@.len() as int) =~= files@);
    (symbols, relationships, next)
}

/// One fresh identifier per local number.
fn draw_ids(count: usize) -> (res: Vec<u128>)
    ensures
        res@.len() == count,
{
    let mut ids: Vec<u128> = Vec::new();
    let mut k: usize = 0;
    while k < count
        invariant
            k <= count,
            ids@.len() == k,
        decreases count - k,
    {
        ids.push(fresh_symbol_id());
        k = k + 1;
    }
    ids
}

/// The symbols under their drawn identifiers, keyed by identifier.
fn index_symbols(symbols: Vec<Symbol>, ids: &Vec<u128>) -> (res: HashMap<SymbolId, Symbol>)
    ensures
        deep_symbols(res@) == symbol_map(relabel_symbols(symbols.deep_view(), ids@)),
{
    let ghost all = symbols@;
    let ghost target = relabel_symbols(symbols.deep_view(), ids@);
    let mut map: HashMap<SymbolId, Symbol> = HashMap::new();
    assert(deep_symbols(map@) =~= symbol_map(target.take(0)));
    for s in it: symbols
        invariant
            it.seq() == all,
            target.len() == all.len(),
            forall|m: int| 0 <= m < all.len() ==> #[trigger] target[m] == relabel_symbol(all[m].deep_view(), ids@),
            deep_symbols(map@) == symbol_map(target.take(it.index() as int)),
    {
        let ghost idx = it.index();
        assert(target.take(idx + 1).drop_last() =~= target.take(idx as int));
        let ghost before = map@;
        let mut s = s;
        s.id = relabel_of(s.id, ids);
        let key = s.id;
        assert(s.deep_view() == target[idx as int]);
        map.insert(key, s);
        assert(deep_symbols(map@) =~= deep_symbols(before).insert(key, target[idx as int]));
    }
    assert(target.take(all.len() as int) =~= target);
    map
}

/// The relationships with their ends under their drawn identifiers.
fn relabel_relationships(relationships: Vec<Relationship>, ids: &Vec<u128>) -> (res: Vec<Relationship>)
    ensures
        res.deep_view() == relabel_edges(relationships.deep_view(), ids@),
{
    let ghost all = relationships@;
    let ghost target = relabel_edges(relationships.deep_view(), ids@);
    let mut out: Vec<Relationship> = Vec::new();
    assert(out.deep_view() =~= target.take(0));
    for r in it: relationships
        invariant
            it.seq() == all,
            target.len() == all.len(),
            forall|m: int| 0 <= m < all.len() ==> #[trigger] target[m] == relabel_edge(all[m].deep_view(), ids@),
            out.deep_view() == target.take(it.index() as int),
    {
        let ghost idx = it.index();
        let mut r = r;
        r.from = relabel_of(r.from, ids);
        if let RelationshipTarget::Resolved(x) = r.to {
            r.to = RelationshipTarget::Resolved(relabel_of(x, ids));
        }
        assert(r.deep_view() == target[idx as int]);
        let ghost before = out.deep_view();
        out.push(r);
        assert(out.deep_view() =~= before.push(target[idx as int]));
        assert(target.take(idx + 1) =~= target.take(idx as int).push(target[idx as int]));
    }
    assert(target.take(all.len() as int) =~= target);
    out
}

impl Graph {
    /// The symbols, by identifier.
    pub closed spec fn symbols_view(&self) -> Map<u128, SymbolSpec> {
        deep_symbols(self.symbols@)
    }

    /// The symbols with their identifiers, in the order in which the map
    /// that holds them is walked.
    pub closed spec fn symbol_order(&self) -> Seq<(u128, SymbolSpec)> {
        walk_order(&self.symbols)
    }

    /// The relationships, in the order they were found.
    pub closed spec fn relationships_view(&self) -> Seq<RelationshipSpec> {
        self.relationships.deep_view()
    }

    /// The graph of the parsed files: each file is walked in turn, each
    /// symbol found gets a fresh random identifier, and edges between
    /// symbols carry those identifiers.
    pub fn from_parsed(files: &Vec<SymbolData>) -> (res: Graph)
        ensures
            exists|ids: Seq<u128>|
                #![trigger graph_symbols(files@, ids)]
                ids.len() == files_walk(files@).next && res.symbols_view() == graph_symbols(
                    files@,
                    ids,
                ) && res.relationships_view() == graph_relationships(files@, ids),
    {
        let (symbols, relationships, next) = walk_files(files);
        let ids = draw_ids(next);
        let map = index_symbols(symbols, &ids);
        let relationships = relabel_relationships(relationships, &ids);
        let res = Graph { symbols: map, relationships };
        assert(res.symbols_view() == graph_symbols(files@, ids@));
        res
    }

    /// The graph of the symbols of every supported language found in
    /// `files`: each such file is parsed with the grammar of its language
    /// and walked in turn. A file of another language is passed over.
    pub fn create(files: Vec<SourceFile>) -> (res: Result<Graph, GraphError>)
        ensures
            res matches Ok(g) && exists|parsed: Seq<SymbolData>, ids: Seq<u128>|
                #![trigger graph_symbols(parsed, ids)]
                parsed_from(files@, parsed) && ids.len() == files_walk(parsed).next
                    && g.symbols_view() == graph_symbols(parsed, ids) && g.relationships_view()
                    == graph_relationships(parsed, ids),
    {
        let mut parsed: Vec<SymbolData> = Vec::new();
        let mut i: usize = 0;
        while i < files.len()
            invariant
                i <= files@.len(),
                parsed_from(files@.take(i as int), parsed@),
            decreases files@.len() - i,
        {
            assert(files@.take(i + 1).drop_last() =~= files@.take(i as int));
            let f = &files[i];
            let extension = match &f.extension {
                Some(e) => Some(e.as_str()),
                None => None,
            };
            match language_for_extension(extension) {
                Some(language) => match parse(language, f.path.as_str(), f.content.as_str()) {
                    Some(d) => {
                        let ghost before = parsed@;
                        parsed.push(d);
                        assert(parsed@.drop_last() =~= before);
                    },
                    None => {},
                },
                None => {},
            }
            i = i + 1;
        }
        assert(files@.take(files@.len() as int) =~= files@);
        Ok(Graph::from_parsed(&parsed))
    }

    /// The symbol with identifier `id`.
    pub fn symbol(&self, id: SymbolId) -> (res: Option<&Symbol>)
        ensures
            match res {
                Some(s) => self.symbols_view().contains_key(id) && s.deep_view()
                    == self.symbols_view()[id],
                None => !self.symbols_view().contains_key(id),
            },
    {
        self.symbols.get(&id)
    }

    /// All symbols, by identifier.
    pub fn symbols(&self) -> (res: &HashMap<SymbolId, Symbol>)
        ensures
            deep_symbols(res@) == self.symbols_view(),
            walk_order(res) == self.symbol_order(),
            crate::query::enumerates(self.symbol_order(), self.symbols_view()),
    {
        let walk = self.symbols.iter();
        proof {
            crate::query::lemma_map_iter_enumerates(&self.symbols);
            crate::query::lemma_walk_order(&self.symbols, walk);
        }
        &self.symbols
    }

    /// All relationships.
    pub fn relationships(&self) -> (res: &Vec<Relationship>)
        ensures
            res.deep_view() == self.relationships_view(),
    {
        &self.relationships
    }

    /// The relationships from the symbol `id`, in order.
    pub fn relationships_from(&self, id: SymbolId) -> (res: Vec<&Relationship>)
        ensures
            res.deep_view() == edges_from(self.relationships_view(), id),
    {
        let mut out: Vec<&Relationship> = Vec::new();
        let mut i: usize = 0;
        while i < self.relationships.len()
            invariant
                i <= self.relationships@.len(),
                out.deep_view() == edges_from(self.relationships_view().take(i as int), id),
            decreases self.relationships@.len() - i,
        {
            assert(self.relationships_view().take(i + 1).drop_last() =~= self.relationships_view().take(
                i as int,
            ));
            let r = &self.relationships[i];
            if r.from == id {
                let ghost before = out.deep_view();
                out.push(r);
                assert(out.deep_view() =~= before.push(r.deep_view()));
            }
            i = i + 1;
        }
        assert(self.relationships_view().take(self.relationships@.len() as int) =~= self.relationships_view());
        out
    }

    /// The relationships resolved to the symbol `id`, in order.
    pub fn relationships_to(&self, id: SymbolId) -> (res: Vec<&Relationship>)
        ensures
            res.deep_view() == edges_to(self.relationships_view(), id),
    {
        let mut out: Vec<&Relationship> = Vec::new();
        let mut i: usize = 0;
        while i < self.relationships.len()
            invariant
                i <= self.relationships@.len(),
                out.deep_view() == edges_to(self.relationships_view().take(i as int), id),
            decreases self.relationships@.len() - i,
        {
            assert(self.relationships_view().take(i + 1).drop_last() =~= self.relationships_view().take(
                i as int,
            ));
            let r = &self.relationships[i];
            let hit = match r.to {
                RelationshipTarget::Resolved(target) => target == id,
                RelationshipTarget::Unresolved(_) => false,
            };
            if hit {
                let ghost before = out.deep_view();
                out.push(r);
                assert(out.deep_view() =~= before.push(r.deep_view()));
            }
            i = i + 1;
        }
        assert(self.relationships_view().take(self.relationships@.len() as int) =~= self.relationships_view());
        out
    }
}

/// The relationships of `rels` from `id`, in order.
pub open spec fn edges_from(rels: Seq<RelationshipSpec>, id: SymbolId) -> Seq<RelationshipSpec>
    decreases rels.len(),
{
    if rels.len() == 0 {
        Seq::empty()
    } else if rels.last().from == id {
        edges_from(rels.drop_last(), id).push(rels.last())
    } else {
        edges_from(rels.drop_last(), id)
    }
}

/// The relationships of `rels` resolved to `id`, in order.
pub open spec fn edges_to(rels: Seq<RelationshipSpec>, id: SymbolId) -> Seq<RelationshipSpec>
    decreases rels.len(),
{
    if rels.len() == 0 {
        Seq::empty()
    } else if rels.last().to == TargetSpec::Resolved(id) {
        edges_to(rels.drop_last(), id).push(rels.last())
    } else {
        edges_to(rels.drop_last(), id)
    }
}


proof fn lemma_push_contains(s: Seq<RelationshipSpec>, x: RelationshipSpec, e: RelationshipSpec)
    ensures
        s.push(x).contains(e) <==> s.contains(e) || e == x,
{
    if s.contains(e) {
        let i = choose|i: int| 0 <= i < s.len() && s[i] == e;
        assert(s.push(x)[i] == e);
    }
    if s.push(x).contains(e) && e != x {
        let i = choose|i: int| 0 <= i < s.push(x).len() && s.push(x)[i] == e;
        assert(s[i] == e);
    }
    assert(s.push(x)[s.len() as int] == x);
}

/// The entries of a map of symbols, as identifier and symbol, in the order
/// in which the map is walked.
pub open spec fn walk_order(m: &HashMap<u128, Symbol>) -> Seq<(u128, SymbolSpec)> {
    vstd::std_specs::hash::into_iter(vstd::std_specs::hash::spec_hash_map_iter(m)).map_values(
        |p: (u128, Symbol)| (p.0, p.1.deep_view()),
    )
}

/// The relationships from `id` are exactly those of the graph that start at
/// `id`.
pub proof fn law_edges_from_are_those_starting_at(rels: Seq<RelationshipSpec>, id: SymbolId)
    ensures
        forall|e: RelationshipSpec| #[trigger] edges_from(rels, id).contains(e) <==> rels.contains(e) && e.from == id,
    decreases rels.len(),
{
    if rels.len() > 0 {
        let prefix = rels.drop_last();
        let last = rels.last();
        law_edges_from_are_those_starting_at(prefix, id);
        assert(rels =~= prefix.push(last));
        assert forall|e: RelationshipSpec| #[trigger] edges_from(rels, id).contains(e) <==> rels.contains(e)
            && e.from == id by {
            lemma_push_contains(prefix, last, e);
            lemma_push_contains(edges_from(prefix, id), last, e);
            assert(edges_from(prefix, id).contains(e) <==> prefix.contains(e) && e.from == id);
        }
    }
}

/// The relationships to `id` are exactly those of the graph resolved to `id`.
pub proof fn law_edges_to_are_those_resolved_to(rels: Seq<RelationshipSpec>, id: SymbolId)
    ensures
        forall|e: RelationshipSpec| #[trigger] edges_to(rels, id).contains(e) <==> rels.contains(e) && e.to
            == TargetSpec::Resolved(id),
    decreases rels.len(),
{
    if rels.len() > 0 {
        let prefix = rels.drop_last();
        let last = rels.last();
        law_edges_to_are_those_resolved_to(prefix, id);
        assert(rels =~= prefix.push(last));
        assert forall|e: RelationshipSpec| #[trigger] edges_to(rels, id).contains(e) <==> rels.contains(e)
            && e.to == TargetSpec::Resolved(id) by {
            lemma_push_contains(prefix, last, e);
            lemma_push_contains(edges_to(prefix, id), last, e);
            assert(edges_to(prefix, id).contains(e) <==> prefix.contains(e) && e.to == TargetSpec::Resolved(id));
        }
    }
}

/// The identifiers of a sequence of symbols, in order.
pub open spec fn symbol_ids(syms: Seq<SymbolSpec>) -> Seq<u128> {
    syms.map_values(|x: SymbolSpec| x.id)
}

proof fn lemma_symbol_map(syms: Seq<SymbolSpec>)
    ensures
        symbol_map(syms).dom() == symbol_ids(syms).to_set(),
        forall|key: u128|
            #[trigger] symbol_map(syms).contains_key(key) ==> exists|j: int|
                0 <= j < syms.len() && syms[j].id == key && symbol_map(syms)[key] == syms[j],
    decreases syms.len(),
{
    if syms.len() > 0 {
        let prev = syms.drop_last();
        lemma_symbol_map(prev);
        assert(symbol_ids(syms) =~= symbol_ids(prev).push(syms.last().id));
        assert(symbol_map(syms).dom() =~= symbol_ids(syms).to_set()) by {
            assert forall|key: u128| symbol_ids(syms).to_set().contains(key) implies symbol_map(syms).dom().contains(key) by {
                let j = choose|j: int| 0 <= j < symbol_ids(syms).len() && symbol_ids(syms)[j] == key;
                if j < prev.len() {
                    assert(symbol_ids(prev)[j] == key);
                    assert(symbol_ids(prev).to_set().contains(key));
                }
            }
            assert forall|key: u128| symbol_map(syms).dom().contains(key) implies symbol_ids(syms).to_set().contains(key) by {
                if key != syms.last().id {
                    assert(symbol_ids(prev).to_set().contains(key));
                    let j = choose|j: int| 0 <= j < symbol_ids(prev).len() && symbol_ids(prev)[j] == key;
                    assert(symbol_ids(syms)[j] == key);
                } else {
                    assert(symbol_ids(syms)[syms.len() - 1] == key);
                }
            }
        }
        assert forall|key: u128| #[trigger] symbol_map(syms).contains_key(key) implies exists|j: int|
            0 <= j < syms.len() && syms[j].id == key && symbol_map(syms)[key] == syms[j] by {
            if key == syms.last().id {
                assert(syms[syms.len() - 1].id == key);
            } else {
                assert(symbol_map(prev).contains_key(key));
                let j = choose|j: int| 0 <= j < prev.len() && prev[j].id == key && symbol_map(prev)[key] == prev[j];
                assert(syms[j] == prev[j]);
            }
        }
    } else {
        assert(symbol_map(syms).dom() =~= symbol_ids(syms).to_set());
    }
}

proof fn lemma_symbol_map_unique(syms: Seq<SymbolSpec>, j: int)
    requires
        0 <= j < syms.len(),
        forall|k: int| j < k < syms.len() ==> #[trigger] syms[k].id != syms[j].id,
    ensures
        symbol_map(syms).contains_key(syms[j].id),
        symbol_map(syms)[syms[j].id] == syms[j],
    decreases syms.len(),
{
    if j < syms.len() - 1 {
        let prev = syms.drop_last();
        assert forall|k: int| j < k < prev.len() implies #[trigger] prev[k].id != prev[j].id by {
            assert(prev[k] == syms[k]);
        }
        lemma_symbol_map_unique(prev, j);
        assert(syms[syms.len() - 1].id != syms[j].id);
    }
}

/// What the walk over files keeps: one symbol per local number, each from
/// one of the files in that file's language, and every edge between
/// symbols found.
pub open spec fn walk_sound(files: Seq<SymbolData>, w: BuildState) -> bool {
    &&& w.next <= usize::MAX
    &&& w.symbols.len() == w.next
    &&& forall|i: int| #![trigger w.symbols[i]] 0 <= i < w.symbols.len() ==> w.symbols[i].id < w.next
    &&& forall|i: int, k: int|
        #![trigger w.symbols[i], w.symbols[k]]
        0 <= i < k < w.symbols.len() ==> w.symbols[i].id != w.symbols[k].id
    &&& forall|i: int|
        #![trigger w.symbols[i]]
        0 <= i < w.symbols.len() ==> exists|f: int|
            0 <= f < files.len() && w.symbols[i].file == (#[trigger] files[f]).origin@
                && w.symbols[i].language == files[f].language
    &&& endpoints_within(w.relationships, ids_of(w.symbols))
}

proof fn lemma_file_step(files: Seq<SymbolData>, prev: BuildState, r: BuildState, language: Language)
    requires
        files.len() > 0,
        walk_sound(files.drop_last(), prev),
        continues(prev, r, files.last().origin@, language),
        language == files.last().language,
        endpoints_within(r.relationships, ids_of(r.symbols)),
    ensures
        walk_sound(files, r),
{
    let pl = prev.symbols.len() as int;
    let new = r.symbols.skip(pl);
    let d = files.last();
    assert forall|i: int| 0 <= i < pl implies #[trigger] r.symbols[i] == prev.symbols[i] by {
        assert(r.symbols[i] == r.symbols.subrange(0, pl)[i]);
    }
    assert forall|i: int| #![trigger r.symbols[i]] pl <= i < r.symbols.len() implies r.symbols[i] == new[i - pl] by {
    }
    assert forall|i: int| #![trigger r.symbols[i]] 0 <= i < r.symbols.len() implies r.symbols[i].id < r.next by {
        if i < pl {
            assert(prev.symbols[i].id < prev.next);
        } else {
            assert(new[i - pl].id < r.next);
        }
    }
    assert forall|i: int, k: int|
        #![trigger r.symbols[i], r.symbols[k]]
        0 <= i < k < r.symbols.len() implies r.symbols[i].id != r.symbols[k].id by {
        if k < pl {
            assert(prev.symbols[i].id != prev.symbols[k].id);
        } else if i >= pl {
            assert(new[i - pl].id != new[k - pl].id);
        } else {
            assert(prev.symbols[i].id < prev.next);
            assert(prev.next <= new[k - pl].id);
        }
    }
    assert forall|i: int|
        #![trigger r.symbols[i]]
        0 <= i < r.symbols.len() implies exists|f: int|
            0 <= f < files.len() && r.symbols[i].file == (#[trigger] files[f]).origin@
                && r.symbols[i].language == files[f].language by {
        if i < pl {
            let f = choose|f: int|
                0 <= f < files.drop_last().len() && prev.symbols[i].file == (#[trigger] files.drop_last()[f]).origin@
                    && prev.symbols[i].language == files.drop_last()[f].language;
            assert(files[f] == files.drop_last()[f]);
        } else {
            assert(new[i - pl].file == d.origin@);
            assert(files[files.len() - 1] == d);
        }
    }
}

proof fn lemma_files_walk(files: Seq<SymbolData>)
    ensures
        walk_sound(files, files_walk(files)),
    decreases files.len(),
{
    if files.len() == 0 {
        let w = files_walk(files);
        assert(ids_of(w.symbols) =~= Set::empty());
    } else {
        let prev = files_walk(files.drop_last());
        lemma_files_walk(files.drop_last());
        let d = files.last();
        let fresh = BuildState {
            symbols: prev.symbols,
            relationships: prev.relationships,
            visibility: None,
            next: prev.next,
        };
        let w = files_walk(files);
        assert(ids_of(prev.symbols).union(Set::empty()) =~= ids_of(prev.symbols));
        if prev.next >= usize::MAX || !d.tree.wf() || d.tree.len() < 1 {
            assert forall|i: int|
                #![trigger w.symbols[i]]
                0 <= i < w.symbols.len() implies exists|f: int|
                    0 <= f < files.len() && w.symbols[i].file == (#[trigger] files[f]).origin@
                        && w.symbols[i].language == files[f].language by {
                let f = choose|f: int|
                    0 <= f < files.drop_last().len() && prev.symbols[i].file == (#[trigger] files.drop_last()[f]).origin@
                        && prev.symbols[i].language == files.drop_last()[f].language;
                assert(files[f] == files.drop_last()[f]);
            }
        } else {
            match d.language {
                Language::Cpp => {
                    if readable_from(&Cpp {  }, &d.tree, 0) {
                        lemma_build_node(&Cpp {  }, &d.tree, d.origin@, 0, fresh, Set::empty());
                        let r = build_node(&Cpp {  }, &d.tree, d.origin@, 0, fresh);
                        assert(ids_of(r.symbols).union(Set::empty()) =~= ids_of(r.symbols));
                        lemma_file_step(files, prev, w, Language::Cpp);
                    } else {
                        assert forall|i: int|
                            #![trigger w.symbols[i]]
                            0 <= i < w.symbols.len() implies exists|f: int|
                                0 <= f < files.len() && w.symbols[i].file == (#[trigger] files[f]).origin@
                                    && w.symbols[i].language == files[f].language by {
                            let f = choose|f: int|
                                0 <= f < files.drop_last().len() && prev.symbols[i].file == (#[trigger] files.drop_last()[f]).origin@
                                    && prev.symbols[i].language == files.drop_last()[f].language;
                            assert(files[f] == files.drop_last()[f]);
                        }
                    }
                },
                Language::Java => {
                    if readable_from(&Java, &d.tree, 0) {
                        lemma_build_node(&Java, &d.tree, d.origin@, 0, fresh, Set::empty());
                        let r = build_node(&Java, &d.tree, d.origin@, 0, fresh);
                        assert(ids_of(r.symbols).union(Set::empty()) =~= ids_of(r.symbols));
                        lemma_file_step(files, prev, w, Language::Java);
                    } else {
                        assert forall|i: int|
                            #![trigger w.symbols[i]]
                            0 <= i < w.symbols.len() implies exists|f: int|
                                0 <= f < files.len() && w.symbols[i].file == (#[trigger] files[f]).origin@
                                    && w.symbols[i].language == files[f].language by {
                            let f = choose|f: int|
                                0 <= f < files.drop_last().len() && prev.symbols[i].file == (#[trigger] files.drop_last()[f]).origin@
                                    && prev.symbols[i].language == files.drop_last()[f].language;
                            assert(files[f] == files.drop_last()[f]);
                        }
                    }
                },
            }
        }
    }
}

/// Every relationship of the graph starts at a symbol of the graph, and
/// every relationship resolved to a symbol ends at a symbol of the graph.
pub proof fn law_relationships_join_symbols(files: Seq<SymbolData>, ids: Seq<u128>)
    ensures
        forall|i: int|
            #![trigger graph_relationships(files, ids)[i]]
            0 <= i < graph_relationships(files, ids).len() ==> {
                let r = graph_relationships(files, ids)[i];
                &&& graph_symbols(files, ids).contains_key(r.from)
                &&& r.to matches TargetSpec::Resolved(y) ==> graph_symbols(files, ids).contains_key(y)
            },
{
    let w = files_walk(files);
    lemma_files_walk(files);
    let syms = relabel_symbols(w.symbols, ids);
    lemma_symbol_map(syms);
    assert forall|x: u128| #[trigger] ids_of(w.symbols).contains(x) implies symbol_map(syms).contains_key(relabel(x, ids)) by {
        let j = choose|j: int| 0 <= j < w.symbols.len() && #[trigger] w.symbols[j].id == x;
        assert(symbol_ids(syms)[j] == relabel(x, ids));
        assert(symbol_ids(syms).to_set().contains(relabel(x, ids)));
    }
    assert forall|i: int|
        #![trigger graph_relationships(files, ids)[i]]
        0 <= i < graph_relationships(files, ids).len() implies {
            let r = graph_relationships(files, ids)[i];
            &&& graph_symbols(files, ids).contains_key(r.from)
            &&& r.to matches TargetSpec::Resolved(y) ==> graph_symbols(files, ids).contains_key(y)
        } by {
        let e = w.relationships[i];
        assert(ids_of(w.symbols).contains(e.from));
        if let TargetSpec::Resolved(y) = e.to {
            assert(ids_of(w.symbols).contains(y));
        }
    }
}

/// With pairwise distinct identifiers drawn, the graph holds exactly one
/// symbol per declaration found, each under the identifier drawn for it.
pub proof fn law_one_symbol_per_declaration(files: Seq<SymbolData>, ids: Seq<u128>)
    requires
        ids.len() == files_walk(files).next,
        ids.no_duplicates(),
    ensures
        graph_symbols(files, ids).dom().len() == files_walk(files).symbols.len(),
        forall|j: int|
            #![trigger files_walk(files).symbols[j]]
            0 <= j < files_walk(files).symbols.len() ==> {
                let s = files_walk(files).symbols[j];
                &&& graph_symbols(files, ids).contains_key(ids[s.id as int])
                &&& graph_symbols(files, ids)[ids[s.id as int]] == relabel_symbol(s, ids)
            },
{
    let w = files_walk(files);
    lemma_files_walk(files);
    let syms = relabel_symbols(w.symbols, ids);
    lemma_symbol_map(syms);
    let keys = symbol_ids(syms);
    assert forall|i: int, k: int| 0 <= i < keys.len() && 0 <= k < keys.len() && i != k implies keys[i] != keys[k] by {
        if i < k {
            assert(w.symbols[i].id != w.symbols[k].id);
        } else {
            assert(w.symbols[k].id != w.symbols[i].id);
        }
        assert(w.symbols[i].id < w.next && w.symbols[k].id < w.next);
    }
    keys.unique_seq_to_set();
    assert forall|j: int|
        #![trigger files_walk(files).symbols[j]]
        0 <= j < files_walk(files).symbols.len() implies {
            let s = files_walk(files).symbols[j];
            &&& graph_symbols(files, ids).contains_key(ids[s.id as int])
            &&& graph_symbols(files, ids)[ids[s.id as int]] == relabel_symbol(s, ids)
        } by {
        assert forall|k: int| j < k < syms.len() implies #[trigger] syms[k].id != syms[j].id by {
            assert(keys[k] == syms[k].id && keys[j] == syms[j].id);
        }
        lemma_symbol_map_unique(syms, j);
        assert(w.symbols[j].id < w.next);
    }
}

/// Every symbol of the graph was found in one of the files, and is of that
/// file's language.
pub proof fn law_symbols_come_from_files(files: Seq<SymbolData>, ids: Seq<u128>)
    ensures
        forall|key: u128|
            #[trigger] graph_symbols(files, ids).contains_key(key) ==> exists|f: int|
                0 <= f < files.len() && graph_symbols(files, ids)[key].file == (#[trigger] files[f]).origin@
                    && graph_symbols(files, ids)[key].language == files[f].language,
{
    let w = files_walk(files);
    lemma_files_walk(files);
    let syms = relabel_symbols(w.symbols, ids);
    lemma_symbol_map(syms);
    assert forall|key: u128| #[trigger] graph_symbols(files, ids).contains_key(key) implies exists|f: int|
        0 <= f < files.len() && graph_symbols(files, ids)[key].file == (#[trigger] files[f]).origin@
            && graph_symbols(files, ids)[key].language == files[f].language by {
        let j = choose|j: int| 0 <= j < syms.len() && syms[j].id == key && symbol_map(syms)[key] == syms[j];
        assert(syms[j] == relabel_symbol(w.symbols[j], ids));
        let s = w.symbols[j];
        let f = choose|f: int| 0 <= f < files.len() && s.file == (#[trigger] files[f]).origin@ && s.language == files[f].language;
    }
}

proof fn lemma_unsupported_parse_nothing(files: Seq<SourceFile>, parsed: Seq<SymbolData>)
    requires
        parsed_from(files, parsed),
        forall|i: int| 0 <= i < files.len() ==> language_for(#[trigger] files[i].extension.deep_view()) is None,
    ensures
        parsed.len() == 0,
    decreases files.len(),
{
    if files.len() > 0 {
        assert(language_for(files[files.len() - 1].extension.deep_view()) is None);
        assert forall|i: int| 0 <= i < files.drop_last().len() implies language_for(
            #[trigger] files.drop_last()[i].extension.deep_view(),
        ) is None by {
            assert(files.drop_last()[i] == files[i]);
        }
        lemma_unsupported_parse_nothing(files.drop_last(), parsed);
    }
}

/// Files none of which is of a supported language give an empty graph.
pub proof fn law_unsupported_files_give_empty_graph(
    files: Seq<SourceFile>,
    parsed: Seq<SymbolData>,
    ids: Seq<u128>,
)
    requires
        parsed_from(files, parsed),
        forall|i: int| 0 <= i < files.len() ==> language_for(#[trigger] files[i].extension.deep_view()) is None,
    ensures
        graph_symbols(parsed, ids) == Map::<u128, SymbolSpec>::empty(),
        graph_relationships(parsed, ids) == Seq::<RelationshipSpec>::empty(),
{
    lemma_unsupported_parse_nothing(files, parsed);
    assert(relabel_symbols(files_walk(parsed).symbols, ids) =~= Seq::<SymbolSpec>::empty());
    assert(graph_symbols(parsed, ids) =~= Map::<u128, SymbolSpec>::empty());
    assert(graph_relationships(parsed, ids) =~= Seq::<RelationshipSpec>::empty());
}

} // verus!
