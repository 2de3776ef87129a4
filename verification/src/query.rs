//! Queries over a graph: find symbols by name and kind, with the symbols
//! and relationships one step away from them.

use vstd::prelude::*;
use vstd::std_specs::cmp::PartialEqSpecImpl;
use vstd::std_specs::iter::IteratorSpec;

use crate::graph::{edges_from, edges_to, Graph};
use crate::relationship::{
    RelationshipKind, RelationshipSpec, RelationshipTarget, TargetSpec,
};
use crate::symbol::{kind_tag, Language, Symbol, SymbolId, SymbolKind, SymbolKindSpec, SymbolSpec};

verus! {

broadcast use vstd::std_specs::hash::group_hash_axioms;

/// A symbol in a query result.
#[derive(Debug)]
pub struct SymbolResult {
    pub id: SymbolId,
    pub name: String,
    pub kind: SymbolKind,
    pub language: Language,
}

/// The mathematical value of a `SymbolResult`.
pub struct SymbolResultSpec {
    pub id: SymbolId,
    pub name: Seq<char>,
    pub kind: SymbolKindSpec,
    pub language: Language,
}

impl DeepView for SymbolResult {
    type V = SymbolResultSpec;

    open spec fn deep_view(&self) -> SymbolResultSpec {
        SymbolResultSpec {
            id: self.id,
            name: self.name@,
            kind: self.kind.deep_view(),
            language: self.language,
        }
    }
}

/// A relationship in a query result.
#[derive(Debug)]
pub struct RelationshipResult {
    pub from: SymbolId,
    pub to: RelationshipTarget,
    pub kind: RelationshipKind,
}

/// The mathematical value of a `RelationshipResult`.
pub struct RelationshipResultSpec {
    pub from: SymbolId,
    pub to: TargetSpec,
    pub kind: RelationshipKind,
}

impl DeepView for RelationshipResult {
    type V = RelationshipResultSpec;

    open spec fn deep_view(&self) -> RelationshipResultSpec {
        RelationshipResultSpec { from: self.from, to: self.to.deep_view(), kind: self.kind }
    }
}

/// The symbols and relationships a query found.
#[derive(Debug)]
pub struct QueryResult {
    pub symbols: Vec<SymbolResult>,
    pub relationships: Vec<RelationshipResult>,
}

impl QueryResult {
    pub open spec fn found(&self) -> (Seq<SymbolResultSpec>, Seq<RelationshipResultSpec>) {
        (self.symbols.deep_view(), self.relationships.deep_view())
    }

    pub fn new(symbols: Vec<SymbolResult>, relationships: Vec<RelationshipResult>) -> (res: Self)
        ensures
            res.found() == (symbols.deep_view(), relationships.deep_view()),
    {
        Self { symbols, relationships }
    }

    /// The symbols found, in order.
    pub fn symbols(&self) -> (res: &Vec<SymbolResult>)
        ensures
            res.deep_view() == self.found().0,
    {
        &self.symbols
    }

    /// The relationships found, in order.
    pub fn relationships(&self) -> (res: &Vec<RelationshipResult>)
        ensures
            res.deep_view() == self.found().1,
    {
        &self.relationships
    }
}

/// Which way relationships are followed from a found symbol.
#[derive(Debug, Clone, Copy, PartialEq, Eq, Structural)]
pub enum Direction {
    Incoming,
    Outgoing,
    Both,
}

/// The kinds of symbol a query can ask for.
#[derive(Debug, Clone, Copy)]
pub enum SymbolKindQuery {
    Call,
    Function,
    Class,
}

/// Whether a kind is the one a query asks for.
pub open spec fn kind_matches(q: SymbolKindQuery, k: SymbolKindSpec) -> bool {
    match q {
        SymbolKindQuery::Call => k is FunctionCall,
        SymbolKindQuery::Function => k is FunctionDefinition,
        SymbolKindQuery::Class => k is Class,
    }
}

impl PartialEq<SymbolKind> for SymbolKindQuery {
    /// Whether `other` is the kind this query asks for.
    fn eq(&self, other: &SymbolKind) -> (res: bool) {
        match self {
            SymbolKindQuery::Call => matches!(other, SymbolKind::FunctionCall),
            SymbolKindQuery::Function => matches!(other, SymbolKind::FunctionDefinition(_)),
            SymbolKindQuery::Class => matches!(other, SymbolKind::Class),
        }
    }
}

impl PartialEqSpecImpl<SymbolKind> for SymbolKindQuery {
    open spec fn obeys_eq_spec() -> bool {
        true
    }

    open spec fn eq_spec(&self, other: &SymbolKind) -> bool {
        kind_matches(*self, other.deep_view())
    }
}

/// Relationships to follow from each found symbol.
#[derive(Debug, Clone, Copy)]
pub struct RelationshipQuery {
    pub direction: Direction,
    /// Only relationships of this kind, when given.
    pub kind: Option<RelationshipKind>,
    pub depth: usize,
}

/// Symbols to find: by exact name and by kind, when given.
#[derive(Debug)]
pub struct FindQuery {
    pub name: Option<String>,
    pub kind: Option<SymbolKindQuery>,
    pub relationship: Option<RelationshipQuery>,
}

#[derive(Debug)]
pub enum Query {
    Find(FindQuery),
}

pub open spec fn symbol_result(id: SymbolId, s: SymbolSpec) -> SymbolResultSpec {
    SymbolResultSpec { id, name: s.name, kind: s.kind, language: s.language }
}

pub open spec fn edge_result(r: RelationshipSpec) -> RelationshipResultSpec {
    RelationshipResultSpec { from: r.from, to: r.to, kind: r.kind }
}

/// Whether a relationship of kind `k` passes the filter.
pub open spec fn passes(filter: Option<RelationshipKind>, k: RelationshipKind) -> bool {
    match filter {
        Some(wanted) => k == wanted,
        None => true,
    }
}

/// Following `edges` outwards: each passing edge, and the symbol it leads
/// to when that symbol is in the graph.
pub open spec fn outgoing(
    syms: Map<u128, SymbolSpec>,
    edges: Seq<RelationshipSpec>,
    filter: Option<RelationshipKind>,
) -> (Seq<SymbolResultSpec>, Seq<RelationshipResultSpec>)
    decreases edges.len(),
{
    if edges.len() == 0 {
        (Seq::empty(), Seq::empty())
    } else {
        let (ss, rs) = outgoing(syms, edges.drop_last(), filter);
        let r = edges.last();
        if !passes(filter, r.kind) {
            (ss, rs)
        } else {
            let found = match r.to {
                TargetSpec::Resolved(u) => if syms.contains_key(u) {
                    ss.push(symbol_result(u, syms[u]))
                } else {
                    ss
                },
                TargetSpec::Unresolved(_) => ss,
            };
            (found, rs.push(edge_result(r)))
        }
    }
}

/// Following `edges` inwards: each passing edge, and the symbol it comes
/// from when that symbol is in the graph.
pub open spec fn incoming(
    syms: Map<u128, SymbolSpec>,
    edges: Seq<RelationshipSpec>,
    filter: Option<RelationshipKind>,
) -> (Seq<SymbolResultSpec>, Seq<RelationshipResultSpec>)
    decreases edges.len(),
{
    if edges.len() == 0 {
        (Seq::empty(), Seq::empty())
    } else {
        let (ss, rs) = incoming(syms, edges.drop_last(), filter);
        let r = edges.last();
        if !passes(filter, r.kind) {
            (ss, rs)
        } else {
            let found = if syms.contains_key(r.from) {
                ss.push(symbol_result(syms[r.from].id, syms[r.from]))
            } else {
                ss
            };
            (found, rs.push(edge_result(r)))
        }
    }
}

/// What following the relationships of symbol `id` yields: the outgoing
/// edges, the incoming ones, or both, the outgoing first.
pub open spec fn related(
    syms: Map<u128, SymbolSpec>,
    rels: Seq<RelationshipSpec>,
    id: SymbolId,
    q: RelationshipQuery,
) -> (Seq<SymbolResultSpec>, Seq<RelationshipResultSpec>) {
    match q.direction {
        Direction::Outgoing => outgoing(syms, edges_from(rels, id), q.kind),
        Direction::Incoming => incoming(syms, edges_to(rels, id), q.kind),
        Direction::Both => {
            let (os, oe) = outgoing(syms, edges_from(rels, id), q.kind);
            let (is, ie) = incoming(syms, edges_to(rels, id), q.kind);
            (os + is, oe + ie)
        },
    }
}

/// Following both ways yields what following the outgoing edges yields,
/// then what following the incoming edges yields, for the same symbol and
/// kind filter.
pub proof fn law_both_ways_is_outgoing_then_incoming(
    syms: Map<u128, SymbolSpec>,
    rels: Seq<RelationshipSpec>,
    id: SymbolId,
    q: RelationshipQuery,
)
    requires
        q.direction == Direction::Both,
    ensures
        ({
            let out = related(syms, rels, id, RelationshipQuery { direction: Direction::Outgoing, ..q });
            let inc = related(syms, rels, id, RelationshipQuery { direction: Direction::Incoming, ..q });
            related(syms, rels, id, q) == (out.0 + inc.0, out.1 + inc.1)
        }),
{
}

/// Whether a symbol is one the query asks for.
pub open spec fn selected(q: FindQuery, s: SymbolSpec) -> bool {
    &&& (q.name matches Some(name) ==> s.name == name@)
    &&& (q.kind matches Some(k) ==> kind_matches(k, s.kind))
}

/// What a find query yields when the symbols are visited in `order`: each
/// selected symbol, followed by what its relationships yield.
pub open spec fn find_over(
    syms: Map<u128, SymbolSpec>,
    rels: Seq<RelationshipSpec>,
    order: Seq<(u128, SymbolSpec)>,
    q: FindQuery,
) -> (Seq<SymbolResultSpec>, Seq<RelationshipResultSpec>)
    decreases order.len(),
{
    if order.len() == 0 {
        (Seq::empty(), Seq::empty())
    } else {
        let (ss, rs) = find_over(syms, rels, order.drop_last(), q);
        let (id, s) = order.last();
        if !selected(q, s) {
            (ss, rs)
        } else {
            let with_symbol = ss.push(symbol_result(id, s));
            match q.relationship {
                Some(rq) => {
                    let (more_symbols, more_edges) = related(syms, rels, id, rq);
                    (with_symbol + more_symbols, rs + more_edges)
                },
                None => (with_symbol, rs),
            }
        }
    }
}

/// Whether `order` lists every symbol of `syms` exactly once.
pub open spec fn enumerates(order: Seq<(u128, SymbolSpec)>, syms: Map<u128, SymbolSpec>) -> bool {
    &&& order.len() == syms.dom().len()
    &&& forall|i: int|
        0 <= i < order.len() ==> syms.contains_key(#[trigger] order[i].0) && syms[order[i].0]
            == order[i].1
    &&& forall|k: u128| #[trigger] syms.contains_key(k) ==> exists|i: int| 0 <= i < order.len() && order[i].0 == k
}

/// The symbols of the graph that a find query asks for, as results.
pub open spec fn wanted(syms: Map<u128, SymbolSpec>, q: FindQuery) -> Set<SymbolResultSpec> {
    Set::new(
        |r: SymbolResultSpec|
            exists|k: u128| #[trigger]
                syms.contains_key(k) && selected(q, syms[k]) && r == symbol_result(k, syms[k]),
    )
}

proof fn lemma_find_over_plain(
    syms: Map<u128, SymbolSpec>,
    rels: Seq<RelationshipSpec>,
    order: Seq<(u128, SymbolSpec)>,
    q: FindQuery,
)
    requires
        q.relationship is None,
    ensures
        find_over(syms, rels, order, q).1 == Seq::<RelationshipResultSpec>::empty(),
        forall|i: int|
            0 <= i < find_over(syms, rels, order, q).0.len() ==> exists|j: int|
                0 <= j < order.len() && selected(q, order[j].1) && #[trigger] find_over(
                    syms,
                    rels,
                    order,
                    q,
                ).0[i] == symbol_result(order[j].0, order[j].1),
        forall|j: int|
            0 <= j < order.len() && selected(q, #[trigger] order[j].1) ==> find_over(
                syms,
                rels,
                order,
                q,
            ).0.contains(symbol_result(order[j].0, order[j].1)),
    decreases order.len(),
{
    if order.len() > 0 {
        let prefix = order.drop_last();
        lemma_find_over_plain(syms, rels, prefix, q);
        let (ss, rs) = find_over(syms, rels, prefix, q);
        let f = find_over(syms, rels, order, q).0;
        let (id, sym) = order.last();
        assert forall|i: int| 0 <= i < f.len() implies exists|j: int|
            0 <= j < order.len() && selected(q, order[j].1) && #[trigger] f[i] == symbol_result(
                order[j].0,
                order[j].1,
            ) by {
            if i < ss.len() {
                let j = choose|j: int|
                    0 <= j < prefix.len() && selected(q, prefix[j].1) && #[trigger] ss[i]
                        == symbol_result(prefix[j].0, prefix[j].1);
                assert(order[j] == prefix[j]);
            } else {
                assert(order[order.len() - 1] == (id, sym));
            }
        }
        assert forall|j: int| 0 <= j < order.len() && selected(q, #[trigger] order[j].1) implies f.contains(
            symbol_result(order[j].0, order[j].1),
        ) by {
            if j < prefix.len() {
                assert(prefix[j] == order[j]);
                assert(ss.contains(symbol_result(prefix[j].0, prefix[j].1)));
                let i = choose|i: int| 0 <= i < ss.len() && ss[i] == symbol_result(prefix[j].0, prefix[j].1);
                assert(f[i] == ss[i]);
            } else {
                assert(f[f.len() - 1] == symbol_result(id, sym));
            }
        }
    }
}

/// A find query that follows no relationships yields no relationships, and
/// its symbols are exactly the symbols of the graph whose name and kind it
/// asks for, whatever order the graph is visited in.
pub proof fn law_find_yields_the_selected_symbols(
    syms: Map<u128, SymbolSpec>,
    rels: Seq<RelationshipSpec>,
    order: Seq<(u128, SymbolSpec)>,
    q: FindQuery,
)
    requires
        enumerates(order, syms),
        q.relationship is None,
    ensures
        find_over(syms, rels, order, q).1 == Seq::<RelationshipResultSpec>::empty(),
        find_over(syms, rels, order, q).0.to_set() == wanted(syms, q),
{
    lemma_find_over_plain(syms, rels, order, q);
    let f = find_over(syms, rels, order, q).0;
    assert forall|r: SymbolResultSpec| f.to_set().contains(r) <==> wanted(syms, q).contains(r) by {
        if f.to_set().contains(r) {
            let i = choose|i: int| 0 <= i < f.len() && f[i] == r;
            let j = choose|j: int|
                0 <= j < order.len() && selected(q, order[j].1) && #[trigger] f[i] == symbol_result(
                    order[j].0,
                    order[j].1,
                );
            assert(syms.contains_key(order[j].0));
            assert(syms.contains_key(order[j].0) && selected(q, syms[order[j].0]) && r == symbol_result(
                order[j].0,
                syms[order[j].0],
            ));
        }
        if wanted(syms, q).contains(r) {
            let k = choose|k: u128| #[trigger]
                syms.contains_key(k) && selected(q, syms[k]) && r == symbol_result(k, syms[k]);
            let j = choose|j: int| 0 <= j < order.len() && order[j].0 == k;
            assert(syms.contains_key(order[j].0));
            assert(order[j].1 == syms[k]);
            assert(f.contains(symbol_result(order[j].0, order[j].1)));
        }
    }
    assert(f.to_set() =~= wanted(syms, q));
}

proof fn lemma_outgoing_edges(syms: Map<u128, SymbolSpec>, edges: Seq<RelationshipSpec>, filter: Option<RelationshipKind>)
    ensures
        forall|i: int| 0 <= i < outgoing(syms, edges, filter).1.len() ==> exists|j: int|
            0 <= j < edges.len() && passes(filter, edges[j].kind) && #[trigger] outgoing(syms, edges, filter).1[i]
                == edge_result(edges[j]),
    decreases edges.len(),
{
    if edges.len() > 0 {
        let prefix = edges.drop_last();
        lemma_outgoing_edges(syms, prefix, filter);
        let rs = outgoing(syms, prefix, filter).1;
        let f = outgoing(syms, edges, filter).1;
        assert forall|i: int| 0 <= i < f.len() implies exists|j: int|
            0 <= j < edges.len() && passes(filter, edges[j].kind) && #[trigger] f[i] == edge_result(edges[j]) by {
            if i < rs.len() {
                let j = choose|j: int|
                    0 <= j < prefix.len() && passes(filter, prefix[j].kind) && #[trigger] rs[i]
                        == edge_result(prefix[j]);
                assert(edges[j] == prefix[j]);
            } else {
                assert(edges[edges.len() - 1] == edges.last());
            }
        }
    }
}

proof fn lemma_incoming_edges(syms: Map<u128, SymbolSpec>, edges: Seq<RelationshipSpec>, filter: Option<RelationshipKind>)
    ensures
        forall|i: int| 0 <= i < incoming(syms, edges, filter).1.len() ==> exists|j: int|
            0 <= j < edges.len() && passes(filter, edges[j].kind) && #[trigger] incoming(syms, edges, filter).1[i]
                == edge_result(edges[j]),
    decreases edges.len(),
{
    if edges.len() > 0 {
        let prefix = edges.drop_last();
        lemma_incoming_edges(syms, prefix, filter);
        let rs = incoming(syms, prefix, filter).1;
        let f = incoming(syms, edges, filter).1;
        assert forall|i: int| 0 <= i < f.len() implies exists|j: int|
            0 <= j < edges.len() && passes(filter, edges[j].kind) && #[trigger] f[i] == edge_result(edges[j]) by {
            if i < rs.len() {
                let j = choose|j: int|
                    0 <= j < prefix.len() && passes(filter, prefix[j].kind) && #[trigger] rs[i]
                        == edge_result(prefix[j]);
                assert(edges[j] == prefix[j]);
            } else {
                assert(edges[edges.len() - 1] == edges.last());
            }
        }
    }
}

/// Each relationship found by following symbol `id` has the kind asked for,
/// and starts at `id` when following outgoing edges, or is resolved to `id`
/// when following incoming ones; following both ways yields one or the other.
pub proof fn law_followed_edges_touch_the_symbol(
    syms: Map<u128, SymbolSpec>,
    rels: Seq<RelationshipSpec>,
    id: SymbolId,
    q: RelationshipQuery,
)
    ensures
        forall|i: int|
            0 <= i < related(syms, rels, id, q).1.len() ==> {
                let e = #[trigger] related(syms, rels, id, q).1[i];
                &&& passes(q.kind, e.kind)
                &&& q.direction == Direction::Outgoing ==> e.from == id
                &&& q.direction == Direction::Incoming ==> e.to == TargetSpec::Resolved(id)
                &&& q.direction == Direction::Both ==> e.from == id || e.to == TargetSpec::Resolved(id)
            },
{
    crate::graph::law_edges_from_are_those_starting_at(rels, id);
    crate::graph::law_edges_to_are_those_resolved_to(rels, id);
    let out_edges = edges_from(rels, id);
    let in_edges = edges_to(rels, id);
    lemma_outgoing_edges(syms, out_edges, q.kind);
    lemma_incoming_edges(syms, in_edges, q.kind);
    let oe = outgoing(syms, out_edges, q.kind).1;
    let ie = incoming(syms, in_edges, q.kind).1;
    assert forall|i: int| 0 <= i < oe.len() implies (#[trigger] oe[i]).from == id && passes(q.kind, oe[i].kind) by {
        let j = choose|j: int|
            0 <= j < out_edges.len() && passes(q.kind, out_edges[j].kind) && #[trigger] outgoing(
                syms,
                out_edges,
                q.kind,
            ).1[i] == edge_result(out_edges[j]);
        assert(out_edges.contains(out_edges[j]));
    }
    assert forall|i: int| 0 <= i < ie.len() implies (#[trigger] ie[i]).to == TargetSpec::Resolved(id) && passes(
        q.kind,
        ie[i].kind,
    ) by {
        let j = choose|j: int|
            0 <= j < in_edges.len() && passes(q.kind, in_edges[j].kind) && #[trigger] incoming(
                syms,
                in_edges,
                q.kind,
            ).1[i] == edge_result(in_edges[j]);
        assert(in_edges.contains(in_edges[j]));
    }
    let f = related(syms, rels, id, q).1;
    assert forall|i: int| 0 <= i < f.len() implies {
        let e = #[trigger] f[i];
        &&& passes(q.kind, e.kind)
        &&& q.direction == Direction::Outgoing ==> e.from == id
        &&& q.direction == Direction::Incoming ==> e.to == TargetSpec::Resolved(id)
        &&& q.direction == Direction::Both ==> e.from == id || e.to == TargetSpec::Resolved(id)
    } by {
        match q.direction {
            Direction::Outgoing => {
                assert(f[i] == oe[i]);
            },
            Direction::Incoming => {
                assert(f[i] == ie[i]);
            },
            Direction::Both => {
                if i < oe.len() {
                    assert(f[i] == oe[i]);
                } else {
                    assert(f[i] == ie[i - oe.len()]);
                }
            },
        }
    }
}

/// What a find query yields on graph `g`: its symbols are visited in the
/// order in which the graph's map of symbols is walked.
pub open spec fn find_result(g: &Graph, q: FindQuery) -> (Seq<SymbolResultSpec>, Seq<RelationshipResultSpec>) {
    find_over(g.symbols_view(), g.relationships_view(), g.symbol_order(), q)
}

pub open spec fn entries_view(v: Seq<(&u128, &Symbol)>) -> Seq<(u128, SymbolSpec)> {
    v.map_values(|p: (&u128, &Symbol)| (*p.0, p.1.deep_view()))
}

proof fn lemma_entries_enumerate(map: &std::collections::HashMap<u128, Symbol>, v: Seq<(&u128, &Symbol)>)
    requires
        v.len() == map@.dom().len(),
        forall|i: int|
            0 <= i < v.len() ==> map@.contains_key(*v[i].0) && map@[*v[i].0] == *v[i].1,
        forall|k: u128| #[trigger] map@.contains_key(k) ==> v.contains((&k, &map@[k])),
    ensures
        enumerates(entries_view(v), crate::graph::deep_symbols(map@)),
{
    let order = entries_view(v);
    let syms = crate::graph::deep_symbols(map@);
    assert(syms.dom() =~= map@.dom());
    assert forall|i: int| 0 <= i < order.len() implies syms.contains_key(#[trigger] order[i].0)
        && syms[order[i].0] == order[i].1 by {
        assert(map@.contains_key(*v[i].0));
    }
    assert forall|k: u128| #[trigger] syms.contains_key(k) implies exists|i: int|
        0 <= i < order.len() && order[i].0 == k by {
        assert(map@.contains_key(k));
        assert(v.contains((&k, &map@[k])));
        let i = choose|i: int| 0 <= i < v.len() && v[i] == (&k, &map@[k]);
        assert(order[i].0 == k);
    }
}

pub(crate) proof fn lemma_walk_order<'a>(
    map: &'a std::collections::HashMap<u128, Symbol>,
    walk: std::collections::hash_map::Iter<'a, u128, Symbol>,
)
    requires
        walk == vstd::std_specs::hash::spec_hash_map_iter(map),
        vstd::std_specs::hash::into_iter(walk) == walk.remaining().unref(),
    ensures
        entries_view(vstd::std_specs::hash::spec_hash_map_iter(map).remaining()) == crate::graph::walk_order(map),
{
    let v = walk.remaining();
    assert(entries_view(v) =~= crate::graph::walk_order(map));
}

pub(crate) proof fn lemma_map_iter_enumerates(map: &std::collections::HashMap<u128, Symbol>)
    ensures
        enumerates(
            entries_view(vstd::std_specs::hash::spec_hash_map_iter(map).remaining()),
            crate::graph::deep_symbols(map@),
        ),
        vstd::std_specs::hash::spec_hash_map_iter(map).remaining().len() == 0 ==> enumerates(
            Seq::empty(),
            crate::graph::deep_symbols(map@),
        ),
{
    let v = vstd::std_specs::hash::spec_hash_map_iter(map).remaining();
    lemma_entries_enumerate(map, v);
    if v.len() == 0 {
        assert(entries_view(v) =~= Seq::<(u128, SymbolSpec)>::empty());
    }
}

fn symbol_result_of(id: SymbolId, symbol: &Symbol) -> (res: SymbolResult)
    ensures
        res.deep_view() == symbol_result(id, symbol.deep_view()),
{
    SymbolResult {
        id,
        name: symbol.name.clone(),
        kind: symbol.kind.clone(),
        language: symbol.language,
    }
}

/// Runs queries over a graph.
pub struct QueryEngine<'a> {
    graph: &'a Graph,
}

impl<'a> QueryEngine<'a> {
    pub closed spec fn graph(&self) -> &'a Graph {
        self.graph
    }

    pub fn new(graph: &'a Graph) -> (res: Self)
        ensures
            res.graph() == graph,
    {
        Self { graph }
    }

    /// Runs `query`.
    pub fn execute(&self, query: Query) -> (res: QueryResult)
        ensures
            match query {
                Query::Find(q) => res.found() == find_result(self.graph(), q),
            },
            enumerates(self.graph().symbol_order(), self.graph().symbols_view()),
    {
        // `symbols` states that the walk order lists every symbol once.
        let _ = self.graph.symbols();
        match query {
            Query::Find(query) => self.execute_find(query),
        }
    }

    /// Appends what following the edges from symbol `id` yields.
    fn collect_outgoing(
        &self,
        id: SymbolId,
        query: &RelationshipQuery,
        symbols: &mut Vec<SymbolResult>,
        relationships: &mut Vec<RelationshipResult>,
    )
        ensures
            ({
                let (more_symbols, more_edges) = outgoing(
                    self.graph().symbols_view(),
                    edges_from(self.graph().relationships_view(), id),
                    query.kind,
                );
                &&& final(symbols).deep_view() == old(symbols).deep_view() + more_symbols
                &&& final(relationships).deep_view() == old(relationships).deep_view() + more_edges
            }),
    {
        let ghost syms = self.graph.symbols_view();
        let ghost start_symbols = symbols.deep_view();
        let ghost start_edges = relationships.deep_view();
        let edges = self.graph.relationships_from(id);
        let mut i: usize = 0;
        assert(edges.deep_view().take(0) =~= Seq::<RelationshipSpec>::empty());
        assert(start_symbols + Seq::<SymbolResultSpec>::empty() =~= start_symbols);
        assert(start_edges + Seq::<RelationshipResultSpec>::empty() =~= start_edges);
        while i < edges.len()
            invariant
                syms == self.graph().symbols_view(),
                start_symbols == old(symbols).deep_view(),
                start_edges == old(relationships).deep_view(),
                i <= edges@.len(),
                ({
                    let (ss, rs) = outgoing(syms, edges.deep_view().take(i as int), query.kind);
                    &&& symbols.deep_view() == start_symbols + ss
                    &&& relationships.deep_view() == start_edges + rs
                }),
            decreases edges@.len() - i,
        {
            let relationship = edges[i];
            assert(edges.deep_view().take(i + 1).drop_last() =~= edges.deep_view().take(i as int));
            assert(edges.deep_view().take(i + 1).last() == relationship.deep_view());
            let keep = match &query.kind {
                Some(kind) => relationship.kind == *kind,
                None => true,
            };
            if keep {
                let ghost before_edges = relationships.deep_view();
                let result = RelationshipResult {
                    from: relationship.from,
                    to: relationship.to.clone(),
                    kind: relationship.kind,
                };
                relationships.push(result);
                assert(relationships.deep_view() =~= before_edges.push(result.deep_view()));
                let ghost before_symbols = symbols.deep_view();
                match relationship.to {
                    RelationshipTarget::Resolved(target) => {
                        if let Some(symbol) = self.graph.symbol(target) {
                            let found = symbol_result_of(target, symbol);
                            symbols.push(found);
                            assert(symbols.deep_view() =~= before_symbols.push(found.deep_view()));
                        }
                    },
                    RelationshipTarget::Unresolved(_) => {},
                }
            }
            proof {
                let (ss0, rs0) = outgoing(syms, edges.deep_view().take(i as int), query.kind);
                let (ss1, rs1) = outgoing(syms, edges.deep_view().take(i + 1), query.kind);
                if keep {
                    assert(rs1 == rs0.push(edge_result(relationship.deep_view())));
                    assert(start_edges + rs1 =~= (start_edges + rs0).push(
                        edge_result(relationship.deep_view()),
                    ));
                    if ss1 != ss0 {
                        assert(start_symbols + ss1 =~= (start_symbols + ss0).push(ss1.last()));
                    }
                }
            }
            i = i + 1;
        }
        assert(edges.deep_view().take(edges@.len() as int) =~= edges.deep_view());
    }

    /// Appends what following the edges to symbol `id` yields.
    fn collect_incoming(
        &self,
        id: SymbolId,
        query: &RelationshipQuery,
        symbols: &mut Vec<SymbolResult>,
        relationships: &mut Vec<RelationshipResult>,
    )
        ensures
            ({
                let (more_symbols, more_edges) = incoming(
                    self.graph().symbols_view(),
                    edges_to(self.graph().relationships_view(), id),
                    query.kind,
                );
                &&& final(symbols).deep_view() == old(symbols).deep_view() + more_symbols
                &&& final(relationships).deep_view() == old(relationships).deep_view() + more_edges
            }),
    {
        let ghost syms = self.graph.symbols_view();
        let ghost start_symbols = symbols.deep_view();
        let ghost start_edges = relationships.deep_view();
        let edges = self.graph.relationships_to(id);
        let mut i: usize = 0;
        assert(edges.deep_view().take(0) =~= Seq::<RelationshipSpec>::empty());
        assert(start_symbols + Seq::<SymbolResultSpec>::empty() =~= start_symbols);
        assert(start_edges + Seq::<RelationshipResultSpec>::empty() =~= start_edges);
        while i < edges.len()
            invariant
                syms == self.graph().symbols_view(),
                start_symbols == old(symbols).deep_view(),
                start_edges == old(relationships).deep_view(),
                i <= edges@.len(),
                ({
                    let (ss, rs) = incoming(syms, edges.deep_view().take(i as int), query.kind);
                    &&& symbols.deep_view() == start_symbols + ss
                    &&& relationships.deep_view() == start_edges + rs
                }),
            decreases edges@.len() - i,
        {
            let relationship = edges[i];
            assert(edges.deep_view().take(i + 1).drop_last() =~= edges.deep_view().take(i as int));
            assert(edges.deep_view().take(i + 1).last() == relationship.deep_view());
            let keep = match &query.kind {
                Some(kind) => relationship.kind == *kind,
                None => true,
            };
            if keep {
                let ghost before_edges = relationships.deep_view();
                let result = RelationshipResult {
                    from: relationship.from,
                    to: relationship.to.clone(),
                    kind: relationship.kind,
                };
                relationships.push(result);
                assert(relationships.deep_view() =~= before_edges.push(result.deep_view()));
                let ghost before_symbols = symbols.deep_view();
                if let Some(symbol) = self.graph.symbol(relationship.from) {
                    let found = symbol_result_of(symbol.id, symbol);
                    symbols.push(found);
                    assert(symbols.deep_view() =~= before_symbols.push(found.deep_view()));
                }
            }
            proof {
                let (ss0, rs0) = incoming(syms, edges.deep_view().take(i as int), query.kind);
                let (ss1, rs1) = incoming(syms, edges.deep_view().take(i + 1), query.kind);
                if keep {
                    assert(rs1 == rs0.push(edge_result(relationship.deep_view())));
                    assert(start_edges + rs1 =~= (start_edges + rs0).push(
                        edge_result(relationship.deep_view()),
                    ));
                    if ss1 != ss0 {
                        assert(start_symbols + ss1 =~= (start_symbols + ss0).push(ss1.last()));
                    }
                }
            }
            i = i + 1;
        }
        assert(edges.deep_view().take(edges@.len() as int) =~= edges.deep_view());
    }

    /// Appends what following the relationships of symbol `id` yields: the
    /// outgoing edges, the incoming ones, or the outgoing then the incoming.
    pub fn collect_relationships(
        &self,
        id: SymbolId,
        query: &RelationshipQuery,
        symbols: &mut Vec<SymbolResult>,
        relationships: &mut Vec<RelationshipResult>,
    )
        ensures
            ({
                let (more_symbols, more_edges) = related(
                    self.graph().symbols_view(),
                    self.graph().relationships_view(),
                    id,
                    *query,
                );
                &&& final(symbols).deep_view() == old(symbols).deep_view() + more_symbols
                &&& final(relationships).deep_view() == old(relationships).deep_view() + more_edges
            }),
    {
        let ghost start_symbols = symbols.deep_view();
        let ghost start_edges = relationships.deep_view();
        match query.direction {
            Direction::Outgoing => self.collect_outgoing(id, query, symbols, relationships),
            Direction::Incoming => self.collect_incoming(id, query, symbols, relationships),
            Direction::Both => {
                self.collect_outgoing(id, query, symbols, relationships);
                let ghost mid_symbols = symbols.deep_view();
                let ghost mid_edges = relationships.deep_view();
                self.collect_incoming(id, query, symbols, relationships);
                let ghost (os, oe) = outgoing(
                    self.graph().symbols_view(),
                    edges_from(self.graph().relationships_view(), id),
                    query.kind,
                );
                let ghost (is, ie) = incoming(
                    self.graph().symbols_view(),
                    edges_to(self.graph().relationships_view(), id),
                    query.kind,
                );
                assert(start_symbols + os + is =~= start_symbols + (os + is));
                assert(start_edges + oe + ie =~= start_edges + (oe + ie));
            },
        }
    }

    /// Finds the symbols `query` asks for, each followed by what its
    /// relationships yield. The symbols are visited in the order of the
    /// graph's map, which is not fixed.
    pub fn execute_find(&self, query: FindQuery) -> (res: QueryResult)
        ensures
            res.found() == find_result(self.graph(), query),
    {
        let mut symbols: Vec<SymbolResult> = Vec::new();
        let mut relationships: Vec<RelationshipResult> = Vec::new();
        let map = self.graph.symbols();
        let ghost syms = self.graph.symbols_view();
        let ghost rels = self.graph.relationships_view();
        assert(symbols.deep_view() =~= Seq::<SymbolResultSpec>::empty());
        assert(relationships.deep_view() =~= Seq::<RelationshipResultSpec>::empty());
        let ghost mut seen: Seq<(u128, SymbolSpec)> = Seq::empty();
        proof {
            lemma_map_iter_enumerates(map);
        }
        for entry in it: map.iter()
            invariant
                seen == entries_view(it.seq()).take(it.index() as int),
                entries_view(it.seq()) == self.graph().symbol_order(),
                it.index() == it.seq().len() ==> seen == self.graph().symbol_order(),
                enumerates(entries_view(it.seq()), syms),
                it.index() == it.seq().len() ==> enumerates(seen, syms),
                syms == self.graph().symbols_view(),
                rels == self.graph().relationships_view(),
                crate::graph::deep_symbols(map@) == syms,
                (symbols.deep_view(), relationships.deep_view()) == find_over(
                    syms,
                    rels,
                    seen,
                    query,
                ),
        {
            let (id, symbol) = entry;
            let ghost idx = it.index();
            assert(entries_view(it.seq()).take(idx + 1).drop_last() =~= entries_view(it.seq()).take(idx as int));
            assert(entries_view(it.seq()).take(idx + 1).last() == (*id, symbol.deep_view()));
            proof {
                seen = seen.push((*id, symbol.deep_view()));
            }
            assert(seen =~= entries_view(it.seq()).take(idx + 1));
            assert(idx + 1 == it.seq().len() ==> seen =~= entries_view(it.seq()));
            let name_ok = match &query.name {
                Some(name) => symbol.name == *name,
                None => true,
            };
            let kind_ok = match &query.kind {
                Some(kind) => *kind == symbol.kind,
                None => true,
            };
            if name_ok && kind_ok {
                let found = symbol_result_of(*id, symbol);
                let ghost before = symbols.deep_view();
                symbols.push(found);
                assert(symbols.deep_view() =~= before.push(found.deep_view()));
                if let Some(relationship_query) = &query.relationship {
                    self.collect_relationships(*id, relationship_query, &mut symbols, &mut relationships);
                }
            }
        }
        QueryResult::new(symbols, relationships)
    }
}

} // verus!
