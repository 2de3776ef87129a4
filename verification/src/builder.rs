//! Walking a syntax tree to collect its symbols and the relationships
//! between them. Symbols are numbered here in the order they are met (their
//! local numbers); the graph gives them their lasting identifiers.

use vstd::prelude::*;

use crate::grammer::{contains_text, pairing, Grammer};
use crate::relationship::{
    Metadata, Relationship, RelationshipKind, RelationshipSpec, RelationshipTarget, TargetSpec,
};
use crate::symbol::{
    GenericSpec, Location, ModifierSpec, Symbol, SymbolKind, SymbolKindSpec, SymbolSpec, Visibility,
};
use crate::syntax::SyntaxTree;
use crate::text::{owned, trim, trim_str};

verus! {

/// What the walk has produced so far.
pub struct BuildState {
    /// Symbols in the order they were completed (a declaration after the
    /// declarations inside it).
    pub symbols: Seq<SymbolSpec>,
    pub relationships: Seq<RelationshipSpec>,
    /// The visibility that an access specifier has put in force, if any.
    pub visibility: Option<Visibility>,
    /// The local number of the next symbol.
    pub next: nat,
}

/// The state held by the four values the walk updates.
pub open spec fn state_of(
    symbols: &Vec<Symbol>,
    relationships: &Vec<Relationship>,
    visibility: Option<Visibility>,
    next: usize,
) -> BuildState {
    BuildState {
        symbols: symbols.deep_view(),
        relationships: relationships.deep_view(),
        visibility,
        next: next as nat,
    }
}

/// Edges of the given kind from `from` to each name, trimmed, still to be
/// resolved.
pub open spec fn named_edges(from: u128, names: Seq<Seq<char>>, kind: RelationshipKind) -> Seq<RelationshipSpec> {
    names.map_values(
        |s: Seq<char>|
            RelationshipSpec {
                from,
                to: TargetSpec::Unresolved(trim(s)),
                kind,
                metadata: Seq::empty(),
            },
    )
}

pub open spec fn optional_edges(from: u128, names: Option<Seq<Seq<char>>>, kind: RelationshipKind) -> Seq<RelationshipSpec> {
    match names {
        Some(ns) => named_edges(from, ns, kind),
        None => Seq::empty(),
    }
}

/// The location of node `n`.
pub open spec fn location_of(t: &SyntaxTree, n: int) -> Location {
    let node = t.nodes@[n];
    Location {
        start_line: (node.start_position.row + 1) as usize,
        start_column: (node.start_position.column + 1) as usize,
        end_line: (node.end_position.row + 1) as usize,
        end_column: (node.end_position.column + 1) as usize,
    }
}

/// The symbol declared at node `n` with local number `id`, when
/// `visibility` is in force.
pub open spec fn symbol_at<G: Grammer>(
    g: &G,
    t: &SyntaxTree,
    file: Seq<char>,
    n: int,
    id: nat,
    visibility: Option<Visibility>,
) -> SymbolSpec {
    let kind = g.spec_symbolkind(t, n);
    let (declared, modifiers) = g.spec_attributes(t, n);
    let plain = kind is Module;
    SymbolSpec {
        id: id as u128,
        name: g.spec_name(t, n),
        kind,
        file,
        location: seq![location_of(t, n)],
        visibility: if plain {
            Visibility::Unknown
        } else {
            match visibility {
                Some(v) => v,
                None => declared,
            }
        },
        modifier: if plain {
            Seq::empty()
        } else {
            modifiers
        },
        generics: if plain {
            Seq::empty()
        } else {
            g.spec_generics(t, n)
        },
        metadata: if plain {
            Seq::empty()
        } else {
            g.spec_metadata(t, n, Seq::empty())
        },
        language: g.spec_language(),
    }
}

/// The inheritance and permits edges of the symbol at node `n`.
pub open spec fn declared_edges<G: Grammer>(g: &G, t: &SyntaxTree, n: int, id: nat) -> Seq<RelationshipSpec> {
    if g.spec_symbolkind(t, n) is Module {
        Seq::empty()
    } else {
        optional_edges(id as u128, g.spec_inheritance(t, n), RelationshipKind::Inherits)
            + optional_edges(id as u128, g.spec_permits(t, n), RelationshipKind::Permits)
    }
}

/// The walk from declaration node `n`: its symbol takes the next local
/// number, its own edges come next, then the declarations inside it, then
/// the symbol itself is completed.
pub open spec fn build_node<G: Grammer>(
    g: &G,
    t: &SyntaxTree,
    file: Seq<char>,
    n: int,
    st: BuildState,
) -> BuildState
    decreases t.len() - n, t.child_count(n) + 1,
{
    let id = st.next;
    let sym = symbol_at(g, t, file, n, id, st.visibility);
    let started = BuildState {
        symbols: st.symbols,
        relationships: st.relationships + declared_edges(g, t, n, id),
        visibility: st.visibility,
        next: st.next + 1,
    };
    let done = collect_children(g, t, file, n, id, 0, started);
    BuildState {
        symbols: done.symbols.push(sym),
        relationships: done.relationships,
        visibility: done.visibility,
        next: done.next,
    }
}

/// The walk over the children of `n` from the `j`-th on, on behalf of the
/// symbol numbered `parent`: a declaration is built and tied to `parent`, a
/// flattened node is walked through, any other node may change the
/// visibility in force. The walk stops once the local numbers run out.
pub open spec fn collect_children<G: Grammer>(
    g: &G,
    t: &SyntaxTree,
    file: Seq<char>,
    n: int,
    parent: nat,
    j: int,
    st: BuildState,
) -> BuildState
    decreases t.len() - n, t.child_count(n) - j,
{
    if j < 0 || j >= t.child_count(n) || st.next >= usize::MAX {
        st
    } else {
        let c = t.child(n, j);
        if !(n < c < t.len()) {
            collect_children(g, t, file, n, parent, j + 1, st)
        } else if g.spec_declaration_nodes().contains(t.kind(c)) {
            let built = build_node(g, t, file, c, st);
            let tied = BuildState {
                symbols: built.symbols,
                relationships: built.relationships.push(
                    pairing(parent as u128, st.next as u128, g.spec_pair_kind(t, c)),
                ),
                visibility: built.visibility,
                next: built.next,
            };
            collect_children(g, t, file, n, parent, j + 1, tied)
        } else if g.spec_flatten_nodes().contains(t.kind(c)) {
            collect_children(g, t, file, n, parent, j + 1, collect_children(g, t, file, c, parent, 0, st))
        } else {
            let changed = BuildState {
                symbols: st.symbols,
                relationships: st.relationships,
                visibility: g.spec_visibility_change(t, c, st.visibility),
                next: st.next,
            };
            collect_children(g, t, file, n, parent, j + 1, changed)
        }
    }
}

/// Whether the walk from declaration node `n` meets only permits clauses
/// that the grammar can read: at `n` itself and at every declaration the
/// walk over its children builds.
pub open spec fn readable_from<G: Grammer>(g: &G, t: &SyntaxTree, n: int) -> bool
    decreases t.len() - n, t.child_count(n) + 1,
{
    g.permits_readable(t, n) && readable_children(g, t, n, 0)
}

/// Whether the walk over the children of `n`, from the `j`-th on, meets
/// only permits clauses that the grammar can read.
pub open spec fn readable_children<G: Grammer>(g: &G, t: &SyntaxTree, n: int, j: int) -> bool
    decreases t.len() - n, t.child_count(n) - j,
{
    if j < 0 || j >= t.child_count(n) {
        true
    } else {
        let c = t.child(n, j);
        let here = if !(n < c < t.len()) {
            true
        } else if g.spec_declaration_nodes().contains(t.kind(c)) {
            readable_from(g, t, c)
        } else if g.spec_flatten_nodes().contains(t.kind(c)) {
            readable_children(g, t, c, 0)
        } else {
            true
        };
        here && readable_children(g, t, n, j + 1)
    }
}

/// Whether the walk from declaration node `n` meets only readable permits
/// clauses.
pub fn check_readable_from<G: Grammer>(g: &G, t: &SyntaxTree, n: usize) -> (res: bool)
    requires
        t.wf(),
        t.valid(n as int),
    ensures
        res == readable_from(g, t, n as int),
    decreases t.len() - n, 1nat,
{
    if !g.permits_are_readable(t, n) {
        return false;
    }
    check_readable_children(g, t, n)
}

/// Whether the walk over the children of `n` meets only readable permits
/// clauses.
pub fn check_readable_children<G: Grammer>(g: &G, t: &SyntaxTree, n: usize) -> (res: bool)
    requires
        t.wf(),
        t.valid(n as int),
    ensures
        res == readable_children(g, t, n as int, 0),
    decreases t.len() - n, 0nat,
{
    let declarations = g.declaration_nodes();
    let flattened = g.flatten_nodes();
    let count = t.nodes[n].children.len();
    let mut j: usize = 0;
    while j < count
        invariant
            t.wf(),
            t.valid(n as int),
            count == t.child_count(n as int),
            j <= count,
            crate::grammer::strs_view(declarations@) == g.spec_declaration_nodes(),
            crate::grammer::strs_view(flattened@) == g.spec_flatten_nodes(),
            readable_children(g, t, n as int, 0) == readable_children(g, t, n as int, j as int),
        decreases count - j,
    {
        proof {
            assert(t.node_wf(n as int));
            assert(n < t.child(n as int, j as int) < t.len());
        }
        let child = t.nodes[n].children[j];
        let kind = t.nodes[child].kind.as_str();
        let here = if contains_text(&declarations, kind) {
            check_readable_from(g, t, child)
        } else if contains_text(&flattened, kind) {
            check_readable_children(g, t, child)
        } else {
            true
        };
        if !here {
            return false;
        }
        j = j + 1;
    }
    true
}

fn push_named_edges(
    relationships: &mut Vec<Relationship>,
    from: usize,
    names: &Vec<String>,
    kind: RelationshipKind,
)
    ensures
        final(relationships).deep_view() == old(relationships).deep_view() + named_edges(
            from as u128,
            names.deep_view(),
            kind,
        ),
{
    let ghost target = named_edges(from as u128, names.deep_view(), kind);
    let ghost start = relationships.deep_view();
    let mut i: usize = 0;
    while i < names.len()
        invariant
            i <= names@.len(),
            target == named_edges(from as u128, names.deep_view(), kind),
            start == old(relationships).deep_view(),
            relationships.deep_view() == start + target.take(i as int),
        decreases names@.len() - i,
    {
        let name = owned(trim_str(names[i].as_str()));
        let rel = Relationship {
            from: from as u128,
            to: RelationshipTarget::Unresolved(name),
            kind,
            metadata: Metadata::new(),
        };
        let ghost before = relationships.deep_view();
        relationships.push(rel);
        assert(relationships.deep_view() =~= before.push(rel.deep_view()));
        assert(target[i as int] == rel.deep_view());
        assert(target.take(i + 1) =~= target.take(i as int).push(target[i as int]));
        i = i + 1;
    }
    assert(target.take(names@.len() as int) =~= target);
}

/// Builds the symbol declared at node `n`, with the declarations inside it,
/// and returns its local number.
pub fn build_symbols_and_relationships<G: Grammer>(
    grammer: &G,
    t: &SyntaxTree,
    n: usize,
    file: &str,
    relationships: &mut Vec<Relationship>,
    symbols: &mut Vec<Symbol>,
    default_visibility: &mut Option<Visibility>,
    next: &mut usize,
) -> (res: usize)
    requires
        t.wf(),
        t.valid(n as int),
        readable_from(grammer, t, n as int),
        *old(next) < usize::MAX,
    ensures
        res == *old(next),
        state_of(final(symbols), final(relationships), *final(default_visibility), *final(next))
            == build_node(
            grammer,
            t,
            file@,
            n as int,
            state_of(old(symbols), old(relationships), *old(default_visibility), *old(next)),
        ),
    decreases t.len() - n, 1nat,
{
    let id = *next;
    *next = *next + 1;
    let ghost before_vis = *default_visibility;
    proof {
        assert(t.node_wf(n as int));
    }
    let kind = grammer.to_symbolkind(t, n);
    let name = grammer.to_name(t, n);
    let mut location: Vec<Location> = Vec::new();
    location.push(Location::from(t.nodes[n].start_position, t.nodes[n].end_position));
    let mut symbol = Symbol {
        id: id as u128,
        name,
        kind,
        file: owned(file),
        location,
        visibility: Visibility::Unknown,
        modifier: Vec::new(),
        generics: Vec::new(),
        metadata: Metadata::new(),
        language: grammer.language(),
    };
    let ghost edges_before = relationships.deep_view();
    if !matches!(symbol.kind, SymbolKind::Module) {
        let (v, m) = grammer.extract_declaration_attributes(t, n);
        symbol.visibility = match default_visibility {
            Some(def) => *def,
            None => v,
        };
        symbol.modifier = m;
        symbol.generics = grammer.to_generics(t, n);
        if let Some(interfaces) = grammer.gather_all_inheritance(t, n) {
            push_named_edges(relationships, id, &interfaces, RelationshipKind::Inherits);
        }
        let ghost mid = relationships.deep_view();
        if let Some(permits) = grammer.gather_all_permits(t, n) {
            push_named_edges(relationships, id, &permits, RelationshipKind::Permits);
        }
        grammer.extract_metadata(t, n, &mut symbol.metadata);
        assert(relationships.deep_view() =~= edges_before + declared_edges(grammer, t, n as int, id as nat));
    } else {
        assert(symbol.modifier.deep_view() =~= Seq::<ModifierSpec>::empty());
        assert(symbol.generics.deep_view() =~= Seq::<GenericSpec>::empty());
        assert(relationships.deep_view() =~= edges_before + declared_edges(grammer, t, n as int, id as nat));
    }
    assert(symbol.location@ =~= seq![location_of(t, n as int)]);
    assert(symbol.deep_view() == symbol_at(grammer, t, file@, n as int, id as nat, before_vis));
    collect_symbols_recursively(
        grammer,
        t,
        n,
        id,
        file,
        relationships,
        symbols,
        default_visibility,
        next,
    );
    let ghost sym = symbol.deep_view();
    let ghost syms_before = symbols.deep_view();
    symbols.push(symbol);
    assert(symbols.deep_view() =~= syms_before.push(sym));
    id
}

/// Walks the children of `n` on behalf of the symbol numbered `parent_id`.
pub fn collect_symbols_recursively<G: Grammer>(
    grammer: &G,
    t: &SyntaxTree,
    n: usize,
    parent_id: usize,
    file: &str,
    relationships: &mut Vec<Relationship>,
    symbols: &mut Vec<Symbol>,
    default_visibility: &mut Option<Visibility>,
    next: &mut usize,
)
    requires
        t.wf(),
        t.valid(n as int),
        readable_children(grammer, t, n as int, 0),
    ensures
        state_of(final(symbols), final(relationships), *final(default_visibility), *final(next))
            == collect_children(
            grammer,
            t,
            file@,
            n as int,
            parent_id as nat,
            0,
            state_of(old(symbols), old(relationships), *old(default_visibility), *old(next)),
        ),
    decreases t.len() - n, 0nat,
{
    let declarations = grammer.declaration_nodes();
    let flattened = grammer.flatten_nodes();
    let count = t.nodes[n].children.len();
    let mut j: usize = 0;
    while j < count && *next < usize::MAX
        invariant
            t.wf(),
            t.valid(n as int),
            readable_children(grammer, t, n as int, 0) == readable_children(grammer, t, n as int, j as int),
            readable_children(grammer, t, n as int, j as int),
            count == t.child_count(n as int),
            j <= count,
            crate::grammer::strs_view(declarations@) == grammer.spec_declaration_nodes(),
            crate::grammer::strs_view(flattened@) == grammer.spec_flatten_nodes(),
            collect_children(
                grammer,
                t,
                file@,
                n as int,
                parent_id as nat,
                0,
                state_of(old(symbols), old(relationships), *old(default_visibility), *old(next)),
            ) == collect_children(
                grammer,
                t,
                file@,
                n as int,
                parent_id as nat,
                j as int,
                state_of(symbols, relationships, *default_visibility, *next),
            ),
        decreases count - j,
    {
        proof {
            assert(t.node_wf(n as int));
            assert(n < t.child(n as int, j as int) < t.len());
        }
        let child = t.nodes[n].children[j];
        let kind = t.nodes[child].kind.as_str();
        if contains_text(&declarations, kind) {
            let child_id = build_symbols_and_relationships(
                grammer,
                t,
                child,
                file,
                relationships,
                symbols,
                default_visibility,
                next,
            );
            let ghost before = relationships.deep_view();
            grammer.pair_relationships(t, child, parent_id as u128, child_id as u128, relationships);
        } else if contains_text(&flattened, kind) {
            collect_symbols_recursively(
                grammer,
                t,
                child,
                parent_id,
                file,
                relationships,
                symbols,
                default_visibility,
                next,
            );
        } else {
            grammer.apply_visibility_change(t, child, default_visibility);
        }
        j = j + 1;
    }
}

} // verus!

verus! {

/// The identifiers carried by a sequence of symbols.
pub open spec fn ids_of(syms: Seq<SymbolSpec>) -> Set<u128> {
    Set::new(|x: u128| exists|i: int| 0 <= i < syms.len() && #[trigger] syms[i].id == x)
}

/// Every edge starts at, and every resolved edge ends at, an identifier of
/// `known`.
pub open spec fn endpoints_within(rels: Seq<RelationshipSpec>, known: Set<u128>) -> bool {
    forall|i: int|
        0 <= i < rels.len() ==> known.contains(#[trigger] rels[i].from) && (rels[i].to matches TargetSpec::Resolved(
            y,
        ) ==> known.contains(y))
}

/// `new` holds one symbol for each local number from `first` up to `last`,
/// each made from `file` in `language`.
pub open spec fn numbered(
    new: Seq<SymbolSpec>,
    first: nat,
    last: nat,
    file: Seq<char>,
    language: crate::symbol::Language,
) -> bool {
    &&& new.len() + first == last
    &&& forall|i: int| #![trigger new[i]] 0 <= i < new.len() ==> first <= new[i].id < last
    &&& forall|i: int, k: int| #![trigger new[i], new[k]] 0 <= i < k < new.len() ==> new[i].id != new[k].id
    &&& forall|i: int|
        #![trigger new[i]]
        0 <= i < new.len() ==> new[i].file == file && new[i].language == language
}

/// `after` continues `before`: the symbols found before stay, the new ones
/// are numbered from `before.next` to `after.next`.
pub open spec fn continues(
    before: BuildState,
    after: BuildState,
    file: Seq<char>,
    language: crate::symbol::Language,
) -> bool {
    &&& before.next <= after.next <= usize::MAX
    &&& before.symbols.len() <= after.symbols.len()
    &&& after.symbols.subrange(0, before.symbols.len() as int) == before.symbols
    &&& numbered(after.symbols.skip(before.symbols.len() as int), before.next, after.next, file, language)
}

proof fn lemma_continues_trans(
    a: BuildState,
    b: BuildState,
    c: BuildState,
    file: Seq<char>,
    language: crate::symbol::Language,
)
    requires
        continues(a, b, file, language),
        continues(b, c, file, language),
    ensures
        continues(a, c, file, language),
{
    let al = a.symbols.len() as int;
    let bl = b.symbols.len() as int;
    let x = b.symbols.skip(al);
    let y = c.symbols.skip(bl);
    let z = c.symbols.skip(al);
    assert forall|i: int| 0 <= i < al implies c.symbols[i] == a.symbols[i] by {
        assert(c.symbols[i] == c.symbols.subrange(0, bl)[i]);
        assert(b.symbols[i] == b.symbols.subrange(0, al)[i]);
    }
    assert(c.symbols.subrange(0, al) =~= a.symbols);
    assert forall|i: int| 0 <= i < z.len() implies #[trigger] z[i] == (if i < x.len() {
        x[i]
    } else {
        y[i - x.len()]
    }) by {
        if i < x.len() {
            assert(c.symbols[al + i] == c.symbols.subrange(0, bl)[al + i]);
        }
    }
    assert forall|i: int, k: int| 0 <= i < k < z.len() implies #[trigger] z[i].id != #[trigger] z[k].id by {
        let zi = z[i];
        let zk = z[k];
        if k < x.len() {
            assert(zi == x[i] && zk == x[k]);
        } else if i >= x.len() {
            assert(zi == y[i - x.len()] && zk == y[k - x.len()]);
        } else {
            assert(zi == x[i] && zk == y[k - x.len()]);
            assert(x[i].id < b.next);
            assert(b.next <= y[k - x.len()].id);
        }
    }
    assert forall|i: int| 0 <= i < z.len() implies a.next <= #[trigger] z[i].id < c.next by {
        let zi = z[i];
        if i < x.len() {
            assert(zi == x[i]);
        } else {
            assert(zi == y[i - x.len()]);
        }
    }
    assert forall|i: int| 0 <= i < z.len() implies #[trigger] z[i].file == file && z[i].language
        == language by {
        let zi = z[i];
        if i < x.len() {
            assert(zi == x[i]);
        } else {
            assert(zi == y[i - x.len()]);
        }
    }
}

proof fn lemma_optional_edges(from: u128, names: Option<Seq<Seq<char>>>, kind: RelationshipKind)
    ensures
        forall|k: int|
            0 <= k < optional_edges(from, names, kind).len() ==> (#[trigger] optional_edges(
                from,
                names,
                kind,
            )[k]).from == from && optional_edges(from, names, kind)[k].to is Unresolved,
{
}

proof fn lemma_ids_grow(before: Seq<SymbolSpec>, after: Seq<SymbolSpec>)
    requires
        before.len() <= after.len(),
        after.subrange(0, before.len() as int) == before,
    ensures
        ids_of(before).subset_of(ids_of(after)),
{
    assert forall|x: u128| ids_of(before).contains(x) implies ids_of(after).contains(x) by {
        let i = choose|i: int| 0 <= i < before.len() && #[trigger] before[i].id == x;
        assert(after[i] == after.subrange(0, before.len() as int)[i]);
        assert(after[i].id == x);
    }
}

proof fn lemma_endpoints_widen(rels: Seq<RelationshipSpec>, small: Set<u128>, big: Set<u128>)
    requires
        endpoints_within(rels, small),
        small.subset_of(big),
    ensures
        endpoints_within(rels, big),
{
}

/// What the walk from a declaration keeps: the symbols found before stay,
/// the new ones take consecutive local numbers (the first for the
/// declaration itself), and every edge joins symbols that are found or are
/// still being built (`pending`).
pub proof fn lemma_build_node<G: Grammer>(
    g: &G,
    t: &SyntaxTree,
    file: Seq<char>,
    n: int,
    st: BuildState,
    pending: Set<u128>,
)
    requires
        t.valid(n),
        st.next < usize::MAX,
        endpoints_within(st.relationships, ids_of(st.symbols).union(pending)),
    ensures
        ({
            let r = build_node(g, t, file, n, st);
            &&& continues(st, r, file, g.spec_language())
            &&& st.next < r.next
            &&& ids_of(r.symbols).contains(st.next as u128)
            &&& endpoints_within(r.relationships, ids_of(r.symbols).union(pending))
        }),
    decreases t.len() - n, t.child_count(n) + 1,
{
    let id = st.next;
    let sym = symbol_at(g, t, file, n, id, st.visibility);
    let started = BuildState {
        symbols: st.symbols,
        relationships: st.relationships + declared_edges(g, t, n, id),
        visibility: st.visibility,
        next: st.next + 1,
    };
    let pending1 = pending.insert(id as u128);
    assert(endpoints_within(started.relationships, ids_of(started.symbols).union(pending1))) by {
        assert forall|i: int| 0 <= i < started.relationships.len() implies ids_of(started.symbols).union(
            pending1,
        ).contains(#[trigger] started.relationships[i].from) && (started.relationships[i].to matches TargetSpec::Resolved(
            y,
        ) ==> ids_of(started.symbols).union(pending1).contains(y)) by {
            if i >= st.relationships.len() {
                let e = declared_edges(g, t, n, id);
                let k = i - st.relationships.len();
                assert(started.relationships[i] == e[k]);
                let inh = optional_edges(id as u128, g.spec_inheritance(t, n), RelationshipKind::Inherits);
                let per = optional_edges(id as u128, g.spec_permits(t, n), RelationshipKind::Permits);
                lemma_optional_edges(id as u128, g.spec_inheritance(t, n), RelationshipKind::Inherits);
                lemma_optional_edges(id as u128, g.spec_permits(t, n), RelationshipKind::Permits);
                assert(e == inh + per);
                if k < inh.len() {
                    assert(e[k] == inh[k]);
                } else {
                    assert(e[k] == per[k - inh.len()]);
                }
                assert(pending1.contains(id as u128));
            } else {
                let r = st.relationships[i];
                assert(started.relationships[i] == r);
                assert(ids_of(st.symbols).union(pending).contains(r.from));
                if let TargetSpec::Resolved(y) = r.to {
                    assert(ids_of(st.symbols).union(pending).contains(y));
                }
            }
        }
    }
    assert(started.symbols.skip(st.symbols.len() as int) =~= Seq::<SymbolSpec>::empty());
    assert(started.symbols.subrange(0, st.symbols.len() as int) =~= st.symbols);
    lemma_collect_children(g, t, file, n, id, 0, started, pending1);
    let done = collect_children(g, t, file, n, id, 0, started);
    let r = build_node(g, t, file, n, st);
    assert(r.symbols == done.symbols.push(sym));
    let new_done = done.symbols.skip(st.symbols.len() as int);
    let new_r = r.symbols.skip(st.symbols.len() as int);
    assert(done.symbols.subrange(0, st.symbols.len() as int) == st.symbols);
    assert(r.symbols.subrange(0, st.symbols.len() as int) =~= st.symbols) by {
        assert forall|i: int| 0 <= i < st.symbols.len() implies r.symbols[i] == st.symbols[i] by {
            assert(r.symbols[i] == done.symbols[i]);
            assert(done.symbols[i] == done.symbols.subrange(0, st.symbols.len() as int)[i]);
        }
    }
    assert(new_r =~= new_done.push(sym));
    assert(r.symbols[r.symbols.len() - 1].id == id as u128);
    assert(ids_of(r.symbols).contains(id as u128));
    assert(numbered(new_r, st.next, r.next, file, g.spec_language())) by {
        assert forall|i: int, k: int| 0 <= i < k < new_r.len() implies #[trigger] new_r[i].id
            != #[trigger] new_r[k].id by {
            if k == new_r.len() - 1 {
                assert(new_r[i] == new_done[i]);
            } else {
                assert(new_r[i] == new_done[i] && new_r[k] == new_done[k]);
            }
        }
        assert forall|i: int| 0 <= i < new_r.len() implies st.next <= #[trigger] new_r[i].id < r.next by {
            if i < new_done.len() {
                assert(new_r[i] == new_done[i]);
            }
        }
        assert forall|i: int| 0 <= i < new_r.len() implies #[trigger] new_r[i].file == file
            && new_r[i].language == g.spec_language() by {
            if i < new_done.len() {
                assert(new_r[i] == new_done[i]);
            }
        }
    }
    assert(r.symbols.subrange(0, done.symbols.len() as int) =~= done.symbols);
    lemma_ids_grow(done.symbols, r.symbols);
    assert(ids_of(done.symbols).union(pending1).subset_of(ids_of(r.symbols).union(pending)));
    lemma_endpoints_widen(r.relationships, ids_of(done.symbols).union(pending1), ids_of(r.symbols).union(pending));
}

/// What the walk over children keeps (see `lemma_build_node`), on behalf of
/// a symbol that is still being built.
pub proof fn lemma_collect_children<G: Grammer>(
    g: &G,
    t: &SyntaxTree,
    file: Seq<char>,
    n: int,
    parent: nat,
    j: int,
    st: BuildState,
    pending: Set<u128>,
)
    requires
        t.valid(n),
        st.next <= usize::MAX,
        pending.contains(parent as u128),
        endpoints_within(st.relationships, ids_of(st.symbols).union(pending)),
    ensures
        ({
            let r = collect_children(g, t, file, n, parent, j, st);
            &&& continues(st, r, file, g.spec_language())
            &&& endpoints_within(r.relationships, ids_of(r.symbols).union(pending))
        }),
    decreases t.len() - n, t.child_count(n) - j,
{
    assert(st.symbols.skip(st.symbols.len() as int) =~= Seq::<SymbolSpec>::empty());
    assert(st.symbols.subrange(0, st.symbols.len() as int) =~= st.symbols);
    if j < 0 || j >= t.child_count(n) || st.next >= usize::MAX {
    } else {
        let c = t.child(n, j);
        if !(n < c < t.len()) {
            lemma_collect_children(g, t, file, n, parent, j + 1, st, pending);
        } else if g.spec_declaration_nodes().contains(t.kind(c)) {
            lemma_build_node(g, t, file, c, st, pending);
            let built = build_node(g, t, file, c, st);
            let tied = BuildState {
                symbols: built.symbols,
                relationships: built.relationships.push(
                    crate::grammer::pairing(parent as u128, st.next as u128, g.spec_pair_kind(t, c)),
                ),
                visibility: built.visibility,
                next: built.next,
            };
            assert(endpoints_within(tied.relationships, ids_of(tied.symbols).union(pending))) by {
                assert forall|i: int| 0 <= i < tied.relationships.len() implies ids_of(tied.symbols).union(
                    pending,
                ).contains(#[trigger] tied.relationships[i].from) && (tied.relationships[i].to matches TargetSpec::Resolved(
                    y,
                ) ==> ids_of(tied.symbols).union(pending).contains(y)) by {
                    if i < built.relationships.len() {
                        let r = built.relationships[i];
                        assert(tied.relationships[i] == r);
                        assert(ids_of(built.symbols).union(pending).contains(r.from));
                        if let TargetSpec::Resolved(y) = r.to {
                            assert(ids_of(built.symbols).union(pending).contains(y));
                        }
                    }
                }
            }
            lemma_collect_children(g, t, file, n, parent, j + 1, tied, pending);
            lemma_continues_trans(
                st,
                tied,
                collect_children(g, t, file, n, parent, j + 1, tied),
                file,
                g.spec_language(),
            );
        } else if g.spec_flatten_nodes().contains(t.kind(c)) {
            lemma_collect_children(g, t, file, c, parent, 0, st, pending);
            let inner = collect_children(g, t, file, c, parent, 0, st);
            lemma_collect_children(g, t, file, n, parent, j + 1, inner, pending);
            lemma_continues_trans(
                st,
                inner,
                collect_children(g, t, file, n, parent, j + 1, inner),
                file,
                g.spec_language(),
            );
        } else {
            let changed = BuildState {
                symbols: st.symbols,
                relationships: st.relationships,
                visibility: g.spec_visibility_change(t, c, st.visibility),
                next: st.next,
            };
            lemma_collect_children(g, t, file, n, parent, j + 1, changed, pending);
        }
    }
}

} // verus!
