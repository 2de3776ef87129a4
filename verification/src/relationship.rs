//! Edges between symbols, and string-keyed metadata.

use vstd::prelude::*;

use crate::symbol::SymbolId;
use crate::text::text_eq;

verus! {

/// How two symbols are related.
#[derive(Debug, Clone, Copy, PartialEq, Eq, Structural)]
pub enum RelationshipKind {
    Contains,
    Calls,
    Inherits,
    Imports,
    Permits,
}

impl Default for RelationshipKind {
    fn default() -> (res: Self)
        ensures
            res == RelationshipKind::Contains,
    {
        RelationshipKind::Contains
    }
}

/// The far end of an edge: a known symbol, or a name still to be resolved.
#[derive(Debug)]
pub enum RelationshipTarget {
    Resolved(SymbolId),
    Unresolved(String),
}

/// The mathematical value of a `RelationshipTarget`.
pub enum TargetSpec {
    Resolved(SymbolId),
    Unresolved(Seq<char>),
}

impl DeepView for RelationshipTarget {
    type V = TargetSpec;

    open spec fn deep_view(&self) -> TargetSpec {
        match self {
            RelationshipTarget::Resolved(id) => TargetSpec::Resolved(*id),
            RelationshipTarget::Unresolved(name) => TargetSpec::Unresolved(name@),
        }
    }
}

impl Clone for RelationshipTarget {
    fn clone(&self) -> (res: Self)
        ensures
            res.deep_view() == self.deep_view(),
    {
        match self {
            RelationshipTarget::Resolved(id) => RelationshipTarget::Resolved(*id),
            RelationshipTarget::Unresolved(name) => RelationshipTarget::Unresolved(name.clone()),
        }
    }
}

/// Key-value pairs with distinct keys, in the order the keys were added.
#[derive(Debug)]
pub struct Metadata {
    pub entries: Vec<(String, String)>,
}

/// The position of key `k` among `entries` from the `j`-th on.
pub open spec fn key_position_from(entries: Seq<(Seq<char>, Seq<char>)>, k: Seq<char>, j: int) -> Option<int>
    decreases entries.len() - j,
{
    if j < 0 || j >= entries.len() {
        None
    } else if entries[j].0 == k {
        Some(j)
    } else {
        key_position_from(entries, k, j + 1)
    }
}

/// The entries after setting key `k` to `v`: the value of an existing key
/// is replaced in place, a new key goes last.
pub open spec fn metadata_insert(entries: Seq<(Seq<char>, Seq<char>)>, k: Seq<char>, v: Seq<char>) -> Seq<(Seq<char>, Seq<char>)> {
    match key_position_from(entries, k, 0) {
        Some(i) => entries.update(i, (k, v)),
        None => entries.push((k, v)),
    }
}

/// The value stored under key `k`, if any.
pub open spec fn metadata_get(entries: Seq<(Seq<char>, Seq<char>)>, k: Seq<char>) -> Option<Seq<char>> {
    match key_position_from(entries, k, 0) {
        Some(i) => Some(entries[i].1),
        None => None,
    }
}

/// Whether no key occurs twice.
pub open spec fn keys_distinct(entries: Seq<(Seq<char>, Seq<char>)>) -> bool {
    forall|i: int, j: int| 0 <= i < j < entries.len() ==> #[trigger] entries[i].0 != #[trigger] entries[j].0
}

proof fn lemma_key_position_bounds(entries: Seq<(Seq<char>, Seq<char>)>, k: Seq<char>, j: int)
    requires
        0 <= j,
    ensures
        key_position_from(entries, k, j) matches Some(i) ==> j <= i < entries.len() && entries[i].0 == k
            && forall|m: int| j <= m < i ==> #[trigger] entries[m].0 != k,
        key_position_from(entries, k, j) is None ==> forall|i: int| j <= i < entries.len() ==> #[trigger] entries[i].0 != k,
    decreases entries.len() - j,
{
    if j < entries.len() && entries[j].0 != k {
        lemma_key_position_bounds(entries, k, j + 1);
    }
}

proof fn lemma_key_position_first(entries: Seq<(Seq<char>, Seq<char>)>, k: Seq<char>, j: int, i: int)
    requires
        0 <= j <= i < entries.len(),
        entries[i].0 == k,
        forall|m: int| j <= m < i ==> #[trigger] entries[m].0 != k,
    ensures
        key_position_from(entries, k, j) == Some(i),
    decreases i - j,
{
    if j < i {
        lemma_key_position_first(entries, k, j + 1, i);
    }
}

/// Setting a key and reading it back gives the value set; every other key
/// keeps its value; and no key comes to occur twice.
pub proof fn law_metadata_read_after_write(
    entries: Seq<(Seq<char>, Seq<char>)>,
    k: Seq<char>,
    v: Seq<char>,
    other: Seq<char>,
)
    requires
        other != k,
    ensures
        metadata_get(metadata_insert(entries, k, v), k) == Some(v),
        metadata_get(metadata_insert(entries, k, v), other) == metadata_get(entries, other),
        keys_distinct(entries) ==> keys_distinct(metadata_insert(entries, k, v)),
{
    let after = metadata_insert(entries, k, v);
    lemma_key_position_bounds(entries, k, 0);
    lemma_key_position_bounds(entries, other, 0);
    lemma_key_position_bounds(after, other, 0);
    match key_position_from(entries, k, 0) {
        Some(i) => {
            assert(after[i].0 == k);
            assert forall|m: int| 0 <= m < i implies #[trigger] after[m].0 != k by {
                assert(after[m] == entries[m]);
            }
            lemma_key_position_first(after, k, 0, i);
        },
        None => {
            assert(after[entries.len() as int].0 == k);
            assert forall|m: int| 0 <= m < entries.len() implies #[trigger] after[m].0 != k by {
                assert(after[m] == entries[m]);
            }
            lemma_key_position_first(after, k, 0, entries.len() as int);
        },
    }
    match key_position_from(entries, other, 0) {
        Some(p) => {
            assert(after[p] == entries[p]);
            assert forall|m: int| 0 <= m < p implies #[trigger] after[m].0 != other by {
                if after[m].0 == other {
                    assert(after[m] == entries[m]);
                }
            }
            lemma_key_position_first(after, other, 0, p);
        },
        None => {
            if let Some(p) = key_position_from(after, other, 0) {
                assert(after[p].0 == other);
                assert(after[p] == entries[p]);
            }
        },
    }
    if keys_distinct(entries) {
        assert forall|i: int, j: int| 0 <= i < j < after.len() implies #[trigger] after[i].0
            != #[trigger] after[j].0 by {
            match key_position_from(entries, k, 0) {
                Some(p) => {
                    if i != p && j != p {
                        assert(after[i] == entries[i] && after[j] == entries[j]);
                    } else if i == p {
                        assert(after[j] == entries[j]);
                        assert(entries[p].0 == k);
                    } else {
                        assert(after[i] == entries[i]);
                        assert(entries[p].0 == k);
                    }
                },
                None => {
                    if j < entries.len() {
                        assert(after[i] == entries[i] && after[j] == entries[j]);
                    } else {
                        assert(after[i] == entries[i]);
                    }
                },
            }
        }
    }
}

impl DeepView for Metadata {
    type V = Seq<(Seq<char>, Seq<char>)>;

    open spec fn deep_view(&self) -> Seq<(Seq<char>, Seq<char>)> {
        self.entries.deep_view()
    }
}

impl Metadata {
    /// No entries.
    pub fn new() -> (res: Metadata)
        ensures
            res.deep_view() == Seq::<(Seq<char>, Seq<char>)>::empty(),
            keys_distinct(res.deep_view()),
    {
        let res = Metadata { entries: Vec::new() };
        assert(res.deep_view() =~= Seq::<(Seq<char>, Seq<char>)>::empty());
        res
    }

    /// Sets `key` to `value`, as `HashMap::insert`.
    pub fn insert(&mut self, key: String, value: String)
        ensures
            final(self).deep_view() == metadata_insert(old(self).deep_view(), key@, value@),
            keys_distinct(old(self).deep_view()) ==> keys_distinct(final(self).deep_view()),
    {
        let ghost before = self.deep_view();
        proof {
            assert(key@.push(' ').len() != key@.len());
            law_metadata_read_after_write(before, key@, value@, key@.push(' '));
        }
        let mut j: usize = 0;
        while j < self.entries.len()
            invariant
                before == self.deep_view(),
                before == old(self).deep_view(),
                j <= self.entries@.len(),
                key_position_from(before, key@, 0) == key_position_from(before, key@, j as int),
            decreases self.entries@.len() - j,
        {
            if text_eq(self.entries[j].0.as_str(), key.as_str()) {
                let ghost k = key@;
                let ghost v = value@;
                assert(before[j as int].0 == k);
                assert(key_position_from(before, k, j as int) == Some(j as int));
                self.entries.set(j, (key, value));
                assert(self.deep_view() =~= before.update(j as int, (k, v)));
                return;
            }
            j = j + 1;
        }
        let ghost k = key@;
        let ghost v = value@;
        self.entries.push((key, value));
        assert(self.deep_view() =~= before.push((k, v)));
    }
}

/// An edge from one symbol to another.
#[derive(Debug)]
pub struct Relationship {
    pub from: SymbolId,
    pub to: RelationshipTarget,
    pub kind: RelationshipKind,
    pub metadata: Metadata,
}

/// The mathematical value of a `Relationship`.
pub struct RelationshipSpec {
    pub from: SymbolId,
    pub to: TargetSpec,
    pub kind: RelationshipKind,
    pub metadata: Seq<(Seq<char>, Seq<char>)>,
}

impl DeepView for Relationship {
    type V = RelationshipSpec;

    open spec fn deep_view(&self) -> RelationshipSpec {
        RelationshipSpec {
            from: self.from,
            to: self.to.deep_view(),
            kind: self.kind,
            metadata: self.metadata.deep_view(),
        }
    }
}

/// The target after resolving it to `id`: a resolved target keeps its symbol.
pub open spec fn resolved_to(t: TargetSpec, id: SymbolId) -> TargetSpec {
    match t {
        TargetSpec::Resolved(_) => t,
        TargetSpec::Unresolved(_) => TargetSpec::Resolved(id),
    }
}

/// The name a target still has to be resolved by, if any.
pub open spec fn pending_name(t: TargetSpec) -> Option<Seq<char>> {
    match t {
        TargetSpec::Resolved(_) => None,
        TargetSpec::Unresolved(name) => Some(name),
    }
}

/// Once resolved, an edge has no name left to resolve.
pub proof fn law_resolved_edge_has_no_pending_name(t: TargetSpec, id: SymbolId)
    ensures
        pending_name(resolved_to(t, id)) is None,
{
}

/// The first resolution sticks: resolving again changes nothing.
pub proof fn law_first_resolution_sticks(t: TargetSpec, first: SymbolId, second: SymbolId)
    ensures
        resolved_to(resolved_to(t, first), second) == resolved_to(t, first),
{
}

/// Resolving an edge that is already resolved leaves it as it is.
pub proof fn law_resolve_is_no_op_on_resolved(t: TargetSpec, id: SymbolId)
    requires
        t is Resolved,
    ensures
        resolved_to(t, id) == t,
{
}

impl Relationship {
    /// Points the edge at `id` unless it already points at a symbol.
    pub fn resolve(&mut self, id: SymbolId)
        ensures
            final(self).from == old(self).from,
            final(self).kind == old(self).kind,
            final(self).metadata.deep_view() == old(self).metadata.deep_view(),
            final(self).to.deep_view() == resolved_to(old(self).to.deep_view(), id),
    {
        if let RelationshipTarget::Resolved(_) = self.to {
            return;
        }
        self.to = RelationshipTarget::Resolved(id);
    }

    /// The name the edge still has to be resolved by, if any.
    pub fn is_unresolved(&self) -> (res: Option<&str>)
        ensures
            match pending_name(self.to.deep_view()) {
                None => res is None,
                Some(name) => res matches Some(s) && s@ == name,
            },
    {
        match &self.to {
            RelationshipTarget::Resolved(_) => None,
            RelationshipTarget::Unresolved(name) => Some(name.as_str()),
        }
    }
}

} // verus!
