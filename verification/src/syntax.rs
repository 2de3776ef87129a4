//! A syntax tree held as plain values: the nodes of a parse in pre-order,
//! each with its kind, the field it fills in its parent, its span in the
//! source text (in characters) and its children.

use vstd::prelude::*;
use vstd::string::*;

use crate::symbol::Point;
use crate::text::{owned, text_eq};

verus! {

/// An optional node index widened to `int`.
pub open spec fn index_opt(o: Option<usize>) -> Option<int> {
    match o {
        Some(c) => Some(c as int),
        None => None,
    }
}

/// A sequence of node indices widened to `int`.
pub open spec fn as_ints(s: Seq<usize>) -> Seq<int> {
    s.map_values(|c: usize| c as int)
}

/// One node of a syntax tree.
#[derive(Debug)]
pub struct SyntaxNode {
    pub kind: String,
    pub grammar_name: String,
    pub is_named: bool,
    /// The name of the field of its parent that this node fills, if any.
    pub field_name: Option<String>,
    /// First character of the node in the source.
    pub start: usize,
    /// One past the last character of the node in the source.
    pub end: usize,
    pub start_position: Point,
    pub end_position: Point,
    pub parent: Option<usize>,
    /// Indices of the children, in source order.
    pub children: Vec<usize>,
}

/// A syntax tree over `source`; `nodes[0]` is the root.
#[derive(Debug)]
pub struct SyntaxTree {
    pub source: String,
    pub nodes: Vec<SyntaxNode>,
}

impl SyntaxTree {
    pub open spec fn len(&self) -> int {
        self.nodes@.len() as int
    }

    pub open spec fn valid(&self, n: int) -> bool {
        0 <= n < self.len()
    }

    pub open spec fn kind(&self, n: int) -> Seq<char> {
        self.nodes@[n].kind@
    }

    pub open spec fn grammar(&self, n: int) -> Seq<char> {
        self.nodes@[n].grammar_name@
    }

    pub open spec fn named(&self, n: int) -> bool {
        self.nodes@[n].is_named
    }

    pub open spec fn field(&self, n: int) -> Option<Seq<char>> {
        self.nodes@[n].field_name.deep_view()
    }

    pub open spec fn start(&self, n: int) -> int {
        self.nodes@[n].start as int
    }

    pub open spec fn end(&self, n: int) -> int {
        self.nodes@[n].end as int
    }

    /// The source text between two character positions.
    pub open spec fn span(&self, from: int, to: int) -> Seq<char> {
        self.source@.subrange(from, to)
    }

    /// The source text of a node.
    pub open spec fn text(&self, n: int) -> Seq<char> {
        self.span(self.start(n), self.end(n))
    }

    pub open spec fn parent(&self, n: int) -> Option<usize> {
        self.nodes@[n].parent
    }

    pub open spec fn child_count(&self, n: int) -> int {
        self.nodes@[n].children@.len() as int
    }

    pub open spec fn child(&self, n: int, j: int) -> int {
        self.nodes@[n].children@[j] as int
    }

    pub open spec fn node_wf(&self, n: int) -> bool {
        &&& self.start(n) <= self.end(n) <= self.source@.len()
        &&& forall|j: int|
            0 <= j < self.child_count(n) ==> n < #[trigger] self.child(n, j) < self.len()
        &&& self.parent(n) matches Some(p) ==> p < n
        &&& self.nodes@[n].start_position.row < usize::MAX
        &&& self.nodes@[n].start_position.column < usize::MAX
        &&& self.nodes@[n].end_position.row < usize::MAX
        &&& self.nodes@[n].end_position.column < usize::MAX
    }

    /// Every child comes after its parent, every span lies in the source.
    pub open spec fn wf(&self) -> bool {
        forall|n: int| 0 <= n < self.len() ==> #[trigger] self.node_wf(n)
    }

    /// The first child of `n`, from the `j`-th on, that fills field `f`.
    pub open spec fn field_child_from(&self, n: int, f: Seq<char>, j: int) -> Option<int>
        decreases self.child_count(n) - j,
    {
        if j < 0 || j >= self.child_count(n) {
            None
        } else if self.field(self.child(n, j)) == Some(f) {
            Some(self.child(n, j))
        } else {
            self.field_child_from(n, f, j + 1)
        }
    }

    /// The child of `n` that fills field `f` (the first one if several do).
    pub open spec fn field_child(&self, n: int, f: Seq<char>) -> Option<int> {
        self.field_child_from(n, f, 0)
    }

    /// The first child of `n`, from the `j`-th on, of kind `k`.
    pub open spec fn kind_child_from(&self, n: int, k: Seq<char>, j: int) -> Option<int>
        decreases self.child_count(n) - j,
    {
        if j < 0 || j >= self.child_count(n) {
            None
        } else if self.kind(self.child(n, j)) == k {
            Some(self.child(n, j))
        } else {
            self.kind_child_from(n, k, j + 1)
        }
    }

    /// The first child of `n` of kind `k`.
    pub open spec fn kind_child(&self, n: int, k: Seq<char>) -> Option<int> {
        self.kind_child_from(n, k, 0)
    }

    /// The first named child of `n`, from the `j`-th child on, of kind `k`.
    pub open spec fn named_kind_child_from(&self, n: int, k: Seq<char>, j: int) -> Option<int>
        decreases self.child_count(n) - j,
    {
        if j < 0 || j >= self.child_count(n) {
            None
        } else if self.named(self.child(n, j)) && self.kind(self.child(n, j)) == k {
            Some(self.child(n, j))
        } else {
            self.named_kind_child_from(n, k, j + 1)
        }
    }

    /// The first named child of `n` of kind `k`.
    pub open spec fn named_kind_child(&self, n: int, k: Seq<char>) -> Option<int> {
        self.named_kind_child_from(n, k, 0)
    }

    /// The position among the children of `n`, from the `j`-th on, of the
    /// first child of kind `k`.
    pub open spec fn kind_position_from(&self, n: int, k: Seq<char>, j: int) -> Option<int>
        decreases self.child_count(n) - j,
    {
        if j < 0 || j >= self.child_count(n) {
            None
        } else if self.kind(self.child(n, j)) == k {
            Some(j)
        } else {
            self.kind_position_from(n, k, j + 1)
        }
    }

    /// The first named child of `n`, from the `j`-th child on, whose
    /// grammar name is `g`.
    pub open spec fn named_grammar_child_from(&self, n: int, g: Seq<char>, j: int) -> Option<int>
        decreases self.child_count(n) - j,
    {
        if j < 0 || j >= self.child_count(n) {
            None
        } else if self.named(self.child(n, j)) && self.grammar(self.child(n, j)) == g {
            Some(self.child(n, j))
        } else {
            self.named_grammar_child_from(n, g, j + 1)
        }
    }

    /// The text of the child of `n` that fills field `f`, or the empty text.
    pub open spec fn field_text(&self, n: int, f: Seq<char>) -> Seq<char> {
        match self.field_child(n, f) {
            Some(c) => self.text(c),
            None => Seq::empty(),
        }
    }

    /// The texts of the nodes `ids`, in order.
    pub open spec fn texts(&self, ids: Seq<int>) -> Seq<Seq<char>> {
        ids.map_values(|i: int| self.text(i))
    }

    /// The source text from the start of node `a` to the start of node `b`,
    /// or the empty text when `b` starts before `a`.
    pub open spec fn between_starts(&self, a: int, b: int) -> Seq<char> {
        if self.start(a) <= self.start(b) {
            self.span(self.start(a), self.start(b))
        } else {
            Seq::empty()
        }
    }

    /// The named children of `n` among its first `j` children, in order.
    pub open spec fn named_children_upto(&self, n: int, j: int) -> Seq<int>
        decreases j,
    {
        if j <= 0 || j > self.child_count(n) {
            Seq::empty()
        } else if self.named(self.child(n, j - 1)) {
            self.named_children_upto(n, j - 1).push(self.child(n, j - 1))
        } else {
            self.named_children_upto(n, j - 1)
        }
    }

    /// The named children of `n`, in order.
    pub open spec fn named_children(&self, n: int) -> Seq<int> {
        self.named_children_upto(n, self.child_count(n))
    }

    /// The children of `n`, in order.
    pub open spec fn children(&self, n: int) -> Seq<int> {
        self.nodes@[n].children@.map_values(|c: usize| c as int)
    }

    pub proof fn lemma_field_child_valid(&self, n: int, f: Seq<char>, j: int)
        requires
            self.wf(),
            self.valid(n),
            0 <= j,
        ensures
            self.field_child_from(n, f, j) matches Some(c) ==> n < c < self.len(),
        decreases self.child_count(n) - j,
    {
        assert(self.node_wf(n));
        if j < self.child_count(n) {
            assert(n < self.child(n, j) < self.len());
            self.lemma_field_child_valid(n, f, j + 1);
        }
    }

    pub proof fn lemma_kind_child_valid(&self, n: int, k: Seq<char>, j: int)
        requires
            self.wf(),
            self.valid(n),
            0 <= j,
        ensures
            self.kind_child_from(n, k, j) matches Some(c) ==> n < c < self.len(),
            self.named_kind_child_from(n, k, j) matches Some(c) ==> n < c < self.len(),
        decreases self.child_count(n) - j,
    {
        assert(self.node_wf(n));
        if j < self.child_count(n) {
            assert(n < self.child(n, j) < self.len());
            self.lemma_kind_child_valid(n, k, j + 1);
        }
    }

    pub proof fn lemma_kind_position_valid(&self, n: int, k: Seq<char>, j: int)
        requires
            0 <= j,
        ensures
            self.kind_position_from(n, k, j) matches Some(p) ==> j <= p < self.child_count(n)
                && self.kind(self.child(n, p)) == k && self.kind_child_from(n, k, j) == Some(
                self.child(n, p),
            ),
            self.kind_position_from(n, k, j) is None ==> self.kind_child_from(n, k, j) is None,
        decreases self.child_count(n) - j,
    {
        if j < self.child_count(n) {
            self.lemma_kind_position_valid(n, k, j + 1);
        }
    }

    pub proof fn lemma_grammar_child_valid(&self, n: int, g: Seq<char>, j: int)
        requires
            self.wf(),
            self.valid(n),
            0 <= j,
        ensures
            self.named_grammar_child_from(n, g, j) matches Some(c) ==> n < c < self.len(),
        decreases self.child_count(n) - j,
    {
        assert(self.node_wf(n));
        if j < self.child_count(n) {
            assert(n < self.child(n, j) < self.len());
            self.lemma_grammar_child_valid(n, g, j + 1);
        }
    }

    /// Whether the tree is well formed.
    pub fn is_well_formed(&self) -> (res: bool)
        ensures
            res == self.wf(),
    {
        let total = self.source.as_str().unicode_len();
        let len = self.nodes.len();
        let mut n: usize = 0;
        while n < len
            invariant
                len == self.len(),
                total == self.source@.len(),
                n <= len,
                forall|m: int| 0 <= m < n ==> #[trigger] self.node_wf(m),
            decreases len - n,
        {
            let node = &self.nodes[n];
            if !(node.start <= node.end && node.end <= total) {
                assert(!self.node_wf(n as int));
                return false;
            }
            match node.parent {
                Some(p) => if p >= n {
                    assert(!self.node_wf(n as int));
                    return false;
                },
                None => {},
            }
            if node.start_position.row == usize::MAX || node.start_position.column == usize::MAX
                || node.end_position.row == usize::MAX || node.end_position.column == usize::MAX {
                assert(!self.node_wf(n as int));
                return false;
            }
            let mut j: usize = 0;
            while j < node.children.len()
                invariant
                    node == &self.nodes@[n as int],
                    len == self.len(),
                    n < len,
                    j <= node.children@.len(),
                    forall|i: int| 0 <= i < j ==> n < #[trigger] self.child(n as int, i) < self.len(),
                decreases node.children@.len() - j,
            {
                let c = node.children[j];
                if !(n < c && c < len) {
                    assert(!(n < self.child(n as int, j as int) < self.len()));
                    assert(!self.node_wf(n as int));
                    return false;
                }
                j = j + 1;
            }
            assert(self.node_wf(n as int));
            n = n + 1;
        }
        true
    }

    /// Whether node `n` is of kind `k`.
    pub fn kind_is(&self, n: usize, k: &str) -> (res: bool)
        requires
            self.valid(n as int),
        ensures
            res == (self.kind(n as int) == k@),
    {
        text_eq(self.nodes[n].kind.as_str(), k)
    }

    /// The source text of node `n`.
    pub fn text_of(&self, n: usize) -> (res: &str)
        requires
            self.wf(),
            self.valid(n as int),
        ensures
            res@ == self.text(n as int),
    {
        proof {
            assert(self.node_wf(n as int));
        }
        self.source.as_str().substring_char(self.nodes[n].start, self.nodes[n].end)
    }

    /// The source text from the start of node `a` to the start of node `b`,
    /// or the empty text when `b` starts before `a`.
    pub fn text_between_starts(&self, a: usize, b: usize) -> (res: &str)
        requires
            self.wf(),
            self.valid(a as int),
            self.valid(b as int),
        ensures
            self.start(a as int) <= self.start(b as int) ==> res@ == self.span(
                self.start(a as int),
                self.start(b as int),
            ),
            self.start(a as int) > self.start(b as int) ==> res@ == Seq::<char>::empty(),
    {
        proof {
            assert(self.node_wf(a as int));
            assert(self.node_wf(b as int));
        }
        let s = self.nodes[a].start;
        let e = self.nodes[b].start;
        if s <= e {
            self.source.as_str().substring_char(s, e)
        } else {
            proof {
                reveal_strlit("");
            }
            ""
        }
    }

    /// The child of `n` that fills field `f`, as `Node::child_by_field_name`.
    pub fn child_by_field_name(&self, n: usize, f: &str) -> (res: Option<usize>)
        requires
            self.wf(),
            self.valid(n as int),
        ensures
            index_opt(res) == self.field_child(n as int, f@),
            res matches Some(c) ==> n < c < self.len(),
    {
        proof {
            self.lemma_field_child_valid(n as int, f@, 0);
        }
        let node = &self.nodes[n];
        let count = node.children.len();
        let mut j: usize = 0;
        while j < count
            invariant
                self.wf(),
                self.valid(n as int),
                node == &self.nodes@[n as int],
                count == self.child_count(n as int),
                j <= count,
                self.field_child_from(n as int, f@, 0) == self.field_child_from(n as int, f@, j as int),
            decreases count - j,
        {
            let c = node.children[j];
            proof {
                assert(self.node_wf(n as int));
                assert(n < self.child(n as int, j as int) < self.len());
            }
            let matches = match &self.nodes[c].field_name {
                Some(name) => text_eq(name.as_str(), f),
                None => false,
            };
            if matches {
                return Some(c);
            }
            j = j + 1;
        }
        None
    }

    /// The first child of `n` of kind `k`.
    pub fn first_child_of_kind(&self, n: usize, k: &str) -> (res: Option<usize>)
        requires
            self.wf(),
            self.valid(n as int),
        ensures
            index_opt(res) == self.kind_child(n as int, k@),
            res matches Some(c) ==> n < c < self.len(),
    {
        proof {
            self.lemma_kind_child_valid(n as int, k@, 0);
            assert(self.node_wf(n as int));
        }
        let node = &self.nodes[n];
        let count = node.children.len();
        let mut j: usize = 0;
        while j < count
            invariant
                self.wf(),
                self.valid(n as int),
                node == &self.nodes@[n as int],
                count == self.child_count(n as int),
                j <= count,
                self.kind_child_from(n as int, k@, 0) == self.kind_child_from(n as int, k@, j as int),
            decreases count - j,
        {
            let c = node.children[j];
            proof {
                assert(self.node_wf(n as int));
                assert(n < self.child(n as int, j as int) < self.len());
            }
            if self.kind_is(c, k) {
                return Some(c);
            }
            j = j + 1;
        }
        None
    }

    /// The first named child of `n` of kind `k`.
    pub fn first_named_child_of_kind(&self, n: usize, k: &str) -> (res: Option<usize>)
        requires
            self.wf(),
            self.valid(n as int),
        ensures
            index_opt(res) == self.named_kind_child(n as int, k@),
            res matches Some(c) ==> n < c < self.len(),
    {
        proof {
            self.lemma_kind_child_valid(n as int, k@, 0);
        }
        let node = &self.nodes[n];
        let count = node.children.len();
        let mut j: usize = 0;
        while j < count
            invariant
                self.wf(),
                self.valid(n as int),
                node == &self.nodes@[n as int],
                count == self.child_count(n as int),
                j <= count,
                self.named_kind_child_from(n as int, k@, 0) == self.named_kind_child_from(
                    n as int,
                    k@,
                    j as int,
                ),
            decreases count - j,
        {
            let c = node.children[j];
            proof {
                assert(self.node_wf(n as int));
                assert(n < self.child(n as int, j as int) < self.len());
            }
            if self.nodes[c].is_named && self.kind_is(c, k) {
                return Some(c);
            }
            j = j + 1;
        }
        None
    }

    /// The position among the children of `n` of its first child of kind `k`.
    pub fn first_child_position_of_kind(&self, n: usize, k: &str) -> (res: Option<usize>)
        requires
            self.wf(),
            self.valid(n as int),
        ensures
            index_opt(res) == self.kind_position_from(n as int, k@, 0),
    {
        let node = &self.nodes[n];
        let count = node.children.len();
        let mut j: usize = 0;
        while j < count
            invariant
                self.wf(),
                self.valid(n as int),
                node == &self.nodes@[n as int],
                count == self.child_count(n as int),
                j <= count,
                self.kind_position_from(n as int, k@, 0) == self.kind_position_from(n as int, k@, j as int),
            decreases count - j,
        {
            let c = node.children[j];
            proof {
                assert(self.node_wf(n as int));
                assert(n < self.child(n as int, j as int) < self.len());
            }
            if self.kind_is(c, k) {
                return Some(j);
            }
            j = j + 1;
        }
        None
    }

    /// The first named child of `n` whose grammar name is `g`.
    pub fn first_named_child_of_grammar(&self, n: usize, g: &str) -> (res: Option<usize>)
        requires
            self.wf(),
            self.valid(n as int),
        ensures
            index_opt(res) == self.named_grammar_child_from(n as int, g@, 0),
            res matches Some(c) ==> n < c < self.len(),
    {
        proof {
            self.lemma_grammar_child_valid(n as int, g@, 0);
        }
        let node = &self.nodes[n];
        let count = node.children.len();
        let mut j: usize = 0;
        while j < count
            invariant
                self.wf(),
                self.valid(n as int),
                node == &self.nodes@[n as int],
                count == self.child_count(n as int),
                j <= count,
                self.named_grammar_child_from(n as int, g@, 0) == self.named_grammar_child_from(
                    n as int,
                    g@,
                    j as int,
                ),
            decreases count - j,
        {
            let c = node.children[j];
            proof {
                assert(self.node_wf(n as int));
                assert(n < self.child(n as int, j as int) < self.len());
            }
            if self.nodes[c].is_named && text_eq(self.nodes[c].grammar_name.as_str(), g) {
                return Some(c);
            }
            j = j + 1;
        }
        None
    }

    /// The text of the child of `n` that fills field `f`, or the empty text.
    pub fn field_text_of(&self, n: usize, f: &str) -> (res: String)
        requires
            self.wf(),
            self.valid(n as int),
        ensures
            res@ == self.field_text(n as int, f@),
    {
        match self.child_by_field_name(n, f) {
            Some(c) => owned(self.text_of(c)),
            None => String::new(),
        }
    }

    /// The texts of the nodes `ids`, in order.
    pub fn texts_of(&self, ids: &Vec<usize>) -> (res: Vec<String>)
        requires
            self.wf(),
            forall|i: int| 0 <= i < ids@.len() ==> self.valid(#[trigger] ids@[i] as int),
        ensures
            res.deep_view() == self.texts(as_ints(ids@)),
    {
        let mut out: Vec<String> = Vec::new();
        let mut i: usize = 0;
        while i < ids.len()
            invariant
                self.wf(),
                forall|i: int| 0 <= i < ids@.len() ==> self.valid(#[trigger] ids@[i] as int),
                i <= ids@.len(),
                out.deep_view() == self.texts(as_ints(ids@)).take(i as int),
            decreases ids@.len() - i,
        {
            let t = owned(self.text_of(ids[i]));
            let ghost before = out.deep_view();
            out.push(t);
            assert(self.texts(as_ints(ids@))[i as int] == self.text(ids@[i as int] as int));
            assert(out.deep_view() =~= before.push(t@));
            assert(out.deep_view() =~= self.texts(as_ints(ids@)).take(i + 1));
            i = i + 1;
        }
        assert(self.texts(as_ints(ids@)).take(ids@.len() as int) =~= self.texts(
            as_ints(ids@),
        ));
        out
    }

    /// The named children of `n`, in order.
    pub fn named_children_of(&self, n: usize) -> (res: Vec<usize>)
        requires
            self.wf(),
            self.valid(n as int),
        ensures
            as_ints(res@) == self.named_children(n as int),
            forall|i: int| 0 <= i < res@.len() ==> n < #[trigger] res@[i] < self.len(),
    {
        let node = &self.nodes[n];
        let count = node.children.len();
        let mut out: Vec<usize> = Vec::new();
        let mut j: usize = 0;
        while j < count
            invariant
                self.wf(),
                self.valid(n as int),
                node == &self.nodes@[n as int],
                count == self.child_count(n as int),
                j <= count,
                as_ints(out@) == self.named_children_upto(n as int, j as int),
                forall|i: int| 0 <= i < out@.len() ==> n < #[trigger] out@[i] < self.len(),
            decreases count - j,
        {
            let c = node.children[j];
            proof {
                assert(self.node_wf(n as int));
                assert(n < self.child(n as int, j as int) < self.len());
            }
            if self.nodes[c].is_named {
                let ghost before = out@;
                out.push(c);
                assert(as_ints(out@) =~= as_ints(before).push(c as int));
            }
            j = j + 1;
        }
        out
    }
}

} // verus!
