//! The Java grammar.

use vstd::prelude::*;
use vstd::string::*;

use crate::grammer::{kinds_apart, push_pairing, strs_view, Grammer};
use crate::relationship::{metadata_insert, Metadata, Relationship, RelationshipKind};
use crate::symbol::{
    modifier_of, visibility_of, Constructor, FunctionDefinition, Generic, GenericSpec, Language,
    MemberVariable, Modifier, ModifierSpec, Parameter, ParameterSpec, SymbolKind, SymbolKindSpec,
    Type, TypeSpec, Visibility,
};
use crate::syntax::{as_ints, SyntaxTree};
use crate::text::{has_prefix, join, join_strs, owned, split, split_str, starts_with, strip_prefix, text_eq};

verus! {

/// The type named by node `n`, written as it stands.
pub open spec fn type_of_node(t: &SyntaxTree, n: int) -> TypeSpec {
    TypeSpec { reference: false, pointer_depth: 0, name: t.text(n) }
}

impl Type {
    /// The type named by node `n`, written as it stands.
    pub fn from_node(t: &SyntaxTree, n: usize) -> (res: Type)
        requires
            t.wf(),
            t.valid(n as int),
        ensures
            res.deep_view() == type_of_node(t, n as int),
    {
        Type { reference: false, pointer_depth: 0, name: owned(t.text_of(n)) }
    }
}

/// The modifiers listed in the `modifiers` child of a parameter.
pub open spec fn parameter_modifiers(t: &SyntaxTree, c: int) -> Seq<ModifierSpec> {
    match t.named_kind_child(c, "modifiers"@) {
        Some(m) => t.children(m).map_values(|x: int| modifier_of(t.text(x))),
        None => Seq::empty(),
    }
}

/// The name of a parameter: its `name` field, or the name of its variable
/// declarator, or the empty text.
pub open spec fn parameter_name(t: &SyntaxTree, c: int) -> Seq<char> {
    match t.field_child(c, "name"@) {
        Some(x) => t.text(x),
        None => match t.named_kind_child(c, "variable_declarator"@) {
            Some(v) => t.field_text(v, "name"@),
            None => Seq::empty(),
        },
    }
}

/// The type of a parameter: its `type` field, or its first named child
/// that is an identifier, or the empty text.
pub open spec fn parameter_type(t: &SyntaxTree, c: int) -> Seq<char> {
    match t.field_child(c, "type"@) {
        Some(x) => t.text(x),
        None => match t.named_grammar_child_from(c, "identifier"@, 0) {
            Some(x) => t.text(x),
            None => Seq::empty(),
        },
    }
}

/// The parameter declared by a named child `c` of a parameter list.
pub open spec fn java_parameter(t: &SyntaxTree, c: int) -> ParameterSpec {
    ParameterSpec {
        type_specifier: parameter_type(t, c),
        modifiers: parameter_modifiers(t, c),
        variadic: t.kind(c) == "spread_parameter"@,
        name: parameter_name(t, c),
        reference: false,
        pointer_depth: 0,
        default: None,
    }
}

/// One parameter per named child of a Java parameter list.
pub open spec fn java_parameters(t: &SyntaxTree, list: Option<usize>) -> Seq<ParameterSpec> {
    match list {
        Some(n) => if t.valid(n as int) {
            t.named_children(n as int).map_values(|c: int| java_parameter(t, c))
        } else {
            Seq::empty()
        },
        None => Seq::empty(),
    }
}

fn modifiers_of_parameter(t: &SyntaxTree, c: usize) -> (res: Vec<Modifier>)
    requires
        t.wf(),
        t.valid(c as int),
    ensures
        res.deep_view() == parameter_modifiers(t, c as int),
{
    let mut out: Vec<Modifier> = Vec::new();
    match t.first_named_child_of_kind(c, "modifiers") {
        Some(m) => {
            let ghost target = parameter_modifiers(t, c as int);
            let count = t.nodes[m].children.len();
            let mut i: usize = 0;
            while i < count
                invariant
                    t.wf(),
                    t.valid(m as int),
                    count == t.child_count(m as int),
                    target == t.children(m as int).map_values(|x: int| modifier_of(t.text(x))),
                    i <= count,
                    out.deep_view() == target.take(i as int),
                decreases count - i,
            {
                proof {
                    assert(t.node_wf(m as int));
                    assert(m < t.child(m as int, i as int) < t.len());
                }
                let x = t.nodes[m].children[i];
                let modifier = Modifier::from(t.text_of(x));
                let ghost before = out.deep_view();
                out.push(modifier);
                assert(out.deep_view() =~= before.push(modifier.deep_view()));
                assert(target.take(i + 1) =~= target.take(i as int).push(target[i as int]));
                i = i + 1;
            }
            assert(target.take(count as int) =~= target);
            out
        },
        None => {
            assert(out.deep_view() =~= Seq::<ModifierSpec>::empty());
            out
        },
    }
}

fn parameter_of(t: &SyntaxTree, c: usize) -> (res: Parameter)
    requires
        t.wf(),
        t.valid(c as int),
    ensures
        res.deep_view() == java_parameter(t, c as int),
{
    let modifiers = modifiers_of_parameter(t, c);
    let name = match t.child_by_field_name(c, "name") {
        Some(x) => owned(t.text_of(x)),
        None => match t.first_named_child_of_kind(c, "variable_declarator") {
            Some(v) => t.field_text_of(v, "name"),
            None => String::new(),
        },
    };
    let type_specifier = match t.child_by_field_name(c, "type") {
        Some(x) => owned(t.text_of(x)),
        None => match t.first_named_child_of_grammar(c, "identifier") {
            Some(x) => owned(t.text_of(x)),
            None => String::new(),
        },
    };
    Parameter {
        name,
        type_specifier,
        modifiers,
        variadic: t.kind_is(c, "spread_parameter"),
        default: None,
        reference: false,
        pointer_depth: 0,
    }
}

/// The parameters of a Java parameter list `node`.
pub fn extract_parameters(t: &SyntaxTree, node: Option<usize>) -> (res: Vec<Parameter>)
    requires
        t.wf(),
    ensures
        res.deep_view() == java_parameters(t, node),
{
    let mut out: Vec<Parameter> = Vec::new();
    let n = match node {
        Some(n) => n,
        None => {
            assert(out.deep_view() =~= Seq::<ParameterSpec>::empty());
            return out;
        },
    };
    if n >= t.nodes.len() {
        assert(out.deep_view() =~= Seq::<ParameterSpec>::empty());
        return out;
    }
    let kids = t.named_children_of(n);
    let ghost target = java_parameters(t, node);
    let mut i: usize = 0;
    while i < kids.len()
        invariant
            t.wf(),
            node == Some(n),
            t.valid(n as int),
            as_ints(kids@) == t.named_children(n as int),
            forall|i: int| 0 <= i < kids@.len() ==> n < #[trigger] kids@[i] < t.len(),
            target == java_parameters(t, node),
            i <= kids@.len(),
            out.deep_view() == target.take(i as int),
        decreases kids@.len() - i,
    {
        assert(as_ints(kids@)[i as int] == kids@[i as int] as int);
        let p = parameter_of(t, kids[i]);
        let ghost before = out.deep_view();
        out.push(p);
        assert(out.deep_view() =~= before.push(p.deep_view()));
        assert(target.take(i + 1) =~= target.take(i as int).push(target[i as int]));
        i = i + 1;
    }
    assert(target.take(kids@.len() as int) =~= target);
    out
}

/// The initial value of a field declaration, or the empty text.
pub open spec fn field_value(t: &SyntaxTree, n: int) -> Seq<char> {
    match t.named_kind_child(n, "variable_declarator"@) {
        Some(v) => t.field_text(v, "value"@),
        None => Seq::empty(),
    }
}

/// The kind of the Java node `n`.
pub open spec fn java_symbolkind(t: &SyntaxTree, n: int) -> SymbolKindSpec {
    let k = t.kind(n);
    if k == "method_declaration"@ {
        match t.field_child(n, "type"@) {
            Some(ty) => SymbolKindSpec::FunctionDefinition {
                value: Seq::empty(),
                params: java_parameters(t, field_index(t, n, "parameters"@)),
                return_type: type_of_node(t, ty),
            },
            None => SymbolKindSpec::Unknown,
        }
    } else if k == "field_declaration"@ {
        match t.field_child(n, "type"@) {
            Some(ty) => SymbolKindSpec::MemberVariable {
                value: field_value(t, n),
                dtype: type_of_node(t, ty),
            },
            None => SymbolKindSpec::Unknown,
        }
    } else if k == "constructor_declaration"@ {
        SymbolKindSpec::Constructor {
            value: Seq::empty(),
            params: java_parameters(t, field_index(t, n, "parameters"@)),
        }
    } else if k == "method_invocation"@ {
        SymbolKindSpec::FunctionCall
    } else if k == "class_declaration"@ {
        SymbolKindSpec::Class
    } else if k == "program"@ {
        SymbolKindSpec::Module
    } else {
        SymbolKindSpec::Unknown
    }
}

/// The child filling field `f` of `n`, as a `usize` index.
pub open spec fn field_index(t: &SyntaxTree, n: int, f: Seq<char>) -> Option<usize> {
    match t.field_child(n, f) {
        Some(c) => Some(c as usize),
        None => None,
    }
}

/// What a Java modifier list says: the first word that names a visibility
/// gives the visibility, later visibility words are passed over, and every
/// other word is a modifier, in order.
pub open spec fn modifier_words(pieces: Seq<Seq<char>>) -> (Option<Visibility>, Seq<ModifierSpec>)
    decreases pieces.len(),
{
    if pieces.len() == 0 {
        (None, Seq::empty())
    } else {
        let (found, modifiers) = modifier_words(pieces.drop_last());
        let word = pieces.last();
        if visibility_of(word) != Visibility::Unknown {
            (
                match found {
                    Some(v) => Some(v),
                    None => Some(visibility_of(word)),
                },
                modifiers,
            )
        } else {
            (found, modifiers.push(modifier_of(word)))
        }
    }
}

/// The visibility (package when none is written) and modifiers of a Java
/// declaration, read from its `modifiers` child split at spaces.
pub open spec fn java_attributes(t: &SyntaxTree, n: int) -> (Visibility, Seq<ModifierSpec>) {
    match t.kind_child(n, "modifiers"@) {
        Some(m) => {
            let (found, modifiers) = modifier_words(split(t.text(m), ' '));
            (
                match found {
                    Some(v) => v,
                    None => Visibility::Package,
                },
                modifiers,
            )
        },
        None => (Visibility::Package, Seq::empty()),
    }
}

/// The bound a child of a type bound names: a type identifier, or the
/// identifier of a generic type.
pub open spec fn bound_name(t: &SyntaxTree, b: int) -> Option<Seq<char>> {
    if t.kind(b) == "type_identifier"@ {
        Some(t.text(b))
    } else if t.kind(b) == "generic_type"@ {
        match t.named_kind_child(b, "type_identifier"@) {
            Some(x) => Some(t.text(x)),
            None => None,
        }
    } else {
        None
    }
}

/// The bounds named among the first `j` of the nodes `ids`.
pub open spec fn bound_names(t: &SyntaxTree, ids: Seq<int>, j: int) -> Seq<Seq<char>>
    decreases j,
{
    if j <= 0 || j > ids.len() {
        Seq::empty()
    } else {
        match bound_name(t, ids[j - 1]) {
            Some(b) => bound_names(t, ids, j - 1).push(b),
            None => bound_names(t, ids, j - 1),
        }
    }
}

/// The bounds of a type parameter.
pub open spec fn parameter_bounds(t: &SyntaxTree, c: int) -> Seq<Seq<char>> {
    match t.named_kind_child(c, "type_bound"@) {
        Some(tb) => bound_names(t, t.named_children(tb), t.named_children(tb).len() as int),
        None => Seq::empty(),
    }
}

/// The position of the generic named `name` among `gs` from the `j`-th on.
pub open spec fn generic_position(gs: Seq<GenericSpec>, name: Seq<char>, j: int) -> Option<int>
    decreases gs.len() - j,
{
    if j < 0 || j >= gs.len() {
        None
    } else if gs[j].name == name {
        Some(j)
    } else {
        generic_position(gs, name, j + 1)
    }
}

/// `gs` with the bounds added to the generic named `name`, which is added
/// last when it is new.
pub open spec fn add_generic(gs: Seq<GenericSpec>, name: Seq<char>, bounds: Seq<Seq<char>>) -> Seq<GenericSpec> {
    match generic_position(gs, name, 0) {
        Some(i) => gs.update(i, GenericSpec { name, bounds: gs[i].bounds + bounds }),
        None => gs.push(GenericSpec { name, bounds }),
    }
}

/// The generics declared by the first `j` of the nodes `ids`, one per
/// distinct name, in the order the names first appear.
pub open spec fn declared_generics(t: &SyntaxTree, ids: Seq<int>, j: int) -> Seq<GenericSpec>
    decreases j,
{
    if j <= 0 || j > ids.len() {
        Seq::empty()
    } else {
        let prev = declared_generics(t, ids, j - 1);
        let c = ids[j - 1];
        if t.kind(c) == "type_parameter"@ {
            match t.named_kind_child(c, "type_identifier"@) {
                Some(x) => add_generic(prev, t.text(x), parameter_bounds(t, c)),
                None => prev,
            }
        } else {
            prev
        }
    }
}

/// The type parameters of the Java declaration `n`.
pub open spec fn java_generics(t: &SyntaxTree, n: int) -> Seq<GenericSpec> {
    match t.field_child(n, "type_parameters"@) {
        Some(tp) => declared_generics(t, t.named_children(tp), t.named_children(tp).len() as int),
        None => Seq::empty(),
    }
}

/// Whether the permits clause of `n`, if present, begins with `permits `.
pub open spec fn java_permits_readable(t: &SyntaxTree, n: int) -> bool {
    match t.field_child(n, "permits"@) {
        Some(p) => starts_with(t.text(p), "permits "@),
        None => true,
    }
}

/// The comma-separated pieces of the permits clause of `n`.
pub open spec fn java_permits(t: &SyntaxTree, n: int) -> Option<Seq<Seq<char>>> {
    match t.field_child(n, "permits"@) {
        Some(p) => Some(split(t.text(p).skip("permits "@.len() as int), ',')),
        None => None,
    }
}

/// The implemented interfaces then the superclass of `n`; nothing when it
/// has an interface clause without a type list.
pub open spec fn java_inheritance(t: &SyntaxTree, n: int) -> Option<Seq<Seq<char>>> {
    let superclass = match t.field_child(n, "superclass"@) {
        Some(s) => t.texts(t.named_children(s)),
        None => Seq::empty(),
    };
    match t.field_child(n, "interfaces"@) {
        Some(i) => match t.named_kind_child(i, "type_list"@) {
            Some(tl) => Some(t.texts(t.named_children(tl)) + superclass),
            None => None,
        },
        None => Some(superclass),
    }
}

/// The name of a Java declaration: its `name` field, or the name of its
/// variable declarator, or the empty text.
pub open spec fn java_name(t: &SyntaxTree, n: int) -> Seq<char> {
    match t.field_child(n, "name"@) {
        Some(c) => t.text(c),
        None => match t.named_kind_child(n, "variable_declarator"@) {
            Some(v) => t.field_text(v, "name"@),
            None => Seq::empty(),
        },
    }
}

/// The exceptions listed in the throws clause of `n`.
pub open spec fn thrown(t: &SyntaxTree, n: int) -> Seq<Seq<char>> {
    match t.named_kind_child(n, "throws"@) {
        Some(th) => t.texts(t.named_children(th)),
        None => Seq::empty(),
    }
}

/// The metadata after recording the thrown exceptions of `n`, joined by
/// commas under `throws`, when there are any.
pub open spec fn java_metadata(t: &SyntaxTree, n: int, entries: Seq<(Seq<char>, Seq<char>)>) -> Seq<(Seq<char>, Seq<char>)> {
    let exceptions = thrown(t, n);
    if exceptions.len() > 0 {
        metadata_insert(entries, "throws"@, join(exceptions, ","@))
    } else {
        entries
    }
}

fn named_child_texts(t: &SyntaxTree, n: usize) -> (res: Vec<String>)
    requires
        t.wf(),
        t.valid(n as int),
    ensures
        res.deep_view() == t.texts(t.named_children(n as int)),
{
    let kids = t.named_children_of(n);
    t.texts_of(&kids)
}

fn bounds_of(t: &SyntaxTree, c: usize) -> (res: Vec<String>)
    requires
        t.wf(),
        t.valid(c as int),
    ensures
        res.deep_view() == parameter_bounds(t, c as int),
{
    let mut out: Vec<String> = Vec::new();
    match t.first_named_child_of_kind(c, "type_bound") {
        Some(tb) => {
            let kids = t.named_children_of(tb);
            let mut i: usize = 0;
            while i < kids.len()
                invariant
                    t.wf(),
                    as_ints(kids@) == t.named_children(tb as int),
                    forall|i: int| 0 <= i < kids@.len() ==> tb < #[trigger] kids@[i] < t.len(),
                    i <= kids@.len(),
                    out.deep_view() == bound_names(t, as_ints(kids@), i as int),
                decreases kids@.len() - i,
            {
                let b = kids[i];
                assert(as_ints(kids@)[i as int] == b as int);
                let ghost before = out.deep_view();
                if t.kind_is(b, "type_identifier") {
                    let s = owned(t.text_of(b));
                    out.push(s);
                    assert(out.deep_view() =~= before.push(s@));
                } else if t.kind_is(b, "generic_type") {
                    if let Some(x) = t.first_named_child_of_kind(b, "type_identifier") {
                        let s = owned(t.text_of(x));
                        out.push(s);
                        assert(out.deep_view() =~= before.push(s@));
                    }
                }
                i = i + 1;
            }
            out
        },
        None => {
            assert(out.deep_view() =~= Seq::<Seq<char>>::empty());
            out
        },
    }
}

fn add_generic_to(generics: &mut Vec<Generic>, name: String, bounds: Vec<String>)
    ensures
        final(generics).deep_view() == add_generic(old(generics).deep_view(), name@, bounds.deep_view()),
{
    let ghost before = generics.deep_view();
    let mut j: usize = 0;
    while j < generics.len()
        invariant
            before == generics.deep_view(),
            before == old(generics).deep_view(),
            j <= generics@.len(),
            generic_position(before, name@, 0) == generic_position(before, name@, j as int),
        decreases generics@.len() - j,
    {
        if text_eq(generics[j].name.as_str(), name.as_str()) {
            assert(before[j as int].name == name@);
            assert(generic_position(before, name@, j as int) == Some(j as int));
            let mut g = generics.remove(j);
            let ghost old_bounds = g.bounds.deep_view();
            let ghost added = bounds.deep_view();
            let mut more = bounds;
            g.bounds.append(&mut more);
            assert(g.bounds.deep_view() =~= old_bounds + added);
            g.name = name;
            generics.insert(j, g);
            assert(generics.deep_view() =~= before.update(
                j as int,
                GenericSpec { name: g.name@, bounds: old_bounds + added },
            ));
            return;
        }
        j = j + 1;
    }
    let g = Generic { name, bounds };
    generics.push(g);
    assert(generics.deep_view() =~= before.push(g.deep_view()));
}

/// The Java grammar.
#[derive(Debug, Clone, Copy)]
pub struct Java;

impl Grammer for Java {
    open spec fn spec_declaration_nodes(&self) -> Seq<Seq<char>> {
        seq![
            "class_declaration"@,
            "record_declaration"@,
            "interface_declaration"@,
            "method_declaration"@,
            "field_declaration"@,
            "constructor_declaration"@,
            "enum_declaration"@,
            "method_invocation"@,
        ]
    }

    open spec fn spec_flatten_nodes(&self) -> Seq<Seq<char>> {
        seq![
            "class_body"@,
            "block"@,
            "return_statement"@,
            "expression_statement"@,
            "labeled_statement"@,
            "assert_statement"@,
            "do_statement"@,
            "yield_statement"@,
            "try_statement"@,
            "catch_clause"@,
            "finally_clause"@,
            "parenthesized_expression"@,
            "binary_expression"@,
            "assignment_expression"@,
            "if_statement"@,
            "for_statement"@,
            "argument_list"@,
        ]
    }

    open spec fn spec_symbolkind(&self, t: &SyntaxTree, n: int) -> SymbolKindSpec {
        java_symbolkind(t, n)
    }

    open spec fn spec_name(&self, t: &SyntaxTree, n: int) -> Seq<char> {
        java_name(t, n)
    }

    open spec fn spec_attributes(&self, t: &SyntaxTree, n: int) -> (Visibility, Seq<ModifierSpec>) {
        java_attributes(t, n)
    }

    open spec fn spec_generics(&self, t: &SyntaxTree, n: int) -> Seq<GenericSpec> {
        java_generics(t, n)
    }

    open spec fn permits_readable(&self, t: &SyntaxTree, n: int) -> bool {
        java_permits_readable(t, n)
    }

    open spec fn spec_permits(&self, t: &SyntaxTree, n: int) -> Option<Seq<Seq<char>>> {
        java_permits(t, n)
    }

    open spec fn spec_inheritance(&self, t: &SyntaxTree, n: int) -> Option<Seq<Seq<char>>> {
        java_inheritance(t, n)
    }

    open spec fn spec_language(&self) -> Language {
        Language::Java
    }

    open spec fn spec_visibility_change(
        &self,
        t: &SyntaxTree,
        n: int,
        current: Option<Visibility>,
    ) -> Option<Visibility> {
        current
    }

    open spec fn spec_metadata(
        &self,
        t: &SyntaxTree,
        n: int,
        entries: Seq<(Seq<char>, Seq<char>)>,
    ) -> Seq<(Seq<char>, Seq<char>)> {
        java_metadata(t, n, entries)
    }

    open spec fn spec_pair_kind(&self, t: &SyntaxTree, n: int) -> RelationshipKind {
        if t.kind(n) == "method_invocation"@ {
            RelationshipKind::Calls
        } else {
            RelationshipKind::Contains
        }
    }

    fn declaration_nodes(&self) -> (res: Vec<&'static str>) {
        let mut v: Vec<&'static str> = Vec::new();
        v.push("class_declaration");
        v.push("record_declaration");
        v.push("interface_declaration");
        v.push("method_declaration");
        v.push("field_declaration");
        v.push("constructor_declaration");
        v.push("enum_declaration");
        v.push("method_invocation");
        assert(strs_view(v@) =~= self.spec_declaration_nodes());
        v
    }

    fn flatten_nodes(&self) -> (res: Vec<&'static str>) {
        let mut v: Vec<&'static str> = Vec::new();
        v.push("class_body");
        v.push("block");
        v.push("return_statement");
        v.push("expression_statement");
        v.push("labeled_statement");
        v.push("assert_statement");
        v.push("do_statement");
        v.push("yield_statement");
        v.push("try_statement");
        v.push("catch_clause");
        v.push("finally_clause");
        v.push("parenthesized_expression");
        v.push("binary_expression");
        v.push("assignment_expression");
        v.push("if_statement");
        v.push("for_statement");
        v.push("argument_list");
        assert(strs_view(v@) =~= self.spec_flatten_nodes());
        v
    }

    fn to_symbolkind(&self, t: &SyntaxTree, n: usize) -> (res: SymbolKind) {
        if t.kind_is(n, "method_declaration") {
            match t.child_by_field_name(n, "type") {
                Some(ty) => {
                    let params = extract_parameters(t, t.child_by_field_name(n, "parameters"));
                    SymbolKind::FunctionDefinition(
                        FunctionDefinition {
                            value: String::new(),
                            params,
                            return_type: Type::from_node(t, ty),
                        },
                    )
                },
                None => SymbolKind::Unknown,
            }
        } else if t.kind_is(n, "field_declaration") {
            match t.child_by_field_name(n, "type") {
                Some(ty) => {
                    let value = match t.first_named_child_of_kind(n, "variable_declarator") {
                        Some(v) => t.field_text_of(v, "value"),
                        None => String::new(),
                    };
                    SymbolKind::MemberVariable(MemberVariable { value, dtype: Type::from_node(t, ty) })
                },
                None => SymbolKind::Unknown,
            }
        } else if t.kind_is(n, "constructor_declaration") {
            let params = extract_parameters(t, t.child_by_field_name(n, "parameters"));
            SymbolKind::Constructor(Constructor { value: String::new(), params })
        } else if t.kind_is(n, "method_invocation") {
            SymbolKind::FunctionCall
        } else if t.kind_is(n, "class_declaration") {
            SymbolKind::Class
        } else if t.kind_is(n, "program") {
            SymbolKind::Module
        } else {
            SymbolKind::Unknown
        }
    }

    fn to_name(&self, t: &SyntaxTree, n: usize) -> (res: String) {
        match t.child_by_field_name(n, "name") {
            Some(c) => owned(t.text_of(c)),
            None => match t.first_named_child_of_kind(n, "variable_declarator") {
                Some(v) => t.field_text_of(v, "name"),
                None => String::new(),
            },
        }
    }

    fn extract_declaration_attributes(&self, t: &SyntaxTree, n: usize) -> (res: (
        Visibility,
        Vec<Modifier>,
    )) {
        let mut visibility = Visibility::Package;
        let mut found: Option<Visibility> = None;
        let mut modifs: Vec<Modifier> = Vec::new();
        if let Some(modif_node) = t.first_child_of_kind(n, "modifiers") {
            let words = split_str(t.text_of(modif_node), ' ');
            let ghost pieces = words@.map_values(|p: String| p@);
            let mut i: usize = 0;
            while i < words.len()
                invariant
                    pieces == words@.map_values(|p: String| p@),
                    i <= words@.len(),
                    (found, modifs.deep_view()) == modifier_words(pieces.take(i as int)),
                decreases words@.len() - i,
            {
                assert(pieces.take(i + 1).drop_last() =~= pieces.take(i as int));
                assert(pieces.take(i + 1).last() == words@[i as int]@);
                let word_visibility = Visibility::from(words[i].as_str());
                if word_visibility != Visibility::Unknown {
                    if found.is_none() {
                        found = Some(word_visibility);
                    }
                } else {
                    let m = Modifier::from(words[i].as_str());
                    let ghost before = modifs.deep_view();
                    modifs.push(m);
                    assert(modifs.deep_view() =~= before.push(m.deep_view()));
                }
                i = i + 1;
            }
            assert(pieces.take(words@.len() as int) =~= pieces);
            if let Some(v) = found {
                visibility = v;
            }
        } else {
            assert(modifs.deep_view() =~= Seq::<ModifierSpec>::empty());
        }
        (visibility, modifs)
    }

    fn to_generics(&self, t: &SyntaxTree, n: usize) -> (res: Vec<Generic>) {
        let mut generics: Vec<Generic> = Vec::new();
        match t.child_by_field_name(n, "type_parameters") {
            Some(tp) => {
                let kids = t.named_children_of(tp);
                let mut i: usize = 0;
                assert(generics.deep_view() =~= Seq::<GenericSpec>::empty());
                while i < kids.len()
                    invariant
                        t.wf(),
                        as_ints(kids@) == t.named_children(tp as int),
                        forall|i: int| 0 <= i < kids@.len() ==> tp < #[trigger] kids@[i] < t.len(),
                        i <= kids@.len(),
                        generics.deep_view() == declared_generics(t, as_ints(kids@), i as int),
                    decreases kids@.len() - i,
                {
                    let c = kids[i];
                    assert(as_ints(kids@)[i as int] == c as int);
                    if t.kind_is(c, "type_parameter") {
                        if let Some(x) = t.first_named_child_of_kind(c, "type_identifier") {
                            let name = owned(t.text_of(x));
                            let bounds = bounds_of(t, c);
                            add_generic_to(&mut generics, name, bounds);
                        }
                    }
                    i = i + 1;
                }
                generics
            },
            None => {
                assert(generics.deep_view() =~= Seq::<GenericSpec>::empty());
                generics
            },
        }
    }

    fn permits_are_readable(&self, t: &SyntaxTree, n: usize) -> (res: bool) {
        match t.child_by_field_name(n, "permits") {
            Some(p) => has_prefix(t.text_of(p), "permits "),
            None => true,
        }
    }

    fn gather_all_permits(&self, t: &SyntaxTree, n: usize) -> (res: Option<Vec<String>>) {
        match t.child_by_field_name(n, "permits") {
            Some(p) => {
                let value = t.text_of(p);
                match strip_prefix(value, "permits ") {
                    Some(rest) => {
                        let pieces = split_str(rest, ',');
                        assert(pieces.deep_view() =~= pieces@.map_values(|s: String| s@));
                        Some(pieces)
                    },
                    None => None,
                }
            },
            None => None,
        }
    }

    fn gather_all_inheritance(&self, t: &SyntaxTree, n: usize) -> (res: Option<Vec<String>>) {
        let mut inherits: Vec<String> = Vec::new();
        if let Some(interface_node) = t.child_by_field_name(n, "interfaces") {
            match t.first_named_child_of_kind(interface_node, "type_list") {
                Some(classes) => {
                    inherits = named_child_texts(t, classes);
                },
                None => {
                    return None;
                },
            }
        } else {
            assert(inherits.deep_view() =~= Seq::<Seq<char>>::empty());
        }
        if let Some(superclass_node) = t.child_by_field_name(n, "superclass") {
            let mut more = named_child_texts(t, superclass_node);
            let ghost before = inherits.deep_view();
            let ghost extra = more.deep_view();
            inherits.append(&mut more);
            assert(inherits.deep_view() =~= before + extra);
        } else {
            assert(inherits.deep_view() =~= inherits.deep_view() + Seq::<Seq<char>>::empty());
        }
        Some(inherits)
    }

    fn language(&self) -> (res: Language) {
        Language::Java
    }

    fn apply_visibility_change(&self, t: &SyntaxTree, n: usize, scoped_vis: &mut Option<Visibility>) {
    }

    fn extract_metadata(&self, t: &SyntaxTree, n: usize, metadata: &mut Metadata) {
        let exceptions: Vec<String> = match t.first_named_child_of_kind(n, "throws") {
            Some(th) => named_child_texts(t, th),
            None => Vec::new(),
        };
        if exceptions.len() > 0 {
            let joined = join_strs(&exceptions, ",");
            assert(exceptions@.map_values(|p: String| p@) =~= exceptions.deep_view());
            metadata.insert(owned("throws"), joined);
        }
    }

    fn pair_relationships(
        &self,
        t: &SyntaxTree,
        n: usize,
        parent_id: u128,
        child_id: u128,
        relationships: &mut Vec<Relationship>,
    ) {
        let kind = if t.kind_is(n, "method_invocation") {
            RelationshipKind::Calls
        } else {
            RelationshipKind::Contains
        };
        push_pairing(relationships, parent_id, child_id, kind);
    }
}

proof fn lemma_bound_names_contain(t: &SyntaxTree, ids: Seq<int>, j: int)
    requires
        0 <= j <= ids.len(),
    ensures
        forall|i: int|
            0 <= i < j && i < ids.len() ==> (#[trigger] bound_name(t, ids[i]) matches Some(x) ==> bound_names(
                t,
                ids,
                j,
            ).contains(x)),
    decreases j,
{
    if 0 < j <= ids.len() {
        lemma_bound_names_contain(t, ids, j - 1);
        let prev = bound_names(t, ids, j - 1);
        assert forall|i: int|
            0 <= i < j && i < ids.len() implies (#[trigger] bound_name(t, ids[i]) matches Some(x) ==> bound_names(
                t,
                ids,
                j,
            ).contains(x)) by {
            if let Some(x) = bound_name(t, ids[i]) {
                if i < j - 1 {
                    let k = choose|k: int| 0 <= k < prev.len() && prev[k] == x;
                    if let Some(b) = bound_name(t, ids[j - 1]) {
                        assert(bound_names(t, ids, j)[k] == x);
                    }
                } else {
                    assert(bound_names(t, ids, j)[prev.len() as int] == x);
                }
            }
        }
    }
}

/// Every bound written in a Java type parameter is kept: a bound that is a
/// type identifier is kept as its text, and a generic bound as the text of
/// its type identifier.
pub proof fn law_java_bounds_are_kept(t: &SyntaxTree, c: int)
    ensures
        forall|b: int|
            (t.kind(b) == "type_identifier"@) ==> (#[trigger] bound_name(t, b) == Some(t.text(b))),
        t.named_kind_child(c, "type_bound"@) matches Some(tb) ==> forall|i: int|
            0 <= i < t.named_children(tb).len() && (t.kind(t.named_children(tb)[i]) == "type_identifier"@)
                ==> parameter_bounds(t, c).contains(t.text(#[trigger] t.named_children(tb)[i])),
{
    if let Some(tb) = t.named_kind_child(c, "type_bound"@) {
        let ids = t.named_children(tb);
        lemma_bound_names_contain(t, ids, ids.len() as int);
        assert forall|i: int|
            0 <= i < ids.len() && (t.kind(ids[i]) == "type_identifier"@) implies parameter_bounds(
                t,
                c,
            ).contains(t.text(#[trigger] ids[i])) by {
            assert(bound_name(t, ids[i]) == Some(t.text(ids[i])));
        }
    }
}

/// Whether `gs` has a generic named `name` whose bounds include every one of
/// `bounds`.
pub open spec fn has_generic_with(gs: Seq<GenericSpec>, name: Seq<char>, bounds: Seq<Seq<char>>) -> bool {
    exists|k: int|
        0 <= k < gs.len() && #[trigger] gs[k].name == name && forall|b: Seq<char>|
            bounds.contains(b) ==> gs[k].bounds.contains(b)
}

proof fn lemma_generic_position(gs: Seq<GenericSpec>, name: Seq<char>, j: int)
    ensures
        generic_position(gs, name, j) matches Some(i) ==> 0 <= i < gs.len() && gs[i].name == name,
    decreases gs.len() - j,
{
    if 0 <= j < gs.len() && gs[j].name != name {
        lemma_generic_position(gs, name, j + 1);
    }
}

proof fn lemma_add_generic_keeps(gs: Seq<GenericSpec>, name: Seq<char>, bounds: Seq<Seq<char>>, n2: Seq<char>, b2: Seq<Seq<char>>)
    requires
        has_generic_with(gs, n2, b2),
    ensures
        has_generic_with(add_generic(gs, name, bounds), n2, b2),
{
    lemma_generic_position(gs, name, 0);
    let k = choose|k: int|
        0 <= k < gs.len() && #[trigger] gs[k].name == n2 && forall|b: Seq<char>|
            b2.contains(b) ==> gs[k].bounds.contains(b);
    let after = add_generic(gs, name, bounds);
    match generic_position(gs, name, 0) {
        Some(i) => {
            if i == k {
                assert forall|b: Seq<char>| b2.contains(b) implies after[k].bounds.contains(b) by {
                    let m = choose|m: int| 0 <= m < gs[k].bounds.len() && gs[k].bounds[m] == b;
                    assert(after[k].bounds[m] == b);
                }
            }
            assert(after[k].name == n2);
        },
        None => {
            assert(after[k] == gs[k]);
        },
    }
}

proof fn lemma_add_generic_adds(gs: Seq<GenericSpec>, name: Seq<char>, bounds: Seq<Seq<char>>)
    ensures
        has_generic_with(add_generic(gs, name, bounds), name, bounds),
{
    lemma_generic_position(gs, name, 0);
    let after = add_generic(gs, name, bounds);
    match generic_position(gs, name, 0) {
        Some(i) => {
            assert forall|b: Seq<char>| bounds.contains(b) implies after[i].bounds.contains(b) by {
                let m = choose|m: int| 0 <= m < bounds.len() && bounds[m] == b;
                assert(after[i].bounds[gs[i].bounds.len() + m] == b);
            }
            assert(after[i].name == name);
        },
        None => {
            let k = gs.len() as int;
            assert(after[k].name == name);
            assert(after[k].bounds == bounds);
        },
    }
}

/// Whether the `i`-th of the nodes `ids` is a type parameter named by a
/// type identifier.
pub open spec fn named_type_parameter(t: &SyntaxTree, ids: Seq<int>, i: int) -> bool {
    &&& t.kind(ids[i]) == "type_parameter"@
    &&& t.named_kind_child(ids[i], "type_identifier"@) is Some
}

proof fn lemma_declared_generics(t: &SyntaxTree, ids: Seq<int>, j: int)
    requires
        0 <= j <= ids.len(),
    ensures
        forall|i: int|
            0 <= i < j && i < ids.len() && #[trigger] named_type_parameter(t, ids, i) ==> has_generic_with(
                declared_generics(t, ids, j),
                t.text(t.named_kind_child(ids[i], "type_identifier"@).unwrap()),
                parameter_bounds(t, ids[i]),
            ),
    decreases j,
{
    if 0 < j <= ids.len() {
        lemma_declared_generics(t, ids, j - 1);
        let prev = declared_generics(t, ids, j - 1);
        let c = ids[j - 1];
        assert forall|i: int|
            0 <= i < j && i < ids.len() && #[trigger] named_type_parameter(t, ids, i) implies has_generic_with(
                declared_generics(t, ids, j),
                t.text(t.named_kind_child(ids[i], "type_identifier"@).unwrap()),
                parameter_bounds(t, ids[i]),
            ) by {
            if t.kind(c) == "type_parameter"@ {
                if let Some(x) = t.named_kind_child(c, "type_identifier"@) {
                    if i < j - 1 {
                        lemma_add_generic_keeps(
                            prev,
                            t.text(x),
                            parameter_bounds(t, c),
                            t.text(t.named_kind_child(ids[i], "type_identifier"@).unwrap()),
                            parameter_bounds(t, ids[i]),
                        );
                    } else {
                        lemma_add_generic_adds(prev, t.text(x), parameter_bounds(t, c));
                    }
                }
            }
        }
    }
}

/// Every type parameter declared on a Java declaration yields a generic of
/// its name that carries all of its bounds; `class Box<T extends Number>`
/// has a generic `T` bounded by `Number`.
pub proof fn law_java_type_parameters_are_generics(t: &SyntaxTree, n: int)
    ensures
        t.field_child(n, "type_parameters"@) matches Some(tp) ==> forall|i: int|
            0 <= i < t.named_children(tp).len() && #[trigger] named_type_parameter(t, t.named_children(tp), i)
                ==> has_generic_with(
                java_generics(t, n),
                t.text(t.named_kind_child(t.named_children(tp)[i], "type_identifier"@).unwrap()),
                parameter_bounds(t, t.named_children(tp)[i]),
            ),
        Java.spec_generics(t, n) == java_generics(t, n),
{
    if let Some(tp) = t.field_child(n, "type_parameters"@) {
        let ids = t.named_children(tp);
        lemma_declared_generics(t, ids, ids.len() as int);
    }
}

/// A Java declaration inherits from its superclass: the names in its
/// `extends` clause end its inheritance list, after the names in its
/// `implements` list; the list is there unless an `implements` clause has no
/// type list.
pub proof fn law_java_superclass_is_inherited(t: &SyntaxTree, n: int)
    ensures
        ({
            let sup = match t.field_child(n, "superclass"@) {
                Some(s) => t.texts(t.named_children(s)),
                None => Seq::<Seq<char>>::empty(),
            };
            let complete = match t.field_child(n, "interfaces"@) {
                Some(i) => t.named_kind_child(i, "type_list"@) is Some,
                None => true,
            };
            complete ==> (java_inheritance(t, n) matches Some(l) && l.len() >= sup.len() && l.subrange(
                l.len() - sup.len(),
                l.len() as int,
            ) == sup && forall|k: int| 0 <= k < sup.len() ==> l.contains(#[trigger] sup[k]))
        }),
        (t.field_child(n, "interfaces"@) is None && t.field_child(n, "superclass"@) is Some) ==> (
        java_inheritance(t, n) matches Some(l) && l.len() == t.named_children(
            t.field_child(n, "superclass"@).unwrap(),
        ).len()),
        Java.spec_inheritance(t, n) == java_inheritance(t, n),
{
    let sup = match t.field_child(n, "superclass"@) {
        Some(s) => t.texts(t.named_children(s)),
        None => Seq::<Seq<char>>::empty(),
    };
    if let Some(l) = java_inheritance(t, n) {
        let head = (l.len() - sup.len()) as int;
        assert(l.subrange(head, l.len() as int) =~= sup);
        assert forall|k: int| 0 <= k < sup.len() implies l.contains(#[trigger] sup[k]) by {
            assert(l[head + k] == sup[k]);
        }
    }
}

/// The Java walk goes through statements and blocks: the body of a method,
/// `if`, `for`, `try`, `catch`, `finally`, `return`, expression statements
/// and argument lists are walked through, so that a call inside any of
/// them is met; and a method invocation is a call, tied to the declaration
/// around it by a `Calls` relationship.
pub proof fn law_java_walks_through_statements(t: &SyntaxTree, n: int)
    ensures
        Java.spec_flatten_nodes().contains("class_body"@),
        Java.spec_flatten_nodes().contains("block"@),
        Java.spec_flatten_nodes().contains("if_statement"@),
        Java.spec_flatten_nodes().contains("for_statement"@),
        Java.spec_flatten_nodes().contains("try_statement"@),
        Java.spec_flatten_nodes().contains("catch_clause"@),
        Java.spec_flatten_nodes().contains("finally_clause"@),
        Java.spec_flatten_nodes().contains("return_statement"@),
        Java.spec_flatten_nodes().contains("expression_statement"@),
        Java.spec_flatten_nodes().contains("argument_list"@),
        Java.spec_declaration_nodes().contains("method_invocation"@),
        Java.spec_declaration_nodes().contains("method_declaration"@),
        Java.spec_declaration_nodes().contains("class_declaration"@),
        (t.kind(n) == "method_invocation"@) ==> (Java.spec_symbolkind(t, n) == SymbolKindSpec::FunctionCall
            && Java.spec_pair_kind(t, n) == RelationshipKind::Calls),
{
    let f = Java.spec_flatten_nodes();
    let d = Java.spec_declaration_nodes();
    assert(f[0] == "class_body"@);
    assert(f[1] == "block"@);
    assert(f[2] == "return_statement"@);
    assert(f[3] == "expression_statement"@);
    assert(f[8] == "try_statement"@);
    assert(f[9] == "catch_clause"@);
    assert(f[10] == "finally_clause"@);
    assert(f[14] == "if_statement"@);
    assert(f[15] == "for_statement"@);
    assert(f[16] == "argument_list"@);
    assert(d[0] == "class_declaration"@);
    assert(d[3] == "method_declaration"@);
    assert(d[7] == "method_invocation"@);
    reveal_strlit("method_invocation");
    reveal_strlit("method_declaration");
    reveal_strlit("field_declaration");
    reveal_strlit("constructor_declaration");
    reveal_strlit("class_declaration");
    reveal_strlit("program");
    assert("method_invocation"@.len() == 17);
    assert("method_declaration"@.len() == 18);
    assert("field_declaration"@.len() == 17);
    assert("method_invocation"@[0] != "field_declaration"@[0]);
    assert("constructor_declaration"@.len() == 23);
}

/// The Java walk goes into an `if` statement met among the children of a
/// declaration, on behalf of that declaration: what the statement holds is
/// collected before the walk moves on to the next child.
pub proof fn law_java_walk_enters_if_statements(
    t: &SyntaxTree,
    file: Seq<char>,
    n: int,
    parent: nat,
    j: int,
    st: crate::builder::BuildState,
)
    requires
        0 <= j < t.child_count(n),
        n < t.child(n, j) < t.len(),
        t.kind(t.child(n, j)) == "if_statement"@,
        st.next < usize::MAX,
    ensures
        crate::builder::collect_children(&Java, t, file, n, parent, j, st) == crate::builder::collect_children(
            &Java,
            t,
            file,
            n,
            parent,
            j + 1,
            crate::builder::collect_children(&Java, t, file, t.child(n, j), parent, 0, st),
        ),
{
    law_java_kind_lists_apart();
    law_java_walks_through_statements(t, n);
}

proof fn lemma_no_visibility_word(pieces: Seq<Seq<char>>)
    requires
        forall|k: int| 0 <= k < pieces.len() ==> visibility_of(#[trigger] pieces[k]) == Visibility::Unknown,
    ensures
        modifier_words(pieces).0 is None,
        modifier_words(pieces).1 == pieces.map_values(|w: Seq<char>| modifier_of(w)),
    decreases pieces.len(),
{
    if pieces.len() > 0 {
        let prefix = pieces.drop_last();
        assert forall|k: int| 0 <= k < prefix.len() implies visibility_of(#[trigger] prefix[k])
            == Visibility::Unknown by {
            assert(prefix[k] == pieces[k]);
        }
        lemma_no_visibility_word(prefix);
        assert(visibility_of(pieces[pieces.len() - 1]) == Visibility::Unknown);
        assert(modifier_words(pieces).1 =~= pieces.map_values(|w: Seq<char>| modifier_of(w)));
    } else {
        assert(modifier_words(pieces).1 =~= pieces.map_values(|w: Seq<char>| modifier_of(w)));
    }
}

/// In a Java modifier list the first word that names a visibility gives
/// the visibility, whatever visibility words follow it; a list with no such
/// word gives none, and then each of its words is a modifier, in order.
pub proof fn law_java_first_visibility_word_wins(pieces: Seq<Seq<char>>, i: int)
    requires
        0 <= i < pieces.len(),
        visibility_of(pieces[i]) != Visibility::Unknown,
        forall|k: int| 0 <= k < i ==> visibility_of(#[trigger] pieces[k]) == Visibility::Unknown,
    ensures
        modifier_words(pieces).0 == Some(visibility_of(pieces[i])),
        modifier_words(pieces.take(i)).1 == pieces.take(i).map_values(|w: Seq<char>| modifier_of(w)),
    decreases pieces.len(),
{
    let prefix = pieces.drop_last();
    assert forall|k: int| 0 <= k < i implies visibility_of(#[trigger] pieces.take(i)[k]) == Visibility::Unknown by {
        assert(pieces.take(i)[k] == pieces[k]);
    }
    lemma_no_visibility_word(pieces.take(i));
    if i == pieces.len() - 1 {
        assert(prefix =~= pieces.take(i));
    } else {
        assert(prefix[i] == pieces[i]);
        assert forall|k: int| 0 <= k < i implies visibility_of(#[trigger] prefix[k]) == Visibility::Unknown by {
            assert(prefix[k] == pieces[k]);
        }
        law_java_first_visibility_word_wins(prefix, i);
    }
}

/// A Java declaration without modifiers is package-visible and has no
/// modifiers; with modifiers, its visibility is the first visibility word of
/// its modifier list, or package visibility when there is none.
pub proof fn law_java_declared_visibility(t: &SyntaxTree, n: int)
    ensures
        (t.kind_child(n, "modifiers"@) is None) ==> (java_attributes(t, n) == (
            Visibility::Package,
            Seq::<ModifierSpec>::empty(),
        )),
        t.kind_child(n, "modifiers"@) matches Some(m) ==> ({
            let words = split(t.text(m), ' ');
            &&& (forall|k: int| 0 <= k < words.len() ==> visibility_of(#[trigger] words[k]) == Visibility::Unknown)
                ==> java_attributes(t, n).0 == Visibility::Package
            &&& forall|i: int|
                0 <= i < words.len() && visibility_of(words[i]) != Visibility::Unknown && (forall|k: int|
                    0 <= k < i ==> visibility_of(#[trigger] words[k]) == Visibility::Unknown) ==> java_attributes(
                    t,
                    n,
                ).0 == visibility_of(#[trigger] words[i])
        }),
        Java.spec_attributes(t, n) == java_attributes(t, n),
{
    if let Some(m) = t.kind_child(n, "modifiers"@) {
        let words = split(t.text(m), ' ');
        if forall|k: int| 0 <= k < words.len() ==> visibility_of(#[trigger] words[k]) == Visibility::Unknown {
            lemma_no_visibility_word(words);
        }
        assert forall|i: int|
            0 <= i < words.len() && visibility_of(words[i]) != Visibility::Unknown && (forall|k: int|
                0 <= k < i ==> visibility_of(#[trigger] words[k]) == Visibility::Unknown) implies java_attributes(
                t,
                n,
            ).0 == visibility_of(#[trigger] words[i]) by {
            law_java_first_visibility_word_wins(words, i);
        }
    }
}

/// The kind of a Java declaration follows its node: a class declaration is
/// a class, a method declaration with a type a function returning that
/// type, a field declaration with a type a member variable of that type, a
/// constructor a constructor and a method invocation a call.
pub proof fn law_java_kinds(t: &SyntaxTree, n: int)
    ensures
        (t.kind(n) == "class_declaration"@) ==> (java_symbolkind(t, n) == SymbolKindSpec::Class),
        (t.kind(n) == "method_invocation"@) ==> (java_symbolkind(t, n) == SymbolKindSpec::FunctionCall),
        (t.kind(n) == "constructor_declaration"@) ==> (java_symbolkind(t, n) is Constructor),
        t.field_child(n, "type"@) matches Some(ty) ==> ((t.kind(n) == "method_declaration"@) ==> (java_symbolkind(
            t,
            n,
        ) matches SymbolKindSpec::FunctionDefinition { return_type, .. } && return_type.name == t.text(ty))),
        t.field_child(n, "type"@) matches Some(ty) ==> ((t.kind(n) == "field_declaration"@) ==> (java_symbolkind(
            t,
            n,
        ) matches SymbolKindSpec::MemberVariable { dtype, .. } && dtype.name == t.text(ty))),
        (java_symbolkind(t, n) is Class) ==> (t.kind(n) == "class_declaration"@),
        Java.spec_symbolkind(t, n) == java_symbolkind(t, n),
{
    reveal_strlit("method_declaration");
    reveal_strlit("field_declaration");
    reveal_strlit("constructor_declaration");
    reveal_strlit("method_invocation");
    reveal_strlit("class_declaration");
    reveal_strlit("program");
    assert("method_declaration"@.len() == 18);
    assert("field_declaration"@.len() == 17);
    assert("constructor_declaration"@.len() == 23);
    assert("method_invocation"@.len() == 17);
    assert("class_declaration"@.len() == 17);
    assert("method_invocation"@[0] != "field_declaration"@[0]);
    assert("class_declaration"@[0] != "field_declaration"@[0]);
    assert("class_declaration"@[0] != "method_invocation"@[0]);
}

proof fn lemma_join_split(text: Seq<char>, sep: char)
    ensures
        join(split(text, sep), seq![sep]) == text,
        split(text, sep).len() >= 1,
    decreases text.len(),
{
    if text.len() > 0 {
        let prefix = text.drop_last();
        lemma_join_split(prefix, sep);
        let prev = split(prefix, sep);
        if text.last() == sep {
            let cur = prev.push(Seq::<char>::empty());
            assert(cur.drop_last() =~= prev);
            assert(join(cur, seq![sep]) =~= prefix + seq![sep] + Seq::<char>::empty());
            assert(prefix + seq![sep] + Seq::<char>::empty() =~= text);
        } else {
            let cur = prev.update(prev.len() - 1, prev.last().push(text.last()));
            if prev.len() == 1 {
                assert(join(cur, seq![sep]) == cur[0]);
                assert(cur[0] =~= text);
            } else {
                assert(cur.drop_last() =~= prev.drop_last());
                assert(join(cur, seq![sep]) == join(prev.drop_last(), seq![sep]) + seq![sep] + cur.last());
                assert(join(prev, seq![sep]) == join(prev.drop_last(), seq![sep]) + seq![sep] + prev.last());
                assert(cur.last() == prev.last().push(text.last()));
                assert(text =~= prefix.push(text.last()));
                let head = join(prev.drop_last(), seq![sep]) + seq![sep];
                assert((head + prev.last()).push(text.last()) =~= head + prev.last().push(text.last()));
                assert(join(cur, seq![sep]) =~= text);
            }
        }
    } else {
        assert(split(text, sep) == seq![Seq::<char>::empty()]);
    }
}

/// The permitted subclasses of a sealed Java declaration are the pieces of
/// its `permits` clause after the keyword, cut at commas: joined again with
/// commas they give back the clause, so no name is lost or added.
pub proof fn law_java_permits_pieces(t: &SyntaxTree, n: int)
    ensures
        t.field_child(n, "permits"@) matches Some(p) ==> (java_permits(t, n) matches Some(ps) && join(
            ps,
            ","@,
        ) == t.text(p).skip(8) && ps.len() >= 1),
        (t.field_child(n, "permits"@) is None) ==> (java_permits(t, n) is None),
        Java.spec_permits(t, n) == java_permits(t, n),
{
    reveal_strlit("permits ");
    reveal_strlit(",");
    assert(","@ =~= seq![',']);
    if let Some(p) = t.field_child(n, "permits"@) {
        lemma_join_split(t.text(p).skip(8), ',');
    }
}

/// The metadata of a Java declaration names no key twice.
pub proof fn law_java_metadata_keys_distinct(t: &SyntaxTree, n: int)
    ensures
        crate::relationship::keys_distinct(java_metadata(t, n, Seq::empty())),
{
    let k = "throws"@;
    assert(k.push(' ').len() != k.len());
    crate::relationship::law_metadata_read_after_write(Seq::empty(), k, join(thrown(t, n), ","@), k.push(' '));
}

/// The Java grammar declares and walks through distinct node kinds:
/// neither list names a kind twice, and no kind is both declared and walked
/// through.
pub proof fn law_java_kind_lists_apart()
    ensures
        kinds_apart(Java.spec_declaration_nodes(), Java.spec_flatten_nodes()),
{
    reveal_strlit("class_declaration");
    reveal_strlit("record_declaration");
    reveal_strlit("interface_declaration");
    reveal_strlit("method_declaration");
    reveal_strlit("field_declaration");
    reveal_strlit("constructor_declaration");
    reveal_strlit("enum_declaration");
    reveal_strlit("method_invocation");
    reveal_strlit("class_body");
    reveal_strlit("block");
    reveal_strlit("return_statement");
    reveal_strlit("expression_statement");
    reveal_strlit("labeled_statement");
    reveal_strlit("assert_statement");
    reveal_strlit("do_statement");
    reveal_strlit("yield_statement");
    reveal_strlit("try_statement");
    reveal_strlit("catch_clause");
    reveal_strlit("finally_clause");
    reveal_strlit("parenthesized_expression");
    reveal_strlit("binary_expression");
    reveal_strlit("assignment_expression");
    reveal_strlit("if_statement");
    reveal_strlit("for_statement");
    reveal_strlit("argument_list");
    assert("class_declaration"@.len() == 17);
    assert("record_declaration"@.len() == 18);
    assert("interface_declaration"@.len() == 21);
    assert("method_declaration"@.len() == 18);
    assert("field_declaration"@.len() == 17);
    assert("constructor_declaration"@.len() == 23);
    assert("enum_declaration"@.len() == 16);
    assert("method_invocation"@.len() == 17);
    assert("class_body"@.len() == 10);
    assert("block"@.len() == 5);
    assert("return_statement"@.len() == 16);
    assert("expression_statement"@.len() == 20);
    assert("labeled_statement"@.len() == 17);
    assert("assert_statement"@.len() == 16);
    assert("do_statement"@.len() == 12);
    assert("yield_statement"@.len() == 15);
    assert("try_statement"@.len() == 13);
    assert("catch_clause"@.len() == 12);
    assert("finally_clause"@.len() == 14);
    assert("parenthesized_expression"@.len() == 24);
    assert("binary_expression"@.len() == 17);
    assert("assignment_expression"@.len() == 21);
    assert("if_statement"@.len() == 12);
    assert("for_statement"@.len() == 13);
    assert("argument_list"@.len() == 13);
    assert("class_declaration"@[0] != "field_declaration"@[0]);
    assert("class_declaration"@[0] != "method_invocation"@[0]);
    assert("class_declaration"@[0] != "labeled_statement"@[0]);
    assert("class_declaration"@[0] != "binary_expression"@[0]);
    assert("record_declaration"@[0] != "method_declaration"@[0]);
    assert("interface_declaration"@[0] != "assignment_expression"@[0]);
    assert("field_declaration"@[0] != "method_invocation"@[0]);
    assert("field_declaration"@[0] != "labeled_statement"@[0]);
    assert("field_declaration"@[0] != "binary_expression"@[0]);
    assert("enum_declaration"@[0] != "return_statement"@[0]);
    assert("enum_declaration"@[0] != "assert_statement"@[0]);
    assert("method_invocation"@[0] != "labeled_statement"@[0]);
    assert("method_invocation"@[0] != "binary_expression"@[0]);
    assert("return_statement"@[0] != "assert_statement"@[0]);
    assert("labeled_statement"@[0] != "binary_expression"@[0]);
    assert("do_statement"@[0] != "catch_clause"@[0]);
    assert("do_statement"@[0] != "if_statement"@[0]);
    assert("try_statement"@[0] != "for_statement"@[0]);
    assert("try_statement"@[0] != "argument_list"@[0]);
    assert("catch_clause"@[0] != "if_statement"@[0]);
    assert("for_statement"@[0] != "argument_list"@[0]);
}

/// Why the Java sources could not be read.
#[derive(Debug)]
pub enum JavaError {
    StdError(std::io::Error),
}

} // verus!
