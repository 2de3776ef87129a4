//! The C++ grammar.

use vstd::prelude::*;
use vstd::string::*;

use crate::grammer::{kinds_apart, push_pairing, strs_view, Grammer};
use crate::relationship::{Metadata, Relationship, RelationshipKind};
use crate::symbol::{
    modifier_of, visibility_of, FunctionDefinition, Generic, GenericSpec, Language,
    MemberVariable, Modifier, ModifierSpec, Parameter, ParameterSpec, SymbolKind, SymbolKindSpec,
    Type, TypeSpec, Visibility,
};
use crate::syntax::{as_ints, index_opt, SyntaxTree};
use crate::text::{owned, starts_with, strip_prefix, text_eq, trim, trim_str};

verus! {

/// A template parameter's text without a leading `class ` or `typename `.
pub open spec fn sanitized(value: Seq<char>) -> Seq<char> {
    if starts_with(value, "class "@) {
        value.skip("class "@.len() as int)
    } else if starts_with(value, "typename "@) {
        value.skip("typename "@.len() as int)
    } else {
        value
    }
}

/// Removes a leading `class ` or `typename ` from a template parameter.
pub fn sanitize_template_names(value: &str) -> (res: &str)
    ensures
        res@ == sanitized(value@),
{
    match strip_prefix(value, "class ") {
        Some(rest) => rest,
        None => match strip_prefix(value, "typename ") {
            Some(rest) => rest,
            None => value,
        },
    }
}

/// What a declarator says of the declared entity.
#[derive(Debug, Clone, Copy)]
pub struct DeclaratorInfo {
    /// The parameter list, for a function declarator.
    pub parameters: Option<usize>,
    pub pointer_depth: usize,
    pub has_reference: bool,
    pub is_destructor: bool,
}

impl DeclaratorInfo {
    pub open spec fn blank() -> DeclaratorInfo {
        DeclaratorInfo { parameters: None, pointer_depth: 0, has_reference: false, is_destructor: false }
    }

    pub fn new() -> (res: DeclaratorInfo)
        ensures
            res == DeclaratorInfo::blank(),
    {
        DeclaratorInfo { parameters: None, pointer_depth: 0, has_reference: false, is_destructor: false }
    }
}

/// One more pointer level, staying at the largest depth once it is reached.
pub open spec fn deeper(d: usize) -> usize {
    if d < usize::MAX {
        (d + 1) as usize
    } else {
        d
    }
}

/// What node `n` itself adds to `info`: its parameter list, or else the
/// pointer, reference or destructor it denotes.
pub open spec fn declarator_step(t: &SyntaxTree, n: int, info: DeclaratorInfo) -> DeclaratorInfo {
    let info1 = match t.field_child(n, "parameters"@) {
        Some(p) => DeclaratorInfo {
            parameters: Some(p as usize),
            pointer_depth: info.pointer_depth,
            has_reference: info.has_reference,
            is_destructor: info.is_destructor,
        },
        None => info,
    };
    if info1.parameters is None {
        if t.kind(n) == "pointer_declarator"@ {
            DeclaratorInfo {
                parameters: info1.parameters,
                pointer_depth: deeper(info1.pointer_depth),
                has_reference: info1.has_reference,
                is_destructor: info1.is_destructor,
            }
        } else if t.kind(n) == "reference_declarator"@ {
            DeclaratorInfo {
                parameters: info1.parameters,
                pointer_depth: info1.pointer_depth,
                has_reference: true,
                is_destructor: info1.is_destructor,
            }
        } else if t.kind(n) == "destructor_name"@ {
            DeclaratorInfo {
                parameters: info1.parameters,
                pointer_depth: info1.pointer_depth,
                has_reference: info1.has_reference,
                is_destructor: true,
            }
        } else {
            info1
        }
    } else {
        info1
    }
}

/// `info` after reading node `n` and then, depth first, its named
/// descendants.
pub open spec fn analyze(t: &SyntaxTree, n: int, info: DeclaratorInfo) -> DeclaratorInfo
    decreases t.len() - n, t.named_children(n).len() + 1,
{
    analyze_children(t, n, 0, declarator_step(t, n, info))
}

/// `info` after reading the named children of `n` from the `j`-th on.
pub open spec fn analyze_children(t: &SyntaxTree, n: int, j: int, info: DeclaratorInfo) -> DeclaratorInfo
    decreases t.len() - n, t.named_children(n).len() - j,
{
    let kids = t.named_children(n);
    if j < 0 || j >= kids.len() {
        info
    } else if n < kids[j] < t.len() {
        analyze_children(t, n, j + 1, analyze(t, kids[j], info))
    } else {
        analyze_children(t, n, j + 1, info)
    }
}

/// Reads node `n` and its named descendants into `info`.
pub fn analyze_declarator(t: &SyntaxTree, n: usize, info: &mut DeclaratorInfo)
    requires
        t.wf(),
        t.valid(n as int),
    ensures
        *final(info) == analyze(t, n as int, *old(info)),
    decreases t.len() - n,
{
    if let Some(params) = t.child_by_field_name(n, "parameters") {
        info.parameters = Some(params);
    }
    if info.parameters.is_none() {
        if t.kind_is(n, "pointer_declarator") {
            if info.pointer_depth < usize::MAX {
                info.pointer_depth = info.pointer_depth + 1;
            }
        } else if t.kind_is(n, "reference_declarator") {
            info.has_reference = true;
        } else if t.kind_is(n, "destructor_name") {
            info.is_destructor = true;
        }
    }
    let ghost stepped = *info;
    assert(stepped == declarator_step(t, n as int, *old(info)));
    let kids = t.named_children_of(n);
    let mut j: usize = 0;
    while j < kids.len()
        invariant
            t.wf(),
            t.valid(n as int),
            as_ints(kids@) == t.named_children(n as int),
            forall|i: int| 0 <= i < kids@.len() ==> n < #[trigger] kids@[i] < t.len(),
            j <= kids@.len(),
            analyze(t, n as int, *old(info)) == analyze_children(t, n as int, j as int, *info),
        decreases kids@.len() - j,
    {
        assert(as_ints(kids@)[j as int] == kids@[j as int] as int);
        analyze_declarator(t, kids[j], info);
        j = j + 1;
    }
}

/// The modifiers written in the type qualifier of a parameter.
pub open spec fn qualifier_modifiers(t: &SyntaxTree, c: int) -> Seq<ModifierSpec> {
    match t.named_kind_child(c, "type_qualifier"@) {
        Some(m) => t.children(m).map_values(|x: int| modifier_of(t.text(x))),
        None => Seq::empty(),
    }
}

/// Whether a node kind is one of the C++ parameter declarations.
pub open spec fn is_parameter_declaration(k: Seq<char>) -> bool {
    k == "parameter_declaration"@ || k == "variadic_parameter_declaration"@ || k
        == "optional_parameter_declaration"@
}

/// The parameter that child `c` of a parameter list declares, if any.
pub open spec fn cpp_parameter(t: &SyntaxTree, c: int) -> Option<ParameterSpec> {
    let modifiers = qualifier_modifiers(t, c);
    if is_parameter_declaration(t.kind(c)) {
        let info = analyze(t, c, DeclaratorInfo::blank());
        Some(
            ParameterSpec {
                type_specifier: t.field_text(c, "type"@),
                modifiers,
                variadic: t.kind(c) == "variadic_parameter_declaration"@,
                name: t.field_text(c, "declarator"@),
                reference: info.has_reference,
                pointer_depth: info.pointer_depth,
                default: match t.field_child(c, "default_value"@) {
                    Some(d) => Some(t.text(d)),
                    None => None,
                },
            },
        )
    } else if t.kind(c) == "..."@ {
        Some(
            ParameterSpec {
                type_specifier: Seq::empty(),
                modifiers,
                variadic: true,
                name: "..."@,
                reference: false,
                pointer_depth: 0,
                default: None,
            },
        )
    } else {
        None
    }
}

/// The parameters declared by the children of `n` from the `j`-th on.
pub open spec fn cpp_parameters_from(t: &SyntaxTree, n: int, j: int) -> Seq<ParameterSpec>
    decreases t.child_count(n) - j,
{
    if j < 0 || j >= t.child_count(n) {
        Seq::empty()
    } else {
        let rest = cpp_parameters_from(t, n, j + 1);
        match cpp_parameter(t, t.child(n, j)) {
            Some(p) => seq![p] + rest,
            None => rest,
        }
    }
}

/// The parameters of a C++ parameter list (none when there is no list).
pub open spec fn cpp_parameters(t: &SyntaxTree, list: Option<usize>) -> Seq<ParameterSpec> {
    match list {
        Some(n) => if t.valid(n as int) {
            cpp_parameters_from(t, n as int, 0)
        } else {
            Seq::empty()
        },
        None => Seq::empty(),
    }
}

fn qualifier_modifiers_of(t: &SyntaxTree, c: usize) -> (res: Vec<Modifier>)
    requires
        t.wf(),
        t.valid(c as int),
    ensures
        res.deep_view() == qualifier_modifiers(t, c as int),
{
    let mut out: Vec<Modifier> = Vec::new();
    match t.first_named_child_of_kind(c, "type_qualifier") {
        Some(m) => {
            let ghost target = qualifier_modifiers(t, c as int);
            let count = t.nodes[m].children.len();
            let mut i: usize = 0;
            while i < count
                invariant
                    t.wf(),
                    t.valid(m as int),
                    count == t.child_count(m as int),
                    target == t.children(m as int).map_values(|x: int| modifier_of(t.text(x))),
                    i <= count,
                    out.deep_view() == target.take(i as int),
                decreases count - i,
            {
                proof {
                    assert(t.node_wf(m as int));
                    assert(m < t.child(m as int, i as int) < t.len());
                }
                let x = t.nodes[m].children[i];
                let modifier = Modifier::from(t.text_of(x));
                let ghost before = out.deep_view();
                out.push(modifier);
                assert(out.deep_view() =~= before.push(modifier.deep_view()));
                assert(target.take(i + 1) =~= target.take(i as int).push(target[i as int]));
                i = i + 1;
            }
            assert(target.take(count as int) =~= target);
            out
        },
        None => {
            assert(out.deep_view() =~= Seq::<ModifierSpec>::empty());
            out
        },
    }
}

/// The parameters of a C++ parameter list `node`.
pub fn extract_parameters(t: &SyntaxTree, node: Option<usize>) -> (res: Vec<Parameter>)
    requires
        t.wf(),
        node matches Some(n) ==> t.valid(n as int),
    ensures
        res.deep_view() == cpp_parameters(t, node),
{
    let mut params: Vec<Parameter> = Vec::new();
    if let Some(n) = node {
        let count = t.nodes[n].children.len();
        let mut j: usize = 0;
        while j < count
            invariant
                t.wf(),
                t.valid(n as int),
                count == t.child_count(n as int),
                j <= count,
                params.deep_view() + cpp_parameters_from(t, n as int, j as int)
                    == cpp_parameters_from(t, n as int, 0),
            decreases count - j,
        {
            proof {
                assert(t.node_wf(n as int));
                assert(n < t.child(n as int, j as int) < t.len());
            }
            let c = t.nodes[n].children[j];
            let ghost rest = cpp_parameters_from(t, n as int, j + 1);
            let ghost before = params.deep_view();
            let modifiers = qualifier_modifiers_of(t, c);
            if t.kind_is(c, "parameter_declaration") || t.kind_is(c, "variadic_parameter_declaration")
                || t.kind_is(c, "optional_parameter_declaration") {
                let type_text = t.field_text_of(c, "type");
                let name = t.field_text_of(c, "declarator");
                let default = match t.child_by_field_name(c, "default_value") {
                    Some(d) => Some(owned(t.text_of(d))),
                    None => None,
                };
                let mut info = DeclaratorInfo::new();
                analyze_declarator(t, c, &mut info);
                let param = Parameter {
                    name,
                    type_specifier: type_text,
                    modifiers,
                    variadic: t.kind_is(c, "variadic_parameter_declaration"),
                    reference: info.has_reference,
                    pointer_depth: info.pointer_depth,
                    default,
                };
                assert(cpp_parameter(t, c as int) == Some(param.deep_view()));
                params.push(param);
                assert(params.deep_view() =~= before.push(param.deep_view()));
                assert(before + (seq![param.deep_view()] + rest) =~= params.deep_view() + rest);
            } else if t.kind_is(c, "...") {
                let param = Parameter {
                    name: owned("..."),
                    type_specifier: String::new(),
                    modifiers,
                    variadic: true,
                    default: None,
                    reference: false,
                    pointer_depth: 0,
                };
                assert(cpp_parameter(t, c as int) == Some(param.deep_view()));
                params.push(param);
                assert(params.deep_view() =~= before.push(param.deep_view()));
                assert(before + (seq![param.deep_view()] + rest) =~= params.deep_view() + rest);
            }
            j = j + 1;
        }
        assert(params.deep_view() + cpp_parameters_from(t, n as int, count as int) =~= params.deep_view());
    } else {
        assert(params.deep_view() =~= Seq::<ParameterSpec>::empty());
    }
    params
}

/// The first child of `n` that is a function declarator.
pub fn extract_function_declarator(t: &SyntaxTree, n: usize) -> (res: Option<usize>)
    requires
        t.wf(),
        t.valid(n as int),
    ensures
        index_opt(res) == t.kind_child(n as int, "function_declarator"@),
        res matches Some(c) ==> n < c < t.len(),
{
    t.first_child_of_kind(n, "function_declarator")
}

/// The value given in a declaration: the text after `=`, or `default` for a
/// defaulted method, or the empty text.
pub open spec fn declared_value(t: &SyntaxTree, n: int) -> Seq<char> {
    match t.kind_position_from(n, "="@, 0) {
        Some(j) if j + 1 < t.child_count(n) => t.text(t.child(n, j + 1)),
        _ => if t.kind_child(n, "default_method_clause"@) is Some {
            "default"@
        } else {
            Seq::empty()
        },
    }
}

/// The type named in a declaration: its qualifier (on a function) and the
/// text from the type to the declarator, trimmed and joined by a space.
pub open spec fn declared_type_name(t: &SyntaxTree, n: int, ty: int, d: int) -> Seq<char> {
    let qualifier = if t.kind_child(n, "function_declarator"@) is Some {
        match t.kind_child(n, "type_qualifier"@) {
            Some(q) => t.text(q),
            None => Seq::empty(),
        }
    } else {
        Seq::empty()
    };
    trim(trim(qualifier) + seq![' '] + trim(t.between_starts(ty, d)))
}

/// The kind of the C++ declaration at node `n`.
pub open spec fn cpp_symbolkind(t: &SyntaxTree, n: int) -> SymbolKindSpec {
    let by_node_kind = if t.kind(n) == "class_specifier"@ {
        SymbolKindSpec::Class
    } else if t.kind(n) == "struct_specifier"@ {
        SymbolKindSpec::Struct
    } else if t.kind(n) == "enum_specifier"@ {
        SymbolKindSpec::Enum
    } else if t.kind(n) == "translation_unit"@ {
        SymbolKindSpec::Root
    } else {
        SymbolKindSpec::Unknown
    };
    match t.field_child(n, "declarator"@) {
        Some(d) => {
            let info = analyze(t, d, DeclaratorInfo::blank());
            let value = declared_value(t, n);
            if info.is_destructor {
                SymbolKindSpec::Destructor(value)
            } else {
                match t.field_child(n, "type"@) {
                    Some(ty) => {
                        let ty_spec = TypeSpec {
                            reference: info.has_reference,
                            pointer_depth: info.pointer_depth,
                            name: declared_type_name(t, n, ty, d),
                        };
                        if t.kind(d) == "function_declarator"@ {
                            SymbolKindSpec::FunctionDefinition {
                                value,
                                params: cpp_parameters(t, info.parameters),
                                return_type: ty_spec,
                            }
                        } else {
                            SymbolKindSpec::MemberVariable { value, dtype: ty_spec }
                        }
                    },
                    None => by_node_kind,
                }
            }
        },
        None => by_node_kind,
    }
}

/// The name of a C++ node: an identifier's own text, else the name of its
/// `name` field, else of its declarator, else of its first named child that
/// has one.
pub open spec fn cpp_name(t: &SyntaxTree, n: int) -> Seq<char>
    decreases t.len() - n, t.named_children(n).len() + 1,
{
    if t.grammar(n) == "identifier"@ {
        t.text(n)
    } else {
        match t.field_child(n, "name"@) {
            Some(c) => if n < c < t.len() {
                cpp_name(t, c)
            } else {
                Seq::empty()
            },
            None => {
                let from_declarator = match t.field_child(n, "declarator"@) {
                    Some(d) => if n < d < t.len() {
                        cpp_name(t, d)
                    } else {
                        Seq::empty()
                    },
                    None => Seq::empty(),
                };
                if from_declarator.len() > 0 {
                    from_declarator
                } else {
                    cpp_name_children(t, n, 0)
                }
            },
        }
    }
}

/// The first non-empty name among the named children of `n` from the
/// `j`-th on.
pub open spec fn cpp_name_children(t: &SyntaxTree, n: int, j: int) -> Seq<char>
    decreases t.len() - n, t.named_children(n).len() - j,
{
    let kids = t.named_children(n);
    if j < 0 || j >= kids.len() {
        Seq::empty()
    } else if n < kids[j] < t.len() && cpp_name(t, kids[j]).len() > 0 {
        cpp_name(t, kids[j])
    } else {
        cpp_name_children(t, n, j + 1)
    }
}

fn cpp_to_name(t: &SyntaxTree, n: usize) -> (res: String)
    requires
        t.wf(),
        t.valid(n as int),
    ensures
        res@ == cpp_name(t, n as int),
    decreases t.len() - n,
{
    if text_eq(t.nodes[n].grammar_name.as_str(), "identifier") {
        return owned(t.text_of(n));
    }
    if let Some(c) = t.child_by_field_name(n, "name") {
        return cpp_to_name(t, c);
    }
    if let Some(d) = t.child_by_field_name(n, "declarator") {
        let result = cpp_to_name(t, d);
        if result.as_str().unicode_len() > 0 {
            return result;
        }
    }
    let kids = t.named_children_of(n);
    let mut j: usize = 0;
    while j < kids.len()
        invariant
            t.wf(),
            t.valid(n as int),
            as_ints(kids@) == t.named_children(n as int),
            forall|i: int| 0 <= i < kids@.len() ==> n < #[trigger] kids@[i] < t.len(),
            j <= kids@.len(),
            cpp_name(t, n as int) == cpp_name_children(t, n as int, j as int),
        decreases kids@.len() - j,
    {
        assert(as_ints(kids@)[j as int] == kids@[j as int] as int);
        let result = cpp_to_name(t, kids[j]);
        if result.as_str().unicode_len() > 0 {
            return result;
        }
        j = j + 1;
    }
    String::new()
}

/// The modifier a qualifier keyword denotes; the `const` family is `Constant`.
pub open spec fn qualifier_modifier(q: Seq<char>) -> ModifierSpec {
    if q == "constexpr"@ || q == "consteval"@ || q == "constinit"@ || q == "const"@ {
        ModifierSpec::Constant
    } else {
        modifier_of(q)
    }
}

fn qualifier_modifier_of(q: &str) -> (res: Modifier)
    ensures
        res.deep_view() == qualifier_modifier(q@),
{
    if text_eq(q, "constexpr") || text_eq(q, "consteval") || text_eq(q, "constinit") || text_eq(
        q,
        "const",
    ) {
        Modifier::Constant
    } else {
        Modifier::from(q)
    }
}

/// Kinds of the nodes that qualify a declaration as a whole.
pub open spec fn is_specifier_kind(k: Seq<char>) -> bool {
    k == "virtual_specifier"@ || k == "attribute_specifier"@ || k == "storage_class_specifier"@
        || k == "ms_declspec_modifier"@ || k == "virtual"@ || k == "attribute_declaration"@
}

/// The modifiers contributed by the children of `n` from the `j`-th on.
pub open spec fn cpp_child_modifiers(t: &SyntaxTree, n: int, is_function: bool, j: int) -> Seq<ModifierSpec>
    decreases t.child_count(n) - j,
{
    if j < 0 || j >= t.child_count(n) {
        Seq::empty()
    } else {
        let c = t.child(n, j);
        let rest = cpp_child_modifiers(t, n, is_function, j + 1);
        if t.kind(c) == "type_qualifier"@ && !is_function {
            seq![qualifier_modifier(t.text(c))] + rest
        } else if is_specifier_kind(t.kind(c)) {
            seq![modifier_of(t.text(c))] + rest
        } else {
            rest
        }
    }
}

/// The visibility (public for a struct, else private) and the modifiers of
/// a C++ declaration.
pub open spec fn cpp_attributes(t: &SyntaxTree, n: int) -> (Visibility, Seq<ModifierSpec>) {
    let visibility = if t.kind(n) == "struct_specifier"@ {
        Visibility::Public
    } else {
        Visibility::Private
    };
    let function = t.kind_child(n, "function_declarator"@);
    let trailing = match function {
        Some(f) => match t.kind_child(f, "type_qualifier"@) {
            Some(q) => seq![qualifier_modifier(t.text(q))],
            None => Seq::empty(),
        },
        None => Seq::empty(),
    };
    (visibility, trailing + cpp_child_modifiers(t, n, function is Some, 0))
}

/// Generics named by the named children of a template list.
pub open spec fn template_generics(t: &SyntaxTree, list: int) -> Seq<GenericSpec> {
    t.named_children(list).map_values(
        |c: int| GenericSpec { name: sanitized(t.text(c)), bounds: Seq::empty() },
    )
}

/// The template arguments of the type of `n`, then the template parameters
/// of the template declaration around `n`.
pub open spec fn cpp_generics(t: &SyntaxTree, n: int) -> Seq<GenericSpec> {
    let arguments = match t.field_child(n, "type"@) {
        Some(ty) => match t.field_child(ty, "arguments"@) {
            Some(a) => template_generics(t, a),
            None => Seq::empty(),
        },
        None => Seq::empty(),
    };
    let parameters = match t.parent(n) {
        Some(p) => if t.kind(p as int) == "template_declaration"@ {
            match t.field_child(p as int, "parameters"@) {
                Some(ps) => template_generics(t, ps),
                None => Seq::empty(),
            }
        } else {
            Seq::empty()
        },
        None => Seq::empty(),
    };
    arguments + parameters
}

fn extract_template_generics(t: &SyntaxTree, list: usize) -> (res: Vec<Generic>)
    requires
        t.wf(),
        t.valid(list as int),
    ensures
        res.deep_view() == template_generics(t, list as int),
{
    let kids = t.named_children_of(list);
    let ghost target = template_generics(t, list as int);
    let mut out: Vec<Generic> = Vec::new();
    let mut i: usize = 0;
    while i < kids.len()
        invariant
            t.wf(),
            as_ints(kids@) == t.named_children(list as int),
            forall|i: int| 0 <= i < kids@.len() ==> list < #[trigger] kids@[i] < t.len(),
            target == template_generics(t, list as int),
            i <= kids@.len(),
            out.deep_view() == target.take(i as int),
        decreases kids@.len() - i,
    {
        assert(as_ints(kids@)[i as int] == kids@[i as int] as int);
        let name = sanitize_template_names(t.text_of(kids[i]));
        let g = Generic { name: owned(name), bounds: Vec::new() };
        let ghost before = out.deep_view();
        out.push(g);
        assert(g.bounds.deep_view() =~= Seq::<Seq<char>>::empty());
        assert(out.deep_view() =~= before.push(g.deep_view()));
        assert(target.take(i + 1) =~= target.take(i as int).push(target[i as int]));
        i = i + 1;
    }
    assert(target.take(kids@.len() as int) =~= target);
    out
}

/// Texts of the named children of `list` of kind `k`, among its first `j`
/// named children.
pub open spec fn named_kind_texts(t: &SyntaxTree, list: int, k: Seq<char>, j: int) -> Seq<Seq<char>>
    decreases j,
{
    let kids = t.named_children(list);
    if j <= 0 || j > kids.len() {
        Seq::empty()
    } else if t.kind(kids[j - 1]) == k {
        named_kind_texts(t, list, k, j - 1).push(t.text(kids[j - 1]))
    } else {
        named_kind_texts(t, list, k, j - 1)
    }
}

/// The base classes named in the base clause of `n`, if it has one.
pub open spec fn cpp_inheritance(t: &SyntaxTree, n: int) -> Option<Seq<Seq<char>>> {
    match t.named_kind_child(n, "base_class_clause"@) {
        Some(b) => Some(named_kind_texts(t, b, "type_identifier"@, t.named_children(b).len() as int)),
        None => None,
    }
}

/// The C++ grammar.
#[derive(Debug, Clone, Copy)]
pub struct Cpp {}

impl Grammer for Cpp {
    open spec fn spec_declaration_nodes(&self) -> Seq<Seq<char>> {
        seq![
            "class_specifier"@,
            "struct_specifier"@,
            "enum_specifier"@,
            "function_definition"@,
            "field_declaration"@,
        ]
    }

    open spec fn spec_flatten_nodes(&self) -> Seq<Seq<char>> {
        seq!["template_declaration"@, "field_declaration_list"@]
    }

    open spec fn spec_symbolkind(&self, t: &SyntaxTree, n: int) -> SymbolKindSpec {
        cpp_symbolkind(t, n)
    }

    open spec fn spec_name(&self, t: &SyntaxTree, n: int) -> Seq<char> {
        cpp_name(t, n)
    }

    open spec fn spec_attributes(&self, t: &SyntaxTree, n: int) -> (Visibility, Seq<ModifierSpec>) {
        cpp_attributes(t, n)
    }

    open spec fn spec_generics(&self, t: &SyntaxTree, n: int) -> Seq<GenericSpec> {
        cpp_generics(t, n)
    }

    open spec fn permits_readable(&self, t: &SyntaxTree, n: int) -> bool {
        true
    }

    open spec fn spec_permits(&self, t: &SyntaxTree, n: int) -> Option<Seq<Seq<char>>> {
        None
    }

    open spec fn spec_inheritance(&self, t: &SyntaxTree, n: int) -> Option<Seq<Seq<char>>> {
        cpp_inheritance(t, n)
    }

    open spec fn spec_language(&self) -> Language {
        Language::Cpp
    }

    open spec fn spec_visibility_change(
        &self,
        t: &SyntaxTree,
        n: int,
        current: Option<Visibility>,
    ) -> Option<Visibility> {
        if t.kind(n) == "access_specifier"@ {
            Some(visibility_of(t.text(n)))
        } else {
            current
        }
    }

    open spec fn spec_metadata(
        &self,
        t: &SyntaxTree,
        n: int,
        entries: Seq<(Seq<char>, Seq<char>)>,
    ) -> Seq<(Seq<char>, Seq<char>)> {
        entries
    }

    open spec fn spec_pair_kind(&self, t: &SyntaxTree, n: int) -> RelationshipKind {
        RelationshipKind::Contains
    }

    fn declaration_nodes(&self) -> (res: Vec<&'static str>) {
        let mut v: Vec<&'static str> = Vec::new();
        v.push("class_specifier");
        v.push("struct_specifier");
        v.push("enum_specifier");
        v.push("function_definition");
        v.push("field_declaration");
        assert(strs_view(v@) =~= self.spec_declaration_nodes());
        v
    }

    fn flatten_nodes(&self) -> (res: Vec<&'static str>) {
        let mut v: Vec<&'static str> = Vec::new();
        v.push("template_declaration");
        v.push("field_declaration_list");
        assert(strs_view(v@) =~= self.spec_flatten_nodes());
        v
    }

    fn to_symbolkind(&self, t: &SyntaxTree, n: usize) -> (res: SymbolKind) {
        if let Some(declarator) = t.child_by_field_name(n, "declarator") {
            let mut info = DeclaratorInfo::new();
            analyze_declarator(t, declarator, &mut info);
            let value = declared_value_of(t, n);
            if info.is_destructor {
                return SymbolKind::Destructor(value);
            }
            if let Some(type_node) = t.child_by_field_name(n, "type") {
                let name = declared_type_name_of(t, n, type_node, declarator);
                let ty = Type { reference: info.has_reference, pointer_depth: info.pointer_depth, name };
                if t.kind_is(declarator, "function_declarator") {
                    let params = extract_parameters_checked(t, info.parameters);
                    return SymbolKind::FunctionDefinition(
                        FunctionDefinition { value, params, return_type: ty },
                    );
                } else {
                    return SymbolKind::MemberVariable(MemberVariable { value, dtype: ty });
                }
            }
        }
        if t.kind_is(n, "class_specifier") {
            SymbolKind::Class
        } else if t.kind_is(n, "struct_specifier") {
            SymbolKind::Struct
        } else if t.kind_is(n, "enum_specifier") {
            SymbolKind::Enum
        } else if t.kind_is(n, "translation_unit") {
            SymbolKind::Root
        } else {
            SymbolKind::Unknown
        }
    }

    fn to_name(&self, t: &SyntaxTree, n: usize) -> (res: String) {
        cpp_to_name(t, n)
    }

    fn extract_declaration_attributes(&self, t: &SyntaxTree, n: usize) -> (res: (
        Visibility,
        Vec<Modifier>,
    )) {
        let visibility = if t.kind_is(n, "struct_specifier") {
            Visibility::Public
        } else {
            Visibility::Private
        };
        let mut modifs: Vec<Modifier> = Vec::new();
        let function_declarator = extract_function_declarator(t, n);
        if let Some(f) = function_declarator {
            if let Some(q) = t.first_child_of_kind(f, "type_qualifier") {
                modifs.push(qualifier_modifier_of(t.text_of(q)));
            }
        }
        let has_function_declarator = function_declarator.is_some();
        let ghost trailing = modifs.deep_view();
        assert(trailing =~= cpp_attributes(t, n as int).1.take(trailing.len() as int)) by {
            assert(cpp_attributes(t, n as int).1 == trailing + cpp_child_modifiers(
                t,
                n as int,
                has_function_declarator,
                0,
            ));
        }
        let count = t.nodes[n].children.len();
        let mut j: usize = 0;
        while j < count
            invariant
                t.wf(),
                t.valid(n as int),
                count == t.child_count(n as int),
                j <= count,
                modifs.deep_view() + cpp_child_modifiers(t, n as int, has_function_declarator, j as int)
                    == trailing + cpp_child_modifiers(t, n as int, has_function_declarator, 0),
            decreases count - j,
        {
            proof {
                assert(t.node_wf(n as int));
                assert(n < t.child(n as int, j as int) < t.len());
            }
            let c = t.nodes[n].children[j];
            let ghost before = modifs.deep_view();
            let ghost rest = cpp_child_modifiers(t, n as int, has_function_declarator, j + 1);
            if t.kind_is(c, "type_qualifier") && !has_function_declarator {
                let m = qualifier_modifier_of(t.text_of(c));
                modifs.push(m);
                assert(modifs.deep_view() =~= before.push(m.deep_view()));
                assert(before + (seq![m.deep_view()] + rest) =~= modifs.deep_view() + rest);
            } else if t.kind_is(c, "virtual_specifier") || t.kind_is(c, "attribute_specifier")
                || t.kind_is(c, "storage_class_specifier") || t.kind_is(c, "ms_declspec_modifier")
                || t.kind_is(c, "virtual") || t.kind_is(c, "attribute_declaration") {
                let m = Modifier::from(t.text_of(c));
                modifs.push(m);
                assert(modifs.deep_view() =~= before.push(m.deep_view()));
                assert(before + (seq![m.deep_view()] + rest) =~= modifs.deep_view() + rest);
            }
            j = j + 1;
        }
        assert(modifs.deep_view() + cpp_child_modifiers(t, n as int, has_function_declarator, count as int)
            =~= modifs.deep_view());
        (visibility, modifs)
    }

    fn to_generics(&self, t: &SyntaxTree, n: usize) -> (res: Vec<Generic>) {
        let mut generics: Vec<Generic> = Vec::new();
        let ghost arguments: Seq<GenericSpec> = Seq::empty();
        if let Some(temp_type) = t.child_by_field_name(n, "type") {
            if let Some(type_list) = t.child_by_field_name(temp_type, "arguments") {
                generics = extract_template_generics(t, type_list);
            }
        }
        assert(generics.deep_view() =~= match t.field_child(n as int, "type"@) {
            Some(ty) => match t.field_child(ty, "arguments"@) {
                Some(a) => template_generics(t, a),
                None => Seq::empty(),
            },
            None => Seq::<GenericSpec>::empty(),
        });
        proof {
            assert(t.node_wf(n as int));
        }
        if let Some(parent) = t.nodes[n].parent {
            if t.kind_is(parent, "template_declaration") {
                if let Some(param_list) = t.child_by_field_name(parent, "parameters") {
                    let mut more = extract_template_generics(t, param_list);
                    let ghost before = generics.deep_view();
                    let ghost extra = more.deep_view();
                    generics.append(&mut more);
                    assert(generics.deep_view() =~= before + extra);
                }
            }
        }
        generics
    }

    fn permits_are_readable(&self, t: &SyntaxTree, n: usize) -> (res: bool) {
        true
    }

    fn gather_all_permits(&self, t: &SyntaxTree, n: usize) -> (res: Option<Vec<String>>) {
        None
    }

    fn gather_all_inheritance(&self, t: &SyntaxTree, n: usize) -> (res: Option<Vec<String>>) {
        match t.first_named_child_of_kind(n, "base_class_clause") {
            Some(base) => {
                let kids = t.named_children_of(base);
                let mut out: Vec<String> = Vec::new();
                let mut i: usize = 0;
                while i < kids.len()
                    invariant
                        t.wf(),
                        as_ints(kids@) == t.named_children(base as int),
                        forall|i: int| 0 <= i < kids@.len() ==> base < #[trigger] kids@[i] < t.len(),
                        i <= kids@.len(),
                        out.deep_view() == named_kind_texts(t, base as int, "type_identifier"@, i as int),
                    decreases kids@.len() - i,
                {
                    assert(as_ints(kids@)[i as int] == kids@[i as int] as int);
                    if t.kind_is(kids[i], "type_identifier") {
                        let ghost before = out.deep_view();
                        let s = owned(t.text_of(kids[i]));
                        out.push(s);
                        assert(out.deep_view() =~= before.push(s@));
                    }
                    i = i + 1;
                }
                Some(out)
            },
            None => None,
        }
    }

    fn language(&self) -> (res: Language) {
        Language::Cpp
    }

    fn apply_visibility_change(&self, t: &SyntaxTree, n: usize, scoped_vis: &mut Option<Visibility>) {
        if t.kind_is(n, "access_specifier") {
            *scoped_vis = Some(Visibility::from(t.text_of(n)));
        }
    }

    fn extract_metadata(&self, t: &SyntaxTree, n: usize, metadata: &mut Metadata) {
    }

    fn pair_relationships(
        &self,
        t: &SyntaxTree,
        n: usize,
        parent_id: u128,
        child_id: u128,
        relationships: &mut Vec<Relationship>,
    ) {
        push_pairing(relationships, parent_id, child_id, RelationshipKind::Contains);
    }
}

/// A C++ enum, struct or class specifier that declares nothing through a
/// declarator is an enum, a struct or a class respectively; and only a class
/// specifier is ever classified as a class.
pub proof fn law_cpp_type_specifier_kinds(t: &SyntaxTree, n: int)
    ensures
        (t.field_child(n, "declarator"@) is None && t.kind(n) == "enum_specifier"@) ==> (cpp_symbolkind(t, n)
            == SymbolKindSpec::Enum),
        (t.field_child(n, "declarator"@) is None && t.kind(n) == "struct_specifier"@) ==> (cpp_symbolkind(
            t,
            n,
        ) == SymbolKindSpec::Struct),
        (t.field_child(n, "declarator"@) is None && t.kind(n) == "class_specifier"@) ==> (cpp_symbolkind(t, n)
            == SymbolKindSpec::Class),
        (cpp_symbolkind(t, n) is Class) ==> (t.kind(n) == "class_specifier"@),
        (cpp_symbolkind(t, n) is Enum) ==> (t.kind(n) == "enum_specifier"@),
        (cpp_symbolkind(t, n) is Struct) ==> (t.kind(n) == "struct_specifier"@),
        (Cpp {  }).spec_symbolkind(t, n) == cpp_symbolkind(t, n),
{
    reveal_strlit("class_specifier");
    reveal_strlit("struct_specifier");
    reveal_strlit("enum_specifier");
    assert("class_specifier"@.len() == 15);
    assert("struct_specifier"@.len() == 16);
    assert("enum_specifier"@.len() == 14);
}

/// A C++ struct is declared public, and every other declaration private,
/// whatever its modifiers.
pub proof fn law_cpp_declared_visibility(t: &SyntaxTree, n: int)
    ensures
        (t.kind(n) == "struct_specifier"@) ==> (cpp_attributes(t, n).0 == Visibility::Public),
        (t.kind(n) != "struct_specifier"@) ==> (cpp_attributes(t, n).0 == Visibility::Private),
        (Cpp {  }).spec_attributes(t, n) == cpp_attributes(t, n),
{
}

/// Whether `s` is the text of one of the first `j` named children of `list`
/// of kind `k`.
pub open spec fn is_named_kind_text(t: &SyntaxTree, list: int, k: Seq<char>, j: int, s: Seq<char>) -> bool {
    exists|i: int|
        0 <= i < j && t.kind(t.named_children(list)[i]) == k && s == t.text(#[trigger] t.named_children(list)[i])
}

proof fn lemma_named_kind_texts(t: &SyntaxTree, list: int, k: Seq<char>, j: int)
    requires
        0 <= j <= t.named_children(list).len(),
    ensures
        forall|i: int|
            0 <= i < j && t.kind(t.named_children(list)[i]) == k ==> named_kind_texts(t, list, k, j).contains(
                t.text(#[trigger] t.named_children(list)[i]),
            ),
        forall|m: int|
            0 <= m < named_kind_texts(t, list, k, j).len() ==> is_named_kind_text(
                t,
                list,
                k,
                j,
                #[trigger] named_kind_texts(t, list, k, j)[m],
            ),
    decreases j,
{
    if j > 0 {
        lemma_named_kind_texts(t, list, k, j - 1);
        let kids = t.named_children(list);
        let prev = named_kind_texts(t, list, k, j - 1);
        let cur = named_kind_texts(t, list, k, j);
        assert forall|i: int| 0 <= i < j && t.kind(kids[i]) == k implies cur.contains(
            t.text(#[trigger] kids[i]),
        ) by {
            if i < j - 1 {
                let m = choose|m: int| 0 <= m < prev.len() && prev[m] == t.text(kids[i]);
                assert(cur[m] == prev[m]);
            } else {
                assert(cur[prev.len() as int] == t.text(kids[i]));
            }
        }
        assert forall|m: int| 0 <= m < cur.len() implies is_named_kind_text(t, list, k, j, #[trigger] cur[m]) by {
            if m < prev.len() {
                assert(cur[m] == prev[m]);
                assert(is_named_kind_text(t, list, k, j - 1, prev[m]));
                let i = choose|i: int|
                    0 <= i < j - 1 && t.kind(kids[i]) == k && prev[m] == t.text(#[trigger] kids[i]);
                assert(t.text(kids[i]) == cur[m]);
            } else {
                assert(cur[m] == t.text(kids[j - 1]));
            }
        }
    }
}

/// A C++ class inherits from exactly the named types of its base clause:
/// every type identifier there is inherited, and nothing else is.
pub proof fn law_cpp_bases_are_inherited(t: &SyntaxTree, n: int)
    ensures
        t.named_kind_child(n, "base_class_clause"@) matches Some(b) ==> (cpp_inheritance(t, n) matches Some(l)
            && (forall|i: int|
            0 <= i < t.named_children(b).len() && t.kind(t.named_children(b)[i]) == "type_identifier"@
                ==> l.contains(t.text(#[trigger] t.named_children(b)[i]))) && (forall|m: int|
            0 <= m < l.len() ==> is_named_kind_text(
                t,
                b,
                "type_identifier"@,
                t.named_children(b).len() as int,
                #[trigger] l[m],
            ))),
        (t.named_kind_child(n, "base_class_clause"@) is None) ==> (cpp_inheritance(t, n) is None),
        (Cpp {  }).spec_inheritance(t, n) == cpp_inheritance(t, n),
{
    if let Some(b) = t.named_kind_child(n, "base_class_clause"@) {
        lemma_named_kind_texts(t, b, "type_identifier"@, t.named_children(b).len() as int);
    }
}

/// A C++ declaration whose declarator is a function declarator, with a
/// type and not a destructor, is a function whose return type is named by
/// the text from the type to the declarator.
pub proof fn law_cpp_function_declarations(t: &SyntaxTree, n: int)
    ensures
        ({
            match (t.field_child(n, "declarator"@), t.field_child(n, "type"@)) {
                (Some(d), Some(ty)) => (t.kind(d) == "function_declarator"@ && !analyze(
                    t,
                    d,
                    DeclaratorInfo::blank(),
                ).is_destructor) ==> (cpp_symbolkind(t, n) matches SymbolKindSpec::FunctionDefinition {
                    return_type,
                    ..
                } && return_type.name == declared_type_name(t, n, ty, d)),
                _ => true,
            }
        }),
{
}

/// The C++ grammar declares and walks through distinct node kinds:
/// neither list names a kind twice, and no kind is both declared and walked
/// through.
pub proof fn law_cpp_kind_lists_apart()
    ensures
        kinds_apart(Cpp {  }.spec_declaration_nodes(), Cpp {  }.spec_flatten_nodes()),
{
    reveal_strlit("class_specifier");
    reveal_strlit("struct_specifier");
    reveal_strlit("enum_specifier");
    reveal_strlit("function_definition");
    reveal_strlit("field_declaration");
    reveal_strlit("template_declaration");
    reveal_strlit("field_declaration_list");
    assert("class_specifier"@.len() == 15);
    assert("struct_specifier"@.len() == 16);
    assert("enum_specifier"@.len() == 14);
    assert("function_definition"@.len() == 19);
    assert("field_declaration"@.len() == 17);
    assert("template_declaration"@.len() == 20);
    assert("field_declaration_list"@.len() == 22);
}

fn extract_parameters_checked(t: &SyntaxTree, list: Option<usize>) -> (res: Vec<Parameter>)
    requires
        t.wf(),
    ensures
        res.deep_view() == cpp_parameters(t, list),
{
    match list {
        Some(n) => if n < t.nodes.len() {
            extract_parameters(t, list)
        } else {
            let res: Vec<Parameter> = Vec::new();
            assert(res.deep_view() =~= Seq::<ParameterSpec>::empty());
            res
        },
        None => extract_parameters(t, list),
    }
}

fn declared_value_of(t: &SyntaxTree, n: usize) -> (res: String)
    requires
        t.wf(),
        t.valid(n as int),
    ensures
        res@ == declared_value(t, n as int),
{
    proof {
        t.lemma_kind_position_valid(n as int, "="@, 0);
        assert(t.node_wf(n as int));
    }
    if let Some(j) = t.first_child_position_of_kind(n, "=") {
        let count = t.nodes[n].children.len();
        if j < count && count - j > 1 {
            let sibling = t.nodes[n].children[j + 1];
            proof {
                assert(n < t.child(n as int, j + 1) < t.len());
            }
            return owned(t.text_of(sibling));
        }
    }
    if t.first_child_of_kind(n, "default_method_clause").is_some() {
        owned("default")
    } else {
        String::new()
    }
}

fn declared_type_name_of(t: &SyntaxTree, n: usize, ty: usize, d: usize) -> (res: String)
    requires
        t.wf(),
        t.valid(n as int),
        t.valid(ty as int),
        t.valid(d as int),
    ensures
        res@ == declared_type_name(t, n as int, ty as int, d as int),
{
    let qualifier: &str = if extract_function_declarator(t, n).is_some() {
        match t.first_child_of_kind(n, "type_qualifier") {
            Some(q) => t.text_of(q),
            None => "",
        }
    } else {
        ""
    };
    proof {
        reveal_strlit("");
        reveal_strlit(" ");
    }
    let mut joined = owned(trim_str(qualifier));
    joined.append(" ");
    joined.append(trim_str(t.text_between_starts(ty, d)));
    let res = owned(trim_str(joined.as_str()));
    assert(joined@ =~= trim(qualifier@) + seq![' '] + trim(t.between_starts(ty as int, d as int)));
    res
}

/// Why the C++ sources could not be read.
#[derive(Debug)]
pub enum CppError {
    StdError(std::io::Error),
}

} // verus!
