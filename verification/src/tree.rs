//! The declaration tree handed over by the compiler front end.

use vstd::prelude::*;
use vstd::string::StringExecFns;
use crate::text::{spec_parse_usize, parse_dec_usize};

verus! {

/// The textual length annotation of an array type, when present.
#[derive(Debug, Clone)]
pub struct ArrayLength {
    value: Option<String>,
}

impl View for ArrayLength {
    type V = Option<Seq<char>>;

    closed spec fn view(&self) -> Option<Seq<char>> {
        match self.value {
            Some(s) => Some(s@),
            None => None,
        }
    }
}

/// What `ArrayLength::as_usize` yields: the denoted number, when the
/// annotation is present, all digits, and fits in `usize`.
pub open spec fn spec_array_len(v: Option<Seq<char>>) -> Option<usize> {
    match v {
        Some(s) => spec_parse_usize(s),
        None => None,
    }
}

impl ArrayLength {
    /// Wrap a textual length annotation.
    pub fn new(value: Option<String>) -> (res: ArrayLength)
        ensures
            res@ == (match value {
                Some(s) => Some::<Seq<char>>(s@),
                None => None::<Seq<char>>,
            }),
    {
        ArrayLength { value }
    }

    /// The declared length as a number, when the annotation denotes one.
    pub fn as_usize(&self) -> (res: Option<usize>)
        ensures
            res == spec_array_len(self@),
    {
        match &self.value {
            None => None,
            Some(s) => {
                let st = s.as_str();
                let n = st.unicode_len();
                let r = parse_dec_usize(st, 0, n);
                proof {
                    assert(st@.subrange(0, n as int) =~= s@);
                }
                r
            },
        }
    }
}

/// A declared type: one of the three shapes the resolver understands.
#[derive(Debug)]
pub enum TypeName {
    ElementaryTypeName { name: String },
    Mapping { key_type: Box<TypeName>, value_type: Box<TypeName> },
    ArrayTypeName { base_type: Box<TypeName>, length: Option<ArrayLength> },
}

/// A node of the compiler's declaration tree.
#[derive(Debug)]
pub enum Node {
    ContractDefinition { name: String, nodes: Vec<Node> },
    VariableDeclaration { name: String, ty_name: Option<TypeName> },
    Ignored,
}

/// A full source unit: the top-level nodes of one compiled file.
#[derive(Debug)]
pub struct SourceUnit {
    pub nodes: Vec<Node>,
}

/// The name of an elementary type, `"unknown"` for a compound one.
pub open spec fn spec_extract_type_name(t: TypeName) -> Seq<char> {
    match t {
        TypeName::ElementaryTypeName { name } => name@,
        _ => "unknown"@,
    }
}

/// Unpack the name of an elementary type; see `spec_extract_type_name`.
pub fn extract_type_name(ty_name: &TypeName) -> (res: String)
    ensures
        res@ == spec_extract_type_name(*ty_name),
{
    match ty_name {
        TypeName::ElementaryTypeName { name } => name.clone(),
        _ => String::from_str("unknown"),
    }
}

/// The declared state variables of a contract body, in declaration order.
pub open spec fn spec_collect_declarations(ns: Seq<Node>, i: int) -> Seq<(String, TypeName)>
    decreases ns.len() - i,
{
    if i < 0 || i >= ns.len() {
        Seq::empty()
    } else {
        match ns[i] {
            Node::VariableDeclaration { name, ty_name: Some(t) } => seq![(name, t)]
                + spec_collect_declarations(ns, i + 1),
            _ => spec_collect_declarations(ns, i + 1),
        }
    }
}

/// Keep the variable declarations of a contract body that carry a type,
/// in declaration order.
pub fn collect_declarations(nodes: Vec<Node>) -> (res: Vec<(String, TypeName)>)
    ensures
        res@ == spec_collect_declarations(nodes@, 0),
{
    let mut res: Vec<(String, TypeName)> = Vec::new();
    let mut rest = nodes;
    loop
        invariant
            spec_collect_declarations(nodes@, 0) == res@ + spec_collect_declarations(rest@, 0),
        ensures
            rest@.len() == 0,
            spec_collect_declarations(nodes@, 0) == res@ + spec_collect_declarations(rest@, 0),
        decreases rest@.len(),
    {
        if rest.len() == 0 {
            break;
        }
        let ghost prev = rest@;
        let node = rest.remove(0);
        proof {
            assert(rest@ =~= prev.drop_first());
            lemma_collect_shift(prev);
        }
        match node {
            Node::VariableDeclaration { name, ty_name: Some(t) } => {
                let ghost entry = (name, t);
                let ghost r0 = res@;
                res.push((name, t));
                proof {
                    assert(spec_collect_declarations(prev, 0) == seq![entry]
                        + spec_collect_declarations(rest@, 0));
                    assert(r0 + (seq![entry] + spec_collect_declarations(rest@, 0)) =~= res@
                        + spec_collect_declarations(rest@, 0));
                }
            },
            _ => {},
        }
    }
    proof {
        assert(res@ + spec_collect_declarations(rest@, 0) =~= res@);
    }
    res
}

/// Collecting from a nonempty body starts with its first node.
proof fn lemma_collect_shift(ns: Seq<Node>)
    requires
        ns.len() > 0,
    ensures
        spec_collect_declarations(ns, 0) == (match ns[0] {
            Node::VariableDeclaration { name, ty_name: Some(t) } => seq![(name, t)]
                + spec_collect_declarations(ns.drop_first(), 0),
            _ => spec_collect_declarations(ns.drop_first(), 0),
        }),
{
    lemma_collect_index(ns, 1);
}

/// Collecting from position `i` of a body is collecting from the rest of it.
proof fn lemma_collect_index(ns: Seq<Node>, i: int)
    requires
        0 < i <= ns.len(),
    ensures
        spec_collect_declarations(ns, i) == spec_collect_declarations(ns.drop_first(), i - 1),
    decreases ns.len() - i,
{
    if i < ns.len() {
        lemma_collect_index(ns, i + 1);
        assert(ns.drop_first()[i - 1] == ns[i]);
    }
}

} // verus!
