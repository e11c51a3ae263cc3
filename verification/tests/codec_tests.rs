use storage_layout::codec::{decode_variable, encode_variable, Token};
use storage_layout::layout::{process_variable, Variable};
use storage_layout::tree::{ArrayLength, TypeName};

fn elem(name: &str) -> TypeName {
    TypeName::ElementaryTypeName { name: name.to_string() }
}

fn resolve_one(name: &str, t: &TypeName) -> Variable {
    let mut slot: usize = 0;
    let mut off: usize = 0;
    process_variable(name.to_string(), t, &mut off, &mut slot, name, name).unwrap()
}

fn assert_same_tree(a: &Variable, b: &Variable) {
    assert_eq!(a.name, b.name);
    assert_eq!(a.var_type, b.var_type);
    assert_eq!((a.offset, a.slot, a.size), (b.offset, b.slot, b.size));
    assert_eq!(a.path, b.path);
    assert_eq!(a.raw_path, b.raw_path);
    assert_eq!(a.length, b.length);
    match (&a.key, &b.key) {
        (None, None) => {}
        (Some(x), Some(y)) => {
            assert_eq!(x.var_type, y.var_type);
            assert_eq!((x.offset, x.slot, x.size), (y.offset, y.slot, y.size));
            assert_eq!(x.path, y.path);
            assert_eq!(x.raw_path, y.raw_path);
        }
        _ => panic!("key presence differs"),
    }
    match (&a.values, &b.values) {
        (None, None) => {}
        (Some(x), Some(y)) => {
            assert_eq!(x.entries.len(), y.entries.len());
            for i in 0..x.entries.len() {
                assert_eq!(x.entries[i].0, y.entries[i].0);
                assert_same_tree(&x.entries[i].1, &y.entries[i].1);
            }
        }
        _ => panic!("children presence differs"),
    }
}

#[test]
fn round_trip_reconstructs_an_identical_tree() {
    let m = TypeName::Mapping {
        key_type: Box::new(elem("address")),
        value_type: Box::new(TypeName::ArrayTypeName {
            base_type: Box::new(elem("uint64")),
            length: Some(ArrayLength::new(Some("5".to_string()))),
        }),
    };
    let original = resolve_one("bal", &m);
    let mut toks: Vec<Token> = Vec::new();
    encode_variable(&original, &mut toks);
    let (parsed, consumed) = decode_variable(&toks, 0).unwrap();
    assert_eq!(consumed, toks.len());
    assert_same_tree(&original, &parsed);
}

#[test]
fn round_trip_keeps_child_insertion_order() {
    let arr = TypeName::ArrayTypeName {
        base_type: Box::new(elem("uint8")),
        length: Some(ArrayLength::new(Some("4".to_string()))),
    };
    let original = resolve_one("xs", &arr);
    let mut toks: Vec<Token> = Vec::new();
    encode_variable(&original, &mut toks);
    let (parsed, _) = decode_variable(&toks, 0).unwrap();
    let labels: Vec<&str> = parsed
        .values
        .as_ref()
        .unwrap()
        .entries
        .iter()
        .map(|(k, _)| k.as_str())
        .collect();
    assert_eq!(labels, vec!["element_0", "element_1", "element_2", "element_3"]);
}

#[test]
fn truncated_runs_are_rejected() {
    let original = resolve_one("a", &elem("uint256"));
    let mut toks: Vec<Token> = Vec::new();
    encode_variable(&original, &mut toks);
    toks.pop();
    assert!(decode_variable(&toks, 0).is_none());
}
