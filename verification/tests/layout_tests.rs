use storage_layout::layout::{content_slot, process_variable, resolve_declarations, Variable};
use storage_layout::tree::{collect_declarations, ArrayLength, Node, TypeName};
use storage_layout::types::LayoutError;

fn elem(name: &str) -> TypeName {
    TypeName::ElementaryTypeName { name: name.to_string() }
}

fn resolve_one(name: &str, t: &TypeName, slot: &mut usize, off: &mut usize) -> Variable {
    process_variable(name.to_string(), t, off, slot, name, name).unwrap()
}

#[test]
fn elementary_fields_pack_until_a_slot_is_full() {
    // the cumulative widths 128 + 128 fill slot 0 exactly; the next field
    // opens slot 1 at offset 0 (exact-fill packing)
    let mut slot: usize = 0;
    let mut off: usize = 0;
    let a = resolve_one("a", &elem("uint128"), &mut slot, &mut off);
    let b = resolve_one("b", &elem("uint128"), &mut slot, &mut off);
    let c = resolve_one("c", &elem("uint8"), &mut slot, &mut off);
    assert_eq!((a.slot, a.offset, a.size), (0, 0, 128));
    assert_eq!((b.slot, b.offset, b.size), (0, 128, 128));
    assert_eq!((c.slot, c.offset, c.size), (1, 0, 8));
}

#[test]
fn two_fields_share_or_split_a_slot_by_combined_width() {
    // combined width <= 256: one shared slot
    let mut slot: usize = 0;
    let mut off: usize = 0;
    let a = resolve_one("a", &elem("uint128"), &mut slot, &mut off);
    let b = resolve_one("b", &elem("uint128"), &mut slot, &mut off);
    assert_eq!((a.slot, a.offset), (0, 0));
    assert_eq!((b.slot, b.offset), (0, 128));
    // combined width > 256: two slots, the second at offset 0
    let mut slot2: usize = 0;
    let mut off2: usize = 0;
    let x = resolve_one("x", &elem("uint200"), &mut slot2, &mut off2);
    let y = resolve_one("y", &elem("uint128"), &mut slot2, &mut off2);
    assert_eq!((x.slot, x.offset), (0, 0));
    assert_eq!((y.slot, y.offset), (1, 0));
}

#[test]
fn mapping_takes_the_next_slot_and_moves_the_cursor_past_it() {
    let m = TypeName::Mapping {
        key_type: Box::new(elem("address")),
        value_type: Box::new(elem("uint256")),
    };
    let mut slot: usize = 5;
    let mut off: usize = 13;
    let v = resolve_one("bal", &m, &mut slot, &mut off);
    assert_eq!(v.slot, 6);
    assert_eq!(v.offset, 0);
    assert_eq!(v.size, 256);
    assert_eq!(v.var_type, "mapping");
    assert_eq!((slot, off), (7, 0));
    // the value child is shaped relative to slot 0
    let values = v.values.as_ref().unwrap();
    assert_eq!(values.entries.len(), 1);
    let (label, child) = &values.entries[0];
    assert_eq!(label, "value");
    assert_eq!((child.slot, child.offset, child.size), (0, 0, 256));
    assert_eq!(child.path, "bal.value");
    // the key is a placeholder of nominal word size
    let key = v.key.as_ref().unwrap();
    assert_eq!(key.var_type, "address");
    assert_eq!((key.slot, key.offset, key.size), (0, 0, 256));
    assert_eq!(key.path, "bal.key");
}

#[test]
fn fixed_array_elements_follow_the_width_formula() {
    // eight 64-bit elements: element i sits at start + (i*64)/256
    let arr = TypeName::ArrayTypeName {
        base_type: Box::new(elem("uint64")),
        length: Some(ArrayLength::new(Some("8".to_string()))),
    };
    let mut slot: usize = 0;
    let mut off: usize = 0;
    let v = resolve_one("xs", &arr, &mut slot, &mut off);
    let start = v.slot;
    assert_eq!(start, 1);
    assert_eq!(v.size, 512);
    assert_eq!(v.length, Some(8));
    let entries = &v.values.as_ref().unwrap().entries;
    assert_eq!(entries.len(), 8);
    for i in 0..8 {
        let (label, child) = &entries[i];
        assert_eq!(label, &format!("element_{}", i));
        assert_eq!(child.slot, start + (i * 64) / 256);
        assert_eq!(child.offset, (i * 64) % 256);
        assert_eq!(child.size, 64);
    }
}

#[test]
fn small_fixed_array_packs_in_one_slot() {
    // three 8-bit elements: offsets 0, 8, 16, all in the array's start slot
    let arr = TypeName::ArrayTypeName {
        base_type: Box::new(elem("uint8")),
        length: Some(ArrayLength::new(Some("3".to_string()))),
    };
    let mut slot: usize = 0;
    let mut off: usize = 0;
    let v = resolve_one("xs", &arr, &mut slot, &mut off);
    let start = v.slot;
    assert_eq!(v.size, 24);
    assert_eq!(v.length, Some(3));
    let entries = &v.values.as_ref().unwrap().entries;
    assert_eq!(entries.len(), 3);
    for i in 0..3 {
        let (_, child) = &entries[i];
        assert_eq!(child.slot, start);
        assert_eq!(child.offset, i * 8);
        assert_eq!(child.size, 8);
    }
    assert_eq!(entries[1].1.path, format!("{} + 0 (offset: 8)", start));
}

#[test]
fn dynamic_array_derives_its_content_slot_from_the_pointer_slot() {
    let arr = TypeName::ArrayTypeName { base_type: Box::new(elem("uint256")), length: None };
    let mut slot: usize = 0;
    let mut off: usize = 0;
    let v = resolve_one("xs", &arr, &mut slot, &mut off);
    let pointer_slot = v.slot;
    assert_eq!(pointer_slot, 1);
    assert_eq!(v.size, 256);
    assert_eq!(v.length, None);
    assert_eq!((slot, off), (1, 0));
    let entries = &v.values.as_ref().unwrap().entries;
    assert_eq!(entries.len(), 1);
    let (label, child) = &entries[0];
    assert_eq!(label, "element");
    assert_eq!(child.slot, content_slot(pointer_slot));
    assert_eq!(child.offset, 0);
    assert_eq!(child.path, "keccak256(1)");
}

#[test]
fn content_slot_is_deterministic_and_spreads() {
    // same pointer slot, same derived slot
    for p in 0..20usize {
        assert_eq!(content_slot(p), content_slot(p));
    }
    // distinct pointer slots land apart over a sample
    let mut seen: Vec<usize> = Vec::new();
    for p in 0..20usize {
        let c = content_slot(p);
        assert!(!seen.contains(&c));
        seen.push(c);
    }
    // the derivation is not the identity on the pointer slot bytes
    assert_ne!(content_slot(0), 0);
}

#[test]
fn end_to_end_packing_with_a_mapping() {
    let decls: Vec<(String, TypeName)> = vec![
        ("a".to_string(), elem("uint128")),
        ("b".to_string(), elem("uint128")),
        ("c".to_string(), elem("uint256")),
        (
            "m".to_string(),
            TypeName::Mapping {
                key_type: Box::new(elem("address")),
                value_type: Box::new(elem("uint256")),
            },
        ),
    ];
    let dict = resolve_declarations(&decls).unwrap();
    assert_eq!(dict.entries.len(), 4);
    let a = &dict.entries[0].1;
    let b = &dict.entries[1].1;
    let c = &dict.entries[2].1;
    let m = &dict.entries[3].1;
    assert_eq!((a.slot, a.offset, a.size), (0, 0, 128));
    assert_eq!((b.slot, b.offset, b.size), (0, 128, 128));
    assert_eq!((c.slot, c.offset, c.size), (1, 0, 256));
    assert_eq!((m.slot, m.offset, m.size), (2, 0, 256));
    assert_eq!(m.var_type, "mapping");
    let value = &m.values.as_ref().unwrap().entries[0].1;
    assert_eq!((value.slot, value.offset, value.size), (0, 0, 256));
    assert_eq!(value.var_type, "uint256");
    assert_eq!(m.key.as_ref().unwrap().var_type, "address");
}

#[test]
fn unknown_type_aborts_and_leaves_the_cursor_unchanged() {
    let mut slot: usize = 3;
    let mut off: usize = 17;
    let res = process_variable("v".to_string(), &elem("foo256"), &mut off, &mut slot, "v", "v");
    assert_eq!(res.unwrap_err(), LayoutError::UnrecognizedType);
    assert_eq!((slot, off), (3, 17));
    // the same failure aborts a whole pass
    let decls: Vec<(String, TypeName)> =
        vec![("a".to_string(), elem("uint8")), ("v".to_string(), elem("foo256"))];
    assert!(resolve_declarations(&decls).is_err());
}

#[test]
fn collects_typed_variable_declarations_in_order() {
    let nodes = vec![
        Node::Ignored,
        Node::VariableDeclaration { name: "a".to_string(), ty_name: Some(elem("uint8")) },
        Node::VariableDeclaration { name: "skip".to_string(), ty_name: None },
        Node::VariableDeclaration { name: "b".to_string(), ty_name: Some(elem("bool")) },
    ];
    let decls = collect_declarations(nodes);
    assert_eq!(decls.len(), 2);
    assert_eq!(decls[0].0, "a");
    assert_eq!(decls[1].0, "b");
}
