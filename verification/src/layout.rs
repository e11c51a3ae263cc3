//! The storage layout resolver: slot packing and content-address derivation.

use vstd::prelude::*;
use vstd::string::StrSliceExecFns;
use vstd::string::StringExecFns;
use sha3::{Digest, Keccak256};
use crate::text::{dec_of, dec_str};
use crate::types::{spec_parse_type, parse_solidity_type, spec_size_of, checked_size_of,
    LayoutError};
use crate::tree::{TypeName, ArrayLength, spec_extract_type_name, extract_type_name,
    spec_array_len};

verus! {

/// Resolved placement of a mapping's key: a placeholder, since the concrete
/// slot of a keyed entry needs a runtime key value.
#[derive(Debug, Clone)]
pub struct KeyInfo {
    pub var_type: String,
    pub offset: usize,
    pub slot: usize,
    pub size: usize,
    pub path: String,
    pub raw_path: String,
}

/// Resolved placement of one variable or nested element.
#[derive(Debug)]
pub struct Variable {
    pub name: Option<String>,
    pub var_type: String,
    pub key: Option<KeyInfo>,
    pub values: Option<VariablesDict>,
    pub offset: usize,
    pub slot: usize,
    pub size: usize,
    pub path: String,
    pub raw_path: String,
    pub length: Option<usize>,
}

/// An insertion-ordered dictionary of named layout entries.
#[derive(Debug)]
pub struct VariablesDict {
    pub entries: Vec<(String, Variable)>,
}

/// Mathematical form of `KeyInfo`.
#[verifier::ext_equal]
pub ghost struct KeyModel {
    pub var_type: Seq<char>,
    pub offset: nat,
    pub slot: nat,
    pub size: nat,
    pub path: Seq<char>,
    pub raw_path: Seq<char>,
}

/// Mathematical form of `Variable`.
#[verifier::ext_equal]
pub ghost struct VarModel {
    pub name: Option<Seq<char>>,
    pub var_type: Seq<char>,
    pub key: Option<KeyModel>,
    pub values: Option<Seq<(Seq<char>, VarModel)>>,
    pub offset: nat,
    pub slot: nat,
    pub size: nat,
    pub path: Seq<char>,
    pub raw_path: Seq<char>,
    pub length: Option<nat>,
}

impl View for KeyInfo {
    type V = KeyModel;

    open spec fn view(&self) -> KeyModel {
        KeyModel {
            var_type: self.var_type@,
            offset: self.offset as nat,
            slot: self.slot as nat,
            size: self.size as nat,
            path: self.path@,
            raw_path: self.raw_path@,
        }
    }
}

/// Mathematical form of a layout entry.
pub open spec fn var_view(v: Variable) -> VarModel
    decreases v, 1int,
{
    VarModel {
        name: match v.name {
            Some(s) => Some(s@),
            None => None,
        },
        var_type: v.var_type@,
        key: match v.key {
            Some(k) => Some(k@),
            None => None,
        },
        values: match v.values {
            Some(d) => Some(entries_view(d.entries@)),
            None => None,
        },
        offset: v.offset as nat,
        slot: v.slot as nat,
        size: v.size as nat,
        path: v.path@,
        raw_path: v.raw_path@,
        length: match v.length {
            Some(l) => Some(l as nat),
            None => None,
        },
    }
}

/// Mathematical form of a run of named layout entries.
pub open spec fn entries_view(s: Seq<(String, Variable)>) -> Seq<(Seq<char>, VarModel)>
    decreases s, 0int,
{
    if s.len() == 0 {
        Seq::empty()
    } else {
        seq![(s[0].0@, var_view(s[0].1))] + entries_view(s.drop_first())
    }
}

impl View for Variable {
    type V = VarModel;

    open spec fn view(&self) -> VarModel {
        var_view(*self)
    }
}

impl View for VariablesDict {
    type V = Seq<(Seq<char>, VarModel)>;

    open spec fn view(&self) -> Seq<(Seq<char>, VarModel)> {
        entries_view(self.entries@)
    }
}

/// The mathematical form of a run of entries has one pair per entry.
pub proof fn lemma_entries_view_len(s: Seq<(String, Variable)>)
    ensures
        entries_view(s).len() == s.len(),
    decreases s.len(),
{
    if s.len() > 0 {
        lemma_entries_view_len(s.drop_first());
    }
}

/// Appending one named entry extends the mathematical form by one pair.
pub proof fn lemma_entries_view_push(s: Seq<(String, Variable)>, x: (String, Variable))
    ensures
        entries_view(s.push(x)) == entries_view(s) + seq![(x.0@, var_view(x.1))],
    decreases s.len(),
{
    if s.len() == 0 {
        assert(s.push(x)[0] == x);
        assert(s.push(x).drop_first() =~= Seq::<(String, Variable)>::empty());
        assert(entries_view(Seq::<(String, Variable)>::empty())
            == Seq::<(Seq<char>, VarModel)>::empty());
        assert(entries_view(s.push(x)) == seq![(x.0@, var_view(x.1))] + entries_view(
            s.push(x).drop_first(),
        ));
        assert(entries_view(s.push(x)) =~= entries_view(s) + seq![(x.0@, var_view(x.1))]);
    } else {
        assert(s.push(x).drop_first() =~= s.drop_first().push(x));
        lemma_entries_view_push(s.drop_first(), x);
        assert(s.push(x)[0] == s[0]);
        assert(entries_view(s.push(x)) =~= entries_view(s) + seq![(x.0@, var_view(x.1))]);
    }
}

impl VariablesDict {
    /// An empty dictionary.
    pub fn new() -> (res: VariablesDict)
        ensures
            res@ == Seq::<(Seq<char>, VarModel)>::empty(),
    {
        VariablesDict { entries: Vec::new() }
    }

    /// Number of entries.
    pub fn len(&self) -> (res: usize)
        ensures
            res == self.entries@.len(),
    {
        self.entries.len()
    }

    /// Append a named entry, keeping insertion order.
    pub fn insert(&mut self, key: String, value: Variable)
        ensures
            final(self)@ == old(self)@ + seq![(key@, value@)],
    {
        let ghost e0 = self.entries@;
        let ghost x = (key, value);
        self.entries.push((key, value));
        proof {
            lemma_entries_view_push(e0, x);
        }
    }
}

/// Relies on sha3::Keccak256 (through the Digest trait): the 32-byte Keccak
/// digest of the input, a function of the input bytes alone.
pub uninterp spec fn keccak_of(input: Seq<u8>) -> Seq<u8>;

/// Relies on sha3::Keccak256::digest: returns the 32-byte Keccak-256 digest
/// of the input bytes.
#[verifier::external_body]
fn keccak256(input: &[u8]) -> (res: Vec<u8>)
    ensures
        res@ == keccak_of(input@),
        res@.len() == 32,
{
    Keccak256::digest(input).to_vec()
}

/// The 32 bytes of the storage word holding `v`, most significant first:
/// twenty-four zero bytes, then the eight bytes of `v`.
pub open spec fn slot_be_bytes(v: u64) -> Seq<u8> {
    seq![
        0u8,
        0u8,
        0u8,
        0u8,
        0u8,
        0u8,
        0u8,
        0u8,
        0u8,
        0u8,
        0u8,
        0u8,
        0u8,
        0u8,
        0u8,
        0u8,
        0u8,
        0u8,
        0u8,
        0u8,
        0u8,
        0u8,
        0u8,
        0u8,
        (v >> 56) as u8,
        (v >> 48) as u8,
        (v >> 40) as u8,
        (v >> 32) as u8,
        (v >> 24) as u8,
        (v >> 16) as u8,
        (v >> 8) as u8,
        v as u8,
    ]
}

fn slot_to_be_bytes(v: u64) -> (res: Vec<u8>)
    ensures
        res@ == slot_be_bytes(v),
{
    let mut b: Vec<u8> = Vec::new();
    let mut i: usize = 0;
    while i < 24
        invariant
            i <= 24,
            b@.len() == i,
            forall|k: int| 0 <= k < i ==> b@[k] == 0u8,
        decreases 24 - i,
    {
        b.push(0u8);
        i += 1;
    }
    b.push(#[verifier::truncate] ((v >> 56) as u8));
    b.push(#[verifier::truncate] ((v >> 48) as u8));
    b.push(#[verifier::truncate] ((v >> 40) as u8));
    b.push(#[verifier::truncate] ((v >> 32) as u8));
    b.push(#[verifier::truncate] ((v >> 24) as u8));
    b.push(#[verifier::truncate] ((v >> 16) as u8));
    b.push(#[verifier::truncate] ((v >> 8) as u8));
    b.push(#[verifier::truncate] (v as u8));
    proof {
        assert(b@ =~= slot_be_bytes(v));
    }
    b
}

/// The number read from bytes 24 to 31 of `s` — the low-order eight bytes of
/// a 32-byte word — most significant first.
pub open spec fn be_val_low8(s: Seq<u8>) -> nat
    recommends
        s.len() == 32,
{
    (s[24] * 0x100_0000_0000_0000 + s[25] * 0x1_0000_0000_0000 + s[26] * 0x100_0000_0000 + s[27]
        * 0x1_0000_0000 + s[28] * 0x100_0000 + s[29] * 0x1_0000 + s[30] * 0x100 + s[31]) as nat
}

fn be_u64_of_low8(bytes: &Vec<u8>) -> (res: u64)
    requires
        bytes@.len() == 32,
    ensures
        res as nat == be_val_low8(bytes@),
{
    let b0 = bytes[24] as u64;
    let b1 = bytes[25] as u64;
    let b2 = bytes[26] as u64;
    let b3 = bytes[27] as u64;
    let b4 = bytes[28] as u64;
    let b5 = bytes[29] as u64;
    let b6 = bytes[30] as u64;
    let b7 = bytes[31] as u64;
    b0 * 0x100_0000_0000_0000 + b1 * 0x1_0000_0000_0000 + b2 * 0x100_0000_0000 + b3 * 0x1_0000_0000
        + b4 * 0x100_0000 + b5 * 0x1_0000 + b6 * 0x100 + b7
}

/// Content address of a dynamic array: the low-order 64 bits of the Keccak
/// digest of the pointer slot's 32-byte big-endian encoding, narrowed to
/// `usize`.
pub open spec fn spec_content_slot(p: nat) -> usize {
    be_val_low8(keccak_of(slot_be_bytes(p as u64))) as usize
}

/// Derive the slot where a dynamic array's content begins from the slot that
/// holds its pointer.
pub fn content_slot(pointer_slot: usize) -> (res: usize)
    ensures
        res == spec_content_slot(pointer_slot as nat),
{
    let bytes = slot_to_be_bytes(pointer_slot as u64);
    let hash = keccak256(bytes.as_slice());
    let v = be_u64_of_low8(&hash);
    #[verifier::truncate] (v as usize)
}

/// What resolving one declaration yields: the layout entry's mathematical
/// form, and the slot and offset the cursor holds afterwards.
///
/// The rules, in the order the shapes are tried:
/// - an elementary field packs at the cursor, moving to a fresh slot first
///   when it would not fit in the remaining bits of the current slot;
/// - a mapping takes one fresh slot of its own, resolves its value relative
///   to a fresh cursor at slot zero, and leaves the enclosing cursor past its
///   slot, so a following sibling never aliases it;
/// - a fixed array starts at a fresh slot and packs its elements in sequence
///   with the enclosing cursor, which afterwards rests on the last element;
/// - a dynamic array takes one fresh pointer slot and resolves its single
///   representative element at the derived content address of that slot; the
///   enclosing cursor afterwards rests on the pointer slot at offset zero, so
///   a following packed elementary sibling shares the pointer slot itself
///   (only a mapping consumes its slot outright).
pub open spec fn spec_resolve(
    nm: Seq<char>,
    t: TypeName,
    slot: nat,
    off: nat,
    path: Seq<char>,
    raw: Seq<char>,
) -> Result<(VarModel, nat, nat), LayoutError>
    decreases t, 0int,
{
    match t {
        TypeName::ElementaryTypeName { name: tn } => match spec_parse_type(tn@) {
            Err(e) => Err(e),
            Ok(st) => {
                let size = spec_size_of(st);
                if size > usize::MAX {
                    Err(LayoutError::CursorOverflow)
                } else if off + size > 256 && slot + 1 > usize::MAX {
                    Err(LayoutError::CursorOverflow)
                } else {
                    let es: nat = if off + size > 256 {
                        slot + 1
                    } else {
                        slot
                    };
                    let eo: nat = if off + size > 256 {
                        0
                    } else {
                        off
                    };
                    Ok(
                        (
                            VarModel {
                                name: Some(nm),
                                var_type: tn@,
                                key: None,
                                values: None,
                                offset: eo,
                                slot: es,
                                size: size,
                                path: path,
                                raw_path: raw,
                                length: None,
                            },
                            es,
                            eo + size,
                        ),
                    )
                }
            },
        },
        TypeName::Mapping { key_type, value_type } => match spec_resolve(
            "value"@,
            *value_type,
            0,
            0,
            path + ".value"@,
            raw + ".value"@,
        ) {
            Err(e) => Err(e),
            Ok((vm, _, _)) => {
                if slot + 2 > usize::MAX {
                    Err(LayoutError::CursorOverflow)
                } else {
                    Ok(
                        (
                            VarModel {
                                name: Some(nm),
                                var_type: "mapping"@,
                                key: Some(
                                    KeyModel {
                                        var_type: spec_extract_type_name(*key_type),
                                        offset: 0,
                                        slot: 0,
                                        size: 256,
                                        path: path + ".key"@,
                                        raw_path: raw + ".key"@,
                                    },
                                ),
                                values: Some(seq![("value"@, vm)]),
                                offset: 0,
                                slot: slot + 1,
                                size: 256,
                                path: path,
                                raw_path: raw,
                                length: None,
                            },
                            slot + 2,
                            0,
                        ),
                    )
                }
            },
        },
        TypeName::ArrayTypeName { base_type, length } => match spec_parse_type(
            spec_extract_type_name(*base_type),
        ) {
            Err(e) => Err(e),
            Ok(el_t) => {
                let el_size = spec_size_of(el_t);
                if el_size > usize::MAX || slot + 1 > usize::MAX {
                    Err(LayoutError::CursorOverflow)
                } else {
                    match spec_length_of(length) {
                        Some(len) => {
                            if el_size * (len as nat) > usize::MAX {
                                Err(LayoutError::CursorOverflow)
                            } else {
                                match spec_resolve_elems(
                                    *base_type,
                                    0,
                                    len as nat,
                                    slot + 1,
                                    0,
                                    raw,
                                    slot + 1,
                                ) {
                                    Err(e) => Err(e),
                                    Ok((entries, s2, o2)) => Ok(
                                        (
                                            VarModel {
                                                name: Some(nm),
                                                var_type: "array"@,
                                                key: None,
                                                values: Some(entries),
                                                offset: 0,
                                                slot: slot + 1,
                                                size: el_size * (len as nat),
                                                path: path,
                                                raw_path: raw,
                                                length: Some(len as nat),
                                            },
                                            s2,
                                            o2,
                                        ),
                                    ),
                                }
                            }
                        },
                        None => {
                            let ptr: nat = slot + 1;
                            match spec_resolve(
                                "element"@,
                                *base_type,
                                spec_content_slot(ptr) as nat,
                                0,
                                "keccak256("@ + dec_of(ptr) + ")"@,
                                raw + ".element"@,
                            ) {
                                Err(e) => Err(e),
                                Ok((em, _, _)) => Ok(
                                    (
                                        VarModel {
                                            name: Some(nm),
                                            var_type: "array"@,
                                            key: None,
                                            values: Some(seq![("element"@, em)]),
                                            offset: 0,
                                            slot: ptr,
                                            size: 256,
                                            path: path,
                                            raw_path: raw,
                                            length: None,
                                        },
                                        ptr,
                                        0,
                                    ),
                                ),
                            }
                        },
                    }
                }
            },
        },
    }
}

/// Declared length of an array node: a number only for a well-formed
/// fixed-size annotation.
pub open spec fn spec_length_of(length: Option<ArrayLength>) -> Option<usize> {
    match length {
        Some(al) => spec_array_len(al@),
        None => None,
    }
}

/// What resolving the elements `i..len` of a fixed array yields: the run of
/// labelled element entries and the cursor afterwards. Each element's path is
/// rewritten to a slot-relative formula over the array's start slot `init`.
pub open spec fn spec_resolve_elems(
    base: TypeName,
    i: nat,
    len: nat,
    slot: nat,
    off: nat,
    raw: Seq<char>,
    init: nat,
) -> Result<(Seq<(Seq<char>, VarModel)>, nat, nat), LayoutError>
    decreases base, (len - i) as int,
{
    if i >= len {
        Ok((Seq::empty(), slot, off))
    } else {
        let enm = "element_"@ + dec_of(i);
        match spec_resolve(enm, base, slot, off, Seq::empty(), raw + "."@ + enm) {
            Err(e) => Err(e),
            Ok((m, s2, o2)) => {
                let pm = VarModel {
                    path: dec_of(init) + " + "@ + dec_of((m.slot - init) as nat) + " (offset: "@
                        + dec_of(m.offset) + ")"@,
                    ..m
                };
                match spec_resolve_elems(base, i + 1, len, s2, o2, raw, init) {
                    Err(e) => Err(e),
                    Ok((rest, s3, o3)) => Ok((seq![(enm, pm)] + rest, s3, o3)),
                }
            },
        }
    }
}

/// A resolution never moves the cursor backwards, and places its entry no
/// earlier than the slot the cursor stood on.
pub proof fn lemma_resolve_slot_monotone(
    nm: Seq<char>,
    t: TypeName,
    slot: nat,
    off: nat,
    path: Seq<char>,
    raw: Seq<char>,
)
    ensures
        match spec_resolve(nm, t, slot, off, path, raw) {
            Ok((m, s2, o2)) => slot <= m.slot && slot <= s2,
            Err(_) => true,
        },
    decreases t, 0int,
{
    match t {
        TypeName::ElementaryTypeName { .. } => {},
        TypeName::Mapping { .. } => {},
        TypeName::ArrayTypeName { base_type, length } => {
            match spec_parse_type(spec_extract_type_name(*base_type)) {
                Err(_) => {},
                Ok(el_t) => {
                    if spec_size_of(el_t) <= usize::MAX && slot + 1 <= usize::MAX {
                        match spec_length_of(length) {
                            Some(len) => {
                                lemma_resolve_elems_slot_monotone(
                                    *base_type,
                                    0,
                                    len as nat,
                                    slot + 1,
                                    0,
                                    raw,
                                    slot + 1,
                                );
                            },
                            None => {},
                        }
                    }
                },
            }
        },
    }
}

/// Resolving a run of array elements never moves the cursor backwards.
pub proof fn lemma_resolve_elems_slot_monotone(
    base: TypeName,
    i: nat,
    len: nat,
    slot: nat,
    off: nat,
    raw: Seq<char>,
    init: nat,
)
    ensures
        match spec_resolve_elems(base, i, len, slot, off, raw, init) {
            Ok((ms, s3, o3)) => slot <= s3,
            Err(_) => true,
        },
    decreases base, (len - i) as int,
{
    if i < len {
        let enm = "element_"@ + dec_of(i);
        lemma_resolve_slot_monotone(enm, base, slot, off, Seq::empty(), raw + "."@ + enm);
        match spec_resolve(enm, base, slot, off, Seq::empty(), raw + "."@ + enm) {
            Err(_) => {},
            Ok((m, s2, o2)) => {
                lemma_resolve_elems_slot_monotone(base, i + 1, len, s2, o2, raw, init);
            },
        }
    }
}

/// Resolve one declared variable against the cursor, packing it by the rules
/// of `spec_resolve`; on failure the cursor is left unchanged.
pub fn process_variable(
    name: String,
    ty_name: &TypeName,
    current_offset: &mut usize,
    current_slot: &mut usize,
    path: &str,
    raw_path: &str,
) -> (res: Result<Variable, LayoutError>)
    ensures
        match spec_resolve(
            name@,
            *ty_name,
            *old(current_slot) as nat,
            *old(current_offset) as nat,
            path@,
            raw_path@,
        ) {
            Ok((m, s2, o2)) => res matches Ok(v) && v@ == m && *final(current_slot) as nat == s2
                && *final(current_offset) as nat == o2,
            Err(e) => res == Err::<Variable, LayoutError>(e) && *final(current_slot) == *old(
                current_slot,
            ) && *final(current_offset) == *old(current_offset),
        },
    decreases *ty_name, 0int,
{
    match ty_name {
        TypeName::ElementaryTypeName { name: tn } => {
            let st = match parse_solidity_type(tn.as_str()) {
                Err(e) => {
                    return Err(e);
                },
                Ok(st) => st,
            };
            let size = match checked_size_of(&st) {
                None => {
                    return Err(LayoutError::CursorOverflow);
                },
                Some(s) => s,
            };
            let needs_fresh = *current_offset > 256 || size > 256 - *current_offset;
            assert(needs_fresh == (*old(current_offset) + size > 256));
            if needs_fresh {
                if *current_slot == usize::MAX {
                    return Err(LayoutError::CursorOverflow);
                }
                *current_slot += 1;
                *current_offset = 0;
            }
            let variable = Variable {
                name: Some(name),
                var_type: tn.clone(),
                key: None,
                values: None,
                offset: *current_offset,
                slot: *current_slot,
                size: size,
                path: path.to_owned(),
                raw_path: raw_path.to_owned(),
                length: None,
            };
            *current_offset += size;
            Ok(variable)
        },
        TypeName::Mapping { key_type, value_type } => {
            let mut intern_slot: usize = 0;
            let mut intern_offset: usize = 0;
            let value_path = path.to_owned().concat(".value");
            let value_raw = raw_path.to_owned().concat(".value");
            let value_variable = match process_variable(
                String::from_str("value"),
                value_type,
                &mut intern_offset,
                &mut intern_slot,
                value_path.as_str(),
                value_raw.as_str(),
            ) {
                Err(e) => {
                    return Err(e);
                },
                Ok(v) => v,
            };
            if *current_slot >= usize::MAX - 1 {
                return Err(LayoutError::CursorOverflow);
            }
            let key_info = KeyInfo {
                var_type: extract_type_name(key_type),
                offset: 0,
                slot: 0,
                size: 256,
                path: path.to_owned().concat(".key"),
                raw_path: raw_path.to_owned().concat(".key"),
            };
            let ghost vm = value_variable@;
            let mut values = VariablesDict::new();
            values.insert(String::from_str("value"), value_variable);
            proof {
                assert(values@ =~= seq![("value"@, vm)]);
            }
            *current_slot += 1;
            *current_offset = 0;
            let variable = Variable {
                name: Some(name),
                var_type: String::from_str("mapping"),
                key: Some(key_info),
                values: Some(values),
                offset: 0,
                slot: *current_slot,
                size: 256,
                path: path.to_owned(),
                raw_path: raw_path.to_owned(),
                length: None,
            };
            *current_slot += 1;
            Ok(variable)
        },
        TypeName::ArrayTypeName { base_type, length } => {
            let el_name = extract_type_name(base_type);
            let el_t = match parse_solidity_type(el_name.as_str()) {
                Err(e) => {
                    return Err(e);
                },
                Ok(t) => t,
            };
            let el_size = match checked_size_of(&el_t) {
                None => {
                    return Err(LayoutError::CursorOverflow);
                },
                Some(s) => s,
            };
            if *current_slot == usize::MAX {
                return Err(LayoutError::CursorOverflow);
            }
            let len_opt = match length {
                Some(al) => al.as_usize(),
                None => None,
            };
            match len_opt {
                Some(len) => {
                    let total = match el_size.checked_mul(len) {
                        None => {
                            return Err(LayoutError::CursorOverflow);
                        },
                        Some(t) => t,
                    };
                    let init = *current_slot + 1;
                    let mut slot_c: usize = init;
                    let mut off_c: usize = 0;
                    let values = match resolve_elements(
                        base_type,
                        len,
                        init,
                        &mut slot_c,
                        &mut off_c,
                        raw_path,
                    ) {
                        Err(e) => {
                            return Err(e);
                        },
                        Ok(v) => v,
                    };
                    *current_slot = slot_c;
                    *current_offset = off_c;
                    let variable = Variable {
                        name: Some(name),
                        var_type: String::from_str("array"),
                        key: None,
                        values: Some(values),
                        offset: 0,
                        slot: init,
                        size: total,
                        path: path.to_owned(),
                        raw_path: raw_path.to_owned(),
                        length: Some(len),
                    };
                    Ok(variable)
                },
                None => {
                    let pointer_slot = *current_slot + 1;
                    let element_path = String::from_str("keccak256(").concat(
                        dec_str(pointer_slot).as_str(),
                    ).concat(")");
                    let element_raw = raw_path.to_owned().concat(".element");
                    let mut intern_slot: usize = content_slot(pointer_slot);
                    let mut intern_offset: usize = 0;
                    let element_variable = match process_variable(
                        String::from_str("element"),
                        base_type,
                        &mut intern_offset,
                        &mut intern_slot,
                        element_path.as_str(),
                        element_raw.as_str(),
                    ) {
                        Err(e) => {
                            return Err(e);
                        },
                        Ok(v) => v,
                    };
                    let ghost em = element_variable@;
                    let mut values = VariablesDict::new();
                    values.insert(String::from_str("element"), element_variable);
                    proof {
                        assert(values@ =~= seq![("element"@, em)]);
                    }
                    *current_slot = pointer_slot;
                    *current_offset = 0;
                    let variable = Variable {
                        name: Some(name),
                        var_type: String::from_str("array"),
                        key: None,
                        values: Some(values),
                        offset: 0,
                        slot: pointer_slot,
                        size: 256,
                        path: path.to_owned(),
                        raw_path: raw_path.to_owned(),
                        length: None,
                    };
                    Ok(variable)
                },
            }
        },
    }
}

/// Resolve the elements of a fixed array in sequence, packing them with one
/// shared cursor; each element's path becomes a formula relative to the
/// array's start slot `init`.
fn resolve_elements(
    base_type: &TypeName,
    len: usize,
    init: usize,
    slot_c: &mut usize,
    off_c: &mut usize,
    raw_path: &str,
) -> (res: Result<VariablesDict, LayoutError>)
    requires
        init <= *old(slot_c),
    ensures
        match spec_resolve_elems(
            *base_type,
            0,
            len as nat,
            *old(slot_c) as nat,
            *old(off_c) as nat,
            raw_path@,
            init as nat,
        ) {
            Ok((ms, s3, o3)) => res matches Ok(d) && d@ == ms && *final(slot_c) as nat == s3
                && *final(off_c) as nat == o3,
            Err(e) => res == Err::<VariablesDict, LayoutError>(e),
        },
    decreases *base_type, 1int,
{
    let mut values = VariablesDict::new();
    let mut i: usize = 0;
    let ghost rawseq = raw_path@;
    let ghost base_g = *base_type;
    let ghost slot0: nat = *slot_c as nat;
    let ghost off0: nat = *off_c as nat;
    while i < len
        invariant
            i <= len,
            init <= *slot_c,
            rawseq == raw_path@,
            base_g == *base_type,
            slot0 == *old(slot_c) as nat,
            off0 == *old(off_c) as nat,
            match spec_resolve_elems(
                base_g,
                i as nat,
                len as nat,
                *slot_c as nat,
                *off_c as nat,
                rawseq,
                init as nat,
            ) {
                Ok((rest, s3, o3)) => spec_resolve_elems(
                    base_g,
                    0,
                    len as nat,
                    slot0,
                    off0,
                    rawseq,
                    init as nat,
                ) == Ok::<_, LayoutError>((values@ + rest, s3, o3)),
                Err(e) => spec_resolve_elems(base_g, 0, len as nat, slot0, off0, rawseq, init as nat)
                    == Err::<(Seq<(Seq<char>, VarModel)>, nat, nat), _>(e),
            },
        decreases len - i,
    {
        let enm = String::from_str("element_").concat(dec_str(i).as_str());
        let ghost enm_g = enm@;
        let eraw = raw_path.to_owned().concat(".").concat(enm.as_str());
        proof {
            reveal_strlit("");
            reveal_strlit(".");
            assert(""@ =~= Seq::<char>::empty());
            assert(eraw@ == rawseq + "."@ + enm_g);
        }
        let ghost slot_before: nat = *slot_c as nat;
        let ghost off_before: nat = *off_c as nat;
        let mut variable = match process_variable(
            enm.clone(),
            base_type,
            off_c,
            slot_c,
            "",
            eraw.as_str(),
        ) {
            Err(e) => {
                return Err(e);
            },
            Ok(v) => v,
        };
        let ghost m = variable@;
        proof {
            lemma_resolve_slot_monotone(
                enm_g,
                base_g,
                slot_before,
                off_before,
                Seq::empty(),
                rawseq + "."@ + enm_g,
            );
            assert(spec_resolve(enm_g, base_g, slot_before, off_before, Seq::empty(), rawseq + "."@
                + enm_g) == Ok::<_, LayoutError>((m, *slot_c as nat, *off_c as nat)));
        }
        assert(init <= variable.slot);
        let delta = variable.slot - init;
        let computed_path = dec_str(init).concat(" + ").concat(dec_str(delta).as_str()).concat(
            " (offset: ",
        ).concat(dec_str(variable.offset).as_str()).concat(")");
        variable.path = computed_path;
        let ghost pm = VarModel {
            path: dec_of(init as nat) + " + "@ + dec_of((m.slot - init as nat) as nat)
                + " (offset: "@ + dec_of(m.offset) + ")"@,
            ..m
        };
        proof {
            assert(variable@ =~~= pm);
        }
        let ghost vs0 = values@;
        values.insert(enm, variable);
        let ghost tail = spec_resolve_elems(
            base_g,
            i as nat + 1,
            len as nat,
            *slot_c as nat,
            *off_c as nat,
            rawseq,
            init as nat,
        );
        proof {
            assert(spec_resolve_elems(
                base_g,
                i as nat,
                len as nat,
                slot_before,
                off_before,
                rawseq,
                init as nat,
            ) == (match tail {
                Err(e) => Err::<(Seq<(Seq<char>, VarModel)>, nat, nat), LayoutError>(e),
                Ok((rest, s3, o3)) => Ok((seq![(enm_g, pm)] + rest, s3, o3)),
            }));
            if tail is Ok {
                assert(vs0 + (seq![(enm_g, pm)] + tail->Ok_0.0) =~= values@ + tail->Ok_0.0);
            }
        }
        i += 1;
    }
    proof {
        assert(spec_resolve_elems(
            base_g,
            i as nat,
            len as nat,
            *slot_c as nat,
            *off_c as nat,
            rawseq,
            init as nat,
        ) == Ok::<_, LayoutError>(
            (Seq::<(Seq<char>, VarModel)>::empty(), *slot_c as nat, *off_c as nat),
        ));
        assert(values@ + Seq::<(Seq<char>, VarModel)>::empty() =~= values@);
    }
    Ok(values)
}

/// What resolving the declarations `i..` against the cursor yields: the run
/// of named top-level entries and the final cursor. The cursor persists from
/// one declaration to the next, so sibling variables pack sequentially.
pub open spec fn spec_resolve_decls(
    ds: Seq<(String, TypeName)>,
    i: nat,
    slot: nat,
    off: nat,
) -> Result<(Seq<(Seq<char>, VarModel)>, nat, nat), LayoutError>
    decreases ds.len() - i,
{
    if i >= ds.len() {
        Ok((Seq::empty(), slot, off))
    } else {
        match spec_resolve(ds[i as int].0@, ds[i as int].1, slot, off, ds[i as int].0@, ds[
            i as int
        ].0@) {
            Err(e) => Err(e),
            Ok((m, s2, o2)) => match spec_resolve_decls(ds, i + 1, s2, o2) {
                Err(e) => Err(e),
                Ok((rest, s3, o3)) => Ok((seq![(ds[i as int].0@, m)] + rest, s3, o3)),
            },
        }
    }
}

/// Resolve a whole run of top-level declarations, threading one cursor that
/// starts at slot zero, offset zero; the first failure aborts the pass.
pub fn resolve_declarations(decls: &Vec<(String, TypeName)>) -> (res: Result<
    VariablesDict,
    LayoutError,
>)
    ensures
        match spec_resolve_decls(decls@, 0, 0, 0) {
            Ok((ms, s2, o2)) => res matches Ok(d) && d@ == ms,
            Err(e) => res == Err::<VariablesDict, LayoutError>(e),
        },
{
    let mut dict = VariablesDict::new();
    let mut slot_c: usize = 0;
    let mut off_c: usize = 0;
    let mut i: usize = 0;
    let n = decls.len();
    while i < n
        invariant
            i <= n == decls@.len(),
            match spec_resolve_decls(decls@, i as nat, slot_c as nat, off_c as nat) {
                Ok((rest, s3, o3)) => spec_resolve_decls(decls@, 0, 0, 0) == Ok::<
                    _,
                    LayoutError,
                >((dict@ + rest, s3, o3)),
                Err(e) => spec_resolve_decls(decls@, 0, 0, 0) == Err::<
                    (Seq<(Seq<char>, VarModel)>, nat, nat),
                    _,
                >(e),
            },
        decreases n - i,
    {
        let (dname, dtype) = &decls[i];
        let variable = match process_variable(
            dname.clone(),
            dtype,
            &mut off_c,
            &mut slot_c,
            dname.as_str(),
            dname.as_str(),
        ) {
            Err(e) => {
                return Err(e);
            },
            Ok(v) => v,
        };
        let ghost d0 = dict@;
        dict.insert(dname.clone(), variable);
        proof {
            assert(d0 + (seq![(decls@[i as int].0@, variable@)] + spec_resolve_decls(
                decls@,
                i as nat + 1,
                slot_c as nat,
                off_c as nat,
            )->Ok_0.0) =~= dict@ + spec_resolve_decls(
                decls@,
                i as nat + 1,
                slot_c as nat,
                off_c as nat,
            )->Ok_0.0);
        }
        i += 1;
    }
    Ok(dict)
}

} // verus!
