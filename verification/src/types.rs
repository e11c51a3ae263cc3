//! Elementary type classification and bit-width computation.

use vstd::prelude::*;
use vstd::string::StrSliceExecFns;
use crate::text::{
    all_digits, dec_val, is_digit, parse_dec_usize, str_eq,
    str_starts_with, spec_starts_with,
};

verus! {

/// Failure of a layout computation.
///
/// `UnrecognizedType` is the sole semantic failure: an elementary type name
/// matches no known pattern, so its width — and hence every later slot —
/// cannot be determined. `CursorOverflow` reports that a slot index, an
/// offset or a size does not fit in `usize` on this machine.
#[derive(Debug, Clone, Copy, PartialEq, Eq, Structural)]
pub enum LayoutError {
    UnrecognizedType,
    CursorOverflow,
}

/// The classified form of an elementary type name.
#[derive(Debug, PartialEq, Eq, Hash)]
pub enum SolidityType {
    /// `uintN`; the field holds N, the bit-width.
    Uint(usize),
    /// `intN`; the field holds N, the bit-width.
    Int(usize),
    /// `address`, 160 bits.
    Address,
    /// `bool`, 8 bits.
    Bool,
    /// `bytesN`; the field holds the bit-width, `N * 8`.
    FixedBytes(u16),
    /// Bare `bytes`: pointer-sized, 256 bits.
    DynamicBytes,
    /// `string`: pointer-sized, 256 bits.
    String,
    /// A textual `base[N]` suffix.
    FixedArray(Box<SolidityType>, usize),
    /// A textual `base[]` suffix.
    DynamicArray(Box<SolidityType>),
}

/// Bit-width of a classified type.
pub open spec fn spec_size_of(t: SolidityType) -> nat
    decreases t,
{
    match t {
        SolidityType::Uint(n) => n as nat,
        SolidityType::Int(n) => n as nat,
        SolidityType::Address => 160,
        SolidityType::Bool => 8,
        SolidityType::FixedBytes(b) => b as nat,
        SolidityType::DynamicBytes => 256,
        SolidityType::String => 256,
        SolidityType::FixedArray(base, len) => spec_size_of(*base) * (len as nat),
        SolidityType::DynamicArray(_) => 256,
    }
}

/// Width of the numeric suffix of a sized type name: the given default when
/// absent, the denoted number when it is all digits and fits in `usize`.
pub open spec fn spec_num_suffix(d: Seq<char>, default: nat) -> Option<nat> {
    if d.len() == 0 {
        Some(default)
    } else if all_digits(d) && dec_val(d) <= usize::MAX {
        Some(dec_val(d))
    } else {
        None
    }
}

/// Classification of a name with no array suffix.
pub open spec fn spec_parse_elementary(s: Seq<char>) -> Result<SolidityType, LayoutError> {
    if spec_starts_with(s, "uint"@) {
        match spec_num_suffix(s.skip(4), 256) {
            Some(n) => Ok(SolidityType::Uint(n as usize)),
            None => Err(LayoutError::UnrecognizedType),
        }
    } else if spec_starts_with(s, "int"@) {
        match spec_num_suffix(s.skip(3), 256) {
            Some(n) => Ok(SolidityType::Int(n as usize)),
            None => Err(LayoutError::UnrecognizedType),
        }
    } else if s == "address"@ {
        Ok(SolidityType::Address)
    } else if s == "bool"@ {
        Ok(SolidityType::Bool)
    } else if spec_starts_with(s, "bytes"@) {
        if s.skip(5).len() == 0 {
            Ok(SolidityType::DynamicBytes)
        } else if all_digits(s.skip(5)) && dec_val(s.skip(5)) * 8 <= u16::MAX {
            Ok(SolidityType::FixedBytes((dec_val(s.skip(5)) * 8) as u16))
        } else {
            Err(LayoutError::UnrecognizedType)
        }
    } else if s == "string"@ {
        Ok(SolidityType::String)
    } else {
        Err(LayoutError::UnrecognizedType)
    }
}

/// Start of the run of digits that ends just before position `j`.
pub open spec fn digit_run_start(s: Seq<char>, j: int) -> int
    decreases j,
{
    if j <= 0 {
        0
    } else if is_digit(s[j - 1]) {
        digit_run_start(s, j - 1)
    } else {
        j
    }
}

/// The name ends in `[digits]` (digits possibly empty) after a nonempty base.
pub open spec fn has_array_suffix(s: Seq<char>) -> bool {
    s.len() >= 3 && s.last() == ']' && digit_run_start(s, s.len() - 1) >= 2 && s[digit_run_start(
        s,
        s.len() - 1,
    ) - 1] == '['
}

/// The start of a digit run never lies beyond the scanned position.
pub proof fn lemma_digit_run_start_le(s: Seq<char>, j: int)
    requires
        j >= 0,
    ensures
        0 <= digit_run_start(s, j) <= j,
    decreases j,
{
    if j > 0 && is_digit(s[j - 1]) {
        lemma_digit_run_start_le(s, j - 1);
    }
}

/// Classification of a type name: a trailing `[N]` or `[]` makes an array of
/// the recursively classified base; otherwise the name is elementary. Digits
/// in the suffix that do not fit in `usize` are treated as an absent length.
pub open spec fn spec_parse_type(s: Seq<char>) -> Result<SolidityType, LayoutError>
    decreases s.len(),
    via spec_parse_type_dec
{
    if has_array_suffix(s) {
        let p = digit_run_start(s, s.len() - 1) - 1;
        match spec_parse_type(s.take(p)) {
            Err(e) => Err(e),
            Ok(base) => {
                let d = s.subrange(p + 1, s.len() - 1);
                if d.len() == 0 {
                    Ok(SolidityType::DynamicArray(Box::new(base)))
                } else if dec_val(d) <= usize::MAX {
                    Ok(SolidityType::FixedArray(Box::new(base), dec_val(d) as usize))
                } else {
                    Ok(SolidityType::DynamicArray(Box::new(base)))
                }
            },
        }
    } else {
        spec_parse_elementary(s)
    }
}

#[via_fn]
proof fn spec_parse_type_dec(s: Seq<char>) {
    if has_array_suffix(s) {
        lemma_digit_run_start_le(s, s.len() - 1);
    }
}

/// Classify a type name, or fail with `UnrecognizedType` when it matches no
/// known pattern.
pub fn parse_solidity_type(ty_name: &str) -> (res: Result<SolidityType, LayoutError>)
    ensures
        res == spec_parse_type(ty_name@),
    decreases ty_name@.len(),
{
    let ghost s = ty_name@;
    let n = ty_name.unicode_len();
    if n >= 3 && ty_name.get_char(n - 1) == ']' {
        // scan the digit run that ends just before the closing bracket
        let mut j: usize = n - 1;
        loop
            invariant
                s == ty_name@,
                n == s.len(),
                3 <= n,
                0 <= j <= n - 1,
                digit_run_start(s, n - 1) == digit_run_start(s, j as int),
                forall|k: int| j <= k < n - 1 ==> is_digit(#[trigger] s[k]),
            ensures
                s == ty_name@,
                n == s.len(),
                3 <= n,
                0 <= j <= n - 1,
                digit_run_start(s, n - 1) == j as int,
                forall|k: int| j <= k < n - 1 ==> is_digit(#[trigger] s[k]),
            decreases j,
        {
            if j == 0 {
                break;
            }
            if !is_digit_at(ty_name, j - 1) {
                proof {
                    assert(digit_run_start(s, j as int) == j as int);
                }
                break;
            }
            proof {
                assert(digit_run_start(s, j as int) == digit_run_start(s, j as int - 1));
            }
            j -= 1;
        }
        if j >= 2 && ty_name.get_char(j - 1) == '[' {
            let base_str = ty_name.substring_char(0, j - 1);
            assert(base_str@ == s.take(j - 1));
            let base = match parse_solidity_type(base_str) {
                Err(e) => {
                    return Err(e);
                },
                Ok(b) => b,
            };
            if j == n - 1 {
                assert(s.subrange(j as int, n - 1) =~= Seq::<char>::empty());
                Ok(SolidityType::DynamicArray(Box::new(base)))
            } else {
                assert(all_digits(s.subrange(j as int, n - 1)));
                match parse_dec_usize(ty_name, j, n - 1) {
                    Some(len) => Ok(SolidityType::FixedArray(Box::new(base), len)),
                    None => Ok(SolidityType::DynamicArray(Box::new(base))),
                }
            }
        } else {
            assert(!has_array_suffix(s));
            parse_elementary(ty_name)
        }
    } else {
        parse_elementary(ty_name)
    }
}

fn is_digit_at(s: &str, i: usize) -> (res: bool)
    requires
        i < s@.len(),
    ensures
        res == is_digit(s@[i as int]),
{
    let u: u32 = s.get_char(i) as u32;
    48 <= u && u <= 57
}

fn parse_elementary(ty_name: &str) -> (res: Result<SolidityType, LayoutError>)
    ensures
        res == spec_parse_elementary(ty_name@),
{
    let n = ty_name.unicode_len();
    if str_starts_with(ty_name, "uint") {
        proof {
            reveal_strlit("uint");
        }
        match parse_dec_usize(ty_name, 4, n) {
            Some(w) => {
                assert(ty_name@.subrange(4, n as int) =~= ty_name@.skip(4));
                Ok(SolidityType::Uint(w))
            },
            None => {
                assert(ty_name@.subrange(4, n as int) =~= ty_name@.skip(4));
                if n == 4 {
                    Ok(SolidityType::Uint(256))
                } else {
                    Err(LayoutError::UnrecognizedType)
                }
            },
        }
    } else if str_starts_with(ty_name, "int") {
        proof {
            reveal_strlit("int");
        }
        match parse_dec_usize(ty_name, 3, n) {
            Some(w) => {
                assert(ty_name@.subrange(3, n as int) =~= ty_name@.skip(3));
                Ok(SolidityType::Int(w))
            },
            None => {
                assert(ty_name@.subrange(3, n as int) =~= ty_name@.skip(3));
                if n == 3 {
                    Ok(SolidityType::Int(256))
                } else {
                    Err(LayoutError::UnrecognizedType)
                }
            },
        }
    } else if str_eq(ty_name, "address") {
        Ok(SolidityType::Address)
    } else if str_eq(ty_name, "bool") {
        Ok(SolidityType::Bool)
    } else if str_starts_with(ty_name, "bytes") {
        proof {
            reveal_strlit("bytes");
        }
        assert(ty_name@.subrange(5, n as int) =~= ty_name@.skip(5));
        if n == 5 {
            Ok(SolidityType::DynamicBytes)
        } else {
            match parse_dec_usize(ty_name, 5, n) {
                Some(w) => {
                    if w <= 8191 {
                        Ok(SolidityType::FixedBytes((w * 8) as u16))
                    } else {
                        Err(LayoutError::UnrecognizedType)
                    }
                },
                None => Err(LayoutError::UnrecognizedType),
            }
        }
    } else if str_eq(ty_name, "string") {
        Ok(SolidityType::String)
    } else {
        Err(LayoutError::UnrecognizedType)
    }
}

/// Bit-width of a classified type; see `spec_size_of`.
pub fn size_of_type(sol_type: &SolidityType) -> (res: usize)
    requires
        spec_size_of(*sol_type) <= usize::MAX,
    ensures
        res as nat == spec_size_of(*sol_type),
    decreases *sol_type,
{
    match sol_type {
        SolidityType::Uint(n) => *n,
        SolidityType::Int(n) => *n,
        SolidityType::Address => 160,
        SolidityType::Bool => 8,
        SolidityType::FixedBytes(b) => *b as usize,
        SolidityType::DynamicBytes => 256,
        SolidityType::String => 256,
        SolidityType::FixedArray(base, len) => {
            assert(spec_size_of(*sol_type) == spec_size_of(**base) * (*len as nat));
            proof {
                if *len > 0 && spec_size_of(**base) > 0 {
                    vstd::arithmetic::mul::lemma_mul_nonnegative(
                        spec_size_of(**base) as int,
                        *len as int,
                    );
                    vstd::arithmetic::mul::lemma_mul_ordering(
                        spec_size_of(**base) as int,
                        *len as int,
                    );
                }
            }
            if *len == 0 {
                proof {
                    vstd::arithmetic::mul::lemma_mul_basics(spec_size_of(**base) as int);
                }
                assert(spec_size_of(*sol_type) == 0);
                0
            } else {
                let b = size_of_type(&**base);
                assert(b as nat == spec_size_of(**base));
                assert((b as nat) * (*len as nat) <= usize::MAX);
                let r = b * *len;
                assert(r as nat == spec_size_of(*sol_type));
                r
            }
        },
        SolidityType::DynamicArray(_) => 256,
    }
}

/// Bit-width of a classified type, `None` when it does not fit in `usize`.
pub fn checked_size_of(sol_type: &SolidityType) -> (res: Option<usize>)
    ensures
        match res {
            Some(v) => v as nat == spec_size_of(*sol_type),
            None => spec_size_of(*sol_type) > usize::MAX,
        },
    decreases *sol_type,
{
    match sol_type {
        SolidityType::FixedArray(base, len) => {
            if *len == 0 {
                Some(0)
            } else {
                match checked_size_of(base) {
                    None => {
                        proof {
                            vstd::arithmetic::mul::lemma_mul_nonnegative(
                                spec_size_of(**base) as int,
                                *len as int,
                            );
                            vstd::arithmetic::mul::lemma_mul_ordering(
                                spec_size_of(**base) as int,
                                *len as int,
                            );
                        }
                        None
                    },
                    Some(b) => b.checked_mul(*len),
                }
            }
        },
        _ => Some(size_of_type(sol_type)),
    }
}

} // verus!
