//! The closed family of scalar key types: tags, tagged values, and the
//! operations the sensors need from them — order, equality, distance and a
//! canonical text form.
//!
//! Floating-point attributes are carried as fixed-point numbers in
//! millionths (see [`crate::num::SCALE`]): the `F32` and `F64` variants hold
//! the scaled integer. Values that a float could hold but a fixed-point
//! number cannot (infinities, NaN) are rejected at the parsing boundary, so
//! every key inside a sensor is totally ordered.

use vstd::prelude::*;
use vstd::string::*;

use crate::num::{sat128, SCALE};
use crate::text::{
    all_digits, digits_val, first_dot, lemma_char_inj, lemma_digit_char_val,
    lemma_digits_val_bounds, lemma_first_dot_at, lemma_first_dot_none, lemma_pow10_adds,
    lemma_pow10_pos, lemma_pow10_vals, lemma_seq_lt_connex, lemma_seq_lt_trans, pad_digits,
    parse_uint, pow10, seq_lt, signed_string, spec_dec, spec_dec_i, str_eq, str_lt, trim_zeros,
    trimmed_frac_string,
};

verus! {

/// The scalar type of a sensor or of a tagged value.
#[derive(Clone, Copy, Debug, PartialEq, Eq, Structural)]
pub enum DataType {
    Bool,
    U8,
    U16,
    U32,
    U64,
    U128,
    USize,
    I8,
    I16,
    I32,
    I64,
    I128,
    ISize,
    F32,
    F64,
    InternedString,
    OwnedString,
    Unknown,
}

/// How the values of one attribute relate to each other.
#[derive(Clone, Copy, Debug, PartialEq, Eq, Structural)]
pub enum DataCategory {
    Categorical,
    Ordinal,
    Continuous,
}

/// The category of each scalar type: strings and booleans are categorical,
/// integers ordinal, fixed-point numbers continuous.
pub open spec fn spec_category(t: DataType) -> DataCategory {
    match t {
        DataType::Bool => DataCategory::Categorical,
        DataType::InternedString => DataCategory::Categorical,
        DataType::OwnedString => DataCategory::Categorical,
        DataType::Unknown => DataCategory::Categorical,
        DataType::F32 => DataCategory::Continuous,
        DataType::F64 => DataCategory::Continuous,
        _ => DataCategory::Ordinal,
    }
}

/// Executable form of [`spec_category`].
pub fn data_category_of(t: DataType) -> (r: DataCategory)
    ensures
        r == spec_category(t),
{
    match t {
        DataType::Bool => DataCategory::Categorical,
        DataType::InternedString => DataCategory::Categorical,
        DataType::OwnedString => DataCategory::Categorical,
        DataType::Unknown => DataCategory::Categorical,
        DataType::F32 => DataCategory::Continuous,
        DataType::F64 => DataCategory::Continuous,
        _ => DataCategory::Ordinal,
    }
}

/// A value tagged with its scalar type.
///
/// The `F32` and `F64` payloads are fixed-point numbers in millionths.
#[derive(Clone, Debug)]
pub enum DataValue {
    Bool(bool),
    U8(u8),
    U16(u16),
    U32(u32),
    U64(u64),
    U128(u128),
    USize(usize),
    I8(i8),
    I16(i16),
    I32(i32),
    I64(i64),
    I128(i128),
    ISize(isize),
    F32(i64),
    F64(i64),
    InternedString(String),
    OwnedString(String),
    Unknown,
}

/// The mathematical model of a tagged value: scalars as themselves, strings
/// as their character sequences.
pub enum ValueModel {
    Bool(bool),
    U8(u8),
    U16(u16),
    U32(u32),
    U64(u64),
    U128(u128),
    USize(usize),
    I8(i8),
    I16(i16),
    I32(i32),
    I64(i64),
    I128(i128),
    ISize(isize),
    F32(i64),
    F64(i64),
    InternedString(Seq<char>),
    OwnedString(Seq<char>),
    Unknown,
}

impl View for DataValue {
    type V = ValueModel;

    open spec fn view(&self) -> ValueModel {
        match self {
            DataValue::Bool(x) => ValueModel::Bool(*x),
            DataValue::U8(x) => ValueModel::U8(*x),
            DataValue::U16(x) => ValueModel::U16(*x),
            DataValue::U32(x) => ValueModel::U32(*x),
            DataValue::U64(x) => ValueModel::U64(*x),
            DataValue::U128(x) => ValueModel::U128(*x),
            DataValue::USize(x) => ValueModel::USize(*x),
            DataValue::I8(x) => ValueModel::I8(*x),
            DataValue::I16(x) => ValueModel::I16(*x),
            DataValue::I32(x) => ValueModel::I32(*x),
            DataValue::I64(x) => ValueModel::I64(*x),
            DataValue::I128(x) => ValueModel::I128(*x),
            DataValue::ISize(x) => ValueModel::ISize(*x),
            DataValue::F32(x) => ValueModel::F32(*x),
            DataValue::F64(x) => ValueModel::F64(*x),
            DataValue::InternedString(s) => ValueModel::InternedString(s@),
            DataValue::OwnedString(s) => ValueModel::OwnedString(s@),
            DataValue::Unknown => ValueModel::Unknown,
        }
    }
}

/// The tag of a value model.
pub open spec fn tag_of(v: ValueModel) -> DataType {
    match v {
        ValueModel::Bool(_) => DataType::Bool,
        ValueModel::U8(_) => DataType::U8,
        ValueModel::U16(_) => DataType::U16,
        ValueModel::U32(_) => DataType::U32,
        ValueModel::U64(_) => DataType::U64,
        ValueModel::U128(_) => DataType::U128,
        ValueModel::USize(_) => DataType::USize,
        ValueModel::I8(_) => DataType::I8,
        ValueModel::I16(_) => DataType::I16,
        ValueModel::I32(_) => DataType::I32,
        ValueModel::I64(_) => DataType::I64,
        ValueModel::I128(_) => DataType::I128,
        ValueModel::ISize(_) => DataType::ISize,
        ValueModel::F32(_) => DataType::F32,
        ValueModel::F64(_) => DataType::F64,
        ValueModel::InternedString(_) => DataType::InternedString,
        ValueModel::OwnedString(_) => DataType::OwnedString,
        ValueModel::Unknown => DataType::Unknown,
    }
}

/// The numeric position of an ordinal or continuous value: integers as
/// themselves, fixed-point numbers as their amount of millionths.
pub open spec fn num_of(v: ValueModel) -> Option<int> {
    match v {
        ValueModel::U8(x) => Some(x as int),
        ValueModel::U16(x) => Some(x as int),
        ValueModel::U32(x) => Some(x as int),
        ValueModel::U64(x) => Some(x as int),
        ValueModel::U128(x) => Some(x as int),
        ValueModel::USize(x) => Some(x as int),
        ValueModel::I8(x) => Some(x as int),
        ValueModel::I16(x) => Some(x as int),
        ValueModel::I32(x) => Some(x as int),
        ValueModel::I64(x) => Some(x as int),
        ValueModel::I128(x) => Some(x as int),
        ValueModel::ISize(x) => Some(x as int),
        ValueModel::F32(x) => Some(x as int),
        ValueModel::F64(x) => Some(x as int),
        _ => None,
    }
}

/// Strict order between two values of the same tag: numeric order for
/// numbers, `false < true` for booleans, character order for strings.
pub open spec fn value_lt(a: ValueModel, b: ValueModel) -> bool {
    match (a, b) {
        (ValueModel::Bool(x), ValueModel::Bool(y)) => !x && y,
        (ValueModel::InternedString(x), ValueModel::InternedString(y)) => seq_lt(x, y),
        (ValueModel::OwnedString(x), ValueModel::OwnedString(y)) => seq_lt(x, y),
        _ => if num_of(a) is Some && num_of(b) is Some && tag_of(a) == tag_of(b) {
            num_of(a).unwrap() < num_of(b).unwrap()
        } else {
            false
        },
    }
}

/// A value has a numeric position exactly when its tag is not categorical.
pub proof fn lemma_numeric_tag(v: ValueModel)
    ensures
        num_of(v) is Some <==> spec_category(tag_of(v)) != DataCategory::Categorical,
{
    match v {
        ValueModel::Bool(_) => {},
        ValueModel::U8(_) => {},
        ValueModel::U16(_) => {},
        ValueModel::U32(_) => {},
        ValueModel::U64(_) => {},
        ValueModel::U128(_) => {},
        ValueModel::USize(_) => {},
        ValueModel::I8(_) => {},
        ValueModel::I16(_) => {},
        ValueModel::I32(_) => {},
        ValueModel::I64(_) => {},
        ValueModel::I128(_) => {},
        ValueModel::ISize(_) => {},
        ValueModel::F32(_) => {},
        ValueModel::F64(_) => {},
        ValueModel::InternedString(_) => {},
        ValueModel::OwnedString(_) => {},
        ValueModel::Unknown => {},
    }
}

/// On values of one tag (other than `Unknown`) the order is strict and
/// total: exactly one of `a < b`, `a == b`, `b < a` holds, and it is
/// transitive.
pub proof fn lemma_value_order(a: ValueModel, b: ValueModel, c: ValueModel)
    requires
        tag_of(a) == tag_of(b),
        tag_of(b) == tag_of(c),
        tag_of(a) != DataType::Unknown,
    ensures
        !(value_lt(a, b) && value_lt(b, a)),
        !value_lt(a, b) && !value_lt(b, a) ==> a == b,
        value_lt(a, b) && value_lt(b, c) ==> value_lt(a, c),
{
    match (a, b) {
        (ValueModel::InternedString(x), ValueModel::InternedString(y)) => {
            lemma_seq_lt_connex(x, y);
            if let ValueModel::InternedString(z) = c {
                if seq_lt(x, y) && seq_lt(y, z) {
                    lemma_seq_lt_trans(x, y, z);
                }
            }
        },
        (ValueModel::OwnedString(x), ValueModel::OwnedString(y)) => {
            lemma_seq_lt_connex(x, y);
            if let ValueModel::OwnedString(z) = c {
                if seq_lt(x, y) && seq_lt(y, z) {
                    lemma_seq_lt_trans(x, y, z);
                }
            }
        },
        _ => {},
    }
}

impl DataValue {
    /// The tag of this value.
    pub fn data_type(&self) -> (r: DataType)
        ensures
            r == tag_of(self@),
    {
        match self {
            DataValue::Bool(_) => DataType::Bool,
            DataValue::U8(_) => DataType::U8,
            DataValue::U16(_) => DataType::U16,
            DataValue::U32(_) => DataType::U32,
            DataValue::U64(_) => DataType::U64,
            DataValue::U128(_) => DataType::U128,
            DataValue::USize(_) => DataType::USize,
            DataValue::I8(_) => DataType::I8,
            DataValue::I16(_) => DataType::I16,
            DataValue::I32(_) => DataType::I32,
            DataValue::I64(_) => DataType::I64,
            DataValue::I128(_) => DataType::I128,
            DataValue::ISize(_) => DataType::ISize,
            DataValue::F32(_) => DataType::F32,
            DataValue::F64(_) => DataType::F64,
            DataValue::InternedString(_) => DataType::InternedString,
            DataValue::OwnedString(_) => DataType::OwnedString,
            DataValue::Unknown => DataType::Unknown,
        }
    }

    /// Whether this is the `Unknown` poison value.
    pub fn is_unknown(&self) -> (r: bool)
        ensures
            r == (self@ is Unknown),
    {
        matches!(self, DataValue::Unknown)
    }

    /// Value equality: same tag and same payload, strings by their
    /// characters.
    pub fn eq_value(&self, other: &DataValue) -> (r: bool)
        ensures
            r == (self@ == other@),
    {
        match (self, other) {
            (DataValue::Bool(x), DataValue::Bool(y)) => x == y,
            (DataValue::U8(x), DataValue::U8(y)) => x == y,
            (DataValue::U16(x), DataValue::U16(y)) => x == y,
            (DataValue::U32(x), DataValue::U32(y)) => x == y,
            (DataValue::U64(x), DataValue::U64(y)) => x == y,
            (DataValue::U128(x), DataValue::U128(y)) => x == y,
            (DataValue::USize(x), DataValue::USize(y)) => x == y,
            (DataValue::I8(x), DataValue::I8(y)) => x == y,
            (DataValue::I16(x), DataValue::I16(y)) => x == y,
            (DataValue::I32(x), DataValue::I32(y)) => x == y,
            (DataValue::I64(x), DataValue::I64(y)) => x == y,
            (DataValue::I128(x), DataValue::I128(y)) => x == y,
            (DataValue::ISize(x), DataValue::ISize(y)) => x == y,
            (DataValue::F32(x), DataValue::F32(y)) => x == y,
            (DataValue::F64(x), DataValue::F64(y)) => x == y,
            (DataValue::InternedString(x), DataValue::InternedString(y)) => str_eq(
                x.as_str(),
                y.as_str(),
            ),
            (DataValue::OwnedString(x), DataValue::OwnedString(y)) => str_eq(
                x.as_str(),
                y.as_str(),
            ),
            (DataValue::Unknown, DataValue::Unknown) => true,
            _ => false,
        }
    }

    /// Executable form of [`value_lt`].
    pub fn lt_value(&self, other: &DataValue) -> (r: bool)
        ensures
            r == value_lt(self@, other@),
    {
        match (self, other) {
            (DataValue::Bool(x), DataValue::Bool(y)) => !*x && *y,
            (DataValue::U8(x), DataValue::U8(y)) => x < y,
            (DataValue::U16(x), DataValue::U16(y)) => x < y,
            (DataValue::U32(x), DataValue::U32(y)) => x < y,
            (DataValue::U64(x), DataValue::U64(y)) => x < y,
            (DataValue::U128(x), DataValue::U128(y)) => x < y,
            (DataValue::USize(x), DataValue::USize(y)) => x < y,
            (DataValue::I8(x), DataValue::I8(y)) => x < y,
            (DataValue::I16(x), DataValue::I16(y)) => x < y,
            (DataValue::I32(x), DataValue::I32(y)) => x < y,
            (DataValue::I64(x), DataValue::I64(y)) => x < y,
            (DataValue::I128(x), DataValue::I128(y)) => x < y,
            (DataValue::ISize(x), DataValue::ISize(y)) => x < y,
            (DataValue::F32(x), DataValue::F32(y)) => x < y,
            (DataValue::F64(x), DataValue::F64(y)) => x < y,
            (DataValue::InternedString(x), DataValue::InternedString(y)) => str_lt(
                x.as_str(),
                y.as_str(),
            ),
            (DataValue::OwnedString(x), DataValue::OwnedString(y)) => str_lt(
                x.as_str(),
                y.as_str(),
            ),
            _ => false,
        }
    }
}

/// The text form of a fixed-point number in millionths: the integer part,
/// then — when the fraction is non-zero — a point and the fraction digits
/// with trailing zeros removed.
pub open spec fn spec_fixed_str(m: int) -> Seq<char> {
    let mag = if m >= 0 {
        m
    } else {
        -m
    };
    let ip = mag / (SCALE as int);
    let fr = mag % (SCALE as int);
    let base = spec_dec(ip as nat) + if fr == 0 {
        Seq::<char>::empty()
    } else {
        seq!['.'] + trim_zeros(pad_digits(fr as nat, 6))
    };
    if m < 0 {
        seq!['-'] + base
    } else {
        base
    }
}

/// The canonical text form of a tagged value, which is also the local
/// identifier of the sensor-value neuron that holds it.
pub open spec fn spec_value_str(v: ValueModel) -> Seq<char> {
    match v {
        ValueModel::Bool(b) => if b {
            "true"@
        } else {
            "false"@
        },
        ValueModel::U8(x) => spec_dec(x as nat),
        ValueModel::U16(x) => spec_dec(x as nat),
        ValueModel::U32(x) => spec_dec(x as nat),
        ValueModel::U64(x) => spec_dec(x as nat),
        ValueModel::U128(x) => spec_dec(x as nat),
        ValueModel::USize(x) => spec_dec(x as nat),
        ValueModel::I8(x) => spec_dec_i(x as int),
        ValueModel::I16(x) => spec_dec_i(x as int),
        ValueModel::I32(x) => spec_dec_i(x as int),
        ValueModel::I64(x) => spec_dec_i(x as int),
        ValueModel::I128(x) => spec_dec_i(x as int),
        ValueModel::ISize(x) => spec_dec_i(x as int),
        ValueModel::F32(x) => spec_fixed_str(x as int),
        ValueModel::F64(x) => spec_fixed_str(x as int),
        ValueModel::InternedString(s) => s,
        ValueModel::OwnedString(s) => s,
        ValueModel::Unknown => Seq::<char>::empty(),
    }
}

/// The magnitude of a signed 128-bit value.
fn magnitude_i128(x: i128) -> (r: u128)
    ensures
        r == if x >= 0 {
            x as int
        } else {
            -(x as int)
        },
{
    if x >= 0 {
        x as u128
    } else {
        ((-(x + 1)) as u128) + 1
    }
}

/// The text form of a fixed-point number in millionths.
fn fixed_string(m: i64) -> (s: String)
    ensures
        s@ == spec_fixed_str(m as int),
{
    proof {
        reveal_strlit(".");
    }
    let mag: u64 = if m >= 0 {
        m as u64
    } else {
        ((-(m + 1)) as u64) + 1
    };
    let ip: u64 = mag / 1_000_000;
    let fr: u64 = mag % 1_000_000;
    let mut s = signed_string(m < 0, ip as u128);
    if fr != 0 {
        s.append(".");
        let frac = trimmed_frac_string(fr);
        s.append(frac.as_str());
    }
    proof {
        assert(s@ =~= spec_fixed_str(m as int));
    }
    s
}

impl DataValue {
    /// The canonical text form of this value: the executable side of
    /// [`spec_value_str`].
    pub fn to_str(&self) -> (s: String)
        ensures
            s@ == spec_value_str(self@),
    {
        proof {
            reveal_strlit("true");
            reveal_strlit("false");
        }
        match self {
            DataValue::Bool(b) => {
                if *b {
                    String::from_str("true")
                } else {
                    String::from_str("false")
                }
            },
            DataValue::U8(x) => signed_string(false, *x as u128),
            DataValue::U16(x) => signed_string(false, *x as u128),
            DataValue::U32(x) => signed_string(false, *x as u128),
            DataValue::U64(x) => signed_string(false, *x as u128),
            DataValue::U128(x) => signed_string(false, *x),
            DataValue::USize(x) => signed_string(false, *x as u128),
            DataValue::I8(x) => signed_string(*x < 0, magnitude_i128(*x as i128)),
            DataValue::I16(x) => signed_string(*x < 0, magnitude_i128(*x as i128)),
            DataValue::I32(x) => signed_string(*x < 0, magnitude_i128(*x as i128)),
            DataValue::I64(x) => signed_string(*x < 0, magnitude_i128(*x as i128)),
            DataValue::I128(x) => signed_string(*x < 0, magnitude_i128(*x)),
            DataValue::ISize(x) => signed_string(*x < 0, magnitude_i128(*x as i128)),
            DataValue::F32(x) => fixed_string(*x),
            DataValue::F64(x) => fixed_string(*x),
            DataValue::InternedString(s) => s.clone(),
            DataValue::OwnedString(s) => s.clone(),
            DataValue::Unknown => String::new(),
        }
    }
}

/// Spec-level parse of a non-empty digit sequence.
pub open spec fn spec_parse_u(s: Seq<char>) -> Option<int> {
    if s.len() > 0 && all_digits(s) {
        Some(digits_val(s))
    } else {
        None
    }
}

/// Whether `s` starts with a minus sign.
pub open spec fn has_minus(s: Seq<char>) -> bool {
    s.len() > 0 && s[0] == '-'
}

/// Spec-level parse of an optionally signed digit sequence.
pub open spec fn spec_parse_i(s: Seq<char>) -> Option<int> {
    let t = if has_minus(s) {
        s.skip(1)
    } else {
        s
    };
    if spec_parse_u(t) is Some {
        if has_minus(s) {
            Some(-spec_parse_u(t).unwrap())
        } else {
            Some(spec_parse_u(t).unwrap())
        }
    } else {
        None
    }
}

/// Spec-level parse of an unsigned fixed-point text into millionths:
/// digits, optionally followed by a point and one to six fraction digits.
pub open spec fn spec_parse_fixed_mag(t: Seq<char>) -> Option<int> {
    let d = first_dot(t);
    if d < 0 {
        if spec_parse_u(t) is Some {
            Some(spec_parse_u(t).unwrap() * (SCALE as int))
        } else {
            None
        }
    } else {
        let a = t.subrange(0, d);
        let b = t.subrange(d + 1, t.len() as int);
        if a.len() > 0 && all_digits(a) && 1 <= b.len() <= 6 && all_digits(b) {
            Some(digits_val(a) * (SCALE as int) + digits_val(b) * pow10((6 - b.len()) as nat))
        } else {
            None
        }
    }
}

/// Spec-level parse of a signed fixed-point text into millionths.
pub open spec fn spec_parse_fixed(s: Seq<char>) -> Option<int> {
    let t = if has_minus(s) {
        s.skip(1)
    } else {
        s
    };
    if spec_parse_fixed_mag(t) is Some {
        if has_minus(s) {
            Some(-spec_parse_fixed_mag(t).unwrap())
        } else {
            Some(spec_parse_fixed_mag(t).unwrap())
        }
    } else {
        None
    }
}

/// What parsing a text under a target tag yields: the tagged value when the
/// text is a well-formed representation that fits the type, nothing
/// otherwise. The `Unknown` tag accepts no text at all.
pub open spec fn spec_from_text(s: Seq<char>, tag: DataType) -> Option<ValueModel> {
    match tag {
        DataType::Bool => if s == "true"@ {
            Some(ValueModel::Bool(true))
        } else if s == "false"@ {
            Some(ValueModel::Bool(false))
        } else {
            None
        },
        DataType::U8 => if spec_parse_u(s) is Some && spec_parse_u(s).unwrap() <= u8::MAX {
            Some(ValueModel::U8(spec_parse_u(s).unwrap() as u8))
        } else {
            None
        },
        DataType::U16 => if spec_parse_u(s) is Some && spec_parse_u(s).unwrap() <= u16::MAX {
            Some(ValueModel::U16(spec_parse_u(s).unwrap() as u16))
        } else {
            None
        },
        DataType::U32 => if spec_parse_u(s) is Some && spec_parse_u(s).unwrap() <= u32::MAX {
            Some(ValueModel::U32(spec_parse_u(s).unwrap() as u32))
        } else {
            None
        },
        DataType::U64 => if spec_parse_u(s) is Some && spec_parse_u(s).unwrap() <= u64::MAX {
            Some(ValueModel::U64(spec_parse_u(s).unwrap() as u64))
        } else {
            None
        },
        DataType::U128 => if spec_parse_u(s) is Some && spec_parse_u(s).unwrap() <= u128::MAX {
            Some(ValueModel::U128(spec_parse_u(s).unwrap() as u128))
        } else {
            None
        },
        DataType::USize => if spec_parse_u(s) is Some && spec_parse_u(s).unwrap() <= usize::MAX {
            Some(ValueModel::USize(spec_parse_u(s).unwrap() as usize))
        } else {
            None
        },
        DataType::I8 => if spec_parse_i(s) is Some && i8::MIN <= spec_parse_i(s).unwrap()
            <= i8::MAX {
            Some(ValueModel::I8(spec_parse_i(s).unwrap() as i8))
        } else {
            None
        },
        DataType::I16 => if spec_parse_i(s) is Some && i16::MIN <= spec_parse_i(s).unwrap()
            <= i16::MAX {
            Some(ValueModel::I16(spec_parse_i(s).unwrap() as i16))
        } else {
            None
        },
        DataType::I32 => if spec_parse_i(s) is Some && i32::MIN <= spec_parse_i(s).unwrap()
            <= i32::MAX {
            Some(ValueModel::I32(spec_parse_i(s).unwrap() as i32))
        } else {
            None
        },
        DataType::I64 => if spec_parse_i(s) is Some && i64::MIN <= spec_parse_i(s).unwrap()
            <= i64::MAX {
            Some(ValueModel::I64(spec_parse_i(s).unwrap() as i64))
        } else {
            None
        },
        DataType::I128 => if spec_parse_i(s) is Some && i128::MIN <= spec_parse_i(s).unwrap()
            <= i128::MAX {
            Some(ValueModel::I128(spec_parse_i(s).unwrap() as i128))
        } else {
            None
        },
        DataType::ISize => if spec_parse_i(s) is Some && isize::MIN <= spec_parse_i(s).unwrap()
            <= isize::MAX {
            Some(ValueModel::ISize(spec_parse_i(s).unwrap() as isize))
        } else {
            None
        },
        DataType::F32 => if spec_parse_fixed(s) is Some && i64::MIN <= spec_parse_fixed(s).unwrap()
            <= i64::MAX {
            Some(ValueModel::F32(spec_parse_fixed(s).unwrap() as i64))
        } else {
            None
        },
        DataType::F64 => if spec_parse_fixed(s) is Some && i64::MIN <= spec_parse_fixed(s).unwrap()
            <= i64::MAX {
            Some(ValueModel::F64(spec_parse_fixed(s).unwrap() as i64))
        } else {
            None
        },
        DataType::InternedString => Some(ValueModel::InternedString(s)),
        DataType::OwnedString => Some(ValueModel::OwnedString(s)),
        DataType::Unknown => None,
    }
}

/// Parse of a whole text as an unsigned number no larger than `max`.
fn parse_unsigned(text: &str, max: u128) -> (r: Option<u128>)
    ensures
        r is Some <==> (spec_parse_u(text@) is Some && spec_parse_u(text@).unwrap() <= max),
        r is Some ==> r.unwrap() == spec_parse_u(text@).unwrap(),
{
    let n = text.unicode_len();
    proof {
        assert(text@.subrange(0, n as int) =~= text@);
    }
    match parse_uint(text, 0, n) {
        Some(v) => if v <= max {
            Some(v)
        } else {
            None
        },
        None => None,
    }
}

/// Parse of a whole text as a signed number with magnitude at most
/// `neg_mag` when negative and at most `max_pos` when non-negative.
/// Returns the sign and the magnitude.
fn parse_signed(text: &str, neg_mag: u128, max_pos: u128) -> (r: Option<(bool, u128)>)
    ensures
        r is Some <==> (spec_parse_i(text@) is Some && -(neg_mag as int) <= spec_parse_i(
            text@,
        ).unwrap() <= max_pos as int),
        r is Some ==> spec_parse_i(text@).unwrap() == if r.unwrap().0 {
            -(r.unwrap().1 as int)
        } else {
            r.unwrap().1 as int
        },
{
    let n = text.unicode_len();
    let neg = if n > 0 {
        text.get_char(0) == '-'
    } else {
        false
    };
    let start: usize = if neg {
        1
    } else {
        0
    };
    proof {
        if neg {
            assert(text@.subrange(1, n as int) =~= text@.skip(1));
        } else {
            assert(text@.subrange(0, n as int) =~= text@);
        }
    }
    match parse_uint(text, start, n) {
        Some(v) => {
            if neg {
                if v <= neg_mag {
                    Some((true, v))
                } else {
                    None
                }
            } else {
                if v <= max_pos {
                    Some((false, v))
                } else {
                    None
                }
            }
        },
        None => None,
    }
}

/// The concrete power of ten for a fraction width.
fn pow10_u128(e: usize) -> (r: u128)
    requires
        e <= 6,
    ensures
        r == pow10(e as nat),
{
    proof {
        lemma_pow10_vals();
    }
    if e == 0 {
        1
    } else if e == 1 {
        10
    } else if e == 2 {
        100
    } else if e == 3 {
        1000
    } else if e == 4 {
        10000
    } else if e == 5 {
        100000
    } else {
        1000000
    }
}

/// Parse of a whole text as a signed fixed-point number in millionths.
fn parse_fixed(text: &str) -> (r: Option<i64>)
    ensures
        r is Some <==> (spec_parse_fixed(text@) is Some && i64::MIN <= spec_parse_fixed(
            text@,
        ).unwrap() <= i64::MAX),
        r is Some ==> r.unwrap() == spec_parse_fixed(text@).unwrap(),
{
    let n = text.unicode_len();
    let neg = if n > 0 {
        text.get_char(0) == '-'
    } else {
        false
    };
    let start: usize = if neg {
        1
    } else {
        0
    };
    let ghost t = text@.subrange(start as int, n as int);
    proof {
        if neg {
            assert(t =~= text@.skip(1));
        } else {
            assert(t =~= text@);
        }
    }
    // Locate the first point, if any.
    let mut dot: usize = n;
    let mut i: usize = start;
    while i < n && dot == n
        invariant
            start <= i <= n,
            n == text@.len(),
            dot == n || (i == dot && start <= dot < n && text@[dot as int] == '.'),
            forall|j: int| start <= j < i ==> text@[j] != '.',
        decreases n - i + if dot == n {
            1int
        } else {
            0int
        },
    {
        if text.get_char(i) == '.' {
            dot = i;
        } else {
            i += 1;
        }
    }
    proof {
        if dot == n {
            assert(forall|j: int| 0 <= j < t.len() ==> t[j] == text@[j + start] && t[j] != '.');
            lemma_first_dot_none(t);
        } else {
            assert(forall|j: int| 0 <= j < t.len() ==> t[j] == text@[j + start]);
            lemma_first_dot_at(t, dot - start);
        }
    }
    let mag: u128;
    if dot == n {
        let whole = match parse_uint(text, start, n) {
            Some(v) => v,
            None => {
                return None;
            },
        };
        proof {
            assert(text@.subrange(start as int, n as int) == t);
        }
        if whole > u128::MAX / 1_000_000 {
            proof {
                vstd::arithmetic::div_mod::lemma_remainder_lower(u128::MAX as int, 1_000_000);
                assert(whole * (SCALE as int) > u128::MAX as int) by (nonlinear_arith)
                    requires
                        whole as int >= u128::MAX as int / 1_000_000 + 1,
                        (u128::MAX as int / 1_000_000) * 1_000_000 <= u128::MAX as int,
                        (u128::MAX as int / 1_000_000 + 1) * 1_000_000 > u128::MAX as int,
                        SCALE as int == 1_000_000,
                ;
                assert((u128::MAX as int / 1_000_000 + 1) * 1_000_000 == (u128::MAX as int
                    / 1_000_000) * 1_000_000 + 1_000_000) by (nonlinear_arith);
            }
            return None;
        }
        proof {
            assert(whole * (SCALE as int) <= (u128::MAX as int / 1_000_000) * 1_000_000)
                by (nonlinear_arith)
                requires
                    0 <= whole as int <= u128::MAX as int / 1_000_000,
                    SCALE as int == 1_000_000,
            ;
            vstd::arithmetic::div_mod::lemma_remainder_lower(u128::MAX as int, 1_000_000);
        }
        mag = whole * 1_000_000;
    } else {
        let ipv = match parse_uint(text, start, dot) {
            Some(v) => v,
            None => {
                proof {
                    assert(t.subrange(0, dot - start) =~= text@.subrange(
                        start as int,
                        dot as int,
                    ));
                    let d = dot - start;
                    let a = t.subrange(0, d as int);
                    let b = t.subrange(d + 1, t.len() as int);
                    if a.len() > 0 && all_digits(a) && 1 <= b.len() <= 6 && all_digits(b) {
                        lemma_digits_val_bounds(b);
                        lemma_pow10_pos((6 - b.len()) as nat);
                        assert(digits_val(a) > u128::MAX as int);
                        assert(digits_val(a) * (SCALE as int) > u128::MAX as int)
                            by (nonlinear_arith)
                            requires
                                digits_val(a) > u128::MAX as int,
                                SCALE as int == 1_000_000,
                        ;
                        assert(digits_val(b) * pow10((6 - b.len()) as nat) >= 0)
                            by (nonlinear_arith)
                            requires
                                digits_val(b) >= 0,
                                pow10((6 - b.len()) as nat) >= 1,
                        ;
                    }
                }
                return None;
            },
        };
        let flen = n - dot - 1;
        proof {
            assert(t.subrange(0, dot - start) =~= text@.subrange(start as int, dot as int));
            assert(t.subrange(dot - start + 1, t.len() as int) =~= text@.subrange(
                dot as int + 1,
                n as int,
            ));
        }
        if flen == 0 || flen > 6 {
            return None;
        }
        let ghost bseq = t.subrange(dot - start + 1, t.len() as int);
        let fv = match parse_uint(text, dot + 1, n) {
            Some(v) => v,
            None => {
                proof {
                    if all_digits(bseq) {
                        lemma_digits_val_bounds(bseq);
                        lemma_pow10_vals();
                        assert(pow10(bseq.len()) <= pow10(6)) by {
                            lemma_pow10_adds((6 - bseq.len()) as nat, bseq.len());
                            assert(pow10((6 - bseq.len()) as nat) >= 1) by {
                                lemma_pow10_pos((6 - bseq.len()) as nat);
                            }
                            assert(pow10((6 - bseq.len()) as nat) * pow10(bseq.len()) >= 1 * pow10(
                                bseq.len(),
                            )) by (nonlinear_arith)
                                requires
                                    pow10((6 - bseq.len()) as nat) >= 1,
                                    pow10(bseq.len()) >= 0,
                            ;
                        }
                    }
                }
                return None;
            },
        };
        let mult = pow10_u128(6 - flen);
        proof {
            lemma_digits_val_bounds(bseq);
            lemma_pow10_adds(bseq.len(), (6 - bseq.len()) as nat);
            lemma_pow10_vals();
            assert(fv * mult < 1_000_000) by (nonlinear_arith)
                requires
                    0 <= fv as int <= pow10(bseq.len()) - 1,
                    mult as int == pow10((6 - bseq.len()) as nat),
                    mult as int >= 1,
                    pow10(bseq.len()) * pow10((6 - bseq.len()) as nat) == 1_000_000,
            ;
        }
        let fvm = fv * mult;
        if ipv > u128::MAX / 1_000_000 {
            proof {
                vstd::arithmetic::div_mod::lemma_remainder_lower(u128::MAX as int, 1_000_000);
                assert(ipv * (SCALE as int) > u128::MAX as int) by (nonlinear_arith)
                    requires
                        ipv as int >= u128::MAX as int / 1_000_000 + 1,
                        (u128::MAX as int / 1_000_000) * 1_000_000 <= u128::MAX as int,
                        SCALE as int == 1_000_000,
                ;
            }
            return None;
        }
        proof {
            assert(ipv * (SCALE as int) <= (u128::MAX as int / 1_000_000) * 1_000_000)
                by (nonlinear_arith)
                requires
                    0 <= ipv as int <= u128::MAX as int / 1_000_000,
                    SCALE as int == 1_000_000,
            ;
            vstd::arithmetic::div_mod::lemma_remainder_lower(u128::MAX as int, 1_000_000);
        }
        let t1 = ipv * 1_000_000;
        if t1 > u128::MAX - 1_000_000 {
            return None;
        }
        mag = t1 + fvm;
    }
    if neg {
        if mag <= 9_223_372_036_854_775_808u128 {
            Some((-(mag as i128)) as i64)
        } else {
            None
        }
    } else {
        if mag <= i64::MAX as u128 {
            Some(mag as i64)
        } else {
            None
        }
    }
}

/// Parse `text` as a value of the given tag: the executable side of
/// [`spec_from_text`].
pub fn from_text(text: &str, tag: DataType) -> (r: Option<DataValue>)
    ensures
        r is Some <==> spec_from_text(text@, tag) is Some,
        r is Some ==> r.unwrap()@ == spec_from_text(text@, tag).unwrap(),
{
    match tag {
        DataType::Bool => {
            proof {
                reveal_strlit("true");
                reveal_strlit("false");
            }
            if str_eq(text, "true") {
                Some(DataValue::Bool(true))
            } else if str_eq(text, "false") {
                Some(DataValue::Bool(false))
            } else {
                None
            }
        },
        DataType::U8 => match parse_unsigned(text, u8::MAX as u128) {
            Some(v) => Some(DataValue::U8(v as u8)),
            None => None,
        },
        DataType::U16 => match parse_unsigned(text, u16::MAX as u128) {
            Some(v) => Some(DataValue::U16(v as u16)),
            None => None,
        },
        DataType::U32 => match parse_unsigned(text, u32::MAX as u128) {
            Some(v) => Some(DataValue::U32(v as u32)),
            None => None,
        },
        DataType::U64 => match parse_unsigned(text, u64::MAX as u128) {
            Some(v) => Some(DataValue::U64(v as u64)),
            None => None,
        },
        DataType::U128 => match parse_unsigned(text, u128::MAX) {
            Some(v) => Some(DataValue::U128(v)),
            None => None,
        },
        DataType::USize => match parse_unsigned(text, usize::MAX as u128) {
            Some(v) => Some(DataValue::USize(v as usize)),
            None => None,
        },
        DataType::I8 => match parse_signed(text, 128, 127) {
            Some((neg, mag)) => Some(
                DataValue::I8(
                    if neg {
                        (-(mag as i128)) as i8
                    } else {
                        mag as i8
                    },
                ),
            ),
            None => None,
        },
        DataType::I16 => match parse_signed(text, 32768, 32767) {
            Some((neg, mag)) => Some(
                DataValue::I16(
                    if neg {
                        (-(mag as i128)) as i16
                    } else {
                        mag as i16
                    },
                ),
            ),
            None => None,
        },
        DataType::I32 => match parse_signed(text, 2_147_483_648, 2_147_483_647) {
            Some((neg, mag)) => Some(
                DataValue::I32(
                    if neg {
                        (-(mag as i128)) as i32
                    } else {
                        mag as i32
                    },
                ),
            ),
            None => None,
        },
        DataType::I64 => match parse_signed(
            text,
            9_223_372_036_854_775_808,
            9_223_372_036_854_775_807,
        ) {
            Some((neg, mag)) => Some(
                DataValue::I64(
                    if neg {
                        (-(mag as i128)) as i64
                    } else {
                        mag as i64
                    },
                ),
            ),
            None => None,
        },
        DataType::I128 => match parse_signed(
            text,
            0x8000_0000_0000_0000_0000_0000_0000_0000,
            0x7fff_ffff_ffff_ffff_ffff_ffff_ffff_ffff,
        ) {
            Some((neg, mag)) => Some(
                DataValue::I128(
                    if neg {
                        if mag == 0x8000_0000_0000_0000_0000_0000_0000_0000 {
                            i128::MIN
                        } else {
                            -(mag as i128)
                        }
                    } else {
                        mag as i128
                    },
                ),
            ),
            None => None,
        },
        DataType::ISize => match parse_signed(text, (isize::MAX as u128) + 1, isize::MAX as u128) {
            Some((neg, mag)) => Some(
                DataValue::ISize(
                    if neg {
                        if mag == (isize::MAX as u128) + 1 {
                            isize::MIN
                        } else {
                            (-(mag as i128)) as isize
                        }
                    } else {
                        mag as isize
                    },
                ),
            ),
            None => None,
        },
        DataType::F32 => match parse_fixed(text) {
            Some(v) => Some(DataValue::F32(v)),
            None => None,
        },
        DataType::F64 => match parse_fixed(text) {
            Some(v) => Some(DataValue::F64(v)),
            None => None,
        },
        DataType::InternedString => Some(DataValue::InternedString(String::from_str(text))),
        DataType::OwnedString => Some(DataValue::OwnedString(String::from_str(text))),
        DataType::Unknown => None,
    }
}

/// Absolute numeric difference between two values of one numeric tag.
pub open spec fn spec_delta(a: ValueModel, b: ValueModel) -> int {
    let x = num_of(a).unwrap();
    let y = num_of(b).unwrap();
    if x >= y {
        x - y
    } else {
        y - x
    }
}

/// Executable absolute difference: `Some` exactly on two values of the same
/// numeric tag.
pub fn value_delta(a: &DataValue, b: &DataValue) -> (r: Option<u128>)
    ensures
        r is Some <==> (tag_of(a@) == tag_of(b@) && num_of(a@) is Some),
        r is Some ==> r.unwrap() == spec_delta(a@, b@),
{
    match (a, b) {
        (DataValue::U8(x), DataValue::U8(y)) => Some(
            if x >= y {
                (x - y) as u128
            } else {
                (y - x) as u128
            },
        ),
        (DataValue::U16(x), DataValue::U16(y)) => Some(
            if x >= y {
                (x - y) as u128
            } else {
                (y - x) as u128
            },
        ),
        (DataValue::U32(x), DataValue::U32(y)) => Some(
            if x >= y {
                (x - y) as u128
            } else {
                (y - x) as u128
            },
        ),
        (DataValue::U64(x), DataValue::U64(y)) => Some(
            if x >= y {
                (x - y) as u128
            } else {
                (y - x) as u128
            },
        ),
        (DataValue::U128(x), DataValue::U128(y)) => Some(
            if x >= y {
                x - y
            } else {
                y - x
            },
        ),
        (DataValue::USize(x), DataValue::USize(y)) => Some(
            if x >= y {
                (x - y) as u128
            } else {
                (y - x) as u128
            },
        ),
        (DataValue::I8(x), DataValue::I8(y)) => Some(wide_diff(*x as i128, *y as i128)),
        (DataValue::I16(x), DataValue::I16(y)) => Some(wide_diff(*x as i128, *y as i128)),
        (DataValue::I32(x), DataValue::I32(y)) => Some(wide_diff(*x as i128, *y as i128)),
        (DataValue::I64(x), DataValue::I64(y)) => Some(wide_diff(*x as i128, *y as i128)),
        (DataValue::I128(x), DataValue::I128(y)) => Some(full_diff(*x, *y)),
        (DataValue::ISize(x), DataValue::ISize(y)) => Some(wide_diff(*x as i128, *y as i128)),
        (DataValue::F32(x), DataValue::F32(y)) => Some(wide_diff(*x as i128, *y as i128)),
        (DataValue::F64(x), DataValue::F64(y)) => Some(wide_diff(*x as i128, *y as i128)),
        _ => None,
    }
}

/// Absolute difference of two `i128` values that are small enough for their
/// difference to fit.
fn wide_diff(x: i128, y: i128) -> (r: u128)
    requires
        -0x7fff_ffff_ffff_ffff_ffff_ffff_ffff_ffff <= x - y
            <= 0x7fff_ffff_ffff_ffff_ffff_ffff_ffff_ffff,
    ensures
        r == if x >= y {
            x - y
        } else {
            y - x
        },
{
    if x >= y {
        (x - y) as u128
    } else {
        (y - x) as u128
    }
}

/// Absolute difference of two arbitrary `i128` values.
fn full_diff(x: i128, y: i128) -> (r: u128)
    ensures
        r == if x >= y {
            x - y
        } else {
            y - x
        },
{
    let (lo, hi) = if x >= y {
        (y, x)
    } else {
        (x, y)
    };
    if lo >= 0 {
        (hi - lo) as u128
    } else {
        let below: u128 = ((-(lo + 1)) as u128) + 1;
        if hi >= 0 {
            (hi as u128) + below
        } else {
            below - (((-(hi + 1)) as u128) + 1)
        }
    }
}

impl DataValue {
    /// An identical copy, stated precisely: the derived `Clone` carries no
    /// specification, this does.
    pub fn clone_value(&self) -> (r: DataValue)
        ensures
            r@ == self@,
    {
        match self {
            DataValue::Bool(x) => DataValue::Bool(*x),
            DataValue::U8(x) => DataValue::U8(*x),
            DataValue::U16(x) => DataValue::U16(*x),
            DataValue::U32(x) => DataValue::U32(*x),
            DataValue::U64(x) => DataValue::U64(*x),
            DataValue::U128(x) => DataValue::U128(*x),
            DataValue::USize(x) => DataValue::USize(*x),
            DataValue::I8(x) => DataValue::I8(*x),
            DataValue::I16(x) => DataValue::I16(*x),
            DataValue::I32(x) => DataValue::I32(*x),
            DataValue::I64(x) => DataValue::I64(*x),
            DataValue::I128(x) => DataValue::I128(*x),
            DataValue::ISize(x) => DataValue::ISize(*x),
            DataValue::F32(x) => DataValue::F32(*x),
            DataValue::F64(x) => DataValue::F64(*x),
            DataValue::InternedString(s) => DataValue::InternedString(s.clone()),
            DataValue::OwnedString(s) => DataValue::OwnedString(s.clone()),
            DataValue::Unknown => DataValue::Unknown,
        }
    }
}

/// The scalar type a dense column carries.
pub open spec fn spec_vec_tag(v: &DataVec) -> DataType {
    match v {
        DataVec::Unknown => DataType::Unknown,
        DataVec::BoolVec(_) => DataType::Bool,
        DataVec::UInt8Vec(_) => DataType::U8,
        DataVec::UInt16Vec(_) => DataType::U16,
        DataVec::UInt32Vec(_) => DataType::U32,
        DataVec::UInt64Vec(_) => DataType::U64,
        DataVec::Int8Vec(_) => DataType::I8,
        DataVec::Int16Vec(_) => DataType::I16,
        DataVec::Int32Vec(_) => DataType::I32,
        DataVec::Int64Vec(_) => DataType::I64,
        DataVec::Float32Vec(_) => DataType::F32,
        DataVec::Float64Vec(_) => DataType::F64,
        DataVec::Utf8Vec(_) => DataType::OwnedString,
    }
}

/// The scalar type a nullable column carries.
pub open spec fn spec_vec_opt_tag(v: &DataVecOption) -> DataType {
    match v {
        DataVecOption::Unknown => DataType::Unknown,
        DataVecOption::BoolVec(_) => DataType::Bool,
        DataVecOption::UInt8Vec(_) => DataType::U8,
        DataVecOption::UInt16Vec(_) => DataType::U16,
        DataVecOption::UInt32Vec(_) => DataType::U32,
        DataVecOption::UInt64Vec(_) => DataType::U64,
        DataVecOption::Int8Vec(_) => DataType::I8,
        DataVecOption::Int16Vec(_) => DataType::I16,
        DataVecOption::Int32Vec(_) => DataType::I32,
        DataVecOption::Int64Vec(_) => DataType::I64,
        DataVecOption::Float32Vec(_) => DataType::F32,
        DataVecOption::Float64Vec(_) => DataType::F64,
        DataVecOption::Utf8Vec(_) => DataType::OwnedString,
    }
}

/// A dense column of values sharing one scalar type.
#[derive(Debug)]
pub enum DataVec {
    Unknown,
    BoolVec(Vec<bool>),
    UInt8Vec(Vec<u8>),
    UInt16Vec(Vec<u16>),
    UInt32Vec(Vec<u32>),
    UInt64Vec(Vec<u64>),
    Int8Vec(Vec<i8>),
    Int16Vec(Vec<i16>),
    Int32Vec(Vec<i32>),
    Int64Vec(Vec<i64>),
    Float32Vec(Vec<i64>),
    Float64Vec(Vec<i64>),
    Utf8Vec(Vec<String>),
}

impl View for DataVec {
    type V = Seq<ValueModel>;

    open spec fn view(&self) -> Seq<ValueModel> {
        match self {
            DataVec::Unknown => Seq::<ValueModel>::empty(),
            DataVec::BoolVec(v) => v@.map_values(|x: bool| ValueModel::Bool(x)),
            DataVec::UInt8Vec(v) => v@.map_values(|x: u8| ValueModel::U8(x)),
            DataVec::UInt16Vec(v) => v@.map_values(|x: u16| ValueModel::U16(x)),
            DataVec::UInt32Vec(v) => v@.map_values(|x: u32| ValueModel::U32(x)),
            DataVec::UInt64Vec(v) => v@.map_values(|x: u64| ValueModel::U64(x)),
            DataVec::Int8Vec(v) => v@.map_values(|x: i8| ValueModel::I8(x)),
            DataVec::Int16Vec(v) => v@.map_values(|x: i16| ValueModel::I16(x)),
            DataVec::Int32Vec(v) => v@.map_values(|x: i32| ValueModel::I32(x)),
            DataVec::Int64Vec(v) => v@.map_values(|x: i64| ValueModel::I64(x)),
            DataVec::Float32Vec(v) => v@.map_values(|x: i64| ValueModel::F32(x)),
            DataVec::Float64Vec(v) => v@.map_values(|x: i64| ValueModel::F64(x)),
            DataVec::Utf8Vec(v) => v@.map_values(|x: String| ValueModel::OwnedString(x@)),
        }
    }
}

impl DataVec {
    /// The scalar type of the column.
    pub fn data_type(&self) -> (r: DataType)
        ensures
            r == spec_vec_tag(self),
            r == DataType::Unknown <==> self is Unknown,
            forall|i: int| 0 <= i < self@.len() ==> tag_of(#[trigger] self@[i]) == r,
    {
        match self {
            DataVec::Unknown => DataType::Unknown,
            DataVec::BoolVec(_) => DataType::Bool,
            DataVec::UInt8Vec(_) => DataType::U8,
            DataVec::UInt16Vec(_) => DataType::U16,
            DataVec::UInt32Vec(_) => DataType::U32,
            DataVec::UInt64Vec(_) => DataType::U64,
            DataVec::Int8Vec(_) => DataType::I8,
            DataVec::Int16Vec(_) => DataType::I16,
            DataVec::Int32Vec(_) => DataType::I32,
            DataVec::Int64Vec(_) => DataType::I64,
            DataVec::Float32Vec(_) => DataType::F32,
            DataVec::Float64Vec(_) => DataType::F64,
            DataVec::Utf8Vec(_) => DataType::OwnedString,
        }
    }

    /// The data category of the column's scalar type.
    pub fn data_category(&self) -> (r: DataCategory)
        ensures
            r == spec_category(spec_vec_tag(self)),
    {
        data_category_of(self.data_type())
    }

    /// The number of entries.
    pub fn len(&self) -> (r: usize)
        ensures
            r == self@.len(),
    {
        match self {
            DataVec::Unknown => 0,
            DataVec::BoolVec(v) => v.len(),
            DataVec::UInt8Vec(v) => v.len(),
            DataVec::UInt16Vec(v) => v.len(),
            DataVec::UInt32Vec(v) => v.len(),
            DataVec::UInt64Vec(v) => v.len(),
            DataVec::Int8Vec(v) => v.len(),
            DataVec::Int16Vec(v) => v.len(),
            DataVec::Int32Vec(v) => v.len(),
            DataVec::Int64Vec(v) => v.len(),
            DataVec::Float32Vec(v) => v.len(),
            DataVec::Float64Vec(v) => v.len(),
            DataVec::Utf8Vec(v) => v.len(),
        }
    }

    /// The entry at `i` as a tagged value.
    pub fn get(&self, i: usize) -> (r: DataValue)
        requires
            i < self@.len(),
        ensures
            r@ == self@[i as int],
    {
        match self {
            DataVec::Unknown => DataValue::Unknown,
            DataVec::BoolVec(v) => DataValue::Bool(v[i]),
            DataVec::UInt8Vec(v) => DataValue::U8(v[i]),
            DataVec::UInt16Vec(v) => DataValue::U16(v[i]),
            DataVec::UInt32Vec(v) => DataValue::U32(v[i]),
            DataVec::UInt64Vec(v) => DataValue::U64(v[i]),
            DataVec::Int8Vec(v) => DataValue::I8(v[i]),
            DataVec::Int16Vec(v) => DataValue::I16(v[i]),
            DataVec::Int32Vec(v) => DataValue::I32(v[i]),
            DataVec::Int64Vec(v) => DataValue::I64(v[i]),
            DataVec::Float32Vec(v) => DataValue::F32(v[i]),
            DataVec::Float64Vec(v) => DataValue::F64(v[i]),
            DataVec::Utf8Vec(v) => DataValue::OwnedString(v[i].clone()),
        }
    }
}

/// A nullable column of values sharing one scalar type, preserving row
/// positions.
#[derive(Debug)]
pub enum DataVecOption {
    Unknown,
    BoolVec(Vec<Option<bool>>),
    UInt8Vec(Vec<Option<u8>>),
    UInt16Vec(Vec<Option<u16>>),
    UInt32Vec(Vec<Option<u32>>),
    UInt64Vec(Vec<Option<u64>>),
    Int8Vec(Vec<Option<i8>>),
    Int16Vec(Vec<Option<i16>>),
    Int32Vec(Vec<Option<i32>>),
    Int64Vec(Vec<Option<i64>>),
    Float32Vec(Vec<Option<i64>>),
    Float64Vec(Vec<Option<i64>>),
    Utf8Vec(Vec<Option<String>>),
}

impl View for DataVecOption {
    type V = Seq<Option<ValueModel>>;

    open spec fn view(&self) -> Seq<Option<ValueModel>> {
        match self {
            DataVecOption::Unknown => Seq::<Option<ValueModel>>::empty(),
            DataVecOption::BoolVec(v) => v@.map_values(
                |x: Option<bool>|
                    match x {
                        Some(y) => Some(ValueModel::Bool(y)),
                        None => None,
                    },
            ),
            DataVecOption::UInt8Vec(v) => v@.map_values(
                |x: Option<u8>|
                    match x {
                        Some(y) => Some(ValueModel::U8(y)),
                        None => None,
                    },
            ),
            DataVecOption::UInt16Vec(v) => v@.map_values(
                |x: Option<u16>|
                    match x {
                        Some(y) => Some(ValueModel::U16(y)),
                        None => None,
                    },
            ),
            DataVecOption::UInt32Vec(v) => v@.map_values(
                |x: Option<u32>|
                    match x {
                        Some(y) => Some(ValueModel::U32(y)),
                        None => None,
                    },
            ),
            DataVecOption::UInt64Vec(v) => v@.map_values(
                |x: Option<u64>|
                    match x {
                        Some(y) => Some(ValueModel::U64(y)),
                        None => None,
                    },
            ),
            DataVecOption::Int8Vec(v) => v@.map_values(
                |x: Option<i8>|
                    match x {
                        Some(y) => Some(ValueModel::I8(y)),
                        None => None,
                    },
            ),
            DataVecOption::Int16Vec(v) => v@.map_values(
                |x: Option<i16>|
                    match x {
                        Some(y) => Some(ValueModel::I16(y)),
                        None => None,
                    },
            ),
            DataVecOption::Int32Vec(v) => v@.map_values(
                |x: Option<i32>|
                    match x {
                        Some(y) => Some(ValueModel::I32(y)),
                        None => None,
                    },
            ),
            DataVecOption::Int64Vec(v) => v@.map_values(
                |x: Option<i64>|
                    match x {
                        Some(y) => Some(ValueModel::I64(y)),
                        None => None,
                    },
            ),
            DataVecOption::Float32Vec(v) => v@.map_values(
                |x: Option<i64>|
                    match x {
                        Some(y) => Some(ValueModel::F32(y)),
                        None => None,
                    },
            ),
            DataVecOption::Float64Vec(v) => v@.map_values(
                |x: Option<i64>|
                    match x {
                        Some(y) => Some(ValueModel::F64(y)),
                        None => None,
                    },
            ),
            DataVecOption::Utf8Vec(v) => v@.map_values(
                |x: Option<String>|
                    match x {
                        Some(y) => Some(ValueModel::OwnedString(y@)),
                        None => None,
                    },
            ),
        }
    }
}

impl DataVecOption {
    /// The scalar type of the column.
    pub fn data_type(&self) -> (r: DataType)
        ensures
            r == spec_vec_opt_tag(self),
            r == DataType::Unknown <==> self is Unknown,
            forall|i: int|
                0 <= i < self@.len() && #[trigger] self@[i] is Some ==> tag_of(
                    self@[i].unwrap(),
                ) == r,
    {
        match self {
            DataVecOption::Unknown => DataType::Unknown,
            DataVecOption::BoolVec(_) => DataType::Bool,
            DataVecOption::UInt8Vec(_) => DataType::U8,
            DataVecOption::UInt16Vec(_) => DataType::U16,
            DataVecOption::UInt32Vec(_) => DataType::U32,
            DataVecOption::UInt64Vec(_) => DataType::U64,
            DataVecOption::Int8Vec(_) => DataType::I8,
            DataVecOption::Int16Vec(_) => DataType::I16,
            DataVecOption::Int32Vec(_) => DataType::I32,
            DataVecOption::Int64Vec(_) => DataType::I64,
            DataVecOption::Float32Vec(_) => DataType::F32,
            DataVecOption::Float64Vec(_) => DataType::F64,
            DataVecOption::Utf8Vec(_) => DataType::OwnedString,
        }
    }

    /// The data category of the column's scalar type.
    pub fn data_category(&self) -> (r: DataCategory)
        ensures
            r == spec_category(spec_vec_opt_tag(self)),
    {
        data_category_of(self.data_type())
    }

    /// The number of rows.
    pub fn len(&self) -> (r: usize)
        ensures
            r == self@.len(),
    {
        match self {
            DataVecOption::Unknown => 0,
            DataVecOption::BoolVec(v) => v.len(),
            DataVecOption::UInt8Vec(v) => v.len(),
            DataVecOption::UInt16Vec(v) => v.len(),
            DataVecOption::UInt32Vec(v) => v.len(),
            DataVecOption::UInt64Vec(v) => v.len(),
            DataVecOption::Int8Vec(v) => v.len(),
            DataVecOption::Int16Vec(v) => v.len(),
            DataVecOption::Int32Vec(v) => v.len(),
            DataVecOption::Int64Vec(v) => v.len(),
            DataVecOption::Float32Vec(v) => v.len(),
            DataVecOption::Float64Vec(v) => v.len(),
            DataVecOption::Utf8Vec(v) => v.len(),
        }
    }

    /// The cell of row `i`: a tagged value, or nothing for a null.
    pub fn get(&self, i: usize) -> (r: Option<DataValue>)
        requires
            i < self@.len(),
        ensures
            r is Some <==> self@[i as int] is Some,
            r is Some ==> r.unwrap()@ == self@[i as int].unwrap(),
    {
        match self {
            DataVecOption::Unknown => None,
            DataVecOption::BoolVec(v) => match &v[i] {
                Some(y) => Some(DataValue::Bool(*y)),
                None => None,
            },
            DataVecOption::UInt8Vec(v) => match &v[i] {
                Some(y) => Some(DataValue::U8(*y)),
                None => None,
            },
            DataVecOption::UInt16Vec(v) => match &v[i] {
                Some(y) => Some(DataValue::U16(*y)),
                None => None,
            },
            DataVecOption::UInt32Vec(v) => match &v[i] {
                Some(y) => Some(DataValue::U32(*y)),
                None => None,
            },
            DataVecOption::UInt64Vec(v) => match &v[i] {
                Some(y) => Some(DataValue::U64(*y)),
                None => None,
            },
            DataVecOption::Int8Vec(v) => match &v[i] {
                Some(y) => Some(DataValue::I8(*y)),
                None => None,
            },
            DataVecOption::Int16Vec(v) => match &v[i] {
                Some(y) => Some(DataValue::I16(*y)),
                None => None,
            },
            DataVecOption::Int32Vec(v) => match &v[i] {
                Some(y) => Some(DataValue::I32(*y)),
                None => None,
            },
            DataVecOption::Int64Vec(v) => match &v[i] {
                Some(y) => Some(DataValue::I64(*y)),
                None => None,
            },
            DataVecOption::Float32Vec(v) => match &v[i] {
                Some(y) => Some(DataValue::F32(*y)),
                None => None,
            },
            DataVecOption::Float64Vec(v) => match &v[i] {
                Some(y) => Some(DataValue::F64(*y)),
                None => None,
            },
            DataVecOption::Utf8Vec(v) => match &v[i] {
                Some(y) => Some(DataValue::OwnedString(y.clone())),
                None => None,
            },
        }
    }
}

/// Distance between two values of one tag, in millionths: the numeric
/// difference for numbers, `0` for equal and `1.0` for different
/// categorical values.
pub open spec fn spec_distance(a: ValueModel, b: ValueModel) -> int {
    if num_of(a) is Some {
        if tag_of(a) == DataType::F32 || tag_of(a) == DataType::F64 {
            spec_delta(a, b)
        } else {
            sat128(spec_delta(a, b) * (SCALE as int))
        }
    } else {
        if a == b {
            0
        } else {
            SCALE as int
        }
    }
}

/// Distance between two tagged values, in millionths.
///
/// Defined only when the tags agree; a mismatch is a `TypeMismatch` error.
pub fn distance(a: &DataValue, b: &DataValue) -> (r: Result<u128, crate::error::MagdsError>)
    ensures
        r is Ok <==> tag_of(a@) == tag_of(b@),
        r is Ok ==> r.unwrap() == spec_distance(a@, b@),
{
    let ta = a.data_type();
    let tb = b.data_type();
    if ta != tb {
        return Err(crate::error::MagdsError::TypeMismatch { expected: ta, actual: tb });
    }
    match value_delta(a, b) {
        Some(d) => {
            if matches!(ta, DataType::F32 | DataType::F64) {
                Ok(d)
            } else {
                Ok(crate::num::to_micros_sat(d))
            }
        },
        None => {
            if a.eq_value(b) {
                Ok(0)
            } else {
                Ok(SCALE as u128)
            }
        },
    }
}

} // verus!
