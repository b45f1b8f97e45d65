//! The value type of scripts.

use crate::chars::{byte_len, lemma_byte_len_encode};
use crate::strings::push_char;
use std::borrow::Cow;
use vstd::prelude::*;

verus! {

broadcast use vstd::string::group_string_axioms;

/// The basic and only type used in scripts.
#[derive(Debug, PartialEq, Eq, PartialOrd, Ord, Hash)]
pub enum RawValue {
    /// The unit type. It is empty, just like [`None`] or [`()`] in Rust.
    Unit,
    /// The boolean type.
    Bool(bool),
    /// The number type. It's [`i64`].
    Num(i64),
    /// The string type.
    Str(String),
}

/// Represents the type of [`RawValue`].
#[derive(Debug, Clone, Copy, PartialEq, Eq, PartialOrd, Ord, Structural)]
pub enum ValueType {
    /// The unit type.
    Unit,
    /// The boolean type.
    Bool,
    /// The number type.
    Num,
    /// The string type.
    Str,
}

impl Clone for RawValue {
    fn clone(&self) -> (v: Self)
        ensures
            v == *self,
    {
        match self {
            RawValue::Unit => RawValue::Unit,
            RawValue::Bool(b) => RawValue::Bool(*b),
            RawValue::Num(n) => RawValue::Num(*n),
            RawValue::Str(s) => RawValue::Str(s.clone()),
        }
    }
}

impl Default for RawValue {
    fn default() -> (v: Self)
        ensures
            v is Unit,
    {
        Self::Unit
    }
}

/// The decimal digit `d`.
pub open spec fn digit_char(d: nat) -> char {
    if d == 0 {
        '0'
    } else if d == 1 {
        '1'
    } else if d == 2 {
        '2'
    } else if d == 3 {
        '3'
    } else if d == 4 {
        '4'
    } else if d == 5 {
        '5'
    } else if d == 6 {
        '6'
    } else if d == 7 {
        '7'
    } else if d == 8 {
        '8'
    } else {
        '9'
    }
}

/// The decimal representation of a natural number, without leading zeros.
pub open spec fn nat_decimal(n: nat) -> Seq<char>
    decreases n,
{
    if n < 10 {
        seq![digit_char(n)]
    } else {
        nat_decimal(n / 10).push(digit_char(n % 10))
    }
}

/// The decimal representation of an integer, as `Display` writes it.
pub open spec fn int_decimal(i: int) -> Seq<char> {
    if i < 0 {
        seq!['-'] + nat_decimal((-i) as nat)
    } else {
        nat_decimal(i as nat)
    }
}

/// `true` or `false`, as `Display` writes a boolean.
pub open spec fn bool_text(b: bool) -> Seq<char> {
    if b {
        seq!['t', 'r', 'u', 'e']
    } else {
        seq!['f', 'a', 'l', 's', 'e']
    }
}

/// The string a value converts to.
pub open spec fn value_str(v: RawValue) -> Seq<char> {
    match v {
        RawValue::Unit => Seq::empty(),
        RawValue::Bool(b) => bool_text(b),
        RawValue::Num(i) => int_decimal(i as int),
        RawValue::Str(s) => s@,
    }
}

/// The boolean a value converts to.
pub open spec fn value_bool(v: RawValue) -> bool {
    match v {
        RawValue::Unit => false,
        RawValue::Bool(b) => b,
        RawValue::Num(i) => i != 0,
        RawValue::Str(s) => s@.len() > 0,
    }
}

/// The number a value converts to; a string gives its length in bytes.
pub open spec fn value_num(v: RawValue) -> i64 {
    match v {
        RawValue::Unit => 0,
        RawValue::Bool(b) => if b {
            1
        } else {
            0
        },
        RawValue::Num(i) => i,
        RawValue::Str(s) => (byte_len(s@) as usize) as i64,
    }
}

fn digit(d: u64) -> (c: char)
    requires
        d < 10,
    ensures
        c == digit_char(d as nat),
{
    if d == 0 {
        '0'
    } else if d == 1 {
        '1'
    } else if d == 2 {
        '2'
    } else if d == 3 {
        '3'
    } else if d == 4 {
        '4'
    } else if d == 5 {
        '5'
    } else if d == 6 {
        '6'
    } else if d == 7 {
        '7'
    } else if d == 8 {
        '8'
    } else {
        '9'
    }
}

pub(crate) fn nat_to_string(n: u64) -> (s: String)
    ensures
        s@ == nat_decimal(n as nat),
{
    let mut digits: Vec<char> = Vec::new();
    let mut m = n;
    digits.push(digit(m % 10));
    m = m / 10;
    assert(digits@.reverse() =~= seq![digit_char((n % 10) as nat)]);
    while m > 0
        invariant
            m == 0 ==> digits@.reverse() == nat_decimal(n as nat),
            m > 0 ==> nat_decimal(m as nat) + digits@.reverse() == nat_decimal(n as nat),
        decreases m,
    {
        let ghost prev = digits@;
        digits.push(digit(m % 10));
        assert(digits@.reverse() =~= seq![digit_char((m % 10) as nat)] + prev.reverse());
        assert(nat_decimal(m as nat) == if m < 10 {
            seq![digit_char(m as nat)]
        } else {
            nat_decimal((m / 10) as nat).push(digit_char((m % 10) as nat))
        });
        m = m / 10;
        assert(m > 0 ==> nat_decimal(m as nat) + digits@.reverse() =~= nat_decimal(n as nat));
        assert(m == 0 ==> digits@.reverse() =~= nat_decimal(n as nat));
    }
    let mut s = String::new();
    let mut i = digits.len();
    while i > 0
        invariant
            i <= digits@.len(),
            s@ == digits@.reverse().take(digits@.len() - i),
        decreases i,
    {
        i = i - 1;
        push_char(&mut s, digits[i]);
        assert(s@ =~= digits@.reverse().take(digits@.len() - i));
    }
    assert(s@ =~= digits@.reverse());
    s
}

/// The decimal representation of `i`.
pub fn int_to_string(i: i64) -> (s: String)
    ensures
        s@ == int_decimal(i as int),
{
    if i < 0 {
        let mag: u64 = if i == i64::MIN {
            9223372036854775808u64
        } else {
            (-i) as u64
        };
        let digits = nat_to_string(mag);
        let mut s = String::new();
        push_char(&mut s, '-');
        s.append(digits.as_str());
        s
    } else {
        nat_to_string(i as u64)
    }
}

/// `"true"` or `"false"`.
pub fn bool_to_string(b: bool) -> (s: String)
    ensures
        s@ == bool_text(b),
{
    proof {
        reveal_strlit("true");
        reveal_strlit("false");
    }
    if b {
        let s = "true".to_string();
        assert(s@ =~= bool_text(b));
        s
    } else {
        let s = "false".to_string();
        assert(s@ =~= bool_text(b));
        s
    }
}

impl RawValue {
    /// Gets [`ValueType`].
    pub fn get_type(&self) -> (t: ValueType)
        ensures
            t == match self {
                RawValue::Unit => ValueType::Unit,
                RawValue::Bool(_) => ValueType::Bool,
                RawValue::Num(_) => ValueType::Num,
                RawValue::Str(_) => ValueType::Str,
            },
    {
        match self {
            Self::Unit => ValueType::Unit,
            Self::Bool(_) => ValueType::Bool,
            Self::Num(_) => ValueType::Num,
            Self::Str(_) => ValueType::Str,
        }
    }

    /// Gets a boolean from the value:
    /// * A [`RawValue::Unit`] converts to `false`.
    /// * A [`RawValue::Num`] converts to `false` if and only if it's zero.
    /// * A [`RawValue::Str`] converts to `false` if and only if it's empty.
    pub fn get_bool(&self) -> (b: bool)
        ensures
            b == value_bool(*self),
    {
        match self {
            Self::Unit => false,
            Self::Bool(b) => *b,
            Self::Num(i) => *i != 0,
            Self::Str(s) => !s.as_str().is_empty(),
        }
    }

    /// Gets a number from the value:
    /// * A [`RawValue::Unit`] converts to 0.
    /// * A [`RawValue::Bool`] converts `false` to 0 and `true` to 1.
    /// * A [`RawValue::Str`] converts to the length of the string (in bytes).
    pub fn get_num(&self) -> (n: i64)
        ensures
            n == value_num(*self),
    {
        match self {
            Self::Unit => 0,
            Self::Bool(b) => if *b {
                1
            } else {
                0
            },
            Self::Num(i) => *i,
            Self::Str(s) => {
                proof {
                    lemma_byte_len_encode(s@);
                }
                s.as_str().len() as i64
            },
        }
    }

    /// Gets a string from the value:
    /// * A [`RawValue::Unit`] converts to empty string.
    /// * A [`RawValue::Bool`] converts to "false" or "true".
    /// * A [`RawValue::Num`] converts to the string representation of the number.
    ///
    /// A string value is borrowed, the others are built.
    pub fn get_str(&self) -> (s: Cow<'_, str>)
        ensures
            s@ == value_str(*self),
    {
        match self {
            Self::Unit => Cow::Owned(String::new()),
            Self::Bool(b) => Cow::Owned(bool_to_string(*b)),
            Self::Num(i) => Cow::Owned(int_to_string(*i)),
            Self::Str(s) => Cow::Borrowed(s.as_str()),
        }
    }

    /// Gets a string from the value:
    /// * A [`RawValue::Unit`] converts to empty string.
    /// * A [`RawValue::Bool`] converts to "false" or "true".
    /// * A [`RawValue::Num`] converts to the string representation of the number.
    pub fn into_str(self) -> (s: String)
        ensures
            s@ == value_str(self),
    {
        match self {
            Self::Unit => String::new(),
            Self::Bool(b) => bool_to_string(b),
            Self::Num(i) => int_to_string(i),
            Self::Str(s) => s,
        }
    }
}

/// A value converts to `true` exactly where it converts to a number other
/// than zero: a string where it is not empty (for strings of up to
/// `isize::MAX` bytes, as long as any string can be).
pub proof fn lemma_bool_is_nonzero_num(v: RawValue)
    requires
        v matches RawValue::Str(s) ==> byte_len(s@) <= isize::MAX,
    ensures
        value_bool(v) == (value_num(v) != 0),
{
    if let RawValue::Str(s) = v {
        if s@.len() > 0 {
            assert(byte_len(s@) >= 1);
        } else {
            assert(byte_len(s@) == 0);
        }
    }
}

} // verus!
