//! The closed table from native type spellings to the types of the binding.

use vstd::prelude::*;
use crate::text::{blank, chars_of, is_blank};

verus! {

/// The scalar types that a binding can name.
#[derive(Clone, Copy, Debug, PartialEq, Eq, Structural)]
pub enum Scalar {
    Char,
    Short,
    Int,
    Long,
    LongLong,
    Int8,
    Int16,
    Int32,
    Int64,
    IntPtr,
    UInt8,
    UInt16,
    UInt32,
    UInt64,
    UIntPtr,
    Float,
    Double,
}

/// A scalar type behind `depth` pointers.
#[derive(Clone, Copy, Debug, PartialEq, Eq, Structural)]
pub struct ForeignType {
    pub scalar: Scalar,
    pub depth: usize,
}

/// A type spelling that the table does not hold.
#[derive(Debug, PartialEq)]
pub struct UnsupportedTypeError {
    /// The spelling as the probe declares it.
    pub spelling: String,
}

/// The characters that may follow the base type in a spelling.
pub open spec fn marker(c: char) -> bool {
    c == '*' || blank(c)
}

/// A spelling without the blanks and pointer markers at its end.
pub open spec fn base_token(s: Seq<char>) -> Seq<char>
    decreases s.len(),
{
    if s.len() > 0 && marker(s.last()) {
        base_token(s.drop_last())
    } else {
        s
    }
}

/// How many pointer markers a text holds.
pub open spec fn stars(s: Seq<char>) -> nat
    decreases s.len(),
{
    if s.len() == 0 {
        0
    } else {
        stars(s.skip(1)) + if s[0] == '*' {
            1nat
        } else {
            0nat
        }
    }
}

/// How many pointer markers follow the base type of a spelling.
pub open spec fn pointer_depth(s: Seq<char>) -> nat {
    stars(s.skip(base_token(s).len() as int))
}

/// The table: the scalar that a base type names, if it names one.
pub open spec fn scalar_of(base: Seq<char>) -> Option<Scalar> {
    if base == "char"@ {
        Some(Scalar::Char)
    } else if base == "short"@ {
        Some(Scalar::Short)
    } else if base == "int"@ {
        Some(Scalar::Int)
    } else if base == "long"@ {
        Some(Scalar::Long)
    } else if base == "long long"@ {
        Some(Scalar::LongLong)
    } else if base == "int8_t"@ {
        Some(Scalar::Int8)
    } else if base == "int16_t"@ {
        Some(Scalar::Int16)
    } else if base == "int32_t"@ {
        Some(Scalar::Int32)
    } else if base == "int64_t"@ {
        Some(Scalar::Int64)
    } else if base == "intptr_t"@ {
        Some(Scalar::IntPtr)
    } else if base == "uint8_t"@ {
        Some(Scalar::UInt8)
    } else if base == "uint16_t"@ {
        Some(Scalar::UInt16)
    } else if base == "uint32_t"@ {
        Some(Scalar::UInt32)
    } else if base == "uint64_t"@ {
        Some(Scalar::UInt64)
    } else if base == "uintptr_t"@ {
        Some(Scalar::UIntPtr)
    } else if base == "float"@ {
        Some(Scalar::Float)
    } else if base == "double"@ {
        Some(Scalar::Double)
    } else {
        None
    }
}

/// Whether the table holds the base type of a spelling.
pub open spec fn supported(s: Seq<char>) -> bool {
    scalar_of(base_token(s)) is Some
}

/// The name of a scalar in the binding.
pub open spec fn scalar_token(scalar: Scalar) -> Seq<char> {
    match scalar {
        Scalar::Char => "c_char"@,
        Scalar::Short => "c_short"@,
        Scalar::Int => "c_int"@,
        Scalar::Long => "c_long"@,
        Scalar::LongLong => "c_longlong"@,
        Scalar::Int8 => "i8"@,
        Scalar::Int16 => "i16"@,
        Scalar::Int32 => "i32"@,
        Scalar::Int64 => "i64"@,
        Scalar::IntPtr => "isize"@,
        Scalar::UInt8 => "u8"@,
        Scalar::UInt16 => "u16"@,
        Scalar::UInt32 => "u32"@,
        Scalar::UInt64 => "u64"@,
        Scalar::UIntPtr => "usize"@,
        Scalar::Float => "c_float"@,
        Scalar::Double => "c_double"@,
    }
}

/// `depth` pointer prefixes, one after another.
pub open spec fn pointers(depth: nat) -> Seq<char>
    decreases depth,
{
    if depth == 0 {
        Seq::empty()
    } else {
        pointers((depth - 1) as nat) + "*mut "@
    }
}

/// A foreign type as the binding writes it: one pointer prefix for each level, then the scalar.
pub open spec fn foreign_text(t: ForeignType) -> Seq<char> {
    pointers(t.depth as nat) + scalar_token(t.scalar)
}

/// The foreign type that a supported spelling maps to.
pub open spec fn foreign_type_of(s: Seq<char>) -> ForeignType {
    ForeignType { scalar: scalar_of(base_token(s))->0, depth: pointer_depth(s) as usize }
}

/// The markers of a text made of two parts are those of the parts.
pub proof fn lemma_stars_of_parts(a: Seq<char>, b: Seq<char>)
    ensures
        stars(a + b) == stars(a) + stars(b),
    decreases a.len(),
{
    if a.len() == 0 {
        assert(a + b =~= b);
    } else {
        assert((a + b).skip(1) =~= a.skip(1) + b);
        lemma_stars_of_parts(a.skip(1), b);
    }
}

/// The base type of a spelling stands at its start.
pub proof fn lemma_base_token_is_prefix(s: Seq<char>)
    ensures
        base_token(s).len() <= s.len(),
        base_token(s) == s.take(base_token(s).len() as int),
    decreases s.len(),
{
    if s.len() > 0 && marker(s.last()) {
        lemma_base_token_is_prefix(s.drop_last());
        let n = base_token(s).len() as int;
        assert(s.drop_last().take(n) =~= s.take(n));
    } else {
        assert(s.take(s.len() as int) =~= s);
    }
}

/// In a supported spelling every pointer marker follows the base type: the
/// pointer depth is the number of markers in the whole spelling.
pub proof fn lemma_depth_counts_every_marker(s: Seq<char>)
    requires
        supported(s),
    ensures
        pointer_depth(s) == stars(s),
{
    let base = base_token(s);
    lemma_base_token_is_prefix(s);
    assert(s =~= base + s.skip(base.len() as int));
    lemma_stars_of_parts(base, s.skip(base.len() as int));
    reveal_strlit("char");
    reveal_strlit("short");
    reveal_strlit("int");
    reveal_strlit("long");
    reveal_strlit("long long");
    reveal_strlit("int8_t");
    reveal_strlit("int16_t");
    reveal_strlit("int32_t");
    reveal_strlit("int64_t");
    reveal_strlit("intptr_t");
    reveal_strlit("uint8_t");
    reveal_strlit("uint16_t");
    reveal_strlit("uint32_t");
    reveal_strlit("uint64_t");
    reveal_strlit("uintptr_t");
    reveal_strlit("float");
    reveal_strlit("double");
    assert(base.len() <= 9);
    assert(forall|i: int| 0 <= i < base.len() ==> base[i] != '*');
    lemma_no_marker(base);
}

/// A text without a pointer marker holds none.
pub proof fn lemma_no_marker(t: Seq<char>)
    requires
        forall|i: int| 0 <= i < t.len() ==> t[i] != '*',
    ensures
        stars(t) == 0,
    decreases t.len(),
{
    if t.len() > 0 {
        assert forall|i: int| 0 <= i < t.skip(1).len() implies t.skip(1)[i] != '*' by {
            assert(t.skip(1)[i] == t[i + 1]);
        }
        lemma_no_marker(t.skip(1));
    }
}

impl Scalar {
    /// The name of the scalar in the binding.
    pub fn token(self) -> (r: &'static str)
        ensures
            r@ == scalar_token(self),
    {
        match self {
            Scalar::Char => "c_char",
            Scalar::Short => "c_short",
            Scalar::Int => "c_int",
            Scalar::Long => "c_long",
            Scalar::LongLong => "c_longlong",
            Scalar::Int8 => "i8",
            Scalar::Int16 => "i16",
            Scalar::Int32 => "i32",
            Scalar::Int64 => "i64",
            Scalar::IntPtr => "isize",
            Scalar::UInt8 => "u8",
            Scalar::UInt16 => "u16",
            Scalar::UInt32 => "u32",
            Scalar::UInt64 => "u64",
            Scalar::UIntPtr => "usize",
            Scalar::Float => "c_float",
            Scalar::Double => "c_double",
        }
    }
}

impl ForeignType {
    /// Writes the type as the binding spells it.
    pub fn text(&self) -> (r: String)
        ensures
            r@ == foreign_text(*self),
    {
        let mut out = String::new();
        let mut k: usize = 0;
        while k < self.depth
            invariant
                k <= self.depth,
                out@ == pointers(k as nat),
            decreases self.depth - k,
        {
            out.append("*mut ");
            k += 1;
        }
        out.append(self.scalar.token());
        out
    }
}

/// Tells whether two texts are the same.
fn same_text(a: &str, b: &str) -> (r: bool)
    ensures
        r == (a@ == b@),
{
    let x = String::from_str(a);
    let y = String::from_str(b);
    x == y
}

/// Looks a base type up in the table.
pub fn lookup(base: &str) -> (r: Option<Scalar>)
    ensures
        r == scalar_of(base@),
{
    if same_text(base, "char") {
        Some(Scalar::Char)
    } else if same_text(base, "short") {
        Some(Scalar::Short)
    } else if same_text(base, "int") {
        Some(Scalar::Int)
    } else if same_text(base, "long") {
        Some(Scalar::Long)
    } else if same_text(base, "long long") {
        Some(Scalar::LongLong)
    } else if same_text(base, "int8_t") {
        Some(Scalar::Int8)
    } else if same_text(base, "int16_t") {
        Some(Scalar::Int16)
    } else if same_text(base, "int32_t") {
        Some(Scalar::Int32)
    } else if same_text(base, "int64_t") {
        Some(Scalar::Int64)
    } else if same_text(base, "intptr_t") {
        Some(Scalar::IntPtr)
    } else if same_text(base, "uint8_t") {
        Some(Scalar::UInt8)
    } else if same_text(base, "uint16_t") {
        Some(Scalar::UInt16)
    } else if same_text(base, "uint32_t") {
        Some(Scalar::UInt32)
    } else if same_text(base, "uint64_t") {
        Some(Scalar::UInt64)
    } else if same_text(base, "uintptr_t") {
        Some(Scalar::UIntPtr)
    } else if same_text(base, "float") {
        Some(Scalar::Float)
    } else if same_text(base, "double") {
        Some(Scalar::Double)
    } else {
        None
    }
}

/// Maps a type spelling to its foreign type: the base type by the table, with
/// one pointer level for each marker that follows it. A spelling whose base
/// type the table lacks is an error that carries the spelling.
pub fn map_type(spelling: &str) -> (r: Result<ForeignType, UnsupportedTypeError>)
    ensures
        match r {
            Ok(t) => supported(spelling@) && t == foreign_type_of(spelling@) && t.depth
                == pointer_depth(spelling@),
            Err(e) => !supported(spelling@) && e.spelling@ == spelling@,
        },
{
    let chars = chars_of(spelling);
    let n = chars.len();
    let mut j: usize = n;
    let mut depth: usize = 0;
    proof {
        assert(spelling@.take(n as int) =~= spelling@);
    }
    while j > 0 && (chars[j - 1] == '*' || is_blank(chars[j - 1]))
        invariant
            chars@ == spelling@,
            n == chars@.len(),
            j <= n,
            depth <= n - j,
            base_token(spelling@) == base_token(spelling@.take(j as int)),
            depth == stars(spelling@.skip(j as int)),
        decreases j,
    {
        proof {
            assert(spelling@.take(j as int).drop_last() =~= spelling@.take(j - 1));
            assert(spelling@.skip(j - 1).skip(1) =~= spelling@.skip(j as int));
        }
        if chars[j - 1] == '*' {
            depth += 1;
        }
        j -= 1;
    }
    let base = spelling.substring_char(0, j);
    proof {
        assert(spelling@.subrange(0, j as int) =~= spelling@.take(j as int));
    }
    match lookup(base) {
        Some(scalar) => Ok(ForeignType { scalar, depth }),
        None => Err(UnsupportedTypeError { spelling: String::from_str(spelling) }),
    }
}

} // verus!
