//! # Special functions that are known to the compiler

use vstd::prelude::*;

use crate::types::{ConcreteSignature, Type};

verus! {

/// # Special functions that are known to the compiler
///
/// When encountering a call to an intrinsic, the compiler will directly
/// translate that into the appropriate instructions.
#[derive(Clone, Copy, Debug, PartialEq, Eq, Structural, PartialOrd, Ord)]
pub enum IntrinsicFunction {
    /// # Add two signed 8-bit integers, triggering an error on overflow
    AddS8,
    /// # Add two signed 32-bit integers, triggering an error on overflow
    AddS32,
    /// # Add two unsigned 8-bit integers, triggering an error on overflow
    AddU8,
    /// # Add two unsigned 8-bit integers, wrapping on overflow
    AddU8Wrap,
    /// # Logical and
    And,
    /// # Trigger a breakpoint
    Brk,
    /// # Copy a value
    Copy,
    /// # Divide two signed 32-bit integers
    DivS32,
    /// # Divide two unsigned 8-bit integers
    DivU8,
    /// # Drop a value
    Drop,
    /// # Compare two values for equality
    Eq,
    /// # Evaluate an anonymous function
    Eval,
    /// # Determine if the first of two signed 8-bit numbers is greater
    GreaterS8,
    /// # Determine if the first of two signed 32-bit numbers is greater
    GreaterS32,
    /// # Determine if the first of two unsigned 8-bit numbers is greater
    GreaterU8,
    /// # Multiply two signed 32-bit numbers, triggering an error on overflow
    MulS32,
    /// # Multiply two unsigned 8-bit numbers, wrapping on overflow
    MulU8Wrap,
    /// # Negate a signed 32-bit number
    NegS32,
    /// # No operation
    Nop,
    /// # Logical not
    Not,
    /// # Compute the remainder of the division of two signed 32-bit numbers
    RemainderS32,
    /// # Convert a signed 32-bit number to a signed 8-bit number
    S32ToS8,
    /// # Subtract two signed 32-bit numbers, triggering an error on overflow
    SubS32,
    /// # Subtract two unsigned 8-bit numbers, triggering an error on overflow
    SubU8,
    /// # Subtract two unsigned 8-bit numbers, wrapping on overflow
    SubU8Wrap,
}

/// The name by which input code refers to `intrinsic`
pub open spec fn intrinsic_name(intrinsic: IntrinsicFunction) -> Seq<char> {
    match intrinsic {
        IntrinsicFunction::AddS8 => "add_s8"@,
        IntrinsicFunction::AddS32 => "add_s32"@,
        IntrinsicFunction::AddU8 => "add_u8"@,
        IntrinsicFunction::AddU8Wrap => "add_u8_wrap"@,
        IntrinsicFunction::And => "and"@,
        IntrinsicFunction::Brk => "brk"@,
        IntrinsicFunction::Copy => "copy"@,
        IntrinsicFunction::DivS32 => "div_s32"@,
        IntrinsicFunction::DivU8 => "div_u8"@,
        IntrinsicFunction::Drop => "drop"@,
        IntrinsicFunction::Eq => "eq"@,
        IntrinsicFunction::Eval => "eval"@,
        IntrinsicFunction::GreaterS8 => "greater_s8"@,
        IntrinsicFunction::GreaterS32 => "greater_s32"@,
        IntrinsicFunction::GreaterU8 => "greater_u8"@,
        IntrinsicFunction::MulS32 => "mul_s32"@,
        IntrinsicFunction::MulU8Wrap => "mul_u8_wrap"@,
        IntrinsicFunction::NegS32 => "neg_s32"@,
        IntrinsicFunction::Nop => "nop"@,
        IntrinsicFunction::Not => "not"@,
        IntrinsicFunction::RemainderS32 => "remainder_s32"@,
        IntrinsicFunction::S32ToS8 => "s32_to_s8"@,
        IntrinsicFunction::SubS32 => "sub_s32"@,
        IntrinsicFunction::SubU8 => "sub_u8"@,
        IntrinsicFunction::SubU8Wrap => "sub_u8_wrap"@,
    }
}

/// The intrinsic that `name` refers to, if any
pub open spec fn intrinsic_by_name(name: Seq<char>) -> Option<IntrinsicFunction> {
    if name == "add_s8"@ {
        Some(IntrinsicFunction::AddS8)
    } else if name == "add_s32"@ {
        Some(IntrinsicFunction::AddS32)
    } else if name == "add_u8"@ {
        Some(IntrinsicFunction::AddU8)
    } else if name == "add_u8_wrap"@ {
        Some(IntrinsicFunction::AddU8Wrap)
    } else if name == "and"@ {
        Some(IntrinsicFunction::And)
    } else if name == "brk"@ {
        Some(IntrinsicFunction::Brk)
    } else if name == "copy"@ {
        Some(IntrinsicFunction::Copy)
    } else if name == "div_s32"@ {
        Some(IntrinsicFunction::DivS32)
    } else if name == "div_u8"@ {
        Some(IntrinsicFunction::DivU8)
    } else if name == "drop"@ {
        Some(IntrinsicFunction::Drop)
    } else if name == "eq"@ {
        Some(IntrinsicFunction::Eq)
    } else if name == "eval"@ {
        Some(IntrinsicFunction::Eval)
    } else if name == "greater_s8"@ {
        Some(IntrinsicFunction::GreaterS8)
    } else if name == "greater_s32"@ {
        Some(IntrinsicFunction::GreaterS32)
    } else if name == "greater_u8"@ {
        Some(IntrinsicFunction::GreaterU8)
    } else if name == "mul_s32"@ {
        Some(IntrinsicFunction::MulS32)
    } else if name == "mul_u8_wrap"@ {
        Some(IntrinsicFunction::MulU8Wrap)
    } else if name == "neg_s32"@ {
        Some(IntrinsicFunction::NegS32)
    } else if name == "nop"@ {
        Some(IntrinsicFunction::Nop)
    } else if name == "not"@ {
        Some(IntrinsicFunction::Not)
    } else if name == "remainder_s32"@ {
        Some(IntrinsicFunction::RemainderS32)
    } else if name == "s32_to_s8"@ {
        Some(IntrinsicFunction::S32ToS8)
    } else if name == "sub_s32"@ {
        Some(IntrinsicFunction::SubS32)
    } else if name == "sub_u8"@ {
        Some(IntrinsicFunction::SubU8)
    } else if name == "sub_u8_wrap"@ {
        Some(IntrinsicFunction::SubU8Wrap)
    } else {
        None
    }
}

/// The number of inputs and outputs of `intrinsic`, where its type signature
/// can be expressed; all of them are numbers
pub open spec fn intrinsic_arity(intrinsic: IntrinsicFunction) -> Option<(nat, nat)> {
    match intrinsic {
        IntrinsicFunction::AddS8 => Some((2nat, 1nat)),
        IntrinsicFunction::AddS32 => Some((2nat, 1nat)),
        IntrinsicFunction::AddU8 => Some((2nat, 1nat)),
        IntrinsicFunction::AddU8Wrap => Some((2nat, 1nat)),
        IntrinsicFunction::And => Some((2nat, 1nat)),
        IntrinsicFunction::Brk => Some((0nat, 0nat)),
        IntrinsicFunction::Copy => None,
        IntrinsicFunction::DivS32 => Some((2nat, 1nat)),
        IntrinsicFunction::DivU8 => Some((2nat, 1nat)),
        IntrinsicFunction::Drop => None,
        IntrinsicFunction::Eq => Some((2nat, 1nat)),
        IntrinsicFunction::Eval => None,
        IntrinsicFunction::GreaterS8 => Some((2nat, 1nat)),
        IntrinsicFunction::GreaterS32 => Some((2nat, 1nat)),
        IntrinsicFunction::GreaterU8 => Some((2nat, 1nat)),
        IntrinsicFunction::MulS32 => Some((2nat, 1nat)),
        IntrinsicFunction::MulU8Wrap => Some((2nat, 1nat)),
        IntrinsicFunction::NegS32 => Some((1nat, 1nat)),
        IntrinsicFunction::Nop => Some((0nat, 0nat)),
        IntrinsicFunction::Not => Some((1nat, 1nat)),
        IntrinsicFunction::RemainderS32 => Some((2nat, 1nat)),
        IntrinsicFunction::S32ToS8 => Some((1nat, 1nat)),
        IntrinsicFunction::SubS32 => Some((2nat, 1nat)),
        IntrinsicFunction::SubU8 => Some((2nat, 1nat)),
        IntrinsicFunction::SubU8Wrap => Some((2nat, 1nat)),
    }
}

/// Whether `s` consists of `n` numbers
pub open spec fn all_numbers(s: Seq<crate::types::TypeView>, n: nat) -> bool {
    s.len() == n && forall|i: int| 0 <= i < n ==> s[i] == crate::types::TypeView::Number
}

/// # Whether the two strings are equal
pub fn str_eq(a: &str, b: &str) -> (r: bool)
    ensures
        r == (a@ == b@),
{
    let n = a.unicode_len();
    if n != b.unicode_len() {
        return false;
    }
    let mut i: usize = 0;
    while i < n
        invariant
            n == a@.len(),
            n == b@.len(),
            i <= n,
            forall|j: int| 0 <= j < i ==> a@[j] == b@[j],
        decreases n - i,
    {
        if a.get_char(i) != b.get_char(i) {
            return false;
        }
        i = i + 1;
    }
    assert(a@ =~= b@);
    true
}

fn numbers(n: usize) -> (r: Vec<Type>)
    ensures
        all_numbers(r.deep_view(), n as nat),
{
    let mut r: Vec<Type> = Vec::new();
    let mut i: usize = 0;
    while i < n
        invariant
            i <= n,
            all_numbers(r.deep_view(), i as nat),
        decreases n - i,
    {
        let ghost prev = r.deep_view();
        r.push(Type::Number);
        assert(r.deep_view() =~= prev.push(crate::types::TypeView::Number));
        i = i + 1;
    }
    r
}

impl IntrinsicFunction {
    /// # Find the intrinsic function with the given name
    pub fn from_name(name: &str) -> (r: Option<IntrinsicFunction>)
        ensures
            r == intrinsic_by_name(name@),
    {
        if str_eq(name, "add_s8") {
            return Some(IntrinsicFunction::AddS8);
        }
        if str_eq(name, "add_s32") {
            return Some(IntrinsicFunction::AddS32);
        }
        if str_eq(name, "add_u8") {
            return Some(IntrinsicFunction::AddU8);
        }
        if str_eq(name, "add_u8_wrap") {
            return Some(IntrinsicFunction::AddU8Wrap);
        }
        if str_eq(name, "and") {
            return Some(IntrinsicFunction::And);
        }
        if str_eq(name, "brk") {
            return Some(IntrinsicFunction::Brk);
        }
        if str_eq(name, "copy") {
            return Some(IntrinsicFunction::Copy);
        }
        if str_eq(name, "div_s32") {
            return Some(IntrinsicFunction::DivS32);
        }
        if str_eq(name, "div_u8") {
            return Some(IntrinsicFunction::DivU8);
        }
        if str_eq(name, "drop") {
            return Some(IntrinsicFunction::Drop);
        }
        if str_eq(name, "eq") {
            return Some(IntrinsicFunction::Eq);
        }
        if str_eq(name, "eval") {
            return Some(IntrinsicFunction::Eval);
        }
        if str_eq(name, "greater_s8") {
            return Some(IntrinsicFunction::GreaterS8);
        }
        if str_eq(name, "greater_s32") {
            return Some(IntrinsicFunction::GreaterS32);
        }
        if str_eq(name, "greater_u8") {
            return Some(IntrinsicFunction::GreaterU8);
        }
        if str_eq(name, "mul_s32") {
            return Some(IntrinsicFunction::MulS32);
        }
        if str_eq(name, "mul_u8_wrap") {
            return Some(IntrinsicFunction::MulU8Wrap);
        }
        if str_eq(name, "neg_s32") {
            return Some(IntrinsicFunction::NegS32);
        }
        if str_eq(name, "nop") {
            return Some(IntrinsicFunction::Nop);
        }
        if str_eq(name, "not") {
            return Some(IntrinsicFunction::Not);
        }
        if str_eq(name, "remainder_s32") {
            return Some(IntrinsicFunction::RemainderS32);
        }
        if str_eq(name, "s32_to_s8") {
            return Some(IntrinsicFunction::S32ToS8);
        }
        if str_eq(name, "sub_s32") {
            return Some(IntrinsicFunction::SubS32);
        }
        if str_eq(name, "sub_u8") {
            return Some(IntrinsicFunction::SubU8);
        }
        if str_eq(name, "sub_u8_wrap") {
            return Some(IntrinsicFunction::SubU8Wrap);
        }
        None
    }

    /// # Access the name of this intrinsic function
    pub fn name(&self) -> (r: &'static str)
        ensures
            r@ == intrinsic_name(*self),
    {
        match self {
            IntrinsicFunction::AddS8 => "add_s8",
            IntrinsicFunction::AddS32 => "add_s32",
            IntrinsicFunction::AddU8 => "add_u8",
            IntrinsicFunction::AddU8Wrap => "add_u8_wrap",
            IntrinsicFunction::And => "and",
            IntrinsicFunction::Brk => "brk",
            IntrinsicFunction::Copy => "copy",
            IntrinsicFunction::DivS32 => "div_s32",
            IntrinsicFunction::DivU8 => "div_u8",
            IntrinsicFunction::Drop => "drop",
            IntrinsicFunction::Eq => "eq",
            IntrinsicFunction::Eval => "eval",
            IntrinsicFunction::GreaterS8 => "greater_s8",
            IntrinsicFunction::GreaterS32 => "greater_s32",
            IntrinsicFunction::GreaterU8 => "greater_u8",
            IntrinsicFunction::MulS32 => "mul_s32",
            IntrinsicFunction::MulU8Wrap => "mul_u8_wrap",
            IntrinsicFunction::NegS32 => "neg_s32",
            IntrinsicFunction::Nop => "nop",
            IntrinsicFunction::Not => "not",
            IntrinsicFunction::RemainderS32 => "remainder_s32",
            IntrinsicFunction::S32ToS8 => "s32_to_s8",
            IntrinsicFunction::SubS32 => "sub_s32",
            IntrinsicFunction::SubU8 => "sub_u8",
            IntrinsicFunction::SubU8Wrap => "sub_u8_wrap",
        }
    }

    /// # Access the type signature of this intrinsic function
    ///
    /// Not all intrinsic functions can provide a type signature, as the type
    /// system is not advanced enough to express them. In this case, this
    /// method returns `None`, and the caller needs to implement special
    /// handling.
    pub fn signature(&self) -> (r: Option<ConcreteSignature>)
        ensures
            r is None <==> intrinsic_arity(*self) is None,
            r matches Some(s) ==> {
                let (i, o) = intrinsic_arity(*self)->0;
                all_numbers(s.inputs.deep_view(), i) && all_numbers(s.outputs.deep_view(), o)
            },
    {
        let arity: Option<(usize, usize)> = match self {
            IntrinsicFunction::AddS8 => Some((2, 1)),
            IntrinsicFunction::AddS32 => Some((2, 1)),
            IntrinsicFunction::AddU8 => Some((2, 1)),
            IntrinsicFunction::AddU8Wrap => Some((2, 1)),
            IntrinsicFunction::And => Some((2, 1)),
            IntrinsicFunction::Brk => Some((0, 0)),
            IntrinsicFunction::Copy => None,
            IntrinsicFunction::DivS32 => Some((2, 1)),
            IntrinsicFunction::DivU8 => Some((2, 1)),
            IntrinsicFunction::Drop => None,
            IntrinsicFunction::Eq => Some((2, 1)),
            IntrinsicFunction::Eval => None,
            IntrinsicFunction::GreaterS8 => Some((2, 1)),
            IntrinsicFunction::GreaterS32 => Some((2, 1)),
            IntrinsicFunction::GreaterU8 => Some((2, 1)),
            IntrinsicFunction::MulS32 => Some((2, 1)),
            IntrinsicFunction::MulU8Wrap => Some((2, 1)),
            IntrinsicFunction::NegS32 => Some((1, 1)),
            IntrinsicFunction::Nop => Some((0, 0)),
            IntrinsicFunction::Not => Some((1, 1)),
            IntrinsicFunction::RemainderS32 => Some((2, 1)),
            IntrinsicFunction::S32ToS8 => Some((1, 1)),
            IntrinsicFunction::SubS32 => Some((2, 1)),
            IntrinsicFunction::SubU8 => Some((2, 1)),
            IntrinsicFunction::SubU8Wrap => Some((2, 1)),
        };
        match arity {
            Some((i, o)) => Some(ConcreteSignature { inputs: numbers(i), outputs: numbers(o) }),
            None => None,
        }
    }
}


/// Each intrinsic is found by its name: no two intrinsics share a name.
pub proof fn intrinsic_found_by_its_name(intrinsic: IntrinsicFunction)
    ensures
        intrinsic_by_name(intrinsic_name(intrinsic)) == Some(intrinsic),
{
    match intrinsic {
        IntrinsicFunction::AddS8 => {
            reveal_strlit("add_s8");
        },
        IntrinsicFunction::AddS32 => {
            reveal_strlit("add_s32");
            reveal_strlit("add_s8");
            assert("add_s8"@ != "add_s32"@) by { assert("add_s8"@.len() != "add_s32"@.len()); }
        },
        IntrinsicFunction::AddU8 => {
            reveal_strlit("add_u8");
            reveal_strlit("add_s8");
            assert("add_s8"@ != "add_u8"@) by { assert("add_s8"@[4] != "add_u8"@[4]); }
            reveal_strlit("add_s32");
            assert("add_s32"@ != "add_u8"@) by { assert("add_s32"@.len() != "add_u8"@.len()); }
        },
        IntrinsicFunction::AddU8Wrap => {
            reveal_strlit("add_u8_wrap");
            reveal_strlit("add_s8");
            assert("add_s8"@ != "add_u8_wrap"@) by { assert("add_s8"@.len() != "add_u8_wrap"@.len()); }
            reveal_strlit("add_s32");
            assert("add_s32"@ != "add_u8_wrap"@) by { assert("add_s32"@.len() != "add_u8_wrap"@.len()); }
            reveal_strlit("add_u8");
            assert("add_u8"@ != "add_u8_wrap"@) by { assert("add_u8"@.len() != "add_u8_wrap"@.len()); }
        },
        IntrinsicFunction::And => {
            reveal_strlit("and");
            reveal_strlit("add_s8");
            assert("add_s8"@ != "and"@) by { assert("add_s8"@.len() != "and"@.len()); }
            reveal_strlit("add_s32");
            assert("add_s32"@ != "and"@) by { assert("add_s32"@.len() != "and"@.len()); }
            reveal_strlit("add_u8");
            assert("add_u8"@ != "and"@) by { assert("add_u8"@.len() != "and"@.len()); }
            reveal_strlit("add_u8_wrap");
            assert("add_u8_wrap"@ != "and"@) by { assert("add_u8_wrap"@.len() != "and"@.len()); }
        },
        IntrinsicFunction::Brk => {
            reveal_strlit("brk");
            reveal_strlit("add_s8");
            assert("add_s8"@ != "brk"@) by { assert("add_s8"@.len() != "brk"@.len()); }
            reveal_strlit("add_s32");
            assert("add_s32"@ != "brk"@) by { assert("add_s32"@.len() != "brk"@.len()); }
            reveal_strlit("add_u8");
            assert("add_u8"@ != "brk"@) by { assert("add_u8"@.len() != "brk"@.len()); }
            reveal_strlit("add_u8_wrap");
            assert("add_u8_wrap"@ != "brk"@) by { assert("add_u8_wrap"@.len() != "brk"@.len()); }
            reveal_strlit("and");
            assert("and"@ != "brk"@) by { assert("and"@[0] != "brk"@[0]); }
        },
        IntrinsicFunction::Copy => {
            reveal_strlit("copy");
            reveal_strlit("add_s8");
            assert("add_s8"@ != "copy"@) by { assert("add_s8"@.len() != "copy"@.len()); }
            reveal_strlit("add_s32");
            assert("add_s32"@ != "copy"@) by { assert("add_s32"@.len() != "copy"@.len()); }
            reveal_strlit("add_u8");
            assert("add_u8"@ != "copy"@) by { assert("add_u8"@.len() != "copy"@.len()); }
            reveal_strlit("add_u8_wrap");
            assert("add_u8_wrap"@ != "copy"@) by { assert("add_u8_wrap"@.len() != "copy"@.len()); }
            reveal_strlit("and");
            assert("and"@ != "copy"@) by { assert("and"@.len() != "copy"@.len()); }
            reveal_strlit("brk");
            assert("brk"@ != "copy"@) by { assert("brk"@.len() != "copy"@.len()); }
        },
        IntrinsicFunction::DivS32 => {
            reveal_strlit("div_s32");
            reveal_strlit("add_s8");
            assert("add_s8"@ != "div_s32"@) by { assert("add_s8"@.len() != "div_s32"@.len()); }
            reveal_strlit("add_s32");
            assert("add_s32"@ != "div_s32"@) by { assert("add_s32"@[0] != "div_s32"@[0]); }
            reveal_strlit("add_u8");
            assert("add_u8"@ != "div_s32"@) by { assert("add_u8"@.len() != "div_s32"@.len()); }
            reveal_strlit("add_u8_wrap");
            assert("add_u8_wrap"@ != "div_s32"@) by { assert("add_u8_wrap"@.len() != "div_s32"@.len()); }
            reveal_strlit("and");
            assert("and"@ != "div_s32"@) by { assert("and"@.len() != "div_s32"@.len()); }
            reveal_strlit("brk");
            assert("brk"@ != "div_s32"@) by { assert("brk"@.len() != "div_s32"@.len()); }
            reveal_strlit("copy");
            assert("copy"@ != "div_s32"@) by { assert("copy"@.len() != "div_s32"@.len()); }
        },
        IntrinsicFunction::DivU8 => {
            reveal_strlit("div_u8");
            reveal_strlit("add_s8");
            assert("add_s8"@ != "div_u8"@) by { assert("add_s8"@[0] != "div_u8"@[0]); }
            reveal_strlit("add_s32");
            assert("add_s32"@ != "div_u8"@) by { assert("add_s32"@.len() != "div_u8"@.len()); }
            reveal_strlit("add_u8");
            assert("add_u8"@ != "div_u8"@) by { assert("add_u8"@[0] != "div_u8"@[0]); }
            reveal_strlit("add_u8_wrap");
            assert("add_u8_wrap"@ != "div_u8"@) by { assert("add_u8_wrap"@.len() != "div_u8"@.len()); }
            reveal_strlit("and");
            assert("and"@ != "div_u8"@) by { assert("and"@.len() != "div_u8"@.len()); }
            reveal_strlit("brk");
            assert("brk"@ != "div_u8"@) by { assert("brk"@.len() != "div_u8"@.len()); }
            reveal_strlit("copy");
            assert("copy"@ != "div_u8"@) by { assert("copy"@.len() != "div_u8"@.len()); }
            reveal_strlit("div_s32");
            assert("div_s32"@ != "div_u8"@) by { assert("div_s32"@.len() != "div_u8"@.len()); }
        },
        IntrinsicFunction::Drop => {
            reveal_strlit("drop");
            reveal_strlit("add_s8");
            assert("add_s8"@ != "drop"@) by { assert("add_s8"@.len() != "drop"@.len()); }
            reveal_strlit("add_s32");
            assert("add_s32"@ != "drop"@) by { assert("add_s32"@.len() != "drop"@.len()); }
            reveal_strlit("add_u8");
            assert("add_u8"@ != "drop"@) by { assert("add_u8"@.len() != "drop"@.len()); }
            reveal_strlit("add_u8_wrap");
            assert("add_u8_wrap"@ != "drop"@) by { assert("add_u8_wrap"@.len() != "drop"@.len()); }
            reveal_strlit("and");
            assert("and"@ != "drop"@) by { assert("and"@.len() != "drop"@.len()); }
            reveal_strlit("brk");
            assert("brk"@ != "drop"@) by { assert("brk"@.len() != "drop"@.len()); }
            reveal_strlit("copy");
            assert("copy"@ != "drop"@) by { assert("copy"@[0] != "drop"@[0]); }
            reveal_strlit("div_s32");
            assert("div_s32"@ != "drop"@) by { assert("div_s32"@.len() != "drop"@.len()); }
            reveal_strlit("div_u8");
            assert("div_u8"@ != "drop"@) by { assert("div_u8"@.len() != "drop"@.len()); }
        },
        IntrinsicFunction::Eq => {
            reveal_strlit("eq");
            reveal_strlit("add_s8");
            assert("add_s8"@ != "eq"@) by { assert("add_s8"@.len() != "eq"@.len()); }
            reveal_strlit("add_s32");
            assert("add_s32"@ != "eq"@) by { assert("add_s32"@.len() != "eq"@.len()); }
            reveal_strlit("add_u8");
            assert("add_u8"@ != "eq"@) by { assert("add_u8"@.len() != "eq"@.len()); }
            reveal_strlit("add_u8_wrap");
            assert("add_u8_wrap"@ != "eq"@) by { assert("add_u8_wrap"@.len() != "eq"@.len()); }
            reveal_strlit("and");
            assert("and"@ != "eq"@) by { assert("and"@.len() != "eq"@.len()); }
            reveal_strlit("brk");
            assert("brk"@ != "eq"@) by { assert("brk"@.len() != "eq"@.len()); }
            reveal_strlit("copy");
            assert("copy"@ != "eq"@) by { assert("copy"@.len() != "eq"@.len()); }
            reveal_strlit("div_s32");
            assert("div_s32"@ != "eq"@) by { assert("div_s32"@.len() != "eq"@.len()); }
            reveal_strlit("div_u8");
            assert("div_u8"@ != "eq"@) by { assert("div_u8"@.len() != "eq"@.len()); }
            reveal_strlit("drop");
            assert("drop"@ != "eq"@) by { assert("drop"@.len() != "eq"@.len()); }
        },
        IntrinsicFunction::Eval => {
            reveal_strlit("eval");
            reveal_strlit("add_s8");
            assert("add_s8"@ != "eval"@) by { assert("add_s8"@.len() != "eval"@.len()); }
            reveal_strlit("add_s32");
            assert("add_s32"@ != "eval"@) by { assert("add_s32"@.len() != "eval"@.len()); }
            reveal_strlit("add_u8");
            assert("add_u8"@ != "eval"@) by { assert("add_u8"@.len() != "eval"@.len()); }
            reveal_strlit("add_u8_wrap");
            assert("add_u8_wrap"@ != "eval"@) by { assert("add_u8_wrap"@.len() != "eval"@.len()); }
            reveal_strlit("and");
            assert("and"@ != "eval"@) by { assert("and"@.len() != "eval"@.len()); }
            reveal_strlit("brk");
            assert("brk"@ != "eval"@) by { assert("brk"@.len() != "eval"@.len()); }
            reveal_strlit("copy");
            assert("copy"@ != "eval"@) by { assert("copy"@[0] != "eval"@[0]); }
            reveal_strlit("div_s32");
            assert("div_s32"@ != "eval"@) by { assert("div_s32"@.len() != "eval"@.len()); }
            reveal_strlit("div_u8");
            assert("div_u8"@ != "eval"@) by { assert("div_u8"@.len() != "eval"@.len()); }
            reveal_strlit("drop");
            assert("drop"@ != "eval"@) by { assert("drop"@[0] != "eval"@[0]); }
            reveal_strlit("eq");
            assert("eq"@ != "eval"@) by { assert("eq"@.len() != "eval"@.len()); }
        },
        IntrinsicFunction::GreaterS8 => {
            reveal_strlit("greater_s8");
            reveal_strlit("add_s8");
            assert("add_s8"@ != "greater_s8"@) by { assert("add_s8"@.len() != "greater_s8"@.len()); }
            reveal_strlit("add_s32");
            assert("add_s32"@ != "greater_s8"@) by { assert("add_s32"@.len() != "greater_s8"@.len()); }
            reveal_strlit("add_u8");
            assert("add_u8"@ != "greater_s8"@) by { assert("add_u8"@.len() != "greater_s8"@.len()); }
            reveal_strlit("add_u8_wrap");
            assert("add_u8_wrap"@ != "greater_s8"@) by { assert("add_u8_wrap"@.len() != "greater_s8"@.len()); }
            reveal_strlit("and");
            assert("and"@ != "greater_s8"@) by { assert("and"@.len() != "greater_s8"@.len()); }
            reveal_strlit("brk");
            assert("brk"@ != "greater_s8"@) by { assert("brk"@.len() != "greater_s8"@.len()); }
            reveal_strlit("copy");
            assert("copy"@ != "greater_s8"@) by { assert("copy"@.len() != "greater_s8"@.len()); }
            reveal_strlit("div_s32");
            assert("div_s32"@ != "greater_s8"@) by { assert("div_s32"@.len() != "greater_s8"@.len()); }
            reveal_strlit("div_u8");
            assert("div_u8"@ != "greater_s8"@) by { assert("div_u8"@.len() != "greater_s8"@.len()); }
            reveal_strlit("drop");
            assert("drop"@ != "greater_s8"@) by { assert("drop"@.len() != "greater_s8"@.len()); }
            reveal_strlit("eq");
            assert("eq"@ != "greater_s8"@) by { assert("eq"@.len() != "greater_s8"@.len()); }
            reveal_strlit("eval");
            assert("eval"@ != "greater_s8"@) by { assert("eval"@.len() != "greater_s8"@.len()); }
        },
        IntrinsicFunction::GreaterS32 => {
            reveal_strlit("greater_s32");
            reveal_strlit("add_s8");
            assert("add_s8"@ != "greater_s32"@) by { assert("add_s8"@.len() != "greater_s32"@.len()); }
            reveal_strlit("add_s32");
            assert("add_s32"@ != "greater_s32"@) by { assert("add_s32"@.len() != "greater_s32"@.len()); }
            reveal_strlit("add_u8");
            assert("add_u8"@ != "greater_s32"@) by { assert("add_u8"@.len() != "greater_s32"@.len()); }
            reveal_strlit("add_u8_wrap");
            assert("add_u8_wrap"@ != "greater_s32"@) by { assert("add_u8_wrap"@[0] != "greater_s32"@[0]); }
            reveal_strlit("and");
            assert("and"@ != "greater_s32"@) by { assert("and"@.len() != "greater_s32"@.len()); }
            reveal_strlit("brk");
            assert("brk"@ != "greater_s32"@) by { assert("brk"@.len() != "greater_s32"@.len()); }
            reveal_strlit("copy");
            assert("copy"@ != "greater_s32"@) by { assert("copy"@.len() != "greater_s32"@.len()); }
            reveal_strlit("div_s32");
            assert("div_s32"@ != "greater_s32"@) by { assert("div_s32"@.len() != "greater_s32"@.len()); }
            reveal_strlit("div_u8");
            assert("div_u8"@ != "greater_s32"@) by { assert("div_u8"@.len() != "greater_s32"@.len()); }
            reveal_strlit("drop");
            assert("drop"@ != "greater_s32"@) by { assert("drop"@.len() != "greater_s32"@.len()); }
            reveal_strlit("eq");
            assert("eq"@ != "greater_s32"@) by { assert("eq"@.len() != "greater_s32"@.len()); }
            reveal_strlit("eval");
            assert("eval"@ != "greater_s32"@) by { assert("eval"@.len() != "greater_s32"@.len()); }
            reveal_strlit("greater_s8");
            assert("greater_s8"@ != "greater_s32"@) by { assert("greater_s8"@.len() != "greater_s32"@.len()); }
        },
        IntrinsicFunction::GreaterU8 => {
            reveal_strlit("greater_u8");
            reveal_strlit("add_s8");
            assert("add_s8"@ != "greater_u8"@) by { assert("add_s8"@.len() != "greater_u8"@.len()); }
            reveal_strlit("add_s32");
            assert("add_s32"@ != "greater_u8"@) by { assert("add_s32"@.len() != "greater_u8"@.len()); }
            reveal_strlit("add_u8");
            assert("add_u8"@ != "greater_u8"@) by { assert("add_u8"@.len() != "greater_u8"@.len()); }
            reveal_strlit("add_u8_wrap");
            assert("add_u8_wrap"@ != "greater_u8"@) by { assert("add_u8_wrap"@.len() != "greater_u8"@.len()); }
            reveal_strlit("and");
            assert("and"@ != "greater_u8"@) by { assert("and"@.len() != "greater_u8"@.len()); }
            reveal_strlit("brk");
            assert("brk"@ != "greater_u8"@) by { assert("brk"@.len() != "greater_u8"@.len()); }
            reveal_strlit("copy");
            assert("copy"@ != "greater_u8"@) by { assert("copy"@.len() != "greater_u8"@.len()); }
            reveal_strlit("div_s32");
            assert("div_s32"@ != "greater_u8"@) by { assert("div_s32"@.len() != "greater_u8"@.len()); }
            reveal_strlit("div_u8");
            assert("div_u8"@ != "greater_u8"@) by { assert("div_u8"@.len() != "greater_u8"@.len()); }
            reveal_strlit("drop");
            assert("drop"@ != "greater_u8"@) by { assert("drop"@.len() != "greater_u8"@.len()); }
            reveal_strlit("eq");
            assert("eq"@ != "greater_u8"@) by { assert("eq"@.len() != "greater_u8"@.len()); }
            reveal_strlit("eval");
            assert("eval"@ != "greater_u8"@) by { assert("eval"@.len() != "greater_u8"@.len()); }
            reveal_strlit("greater_s8");
            assert("greater_s8"@ != "greater_u8"@) by { assert("greater_s8"@[8] != "greater_u8"@[8]); }
            reveal_strlit("greater_s32");
            assert("greater_s32"@ != "greater_u8"@) by { assert("greater_s32"@.len() != "greater_u8"@.len()); }
        },
        IntrinsicFunction::MulS32 => {
            reveal_strlit("mul_s32");
            reveal_strlit("add_s8");
            assert("add_s8"@ != "mul_s32"@) by { assert("add_s8"@.len() != "mul_s32"@.len()); }
            reveal_strlit("add_s32");
            assert("add_s32"@ != "mul_s32"@) by { assert("add_s32"@[0] != "mul_s32"@[0]); }
            reveal_strlit("add_u8");
            assert("add_u8"@ != "mul_s32"@) by { assert("add_u8"@.len() != "mul_s32"@.len()); }
            reveal_strlit("add_u8_wrap");
            assert("add_u8_wrap"@ != "mul_s32"@) by { assert("add_u8_wrap"@.len() != "mul_s32"@.len()); }
            reveal_strlit("and");
            assert("and"@ != "mul_s32"@) by { assert("and"@.len() != "mul_s32"@.len()); }
            reveal_strlit("brk");
            assert("brk"@ != "mul_s32"@) by { assert("brk"@.len() != "mul_s32"@.len()); }
            reveal_strlit("copy");
            assert("copy"@ != "mul_s32"@) by { assert("copy"@.len() != "mul_s32"@.len()); }
            reveal_strlit("div_s32");
            assert("div_s32"@ != "mul_s32"@) by { assert("div_s32"@[0] != "mul_s32"@[0]); }
            reveal_strlit("div_u8");
            assert("div_u8"@ != "mul_s32"@) by { assert("div_u8"@.len() != "mul_s32"@.len()); }
            reveal_strlit("drop");
            assert("drop"@ != "mul_s32"@) by { assert("drop"@.len() != "mul_s32"@.len()); }
            reveal_strlit("eq");
            assert("eq"@ != "mul_s32"@) by { assert("eq"@.len() != "mul_s32"@.len()); }
            reveal_strlit("eval");
            assert("eval"@ != "mul_s32"@) by { assert("eval"@.len() != "mul_s32"@.len()); }
            reveal_strlit("greater_s8");
            assert("greater_s8"@ != "mul_s32"@) by { assert("greater_s8"@.len() != "mul_s32"@.len()); }
            reveal_strlit("greater_s32");
            assert("greater_s32"@ != "mul_s32"@) by { assert("greater_s32"@.len() != "mul_s32"@.len()); }
            reveal_strlit("greater_u8");
            assert("greater_u8"@ != "mul_s32"@) by { assert("greater_u8"@.len() != "mul_s32"@.len()); }
        },
        IntrinsicFunction::MulU8Wrap => {
            reveal_strlit("mul_u8_wrap");
            reveal_strlit("add_s8");
            assert("add_s8"@ != "mul_u8_wrap"@) by { assert("add_s8"@.len() != "mul_u8_wrap"@.len()); }
            reveal_strlit("add_s32");
            assert("add_s32"@ != "mul_u8_wrap"@) by { assert("add_s32"@.len() != "mul_u8_wrap"@.len()); }
            reveal_strlit("add_u8");
            assert("add_u8"@ != "mul_u8_wrap"@) by { assert("add_u8"@.len() != "mul_u8_wrap"@.len()); }
            reveal_strlit("add_u8_wrap");
            assert("add_u8_wrap"@ != "mul_u8_wrap"@) by { assert("add_u8_wrap"@[0] != "mul_u8_wrap"@[0]); }
            reveal_strlit("and");
            assert("and"@ != "mul_u8_wrap"@) by { assert("and"@.len() != "mul_u8_wrap"@.len()); }
            reveal_strlit("brk");
            assert("brk"@ != "mul_u8_wrap"@) by { assert("brk"@.len() != "mul_u8_wrap"@.len()); }
            reveal_strlit("copy");
            assert("copy"@ != "mul_u8_wrap"@) by { assert("copy"@.len() != "mul_u8_wrap"@.len()); }
            reveal_strlit("div_s32");
            assert("div_s32"@ != "mul_u8_wrap"@) by { assert("div_s32"@.len() != "mul_u8_wrap"@.len()); }
            reveal_strlit("div_u8");
            assert("div_u8"@ != "mul_u8_wrap"@) by { assert("div_u8"@.len() != "mul_u8_wrap"@.len()); }
            reveal_strlit("drop");
            assert("drop"@ != "mul_u8_wrap"@) by { assert("drop"@.len() != "mul_u8_wrap"@.len()); }
            reveal_strlit("eq");
            assert("eq"@ != "mul_u8_wrap"@) by { assert("eq"@.len() != "mul_u8_wrap"@.len()); }
            reveal_strlit("eval");
            assert("eval"@ != "mul_u8_wrap"@) by { assert("eval"@.len() != "mul_u8_wrap"@.len()); }
            reveal_strlit("greater_s8");
            assert("greater_s8"@ != "mul_u8_wrap"@) by { assert("greater_s8"@.len() != "mul_u8_wrap"@.len()); }
            reveal_strlit("greater_s32");
            assert("greater_s32"@ != "mul_u8_wrap"@) by { assert("greater_s32"@[0] != "mul_u8_wrap"@[0]); }
            reveal_strlit("greater_u8");
            assert("greater_u8"@ != "mul_u8_wrap"@) by { assert("greater_u8"@.len() != "mul_u8_wrap"@.len()); }
            reveal_strlit("mul_s32");
            assert("mul_s32"@ != "mul_u8_wrap"@) by { assert("mul_s32"@.len() != "mul_u8_wrap"@.len()); }
        },
        IntrinsicFunction::NegS32 => {
            reveal_strlit("neg_s32");
            reveal_strlit("add_s8");
            assert("add_s8"@ != "neg_s32"@) by { assert("add_s8"@.len() != "neg_s32"@.len()); }
            reveal_strlit("add_s32");
            assert("add_s32"@ != "neg_s32"@) by { assert("add_s32"@[0] != "neg_s32"@[0]); }
            reveal_strlit("add_u8");
            assert("add_u8"@ != "neg_s32"@) by { assert("add_u8"@.len() != "neg_s32"@.len()); }
            reveal_strlit("add_u8_wrap");
            assert("add_u8_wrap"@ != "neg_s32"@) by { assert("add_u8_wrap"@.len() != "neg_s32"@.len()); }
            reveal_strlit("and");
            assert("and"@ != "neg_s32"@) by { assert("and"@.len() != "neg_s32"@.len()); }
            reveal_strlit("brk");
            assert("brk"@ != "neg_s32"@) by { assert("brk"@.len() != "neg_s32"@.len()); }
            reveal_strlit("copy");
            assert("copy"@ != "neg_s32"@) by { assert("copy"@.len() != "neg_s32"@.len()); }
            reveal_strlit("div_s32");
            assert("div_s32"@ != "neg_s32"@) by { assert("div_s32"@[0] != "neg_s32"@[0]); }
            reveal_strlit("div_u8");
            assert("div_u8"@ != "neg_s32"@) by { assert("div_u8"@.len() != "neg_s32"@.len()); }
            reveal_strlit("drop");
            assert("drop"@ != "neg_s32"@) by { assert("drop"@.len() != "neg_s32"@.len()); }
            reveal_strlit("eq");
            assert("eq"@ != "neg_s32"@) by { assert("eq"@.len() != "neg_s32"@.len()); }
            reveal_strlit("eval");
            assert("eval"@ != "neg_s32"@) by { assert("eval"@.len() != "neg_s32"@.len()); }
            reveal_strlit("greater_s8");
            assert("greater_s8"@ != "neg_s32"@) by { assert("greater_s8"@.len() != "neg_s32"@.len()); }
            reveal_strlit("greater_s32");
            assert("greater_s32"@ != "neg_s32"@) by { assert("greater_s32"@.len() != "neg_s32"@.len()); }
            reveal_strlit("greater_u8");
            assert("greater_u8"@ != "neg_s32"@) by { assert("greater_u8"@.len() != "neg_s32"@.len()); }
            reveal_strlit("mul_s32");
            assert("mul_s32"@ != "neg_s32"@) by { assert("mul_s32"@[0] != "neg_s32"@[0]); }
            reveal_strlit("mul_u8_wrap");
            assert("mul_u8_wrap"@ != "neg_s32"@) by { assert("mul_u8_wrap"@.len() != "neg_s32"@.len()); }
        },
        IntrinsicFunction::Nop => {
            reveal_strlit("nop");
            reveal_strlit("add_s8");
            assert("add_s8"@ != "nop"@) by { assert("add_s8"@.len() != "nop"@.len()); }
            reveal_strlit("add_s32");
            assert("add_s32"@ != "nop"@) by { assert("add_s32"@.len() != "nop"@.len()); }
            reveal_strlit("add_u8");
            assert("add_u8"@ != "nop"@) by { assert("add_u8"@.len() != "nop"@.len()); }
            reveal_strlit("add_u8_wrap");
            assert("add_u8_wrap"@ != "nop"@) by { assert("add_u8_wrap"@.len() != "nop"@.len()); }
            reveal_strlit("and");
            assert("and"@ != "nop"@) by { assert("and"@[0] != "nop"@[0]); }
            reveal_strlit("brk");
            assert("brk"@ != "nop"@) by { assert("brk"@[0] != "nop"@[0]); }
            reveal_strlit("copy");
            assert("copy"@ != "nop"@) by { assert("copy"@.len() != "nop"@.len()); }
            reveal_strlit("div_s32");
            assert("div_s32"@ != "nop"@) by { assert("div_s32"@.len() != "nop"@.len()); }
            reveal_strlit("div_u8");
            assert("div_u8"@ != "nop"@) by { assert("div_u8"@.len() != "nop"@.len()); }
            reveal_strlit("drop");
            assert("drop"@ != "nop"@) by { assert("drop"@.len() != "nop"@.len()); }
            reveal_strlit("eq");
            assert("eq"@ != "nop"@) by { assert("eq"@.len() != "nop"@.len()); }
            reveal_strlit("eval");
            assert("eval"@ != "nop"@) by { assert("eval"@.len() != "nop"@.len()); }
            reveal_strlit("greater_s8");
            assert("greater_s8"@ != "nop"@) by { assert("greater_s8"@.len() != "nop"@.len()); }
            reveal_strlit("greater_s32");
            assert("greater_s32"@ != "nop"@) by { assert("greater_s32"@.len() != "nop"@.len()); }
            reveal_strlit("greater_u8");
            assert("greater_u8"@ != "nop"@) by { assert("greater_u8"@.len() != "nop"@.len()); }
            reveal_strlit("mul_s32");
            assert("mul_s32"@ != "nop"@) by { assert("mul_s32"@.len() != "nop"@.len()); }
            reveal_strlit("mul_u8_wrap");
            assert("mul_u8_wrap"@ != "nop"@) by { assert("mul_u8_wrap"@.len() != "nop"@.len()); }
            reveal_strlit("neg_s32");
            assert("neg_s32"@ != "nop"@) by { assert("neg_s32"@.len() != "nop"@.len()); }
        },
        IntrinsicFunction::Not => {
            reveal_strlit("not");
            reveal_strlit("add_s8");
            assert("add_s8"@ != "not"@) by { assert("add_s8"@.len() != "not"@.len()); }
            reveal_strlit("add_s32");
            assert("add_s32"@ != "not"@) by { assert("add_s32"@.len() != "not"@.len()); }
            reveal_strlit("add_u8");
            assert("add_u8"@ != "not"@) by { assert("add_u8"@.len() != "not"@.len()); }
            reveal_strlit("add_u8_wrap");
            assert("add_u8_wrap"@ != "not"@) by { assert("add_u8_wrap"@.len() != "not"@.len()); }
            reveal_strlit("and");
            assert("and"@ != "not"@) by { assert("and"@[0] != "not"@[0]); }
            reveal_strlit("brk");
            assert("brk"@ != "not"@) by { assert("brk"@[0] != "not"@[0]); }
            reveal_strlit("copy");
            assert("copy"@ != "not"@) by { assert("copy"@.len() != "not"@.len()); }
            reveal_strlit("div_s32");
            assert("div_s32"@ != "not"@) by { assert("div_s32"@.len() != "not"@.len()); }
            reveal_strlit("div_u8");
            assert("div_u8"@ != "not"@) by { assert("div_u8"@.len() != "not"@.len()); }
            reveal_strlit("drop");
            assert("drop"@ != "not"@) by { assert("drop"@.len() != "not"@.len()); }
            reveal_strlit("eq");
            assert("eq"@ != "not"@) by { assert("eq"@.len() != "not"@.len()); }
            reveal_strlit("eval");
            assert("eval"@ != "not"@) by { assert("eval"@.len() != "not"@.len()); }
            reveal_strlit("greater_s8");
            assert("greater_s8"@ != "not"@) by { assert("greater_s8"@.len() != "not"@.len()); }
            reveal_strlit("greater_s32");
            assert("greater_s32"@ != "not"@) by { assert("greater_s32"@.len() != "not"@.len()); }
            reveal_strlit("greater_u8");
            assert("greater_u8"@ != "not"@) by { assert("greater_u8"@.len() != "not"@.len()); }
            reveal_strlit("mul_s32");
            assert("mul_s32"@ != "not"@) by { assert("mul_s32"@.len() != "not"@.len()); }
            reveal_strlit("mul_u8_wrap");
            assert("mul_u8_wrap"@ != "not"@) by { assert("mul_u8_wrap"@.len() != "not"@.len()); }
            reveal_strlit("neg_s32");
            assert("neg_s32"@ != "not"@) by { assert("neg_s32"@.len() != "not"@.len()); }
            reveal_strlit("nop");
            assert("nop"@ != "not"@) by { assert("nop"@[2] != "not"@[2]); }
        },
        IntrinsicFunction::RemainderS32 => {
            reveal_strlit("remainder_s32");
            reveal_strlit("add_s8");
            assert("add_s8"@ != "remainder_s32"@) by { assert("add_s8"@.len() != "remainder_s32"@.len()); }
            reveal_strlit("add_s32");
            assert("add_s32"@ != "remainder_s32"@) by { assert("add_s32"@.len() != "remainder_s32"@.len()); }
            reveal_strlit("add_u8");
            assert("add_u8"@ != "remainder_s32"@) by { assert("add_u8"@.len() != "remainder_s32"@.len()); }
            reveal_strlit("add_u8_wrap");
            assert("add_u8_wrap"@ != "remainder_s32"@) by { assert("add_u8_wrap"@.len() != "remainder_s32"@.len()); }
            reveal_strlit("and");
            assert("and"@ != "remainder_s32"@) by { assert("and"@.len() != "remainder_s32"@.len()); }
            reveal_strlit("brk");
            assert("brk"@ != "remainder_s32"@) by { assert("brk"@.len() != "remainder_s32"@.len()); }
            reveal_strlit("copy");
            assert("copy"@ != "remainder_s32"@) by { assert("copy"@.len() != "remainder_s32"@.len()); }
            reveal_strlit("div_s32");
            assert("div_s32"@ != "remainder_s32"@) by { assert("div_s32"@.len() != "remainder_s32"@.len()); }
            reveal_strlit("div_u8");
            assert("div_u8"@ != "remainder_s32"@) by { assert("div_u8"@.len() != "remainder_s32"@.len()); }
            reveal_strlit("drop");
            assert("drop"@ != "remainder_s32"@) by { assert("drop"@.len() != "remainder_s32"@.len()); }
            reveal_strlit("eq");
            assert("eq"@ != "remainder_s32"@) by { assert("eq"@.len() != "remainder_s32"@.len()); }
            reveal_strlit("eval");
            assert("eval"@ != "remainder_s32"@) by { assert("eval"@.len() != "remainder_s32"@.len()); }
            reveal_strlit("greater_s8");
            assert("greater_s8"@ != "remainder_s32"@) by { assert("greater_s8"@.len() != "remainder_s32"@.len()); }
            reveal_strlit("greater_s32");
            assert("greater_s32"@ != "remainder_s32"@) by { assert("greater_s32"@.len() != "remainder_s32"@.len()); }
            reveal_strlit("greater_u8");
            assert("greater_u8"@ != "remainder_s32"@) by { assert("greater_u8"@.len() != "remainder_s32"@.len()); }
            reveal_strlit("mul_s32");
            assert("mul_s32"@ != "remainder_s32"@) by { assert("mul_s32"@.len() != "remainder_s32"@.len()); }
            reveal_strlit("mul_u8_wrap");
            assert("mul_u8_wrap"@ != "remainder_s32"@) by { assert("mul_u8_wrap"@.len() != "remainder_s32"@.len()); }
            reveal_strlit("neg_s32");
            assert("neg_s32"@ != "remainder_s32"@) by { assert("neg_s32"@.len() != "remainder_s32"@.len()); }
            reveal_strlit("nop");
            assert("nop"@ != "remainder_s32"@) by { assert("nop"@.len() != "remainder_s32"@.len()); }
            reveal_strlit("not");
            assert("not"@ != "remainder_s32"@) by { assert("not"@.len() != "remainder_s32"@.len()); }
        },
        IntrinsicFunction::S32ToS8 => {
            reveal_strlit("s32_to_s8");
            reveal_strlit("add_s8");
            assert("add_s8"@ != "s32_to_s8"@) by { assert("add_s8"@.len() != "s32_to_s8"@.len()); }
            reveal_strlit("add_s32");
            assert("add_s32"@ != "s32_to_s8"@) by { assert("add_s32"@.len() != "s32_to_s8"@.len()); }
            reveal_strlit("add_u8");
            assert("add_u8"@ != "s32_to_s8"@) by { assert("add_u8"@.len() != "s32_to_s8"@.len()); }
            reveal_strlit("add_u8_wrap");
            assert("add_u8_wrap"@ != "s32_to_s8"@) by { assert("add_u8_wrap"@.len() != "s32_to_s8"@.len()); }
            reveal_strlit("and");
            assert("and"@ != "s32_to_s8"@) by { assert("and"@.len() != "s32_to_s8"@.len()); }
            reveal_strlit("brk");
            assert("brk"@ != "s32_to_s8"@) by { assert("brk"@.len() != "s32_to_s8"@.len()); }
            reveal_strlit("copy");
            assert("copy"@ != "s32_to_s8"@) by { assert("copy"@.len() != "s32_to_s8"@.len()); }
            reveal_strlit("div_s32");
            assert("div_s32"@ != "s32_to_s8"@) by { assert("div_s32"@.len() != "s32_to_s8"@.len()); }
            reveal_strlit("div_u8");
            assert("div_u8"@ != "s32_to_s8"@) by { assert("div_u8"@.len() != "s32_to_s8"@.len()); }
            reveal_strlit("drop");
            assert("drop"@ != "s32_to_s8"@) by { assert("drop"@.len() != "s32_to_s8"@.len()); }
            reveal_strlit("eq");
            assert("eq"@ != "s32_to_s8"@) by { assert("eq"@.len() != "s32_to_s8"@.len()); }
            reveal_strlit("eval");
            assert("eval"@ != "s32_to_s8"@) by { assert("eval"@.len() != "s32_to_s8"@.len()); }
            reveal_strlit("greater_s8");
            assert("greater_s8"@ != "s32_to_s8"@) by { assert("greater_s8"@.len() != "s32_to_s8"@.len()); }
            reveal_strlit("greater_s32");
            assert("greater_s32"@ != "s32_to_s8"@) by { assert("greater_s32"@.len() != "s32_to_s8"@.len()); }
            reveal_strlit("greater_u8");
            assert("greater_u8"@ != "s32_to_s8"@) by { assert("greater_u8"@.len() != "s32_to_s8"@.len()); }
            reveal_strlit("mul_s32");
            assert("mul_s32"@ != "s32_to_s8"@) by { assert("mul_s32"@.len() != "s32_to_s8"@.len()); }
            reveal_strlit("mul_u8_wrap");
            assert("mul_u8_wrap"@ != "s32_to_s8"@) by { assert("mul_u8_wrap"@.len() != "s32_to_s8"@.len()); }
            reveal_strlit("neg_s32");
            assert("neg_s32"@ != "s32_to_s8"@) by { assert("neg_s32"@.len() != "s32_to_s8"@.len()); }
            reveal_strlit("nop");
            assert("nop"@ != "s32_to_s8"@) by { assert("nop"@.len() != "s32_to_s8"@.len()); }
            reveal_strlit("not");
            assert("not"@ != "s32_to_s8"@) by { assert("not"@.len() != "s32_to_s8"@.len()); }
            reveal_strlit("remainder_s32");
            assert("remainder_s32"@ != "s32_to_s8"@) by { assert("remainder_s32"@.len() != "s32_to_s8"@.len()); }
        },
        IntrinsicFunction::SubS32 => {
            reveal_strlit("sub_s32");
            reveal_strlit("add_s8");
            assert("add_s8"@ != "sub_s32"@) by { assert("add_s8"@.len() != "sub_s32"@.len()); }
            reveal_strlit("add_s32");
            assert("add_s32"@ != "sub_s32"@) by { assert("add_s32"@[0] != "sub_s32"@[0]); }
            reveal_strlit("add_u8");
            assert("add_u8"@ != "sub_s32"@) by { assert("add_u8"@.len() != "sub_s32"@.len()); }
            reveal_strlit("add_u8_wrap");
            assert("add_u8_wrap"@ != "sub_s32"@) by { assert("add_u8_wrap"@.len() != "sub_s32"@.len()); }
            reveal_strlit("and");
            assert("and"@ != "sub_s32"@) by { assert("and"@.len() != "sub_s32"@.len()); }
            reveal_strlit("brk");
            assert("brk"@ != "sub_s32"@) by { assert("brk"@.len() != "sub_s32"@.len()); }
            reveal_strlit("copy");
            assert("copy"@ != "sub_s32"@) by { assert("copy"@.len() != "sub_s32"@.len()); }
            reveal_strlit("div_s32");
            assert("div_s32"@ != "sub_s32"@) by { assert("div_s32"@[0] != "sub_s32"@[0]); }
            reveal_strlit("div_u8");
            assert("div_u8"@ != "sub_s32"@) by { assert("div_u8"@.len() != "sub_s32"@.len()); }
            reveal_strlit("drop");
            assert("drop"@ != "sub_s32"@) by { assert("drop"@.len() != "sub_s32"@.len()); }
            reveal_strlit("eq");
            assert("eq"@ != "sub_s32"@) by { assert("eq"@.len() != "sub_s32"@.len()); }
            reveal_strlit("eval");
            assert("eval"@ != "sub_s32"@) by { assert("eval"@.len() != "sub_s32"@.len()); }
            reveal_strlit("greater_s8");
            assert("greater_s8"@ != "sub_s32"@) by { assert("greater_s8"@.len() != "sub_s32"@.len()); }
            reveal_strlit("greater_s32");
            assert("greater_s32"@ != "sub_s32"@) by { assert("greater_s32"@.len() != "sub_s32"@.len()); }
            reveal_strlit("greater_u8");
            assert("greater_u8"@ != "sub_s32"@) by { assert("greater_u8"@.len() != "sub_s32"@.len()); }
            reveal_strlit("mul_s32");
            assert("mul_s32"@ != "sub_s32"@) by { assert("mul_s32"@[0] != "sub_s32"@[0]); }
            reveal_strlit("mul_u8_wrap");
            assert("mul_u8_wrap"@ != "sub_s32"@) by { assert("mul_u8_wrap"@.len() != "sub_s32"@.len()); }
            reveal_strlit("neg_s32");
            assert("neg_s32"@ != "sub_s32"@) by { assert("neg_s32"@[0] != "sub_s32"@[0]); }
            reveal_strlit("nop");
            assert("nop"@ != "sub_s32"@) by { assert("nop"@.len() != "sub_s32"@.len()); }
            reveal_strlit("not");
            assert("not"@ != "sub_s32"@) by { assert("not"@.len() != "sub_s32"@.len()); }
            reveal_strlit("remainder_s32");
            assert("remainder_s32"@ != "sub_s32"@) by { assert("remainder_s32"@.len() != "sub_s32"@.len()); }
            reveal_strlit("s32_to_s8");
            assert("s32_to_s8"@ != "sub_s32"@) by { assert("s32_to_s8"@.len() != "sub_s32"@.len()); }
        },
        IntrinsicFunction::SubU8 => {
            reveal_strlit("sub_u8");
            reveal_strlit("add_s8");
            assert("add_s8"@ != "sub_u8"@) by { assert("add_s8"@[0] != "sub_u8"@[0]); }
            reveal_strlit("add_s32");
            assert("add_s32"@ != "sub_u8"@) by { assert("add_s32"@.len() != "sub_u8"@.len()); }
            reveal_strlit("add_u8");
            assert("add_u8"@ != "sub_u8"@) by { assert("add_u8"@[0] != "sub_u8"@[0]); }
            reveal_strlit("add_u8_wrap");
            assert("add_u8_wrap"@ != "sub_u8"@) by { assert("add_u8_wrap"@.len() != "sub_u8"@.len()); }
            reveal_strlit("and");
            assert("and"@ != "sub_u8"@) by { assert("and"@.len() != "sub_u8"@.len()); }
            reveal_strlit("brk");
            assert("brk"@ != "sub_u8"@) by { assert("brk"@.len() != "sub_u8"@.len()); }
            reveal_strlit("copy");
            assert("copy"@ != "sub_u8"@) by { assert("copy"@.len() != "sub_u8"@.len()); }
            reveal_strlit("div_s32");
            assert("div_s32"@ != "sub_u8"@) by { assert("div_s32"@.len() != "sub_u8"@.len()); }
            reveal_strlit("div_u8");
            assert("div_u8"@ != "sub_u8"@) by { assert("div_u8"@[0] != "sub_u8"@[0]); }
            reveal_strlit("drop");
            assert("drop"@ != "sub_u8"@) by { assert("drop"@.len() != "sub_u8"@.len()); }
            reveal_strlit("eq");
            assert("eq"@ != "sub_u8"@) by { assert("eq"@.len() != "sub_u8"@.len()); }
            reveal_strlit("eval");
            assert("eval"@ != "sub_u8"@) by { assert("eval"@.len() != "sub_u8"@.len()); }
            reveal_strlit("greater_s8");
            assert("greater_s8"@ != "sub_u8"@) by { assert("greater_s8"@.len() != "sub_u8"@.len()); }
            reveal_strlit("greater_s32");
            assert("greater_s32"@ != "sub_u8"@) by { assert("greater_s32"@.len() != "sub_u8"@.len()); }
            reveal_strlit("greater_u8");
            assert("greater_u8"@ != "sub_u8"@) by { assert("greater_u8"@.len() != "sub_u8"@.len()); }
            reveal_strlit("mul_s32");
            assert("mul_s32"@ != "sub_u8"@) by { assert("mul_s32"@.len() != "sub_u8"@.len()); }
            reveal_strlit("mul_u8_wrap");
            assert("mul_u8_wrap"@ != "sub_u8"@) by { assert("mul_u8_wrap"@.len() != "sub_u8"@.len()); }
            reveal_strlit("neg_s32");
            assert("neg_s32"@ != "sub_u8"@) by { assert("neg_s32"@.len() != "sub_u8"@.len()); }
            reveal_strlit("nop");
            assert("nop"@ != "sub_u8"@) by { assert("nop"@.len() != "sub_u8"@.len()); }
            reveal_strlit("not");
            assert("not"@ != "sub_u8"@) by { assert("not"@.len() != "sub_u8"@.len()); }
            reveal_strlit("remainder_s32");
            assert("remainder_s32"@ != "sub_u8"@) by { assert("remainder_s32"@.len() != "sub_u8"@.len()); }
            reveal_strlit("s32_to_s8");
            assert("s32_to_s8"@ != "sub_u8"@) by { assert("s32_to_s8"@.len() != "sub_u8"@.len()); }
            reveal_strlit("sub_s32");
            assert("sub_s32"@ != "sub_u8"@) by { assert("sub_s32"@.len() != "sub_u8"@.len()); }
        },
        IntrinsicFunction::SubU8Wrap => {
            reveal_strlit("sub_u8_wrap");
            reveal_strlit("add_s8");
            assert("add_s8"@ != "sub_u8_wrap"@) by { assert("add_s8"@.len() != "sub_u8_wrap"@.len()); }
            reveal_strlit("add_s32");
            assert("add_s32"@ != "sub_u8_wrap"@) by { assert("add_s32"@.len() != "sub_u8_wrap"@.len()); }
            reveal_strlit("add_u8");
            assert("add_u8"@ != "sub_u8_wrap"@) by { assert("add_u8"@.len() != "sub_u8_wrap"@.len()); }
            reveal_strlit("add_u8_wrap");
            assert("add_u8_wrap"@ != "sub_u8_wrap"@) by { assert("add_u8_wrap"@[0] != "sub_u8_wrap"@[0]); }
            reveal_strlit("and");
            assert("and"@ != "sub_u8_wrap"@) by { assert("and"@.len() != "sub_u8_wrap"@.len()); }
            reveal_strlit("brk");
            assert("brk"@ != "sub_u8_wrap"@) by { assert("brk"@.len() != "sub_u8_wrap"@.len()); }
            reveal_strlit("copy");
            assert("copy"@ != "sub_u8_wrap"@) by { assert("copy"@.len() != "sub_u8_wrap"@.len()); }
            reveal_strlit("div_s32");
            assert("div_s32"@ != "sub_u8_wrap"@) by { assert("div_s32"@.len() != "sub_u8_wrap"@.len()); }
            reveal_strlit("div_u8");
            assert("div_u8"@ != "sub_u8_wrap"@) by { assert("div_u8"@.len() != "sub_u8_wrap"@.len()); }
            reveal_strlit("drop");
            assert("drop"@ != "sub_u8_wrap"@) by { assert("drop"@.len() != "sub_u8_wrap"@.len()); }
            reveal_strlit("eq");
            assert("eq"@ != "sub_u8_wrap"@) by { assert("eq"@.len() != "sub_u8_wrap"@.len()); }
            reveal_strlit("eval");
            assert("eval"@ != "sub_u8_wrap"@) by { assert("eval"@.len() != "sub_u8_wrap"@.len()); }
            reveal_strlit("greater_s8");
            assert("greater_s8"@ != "sub_u8_wrap"@) by { assert("greater_s8"@.len() != "sub_u8_wrap"@.len()); }
            reveal_strlit("greater_s32");
            assert("greater_s32"@ != "sub_u8_wrap"@) by { assert("greater_s32"@[0] != "sub_u8_wrap"@[0]); }
            reveal_strlit("greater_u8");
            assert("greater_u8"@ != "sub_u8_wrap"@) by { assert("greater_u8"@.len() != "sub_u8_wrap"@.len()); }
            reveal_strlit("mul_s32");
            assert("mul_s32"@ != "sub_u8_wrap"@) by { assert("mul_s32"@.len() != "sub_u8_wrap"@.len()); }
            reveal_strlit("mul_u8_wrap");
            assert("mul_u8_wrap"@ != "sub_u8_wrap"@) by { assert("mul_u8_wrap"@[0] != "sub_u8_wrap"@[0]); }
            reveal_strlit("neg_s32");
            assert("neg_s32"@ != "sub_u8_wrap"@) by { assert("neg_s32"@.len() != "sub_u8_wrap"@.len()); }
            reveal_strlit("nop");
            assert("nop"@ != "sub_u8_wrap"@) by { assert("nop"@.len() != "sub_u8_wrap"@.len()); }
            reveal_strlit("not");
            assert("not"@ != "sub_u8_wrap"@) by { assert("not"@.len() != "sub_u8_wrap"@.len()); }
            reveal_strlit("remainder_s32");
            assert("remainder_s32"@ != "sub_u8_wrap"@) by { assert("remainder_s32"@.len() != "sub_u8_wrap"@.len()); }
            reveal_strlit("s32_to_s8");
            assert("s32_to_s8"@ != "sub_u8_wrap"@) by { assert("s32_to_s8"@.len() != "sub_u8_wrap"@.len()); }
            reveal_strlit("sub_s32");
            assert("sub_s32"@ != "sub_u8_wrap"@) by { assert("sub_s32"@.len() != "sub_u8_wrap"@.len()); }
            reveal_strlit("sub_u8");
            assert("sub_u8"@ != "sub_u8_wrap"@) by { assert("sub_u8"@.len() != "sub_u8_wrap"@.len()); }
        },
    }
}

/// A name that finds an intrinsic is that intrinsic's name.
pub proof fn intrinsic_name_of_found(name: Seq<char>)
    ensures
        intrinsic_by_name(name) matches Some(intrinsic) ==> intrinsic_name(intrinsic) == name,
{
}

} // verus!
