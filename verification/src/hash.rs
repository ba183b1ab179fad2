//! # Content-addressed identities of functions

use vstd::prelude::*;

use crate::code::{
    Branch, BranchView, Expression, ExpressionView, Function, FunctionView, Pattern, PatternView,
};
use crate::intrinsics::IntrinsicFunction;

verus! {

/// The BLAKE3 digest of `bytes`
pub uninterp spec fn blake3_digest(bytes: Seq<u8>) -> [u8; 32];

/// `blake3::hash`: the 32-byte BLAKE3 digest of `bytes`, taken to be
/// [`blake3_digest`] of them. It depends on the bytes alone.
#[verifier::external_body]
fn blake3_hash(bytes: &Vec<u8>) -> (r: [u8; 32])
    ensures
        r == blake3_digest(bytes@),
{
    *blake3::hash(bytes.as_slice()).as_bytes()
}

/// The four bytes of `x`, least significant first
pub open spec fn u32_bytes(x: u32) -> Seq<u8> {
    seq![
        (x % 256) as u8,
        ((x / 256) % 256) as u8,
        ((x / 65536) % 256) as u8,
        (x / 16777216) as u8,
    ]
}

/// The bytes that encode a length
pub open spec fn length_bytes(n: nat) -> Seq<u8> {
    u32_bytes(n as u32)
}

/// The number that stands for `intrinsic` in the encoding
pub open spec fn intrinsic_code(intrinsic: IntrinsicFunction) -> u8 {
    match intrinsic {
        IntrinsicFunction::AddS8 => 0u8,
        IntrinsicFunction::AddS32 => 1u8,
        IntrinsicFunction::AddU8 => 2u8,
        IntrinsicFunction::AddU8Wrap => 3u8,
        IntrinsicFunction::And => 4u8,
        IntrinsicFunction::Brk => 5u8,
        IntrinsicFunction::Copy => 6u8,
        IntrinsicFunction::DivS32 => 7u8,
        IntrinsicFunction::DivU8 => 8u8,
        IntrinsicFunction::Drop => 9u8,
        IntrinsicFunction::Eq => 10u8,
        IntrinsicFunction::Eval => 11u8,
        IntrinsicFunction::GreaterS8 => 12u8,
        IntrinsicFunction::GreaterS32 => 13u8,
        IntrinsicFunction::GreaterU8 => 14u8,
        IntrinsicFunction::MulS32 => 15u8,
        IntrinsicFunction::MulU8Wrap => 16u8,
        IntrinsicFunction::NegS32 => 17u8,
        IntrinsicFunction::Nop => 18u8,
        IntrinsicFunction::Not => 19u8,
        IntrinsicFunction::RemainderS32 => 20u8,
        IntrinsicFunction::S32ToS8 => 21u8,
        IntrinsicFunction::SubS32 => 22u8,
        IntrinsicFunction::SubU8 => 23u8,
        IntrinsicFunction::SubU8Wrap => 24u8,
    }
}

/// The bytes that encode the characters of `s`, without their number
pub open spec fn chars_bytes(s: Seq<char>) -> Seq<u8>
    decreases s.len(),
{
    if s.len() == 0 {
        seq![]
    } else {
        chars_bytes(s.drop_last()) + u32_bytes(s.last() as u32)
    }
}

/// The bytes that encode a string: its length, then its characters
pub open spec fn string_bytes(s: Seq<char>) -> Seq<u8> {
    length_bytes(s.len()) + chars_bytes(s)
}

/// The byte that encodes a flag
pub open spec fn bool_byte(b: bool) -> u8 {
    if b {
        1
    } else {
        0
    }
}

/// The bytes that encode a pattern
pub open spec fn pattern_bytes(pattern: PatternView) -> Seq<u8> {
    match pattern {
        PatternView::Identifier { name } => seq![0u8] + string_bytes(name),
        PatternView::Literal { value } => seq![1u8] + u32_bytes(value.0 as u32),
    }
}

/// The bytes that encode an expression: a tag, then the fields
pub open spec fn expression_bytes(expression: ExpressionView) -> Seq<u8> {
    match expression {
        ExpressionView::Comment { text } => seq![0u8] + string_bytes(text),
        ExpressionView::UnresolvedIdentifier {
            name,
            is_known_to_be_in_tail_position,
            is_known_to_be_call_to_user_defined_function,
        } => seq![1u8] + string_bytes(name) + seq![
            bool_byte(is_known_to_be_in_tail_position),
            bool_byte(is_known_to_be_call_to_user_defined_function),
        ],
        ExpressionView::UnresolvedLocalFunction => seq![2u8],
        ExpressionView::LocalFunction { hash } => seq![3u8] + hash.hash@,
        ExpressionView::LocalFunctionRecursive { index } => seq![4u8] + u32_bytes(index.0),
        ExpressionView::CallToHostFunction { number } => seq![5u8, number],
        ExpressionView::CallToIntrinsicFunction { intrinsic } => seq![6u8, intrinsic_code(intrinsic)],
        ExpressionView::CallToUserDefinedFunction { hash, is_tail_call } => seq![7u8] + hash.hash@
            + seq![bool_byte(is_tail_call)],
        ExpressionView::CallToUserDefinedFunctionRecursive { index, is_tail_call } => seq![8u8]
            + u32_bytes(index.0) + seq![bool_byte(is_tail_call)],
        ExpressionView::Value(value) => seq![9u8] + u32_bytes(value.0 as u32),
    }
}

/// The bytes that encode the patterns of `parameters`, in order
pub open spec fn parameters_bytes(parameters: Seq<PatternView>) -> Seq<u8>
    decreases parameters.len(),
{
    if parameters.len() == 0 {
        seq![]
    } else {
        parameters_bytes(parameters.drop_last()) + pattern_bytes(parameters.last())
    }
}

/// The bytes that encode the expressions of `body`, in order
pub open spec fn body_bytes(body: Seq<ExpressionView>) -> Seq<u8>
    decreases body.len(),
{
    if body.len() == 0 {
        seq![]
    } else {
        body_bytes(body.drop_last()) + expression_bytes(body.last())
    }
}

/// The bytes that encode a branch: its parameters and its body, each
/// preceded by their number
pub open spec fn branch_bytes(branch: BranchView) -> Seq<u8> {
    length_bytes(branch.parameters.len()) + parameters_bytes(branch.parameters) + length_bytes(
        branch.body.len(),
    ) + body_bytes(branch.body)
}

/// The bytes that encode the branches of `branches`, in order
pub open spec fn branches_bytes(branches: Seq<BranchView>) -> Seq<u8>
    decreases branches.len(),
{
    if branches.len() == 0 {
        seq![]
    } else {
        branches_bytes(branches.drop_last()) + branch_bytes(branches.last())
    }
}

/// The bytes that encode a function: the number of its branches, then the
/// branches
pub open spec fn function_bytes(function: FunctionView) -> Seq<u8> {
    length_bytes(function.branches.len()) + branches_bytes(function.branches)
}

/// The hash of a function: the BLAKE3 digest of its encoding
pub closed spec fn spec_hash(function: FunctionView) -> [u8; 32] {
    blake3_digest(function_bytes(function))
}

fn push_u32(out: &mut Vec<u8>, x: u32)
    ensures
        final(out)@ == old(out)@ + u32_bytes(x),
{
    out.push((x % 256) as u8);
    out.push(((x / 256) % 256) as u8);
    out.push(((x / 65536) % 256) as u8);
    out.push((x / 16777216) as u8);
    assert(out@ =~= old(out)@ + u32_bytes(x));
}

fn push_length(out: &mut Vec<u8>, n: usize)
    ensures
        final(out)@ == old(out)@ + length_bytes(n as nat),
{
    push_u32(out, n as u32);
}

fn push_string(out: &mut Vec<u8>, s: &String)
    ensures
        final(out)@ == old(out)@ + string_bytes(s@),
{
    let chars = crate::tokens::chars_of(s.as_str());
    push_length(out, chars.len());
    let ghost start = out@;
    let mut i: usize = 0;
    assert(chars@.take(0) =~= Seq::<char>::empty());
    assert(out@ =~= start + chars_bytes(chars@.take(0)));
    while i < chars.len()
        invariant
            i <= chars@.len(),
            chars@ == s@,
            start == old(out)@ + length_bytes(s@.len()),
            out@ == start + chars_bytes(chars@.take(i as int)),
        decreases chars@.len() - i,
    {
        push_u32(out, chars[i] as u32);
        assert(chars@.take(i + 1).drop_last() =~= chars@.take(i as int));
        i = i + 1;
        assert(out@ =~= start + chars_bytes(chars@.take(i as int)));
    }
    assert(chars@.take(chars@.len() as int) =~= chars@);
}

fn intrinsic_number(intrinsic: IntrinsicFunction) -> (r: u8)
    ensures
        r == intrinsic_code(intrinsic),
{
    match intrinsic {
            IntrinsicFunction::AddS8 => 0,
            IntrinsicFunction::AddS32 => 1,
            IntrinsicFunction::AddU8 => 2,
            IntrinsicFunction::AddU8Wrap => 3,
            IntrinsicFunction::And => 4,
            IntrinsicFunction::Brk => 5,
            IntrinsicFunction::Copy => 6,
            IntrinsicFunction::DivS32 => 7,
            IntrinsicFunction::DivU8 => 8,
            IntrinsicFunction::Drop => 9,
            IntrinsicFunction::Eq => 10,
            IntrinsicFunction::Eval => 11,
            IntrinsicFunction::GreaterS8 => 12,
            IntrinsicFunction::GreaterS32 => 13,
            IntrinsicFunction::GreaterU8 => 14,
            IntrinsicFunction::MulS32 => 15,
            IntrinsicFunction::MulU8Wrap => 16,
            IntrinsicFunction::NegS32 => 17,
            IntrinsicFunction::Nop => 18,
            IntrinsicFunction::Not => 19,
            IntrinsicFunction::RemainderS32 => 20,
            IntrinsicFunction::S32ToS8 => 21,
            IntrinsicFunction::SubS32 => 22,
            IntrinsicFunction::SubU8 => 23,
            IntrinsicFunction::SubU8Wrap => 24,
    }
}

fn push_pattern(out: &mut Vec<u8>, pattern: &Pattern)
    ensures
        final(out)@ == old(out)@ + pattern_bytes(pattern.deep_view()),
{
    match pattern {
        Pattern::Identifier { name } => {
            out.push(0);
            push_string(out, name);
        },
        Pattern::Literal { value } => {
            out.push(1);
            push_u32(out, value.0 as u32);
        },
    }
    assert(out@ =~= old(out)@ + pattern_bytes(pattern.deep_view()));
}

fn push_bytes(out: &mut Vec<u8>, bytes: &[u8; 32])
    ensures
        final(out)@ == old(out)@ + bytes@,
{
    let mut i: usize = 0;
    while i < 32
        invariant
            i <= 32,
            bytes@.len() == 32,
            out@ == old(out)@ + bytes@.take(i as int),
        decreases 32 - i,
    {
        out.push(bytes[i]);
        i = i + 1;
        assert(out@ =~= old(out)@ + bytes@.take(i as int));
    }
    assert(bytes@.take(32) =~= bytes@);
}

fn push_expression(out: &mut Vec<u8>, expression: &Expression)
    ensures
        final(out)@ == old(out)@ + expression_bytes(expression.deep_view()),
{
    match expression {
        Expression::Comment { text } => {
            out.push(0);
            push_string(out, text);
        },
        Expression::UnresolvedIdentifier {
            name,
            is_known_to_be_in_tail_position,
            is_known_to_be_call_to_user_defined_function,
        } => {
            out.push(1);
            push_string(out, name);
            out.push(if *is_known_to_be_in_tail_position { 1 } else { 0 });
            out.push(if *is_known_to_be_call_to_user_defined_function { 1 } else { 0 });
        },
        Expression::UnresolvedLocalFunction => {
            out.push(2);
        },
        Expression::LocalFunction { hash } => {
            out.push(3);
            push_bytes(out, &hash.hash);
        },
        Expression::LocalFunctionRecursive { index } => {
            out.push(4);
            push_u32(out, index.0);
        },
        Expression::CallToHostFunction { number } => {
            out.push(5);
            out.push(*number);
        },
        Expression::CallToIntrinsicFunction { intrinsic } => {
            out.push(6);
            out.push(intrinsic_number(*intrinsic));
        },
        Expression::CallToUserDefinedFunction { hash, is_tail_call } => {
            out.push(7);
            push_bytes(out, &hash.hash);
            out.push(if *is_tail_call { 1 } else { 0 });
        },
        Expression::CallToUserDefinedFunctionRecursive { index, is_tail_call } => {
            out.push(8);
            push_u32(out, index.0);
            out.push(if *is_tail_call { 1 } else { 0 });
        },
        Expression::Value(value) => {
            out.push(9);
            push_u32(out, value.0 as u32);
        },
    }
    assert(out@ =~= old(out)@ + expression_bytes(expression.deep_view()));
}

fn push_branch(out: &mut Vec<u8>, branch: &Branch)
    ensures
        final(out)@ == old(out)@ + branch_bytes(branch.deep_view()),
{
    let ghost b = branch.deep_view();
    push_length(out, branch.parameters.len());
    let ghost start = out@;
    let mut i: usize = 0;
    assert(b.parameters.take(0) =~= Seq::<PatternView>::empty());
    assert(out@ =~= start + parameters_bytes(b.parameters.take(0)));
    while i < branch.parameters.len()
        invariant
            i <= b.parameters.len(),
            b == branch.deep_view(),
            out@ == start + parameters_bytes(b.parameters.take(i as int)),
        decreases b.parameters.len() - i,
    {
        push_pattern(out, &branch.parameters[i]);
        assert(b.parameters.take(i + 1).drop_last() =~= b.parameters.take(i as int));
        i = i + 1;
        assert(out@ =~= start + parameters_bytes(b.parameters.take(i as int)));
    }
    assert(b.parameters.take(b.parameters.len() as int) =~= b.parameters);
    push_length(out, branch.body.len());
    let ghost middle = out@;
    let mut k: usize = 0;
    assert(b.body.take(0) =~= Seq::<ExpressionView>::empty());
    assert(out@ =~= middle + body_bytes(b.body.take(0)));
    while k < branch.body.len()
        invariant
            k <= b.body.len(),
            b == branch.deep_view(),
            out@ == middle + body_bytes(b.body.take(k as int)),
        decreases b.body.len() - k,
    {
        push_expression(out, &branch.body[k]);
        assert(b.body.take(k + 1).drop_last() =~= b.body.take(k as int));
        k = k + 1;
        assert(out@ =~= middle + body_bytes(b.body.take(k as int)));
    }
    assert(b.body.take(b.body.len() as int) =~= b.body);
    assert(out@ =~= old(out)@ + branch_bytes(b));
}

/// # The bytes that encode a function
pub fn encode_function(function: &Function) -> (r: Vec<u8>)
    ensures
        r@ == function_bytes(function.deep_view()),
{
    let ghost f = function.deep_view();
    let mut out: Vec<u8> = Vec::new();
    push_length(&mut out, function.branches.len());
    let ghost start = out@;
    let mut i: usize = 0;
    assert(f.branches.take(0) =~= Seq::<BranchView>::empty());
    assert(out@ =~= start + branches_bytes(f.branches.take(0)));
    while i < function.branches.len()
        invariant
            i <= f.branches.len(),
            f == function.deep_view(),
            out@ == start + branches_bytes(f.branches.take(i as int)),
        decreases f.branches.len() - i,
    {
        push_branch(&mut out, &function.branches[i]);
        assert(f.branches.take(i + 1).drop_last() =~= f.branches.take(i as int));
        i = i + 1;
        assert(out@ =~= start + branches_bytes(f.branches.take(i as int)));
    }
    assert(f.branches.take(f.branches.len() as int) =~= f.branches);
    assert(out@ =~= function_bytes(f));
    out
}

impl crate::code::Hash {
    /// # The hash of a function
    ///
    /// It depends on the function's content alone: equal functions have equal
    /// hashes.
    pub fn new(function: &Function) -> (r: crate::code::Hash)
        ensures
            r.hash == spec_hash(function.deep_view()),
    {
        let bytes = encode_function(function);
        crate::code::Hash { hash: blake3_hash(&bytes) }
    }
}

proof fn lemma_split<A>(p1: Seq<A>, r1: Seq<A>, p2: Seq<A>, r2: Seq<A>)
    requires
        p1 + r1 == p2 + r2,
        p1.len() == p2.len(),
    ensures
        p1 == p2,
        r1 == r2,
{
    assert(p1 =~= (p1 + r1).subrange(0, p1.len() as int));
    assert(p2 =~= (p2 + r2).subrange(0, p2.len() as int));
    assert(r1 =~= (p1 + r1).subrange(p1.len() as int, (p1 + r1).len() as int));
    assert(r2 =~= (p2 + r2).subrange(p2.len() as int, (p2 + r2).len() as int));
}

proof fn lemma_u32_bytes_injective(x: u32, y: u32)
    requires
        u32_bytes(x) == u32_bytes(y),
    ensures
        x == y,
{
    assert(u32_bytes(x)[0] == u32_bytes(y)[0]);
    assert(u32_bytes(x)[1] == u32_bytes(y)[1]);
    assert(u32_bytes(x)[2] == u32_bytes(y)[2]);
    assert(u32_bytes(x)[3] == u32_bytes(y)[3]);
    let a0 = (x % 256) as u8;
    let a1 = ((x / 256) % 256) as u8;
    let a2 = ((x / 65536) % 256) as u8;
    let a3 = (x / 16777216) as u8;
    let b0 = (y % 256) as u8;
    let b1 = ((y / 256) % 256) as u8;
    let b2 = ((y / 65536) % 256) as u8;
    let b3 = (y / 16777216) as u8;
    assert(a0 == b0 && a1 == b1 && a2 == b2 && a3 == b3);
    assert(((x % 256) as u8 == (y % 256) as u8 && ((x / 256) % 256) as u8 == ((y / 256) % 256) as u8 && (
    (x / 65536) % 256) as u8 == ((y / 65536) % 256) as u8 && (x / 16777216) as u8 == (y / 16777216) as u8)
        ==> x == y) by (bit_vector);
}

proof fn lemma_u32_prefix(x: u32, r1: Seq<u8>, y: u32, r2: Seq<u8>)
    requires
        u32_bytes(x) + r1 == u32_bytes(y) + r2,
    ensures
        x == y,
        r1 == r2,
{
    lemma_split(u32_bytes(x), r1, u32_bytes(y), r2);
    lemma_u32_bytes_injective(x, y);
}

proof fn lemma_chars_bytes_len(s: Seq<char>)
    ensures
        chars_bytes(s).len() == 4 * s.len(),
    decreases s.len(),
{
    if s.len() > 0 {
        lemma_chars_bytes_len(s.drop_last());
    }
}

proof fn lemma_chars_bytes_injective(s: Seq<char>, t: Seq<char>)
    requires
        s.len() == t.len(),
        chars_bytes(s) == chars_bytes(t),
    ensures
        s == t,
    decreases s.len(),
{
    if s.len() > 0 {
        lemma_chars_bytes_len(s.drop_last());
        lemma_chars_bytes_len(t.drop_last());
        lemma_split(chars_bytes(s.drop_last()), u32_bytes(s.last() as u32), chars_bytes(t.drop_last()), u32_bytes(t.last() as u32));
        lemma_chars_bytes_injective(s.drop_last(), t.drop_last());
        lemma_u32_bytes_injective(s.last() as u32, t.last() as u32);
        vstd::utf8::char_u32_cast(s.last(), s.last() as u32);
        vstd::utf8::char_u32_cast(t.last(), t.last() as u32);
        assert(s.last() == t.last());
        assert(s =~= s.drop_last().push(s.last()));
        assert(t =~= t.drop_last().push(t.last()));
    } else {
        assert(s =~= t);
    }
}

proof fn lemma_string_prefix(s: Seq<char>, r1: Seq<u8>, t: Seq<char>, r2: Seq<u8>)
    requires
        s.len() <= u32::MAX,
        t.len() <= u32::MAX,
        string_bytes(s) + r1 == string_bytes(t) + r2,
    ensures
        s == t,
        r1 == r2,
{
    assert(string_bytes(s) + r1 =~= u32_bytes(s.len() as u32) + (chars_bytes(s) + r1));
    assert(string_bytes(t) + r2 =~= u32_bytes(t.len() as u32) + (chars_bytes(t) + r2));
    lemma_u32_prefix(s.len() as u32, chars_bytes(s) + r1, t.len() as u32, chars_bytes(t) + r2);
    lemma_chars_bytes_len(s);
    lemma_chars_bytes_len(t);
    lemma_split(chars_bytes(s), r1, chars_bytes(t), r2);
    lemma_chars_bytes_injective(s, t);
}

proof fn lemma_i32_as_u32_injective(a: i32, b: i32)
    requires
        a as u32 == b as u32,
    ensures
        a == b,
{
    assert(a as u32 == b as u32 ==> a == b) by (bit_vector);
}

proof fn lemma_hash_prefix(h1: crate::code::Hash, r1: Seq<u8>, h2: crate::code::Hash, r2: Seq<u8>)
    requires
        h1.hash@ + r1 == h2.hash@ + r2,
    ensures
        h1 == h2,
        r1 == r2,
{
    broadcast use vstd::array::group_array_axioms;

    lemma_split(h1.hash@, r1, h2.hash@, r2);
    assert forall|i: int| 0 <= i < 32 implies h1.hash[i] == h2.hash[i] by {
        assert(h1.hash@[i] == h2.hash@[i]);
    }
    assert(h1.hash =~= h2.hash);
}

/// Whether the strings in `pattern` have lengths that the encoding can hold
pub open spec fn pattern_fits(pattern: PatternView) -> bool {
    match pattern {
        PatternView::Identifier { name } => name.len() <= u32::MAX,
        PatternView::Literal { .. } => true,
    }
}

/// Whether the strings in `expression` have lengths that the encoding can hold
pub open spec fn expression_fits(expression: ExpressionView) -> bool {
    match expression {
        ExpressionView::Comment { text } => text.len() <= u32::MAX,
        ExpressionView::UnresolvedIdentifier { name, .. } => name.len() <= u32::MAX,
        _ => true,
    }
}

/// Whether every number and length in `branch` fits in the encoding
pub open spec fn branch_fits(branch: BranchView) -> bool {
    &&& branch.parameters.len() <= u32::MAX
    &&& branch.body.len() <= u32::MAX
    &&& forall|i: int| 0 <= i < branch.parameters.len() ==> pattern_fits(#[trigger] branch.parameters[i])
    &&& forall|k: int| 0 <= k < branch.body.len() ==> expression_fits(#[trigger] branch.body[k])
}

/// Whether every number and length in `function` fits in the encoding
pub open spec fn function_fits(function: FunctionView) -> bool {
    &&& function.branches.len() <= u32::MAX
    &&& forall|j: int| 0 <= j < function.branches.len() ==> branch_fits(#[trigger] function.branches[j])
}

proof fn lemma_tag_prefix(t1: u8, x1: Seq<u8>, t2: u8, x2: Seq<u8>)
    requires
        seq![t1] + x1 == seq![t2] + x2,
    ensures
        t1 == t2,
        x1 == x2,
{
    lemma_split(seq![t1], x1, seq![t2], x2);
    assert(seq![t1][0] == seq![t2][0]);
}

proof fn lemma_pattern_prefix(p1: PatternView, r1: Seq<u8>, p2: PatternView, r2: Seq<u8>)
    requires
        pattern_fits(p1),
        pattern_fits(p2),
        pattern_bytes(p1) + r1 == pattern_bytes(p2) + r2,
    ensures
        p1 == p2,
        r1 == r2,
{
    match (p1, p2) {
        (PatternView::Identifier { name: a }, PatternView::Identifier { name: b }) => {
            assert(pattern_bytes(p1) + r1 =~= seq![0u8] + (string_bytes(a) + r1));
            assert(pattern_bytes(p2) + r2 =~= seq![0u8] + (string_bytes(b) + r2));
            lemma_tag_prefix(0u8, string_bytes(a) + r1, 0u8, string_bytes(b) + r2);
            lemma_string_prefix(a, r1, b, r2);
        },
        (PatternView::Literal { value: a }, PatternView::Literal { value: b }) => {
            assert(pattern_bytes(p1) + r1 =~= seq![1u8] + (u32_bytes(a.0 as u32) + r1));
            assert(pattern_bytes(p2) + r2 =~= seq![1u8] + (u32_bytes(b.0 as u32) + r2));
            lemma_tag_prefix(1u8, u32_bytes(a.0 as u32) + r1, 1u8, u32_bytes(b.0 as u32) + r2);
            lemma_u32_prefix(a.0 as u32, r1, b.0 as u32, r2);
            lemma_i32_as_u32_injective(a.0, b.0);
        },
        (PatternView::Identifier { name: a }, PatternView::Literal { value: b }) => {
            assert((pattern_bytes(p1) + r1)[0] == 0u8);
            assert((pattern_bytes(p2) + r2)[0] == 1u8);
        },
        (PatternView::Literal { value: a }, PatternView::Identifier { name: b }) => {
            assert((pattern_bytes(p1) + r1)[0] == 1u8);
            assert((pattern_bytes(p2) + r2)[0] == 0u8);
        },
    }
}

/// The first byte of the encoding of `expression`, which tells its kind
pub open spec fn expression_tag(expression: ExpressionView) -> u8 {
    match expression {
        ExpressionView::Comment { .. } => 0,
        ExpressionView::UnresolvedIdentifier { .. } => 1,
        ExpressionView::UnresolvedLocalFunction => 2,
        ExpressionView::LocalFunction { .. } => 3,
        ExpressionView::LocalFunctionRecursive { .. } => 4,
        ExpressionView::CallToHostFunction { .. } => 5,
        ExpressionView::CallToIntrinsicFunction { .. } => 6,
        ExpressionView::CallToUserDefinedFunction { .. } => 7,
        ExpressionView::CallToUserDefinedFunctionRecursive { .. } => 8,
        ExpressionView::Value(..) => 9,
    }
}

proof fn lemma_expression_tag(expression: ExpressionView, r: Seq<u8>)
    ensures
        (expression_bytes(expression) + r).len() > 0,
        (expression_bytes(expression) + r)[0] == expression_tag(expression),
{
}

proof fn lemma_intrinsic_code_injective(a: IntrinsicFunction, b: IntrinsicFunction)
    requires
        intrinsic_code(a) == intrinsic_code(b),
    ensures
        a == b,
{
}

proof fn lemma_comment_prefix(e1: ExpressionView, r1: Seq<u8>, e2: ExpressionView, r2: Seq<u8>)
    requires
        expression_fits(e1),
        expression_fits(e2),
        expression_bytes(e1) + r1 == expression_bytes(e2) + r2,
        e1 is Comment,
        e2 is Comment,
    ensures
        e1 == e2,
        r1 == r2,
{
    match (e1, e2) {
        (ExpressionView::Comment { text: a }, ExpressionView::Comment { text: b }) => {
            assert(expression_bytes(e1) + r1 =~= seq![0u8] + (string_bytes(a) + r1));
            assert(expression_bytes(e2) + r2 =~= seq![0u8] + (string_bytes(b) + r2));
            lemma_tag_prefix(0u8, string_bytes(a) + r1, 0u8, string_bytes(b) + r2);
            lemma_string_prefix(a, r1, b, r2);
        },
        _ => {},
    }
}

proof fn lemma_unresolved_identifier_prefix(e1: ExpressionView, r1: Seq<u8>, e2: ExpressionView, r2: Seq<u8>)
    requires
        expression_fits(e1),
        expression_fits(e2),
        expression_bytes(e1) + r1 == expression_bytes(e2) + r2,
        e1 is UnresolvedIdentifier,
        e2 is UnresolvedIdentifier,
    ensures
        e1 == e2,
        r1 == r2,
{
    match (e1, e2) {
        (ExpressionView::UnresolvedIdentifier {
            name: a,
            is_known_to_be_in_tail_position: t1,
            is_known_to_be_call_to_user_defined_function: c1,
        }, ExpressionView::UnresolvedIdentifier {
                name: b,
                is_known_to_be_in_tail_position: t2,
                is_known_to_be_call_to_user_defined_function: c2,
            }) => {
            let f1 = seq![bool_byte(t1), bool_byte(c1)];
            let f2 = seq![bool_byte(t2), bool_byte(c2)];
            assert(expression_bytes(e1) + r1 =~= seq![1u8] + (string_bytes(a) + (f1 + r1)));
            assert(expression_bytes(e2) + r2 =~= seq![1u8] + (string_bytes(b) + (f2 + r2)));
            lemma_tag_prefix(1u8, string_bytes(a) + (f1 + r1), 1u8, string_bytes(b) + (f2 + r2));
            lemma_string_prefix(a, f1 + r1, b, f2 + r2);
            lemma_split(f1, r1, f2, r2);
            assert(f1[0] == f2[0] && f1[1] == f2[1]);
        },
        _ => {},
    }
}

proof fn lemma_unresolved_local_function_prefix(e1: ExpressionView, r1: Seq<u8>, e2: ExpressionView, r2: Seq<u8>)
    requires
        expression_fits(e1),
        expression_fits(e2),
        expression_bytes(e1) + r1 == expression_bytes(e2) + r2,
        e1 is UnresolvedLocalFunction,
        e2 is UnresolvedLocalFunction,
    ensures
        e1 == e2,
        r1 == r2,
{
    match (e1, e2) {
        (ExpressionView::UnresolvedLocalFunction, ExpressionView::UnresolvedLocalFunction) => {
            lemma_tag_prefix(2u8, r1, 2u8, r2);
        },
        _ => {},
    }
}

proof fn lemma_local_function_prefix(e1: ExpressionView, r1: Seq<u8>, e2: ExpressionView, r2: Seq<u8>)
    requires
        expression_fits(e1),
        expression_fits(e2),
        expression_bytes(e1) + r1 == expression_bytes(e2) + r2,
        e1 is LocalFunction,
        e2 is LocalFunction,
    ensures
        e1 == e2,
        r1 == r2,
{
    match (e1, e2) {
        (ExpressionView::LocalFunction { hash: a }, ExpressionView::LocalFunction { hash: b }) => {
            assert(expression_bytes(e1) + r1 =~= seq![3u8] + (a.hash@ + r1));
            assert(expression_bytes(e2) + r2 =~= seq![3u8] + (b.hash@ + r2));
            lemma_tag_prefix(3u8, a.hash@ + r1, 3u8, b.hash@ + r2);
            lemma_hash_prefix(a, r1, b, r2);
        },
        _ => {},
    }
}

proof fn lemma_local_function_recursive_prefix(e1: ExpressionView, r1: Seq<u8>, e2: ExpressionView, r2: Seq<u8>)
    requires
        expression_fits(e1),
        expression_fits(e2),
        expression_bytes(e1) + r1 == expression_bytes(e2) + r2,
        e1 is LocalFunctionRecursive,
        e2 is LocalFunctionRecursive,
    ensures
        e1 == e2,
        r1 == r2,
{
    match (e1, e2) {
        (ExpressionView::LocalFunctionRecursive { index: a }, ExpressionView::LocalFunctionRecursive { index: b }) => {
            assert(expression_bytes(e1) + r1 =~= seq![4u8] + (u32_bytes(a.0) + r1));
            assert(expression_bytes(e2) + r2 =~= seq![4u8] + (u32_bytes(b.0) + r2));
            lemma_tag_prefix(4u8, u32_bytes(a.0) + r1, 4u8, u32_bytes(b.0) + r2);
            lemma_u32_prefix(a.0, r1, b.0, r2);
        },
        _ => {},
    }
}

proof fn lemma_call_to_host_function_prefix(e1: ExpressionView, r1: Seq<u8>, e2: ExpressionView, r2: Seq<u8>)
    requires
        expression_fits(e1),
        expression_fits(e2),
        expression_bytes(e1) + r1 == expression_bytes(e2) + r2,
        e1 is CallToHostFunction,
        e2 is CallToHostFunction,
    ensures
        e1 == e2,
        r1 == r2,
{
    match (e1, e2) {
        (ExpressionView::CallToHostFunction { number: a }, ExpressionView::CallToHostFunction { number: b }) => {
            assert(expression_bytes(e1) + r1 =~= seq![5u8] + (seq![a] + r1));
            assert(expression_bytes(e2) + r2 =~= seq![5u8] + (seq![b] + r2));
            lemma_tag_prefix(5u8, seq![a] + r1, 5u8, seq![b] + r2);
            lemma_tag_prefix(a, r1, b, r2);
        },
        _ => {},
    }
}

proof fn lemma_call_to_intrinsic_function_prefix(e1: ExpressionView, r1: Seq<u8>, e2: ExpressionView, r2: Seq<u8>)
    requires
        expression_fits(e1),
        expression_fits(e2),
        expression_bytes(e1) + r1 == expression_bytes(e2) + r2,
        e1 is CallToIntrinsicFunction,
        e2 is CallToIntrinsicFunction,
    ensures
        e1 == e2,
        r1 == r2,
{
    match (e1, e2) {
        (ExpressionView::CallToIntrinsicFunction { intrinsic: a }, ExpressionView::CallToIntrinsicFunction { intrinsic: b }) => {
            assert(expression_bytes(e1) + r1 =~= seq![6u8] + (seq![intrinsic_code(a)] + r1));
            assert(expression_bytes(e2) + r2 =~= seq![6u8] + (seq![intrinsic_code(b)] + r2));
            lemma_tag_prefix(6u8, seq![intrinsic_code(a)] + r1, 6u8, seq![intrinsic_code(b)] + r2);
            lemma_tag_prefix(intrinsic_code(a), r1, intrinsic_code(b), r2);
            lemma_intrinsic_code_injective(a, b);
        },
        _ => {},
    }
}

proof fn lemma_call_to_user_defined_function_prefix(e1: ExpressionView, r1: Seq<u8>, e2: ExpressionView, r2: Seq<u8>)
    requires
        expression_fits(e1),
        expression_fits(e2),
        expression_bytes(e1) + r1 == expression_bytes(e2) + r2,
        e1 is CallToUserDefinedFunction,
        e2 is CallToUserDefinedFunction,
    ensures
        e1 == e2,
        r1 == r2,
{
    match (e1, e2) {
        (ExpressionView::CallToUserDefinedFunction { hash: a, is_tail_call: t1 }, ExpressionView::CallToUserDefinedFunction { hash: b, is_tail_call: t2 }) => {
            assert(expression_bytes(e1) + r1 =~= seq![7u8] + (a.hash@ + (seq![bool_byte(t1)] + r1)));
            assert(expression_bytes(e2) + r2 =~= seq![7u8] + (b.hash@ + (seq![bool_byte(t2)] + r2)));
            lemma_tag_prefix(7u8, a.hash@ + (seq![bool_byte(t1)] + r1), 7u8, b.hash@ + (seq![bool_byte(t2)] + r2));
            lemma_hash_prefix(a, seq![bool_byte(t1)] + r1, b, seq![bool_byte(t2)] + r2);
            lemma_tag_prefix(bool_byte(t1), r1, bool_byte(t2), r2);
        },
        _ => {},
    }
}

proof fn lemma_call_to_user_defined_function_recursive_prefix(e1: ExpressionView, r1: Seq<u8>, e2: ExpressionView, r2: Seq<u8>)
    requires
        expression_fits(e1),
        expression_fits(e2),
        expression_bytes(e1) + r1 == expression_bytes(e2) + r2,
        e1 is CallToUserDefinedFunctionRecursive,
        e2 is CallToUserDefinedFunctionRecursive,
    ensures
        e1 == e2,
        r1 == r2,
{
    match (e1, e2) {
        (ExpressionView::CallToUserDefinedFunctionRecursive { index: a, is_tail_call: t1 }, ExpressionView::CallToUserDefinedFunctionRecursive { index: b, is_tail_call: t2 }) => {
            assert(expression_bytes(e1) + r1 =~= seq![8u8] + (u32_bytes(a.0) + (seq![bool_byte(t1)] + r1)));
            assert(expression_bytes(e2) + r2 =~= seq![8u8] + (u32_bytes(b.0) + (seq![bool_byte(t2)] + r2)));
            lemma_tag_prefix(8u8, u32_bytes(a.0) + (seq![bool_byte(t1)] + r1), 8u8, u32_bytes(b.0) + (seq![bool_byte(t2)] + r2));
            lemma_u32_prefix(a.0, seq![bool_byte(t1)] + r1, b.0, seq![bool_byte(t2)] + r2);
            lemma_tag_prefix(bool_byte(t1), r1, bool_byte(t2), r2);
        },
        _ => {},
    }
}

proof fn lemma_value_prefix(e1: ExpressionView, r1: Seq<u8>, e2: ExpressionView, r2: Seq<u8>)
    requires
        expression_fits(e1),
        expression_fits(e2),
        expression_bytes(e1) + r1 == expression_bytes(e2) + r2,
        e1 is Value,
        e2 is Value,
    ensures
        e1 == e2,
        r1 == r2,
{
    match (e1, e2) {
        (ExpressionView::Value(a), ExpressionView::Value(b)) => {
            assert(expression_bytes(e1) + r1 =~= seq![9u8] + (u32_bytes(a.0 as u32) + r1));
            assert(expression_bytes(e2) + r2 =~= seq![9u8] + (u32_bytes(b.0 as u32) + r2));
            lemma_tag_prefix(9u8, u32_bytes(a.0 as u32) + r1, 9u8, u32_bytes(b.0 as u32) + r2);
            lemma_u32_prefix(a.0 as u32, r1, b.0 as u32, r2);
            lemma_i32_as_u32_injective(a.0, b.0);
        },
        _ => {},
    }
}

proof fn lemma_expression_prefix(e1: ExpressionView, r1: Seq<u8>, e2: ExpressionView, r2: Seq<u8>)
    requires
        expression_fits(e1),
        expression_fits(e2),
        expression_bytes(e1) + r1 == expression_bytes(e2) + r2,
    ensures
        e1 == e2,
        r1 == r2,
{
    lemma_expression_tag(e1, r1);
    lemma_expression_tag(e2, r2);
    assert(expression_tag(e1) == expression_tag(e2));
    match e1 {
        ExpressionView::Comment { .. } => lemma_comment_prefix(e1, r1, e2, r2),
        ExpressionView::UnresolvedIdentifier { .. } => lemma_unresolved_identifier_prefix(e1, r1, e2, r2),
        ExpressionView::UnresolvedLocalFunction => lemma_unresolved_local_function_prefix(e1, r1, e2, r2),
        ExpressionView::LocalFunction { .. } => lemma_local_function_prefix(e1, r1, e2, r2),
        ExpressionView::LocalFunctionRecursive { .. } => lemma_local_function_recursive_prefix(e1, r1, e2, r2),
        ExpressionView::CallToHostFunction { .. } => lemma_call_to_host_function_prefix(e1, r1, e2, r2),
        ExpressionView::CallToIntrinsicFunction { .. } => lemma_call_to_intrinsic_function_prefix(e1, r1, e2, r2),
        ExpressionView::CallToUserDefinedFunction { .. } => lemma_call_to_user_defined_function_prefix(e1, r1, e2, r2),
        ExpressionView::CallToUserDefinedFunctionRecursive { .. } => lemma_call_to_user_defined_function_recursive_prefix(e1, r1, e2, r2),
        ExpressionView::Value(..) => lemma_value_prefix(e1, r1, e2, r2),
    }
}

proof fn lemma_parameters_front(s: Seq<PatternView>)
    requires
        s.len() > 0,
    ensures
        parameters_bytes(s) == pattern_bytes(s[0]) + parameters_bytes(s.drop_first()),
    decreases s.len(),
{
    if s.len() == 1 {
        assert(s.drop_last() =~= Seq::<PatternView>::empty());
        assert(s.drop_first() =~= Seq::<PatternView>::empty());
        assert(parameters_bytes(s) =~= pattern_bytes(s[0]) + parameters_bytes(s.drop_first()));
    } else {
        lemma_parameters_front(s.drop_last());
        assert(s.drop_last().drop_first() =~= s.drop_first().drop_last());
        assert(s.drop_first().last() == s.last());
        assert(parameters_bytes(s) =~= pattern_bytes(s[0]) + parameters_bytes(s.drop_first()));
    }
}

proof fn lemma_parameters_prefix(s1: Seq<PatternView>, r1: Seq<u8>, s2: Seq<PatternView>, r2: Seq<u8>)
    requires
        s1.len() == s2.len(),
        forall|i: int| 0 <= i < s1.len() ==> pattern_fits(#[trigger] s1[i]),
        forall|i: int| 0 <= i < s2.len() ==> pattern_fits(#[trigger] s2[i]),
        parameters_bytes(s1) + r1 == parameters_bytes(s2) + r2,
    ensures
        s1 == s2,
        r1 == r2,
    decreases s1.len(),
{
    if s1.len() == 0 {
        assert(s1 =~= s2);
        assert(parameters_bytes(s1) + r1 =~= r1);
        assert(parameters_bytes(s2) + r2 =~= r2);
    } else {
        lemma_parameters_front(s1);
        lemma_parameters_front(s2);
        let rest1 = parameters_bytes(s1.drop_first()) + r1;
        let rest2 = parameters_bytes(s2.drop_first()) + r2;
        assert(parameters_bytes(s1) + r1 =~= pattern_bytes(s1[0]) + rest1);
        assert(parameters_bytes(s2) + r2 =~= pattern_bytes(s2[0]) + rest2);
        lemma_pattern_prefix(s1[0], rest1, s2[0], rest2);
        assert forall|i: int| 0 <= i < s1.drop_first().len() implies pattern_fits(#[trigger] s1.drop_first()[i]) by {
            assert(s1.drop_first()[i] == s1[i + 1]);
        }
        assert forall|i: int| 0 <= i < s2.drop_first().len() implies pattern_fits(#[trigger] s2.drop_first()[i]) by {
            assert(s2.drop_first()[i] == s2[i + 1]);
        }
        lemma_parameters_prefix(s1.drop_first(), r1, s2.drop_first(), r2);
        assert(s1 =~= seq![s1[0]] + s1.drop_first());
        assert(s2 =~= seq![s2[0]] + s2.drop_first());
    }
}

proof fn lemma_body_front(s: Seq<ExpressionView>)
    requires
        s.len() > 0,
    ensures
        body_bytes(s) == expression_bytes(s[0]) + body_bytes(s.drop_first()),
    decreases s.len(),
{
    if s.len() == 1 {
        assert(s.drop_last() =~= Seq::<ExpressionView>::empty());
        assert(s.drop_first() =~= Seq::<ExpressionView>::empty());
        assert(body_bytes(s) =~= expression_bytes(s[0]) + body_bytes(s.drop_first()));
    } else {
        lemma_body_front(s.drop_last());
        assert(s.drop_last().drop_first() =~= s.drop_first().drop_last());
        assert(s.drop_first().last() == s.last());
        assert(body_bytes(s) =~= expression_bytes(s[0]) + body_bytes(s.drop_first()));
    }
}

proof fn lemma_body_prefix(s1: Seq<ExpressionView>, r1: Seq<u8>, s2: Seq<ExpressionView>, r2: Seq<u8>)
    requires
        s1.len() == s2.len(),
        forall|i: int| 0 <= i < s1.len() ==> expression_fits(#[trigger] s1[i]),
        forall|i: int| 0 <= i < s2.len() ==> expression_fits(#[trigger] s2[i]),
        body_bytes(s1) + r1 == body_bytes(s2) + r2,
    ensures
        s1 == s2,
        r1 == r2,
    decreases s1.len(),
{
    if s1.len() == 0 {
        assert(s1 =~= s2);
        assert(body_bytes(s1) + r1 =~= r1);
        assert(body_bytes(s2) + r2 =~= r2);
    } else {
        lemma_body_front(s1);
        lemma_body_front(s2);
        let rest1 = body_bytes(s1.drop_first()) + r1;
        let rest2 = body_bytes(s2.drop_first()) + r2;
        assert(body_bytes(s1) + r1 =~= expression_bytes(s1[0]) + rest1);
        assert(body_bytes(s2) + r2 =~= expression_bytes(s2[0]) + rest2);
        lemma_expression_prefix(s1[0], rest1, s2[0], rest2);
        assert forall|i: int| 0 <= i < s1.drop_first().len() implies expression_fits(#[trigger] s1.drop_first()[i]) by {
            assert(s1.drop_first()[i] == s1[i + 1]);
        }
        assert forall|i: int| 0 <= i < s2.drop_first().len() implies expression_fits(#[trigger] s2.drop_first()[i]) by {
            assert(s2.drop_first()[i] == s2[i + 1]);
        }
        lemma_body_prefix(s1.drop_first(), r1, s2.drop_first(), r2);
        assert(s1 =~= seq![s1[0]] + s1.drop_first());
        assert(s2 =~= seq![s2[0]] + s2.drop_first());
    }
}

proof fn lemma_branch_prefix(b1: BranchView, r1: Seq<u8>, b2: BranchView, r2: Seq<u8>)
    requires
        branch_fits(b1),
        branch_fits(b2),
        branch_bytes(b1) + r1 == branch_bytes(b2) + r2,
    ensures
        b1 == b2,
        r1 == r2,
{
    let p1 = b1.parameters;
    let p2 = b2.parameters;
    let x1 = b1.body;
    let x2 = b2.body;
    let rest1 = parameters_bytes(p1) + (length_bytes(x1.len()) + (body_bytes(x1) + r1));
    let rest2 = parameters_bytes(p2) + (length_bytes(x2.len()) + (body_bytes(x2) + r2));
    assert(branch_bytes(b1) + r1 =~= u32_bytes(p1.len() as u32) + rest1);
    assert(branch_bytes(b2) + r2 =~= u32_bytes(p2.len() as u32) + rest2);
    lemma_u32_prefix(p1.len() as u32, rest1, p2.len() as u32, rest2);
    lemma_parameters_prefix(
        p1,
        length_bytes(x1.len()) + (body_bytes(x1) + r1),
        p2,
        length_bytes(x2.len()) + (body_bytes(x2) + r2),
    );
    lemma_u32_prefix(x1.len() as u32, body_bytes(x1) + r1, x2.len() as u32, body_bytes(x2) + r2);
    lemma_body_prefix(x1, r1, x2, r2);
}

proof fn lemma_branches_front(s: Seq<BranchView>)
    requires
        s.len() > 0,
    ensures
        branches_bytes(s) == branch_bytes(s[0]) + branches_bytes(s.drop_first()),
    decreases s.len(),
{
    if s.len() == 1 {
        assert(s.drop_last() =~= Seq::<BranchView>::empty());
        assert(s.drop_first() =~= Seq::<BranchView>::empty());
        assert(branches_bytes(s) =~= branch_bytes(s[0]) + branches_bytes(s.drop_first()));
    } else {
        lemma_branches_front(s.drop_last());
        assert(s.drop_last().drop_first() =~= s.drop_first().drop_last());
        assert(s.drop_first().last() == s.last());
        assert(branches_bytes(s) =~= branch_bytes(s[0]) + branches_bytes(s.drop_first()));
    }
}

#[verifier::spinoff_prover]
#[verifier::rlimit(60)]
proof fn lemma_branches_prefix(s1: Seq<BranchView>, r1: Seq<u8>, s2: Seq<BranchView>, r2: Seq<u8>)
    requires
        s1.len() == s2.len(),
        forall|i: int| 0 <= i < s1.len() ==> branch_fits(#[trigger] s1[i]),
        forall|i: int| 0 <= i < s2.len() ==> branch_fits(#[trigger] s2[i]),
        branches_bytes(s1) + r1 == branches_bytes(s2) + r2,
    ensures
        s1 == s2,
        r1 == r2,
    decreases s1.len(),
{
    if s1.len() == 0 {
        assert(s1 =~= s2);
        assert(branches_bytes(s1) + r1 =~= r1);
        assert(branches_bytes(s2) + r2 =~= r2);
    } else {
        lemma_branches_front(s1);
        lemma_branches_front(s2);
        let rest1 = branches_bytes(s1.drop_first()) + r1;
        let rest2 = branches_bytes(s2.drop_first()) + r2;
        assert(branches_bytes(s1) + r1 =~= branch_bytes(s1[0]) + rest1);
        assert(branches_bytes(s2) + r2 =~= branch_bytes(s2[0]) + rest2);
        lemma_branch_prefix(s1[0], rest1, s2[0], rest2);
        assert forall|i: int| 0 <= i < s1.drop_first().len() implies branch_fits(#[trigger] s1.drop_first()[i]) by {
            assert(s1.drop_first()[i] == s1[i + 1]);
        }
        assert forall|i: int| 0 <= i < s2.drop_first().len() implies branch_fits(#[trigger] s2.drop_first()[i]) by {
            assert(s2.drop_first()[i] == s2[i + 1]);
        }
        lemma_branches_prefix(s1.drop_first(), r1, s2.drop_first(), r2);
        assert(s1 =~= seq![s1[0]] + s1.drop_first());
        assert(s2 =~= seq![s2[0]] + s2.drop_first());
    }
}

/// The encoding that a function's hash is taken of tells functions apart:
/// two functions whose numbers and lengths fit in it, and that differ in
/// anything (a name, a number, a flag, an expression, the order of their
/// branches), have different encodings.
pub proof fn function_encoding_is_injective(f: FunctionView, g: FunctionView)
    requires
        function_fits(f),
        function_fits(g),
        function_bytes(f) == function_bytes(g),
    ensures
        f == g,
{
    let e = Seq::<u8>::empty();
    assert(function_bytes(f) + e =~= u32_bytes(f.branches.len() as u32) + (branches_bytes(f.branches) + e));
    assert(function_bytes(g) + e =~= u32_bytes(g.branches.len() as u32) + (branches_bytes(g.branches) + e));
    lemma_u32_prefix(f.branches.len() as u32, branches_bytes(f.branches) + e, g.branches.len() as u32, branches_bytes(g.branches) + e);
    lemma_branches_prefix(f.branches, e, g.branches, e);
}

} // verus!
