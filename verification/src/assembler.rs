use vstd::prelude::*;
use vstd::slice::slice_subrange;
use vstd::slice::slice_to_vec;

verus! {

// ===========================================================================
// Opcodes: one-byte tags whose execution meaning belongs to the virtual
// machine; only their distinctness matters here.
// ===========================================================================

/// Load a string constant.
pub const SLOAD: u8 = 1;

/// Load an integer constant.
pub const ILOAD: u8 = 2;

/// Abort execution.
pub const ABORT: u8 = 3;

/// Emit debugging information.
pub const DEBUG: u8 = 4;

/// Store into a named slot.
pub const STORE: u8 = 5;

/// Introduce a named function.
pub const FUN: u8 = 6;

/// End of a function body.
pub const END: u8 = 7;

/// A fatal assembly error: the whole input is rejected, no partial output.
#[derive(Debug, Clone, Copy, PartialEq, Eq, Structural)]
pub enum AsmError {
    /// A non-blank line matches no instruction shape.
    UnknownInstruction,
    /// An `sload` line holds no space, so there is no payload.
    MissingOperand,
    /// An `iload` operand is not a valid integer literal.
    InvalidNumber,
    /// An operand's byte encoding does not fit in a one-byte length.
    OperandTooLong,
}

// ===========================================================================
// Byte classes and scan boundaries
// ===========================================================================

/// ASCII whitespace byte: space, tab, newline, form feed, carriage return.
pub open spec fn is_ws_byte(b: u8) -> bool {
    b == 0x20 || b == 0x09 || b == 0x0a || b == 0x0c || b == 0x0d
}

/// ASCII decimal digit byte.
pub open spec fn is_digit_byte(b: u8) -> bool {
    0x30 <= b && b <= 0x39
}

/// First index at or after `i` holding a newline byte, or the length of `s`.
pub open spec fn nl_end(s: Seq<u8>, i: int) -> int
    decreases s.len() - i when 0 <= i <= s.len()
{
    if i == s.len() {
        i
    } else if s[i] == 0x0a {
        i
    } else {
        nl_end(s, i + 1)
    }
}

/// First index at or after `i` holding a whitespace byte, or the length.
pub open spec fn ws_tok_end(s: Seq<u8>, i: int) -> int
    decreases s.len() - i when 0 <= i <= s.len()
{
    if i == s.len() {
        i
    } else if is_ws_byte(s[i]) {
        i
    } else {
        ws_tok_end(s, i + 1)
    }
}

/// First index at or after `i` holding a space byte, or the length.
pub open spec fn space_end(s: Seq<u8>, i: int) -> int
    decreases s.len() - i when 0 <= i <= s.len()
{
    if i == s.len() {
        i
    } else if s[i] == 0x20 {
        i
    } else {
        space_end(s, i + 1)
    }
}

pub proof fn lemma_nl_end_bounds(s: Seq<u8>, i: int)
    requires
        0 <= i <= s.len(),
    ensures
        i <= nl_end(s, i) <= s.len(),
    decreases s.len() - i,
{
    if i < s.len() && s[i] != 0x0a {
        lemma_nl_end_bounds(s, i + 1);
    }
}

pub proof fn lemma_ws_tok_end_bounds(s: Seq<u8>, i: int)
    requires
        0 <= i <= s.len(),
    ensures
        i <= ws_tok_end(s, i) <= s.len(),
    decreases s.len() - i,
{
    if i < s.len() && !is_ws_byte(s[i]) {
        lemma_ws_tok_end_bounds(s, i + 1);
    }
}

/// The whitespace-separated tokens of `s` from index `i` on.
pub open spec fn split_ws_from(s: Seq<u8>, i: int) -> Seq<Seq<u8>>
    decreases s.len() - i when 0 <= i <= s.len() via split_ws_from_decreases
{
    if i == s.len() {
        seq![]
    } else if is_ws_byte(s[i]) {
        split_ws_from(s, i + 1)
    } else {
        let e = ws_tok_end(s, i + 1);
        seq![s.subrange(i, e)] + split_ws_from(s, e)
    }
}

#[via_fn]
proof fn split_ws_from_decreases(s: Seq<u8>, i: int) {
    if 0 <= i < s.len() {
        lemma_ws_tok_end_bounds(s, i + 1);
    }
}

/// The whitespace-separated tokens of a line.
pub open spec fn spec_split_ws(s: Seq<u8>) -> Seq<Seq<u8>> {
    split_ws_from(s, 0)
}

// ===========================================================================
// Integer literals, as the arbitrary-precision parser accepts them: an
// optional sign, then a digit, then digits or underscores; the underscores
// are ignored in the value.
// ===========================================================================

/// The literal with a leading sign removed.
pub open spec fn int_body(s: Seq<u8>) -> Seq<u8> {
    if s.len() > 0 && (s[0] == 0x2b || s[0] == 0x2d) {
        s.skip(1)
    } else {
        s
    }
}

pub open spec fn is_int_literal(s: Seq<u8>) -> bool {
    let b = int_body(s);
    b.len() > 0 && is_digit_byte(b[0]) && (forall|k: int|
        0 <= k < b.len() ==> is_digit_byte(#[trigger] b[k]) || b[k] == 0x5f)
}

/// The decimal value of a digit-and-underscore body.
pub open spec fn digits_value(b: Seq<u8>) -> int
    decreases b.len(),
{
    if b.len() == 0 {
        0
    } else if b.last() == 0x5f {
        digits_value(b.drop_last())
    } else {
        digits_value(b.drop_last()) * 10 + (b.last() - 0x30)
    }
}

/// The signed decimal value of an integer literal.
pub open spec fn int_literal_value(s: Seq<u8>) -> int {
    if s.len() > 0 && s[0] == 0x2d {
        -digits_value(int_body(s))
    } else {
        digits_value(int_body(s))
    }
}

// ===========================================================================
// Big-endian two's-complement encoding
// ===========================================================================

/// The shortest big-endian two's-complement byte encoding of `v`, with a
/// single zero byte for zero.
pub open spec fn min_signed_be(v: int) -> Seq<u8>
    decreases (if v < 0 { -v } else { v }) via min_signed_be_decreases
{
    if -128 <= v && v < 128 {
        seq![(v % 256) as u8]
    } else {
        min_signed_be(v / 256).push((v % 256) as u8)
    }
}

#[via_fn]
proof fn min_signed_be_decreases(v: int) {
    if !(-128 <= v && v < 128) {
        if v >= 128 {
            assert(0 <= v / 256 < v) by (nonlinear_arith)
                requires
                    v >= 128,
            ;
        } else {
            assert(v < v / 256 <= 0) by (nonlinear_arith)
                requires
                    v <= -129,
            ;
        }
    }
}

/// The eight-byte big-endian encoding of a 64-bit length.
pub open spec fn len_be8(n: u64) -> Seq<u8> {
    seq![
        ((n >> 56) & 0xff) as u8,
        ((n >> 48) & 0xff) as u8,
        ((n >> 40) & 0xff) as u8,
        ((n >> 32) & 0xff) as u8,
        ((n >> 24) & 0xff) as u8,
        ((n >> 16) & 0xff) as u8,
        ((n >> 8) & 0xff) as u8,
        (n & 0xff) as u8,
    ]
}

// ===========================================================================
// The instruction grammar: what one line assembles to.
// ===========================================================================

pub open spec fn mn_sload() -> Seq<u8> {
    seq![0x73, 0x6c, 0x6f, 0x61, 0x64]
}

pub open spec fn mn_iload() -> Seq<u8> {
    seq![0x69, 0x6c, 0x6f, 0x61, 0x64]
}

pub open spec fn mn_abort() -> Seq<u8> {
    seq![0x61, 0x62, 0x6f, 0x72, 0x74]
}

pub open spec fn mn_debug() -> Seq<u8> {
    seq![0x64, 0x65, 0x62, 0x75, 0x67]
}

pub open spec fn mn_store() -> Seq<u8> {
    seq![0x73, 0x74, 0x6f, 0x72, 0x65]
}

pub open spec fn mn_fun() -> Seq<u8> {
    seq![0x66, 0x75, 0x6e]
}

pub open spec fn mn_end() -> Seq<u8> {
    seq![0x65, 0x6e, 0x64]
}

/// What one physical line contributes to the output. A blank line yields
/// nothing. `sload` takes the raw rest of the line after the first space,
/// with an eight-byte big-endian length; `iload` a one-byte-counted
/// two's-complement operand; `store` a one-byte-counted name; `fun` a bare
/// name with no length; `abort`, `debug` and `end` stand alone.
pub open spec fn spec_encode_line(line: Seq<u8>) -> Result<Seq<u8>, AsmError> {
    let toks = spec_split_ws(line);
    if toks.len() == 0 {
        Ok(seq![])
    } else if toks[0] == mn_sload() {
        let sp = space_end(line, 0);
        if sp == line.len() {
            Err(AsmError::MissingOperand)
        } else {
            let payload = line.subrange(sp + 1, line.len() as int);
            Ok(seq![SLOAD] + len_be8(payload.len() as u64) + payload)
        }
    } else if toks.len() == 2 && toks[0] == mn_iload() {
        if !is_int_literal(toks[1]) {
            Err(AsmError::InvalidNumber)
        } else {
            let operand = min_signed_be(int_literal_value(toks[1]));
            if operand.len() > 255 {
                Err(AsmError::OperandTooLong)
            } else {
                Ok(seq![ILOAD, operand.len() as u8] + operand)
            }
        }
    } else if toks.len() == 1 && toks[0] == mn_abort() {
        Ok(seq![ABORT])
    } else if toks.len() == 1 && toks[0] == mn_debug() {
        Ok(seq![DEBUG])
    } else if toks.len() == 2 && toks[0] == mn_store() {
        if toks[1].len() > 255 {
            Err(AsmError::OperandTooLong)
        } else {
            Ok(seq![STORE, toks[1].len() as u8] + toks[1])
        }
    } else if toks.len() == 2 && toks[0] == mn_fun() {
        Ok(seq![FUN] + toks[1])
    } else if toks.len() == 1 && toks[0] == mn_end() {
        Ok(seq![END])
    } else {
        Err(AsmError::UnknownInstruction)
    }
}

/// A line with one trailing carriage return removed.
pub open spec fn strip_cr(l: Seq<u8>) -> Seq<u8> {
    if l.len() > 0 && l.last() == 0x0d {
        l.drop_last()
    } else {
        l
    }
}

/// The whole assembly from index `i` on: the lines' encodings concatenated
/// in order, or the first error. A line ending is a newline or a carriage
/// return followed by a newline; the final one is optional.
pub open spec fn spec_assemble_from(s: Seq<u8>, i: int) -> Result<Seq<u8>, AsmError>
    decreases s.len() - i when 0 <= i <= s.len() via spec_assemble_from_decreases
{
    if i == s.len() {
        Ok(seq![])
    } else {
        let n = nl_end(s, i);
        let line = if n < s.len() {
            strip_cr(s.subrange(i, n))
        } else {
            s.subrange(i, n)
        };
        let next = if n < s.len() {
            n + 1
        } else {
            n
        };
        match spec_encode_line(line) {
            Err(e) => Err(e),
            Ok(b) => match spec_assemble_from(s, next) {
                Err(e) => Err(e),
                Ok(rest) => Ok(b + rest),
            },
        }
    }
}

#[via_fn]
proof fn spec_assemble_from_decreases(s: Seq<u8>, i: int) {
    if 0 <= i < s.len() {
        lemma_nl_end_bounds(s, i);
    }
}

/// The byte stream that the whole input assembles to, or the first error.
pub open spec fn spec_assemble(s: Seq<u8>) -> Result<Seq<u8>, AsmError> {
    spec_assemble_from(s, 0)
}

} // verus!

verus! {

// ===========================================================================
// The arbitrary-precision integer of the `num` crate, behind trusted
// declarations: parsing and encoding are its work; everything around them
// is verified against the names below.
// ===========================================================================

#[verifier::external_type_specification]
#[verifier::external_body]
pub struct ExBigInt(num::bigint::BigInt);

/// The integer value that a `num` big integer holds.
pub uninterp spec fn bigint_value(b: num::bigint::BigInt) -> int;

/// Relies on `num`'s `BigInt` `FromStr` (decimal `from_str_radix`): it
/// accepts an optional `+` or `-` sign followed by a digit and then digits
/// or underscores, and yields the signed decimal value with the underscores
/// ignored.
#[verifier::external_body]
fn parse_bigint(tok: &[u8]) -> (r: Option<num::bigint::BigInt>)
    ensures
        r is Some <==> is_int_literal(tok@),
        r matches Some(b) ==> bigint_value(b) == int_literal_value(tok@),
{
    match core::str::from_utf8(tok) {
        Ok(s) => s.parse::<num::bigint::BigInt>().ok(),
        Err(_) => None,
    }
}

/// Relies on `num`'s `BigInt::to_signed_bytes_be`: the shortest big-endian
/// two's-complement byte encoding of the value, with a single zero byte for
/// zero.
#[verifier::external_body]
fn bigint_signed_bytes_be(b: &num::bigint::BigInt) -> (r: Vec<u8>)
    ensures
        r@ == min_signed_be(bigint_value(*b)),
{
    b.to_signed_bytes_be()
}

// ===========================================================================
// Executable helpers
// ===========================================================================

fn ws_byte(b: u8) -> (r: bool)
    ensures
        r == is_ws_byte(b),
{
    b == 0x20 || b == 0x09 || b == 0x0a || b == 0x0c || b == 0x0d
}

fn tok_is5(t: &Vec<u8>, a0: u8, a1: u8, a2: u8, a3: u8, a4: u8) -> (r: bool)
    ensures
        r == (t@ == seq![a0, a1, a2, a3, a4]),
{
    let r = t.len() == 5 && t[0] == a0 && t[1] == a1 && t[2] == a2 && t[3] == a3 && t[4] == a4;
    proof {
        if r {
            assert(t@ =~= seq![a0, a1, a2, a3, a4]);
        }
    }
    r
}

fn tok_is3(t: &Vec<u8>, a0: u8, a1: u8, a2: u8) -> (r: bool)
    ensures
        r == (t@ == seq![a0, a1, a2]),
{
    let r = t.len() == 3 && t[0] == a0 && t[1] == a1 && t[2] == a2;
    proof {
        if r {
            assert(t@ =~= seq![a0, a1, a2]);
        }
    }
    r
}

/// Split a line at runs of whitespace bytes.
fn split_ws(line: &[u8]) -> (r: Vec<Vec<u8>>)
    ensures
        r.deep_view() == spec_split_ws(line@),
{
    let ghost s = line@;
    let mut r: Vec<Vec<u8>> = Vec::new();
    let mut i: usize = 0;
    proof {
        assert(r.deep_view() =~= Seq::<Seq<u8>>::empty());
        assert(r.deep_view() + split_ws_from(s, 0) =~= split_ws_from(s, 0));
    }
    while i < line.len()
        invariant
            i <= line.len(),
            s == line@,
            spec_split_ws(s) == r.deep_view() + split_ws_from(s, i as int),
        decreases line.len() - i,
    {
        let ghost r0 = r.deep_view();
        if ws_byte(line[i]) {
            i += 1;
        } else {
            let start = i;
            let mut j = i + 1;
            while j < line.len() && !ws_byte(line[j])
                invariant
                    start < j <= line.len(),
                    s == line@,
                    ws_tok_end(s, start + 1) == ws_tok_end(s, j as int),
                decreases line.len() - j,
            {
                j += 1;
            }
            let tok = slice_to_vec(slice_subrange(line, start, j));
            proof {
                assert(tok.deep_view() =~= tok@);
            }
            r.push(tok);
            proof {
                assert(r.deep_view() =~= r0.push(s.subrange(start as int, j as int)));
                assert(seq![s.subrange(start as int, j as int)] + split_ws_from(s, j as int)
                    =~= r.deep_view().skip(r0.len() as int) + split_ws_from(s, j as int));
                assert(r0 + (seq![s.subrange(start as int, j as int)] + split_ws_from(
                    s,
                    j as int,
                )) =~= r.deep_view() + split_ws_from(s, j as int));
            }
            i = j;
        }
    }
    proof {
        assert(r.deep_view() + split_ws_from(s, s.len() as int) =~= r.deep_view());
    }
    r
}

/// Append the eight-byte big-endian encoding of `n`.
fn push_be8(out: &mut Vec<u8>, n: u64)
    ensures
        final(out)@ == old(out)@ + len_be8(n),
{
    proof {
        assert((n >> 56) & 0xff <= 0xff && (n >> 48) & 0xff <= 0xff && (n >> 40) & 0xff <= 0xff
            && (n >> 32) & 0xff <= 0xff && (n >> 24) & 0xff <= 0xff && (n >> 16) & 0xff <= 0xff && (
        n >> 8) & 0xff <= 0xff && n & 0xff <= 0xff) by (bit_vector);
    }
    out.push(((n >> 56) & 0xff) as u8);
    out.push(((n >> 48) & 0xff) as u8);
    out.push(((n >> 40) & 0xff) as u8);
    out.push(((n >> 32) & 0xff) as u8);
    out.push(((n >> 24) & 0xff) as u8);
    out.push(((n >> 16) & 0xff) as u8);
    out.push(((n >> 8) & 0xff) as u8);
    out.push((n & 0xff) as u8);
    proof {
        assert(out@ =~= old(out)@ + len_be8(n));
    }
}

/// Append a byte slice.
fn push_bytes(out: &mut Vec<u8>, src: &[u8])
    ensures
        final(out)@ == old(out)@ + src@,
{
    let mut k: usize = 0;
    while k < src.len()
        invariant
            k <= src.len(),
            out@ == old(out)@ + src@.subrange(0, k as int),
        decreases src.len() - k,
    {
        out.push(src[k]);
        k += 1;
        proof {
            assert(out@ =~= old(out)@ + src@.subrange(0, k as int));
        }
    }
    proof {
        assert(src@.subrange(0, src@.len() as int) =~= src@);
    }
}

// ===========================================================================
// The assembler
// ===========================================================================

/// Encode one physical line.
fn encode_line(line: &[u8]) -> (r: Result<Vec<u8>, AsmError>)
    ensures
        match spec_encode_line(line@) {
            Ok(b) => r matches Ok(v) && v@ == b,
            Err(e) => r matches Err(e2) && e2 == e,
        },
{
    let ghost sl = line@;
    let toks = split_ws(line);
    let ghost tv = spec_split_ws(sl);
    if toks.len() == 0 {
        let empty: Vec<u8> = Vec::new();
        proof {
            assert(empty@ =~= Seq::<u8>::empty());
        }
        return Ok(empty);
    }
    proof {
        assert(tv[0] == toks@[0].deep_view());
        assert(toks@[0].deep_view() =~= toks@[0]@);
        if toks.len() == 2 {
            assert(tv[1] == toks@[1].deep_view());
            assert(toks@[1].deep_view() =~= toks@[1]@);
        }
    }
    let mut out: Vec<u8> = Vec::new();
    if tok_is5(&toks[0], 0x73, 0x6c, 0x6f, 0x61, 0x64) {
        // sload: the payload is the raw rest of the line after the first space
        let mut sp: usize = 0;
        while sp < line.len() && line[sp] != 0x20
            invariant
                sp <= line.len(),
                sl == line@,
                space_end(sl, 0) == space_end(sl, sp as int),
            decreases line.len() - sp,
        {
            sp += 1;
        }
        if sp == line.len() {
            return Err(AsmError::MissingOperand);
        }
        let payload = slice_subrange(line, sp + 1, line.len());
        out.push(SLOAD);
        push_be8(&mut out, payload.len() as u64);
        push_bytes(&mut out, payload);
        proof {
            assert(out@ =~= seq![SLOAD] + len_be8(payload@.len() as u64) + payload@);
        }
        Ok(out)
    } else if toks.len() == 2 && tok_is5(&toks[0], 0x69, 0x6c, 0x6f, 0x61, 0x64) {
        // iload: a one-byte operand length, then the two's-complement bytes
        match parse_bigint(toks[1].as_slice()) {
            None => Err(AsmError::InvalidNumber),
            Some(b) => {
                let operand = bigint_signed_bytes_be(&b);
                if operand.len() > 255 {
                    Err(AsmError::OperandTooLong)
                } else {
                    out.push(ILOAD);
                    out.push(operand.len() as u8);
                    push_bytes(&mut out, operand.as_slice());
                    proof {
                        assert(out@ =~= seq![ILOAD, operand@.len() as u8] + operand@);
                    }
                    Ok(out)
                }
            },
        }
    } else if toks.len() == 1 && tok_is5(&toks[0], 0x61, 0x62, 0x6f, 0x72, 0x74) {
        out.push(ABORT);
        proof {
            assert(out@ =~= seq![ABORT]);
        }
        Ok(out)
    } else if toks.len() == 1 && tok_is5(&toks[0], 0x64, 0x65, 0x62, 0x75, 0x67) {
        out.push(DEBUG);
        proof {
            assert(out@ =~= seq![DEBUG]);
        }
        Ok(out)
    } else if toks.len() == 2 && tok_is5(&toks[0], 0x73, 0x74, 0x6f, 0x72, 0x65) {
        // store: a one-byte name length, then the name bytes
        let name = &toks[1];
        if name.len() > 255 {
            Err(AsmError::OperandTooLong)
        } else {
            out.push(STORE);
            out.push(name.len() as u8);
            push_bytes(&mut out, name.as_slice());
            proof {
                assert(out@ =~= seq![STORE, name@.len() as u8] + name@);
            }
            Ok(out)
        }
    } else if toks.len() == 2 && tok_is3(&toks[0], 0x66, 0x75, 0x6e) {
        // fun: the bare name with no length prefix; it runs to the end of
        // the instruction
        out.push(FUN);
        push_bytes(&mut out, toks[1].as_slice());
        proof {
            assert(out@ =~= seq![FUN] + toks@[1].deep_view());
        }
        Ok(out)
    } else if toks.len() == 1 && tok_is3(&toks[0], 0x65, 0x6e, 0x64) {
        out.push(END);
        proof {
            assert(out@ =~= seq![END]);
        }
        Ok(out)
    } else {
        Err(AsmError::UnknownInstruction)
    }
}

/// Assemble the whole input, one instruction per physical line: the lines'
/// encodings concatenated with no separators, or the first fatal error with
/// no partial output.
pub fn assemble(code: &[u8]) -> (r: Result<Vec<u8>, AsmError>)
    ensures
        match spec_assemble(code@) {
            Ok(b) => r matches Ok(v) && v@ == b,
            Err(e) => r matches Err(e2) && e2 == e,
        },
{
    let ghost s = code@;
    let mut out: Vec<u8> = Vec::new();
    let mut i: usize = 0;
    proof {
        assert(out@ =~= Seq::<u8>::empty());
    }
    while i < code.len()
        invariant
            i <= code.len(),
            s == code@,
            match spec_assemble_from(s, i as int) {
                Ok(rest) => spec_assemble(s) == Ok::<Seq<u8>, AsmError>(out@ + rest),
                Err(e) => spec_assemble(s) == Err::<Seq<u8>, AsmError>(e),
            },
        decreases code.len() - i,
    {
        let ghost o0 = out@;
        let start = i;
        let mut j = i;
        while j < code.len() && code[j] != 0x0a
            invariant
                start <= j <= code.len(),
                s == code@,
                nl_end(s, start as int) == nl_end(s, j as int),
            decreases code.len() - j,
        {
            j += 1;
        }
        let terminated = j < code.len();
        let mut line_end = j;
        if terminated && line_end > start && code[line_end - 1] == 0x0d {
            line_end = line_end - 1;
        }
        let line = slice_subrange(code, start, line_end);
        proof {
            if terminated {
                assert(line@ =~= strip_cr(s.subrange(start as int, j as int)));
            }
        }
        match encode_line(line) {
            Ok(v) => {
                push_bytes(&mut out, v.as_slice());
                proof {
                    if terminated {
                        match spec_assemble_from(s, j + 1) {
                            Ok(rest) => {
                                assert(o0 + (v@ + rest) =~= out@ + rest);
                            },
                            Err(_) => {},
                        }
                    } else {
                        match spec_assemble_from(s, j as int) {
                            Ok(rest) => {
                                assert(o0 + (v@ + rest) =~= out@ + rest);
                            },
                            Err(_) => {},
                        }
                    }
                }
            },
            Err(e) => {
                return Err(e);
            },
        }
        i = if terminated {
            j + 1
        } else {
            j
        };
    }
    proof {
        assert(out@ + Seq::<u8>::empty() =~= out@);
    }
    Ok(out)
}

} // verus!
