use vstd::prelude::*;
use crate::ast::{Expr, ExprModel};
use crate::bytecode::{code_of, codegen, Instr};

verus! {

/// Unsigned LEB128: seven value bits per byte, low bits first, the high bit
/// set on every byte but the last.
pub open spec fn uleb128(n: nat) -> Seq<u8>
    decreases n,
{
    if n < 128 {
        seq![n as u8]
    } else {
        seq![(n % 128 + 128) as u8] + uleb128(n / 128)
    }
}

/// The eight little-endian bytes of a 64-bit value.
pub open spec fn le_bytes(b: u64) -> Seq<u8> {
    seq![
        (b & 0xff) as u8,
        ((b >> 8) & 0xff) as u8,
        ((b >> 16) & 0xff) as u8,
        ((b >> 24) & 0xff) as u8,
        ((b >> 32) & 0xff) as u8,
        ((b >> 40) & 0xff) as u8,
        ((b >> 48) & 0xff) as u8,
        ((b >> 56) & 0xff) as u8,
    ]
}

/// The encoding of one instruction: an opcode byte, and for a constant its
/// eight operand bytes.
pub open spec fn instr_bytes(i: Instr) -> Seq<u8> {
    match i {
        Instr::Const(b) => seq![0x44u8] + le_bytes(b),
        Instr::Neg => seq![0x9au8],
        Instr::Add => seq![0xa0u8],
        Instr::Mul => seq![0xa2u8],
        Instr::Div => seq![0xa3u8],
    }
}

/// The encoding of an instruction sequence.
pub open spec fn code_bytes(c: Seq<Instr>) -> Seq<u8>
    decreases c.len(),
{
    if c.len() == 0 {
        Seq::empty()
    } else {
        instr_bytes(c[0]) + code_bytes(c.subrange(1, c.len() as int))
    }
}

/// A section: a one-byte identifier, the size of the contents, the contents.
pub open spec fn section_bytes(id: u8, content: Seq<u8>) -> Seq<u8> {
    seq![id] + uleb128(content.len()) + content
}

/// One function type: no parameters, one 64-bit float result.
pub open spec fn type_section_content() -> Seq<u8> {
    seq![0x01u8, 0x60, 0x00, 0x01, 0x7c]
}

/// One function, of the first (only) declared type.
pub open spec fn function_section_content() -> Seq<u8> {
    seq![0x01u8, 0x00]
}

/// One export: the first (only) function, under the entry name `run`.
pub open spec fn export_section_content() -> Seq<u8> {
    seq![0x01u8, 0x03, 0x72, 0x75, 0x6e, 0x00, 0x00]
}

/// The body of the one function: no locals, the expression's code, the
/// end-of-body terminator.
pub open spec fn body_bytes(e: ExprModel<u64>) -> Seq<u8> {
    seq![0x00u8] + code_bytes(code_of(e)) + seq![0x0bu8]
}

/// The code section contents: one body, preceded by its size.
pub open spec fn code_section_content(e: ExprModel<u64>) -> Seq<u8> {
    seq![0x01u8] + uleb128(body_bytes(e).len()) + body_bytes(e)
}

/// Every byte of the compiled module: the magic header and version, then
/// the type, function, export and code sections.
pub open spec fn module_bytes(e: ExprModel<u64>) -> Seq<u8> {
    seq![0x00u8, 0x61, 0x73, 0x6d, 0x01, 0x00, 0x00, 0x00] + section_bytes(
        1,
        type_section_content(),
    ) + section_bytes(3, function_section_content()) + section_bytes(7, export_section_content())
        + section_bytes(10, code_section_content(e))
}

/// Append the LEB128 encoding of `v`.
fn push_uleb(out: &mut Vec<u8>, v: u64)
    ensures
        final(out)@ == old(out)@ + uleb128(v as nat),
{
    let ghost init = out@;
    let mut n = v;
    while n >= 128
        invariant
            out@ + uleb128(n as nat) == init + uleb128(v as nat),
        decreases n,
    {
        let ghost n0 = n as nat;
        let b = (n % 128 + 128) as u8;
        out.push(b);
        proof {
            assert(uleb128(n0) == seq![b] + uleb128(n0 / 128));
            assert(out@ + uleb128((n / 128) as nat) =~= init + uleb128(v as nat));
        }
        n = n / 128;
    }
    out.push(n as u8);
    proof {
        assert(uleb128(n as nat) == seq![n as u8]);
        assert(out@ =~= init + uleb128(v as nat));
    }
}

/// Append the eight little-endian bytes of `b`.
fn push_le(out: &mut Vec<u8>, b: u64)
    ensures
        final(out)@ == old(out)@ + le_bytes(b),
{
    let ghost init = out@;
    out.push((b & 0xff) as u8);
    out.push(((b >> 8) & 0xff) as u8);
    out.push(((b >> 16) & 0xff) as u8);
    out.push(((b >> 24) & 0xff) as u8);
    out.push(((b >> 32) & 0xff) as u8);
    out.push(((b >> 40) & 0xff) as u8);
    out.push(((b >> 48) & 0xff) as u8);
    out.push(((b >> 56) & 0xff) as u8);
    proof {
        assert(out@ =~= init + le_bytes(b));
    }
}

/// Append the encoding of one instruction.
fn push_instr(out: &mut Vec<u8>, i: Instr)
    ensures
        final(out)@ == old(out)@ + instr_bytes(i),
{
    let ghost init = out@;
    match i {
        Instr::Const(b) => {
            out.push(0x44);
            push_le(out, b);
            proof {
                assert(out@ =~= init + instr_bytes(i));
            }
        },
        Instr::Neg => {
            out.push(0x9a);
            proof {
                assert(out@ =~= init + instr_bytes(i));
            }
        },
        Instr::Add => {
            out.push(0xa0);
            proof {
                assert(out@ =~= init + instr_bytes(i));
            }
        },
        Instr::Mul => {
            out.push(0xa2);
            proof {
                assert(out@ =~= init + instr_bytes(i));
            }
        },
        Instr::Div => {
            out.push(0xa3);
            proof {
                assert(out@ =~= init + instr_bytes(i));
            }
        },
    }
}

proof fn lemma_code_bytes_app(a: Seq<Instr>, b: Seq<Instr>)
    ensures
        code_bytes(a + b) == code_bytes(a) + code_bytes(b),
    decreases a.len(),
{
    if a.len() == 0 {
        assert(a + b =~= b);
        assert(code_bytes(a) =~= Seq::<u8>::empty());
        assert(code_bytes(a) + code_bytes(b) =~= code_bytes(b));
    } else {
        assert((a + b)[0] == a[0]);
        assert((a + b).subrange(1, (a + b).len() as int) =~= a.subrange(1, a.len() as int) + b);
        lemma_code_bytes_app(a.subrange(1, a.len() as int), b);
        assert(code_bytes(a + b) =~= code_bytes(a) + code_bytes(b));
    }
}

/// Append the encoding of a whole instruction sequence.
fn push_code(out: &mut Vec<u8>, c: &Vec<Instr>)
    ensures
        final(out)@ == old(out)@ + code_bytes(c@),
{
    let ghost init = out@;
    let mut idx: usize = 0;
    while idx < c.len()
        invariant
            idx <= c@.len(),
            out@ == init + code_bytes(c@.take(idx as int)),
        decreases c@.len() - idx,
    {
        let ghost pre = c@.take(idx as int);
        push_instr(out, c[idx]);
        proof {
            assert(c@.take(idx + 1) =~= pre + seq![c@[idx as int]]);
            lemma_code_bytes_app(pre, seq![c@[idx as int]]);
            assert(seq![c@[idx as int]].subrange(1, 1) =~= Seq::<Instr>::empty());
            assert(code_bytes(Seq::<Instr>::empty()) =~= Seq::<u8>::empty());
            assert(code_bytes(seq![c@[idx as int]]) =~= instr_bytes(c@[idx as int]));
            assert(out@ =~= init + code_bytes(c@.take(idx + 1)));
        }
        idx = idx + 1;
    }
    proof {
        assert(c@.take(c@.len() as int) =~= c@);
    }
}

/// Compile an expression into a self-contained binary module holding one
/// function with no parameters and one 64-bit float result, exported under
/// the entry name, whose body is the expression's instruction sequence.
/// The contract pins every byte of the result.
pub fn compile(e: &Expr<u64>) -> (r: Vec<u8>)
    ensures
        r@ == module_bytes(e@),
{
    let mut code: Vec<Instr> = Vec::new();
    codegen(&mut code, e);
    let mut body: Vec<u8> = Vec::new();
    body.push(0x00);
    push_code(&mut body, &code);
    body.push(0x0b);
    proof {
        assert(body@ =~= body_bytes(e@));
    }
    let mut csec: Vec<u8> = Vec::new();
    csec.push(0x01);
    push_uleb(&mut csec, body.len() as u64);
    csec.append(&mut body);
    proof {
        assert(csec@ =~= code_section_content(e@));
    }
    let mut out: Vec<u8> = Vec::new();
    out.push(0x00);
    out.push(0x61);
    out.push(0x73);
    out.push(0x6d);
    out.push(0x01);
    out.push(0x00);
    out.push(0x00);
    out.push(0x00);
    out.push(0x01);
    out.push(0x05);
    out.push(0x01);
    out.push(0x60);
    out.push(0x00);
    out.push(0x01);
    out.push(0x7c);
    out.push(0x03);
    out.push(0x02);
    out.push(0x01);
    out.push(0x00);
    out.push(0x07);
    out.push(0x07);
    out.push(0x01);
    out.push(0x03);
    out.push(0x72);
    out.push(0x75);
    out.push(0x6e);
    out.push(0x00);
    out.push(0x00);
    out.push(0x0a);
    push_uleb(&mut out, csec.len() as u64);
    out.append(&mut csec);
    proof {
        assert(uleb128(type_section_content().len()) == seq![0x05u8]);
        assert(uleb128(function_section_content().len()) == seq![0x02u8]);
        assert(uleb128(export_section_content().len()) == seq![0x07u8]);
        assert(out@ =~= module_bytes(e@));
    }
    out
}

} // verus!
