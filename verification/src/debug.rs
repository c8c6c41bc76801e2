//! The disassembler: a pure reader over a chunk that renders each
//! instruction as one line of text — zero-padded offset, line annotation
//! (a continuation marker when the line repeats), mnemonic and, for
//! `Constant`, the operand index and the value it resolves to. It advances
//! by each instruction's encoded width and never reads past the stream.
use vstd::prelude::*;

use crate::chunk::{Chunk, ChunkModel, ConstantTrait, LineTrait, Op, spec_get_constant, spec_get_line};
use crate::value::{Value, value_text, value_to_string};

verus! {

/// The character for one decimal digit.
pub open spec fn dec_digit(d: nat) -> char {
    if d == 0 {
        '0'
    } else if d == 1 {
        '1'
    } else if d == 2 {
        '2'
    } else if d == 3 {
        '3'
    } else if d == 4 {
        '4'
    } else if d == 5 {
        '5'
    } else if d == 6 {
        '6'
    } else if d == 7 {
        '7'
    } else if d == 8 {
        '8'
    } else {
        '9'
    }
}

/// The decimal rendering of a number, most significant digit first.
pub open spec fn dec_rep(n: nat) -> Seq<char>
    decreases n,
{
    if n < 10 {
        seq![dec_digit(n)]
    } else {
        dec_rep(n / 10).push(dec_digit(n % 10))
    }
}

/// Pads a rendering on the left with `fill` up to `width` characters.
pub open spec fn left_pad(s: Seq<char>, width: nat, fill: char) -> Seq<char> {
    if s.len() >= width {
        s
    } else {
        Seq::new((width - s.len()) as nat, |i: int| fill) + s
    }
}

/// One digit as text.
fn digit_str(d: usize) -> (r: &'static str)
    requires
        d < 10,
    ensures
        r@ == seq![dec_digit(d as nat)],
{
    proof {
        reveal_strlit("0");
        reveal_strlit("1");
        reveal_strlit("2");
        reveal_strlit("3");
        reveal_strlit("4");
        reveal_strlit("5");
        reveal_strlit("6");
        reveal_strlit("7");
        reveal_strlit("8");
        reveal_strlit("9");
    }
    match d {
        0 => "0",
        1 => "1",
        2 => "2",
        3 => "3",
        4 => "4",
        5 => "5",
        6 => "6",
        7 => "7",
        8 => "8",
        _ => "9",
    }
}

/// Renders `n` in decimal.
pub fn fmt_usize(n: usize) -> (r: String)
    ensures
        r@ == dec_rep(n as nat),
    decreases n,
{
    if n < 10 {
        digit_str(n).to_owned()
    } else {
        let mut s = fmt_usize(n / 10);
        s.append(digit_str(n % 10));
        proof {
            assert(s@ =~= dec_rep(n as nat));
        }
        s
    }
}

/// A decimal rendering is never empty.
pub proof fn lemma_dec_rep_len(n: nat)
    ensures
        dec_rep(n).len() >= 1,
    decreases n,
{
    if n >= 10 {
        lemma_dec_rep_len(n / 10);
    }
}

/// Renders `n` in decimal, padded on the left to four characters.
fn fmt_usize_pad(n: usize, zero: bool) -> (r: String)
    ensures
        r@ == left_pad(dec_rep(n as nat), 4, if zero {
            '0'
        } else {
            ' '
        }),
{
    let ghost fill = if zero { '0' } else { ' ' };
    let digits = fmt_usize(n);
    let width = digits.as_str().unicode_len();
    proof {
        lemma_dec_rep_len(n as nat);
    }
    let mut s = String::new();
    let mut k: usize = 0;
    let pad = if width < 4 {
        4 - width
    } else {
        0
    };
    while k < pad
        invariant
            k <= pad,
            s@ =~= Seq::new(k as nat, |i: int| fill),
            fill == (if zero {
                '0'
            } else {
                ' '
            }),
        decreases pad - k,
    {
        if zero {
            s.append("0");
            proof {
                reveal_strlit("0");
            }
        } else {
            s.append(" ");
            proof {
                reveal_strlit(" ");
            }
        }
        k = k + 1;
        proof {
            assert(s@ =~= Seq::new(k as nat, |i: int| fill));
        }
    }
    s.append(digits.as_str());
    proof {
        assert(s@ =~= left_pad(dec_rep(n as nat), 4, fill));
    }
    s
}

/// The line annotation before an instruction: a continuation marker when the
/// line equals the previous instruction's line, else the line number padded
/// to four characters, with the surrounding spacing of the listing format.
pub open spec fn spec_line_info(flat: Seq<usize>, offset: nat) -> Seq<char> {
    if offset > 0 && spec_get_line(flat, offset as int) == spec_get_line(flat, offset as int - 1) {
        "    | "@
    } else {
        " "@ + left_pad(dec_rep(spec_get_line(flat, offset as int) as nat), 4, ' ') + " "@
    }
}

/// The mnemonic (and operand rendering) of the instruction at `offset`.
pub open spec fn spec_mnemonic(m: ChunkModel, offset: nat) -> Seq<char> {
    match m.code[offset as int] {
        Op::Return => "OP_RETURN"@,
        Op::Constant => match spec_get_constant(m.code, m.consts, offset as int) {
            Ok(iv) => "OP_CONST  "@ + left_pad(dec_rep(iv.0 as nat), 4, '0') + " "@ + value_text(
                iv.1,
            ),
            Err(_) => "OP_CONST  ????"@,
        },
        Op::ConstantIndex(_) => "OP_UNK"@,
        Op::Nil => "OP_NIL"@,
        Op::Negate => "OP_NEG"@,
        Op::Add => "OP_ADD"@,
        Op::Subtract => "OP_SUB"@,
        Op::Multiply => "OP_MUL"@,
        Op::Divide => "OP_DIV"@,
    }
}

/// One rendered line of the listing, without its newline.
pub open spec fn spec_op_line(m: ChunkModel, offset: nat) -> Seq<char> {
    left_pad(dec_rep(offset), 4, '0') + " "@ + spec_line_info(m.flat, offset) + "  "@
        + spec_mnemonic(m, offset)
}

/// Where the next instruction starts: one past a plain instruction, two past
/// a `Constant`, clamped so the cursor never leaves the stream.
pub open spec fn spec_next_offset(code: Seq<Op>, offset: nat) -> nat {
    let w: nat = if code[offset as int] is Constant {
        2
    } else {
        1
    };
    if offset + w <= code.len() {
        offset + w
    } else {
        code.len()
    }
}

/// The rendered listing of every instruction from `offset` on, one line each.
pub open spec fn spec_listing_from(m: ChunkModel, offset: nat) -> Seq<char>
    decreases m.code.len() - offset,
    when offset <= m.code.len()
{
    if offset >= m.code.len() {
        Seq::empty()
    } else {
        spec_op_line(m, offset) + "\n"@ + spec_listing_from(m, spec_next_offset(m.code, offset))
    }
}

/// The whole disassembly: a labelled header, a column header, the listing.
pub open spec fn spec_disassembly(m: ChunkModel, name: Seq<char>) -> Seq<char> {
    "== "@ + name + " ==\n"@ + "IDX | LINE | VALUE\n"@ + spec_listing_from(m, 0)
}

/// A stateless-per-call reader that renders a chunk's encoding as text.
#[derive(Debug)]
pub struct Disassembler {}

impl Disassembler {
    /// A disassembler; it holds no state between calls.
    pub fn new() -> (d: Disassembler)
    {
        Disassembler {  }
    }

    /// Decodes exactly one instruction: the rendered line, and the offset
    /// just past the instruction's encoded width.
    pub fn disassemble_op(&self, bytes: &Chunk, offset: usize) -> (r: (String, usize))
        requires
            bytes.wf(),
            offset < bytes.code_view().len(),
        ensures
            r.0@ == spec_op_line(bytes.model(), offset as nat),
            r.1 == spec_next_offset(bytes.code_view(), offset as nat),
            offset < r.1 <= bytes.code_view().len(),
    {
        let mut s = fmt_usize_pad(offset, true);
        s.append(" ");
        let line = bytes.get_line(offset);
        if offset > 0 && line == bytes.get_line(offset - 1) {
            s.append("    | ");
        } else {
            s.append(" ");
            let padded = fmt_usize_pad(line, false);
            s.append(padded.as_str());
            s.append(" ");
        }
        s.append("  ");
        let n = bytes.code.len();
        let op = bytes.code[offset];
        let next: usize = match op {
            Op::Return => {
                s.append("OP_RETURN");
                offset + 1
            },
            Op::Constant => {
                match bytes.get_constant(offset) {
                    Ok((idx, val)) => {
                        s.append("OP_CONST  ");
                        let padded = fmt_usize_pad(idx as usize, true);
                        s.append(padded.as_str());
                        s.append(" ");
                        let vtext = value_to_string(&val);
                        s.append(vtext.as_str());
                    },
                    Err(_) => {
                        s.append("OP_CONST  ????");
                    },
                }
                if n - offset >= 2 {
                    offset + 2
                } else {
                    n
                }
            },
            Op::ConstantIndex(_) => {
                s.append("OP_UNK");
                offset + 1
            },
            Op::Nil => {
                s.append("OP_NIL");
                offset + 1
            },
            Op::Negate => {
                s.append("OP_NEG");
                offset + 1
            },
            Op::Add => {
                s.append("OP_ADD");
                offset + 1
            },
            Op::Subtract => {
                s.append("OP_SUB");
                offset + 1
            },
            Op::Multiply => {
                s.append("OP_MUL");
                offset + 1
            },
            Op::Divide => {
                s.append("OP_DIV");
                offset + 1
            },
        };
        proof {
            assert(s@ =~= spec_op_line(bytes.model(), offset as nat));
        }
        (s, next)
    }

    /// Renders the whole chunk: a header labelled with `name`, then one line
    /// per instruction, driving single-instruction decodes until the cursor
    /// reaches the stream's end.
    pub fn disassemble(&self, bytes: &Chunk, name: &str) -> (r: String)
        requires
            bytes.wf(),
        ensures
            r@ == spec_disassembly(bytes.model(), name@),
    {
        let mut s = String::new();
        s.append("== ");
        s.append(name);
        s.append(" ==\n");
        s.append("IDX | LINE | VALUE\n");
        let mut ip: usize = 0;
        while ip < bytes.code.len()
            invariant
                bytes.wf(),
                ip <= bytes.code_view().len(),
                spec_disassembly(bytes.model(), name@) == s@ + spec_listing_from(bytes.model(),
                    ip as nat),
            decreases bytes.code_view().len() - ip,
        {
            let (line, next) = self.disassemble_op(bytes, ip);
            s.append(line.as_str());
            s.append("\n");
            proof {
                assert(s@ + spec_listing_from(bytes.model(), next as nat) =~= spec_disassembly(
                    bytes.model(), name@));
            }
            ip = next;
        }
        proof {
            assert(s@ + spec_listing_from(bytes.model(), ip as nat) =~= s@);
        }
        s
    }
}

} // verus!
