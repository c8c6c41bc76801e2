//! The chunk encoding: an append-only instruction stream, a constant pool of
//! at most 256 values addressed by a one-byte index, and a run-length-encoded
//! table mapping each instruction position to its source line.
use vstd::prelude::*;

use crate::value::Value;

verus! {

/// One unit of the instruction stream. `Constant` must be followed immediately
/// by a `ConstantIndex` operand naming a slot of the constant pool; every
/// other variant stands alone.
#[derive(Debug, Clone, Copy, PartialEq, Eq, Structural)]
pub enum Op {
    Constant,
    ConstantIndex(u8),
    Return,
    Nil,
    Negate,
    Add,
    Subtract,
    Multiply,
    Divide,
}

/// How a chunk operation can fail: the constant pool is full, the operand
/// after a `Constant` instruction is missing or is not an index, or the index
/// names no slot of the pool.
#[derive(Debug, Clone, Copy, PartialEq, Eq, Structural)]
pub enum ChunkError {
    PoolExhausted,
    MissingOperand,
    BadConstantIndex,
}

/// The abstract content of a chunk: the instruction stream, the constant
/// pool, and the line table with its compression undone.
pub ghost struct ChunkModel {
    pub code: Seq<Op>,
    pub consts: Seq<Value>,
    pub flat: Seq<usize>,
    pub count: nat,
    pub capacity: nat,
}

/// A line table is stored as (line, run_length) pairs, flattened into one
/// vector: even slots hold lines, odd slots hold run lengths.
pub open spec fn rle_wf(lines: Seq<usize>) -> bool {
    &&& lines.len() % 2 == 0
    &&& forall|i: int| 0 <= i < lines.len() && i % 2 == 1 ==> #[trigger] lines[i] >= 1
}

/// Undoes the run-length encoding: each (line, run_length) pair becomes
/// `run_length` copies of `line`.
pub open spec fn rle_expand(lines: Seq<usize>) -> Seq<usize>
    decreases lines.len(),
{
    if lines.len() < 2 {
        Seq::empty()
    } else {
        Seq::new(lines[1] as nat, |i: int| lines[0]) + rle_expand(lines.skip(2))
    }
}

/// Expansion splits at any run boundary.
proof fn lemma_rle_split(lines: Seq<usize>, i: int)
    requires
        0 <= i <= lines.len(),
        i % 2 == 0,
    ensures
        rle_expand(lines) == rle_expand(lines.take(i)) + rle_expand(lines.skip(i)),
    decreases i,
{
    if i == 0 {
        assert(lines.take(0) =~= Seq::<usize>::empty());
        assert(lines.skip(0) =~= lines);
        assert(rle_expand(lines.take(0)) + rle_expand(lines.skip(0)) =~= rle_expand(lines));
    } else {
        let rest = lines.skip(2);
        lemma_rle_split(rest, i - 2);
        assert(rest.take(i - 2) =~= lines.take(i).skip(2));
        assert(rest.skip(i - 2) =~= lines.skip(i));
        assert(lines.take(i).len() >= 2);
        assert(lines.take(i)[0] == lines[0]);
        assert(lines.take(i)[1] == lines[1]);
        assert(rle_expand(lines) =~= rle_expand(lines.take(i)) + rle_expand(lines.skip(i)));
    }
}

/// Reading the expansion inside a single run.
proof fn lemma_rle_first_run(lines: Seq<usize>, k: int)
    requires
        lines.len() >= 2,
        0 <= k < lines[1],
    ensures
        rle_expand(lines).len() >= lines[1],
        rle_expand(lines)[k] == lines[0],
{
}

/// What the line lookup returns: the line recorded for the given instruction
/// offset, or 0 when the offset lies past what was recorded.
pub open spec fn spec_get_line(flat: Seq<usize>, offset: int) -> usize {
    if 0 <= offset < flat.len() {
        flat[offset]
    } else {
        0
    }
}

/// A self-contained unit of compiled code: instruction stream, constant pool
/// and line table, built append-only and read back during execution.
#[derive(Debug, Clone)]
pub struct Chunk {
    pub code: Vec<Op>,
    pub count: usize,
    pub capacity: usize,
    pub lines: Vec<usize>,
    pub constants: Vec<Value>,
}

/// Access to the constant pool: appending a value yields its index operand,
/// and the operand following a `Constant` instruction resolves to its value.
pub trait ConstantTrait {
    /// The abstract content this implementation encodes.
    spec fn const_model(&self) -> ChunkModel;

    /// The representation invariant this implementation maintains.
    spec fn const_inv(&self) -> bool;

    fn add_constant(&mut self, value: Value) -> (r: Result<Op, ChunkError>)
        requires
            old(self).const_inv(),
        ensures
            final(self).const_inv(),
            old(self).const_model().consts.len() < 256 ==> {
                &&& r == Ok::<Op, ChunkError>(Op::ConstantIndex(
                    old(self).const_model().consts.len() as u8))
                &&& final(self).const_model() == (ChunkModel {
                    consts: old(self).const_model().consts.push(value),
                    ..old(self).const_model()
                })
            },
            old(self).const_model().consts.len() >= 256 ==> {
                &&& r == Err::<Op, ChunkError>(ChunkError::PoolExhausted)
                &&& final(self).const_model() == old(self).const_model()
            },
    ;

    fn get_constant(&self, offset: usize) -> (r: Result<(u8, Value), ChunkError>)
        requires
            self.const_inv(),
        ensures
            r == spec_get_constant(self.const_model().code, self.const_model().consts,
                offset as int),
    ;
}

/// What resolving the operand after a `Constant` instruction yields.
pub open spec fn spec_get_constant(code: Seq<Op>, consts: Seq<Value>, offset: int) -> Result<
    (u8, Value),
    ChunkError,
> {
    if 0 <= offset && offset + 1 < code.len() && code[offset + 1] is ConstantIndex {
        let idx = code[offset + 1]->ConstantIndex_0;
        if idx < consts.len() {
            Ok((idx, consts[idx as int]))
        } else {
            Err(ChunkError::BadConstantIndex)
        }
    } else {
        Err(ChunkError::MissingOperand)
    }
}

/// Access to the line table: recording the source line of the next
/// instruction position, and looking the line of a position back up.
pub trait LineTrait {
    /// The abstract content this implementation encodes.
    spec fn line_model(&self) -> ChunkModel;

    /// The representation invariant this implementation maintains.
    spec fn line_inv(&self) -> bool;

    fn add_line(&mut self, ln: usize)
        requires
            old(self).line_inv(),
            old(self).line_model().flat.len() < usize::MAX,
        ensures
            final(self).line_inv(),
            final(self).line_model() == (ChunkModel {
                flat: old(self).line_model().flat.push(ln),
                ..old(self).line_model()
            }),
    ;

    fn get_line(&self, offset: usize) -> (r: usize)
        requires
            self.line_inv(),
        ensures
            r == spec_get_line(self.line_model().flat, offset as int),
    ;
}

impl Chunk {
    /// The abstract content of this chunk.
    pub open spec fn model(&self) -> ChunkModel {
        ChunkModel {
            code: self.code_view(),
            consts: self.consts_view(),
            flat: self.flat_lines(),
            count: self.count as nat,
            capacity: self.capacity as nat,
        }
    }

    /// The instruction stream as a sequence.
    pub open spec fn code_view(&self) -> Seq<Op> {
        self.code@
    }

    /// The constant pool as a sequence.
    pub open spec fn consts_view(&self) -> Seq<Value> {
        self.constants@
    }

    /// The line table with its compression undone: one line per recorded
    /// instruction position.
    pub open spec fn flat_lines(&self) -> Seq<usize> {
        rle_expand(self.lines@)
    }

    /// The representation invariant: the count mirrors the stream length, the
    /// capacity never falls behind it, the line table is a well-formed run
    /// sequence whose expansion fits an address space, and the pool respects
    /// its one-byte index space.
    pub open spec fn wf(&self) -> bool {
        &&& self.count == self.code@.len()
        &&& self.capacity >= self.count
        &&& rle_wf(self.lines@)
        &&& rle_expand(self.lines@).len() <= usize::MAX
        &&& self.constants@.len() <= 256
    }

    /// An empty chunk.
    pub fn new() -> (c: Chunk)
        ensures
            c.wf(),
            c.code_view() == Seq::<Op>::empty(),
            c.consts_view() == Seq::<Value>::empty(),
            c.flat_lines() == Seq::<usize>::empty(),
            c.count == 0,
            c.capacity == 0,
    {
        let c = Chunk {
            code: Vec::new(),
            constants: Vec::new(),
            lines: Vec::new(),
            count: 0,
            capacity: 0,
        };
        proof {
            assert(c.flat_lines() =~= Seq::<usize>::empty());
        }
        c
    }

    /// Drops the instruction stream, the constant pool and the line table,
    /// returning the chunk to its freshly built state for reuse.
    pub fn clear(&mut self)
        ensures
            final(self).wf(),
            final(self).code_view() == Seq::<Op>::empty(),
            final(self).consts_view() == Seq::<Value>::empty(),
            final(self).flat_lines() == Seq::<usize>::empty(),
            final(self).count == 0,
            final(self).capacity == 0,
    {
        self.code = Vec::new();
        self.constants = Vec::new();
        self.lines = Vec::new();
        self.count = 0;
        self.capacity = 0;
        proof {
            assert(self.flat_lines() =~= Seq::<usize>::empty());
        }
    }

    /// Records `ln` as the source line of the next instruction position: the
    /// last run grows by one when the line repeats, else a new run opens.
    fn push_line(&mut self, ln: usize)
        requires
            rle_wf(old(self).lines@),
            rle_expand(old(self).lines@).len() < usize::MAX,
        ensures
            rle_wf(final(self).lines@),
            final(self).flat_lines() == old(self).flat_lines().push(ln),
            final(self).code@ == old(self).code@,
            final(self).constants@ == old(self).constants@,
            final(self).count == old(self).count,
            final(self).capacity == old(self).capacity,
    {
        let len = self.lines.len();
        if len == 0 {
            self.lines.push(ln);
            self.lines.push(1);
            proof {
                let l2 = self.lines@;
                assert(l2.len() == 2);
                assert(l2[0] == ln);
                assert(l2[1] == 1);
                assert(l2.skip(2) =~= Seq::<usize>::empty());
                assert(rle_expand(l2.skip(2)) =~= Seq::<usize>::empty());
                assert(rle_expand(l2) =~= Seq::new(1, |i: int| ln) + rle_expand(l2.skip(2)));
                assert(old(self).lines@.len() == 0);
                assert(old(self).flat_lines() =~= Seq::<usize>::empty());
                assert(self.flat_lines() =~= old(self).flat_lines().push(ln));
            }
        } else {
            let last_ln = self.lines[len - 2];
            if ln == last_ln {
                proof {
                    lemma_rle_split(self.lines@, len - 2 as int);
                }
                let run = self.lines.pop().unwrap();
                proof {
                    assert(self.lines@ =~= old(self).lines@.take(len - 1 as int));
                    assert(old(self).lines@.skip(len - 2 as int) =~= seq![last_ln, run]);
                    lemma_rle_first_run(old(self).lines@.skip(len - 2 as int), 0);
                    assert(rle_expand(old(self).lines@).len() >= run);
                }
                self.lines.push(run + 1);
                proof {
                    let tk = old(self).lines@.take(len - 2 as int);
                    let oldpair = seq![last_ln, run];
                    let newpair = seq![last_ln, (run + 1) as usize];
                    lemma_rle_split(self.lines@, len - 2 as int);
                    assert(self.lines@.take(len - 2 as int) =~= tk);
                    assert(self.lines@.skip(len - 2 as int) =~= newpair);
                    assert(oldpair.skip(2) =~= Seq::<usize>::empty());
                    assert(newpair.skip(2) =~= Seq::<usize>::empty());
                    assert(rle_expand(oldpair.skip(2)) =~= Seq::<usize>::empty());
                    assert(rle_expand(newpair.skip(2)) =~= Seq::<usize>::empty());
                    assert(rle_expand(oldpair) =~= Seq::new(run as nat, |i: int| last_ln));
                    assert(rle_expand(newpair) =~= Seq::new((run + 1) as nat, |i: int| last_ln));
                    assert(self.flat_lines() =~= rle_expand(tk) + Seq::new(
                        (run + 1) as nat,
                        |i: int| last_ln,
                    ));
                    assert(old(self).flat_lines() =~= rle_expand(tk) + Seq::new(
                        run as nat,
                        |i: int| last_ln,
                    ));
                    assert(self.flat_lines() =~= old(self).flat_lines().push(ln));
                }
            } else {
                self.lines.push(ln);
                self.lines.push(1);
                proof {
                    lemma_rle_split(self.lines@, len as int);
                    assert(self.lines@.take(len as int) =~= old(self).lines@);
                    assert(self.lines@.skip(len as int) =~= seq![ln, 1usize]);
                    assert(seq![ln, 1usize].skip(2) =~= Seq::<usize>::empty());
                    assert(rle_expand(seq![ln, 1usize].skip(2)) =~= Seq::<usize>::empty());
                    assert(rle_expand(seq![ln, 1usize]) =~= Seq::new(1, |i: int| ln));
                    assert(self.flat_lines() =~= old(self).flat_lines().push(ln));
                }
            }
        }
    }

    /// Appends one instruction and records its source line in one step,
    /// growing the capacity hint amortized (doubling, first allocation 8).
    pub fn write(&mut self, byte: Op, line: usize)
        requires
            old(self).wf(),
            old(self).code_view().len() < usize::MAX,
            old(self).flat_lines().len() < usize::MAX,
        ensures
            final(self).wf(),
            final(self).code_view() == old(self).code_view().push(byte),
            final(self).flat_lines() == old(self).flat_lines().push(line),
            final(self).consts_view() == old(self).consts_view(),
            final(self).count == old(self).count + 1,
    {
        if self.capacity < self.count + 1 {
            self.capacity = if self.capacity < 8 {
                8
            } else if self.capacity <= usize::MAX / 2 {
                self.capacity * 2
            } else {
                usize::MAX
            };
        }
        self.code.push(byte);
        self.push_line(line);
        self.count = self.count + 1;
    }
}

impl ConstantTrait for Chunk {
    open spec fn const_model(&self) -> ChunkModel {
        self.model()
    }

    open spec fn const_inv(&self) -> bool {
        self.wf()
    }

    /// Appends a value to the constant pool and returns its index as an
    /// operand, or reports exhaustion once the pool holds 256 entries.
    fn add_constant(&mut self, value: Value) -> (r: Result<Op, ChunkError>) {
        if self.constants.len() >= 256 {
            Err(ChunkError::PoolExhausted)
        } else {
            let idx = self.constants.len() as u8;
            self.constants.push(value);
            Ok(Op::ConstantIndex(idx))
        }
    }

    /// Reads the index operand following the `Constant` instruction at
    /// `offset` and resolves it against the pool.
    fn get_constant(&self, offset: usize) -> (r: Result<(u8, Value), ChunkError>) {
        if offset >= usize::MAX - 1 || offset + 1 >= self.code.len() {
            return Err(ChunkError::MissingOperand);
        }
        match self.code[offset + 1] {
            Op::ConstantIndex(idx) => {
                if (idx as usize) < self.constants.len() {
                    Ok((idx, self.constants[idx as usize]))
                } else {
                    Err(ChunkError::BadConstantIndex)
                }
            },
            _ => Err(ChunkError::MissingOperand),
        }
    }
}

impl LineTrait for Chunk {
    open spec fn line_model(&self) -> ChunkModel {
        self.model()
    }

    open spec fn line_inv(&self) -> bool {
        self.wf()
    }

    /// Records the source line of the next instruction position.
    fn add_line(&mut self, ln: usize) {
        self.push_line(ln);
    }

    /// Walks the runs of the line table, accumulating run lengths until the
    /// queried offset falls inside one, and returns that run's line.
    fn get_line(&self, offset: usize) -> (r: usize) {
        let ghost flat = self.flat_lines();
        let len = self.lines.len();
        let mut i: usize = 0;
        let mut total_op: usize = 0;
        while i < len
            invariant
                self.wf(),
                flat == self.flat_lines(),
                len == self.lines@.len(),
                i % 2 == 0,
                i <= len,
                total_op == rle_expand(self.lines@.take(i as int)).len(),
                total_op <= offset,
            decreases len - i,
        {
            proof {
                lemma_rle_split(self.lines@, i as int);
                assert(self.lines@.skip(i as int).len() >= 2);
                assert(self.lines@.skip(i as int)[0] == self.lines@[i as int]);
                assert(self.lines@.skip(i as int)[1] == self.lines@[i as int + 1]);
                lemma_rle_first_run(self.lines@.skip(i as int), 0);
            }
            total_op = total_op + self.lines[i + 1];
            if total_op > offset {
                proof {
                    lemma_rle_first_run(
                        self.lines@.skip(i as int),
                        offset - rle_expand(self.lines@.take(i as int)).len(),
                    );
                }
                return self.lines[i];
            }
            proof {
                lemma_rle_split(self.lines@.skip(i as int), 2);
                assert(self.lines@.skip(i as int).take(2) =~= seq![
                    self.lines@[i as int],
                    self.lines@[i as int + 1],
                ]);
                assert(seq![self.lines@[i as int], self.lines@[i as int + 1]].skip(2) =~= Seq::<
                    usize,
                >::empty());
                assert(self.lines@.skip(i as int).skip(2) =~= self.lines@.skip(i as int + 2));
                lemma_rle_split(self.lines@, i as int + 2);
                assert(self.lines@.take(i as int + 2).take(i as int) =~= self.lines@.take(
                    i as int));
                assert(self.lines@.take(i as int + 2).skip(i as int) =~= seq![
                    self.lines@[i as int],
                    self.lines@[i as int + 1],
                ]);
                lemma_rle_split(self.lines@.take(i as int + 2), i as int);
            }
            i = i + 2;
        }
        proof {
            assert(self.lines@.take(len as int) =~= self.lines@);
        }
        0
    }
}


/// The model of a chunk freshly built, before anything is written.
pub open spec fn empty_chunk_model() -> ChunkModel {
    ChunkModel {
        code: Seq::empty(),
        consts: Seq::empty(),
        flat: Seq::empty(),
        count: 0,
        capacity: 0,
    }
}

/// The model reached by writing a sequence of (instruction, line) pairs,
/// one `write` call per pair, into an empty chunk.
pub open spec fn chunk_after_writes(pairs: Seq<(Op, usize)>) -> ChunkModel
    decreases pairs.len(),
{
    if pairs.len() == 0 {
        empty_chunk_model()
    } else {
        let m = chunk_after_writes(pairs.drop_last());
        ChunkModel {
            code: m.code.push(pairs.last().0),
            flat: m.flat.push(pairs.last().1),
            count: m.count + 1,
            ..m
        }
    }
}

/// After any sequence of writes, one line stands recorded per instruction
/// written.
pub proof fn lemma_writes_record_all_lines(pairs: Seq<(Op, usize)>)
    ensures
        chunk_after_writes(pairs).flat.len() == pairs.len(),
        chunk_after_writes(pairs).code.len() == pairs.len(),
    decreases pairs.len(),
{
    if pairs.len() > 0 {
        lemma_writes_record_all_lines(pairs.drop_last());
    }
}

/// Line compression correctness: whatever sequence of (instruction, line)
/// pairs is written, the line recorded for every valid instruction offset is
/// exactly the line supplied when that offset was written, regardless of how
/// the run-length encoding grouped it.
pub proof fn lemma_line_compression(pairs: Seq<(Op, usize)>, i: int)
    requires
        0 <= i < pairs.len(),
    ensures
        spec_get_line(chunk_after_writes(pairs).flat, i) == pairs[i].1,
    decreases pairs.len(),
{
    lemma_writes_record_all_lines(pairs);
    if i == pairs.len() - 1 {
        lemma_writes_record_all_lines(pairs.drop_last());
    } else {
        lemma_line_compression(pairs.drop_last(), i);
        lemma_writes_record_all_lines(pairs.drop_last());
        assert(pairs.drop_last()[i] == pairs[i]);
    }
}

/// Round-trip: after adding a value to the pool of any chunk with room and
/// writing the `Constant` instruction followed by the index operand the pool
/// handed back, resolving the constant at the offset of that `Constant`
/// instruction returns exactly the index and the value supplied.
pub proof fn lemma_constant_round_trip(m: ChunkModel, v: Value)
    requires
        m.consts.len() < 256,
    ensures
        ({
            let idx = m.consts.len() as u8;
            let code2 = m.code.push(Op::Constant).push(Op::ConstantIndex(idx));
            let consts2 = m.consts.push(v);
            spec_get_constant(code2, consts2, m.code.len() as int) == Ok::<(u8, Value), ChunkError>(
                (idx, v),
            )
        }),
{
    let idx = m.consts.len() as u8;
    let code2 = m.code.push(Op::Constant).push(Op::ConstantIndex(idx));
    let consts2 = m.consts.push(v);
    assert(code2[m.code.len() as int + 1] == Op::ConstantIndex(idx));
    assert(consts2[idx as int] == v);
}

} // verus!
