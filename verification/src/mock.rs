//! A processor that executes programs over whole data units held in one
//! local store, with the same field semantics as the shard processor; used
//! for single-node runs without distribution.

use vstd::prelude::*;

use crate::field::{add_vecs, gf_add_seq, nand_seq, nand_vecs, nor_seq, nor_vecs};
use crate::instructions::{BinaryOp, Instruction, Operation, Program, UnaryOp};
use crate::kv::KeyMap;
use crate::processor::{op_result, operands_present};
use crate::types::{copy_vec, Data, Vid};

verus! {

/// Executes programs directly over a map of whole data units.
pub struct MockProcessor {}

/// Why the mock processor failed.
#[derive(Debug, Clone, Copy, PartialEq, Eq, Structural)]
pub enum Error {
    /// No data with the requested identifier is stored.
    DataNotFound,
}

/// The local store of whole data units, keyed by data-unit handle.
pub type DataStorage = KeyMap<Data>;

/// Every stored data unit has the right size.
pub open spec fn storage_wf(m: Map<u64, Data>) -> bool {
    forall|k: u64| #[trigger] m.dom().contains(k) ==> m[k].wf()
}

/// The store as a map of byte sequences.
pub open spec fn storage_model(m: Map<u64, Data>) -> Map<u64, Seq<u8>> {
    Map::new(|k: u64| m.dom().contains(k), |k: u64| m[k]@)
}

/// Runs a program over the store, stopping at the first instruction whose
/// operand is missing; the flag records whether every instruction ran.
pub open spec fn mock_run(ctx: Map<u64, Seq<u8>>, prog: Seq<Instruction<Vid, Vid>>) -> (
    Map<u64, Seq<u8>>,
    bool,
)
    decreases prog.len(),
{
    if prog.len() == 0 {
        (ctx, true)
    } else if !operands_present(prog[0].operation, ctx) {
        (ctx, false)
    } else {
        mock_run(
            ctx.insert(prog[0].result.0, op_result(prog[0].operation, ctx)),
            prog.subrange(1, prog.len() as int),
        )
    }
}

impl MockProcessor {
    /// Computes one operation over whole data units, elementwise in GF(2^8),
    /// with the same semantics as the shard processor.
    pub fn calculate(operation: &Operation<Data>) -> (r: Data)
        requires
            match *operation {
                Operation::Sub(b) => b.first@.len() == b.second@.len(),
                Operation::Plus(b) => b.first@.len() == b.second@.len(),
                Operation::Inv(_) => true,
                Operation::Nand(b) => b.first@.len() == b.second@.len(),
                Operation::Nor(b) => b.first@.len() == b.second@.len(),
            },
        ensures
            match *operation {
                Operation::Sub(b) => r@ == gf_add_seq(b.first@, b.second@),
                Operation::Plus(b) => r@ == gf_add_seq(b.first@, b.second@),
                Operation::Inv(u) => r@ == u.operand@,
                Operation::Nand(b) => r@ == nand_seq(b.first@, b.second@),
                Operation::Nor(b) => r@ == nor_seq(b.first@, b.second@),
            },
    {
        let array = match operation {
            Operation::Sub(operation) => add_vecs(
                operation.first.as_inner(),
                operation.second.as_inner(),
            ),
            Operation::Plus(operation) => add_vecs(
                operation.first.as_inner(),
                operation.second.as_inner(),
            ),
            // inverses in GF(2^8) are the values themselves: the arithmetic
            // is on polynomials over GF(2), where adding any coefficient to
            // itself gives 0
            Operation::Inv(operation) => copy_vec(operation.operand.as_inner()),
            Operation::Nand(operation) => nand_vecs(
                operation.first.as_inner(),
                operation.second.as_inner(),
            ),
            Operation::Nor(operation) => nor_vecs(
                operation.first.as_inner(),
                operation.second.as_inner(),
            ),
        };
        Data(array)
    }

    /// The data unit stored for `operand`.
    pub fn retrieve_operand(operand: Vid, data_storage: &DataStorage) -> (r: Result<
        Data,
        Error,
    >)
        requires
            data_storage.wf(),
        ensures
            match r {
                Ok(d) => storage_model(data_storage@).contains_key(operand.0) && d@
                    == storage_model(data_storage@)[operand.0],
                Err(e) => !storage_model(data_storage@).contains_key(operand.0) && e
                    == Error::DataNotFound,
            },
    {
        match data_storage.get(operand.0) {
            Some(d) => Ok(d.duplicate()),
            None => Err(Error::DataNotFound),
        }
    }

    /// Both operand units of a binary operation.
    pub fn retrieve_binary(binary: BinaryOp<Vid>, data_storage: &DataStorage) -> (r: Result<
        BinaryOp<Data>,
        Error,
    >)
        requires
            data_storage.wf(),
        ensures
            match r {
                Ok(b) => {
                    &&& storage_model(data_storage@).contains_key(binary.first.0)
                    &&& storage_model(data_storage@).contains_key(binary.second.0)
                    &&& b.first@ == storage_model(data_storage@)[binary.first.0]
                    &&& b.second@ == storage_model(data_storage@)[binary.second.0]
                },
                Err(e) => (!storage_model(data_storage@).contains_key(binary.first.0)
                    || !storage_model(data_storage@).contains_key(binary.second.0)) && e
                    == Error::DataNotFound,
            },
    {
        let first = Self::retrieve_operand(binary.first, data_storage)?;
        let second = Self::retrieve_operand(binary.second, data_storage)?;
        Ok(BinaryOp { first, second })
    }

    /// The operand unit of a unary operation.
    pub fn retrieve_unary(unary: UnaryOp<Vid>, data_storage: &DataStorage) -> (r: Result<
        UnaryOp<Data>,
        Error,
    >)
        requires
            data_storage.wf(),
        ensures
            match r {
                Ok(u) => storage_model(data_storage@).contains_key(unary.operand.0)
                    && u.operand@ == storage_model(data_storage@)[unary.operand.0],
                Err(e) => !storage_model(data_storage@).contains_key(unary.operand.0) && e
                    == Error::DataNotFound,
            },
    {
        let operand = Self::retrieve_operand(unary.operand, data_storage)?;
        Ok(UnaryOp { operand })
    }

    /// Replaces every operand identifier by its data unit from the store;
    /// fails exactly when some operand is missing.
    pub fn retrieve_operands(op: &Operation<Vid>, data_storage: &DataStorage) -> (r: Result<
        Operation<Data>,
        Error,
    >)
        requires
            data_storage.wf(),
        ensures
            r is Ok <==> operands_present(*op, storage_model(data_storage@)),
            match r {
                Ok(ops) => match (*op, ops) {
                    (Operation::Sub(bv), Operation::Sub(bs)) => bs.first@ == storage_model(
                        data_storage@,
                    )[bv.first.0] && bs.second@ == storage_model(data_storage@)[bv.second.0],
                    (Operation::Plus(bv), Operation::Plus(bs)) => bs.first@ == storage_model(
                        data_storage@,
                    )[bv.first.0] && bs.second@ == storage_model(data_storage@)[bv.second.0],
                    (Operation::Inv(uv), Operation::Inv(us)) => us.operand@ == storage_model(
                        data_storage@,
                    )[uv.operand.0],
                    (Operation::Nand(bv), Operation::Nand(bs)) => bs.first@ == storage_model(
                        data_storage@,
                    )[bv.first.0] && bs.second@ == storage_model(data_storage@)[bv.second.0],
                    (Operation::Nor(bv), Operation::Nor(bs)) => bs.first@ == storage_model(
                        data_storage@,
                    )[bv.first.0] && bs.second@ == storage_model(data_storage@)[bv.second.0],
                    _ => false,
                },
                Err(e) => e == Error::DataNotFound,
            },
    {
        match op {
            Operation::Sub(binary) => match Self::retrieve_binary(
                BinaryOp { first: binary.first, second: binary.second },
                data_storage,
            ) {
                Ok(b) => Ok(Operation::Sub(b)),
                Err(e) => Err(e),
            },
            Operation::Plus(binary) => match Self::retrieve_binary(
                BinaryOp { first: binary.first, second: binary.second },
                data_storage,
            ) {
                Ok(b) => Ok(Operation::Plus(b)),
                Err(e) => Err(e),
            },
            Operation::Inv(unary) => match Self::retrieve_unary(
                UnaryOp { operand: unary.operand },
                data_storage,
            ) {
                Ok(u) => Ok(Operation::Inv(u)),
                Err(e) => Err(e),
            },
            Operation::Nand(binary) => match Self::retrieve_binary(
                BinaryOp { first: binary.first, second: binary.second },
                data_storage,
            ) {
                Ok(b) => Ok(Operation::Nand(b)),
                Err(e) => Err(e),
            },
            Operation::Nor(binary) => match Self::retrieve_binary(
                BinaryOp { first: binary.first, second: binary.second },
                data_storage,
            ) {
                Ok(b) => Ok(Operation::Nor(b)),
                Err(e) => Err(e),
            },
        }
    }

    /// Runs the program over the store: each instruction reads its operands
    /// from the store, stores its result there, and the first missing
    /// operand stops execution.
    pub fn execute_on(program: Program, data_storage: &mut DataStorage) -> (r: Result<
        (),
        Error,
    >)
        requires
            old(data_storage).wf(),
            storage_wf(old(data_storage)@),
        ensures
            final(data_storage).wf(),
            storage_wf(final(data_storage)@),
            storage_model(final(data_storage)@) == mock_run(
                storage_model(old(data_storage)@),
                program.instructions@,
            ).0,
            (r is Ok) == mock_run(
                storage_model(old(data_storage)@),
                program.instructions@,
            ).1,
            r matches Err(e) ==> e == Error::DataNotFound,
    {
        let ghost ctx0 = storage_model(old(data_storage)@);
        let ghost prog = program.instructions@;
        let instructions = program.instructions;
        let mut i: usize = 0;
        proof {
            assert(prog.subrange(0, prog.len() as int) =~= prog);
        }
        while i < instructions.len()
            invariant
                data_storage.wf(),
                storage_wf(data_storage@),
                i <= prog.len(),
                instructions@ == prog,
                ctx0 == storage_model(old(data_storage)@),
                prog == program.instructions@,
                mock_run(ctx0, prog) == mock_run(
                    storage_model(data_storage@),
                    prog.subrange(i as int, prog.len() as int),
                ),
            decreases prog.len() - i,
        {
            let ghost suffix = prog.subrange(i as int, prog.len() as int);
            let instruction = &instructions[i];
            let ghost pre = storage_model(data_storage@);
            proof {
                assert(suffix[0] == prog[i as int]);
            }
            let operation = match Self::retrieve_operands(&instruction.operation, data_storage) {
                Ok(o) => o,
                Err(e) => {
                    proof {
                        assert(mock_run(pre, suffix) == (pre, false));
                    }
                    return Err(e);
                },
            };
            proof {
                lemma_mock_operands_wf(instruction.operation, data_storage@, operation);
            }
            let result_value = Self::calculate(&operation);
            proof {
                assert(result_value@ == op_result(instruction.operation, pre));
            }
            data_storage.insert(instruction.result.0, result_value);
            proof {
                assert(storage_model(data_storage@) =~= pre.insert(
                    prog[i as int].result.0,
                    op_result(prog[i as int].operation, pre),
                ));
                assert(suffix.subrange(1, suffix.len() as int) =~= prog.subrange(
                    i + 1 as int,
                    prog.len() as int,
                ));
            }
            i = i + 1;
        }
        proof {
            assert(prog.subrange(prog.len() as int, prog.len() as int)
                =~= Seq::<Instruction<Vid, Vid>>::empty());
        }
        Ok(())
    }
}

/// Data units retrieved from a well-formed store have the data size, so a
/// binary operation's operands are equally long.
proof fn lemma_mock_operands_wf(op: Operation<Vid>, m: Map<u64, Data>, ops: Operation<Data>)
    requires
        storage_wf(m),
        operands_present(op, storage_model(m)),
        match (op, ops) {
            (Operation::Sub(bv), Operation::Sub(bs)) => bs.first@ == storage_model(
                m,
            )[bv.first.0] && bs.second@ == storage_model(m)[bv.second.0],
            (Operation::Plus(bv), Operation::Plus(bs)) => bs.first@ == storage_model(
                m,
            )[bv.first.0] && bs.second@ == storage_model(m)[bv.second.0],
            (Operation::Inv(uv), Operation::Inv(us)) => us.operand@ == storage_model(
                m,
            )[uv.operand.0],
            (Operation::Nand(bv), Operation::Nand(bs)) => bs.first@ == storage_model(
                m,
            )[bv.first.0] && bs.second@ == storage_model(m)[bv.second.0],
            (Operation::Nor(bv), Operation::Nor(bs)) => bs.first@ == storage_model(
                m,
            )[bv.first.0] && bs.second@ == storage_model(m)[bv.second.0],
            _ => false,
        },
    ensures
        match ops {
            Operation::Sub(b) => b.first@.len() == b.second@.len(),
            Operation::Plus(b) => b.first@.len() == b.second@.len(),
            Operation::Inv(_) => true,
            Operation::Nand(b) => b.first@.len() == b.second@.len(),
            Operation::Nor(b) => b.first@.len() == b.second@.len(),
        },
{
}

} // verus!
