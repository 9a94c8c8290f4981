//! The shard-level processor: executes one program at a time over a context
//! of operand shards, computing elementwise in GF(2^8).
//!
//! Operand shards are fetched from the local data memory before execution;
//! the fetches themselves are channel traffic outside the library, so the
//! execution core takes the fetched context as a plain value and is verified
//! for every value of it.

use vstd::prelude::*;

use crate::field::{
    add_vecs, gf_add_seq, nand_seq, nand_vecs, nor_seq, nor_vecs,
};
use crate::instructions::{operands_of, BinaryOp, Instruction, Operation, Program, ProgramIdentifier, UnaryOp};
use crate::kv::KeyMap;
use crate::types::{copy_vec, Shard, Vid};

verus! {

/// The processor as a subsystem.
pub struct Module;

impl crate::module::Module for Module {
    type InEvent = InEvent;

    type OutEvent = OutEvent;

    type SharedState = ModuleState;
}

/// What the processor reports.
#[derive(Debug, Clone)]
pub enum OutEvent {
    /// The program finished; one entry per instruction, then one per failed
    /// write-back.
    FinishedExecution { program_id: ProgramIdentifier, results: Vec<Result<Vid, Error>> },
}

/// What the processor is asked to do.
#[derive(Debug, Clone)]
pub enum InEvent {
    Execute(Program),
}

/// The processor's shared state: it accepts a program only while idle.
#[derive(PartialEq, Eq, Structural, Debug, Clone, Copy)]
pub enum ModuleState {
    Ready,
    Executing,
}

impl crate::module::State for ModuleState {
    open spec fn accepts_input_spec(&self) -> bool {
        match self {
            ModuleState::Ready => true,
            ModuleState::Executing => false,
        }
    }

    fn accepts_input(&self) -> (r: bool)
        ensures
            r == self.accepts_input_spec(),
    {
        match self {
            ModuleState::Ready => true,
            ModuleState::Executing => false,
        }
    }
}

/// Why an instruction or a memory access failed.
#[derive(Debug, Clone, Copy, PartialEq, Eq, Structural)]
pub enum Error {
    /// The channel to memory for data requests was closed.
    DataRequestChannelClosed,
    /// The channel to memory for data writes was closed.
    DataWriteChannelClosed,
    /// The channel carrying the memory response was closed.
    ResponseChannelClosed,
    /// The shard bytes could not be decoded.
    Encoding,
    /// This peer is not assigned a shard of some operand.
    NoShardsAssigned,
}

/// The operand shards fetched for one program, keyed by data-unit handle.
pub type ShardContext = KeyMap<Shard>;

/// Every shard of the context has the right size.
pub open spec fn context_wf(m: Map<u64, Shard>) -> bool {
    forall|k: u64| #[trigger] m.dom().contains(k) ==> m[k].wf()
}

/// The context as a map of byte sequences.
pub open spec fn ctx_model(m: Map<u64, Shard>) -> Map<u64, Seq<u8>> {
    Map::new(|k: u64| m.dom().contains(k), |k: u64| m[k]@)
}

/// All operands of `op` are present in the context.
pub open spec fn operands_present(op: Operation<Vid>, ctx: Map<u64, Seq<u8>>) -> bool {
    match op {
        Operation::Sub(b) => ctx.contains_key(b.first.0) && ctx.contains_key(b.second.0),
        Operation::Plus(b) => ctx.contains_key(b.first.0) && ctx.contains_key(b.second.0),
        Operation::Inv(u) => ctx.contains_key(u.operand.0),
        Operation::Nand(b) => ctx.contains_key(b.first.0) && ctx.contains_key(b.second.0),
        Operation::Nor(b) => ctx.contains_key(b.first.0) && ctx.contains_key(b.second.0),
    }
}

/// What `op` computes over the context, when all its operands are present.
pub open spec fn op_result(op: Operation<Vid>, ctx: Map<u64, Seq<u8>>) -> Seq<u8> {
    match op {
        Operation::Sub(b) => gf_add_seq(ctx[b.first.0], ctx[b.second.0]),
        Operation::Plus(b) => gf_add_seq(ctx[b.first.0], ctx[b.second.0]),
        Operation::Inv(u) => ctx[u.operand.0],
        Operation::Nand(b) => nand_seq(ctx[b.first.0], ctx[b.second.0]),
        Operation::Nor(b) => nor_seq(ctx[b.first.0], ctx[b.second.0]),
    }
}

/// One execution step: computes the instruction if its operands are present
/// and stores the result in the context; a miss leaves the context unchanged.
pub open spec fn exec_step(ctx: Map<u64, Seq<u8>>, ins: Instruction<Vid, Vid>) -> (
    Map<u64, Seq<u8>>,
    Option<Vid>,
) {
    if operands_present(ins.operation, ctx) {
        (ctx.insert(ins.result.0, op_result(ins.operation, ctx)), Some(ins.result))
    } else {
        (ctx, None)
    }
}

/// Runs a program over a context, step by step; `Some(v)` in the result list
/// records a computed instruction, `None` one whose operands were missing.
pub open spec fn run_program(ctx: Map<u64, Seq<u8>>, prog: Seq<Instruction<Vid, Vid>>) -> (
    Map<u64, Seq<u8>>,
    Seq<Option<Vid>>,
)
    decreases prog.len(),
{
    if prog.len() == 0 {
        (ctx, Seq::empty())
    } else {
        let (ctx1, res1) = run_program(ctx, prog.drop_last());
        let (ctx2, res2) = exec_step(ctx1, prog.last());
        (ctx2, res1.push(res2))
    }
}

/// The per-instruction outcomes, with the error dropped.
pub open spec fn results_model(rs: Seq<Result<Vid, Error>>) -> Seq<Option<Vid>> {
    rs.map_values(
        |r: Result<Vid, Error>|
            match r {
                Ok(v) => Some(v),
                Err(_) => None,
            },
    )
}

/// Executes one program at a time over shards held locally.
pub struct ShardProcessor {
    state: ModuleState,
}

impl ShardProcessor {
    /// The processor's shared state.
    pub closed spec fn state_spec(&self) -> ModuleState {
        self.state
    }

    /// Whether the processor accepts a new program.
    pub open spec fn accepts_input_spec(&self) -> bool {
        self.state_spec() is Ready
    }

    /// A fresh, idle processor.
    pub fn new() -> (r: Self)
        ensures
            r.accepts_input_spec(),
    {
        ShardProcessor { state: ModuleState::Ready }
    }

    /// Whether the processor accepts a new program.
    pub fn accepts_input(&self) -> (r: bool)
        ensures
            r == self.accepts_input_spec(),
    {
        match self.state {
            ModuleState::Ready => true,
            ModuleState::Executing => false,
        }
    }

    /// Takes a program in: from now until `finish_execution` the processor
    /// refuses further input.
    pub fn start_execution(&mut self)
        requires
            old(self).accepts_input_spec(),
        ensures
            !final(self).accepts_input_spec(),
    {
        self.state = ModuleState::Executing;
    }

    /// Reports the finished program and becomes ready for the next one.
    pub fn finish_execution(
        &mut self,
        program_id: ProgramIdentifier,
        results: Vec<Result<Vid, Error>>,
    ) -> (r: OutEvent)
        requires
            !old(self).accepts_input_spec(),
        ensures
            final(self).accepts_input_spec(),
            r matches OutEvent::FinishedExecution { program_id: p, results: rs } && p
                == program_id && rs@ == results@,
    {
        self.state = ModuleState::Ready;
        OutEvent::FinishedExecution { program_id, results }
    }

    /// The shard for `operand` out of the fetched context, if present there.
    pub fn retrieve_operand(operand: Vid, context: &ShardContext) -> (r: Option<Shard>)
        requires
            context.wf(),
        ensures
            match r {
                Some(s) => ctx_model(context@).contains_key(operand.0) && s@ == ctx_model(
                    context@,
                )[operand.0],
                None => !ctx_model(context@).contains_key(operand.0),
            },
    {
        match context.get(operand.0) {
            Some(s) => Some(s.duplicate()),
            None => None,
        }
    }

    /// Both operand shards of a binary operation, if present.
    pub fn retrieve_binary(binary: &BinaryOp<Vid>, context: &ShardContext) -> (r: Option<
        BinaryOp<Shard>,
    >)
        requires
            context.wf(),
        ensures
            match r {
                Some(b) => {
                    &&& ctx_model(context@).contains_key(binary.first.0)
                    &&& ctx_model(context@).contains_key(binary.second.0)
                    &&& b.first@ == ctx_model(context@)[binary.first.0]
                    &&& b.second@ == ctx_model(context@)[binary.second.0]
                },
                None => !ctx_model(context@).contains_key(binary.first.0) || !ctx_model(
                    context@,
                ).contains_key(binary.second.0),
            },
    {
        let first = match Self::retrieve_operand(binary.first, context) {
            Some(s) => s,
            None => {
                return None;
            },
        };
        let second = match Self::retrieve_operand(binary.second, context) {
            Some(s) => s,
            None => {
                return None;
            },
        };
        Some(BinaryOp { first, second })
    }

    /// The operand shard of a unary operation, if present.
    pub fn retrieve_unary(unary: &UnaryOp<Vid>, context: &ShardContext) -> (r: Option<
        UnaryOp<Shard>,
    >)
        requires
            context.wf(),
        ensures
            match r {
                Some(u) => ctx_model(context@).contains_key(unary.operand.0) && u.operand@
                    == ctx_model(context@)[unary.operand.0],
                None => !ctx_model(context@).contains_key(unary.operand.0),
            },
    {
        match Self::retrieve_operand(unary.operand, context) {
            Some(s) => Some(UnaryOp { operand: s }),
            None => None,
        }
    }

    /// Replaces every operand identifier by its shard from the context;
    /// fails exactly when some operand is not assigned locally.
    pub fn retrieve_operands(op: &Operation<Vid>, context: &ShardContext) -> (r: Result<
        Operation<Shard>,
        Error,
    >)
        requires
            context.wf(),
        ensures
            r is Ok <==> operands_present(*op, ctx_model(context@)),
            match r {
                Ok(ops) => match (*op, ops) {
                    (Operation::Sub(bv), Operation::Sub(bs)) => bs.first@ == ctx_model(
                        context@,
                    )[bv.first.0] && bs.second@ == ctx_model(context@)[bv.second.0],
                    (Operation::Plus(bv), Operation::Plus(bs)) => bs.first@ == ctx_model(
                        context@,
                    )[bv.first.0] && bs.second@ == ctx_model(context@)[bv.second.0],
                    (Operation::Inv(uv), Operation::Inv(us)) => us.operand@ == ctx_model(
                        context@,
                    )[uv.operand.0],
                    (Operation::Nand(bv), Operation::Nand(bs)) => bs.first@ == ctx_model(
                        context@,
                    )[bv.first.0] && bs.second@ == ctx_model(context@)[bv.second.0],
                    (Operation::Nor(bv), Operation::Nor(bs)) => bs.first@ == ctx_model(
                        context@,
                    )[bv.first.0] && bs.second@ == ctx_model(context@)[bv.second.0],
                    _ => false,
                },
                Err(e) => e == Error::NoShardsAssigned,
            },
    {
        match op {
            Operation::Sub(binary) => match Self::retrieve_binary(binary, context) {
                Some(b) => Ok(Operation::Sub(b)),
                None => Err(Error::NoShardsAssigned),
            },
            Operation::Plus(binary) => match Self::retrieve_binary(binary, context) {
                Some(b) => Ok(Operation::Plus(b)),
                None => Err(Error::NoShardsAssigned),
            },
            Operation::Inv(unary) => match Self::retrieve_unary(unary, context) {
                Some(u) => Ok(Operation::Inv(u)),
                None => Err(Error::NoShardsAssigned),
            },
            Operation::Nand(binary) => match Self::retrieve_binary(binary, context) {
                Some(b) => Ok(Operation::Nand(b)),
                None => Err(Error::NoShardsAssigned),
            },
            Operation::Nor(binary) => match Self::retrieve_binary(binary, context) {
                Some(b) => Ok(Operation::Nor(b)),
                None => Err(Error::NoShardsAssigned),
            },
        }
    }

    /// Computes one operation over its shards, elementwise in GF(2^8):
    /// addition and subtraction coincide (XOR), inversion is the identity,
    /// NAND and NOR read each byte by its zeroness.
    pub fn calculate(operation: &Operation<Shard>) -> (r: Shard)
        requires
            match *operation {
                Operation::Sub(b) => b.first@.len() == b.second@.len(),
                Operation::Plus(b) => b.first@.len() == b.second@.len(),
                Operation::Inv(_) => true,
                Operation::Nand(b) => b.first@.len() == b.second@.len(),
                Operation::Nor(b) => b.first@.len() == b.second@.len(),
            },
        ensures
            match *operation {
                Operation::Sub(b) => r@ == gf_add_seq(b.first@, b.second@),
                Operation::Plus(b) => r@ == gf_add_seq(b.first@, b.second@),
                Operation::Inv(u) => r@ == u.operand@,
                Operation::Nand(b) => r@ == nand_seq(b.first@, b.second@),
                Operation::Nor(b) => r@ == nor_seq(b.first@, b.second@),
            },
    {
        let array = match operation {
            Operation::Sub(operation) => add_vecs(
                operation.first.as_inner(),
                operation.second.as_inner(),
            ),
            Operation::Plus(operation) => add_vecs(
                operation.first.as_inner(),
                operation.second.as_inner(),
            ),
            // inverses in GF(2^8) are the values themselves: the arithmetic
            // is on polynomials over GF(2), where adding any coefficient to
            // itself gives 0
            Operation::Inv(operation) => copy_vec(operation.operand.as_inner()),
            Operation::Nand(operation) => nand_vecs(
                operation.first.as_inner(),
                operation.second.as_inner(),
            ),
            Operation::Nor(operation) => nor_vecs(
                operation.first.as_inner(),
                operation.second.as_inner(),
            ),
        };
        Shard(array)
    }

    /// The shard for `operand`, preferring the pre-fetched context and
    /// falling back to what the memory bus answered when asked afresh.
    pub fn resolve_operand(
        operand: Vid,
        context: &ShardContext,
        fetched: &Vec<(Vid, Option<Shard>)>,
    ) -> (r: Option<Shard>)
        requires
            context.wf(),
            context_wf(context@),
            fetched_wf(fetched@),
        ensures
            match r {
                Some(s) => {
                    &&& merged_ctx(ctx_model(context@), fetched@).contains_key(operand.0)
                    &&& s@ == merged_ctx(ctx_model(context@), fetched@)[operand.0]
                    &&& s.wf()
                },
                None => !merged_ctx(ctx_model(context@), fetched@).contains_key(operand.0),
            },
    {
        match context.get(operand.0) {
            Some(s) => {
                proof {
                    assert(ctx_model(context@).contains_key(operand.0));
                    assert(merged_ctx(ctx_model(context@), fetched@)[operand.0]
                        == ctx_model(context@)[operand.0]);
                }
                return Some(s.duplicate());
            },
            None => (),
        }
        proof {
            assert(fetched@.subrange(0, fetched@.len() as int) =~= fetched@);
        }
        let mut i: usize = 0;
        while i < fetched.len()
            invariant
                i <= fetched@.len(),
                fetched_wf(fetched@),
                context.wf(),
                context_wf(context@),
                !ctx_model(context@).contains_key(operand.0),
                fetch_lookup(fetched@, operand.0) == fetch_lookup(
                    fetched@.subrange(i as int, fetched@.len() as int),
                    operand.0,
                ),
            decreases fetched@.len() - i,
        {
            let ghost tail = fetched@.subrange(i as int, fetched@.len() as int);
            proof {
                assert(tail[0] == fetched@[i as int]);
                assert(tail.subrange(1, tail.len() as int) =~= fetched@.subrange(
                    i + 1,
                    fetched@.len() as int,
                ));
            }
            if fetched[i].0.0 == operand.0 {
                match &fetched[i].1 {
                    Some(s) => {
                        return Some(s.duplicate());
                    },
                    None => {
                        return None;
                    },
                }
            }
            i = i + 1;
        }
        proof {
            assert(fetched@.subrange(fetched@.len() as int, fetched@.len() as int).len()
                == 0);
        }
        None
    }

    /// Executes one instruction over the context, asking the memory bus
    /// afresh for operands the context lacks: the context is preferred, the
    /// fresh fetch results serve the rest, and the result joins the context
    /// under its identifier. Fails exactly when an operand is in neither.
    pub fn execute_instruction(
        context: &mut ShardContext,
        instruction: &Instruction<Vid, Vid>,
        fetched: &Vec<(Vid, Option<Shard>)>,
    ) -> (r: Result<Vid, Error>)
        requires
            old(context).wf(),
            context_wf(old(context)@),
            fetched_wf(fetched@),
        ensures
            final(context).wf(),
            context_wf(final(context)@),
            r is Ok <==> operands_present(
                instruction.operation,
                merged_ctx(ctx_model(old(context)@), fetched@),
            ),
            match r {
                Ok(v) => v == instruction.result && ctx_model(final(context)@) == ctx_model(
                    old(context)@,
                ).insert(
                    instruction.result.0,
                    op_result(
                        instruction.operation,
                        merged_ctx(ctx_model(old(context)@), fetched@),
                    ),
                ),
                Err(e) => e == Error::NoShardsAssigned && *final(context) == *old(context),
            },
    {
        let ghost merged = merged_ctx(ctx_model(old(context)@), fetched@);
        let operation: Operation<Shard> = match &instruction.operation {
            Operation::Sub(b) => {
                let first = match Self::resolve_operand(b.first, context, fetched) {
                    Some(s) => s,
                    None => {
                        return Err(Error::NoShardsAssigned);
                    },
                };
                let second = match Self::resolve_operand(b.second, context, fetched) {
                    Some(s) => s,
                    None => {
                        return Err(Error::NoShardsAssigned);
                    },
                };
                Operation::Sub(BinaryOp { first, second })
            },
            Operation::Plus(b) => {
                let first = match Self::resolve_operand(b.first, context, fetched) {
                    Some(s) => s,
                    None => {
                        return Err(Error::NoShardsAssigned);
                    },
                };
                let second = match Self::resolve_operand(b.second, context, fetched) {
                    Some(s) => s,
                    None => {
                        return Err(Error::NoShardsAssigned);
                    },
                };
                Operation::Plus(BinaryOp { first, second })
            },
            Operation::Inv(u) => {
                let operand = match Self::resolve_operand(u.operand, context, fetched) {
                    Some(s) => s,
                    None => {
                        return Err(Error::NoShardsAssigned);
                    },
                };
                Operation::Inv(UnaryOp { operand })
            },
            Operation::Nand(b) => {
                let first = match Self::resolve_operand(b.first, context, fetched) {
                    Some(s) => s,
                    None => {
                        return Err(Error::NoShardsAssigned);
                    },
                };
                let second = match Self::resolve_operand(b.second, context, fetched) {
                    Some(s) => s,
                    None => {
                        return Err(Error::NoShardsAssigned);
                    },
                };
                Operation::Nand(BinaryOp { first, second })
            },
            Operation::Nor(b) => {
                let first = match Self::resolve_operand(b.first, context, fetched) {
                    Some(s) => s,
                    None => {
                        return Err(Error::NoShardsAssigned);
                    },
                };
                let second = match Self::resolve_operand(b.second, context, fetched) {
                    Some(s) => s,
                    None => {
                        return Err(Error::NoShardsAssigned);
                    },
                };
                Operation::Nor(BinaryOp { first, second })
            },
        };
        let output = Self::calculate(&operation);
        proof {
            assert(output@ == op_result(instruction.operation, merged));
        }
        context.insert(instruction.result.0, output);
        proof {
            assert(ctx_model(context@) =~= ctx_model(old(context)@).insert(
                instruction.result.0,
                op_result(instruction.operation, merged),
            ));
        }
        Ok(instruction.result)
    }

    /// Runs a program over the fetched context: instructions execute in
    /// order, results join the context under their identifier, and an
    /// instruction with a missing operand records an error and is skipped.
    /// Returns the per-instruction outcomes and the final context, whose
    /// entries are written back to memory afterwards. Callers that re-ask
    /// the memory bus for operands mid-program drive `execute_instruction`
    /// instead, one instruction at a time.
    pub fn execute(
        program: &Vec<Instruction<Vid, Vid>>,
        context: ShardContext,
    ) -> (r: (Vec<Result<Vid, Error>>, ShardContext))
        requires
            context.wf(),
            context_wf(context@),
        ensures
            r.1.wf(),
            context_wf(r.1@),
            ctx_model(r.1@) == run_program(ctx_model(context@), program@).0,
            results_model(r.0@) == run_program(ctx_model(context@), program@).1,
            forall|i: int|
                0 <= i < r.0@.len() ==> (#[trigger] r.0@[i] matches Err(e) ==> e
                    == Error::NoShardsAssigned),
            r.0@.len() == program@.len(),
    {
        let ghost ctx0 = ctx_model(context@);
        let mut context = context;
        let mut results: Vec<Result<Vid, Error>> = Vec::new();
        let mut i: usize = 0;
        proof {
            assert(program@.subrange(0, 0) =~= Seq::<Instruction<Vid, Vid>>::empty());
        }
        while i < program.len()
            invariant
                context.wf(),
                context_wf(context@),
                i <= program@.len(),
                results@.len() == i,
                ctx_model(context@) == run_program(ctx0, program@.subrange(0, i as int)).0,
                results_model(results@) == run_program(
                    ctx0,
                    program@.subrange(0, i as int),
                ).1,
                forall|j: int|
                    0 <= j < results@.len() ==> (#[trigger] results@[j] matches Err(e) ==> e
                        == Error::NoShardsAssigned),
            decreases program@.len() - i,
        {
            let instruction = &program[i];
            let ghost pre_ctx = ctx_model(context@);
            let ghost pre_results = results_model(results@);
            match Self::retrieve_operands(&instruction.operation, &context) {
                Ok(operation) => {
                    proof {
                        lemma_operands_wf(
                            instruction.operation,
                            context@,
                            operation,
                        );
                    }
                    let output = Self::calculate(&operation);
                    proof {
                        assert(output@ == op_result(instruction.operation, pre_ctx));
                    }
                    context.insert(instruction.result.0, output);
                    results.push(Ok(instruction.result));
                    proof {
                        assert(ctx_model(context@) =~= pre_ctx.insert(
                            instruction.result.0,
                            op_result(instruction.operation, pre_ctx),
                        ));
                    }
                },
                Err(e) => {
                    results.push(Err(e));
                },
            }
            proof {
                assert(program@.subrange(0, i + 1 as int).drop_last() =~= program@.subrange(
                    0,
                    i as int,
                ));
                assert(program@.subrange(0, i + 1 as int).last() == program@[i as int]);
                assert(results_model(results@) =~= pre_results.push(
                    exec_step(pre_ctx, program@[i as int]).1,
                ));
            }
            i = i + 1;
        }
        proof {
            assert(program@.subrange(0, program@.len() as int) =~= program@);
        }
        (results, context)
    }
}

/// What the memory bus answered for `v` in a batch of fresh fetch results:
/// the first entry for the handle decides.
pub open spec fn fetch_lookup(fetched: Seq<(Vid, Option<Shard>)>, v: u64) -> Option<Seq<u8>>
    decreases fetched.len(),
{
    if fetched.len() == 0 {
        None
    } else if fetched[0].0.0 == v {
        match fetched[0].1 {
            Some(s) => Some(s@),
            None => None,
        }
    } else {
        fetch_lookup(fetched.subrange(1, fetched.len() as int), v)
    }
}

/// The context with fresh fetch results filling its holes: the context is
/// preferred, the bus serves the rest.
pub open spec fn merged_ctx(ctx: Map<u64, Seq<u8>>, fetched: Seq<(Vid, Option<Shard>)>) -> Map<
    u64,
    Seq<u8>,
> {
    Map::new(
        |k: u64| ctx.contains_key(k) || fetch_lookup(fetched, k) is Some,
        |k: u64|
            if ctx.contains_key(k) {
                ctx[k]
            } else {
                fetch_lookup(fetched, k)->0
            },
    )
}

/// Every fetched shard has the right size.
pub open spec fn fetched_wf(fetched: Seq<(Vid, Option<Shard>)>) -> bool {
    forall|i: int|
        0 <= i < fetched.len() ==> (#[trigger] fetched[i].1 matches Some(s) ==> s.wf())
}

/// Shards retrieved from a well-formed context have the shard size, so a
/// binary operation's operands are equally long.
proof fn lemma_operands_wf(op: Operation<Vid>, m: Map<u64, Shard>, ops: Operation<Shard>)
    requires
        context_wf(m),
        operands_present(op, ctx_model(m)),
        match (op, ops) {
            (Operation::Sub(bv), Operation::Sub(bs)) => bs.first@ == ctx_model(m)[bv.first.0]
                && bs.second@ == ctx_model(m)[bv.second.0],
            (Operation::Plus(bv), Operation::Plus(bs)) => bs.first@ == ctx_model(
                m,
            )[bv.first.0] && bs.second@ == ctx_model(m)[bv.second.0],
            (Operation::Inv(uv), Operation::Inv(us)) => us.operand@ == ctx_model(
                m,
            )[uv.operand.0],
            (Operation::Nand(bv), Operation::Nand(bs)) => bs.first@ == ctx_model(
                m,
            )[bv.first.0] && bs.second@ == ctx_model(m)[bv.second.0],
            (Operation::Nor(bv), Operation::Nor(bs)) => bs.first@ == ctx_model(
                m,
            )[bv.first.0] && bs.second@ == ctx_model(m)[bv.second.0],
            _ => false,
        },
    ensures
        match ops {
            Operation::Sub(b) => b.first@.len() == b.second@.len(),
            Operation::Plus(b) => b.first@.len() == b.second@.len(),
            Operation::Inv(_) => true,
            Operation::Nand(b) => b.first@.len() == b.second@.len(),
            Operation::Nor(b) => b.first@.len() == b.second@.len(),
        },
{
}

/// Builds the execution context out of what the memory bus returned for each
/// needed operand: hits enter the context, misses are skipped.
pub fn prepare_context(fetched: Vec<(Vid, Option<Shard>)>) -> (r: ShardContext)
    requires
        forall|i: int|
            0 <= i < fetched@.len() ==> (#[trigger] fetched@[i].1 matches Some(s)
                ==> s.wf()),
    ensures
        r.wf(),
        context_wf(r@),
        r@ == prepared_context(fetched@),
{
    let mut r: ShardContext = KeyMap::new();
    let mut i: usize = 0;
    proof {
        assert(r@ =~= prepared_context(fetched@.subrange(0, 0)));
    }
    let mut fetched = fetched;
    let ghost orig = fetched@;
    while fetched.len() > 0
        invariant
            r.wf(),
            context_wf(r@),
            fetched@.len() <= orig.len(),
            fetched@ == orig.subrange(orig.len() - fetched@.len(), orig.len() as int),
            r@ == prepared_context(orig.subrange(0, orig.len() - fetched@.len())),
            forall|i: int|
                0 <= i < orig.len() ==> (#[trigger] orig[i].1 matches Some(s) ==> s.wf()),
        decreases fetched@.len(),
    {
        let ghost k = orig.len() - fetched@.len();
        let ghost prev = fetched@;
        let (vid, shard) = fetched.remove(0);
        proof {
            assert(prev[0] == orig[k as int]);
            assert(fetched@ =~= orig.subrange(k + 1, orig.len() as int));
            assert(orig.subrange(0, k + 1).drop_last() =~= orig.subrange(0, k as int));
            assert(orig.subrange(0, k + 1).last() == orig[k as int]);
        }
        match shard {
            Some(s) => {
                r.insert(vid.0, s);
                proof {
                    assert(context_wf(r@));
                }
            },
            None => (),
        }
    }
    proof {
        assert(orig.subrange(0, orig.len() as int) =~= orig);
    }
    r
}

/// The context that the fetched pairs build: each hit stored under its
/// handle, in order.
pub open spec fn prepared_context(fetched: Seq<(Vid, Option<Shard>)>) -> Map<u64, Shard>
    decreases fetched.len(),
{
    if fetched.len() == 0 {
        Map::empty()
    } else {
        let m = prepared_context(fetched.drop_last());
        match fetched.last().1 {
            Some(s) => m.insert(fetched.last().0.0, s),
            None => m,
        }
    }
}

/// The operand identifiers a program reads: what must be fetched before
/// execution starts.
pub open spec fn program_operands(prog: Seq<Instruction<Vid, Vid>>) -> Set<Vid> {
    Set::new(
        |v: Vid|
            exists|j: int|
                0 <= j < prog.len() && operands_of(#[trigger] prog[j].operation).contains(v),
    )
}

/// The distinct operand identifiers of a program, in first-use order: the
/// shards to fetch before execution starts.
pub fn operand_ids(program: &Vec<Instruction<Vid, Vid>>) -> (r: Vec<Vid>)
    ensures
        forall|i: int, j: int| 0 <= i < j < r@.len() ==> r@[i] != r@[j],
        forall|i: int|
            0 <= i < r@.len() ==> program_operands(program@).contains(#[trigger] r@[i]),
        forall|v: Vid| #[trigger]
            program_operands(program@).contains(v) ==> r@.contains(v),
{
    let mut r: Vec<Vid> = Vec::new();
    let mut i: usize = 0;
    while i < program.len()
        invariant
            i <= program@.len(),
            forall|a: int, b: int| 0 <= a < b < r@.len() ==> r@[a] != r@[b],
            forall|a: int|
                0 <= a < r@.len() ==> program_operands(program@).contains(#[trigger] r@[a]),
            forall|j: int, v: Vid|
                0 <= j < i && #[trigger] operands_of(program@[j].operation).contains(v)
                    ==> r@.contains(v),
        decreases program@.len() - i,
    {
        let args = program[i].operation.args_as_list();
        let ghost ops = operands_of(program@[i as int].operation);
        let mut a: usize = 0;
        while a < args.len()
            invariant
                args@.len() == ops.len(),
                forall|x: int| 0 <= x < args@.len() ==> *args@[x] == ops[x],
                a <= args@.len(),
                0 <= i < program@.len(),
                ops == operands_of(program@[i as int].operation),
                forall|p: int, q: int| 0 <= p < q < r@.len() ==> r@[p] != r@[q],
                forall|p: int|
                    0 <= p < r@.len() ==> program_operands(program@).contains(
                        #[trigger] r@[p],
                    ),
                forall|j: int, v: Vid|
                    0 <= j < i && #[trigger] operands_of(program@[j].operation).contains(v)
                        ==> r@.contains(v),
                forall|x: int| 0 <= x < a ==> r@.contains(ops[x]),
            decreases args@.len() - a,
        {
            let candidate = *args[a];
            let mut seen = false;
            let mut b: usize = 0;
            while b < r.len()
                invariant
                    b <= r@.len(),
                    seen <==> exists|p: int| 0 <= p < b && r@[p] == candidate,
                decreases r@.len() - b,
            {
                if r[b].0 == candidate.0 {
                    proof {
                        assert(r@[b as int] == candidate);
                    }
                    seen = true;
                }
                b = b + 1;
            }
            if !seen {
                let ghost prev_r = r@;
                r.push(candidate);
                proof {
                    assert(ops.contains(candidate)) by {
                        assert(ops[a as int] == candidate);
                    }
                    assert(program_operands(program@).contains(candidate));
                    assert(r@.last() == candidate);
                    assert forall|v: Vid| prev_r.contains(v) implies r@.contains(v) by {
                        let p = choose|p: int| 0 <= p < prev_r.len() && prev_r[p] == v;
                        assert(r@[p] == v);
                    }
                }
            }
            proof {
                assert(r@.contains(ops[a as int])) by {
                    if seen {
                    } else {
                        assert(r@.last() == candidate);
                    }
                }
            }
            a = a + 1;
        }
        i = i + 1;
    }
    proof {
        assert forall|v: Vid| #[trigger]
            program_operands(program@).contains(v) implies r@.contains(v) by {
            let j = choose|j: int|
                0 <= j < program@.len() && operands_of(
                    #[trigger] program@[j].operation,
                ).contains(v);
            assert(operands_of(program@[j].operation).contains(v));
        }
    }
    r
}

} // verus!
