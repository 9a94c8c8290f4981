//! Arithmetic programs: instructions, their operations and operands.
//!
//! An instruction names its operands by identifier; the processor later
//! replaces identifiers by the shards they stand for, which is why the types
//! are generic over the operand representation.

use vstd::prelude::*;

use crate::types::{EventHash, Vid};

verus! {

/// One step of a program: an operation together with the identifier under
/// which its result is stored.
#[derive(Debug, Clone, PartialEq, Eq, Hash)]
pub struct Instruction<TOperand, TResult> {
    pub operation: Operation<TOperand>,
    pub result: TResult,
}

/// The operation of one instruction. Binary operations carry two operands,
/// unary ones a single operand.
#[derive(Debug, Clone, PartialEq, Eq, Hash)]
pub enum Operation<TOperand> {
    Sub(BinaryOp<TOperand>),
    Plus(BinaryOp<TOperand>),
    Inv(UnaryOp<TOperand>),
    Nand(BinaryOp<TOperand>),
    Nor(BinaryOp<TOperand>),
}

/// Operand pair of a binary operation.
#[derive(Debug, Clone, PartialEq, Eq, Hash)]
pub struct BinaryOp<TOperand> {
    pub first: TOperand,
    pub second: TOperand,
}

/// Operand of a unary operation.
#[derive(Debug, Clone, PartialEq, Eq, Hash)]
pub struct UnaryOp<TOperand> {
    pub operand: TOperand,
}

/// The operands of an operation, in argument order.
pub open spec fn operands_of<T>(op: Operation<T>) -> Seq<T> {
    match op {
        Operation::Sub(b) => seq![b.first, b.second],
        Operation::Plus(b) => seq![b.first, b.second],
        Operation::Inv(u) => seq![u.operand],
        Operation::Nand(b) => seq![b.first, b.second],
        Operation::Nor(b) => seq![b.first, b.second],
    }
}

impl<TOperand, TResult> Instruction<TOperand, TResult> {
    /// Applies `f` to every operand, leaving the operation shape and the
    /// result identifier unchanged.
    pub fn map_operands<TNewOperand, F: Fn(TOperand) -> TNewOperand>(
        self,
        f: F,
    ) -> (r: Instruction<TNewOperand, TResult>)
        requires
            match self.operation {
                Operation::Sub(b) => f.requires((b.first,)) && f.requires((b.second,)),
                Operation::Plus(b) => f.requires((b.first,)) && f.requires((b.second,)),
                Operation::Inv(u) => f.requires((u.operand,)),
                Operation::Nand(b) => f.requires((b.first,)) && f.requires((b.second,)),
                Operation::Nor(b) => f.requires((b.first,)) && f.requires((b.second,)),
            },
        ensures
            r.result == self.result,
            match (self.operation, r.operation) {
                (Operation::Sub(b), Operation::Sub(rb)) => f.ensures((b.first,), rb.first)
                    && f.ensures((b.second,), rb.second),
                (Operation::Plus(b), Operation::Plus(rb)) => f.ensures((b.first,), rb.first)
                    && f.ensures((b.second,), rb.second),
                (Operation::Inv(u), Operation::Inv(ru)) => f.ensures((u.operand,), ru.operand),
                (Operation::Nand(b), Operation::Nand(rb)) => f.ensures((b.first,), rb.first)
                    && f.ensures((b.second,), rb.second),
                (Operation::Nor(b), Operation::Nor(rb)) => f.ensures((b.first,), rb.first)
                    && f.ensures((b.second,), rb.second),
                _ => false,
            },
    {
        let new_op = match self.operation {
            Operation::Sub(binary) => Operation::Sub(
                BinaryOp { first: f(binary.first), second: f(binary.second) },
            ),
            Operation::Plus(binary) => Operation::Plus(
                BinaryOp { first: f(binary.first), second: f(binary.second) },
            ),
            Operation::Inv(unary) => Operation::Inv(UnaryOp { operand: f(unary.operand) }),
            Operation::Nand(binary) => Operation::Nand(
                BinaryOp { first: f(binary.first), second: f(binary.second) },
            ),
            Operation::Nor(binary) => Operation::Nor(
                BinaryOp { first: f(binary.first), second: f(binary.second) },
            ),
        };
        Instruction { operation: new_op, result: self.result }
    }

    /// The instruction with every field borrowed.
    pub fn as_ref(&self) -> (r: Instruction<&TOperand, &TResult>)
        ensures
            *r.result == self.result,
            match (self.operation, r.operation) {
                (Operation::Sub(b), Operation::Sub(rb)) => *rb.first == b.first && *rb.second
                    == b.second,
                (Operation::Plus(b), Operation::Plus(rb)) => *rb.first == b.first && *rb.second
                    == b.second,
                (Operation::Inv(u), Operation::Inv(ru)) => *ru.operand == u.operand,
                (Operation::Nand(b), Operation::Nand(rb)) => *rb.first == b.first && *rb.second
                    == b.second,
                (Operation::Nor(b), Operation::Nor(rb)) => *rb.first == b.first && *rb.second
                    == b.second,
                _ => false,
            },
    {
        let ref_op = match self.operation {
            Operation::Sub(ref o) => Operation::Sub(o.as_ref()),
            Operation::Plus(ref o) => Operation::Plus(o.as_ref()),
            Operation::Inv(ref o) => Operation::Inv(o.as_ref()),
            Operation::Nand(ref o) => Operation::Nand(o.as_ref()),
            Operation::Nor(ref o) => Operation::Nor(o.as_ref()),
        };
        Instruction { operation: ref_op, result: &self.result }
    }

    /// Builds a subtraction instruction.
    pub fn sub(first: TOperand, second: TOperand, result: TResult) -> (r: Self)
        ensures
            r == (Instruction {
                operation: Operation::Sub(BinaryOp { first, second }),
                result,
            }),
    {
        Instruction { operation: Operation::Sub(BinaryOp { first, second }), result }
    }

    /// Builds an addition instruction.
    pub fn plus(first: TOperand, second: TOperand, result: TResult) -> (r: Self)
        ensures
            r == (Instruction {
                operation: Operation::Plus(BinaryOp { first, second }),
                result,
            }),
    {
        Instruction { operation: Operation::Plus(BinaryOp { first, second }), result }
    }

    /// Builds an inversion instruction.
    pub fn inv(operand: TOperand, result: TResult) -> (r: Self)
        ensures
            r == (Instruction { operation: Operation::Inv(UnaryOp { operand }), result }),
    {
        Instruction { operation: Operation::Inv(UnaryOp { operand }), result }
    }

    /// Builds a NAND instruction.
    pub fn nand(first: TOperand, second: TOperand, result: TResult) -> (r: Self)
        ensures
            r == (Instruction {
                operation: Operation::Nand(BinaryOp { first, second }),
                result,
            }),
    {
        Instruction { operation: Operation::Nand(BinaryOp { first, second }), result }
    }

    /// Builds a NOR instruction.
    pub fn nor(first: TOperand, second: TOperand, result: TResult) -> (r: Self)
        ensures
            r == (Instruction {
                operation: Operation::Nor(BinaryOp { first, second }),
                result,
            }),
    {
        Instruction { operation: Operation::Nor(BinaryOp { first, second }), result }
    }
}

impl<O, R> Instruction<Option<O>, R> {
    /// `Some` exactly when every operand is `Some`, with the operands
    /// unwrapped and the shape kept.
    pub fn transpose_operation(self) -> (r: Option<Instruction<O, R>>)
        ensures
            match self.operation {
                Operation::Sub(b) => match (b.first, b.second) {
                    (Some(x), Some(y)) => r == (Some(Instruction {
                        operation: Operation::Sub(BinaryOp { first: x, second: y }),
                        result: self.result,
                    })),
                    _ => r is None,
                },
                Operation::Plus(b) => match (b.first, b.second) {
                    (Some(x), Some(y)) => r == (Some(Instruction {
                        operation: Operation::Plus(BinaryOp { first: x, second: y }),
                        result: self.result,
                    })),
                    _ => r is None,
                },
                Operation::Inv(u) => match u.operand {
                    Some(x) => r == (Some(Instruction {
                        operation: Operation::Inv(UnaryOp { operand: x }),
                        result: self.result,
                    })),
                    None => r is None,
                },
                Operation::Nand(b) => match (b.first, b.second) {
                    (Some(x), Some(y)) => r == (Some(Instruction {
                        operation: Operation::Nand(BinaryOp { first: x, second: y }),
                        result: self.result,
                    })),
                    _ => r is None,
                },
                Operation::Nor(b) => match (b.first, b.second) {
                    (Some(x), Some(y)) => r == (Some(Instruction {
                        operation: Operation::Nor(BinaryOp { first: x, second: y }),
                        result: self.result,
                    })),
                    _ => r is None,
                },
            },
    {
        match self.operation {
            Operation::Sub(o) => match o.transpose() {
                Some(o) => Some(
                    Instruction { operation: Operation::Sub(o), result: self.result },
                ),
                None => None,
            },
            Operation::Plus(o) => match o.transpose() {
                Some(o) => Some(
                    Instruction { operation: Operation::Plus(o), result: self.result },
                ),
                None => None,
            },
            Operation::Inv(o) => match o.transpose() {
                Some(o) => Some(
                    Instruction { operation: Operation::Inv(o), result: self.result },
                ),
                None => None,
            },
            Operation::Nand(o) => match o.transpose() {
                Some(o) => Some(
                    Instruction { operation: Operation::Nand(o), result: self.result },
                ),
                None => None,
            },
            Operation::Nor(o) => match o.transpose() {
                Some(o) => Some(
                    Instruction { operation: Operation::Nor(o), result: self.result },
                ),
                None => None,
            },
        }
    }
}

impl<TOperand> Operation<TOperand> {
    /// Borrows of the operands, in argument order.
    pub fn args_as_list(&self) -> (r: Vec<&TOperand>)
        ensures
            r@.len() == operands_of(*self).len(),
            forall|i: int| 0 <= i < r@.len() ==> *r@[i] == operands_of(*self)[i],
    {
        match self {
            Operation::Sub(BinaryOp { first, second }) => vec![first, second],
            Operation::Plus(BinaryOp { first, second }) => vec![first, second],
            Operation::Nand(BinaryOp { first, second }) => vec![first, second],
            Operation::Nor(BinaryOp { first, second }) => vec![first, second],
            Operation::Inv(UnaryOp { operand }) => vec![operand],
        }
    }
}

impl<O> BinaryOp<O> {
    /// The pair with both operands borrowed.
    pub fn as_ref(&self) -> (r: BinaryOp<&O>)
        ensures
            *r.first == self.first,
            *r.second == self.second,
    {
        BinaryOp { first: &self.first, second: &self.second }
    }
}

impl<O> BinaryOp<Option<O>> {
    /// `Some` exactly when both operands are `Some`.
    pub fn transpose(self) -> (r: Option<BinaryOp<O>>)
        ensures
            match (self.first, self.second) {
                (Some(x), Some(y)) => r == (Some(BinaryOp { first: x, second: y })),
                _ => r is None,
            },
    {
        match (self.first, self.second) {
            (Some(first), Some(second)) => Some(BinaryOp { first, second }),
            _ => None,
        }
    }
}

impl<O> UnaryOp<O> {
    /// The operand borrowed.
    pub fn as_ref(&self) -> (r: UnaryOp<&O>)
        ensures
            *r.operand == self.operand,
    {
        UnaryOp { operand: &self.operand }
    }
}

impl<O> UnaryOp<Option<O>> {
    /// `Some` exactly when the operand is `Some`.
    pub fn transpose(self) -> (r: Option<UnaryOp<O>>)
        ensures
            match self.operand {
                Some(x) => r == (Some(UnaryOp { operand: x })),
                None => r is None,
            },
    {
        match self.operand {
            Some(operand) => Some(UnaryOp { operand }),
            None => None,
        }
    }
}

impl Instruction<Vid, Vid> {
    /// An exact copy.
    pub fn duplicate(&self) -> (r: Self)
        ensures
            r == *self,
    {
        let operation = match self.operation {
            Operation::Sub(ref b) => Operation::Sub(
                BinaryOp { first: b.first, second: b.second },
            ),
            Operation::Plus(ref b) => Operation::Plus(
                BinaryOp { first: b.first, second: b.second },
            ),
            Operation::Inv(ref u) => Operation::Inv(UnaryOp { operand: u.operand }),
            Operation::Nand(ref b) => Operation::Nand(
                BinaryOp { first: b.first, second: b.second },
            ),
            Operation::Nor(ref b) => Operation::Nor(
                BinaryOp { first: b.first, second: b.second },
            ),
        };
        Instruction { operation, result: self.result }
    }
}

/// An exact copy of an instruction list.
pub fn duplicate_instructions(v: &Vec<Instruction<Vid, Vid>>) -> (r: Vec<
    Instruction<Vid, Vid>,
>)
    ensures
        r@ == v@,
{
    let mut r: Vec<Instruction<Vid, Vid>> = Vec::new();
    let mut i: usize = 0;
    while i < v.len()
        invariant
            i <= v@.len(),
            r@ == v@.subrange(0, i as int),
        decreases v@.len() - i,
    {
        r.push(v[i].duplicate());
        proof {
            assert(r@ =~= v@.subrange(0, i + 1 as int));
        }
        i = i + 1;
    }
    proof {
        assert(r@ =~= v@);
    }
    r
}

/// A program as scheduled by a user: instructions over data-unit
/// identifiers, executed in order.
pub type Instructions = Vec<Instruction<Vid, Vid>>;

/// Identifies a finalized program; derived from the consensus event that
/// finalized it.
#[derive(PartialEq, Eq, Structural, Debug, Clone, Copy, Hash)]
pub struct ProgramIdentifier(pub EventHash);

/// A finalized program: its instructions together with the identifier
/// derived from the event that finalized it.
#[derive(Debug, Clone, PartialEq, Eq, Hash)]
pub struct Program {
    pub instructions: Instructions,
    pub identifier: ProgramIdentifier,
}

impl Program {
    /// Builds the program finalized by the event with hash `event_hash`.
    pub fn new(instructions: Instructions, event_hash: EventHash) -> (r: Program)
        ensures
            r.instructions == instructions,
            r.identifier == (ProgramIdentifier(event_hash)),
    {
        Program { instructions, identifier: ProgramIdentifier(event_hash) }
    }

    /// The program's identifier.
    pub fn identifier(&self) -> (r: &ProgramIdentifier)
        ensures
            *r == self.identifier,
    {
        &self.identifier
    }

    /// The program's instructions.
    pub fn instructions(&self) -> (r: &Instructions)
        ensures
            *r == self.instructions,
    {
        &self.instructions
    }

    /// An exact copy.
    pub fn duplicate(&self) -> (r: Self)
        ensures
            r.instructions@ == self.instructions@,
            r.identifier == self.identifier,
    {
        Program {
            instructions: duplicate_instructions(&self.instructions),
            identifier: self.identifier,
        }
    }

    /// Takes the program apart.
    pub fn into_parts(self) -> (r: (Instructions, ProgramIdentifier))
        ensures
            r.0 == self.instructions,
            r.1 == self.identifier,
    {
        (self.instructions, self.identifier)
    }
}

} // verus!
