//! The demo input vocabulary: the data units and the program a fresh node
//! is seeded with. Reading and writing the input files is the enclosing
//! program's business; the values themselves are plain.

use vstd::prelude::*;

use crate::instructions::{BinaryOp, Instruction, Instructions, Operation, UnaryOp};
use crate::types::{Data, Vid};

verus! {

/// The data units fed into `Put` at startup.
#[derive(Debug)]
pub struct InputData {
    pub data: Vec<(Vid, Data)>,
}

/// The program fed into `ScheduleProgram` at startup.
#[derive(Debug)]
pub struct InputProgram {
    pub instructions: Instructions,
}

/// A basic input layout showing the format: two data units of twelve bytes.
pub fn sample_data() -> (r: InputData)
    ensures
        r.data@.len() == 2,
        r.data@[0].0 == (Vid(1)),
        r.data@[0].1@ == seq![1u8, 2, 3, 4, 5, 6, 7, 8, 9, 10, 11, 12],
        r.data@[1].0 == (Vid(2)),
        r.data@[1].1@ == seq![37u8, 144, 123, 1, 0, 0, 0, 14, 53, 23, 1, 1],
        r.data@[0].1.wf(),
        r.data@[1].1.wf(),
{
    let mut first: Vec<u8> = Vec::new();
    first.push(1);
    first.push(2);
    first.push(3);
    first.push(4);
    first.push(5);
    first.push(6);
    first.push(7);
    first.push(8);
    first.push(9);
    first.push(10);
    first.push(11);
    first.push(12);
    let mut second: Vec<u8> = Vec::new();
    second.push(37);
    second.push(144);
    second.push(123);
    second.push(1);
    second.push(0);
    second.push(0);
    second.push(0);
    second.push(14);
    second.push(53);
    second.push(23);
    second.push(1);
    second.push(1);
    let mut data: Vec<(Vid, Data)> = Vec::new();
    proof {
        assert(first@ =~= seq![1u8, 2, 3, 4, 5, 6, 7, 8, 9, 10, 11, 12]);
        assert(second@ =~= seq![37u8, 144, 123, 1, 0, 0, 0, 14, 53, 23, 1, 1]);
    }
    data.push((Vid(1), Data(first)));
    data.push((Vid(2), Data(second)));
    InputData { data }
}

/// A basic program showing the format: an addition, a NAND and an
/// inversion over the sample data units.
pub fn sample_program() -> (r: InputProgram)
    ensures
        r.instructions@.len() == 3,
        r.instructions@[0] == (Instruction {
            operation: Operation::Plus(BinaryOp { first: Vid(1), second: Vid(2) }),
            result: Vid(3),
        }),
        r.instructions@[1] == (Instruction {
            operation: Operation::Nand(BinaryOp { first: Vid(1), second: Vid(2) }),
            result: Vid(4),
        }),
        r.instructions@[2] == (Instruction {
            operation: Operation::Inv(UnaryOp { operand: Vid(4) }),
            result: Vid(5),
        }),
{
    let mut instructions: Instructions = Vec::new();
    instructions.push(Instruction::plus(Vid(1), Vid(2), Vid(3)));
    instructions.push(Instruction::nand(Vid(1), Vid(2), Vid(4)));
    instructions.push(Instruction::inv(Vid(4), Vid(5)));
    InputProgram { instructions }
}

} // verus!
