//! The generic instruction types, the handle map, the staging node and the
//! demo input.

use distributed_compute_node::instructions::{
    BinaryOp, Instruction, Operation, UnaryOp,
};
use distributed_compute_node::instruction_memory::{
    InstructionMemory, InstructionMemoryInEvent, InstructionMemoryOutEvent,
};
use distributed_compute_node::instructions::{Program, ProgramIdentifier};
use distributed_compute_node::io::{sample_data, sample_program};
use distributed_compute_node::kv::KeyMap;
use distributed_compute_node::node::{retrieve_from_buf, Behaviour, MockInitError};
use distributed_compute_node::types::{EventHash, PeerId, Shard, Vid};

#[test]
fn map_operands_keeps_the_shape_and_result() {
    let i = Instruction::plus(Vid(1), Vid(2), Vid(3));
    let mapped = i.map_operands(|v: Vid| v.0);
    assert_eq!(mapped.result, Vid(3));
    match mapped.operation {
        Operation::Plus(BinaryOp { first, second }) => {
            assert_eq!(first, 1u64);
            assert_eq!(second, 2u64);
        }
        other => panic!("unexpected operation: {:?}", other),
    }
}

#[test]
fn as_ref_borrows_every_field() {
    let i = Instruction::nand(Vid(4), Vid(5), Vid(6));
    let borrowed = i.as_ref();
    assert_eq!(*borrowed.result, Vid(6));
    match borrowed.operation {
        Operation::Nand(BinaryOp { first, second }) => {
            assert_eq!(*first, Vid(4));
            assert_eq!(*second, Vid(5));
        }
        other => panic!("unexpected operation: {:?}", other),
    }
}

#[test]
fn transpose_yields_some_only_when_every_operand_is_some() {
    let full: Instruction<Option<Vid>, Vid> =
        Instruction::plus(Some(Vid(1)), Some(Vid(2)), Vid(3));
    assert!(full.transpose_operation().is_some());
    let partial: Instruction<Option<Vid>, Vid> = Instruction::plus(Some(Vid(1)), None, Vid(3));
    assert!(partial.transpose_operation().is_none());
    let unary: UnaryOp<Option<Vid>> = UnaryOp { operand: None };
    assert!(unary.transpose().is_none());
    let pair: BinaryOp<Option<Vid>> = BinaryOp {
        first: Some(Vid(1)),
        second: Some(Vid(2)),
    };
    assert_eq!(
        pair.transpose(),
        Some(BinaryOp {
            first: Vid(1),
            second: Vid(2)
        })
    );
}

#[test]
fn args_as_list_gives_the_operands_in_order() {
    let op = Operation::Nor(BinaryOp {
        first: Vid(8),
        second: Vid(9),
    });
    let args = op.args_as_list();
    assert_eq!(args.len(), 2);
    assert_eq!(*args[0], Vid(8));
    assert_eq!(*args[1], Vid(9));
    let unary = Operation::Inv(UnaryOp { operand: Vid(3) });
    assert_eq!(unary.args_as_list().len(), 1);
}

#[test]
fn the_handle_map_stores_each_key_once() {
    let mut m: KeyMap<u64> = KeyMap::new();
    m.insert(1, 10);
    m.insert(2, 20);
    m.insert(1, 11);
    assert_eq!(m.len(), 2);
    assert_eq!(m.get(1), Some(&11));
    assert_eq!(m.get(2), Some(&20));
    assert_eq!(m.get(3), None);
    assert_eq!(m.remove(1), Some(11));
    assert_eq!(m.get(1), None);
    assert_eq!(m.remove(1), None);
}

#[test]
fn only_the_main_node_stages_data_and_instructions() {
    let mut main = Behaviour::new(true);
    assert!(main
        .add_data_to_distribute(Vid(1), Shard(vec![1, 2, 3, 4]))
        .is_ok());
    assert!(main.add_instruction(Instruction::inv(Vid(1), Vid(2))).is_ok());
    main.allow_distribution();
    main.allow_execution();
    let mut follower = Behaviour::new(false);
    assert_eq!(
        follower.add_data_to_distribute(Vid(1), Shard(vec![1, 2, 3, 4])),
        Err(MockInitError::NotMainNode)
    );
    assert_eq!(
        follower.add_instruction(Instruction::inv(Vid(1), Vid(2))),
        Err(MockInitError::NotMainNode)
    );
}

#[test]
fn arrived_shards_fill_empty_operand_slots_in_order() {
    let mut buf: KeyMap<Vec<Shard>> = KeyMap::new();
    buf.insert(7, vec![Shard(vec![1, 1, 1, 1]), Shard(vec![2, 2, 2, 2])]);
    let mut slot: Option<Shard> = None;
    retrieve_from_buf(&mut buf, Vid(7), &mut slot);
    assert_eq!(slot, Some(Shard(vec![1, 1, 1, 1])));
    // a filled slot is left alone
    retrieve_from_buf(&mut buf, Vid(7), &mut slot);
    assert_eq!(slot, Some(Shard(vec![1, 1, 1, 1])));
    let mut slot2: Option<Shard> = None;
    retrieve_from_buf(&mut buf, Vid(7), &mut slot2);
    assert_eq!(slot2, Some(Shard(vec![2, 2, 2, 2])));
    // the exhausted queue leaves the buffer
    let mut slot3: Option<Shard> = None;
    retrieve_from_buf(&mut buf, Vid(7), &mut slot3);
    assert_eq!(slot3, None);
}

#[test]
fn the_instruction_memory_hands_out_programs_in_finalization_order() {
    let mut m = InstructionMemory::new();
    let first = Program::new(
        vec![Instruction::inv(Vid(1), Vid(2))],
        EventHash {
            author: PeerId(0),
            seq: 1,
        },
    );
    let second = Program::new(
        vec![Instruction::inv(Vid(2), Vid(3))],
        EventHash {
            author: PeerId(0),
            seq: 2,
        },
    );
    m.handle_event(InstructionMemoryInEvent::FinalizedProgram(first));
    m.handle_event(InstructionMemoryInEvent::FinalizedProgram(second));
    m.handle_event(InstructionMemoryInEvent::ExecutedProgram {
        peer: PeerId(4),
        program_id: ProgramIdentifier(EventHash {
            author: PeerId(0),
            seq: 1,
        }),
    });
    match m.poll_next_program() {
        Some(InstructionMemoryOutEvent::NextProgram(p)) => {
            assert_eq!(p.identifier().0.seq, 1);
        }
        other => panic!("unexpected: {:?}", other),
    }
    match m.poll_next_program() {
        Some(InstructionMemoryOutEvent::NextProgram(p)) => {
            assert_eq!(p.identifier().0.seq, 2);
        }
        other => panic!("unexpected: {:?}", other),
    }
    assert!(m.poll_next_program().is_none());
}

#[test]
fn the_sample_input_matches_the_demo_layout() {
    let data = sample_data();
    assert_eq!(data.data.len(), 2);
    assert_eq!(data.data[0].0, Vid(1));
    assert_eq!(data.data[0].1 .0, vec![1, 2, 3, 4, 5, 6, 7, 8, 9, 10, 11, 12]);
    assert_eq!(data.data[1].0, Vid(2));
    let program = sample_program();
    assert_eq!(program.instructions.len(), 3);
    assert_eq!(
        program.instructions[0],
        Instruction::plus(Vid(1), Vid(2), Vid(3))
    );
}
