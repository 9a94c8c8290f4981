//! Program execution in GF(2^8), shard splitting, and the processor's
//! one-program-at-a-time gate.

use distributed_compute_node::data_memory::{join_shards, split_data};
use distributed_compute_node::instructions::{Instruction, Program, ProgramIdentifier};
use distributed_compute_node::kv::KeyMap;
use distributed_compute_node::mock::{DataStorage, Error as MockError, MockProcessor};
use distributed_compute_node::processor::{
    operand_ids, prepare_context, Error as ProcessorError, ShardProcessor,
};
use distributed_compute_node::types::{Data, EventHash, PeerId, Shard, Vid};

fn program_id(seq: u64) -> ProgramIdentifier {
    ProgramIdentifier(EventHash {
        author: PeerId(0),
        seq,
    })
}

fn sample_storage() -> DataStorage {
    let mut storage: DataStorage = KeyMap::new();
    storage.insert(1, Data(vec![1, 2, 3, 4, 5, 6, 7, 8, 9, 10, 11, 12]));
    storage.insert(2, Data(vec![37, 144, 123, 1, 0, 0, 0, 14, 53, 23, 1, 1]));
    storage
}

#[test]
fn field_addition_is_xor_elementwise() {
    let mut storage = sample_storage();
    let program = Program::new(
        vec![Instruction::plus(Vid(1), Vid(2), Vid(3))],
        EventHash {
            author: PeerId(0),
            seq: 1,
        },
    );
    MockProcessor::execute_on(program, &mut storage).unwrap();
    let result = storage.get(3).expect("result stored");
    let expected: Vec<u8> = vec![
        1 ^ 37,
        2 ^ 144,
        3 ^ 123,
        4 ^ 1,
        5 ^ 0,
        6 ^ 0,
        7 ^ 0,
        8 ^ 14,
        9 ^ 53,
        10 ^ 23,
        11 ^ 1,
        12 ^ 1,
    ];
    assert_eq!(result.0, expected);
}

#[test]
fn subtraction_coincides_with_addition() {
    let mut storage = sample_storage();
    let program = Program::new(
        vec![
            Instruction::plus(Vid(1), Vid(2), Vid(3)),
            Instruction::sub(Vid(1), Vid(2), Vid(4)),
        ],
        EventHash {
            author: PeerId(0),
            seq: 1,
        },
    );
    MockProcessor::execute_on(program, &mut storage).unwrap();
    assert_eq!(storage.get(3).unwrap().0, storage.get(4).unwrap().0);
}

#[test]
fn nand_nor_and_inversion_read_bytes_by_zeroness() {
    let mut storage = sample_storage();
    let program = Program::new(
        vec![
            Instruction::nand(Vid(1), Vid(2), Vid(4)),
            Instruction::inv(Vid(4), Vid(5)),
            Instruction::nor(Vid(1), Vid(2), Vid(6)),
        ],
        EventHash {
            author: PeerId(0),
            seq: 1,
        },
    );
    MockProcessor::execute_on(program, &mut storage).unwrap();
    // the second unit is zero exactly at positions 4, 5 and 6
    let nand = storage.get(4).unwrap();
    assert_eq!(nand.0, vec![0, 0, 0, 0, 1, 1, 1, 0, 0, 0, 0, 0]);
    // inversion is the identity in GF(2^8)
    let inv = storage.get(5).unwrap();
    assert_eq!(inv.0, nand.0);
    // the first unit has no zero byte, so no position is zero in both
    let nor = storage.get(6).unwrap();
    assert_eq!(nor.0, vec![0; 12]);
}

#[test]
fn an_intermediate_result_feeds_later_instructions() {
    let mut storage = sample_storage();
    let program = Program::new(
        vec![
            Instruction::plus(Vid(1), Vid(2), Vid(3)),
            Instruction::plus(Vid(3), Vid(2), Vid(4)),
        ],
        EventHash {
            author: PeerId(0),
            seq: 1,
        },
    );
    MockProcessor::execute_on(program, &mut storage).unwrap();
    // adding the same value twice cancels in characteristic 2
    assert_eq!(storage.get(4).unwrap().0, storage.get(1).unwrap().0);
}

#[test]
fn a_missing_operand_stops_the_mock_processor() {
    let mut storage = sample_storage();
    let program = Program::new(
        vec![Instruction::plus(Vid(1), Vid(99), Vid(3))],
        EventHash {
            author: PeerId(0),
            seq: 1,
        },
    );
    let r = MockProcessor::execute_on(program, &mut storage);
    assert_eq!(r, Err(MockError::DataNotFound));
    assert!(storage.get(3).is_none());
}

#[test]
fn the_shard_processor_skips_instructions_with_missing_operands() {
    let fetched = vec![
        (Vid(1), Some(Shard(vec![1, 2, 3, 4]))),
        (Vid(2), Some(Shard(vec![5, 6, 7, 8]))),
        (Vid(9), None),
    ];
    let context = prepare_context(fetched);
    let program = vec![
        Instruction::plus(Vid(1), Vid(2), Vid(3)),
        Instruction::plus(Vid(1), Vid(9), Vid(4)),
    ];
    let (results, context) = ShardProcessor::execute(&program, context);
    assert_eq!(results.len(), 2);
    assert_eq!(results[0], Ok(Vid(3)));
    assert_eq!(results[1], Err(ProcessorError::NoShardsAssigned));
    assert_eq!(context.get(3).unwrap().0, vec![4, 4, 4, 12]);
    assert!(context.get(4).is_none());
}

#[test]
fn operand_ids_lists_each_operand_once() {
    let program = vec![
        Instruction::plus(Vid(1), Vid(2), Vid(3)),
        Instruction::nand(Vid(2), Vid(3), Vid(4)),
        Instruction::inv(Vid(1), Vid(5)),
    ];
    let ids = operand_ids(&program);
    assert_eq!(ids, vec![Vid(1), Vid(2), Vid(3)]);
}

#[test]
fn the_processor_refuses_input_while_a_program_runs() {
    let mut p = ShardProcessor::new();
    assert!(p.accepts_input());
    p.start_execution();
    assert!(!p.accepts_input());
    let out = p.finish_execution(program_id(3), vec![Ok(Vid(1))]);
    assert!(p.accepts_input());
    match out {
        distributed_compute_node::processor::OutEvent::FinishedExecution {
            program_id: pid,
            results,
        } => {
            assert_eq!(pid, program_id(3));
            assert_eq!(results, vec![Ok(Vid(1))]);
        }
    }
}

#[test]
fn splitting_and_joining_a_data_unit_is_the_identity() {
    let data = Data(vec![1, 2, 3, 4, 5, 6, 7, 8, 9, 10, 11, 12]);
    let shards = split_data(&data);
    assert_eq!(shards.len(), 3);
    assert_eq!(shards[0].0, vec![1, 2, 3, 4]);
    assert_eq!(shards[1].0, vec![5, 6, 7, 8]);
    assert_eq!(shards[2].0, vec![9, 10, 11, 12]);
    let joined = join_shards(&shards);
    assert_eq!(joined, data);
}

#[test]
fn a_fresh_fetch_serves_an_operand_the_prefetch_missed() {
    let mut context: KeyMap<Shard> = KeyMap::new();
    context.insert(1, Shard(vec![1, 2, 3, 4]));
    let instruction = Instruction::plus(Vid(1), Vid(2), Vid(3));
    // the context lacks the second operand; the bus answers when asked afresh
    let fresh = vec![(Vid(2), Some(Shard(vec![5, 6, 7, 8])))];
    let r = ShardProcessor::execute_instruction(&mut context, &instruction, &fresh);
    assert_eq!(r, Ok(Vid(3)));
    assert_eq!(context.get(3).unwrap().0, vec![4, 4, 4, 12]);
}

#[test]
fn an_operand_in_neither_context_nor_fresh_fetch_fails_the_instruction() {
    let mut context: KeyMap<Shard> = KeyMap::new();
    context.insert(1, Shard(vec![1, 2, 3, 4]));
    let instruction = Instruction::plus(Vid(1), Vid(2), Vid(3));
    let fresh = vec![(Vid(2), None)];
    let r = ShardProcessor::execute_instruction(&mut context, &instruction, &fresh);
    assert_eq!(r, Err(ProcessorError::NoShardsAssigned));
    assert!(context.get(3).is_none());
}

#[test]
fn the_context_is_preferred_over_a_fresh_fetch() {
    let mut context: KeyMap<Shard> = KeyMap::new();
    context.insert(1, Shard(vec![1, 1, 1, 1]));
    context.insert(2, Shard(vec![2, 2, 2, 2]));
    let instruction = Instruction::plus(Vid(1), Vid(2), Vid(3));
    // the bus answer for an operand the context holds is ignored
    let fresh = vec![(Vid(2), Some(Shard(vec![9, 9, 9, 9])))];
    let r = ShardProcessor::execute_instruction(&mut context, &instruction, &fresh);
    assert_eq!(r, Ok(Vid(3)));
    assert_eq!(context.get(3).unwrap().0, vec![3, 3, 3, 3]);
}
