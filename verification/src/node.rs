//! Staging helpers for a single "main" node that seeds a fresh cluster:
//! data and instructions queued by hand before consensus-driven distribution
//! takes over, and the buffer of shards arriving for pending instructions.

use vstd::prelude::*;

use crate::instructions::Instruction;
use crate::kv::KeyMap;
use crate::types::{Shard, Vid};

verus! {

/// A data memory whose whole contents can be read out.
pub trait DataMemoryReadAll<I, D> {
    /// Every stored entry.
    fn read_all(&self) -> Vec<(I, D)>;
}

/// Why a staging call was refused.
#[derive(Debug, Clone, Copy, PartialEq, Eq, Structural)]
pub enum MockInitError {
    /// Only the main node stages initial data and instructions.
    NotMainNode,
}

/// The staging state of one node.
pub struct Behaviour {
    is_main_node: bool,
    data_to_distribute: Vec<(Vid, Shard)>,
    distribute: bool,
    instructions_to_execute: Vec<Instruction<Vid, Vid>>,
    execute: bool,
}

impl Behaviour {
    /// Whether this node seeds the cluster.
    pub closed spec fn is_main_spec(&self) -> bool {
        self.is_main_node
    }

    /// The staged data, oldest first.
    pub closed spec fn staged_data(&self) -> Seq<(Vid, Shard)> {
        self.data_to_distribute@
    }

    /// Whether distribution has been released.
    pub closed spec fn distribute_spec(&self) -> bool {
        self.distribute
    }

    /// The staged instructions, oldest first.
    pub closed spec fn staged_instructions(&self) -> Seq<Instruction<Vid, Vid>> {
        self.instructions_to_execute@
    }

    /// Whether execution has been released.
    pub closed spec fn execute_spec(&self) -> bool {
        self.execute
    }

    /// A fresh staging state with nothing queued and nothing released.
    pub fn new(is_main_node: bool) -> (r: Self)
        ensures
            r.is_main_spec() == is_main_node,
            r.staged_data().len() == 0,
            r.staged_instructions().len() == 0,
            !r.distribute_spec(),
            !r.execute_spec(),
    {
        Behaviour {
            is_main_node,
            data_to_distribute: Vec::new(),
            distribute: false,
            instructions_to_execute: Vec::new(),
            execute: false,
        }
    }

    /// Queues a data unit for distribution; only the main node may.
    pub fn add_data_to_distribute(&mut self, id: Vid, data: Shard) -> (r: Result<
        (),
        MockInitError,
    >)
        ensures
            final(self).is_main_spec() == old(self).is_main_spec(),
            final(self).distribute_spec() == old(self).distribute_spec(),
            final(self).execute_spec() == old(self).execute_spec(),
            final(self).staged_instructions() == old(self).staged_instructions(),
            old(self).is_main_spec() ==> (r matches Ok(_) && final(self).staged_data() == old(
                self,
            ).staged_data().push((id, data))),
            !old(self).is_main_spec() ==> (r == (Err::<(), MockInitError>(
                MockInitError::NotMainNode,
            )) && final(self).staged_data() == old(self).staged_data()),
    {
        if self.is_main_node {
            self.data_to_distribute.push((id, data));
            Ok(())
        } else {
            Err(MockInitError::NotMainNode)
        }
    }

    /// Queues an instruction for execution; only the main node may.
    pub fn add_instruction(&mut self, instruction: Instruction<Vid, Vid>) -> (r: Result<
        (),
        MockInitError,
    >)
        ensures
            final(self).is_main_spec() == old(self).is_main_spec(),
            final(self).distribute_spec() == old(self).distribute_spec(),
            final(self).execute_spec() == old(self).execute_spec(),
            final(self).staged_data() == old(self).staged_data(),
            old(self).is_main_spec() ==> (r matches Ok(_) && final(self).staged_instructions()
                == old(self).staged_instructions().push(instruction)),
            !old(self).is_main_spec() ==> (r == (Err::<(), MockInitError>(
                MockInitError::NotMainNode,
            )) && final(self).staged_instructions() == old(self).staged_instructions()),
    {
        if self.is_main_node {
            self.instructions_to_execute.push(instruction);
            Ok(())
        } else {
            Err(MockInitError::NotMainNode)
        }
    }

    /// Releases the staged data for distribution.
    pub fn allow_distribution(&mut self)
        ensures
            final(self).distribute_spec(),
            final(self).is_main_spec() == old(self).is_main_spec(),
            final(self).execute_spec() == old(self).execute_spec(),
            final(self).staged_data() == old(self).staged_data(),
            final(self).staged_instructions() == old(self).staged_instructions(),
    {
        self.distribute = true;
    }

    /// Releases the staged instructions for execution.
    pub fn allow_execution(&mut self)
        ensures
            final(self).execute_spec(),
            final(self).is_main_spec() == old(self).is_main_spec(),
            final(self).distribute_spec() == old(self).distribute_spec(),
            final(self).staged_data() == old(self).staged_data(),
            final(self).staged_instructions() == old(self).staged_instructions(),
    {
        self.execute = true;
    }
}

/// Fills an empty operand slot from the buffer of arrived shards: the oldest
/// buffered shard for the identifier moves into the slot, and an identifier
/// whose queue empties leaves the buffer.
pub fn retrieve_from_buf(
    buf: &mut KeyMap<Vec<Shard>>,
    id: Vid,
    entry: &mut Option<Shard>,
)
    requires
        old(buf).wf(),
    ensures
        final(buf).wf(),
        (*old(entry)) is Some ==> *final(entry) == *old(entry) && final(buf)@ == old(buf)@,
        (*old(entry)) is None && !old(buf)@.dom().contains(id.0) ==> (*final(entry)) is None
            && final(buf)@ == old(buf)@,
        (*old(entry)) is None && old(buf)@.dom().contains(id.0) && old(buf)@[id.0]@.len() == 0
            ==> (*final(entry)) is None && final(buf)@ == old(buf)@,
        (*old(entry)) is None && old(buf)@.dom().contains(id.0) && old(buf)@[id.0]@.len() > 0
            ==> {
            &&& ((*final(entry)) matches Some(s) && s == old(buf)@[id.0]@[0])
            &&& (old(buf)@[id.0]@.len() == 1 ==> final(buf)@ == old(buf)@.remove(id.0))
            &&& (old(buf)@[id.0]@.len() > 1 ==> final(buf)@.dom() == old(buf)@.dom()
                && final(buf)@[id.0]@ == old(buf)@[id.0]@.subrange(
                1,
                old(buf)@[id.0]@.len() as int,
            ) && (forall|k: u64|
                #[trigger] final(buf)@.dom().contains(k) && k != id.0 ==> final(buf)@[k]
                    == old(buf)@[k]))
        },
{
    if entry.is_some() {
        return ;
    }
    let mut queue = match buf.remove(id.0) {
        Some(q) => q,
        None => {
            return ;
        },
    };
    if queue.len() == 0 {
        buf.insert(id.0, queue);
        proof {
            assert(buf@ =~= old(buf)@);
        }
        return ;
    }
    let shard = queue.remove(0);
    *entry = Some(shard);
    if queue.len() > 0 {
        buf.insert(id.0, queue);
        proof {
            assert(buf@.dom() =~= old(buf)@.dom());
            assert(buf@[id.0]@ =~= old(buf)@[id.0]@.subrange(
                1,
                old(buf)@[id.0]@.len() as int,
            ));
        }
    }
}

} // verus!
