//! The events of the logic system, the queues that hold them between ticks, and the order
//! in which the parts of the system run.

use std::collections::VecDeque;
use vstd::prelude::*;

use crate::structure::structure_block::StructureBlock;

verus! {

/// Tells that the inputs of a logic block may have changed: an output port of a group that
/// one of its input ports belongs to has written a new signal. Whoever owns the block's
/// logic reads its input ports and computes the block's own signal from them.
#[derive(Debug, Clone, Copy, PartialEq, Eq, Structural)]
pub struct LogicInputEvent {
    /// The block.
    pub block: StructureBlock,
    /// The number of the entity that holds the structure and logic graph the block is in.
    pub entity: u64,
}

/// Tells that the output of a logic block has changed: the block was placed, or its inputs
/// changed a tick ago. Whoever owns the block's logic writes the block's signal to its
/// output ports.
#[derive(Debug, Clone, Copy, PartialEq, Eq, Structural)]
pub struct LogicOutputEvent {
    /// The block.
    pub block: StructureBlock,
    /// The number of the entity that holds the structure and logic graph the block is in.
    pub entity: u64,
}

/// Asks for a [`LogicInputEvent`] at the next logic tick. This is how an input is
/// re-evaluated for a reason outside a tick, like the placing of a block.
#[derive(Debug, Clone, Copy, PartialEq, Eq, Structural)]
pub struct QueueLogicInputEvent(pub LogicInputEvent);

/// Asks for a [`LogicOutputEvent`] at the next logic tick. This is how an output is
/// re-evaluated for a reason outside a tick, like the placing of a block.
#[derive(Debug, Clone, Copy, PartialEq, Eq, Structural)]
pub struct QueueLogicOutputEvent(pub LogicOutputEvent);

impl QueueLogicInputEvent {
    /// Asks for an input event for `block` of the structure held by `entity`.
    pub fn new(block: StructureBlock, entity: u64) -> (event: QueueLogicInputEvent)
        ensures
            event == QueueLogicInputEvent(LogicInputEvent { block, entity }),
    {
        QueueLogicInputEvent(LogicInputEvent { block, entity })
    }
}

impl QueueLogicOutputEvent {
    /// Asks for an output event for `block` of the structure held by `entity`.
    pub fn new(block: StructureBlock, entity: u64) -> (event: QueueLogicOutputEvent)
        ensures
            event == QueueLogicOutputEvent(LogicOutputEvent { block, entity }),
    {
        QueueLogicOutputEvent(LogicOutputEvent { block, entity })
    }
}

/// The output events that wait for the next logic tick, oldest first.
pub struct LogicOutputEventQueue(VecDeque<LogicOutputEvent>);

/// The input events that wait for the next logic tick, oldest first.
pub struct LogicInputEventQueue(VecDeque<LogicInputEvent>);

impl View for LogicOutputEventQueue {
    type V = Seq<LogicOutputEvent>;

    closed spec fn view(&self) -> Seq<LogicOutputEvent> {
        self.0@
    }
}

impl View for LogicInputEventQueue {
    type V = Seq<LogicInputEvent>;

    closed spec fn view(&self) -> Seq<LogicInputEvent> {
        self.0@
    }
}

impl LogicOutputEventQueue {
    /// An empty queue.
    pub fn new() -> (queue: LogicOutputEventQueue)
        ensures
            queue@.len() == 0,
    {
        LogicOutputEventQueue(VecDeque::new())
    }

    /// How many events wait.
    pub fn len(&self) -> (n: usize)
        ensures
            n == self@.len(),
    {
        self.0.len()
    }
}

impl LogicInputEventQueue {
    /// An empty queue.
    pub fn new() -> (queue: LogicInputEventQueue)
        ensures
            queue@.len() == 0,
    {
        LogicInputEventQueue(VecDeque::new())
    }

    /// How many events wait.
    pub fn len(&self) -> (n: usize)
        ensures
            n == self@.len(),
    {
        self.0.len()
    }
}

/// The input events that the requests `events` ask for, in their order.
pub open spec fn spec_asked_inputs(events: Seq<QueueLogicInputEvent>) -> Seq<LogicInputEvent> {
    events.map_values(|ev: QueueLogicInputEvent| ev.0)
}

/// The output events that the requests `events` ask for, in their order.
pub open spec fn spec_asked_outputs(events: Seq<QueueLogicOutputEvent>) -> Seq<LogicOutputEvent> {
    events.map_values(|ev: QueueLogicOutputEvent| ev.0)
}

/// Puts the input events that were asked for since the last pass at the end of the queue, in
/// the order in which they were asked for.
pub fn queue_logic_consumers(events: &Vec<QueueLogicInputEvent>, queue: &mut LogicInputEventQueue)
    ensures
        final(queue)@ == old(queue)@ + spec_asked_inputs(events@),
{
    let mut i: usize = 0;
    while i < events.len()
        invariant
            i <= events.len(),
            queue@ == old(queue)@ + spec_asked_inputs(events@.take(i as int)),
        decreases events.len() - i,
    {
        queue.0.push_back(events[i].0);
        proof {
            assert(spec_asked_inputs(events@.take(i + 1)) =~= spec_asked_inputs(
                events@.take(i as int),
            ).push(events@[i as int].0));
            assert(queue@ =~= old(queue)@ + spec_asked_inputs(events@.take(i + 1)));
        }
        i += 1;
    }
    proof {
        assert(events@.take(events@.len() as int) == events@);
    }
}

/// Puts the output events that were asked for since the last pass at the end of the queue,
/// in the order in which they were asked for.
pub fn queue_logic_producers(events: &Vec<QueueLogicOutputEvent>, queue: &mut LogicOutputEventQueue)
    ensures
        final(queue)@ == old(queue)@ + spec_asked_outputs(events@),
{
    let mut i: usize = 0;
    while i < events.len()
        invariant
            i <= events.len(),
            queue@ == old(queue)@ + spec_asked_outputs(events@.take(i as int)),
        decreases events.len() - i,
    {
        queue.0.push_back(events[i].0);
        proof {
            assert(spec_asked_outputs(events@.take(i + 1)) =~= spec_asked_outputs(
                events@.take(i as int),
            ).push(events@[i as int].0));
            assert(queue@ =~= old(queue)@ + spec_asked_outputs(events@.take(i + 1)));
        }
        i += 1;
    }
    proof {
        assert(events@.take(events@.len() as int) == events@);
    }
}

/// Empties both queues at a logic tick and hands out what they held, oldest first: the input
/// events and the output events that are to be sent now.
pub fn send_queued_logic_events(
    outputs: &mut LogicOutputEventQueue,
    inputs: &mut LogicInputEventQueue,
) -> (sent: (Vec<LogicInputEvent>, Vec<LogicOutputEvent>))
    ensures
        sent.0@ == old(inputs)@,
        sent.1@ == old(outputs)@,
        final(inputs)@.len() == 0,
        final(outputs)@.len() == 0,
{
    let mut sent_inputs: Vec<LogicInputEvent> = Vec::new();
    while inputs.0.len() > 0
        invariant
            sent_inputs@ + inputs@ == old(inputs)@,
        decreases inputs@.len(),
    {
        let ghost before = inputs@;
        let next = inputs.0.pop_front();
        match next {
            Some(ev) => {
                sent_inputs.push(ev);
                proof {
                    assert(sent_inputs@ + inputs@ =~= old(inputs)@);
                }
            },
            None => {},
        }
    }
    let mut sent_outputs: Vec<LogicOutputEvent> = Vec::new();
    while outputs.0.len() > 0
        invariant
            sent_outputs@ + outputs@ == old(outputs)@,
        decreases outputs@.len(),
    {
        let next = outputs.0.pop_front();
        match next {
            Some(ev) => {
                sent_outputs.push(ev);
                proof {
                    assert(sent_outputs@ + outputs@ =~= old(outputs)@);
                }
            },
            None => {},
        }
    }
    proof {
        assert(sent_inputs@ =~= sent_inputs@ + inputs@);
        assert(sent_outputs@ =~= sent_outputs@ + outputs@);
    }
    (sent_inputs, sent_outputs)
}

/// The parts of the logic system, in the order in which they run in one pass.
#[derive(Debug, Hash, PartialEq, Eq, Clone, Copy, Structural)]
pub enum LogicSystemSet {
    /// Logic blocks are added to and removed from the graph before anything is produced or
    /// consumed, so that they take part in their first logic tick.
    EditLogicGraph,
    /// What tried to consume before a logic tick, like a block that was placed, is put in a
    /// queue.
    QueueConsumers,
    /// What tried to produce before a logic tick, like a block that was placed, is put in a
    /// queue.
    QueueProducers,
    /// At a logic tick, what was queued is sent.
    SendQueues,
    /// All input ports read the signal of their group: first in each logic tick.
    Consume,
    /// All output ports write their signal to their group: second in each logic tick.
    Produce,
}

impl LogicSystemSet {
    /// The place of this part in a pass.
    pub open spec fn spec_order(self) -> int {
        match self {
            LogicSystemSet::EditLogicGraph => 0,
            LogicSystemSet::QueueConsumers => 1,
            LogicSystemSet::QueueProducers => 2,
            LogicSystemSet::SendQueues => 3,
            LogicSystemSet::Consume => 4,
            LogicSystemSet::Produce => 5,
        }
    }

    /// Whether this part runs only at a logic tick, not in every pass.
    pub open spec fn spec_on_tick_only(self) -> bool {
        self.spec_order() >= 3
    }

    /// The place of this part in a pass.
    pub fn order(&self) -> (order: u8)
        ensures
            order == self.spec_order(),
    {
        match self {
            LogicSystemSet::EditLogicGraph => 0,
            LogicSystemSet::QueueConsumers => 1,
            LogicSystemSet::QueueProducers => 2,
            LogicSystemSet::SendQueues => 3,
            LogicSystemSet::Consume => 4,
            LogicSystemSet::Produce => 5,
        }
    }

    /// Whether this part runs only at a logic tick, not in every pass.
    pub fn on_tick_only(&self) -> (gated: bool)
        ensures
            gated == self.spec_on_tick_only(),
    {
        self.order() >= 3
    }
}

/// The parts of the logic system that run in one pass, in their order. Graph edits and
/// queueing run in every pass; sending the queues, consuming and producing run only in a
/// pass in which a logic tick is due.
pub fn logic_system_sets(tick_due: bool) -> (sets: Vec<LogicSystemSet>)
    ensures
        forall|i: int, j: int|
            0 <= i < j < sets@.len() ==> sets@[i].spec_order() < sets@[j].spec_order(),
        forall|set: LogicSystemSet| #[trigger]
            sets@.contains(set) <==> (tick_due || !set.spec_on_tick_only()),
{
    let mut sets: Vec<LogicSystemSet> = Vec::new();
    sets.push(LogicSystemSet::EditLogicGraph);
    sets.push(LogicSystemSet::QueueConsumers);
    sets.push(LogicSystemSet::QueueProducers);
    if tick_due {
        sets.push(LogicSystemSet::SendQueues);
        sets.push(LogicSystemSet::Consume);
        sets.push(LogicSystemSet::Produce);
    }
    proof {
        assert forall|set: LogicSystemSet| #[trigger]
            sets@.contains(set) <==> (tick_due || !set.spec_on_tick_only()) by {
            if tick_due || !set.spec_on_tick_only() {
                assert(sets@[set.spec_order()] == set);
            }
            if sets@.contains(set) {
                let i = choose|i: int| 0 <= i < sets@.len() && sets@[i] == set;
                assert(sets@[i].spec_order() == i);
            }
        }
    }
    sets
}

/// The time between two logic ticks, in milliseconds.
pub fn logic_tick_millis() -> (millis: u64)
    ensures
        millis == 50,
        millis * crate::logic::LOGIC_TICKS_PER_SECOND == 1000,
{
    1000 / crate::logic::LOGIC_TICKS_PER_SECOND
}

} // verus!
