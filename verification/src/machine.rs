use vstd::prelude::*;

use crate::events::{EventModel, MdEvent};

verus! {

/// The fence language tag that marks a block as diagram source. Only this
/// exact tag is recognised: no aliases, no case folding.
pub open spec fn diagram_tag() -> Seq<char> {
    "plantuml"@
}

/// Whether an event opens a fenced code block tagged as diagram source.
pub open spec fn is_diagram_start(e: EventModel) -> bool {
    e matches EventModel::FencedStart(t) && t == diagram_tag()
}

/// One entry of the extractor's output: either an event passed through
/// unchanged, or the place where a diagram block stood.
pub enum Slot {
    /// An event passed through unchanged.
    Ev(MdEvent),
    /// The place of a removed diagram block; the index says which of the
    /// extracted block sources stood here.
    Block(usize),
}

/// The mathematical model of one slot.
pub ghost enum SlotModel {
    Ev(EventModel),
    Block(int),
}

impl DeepView for Slot {
    type V = SlotModel;

    open spec fn deep_view(&self) -> SlotModel {
        match self {
            Slot::Ev(e) => SlotModel::Ev(e.deep_view()),
            Slot::Block(i) => SlotModel::Block(*i as int),
        }
    }
}

/// The extractor's state: the slots and block sources gathered so far, and
/// the accumulator, present exactly while the machine is inside a diagram
/// block.
#[verifier::ext_equal]
pub ghost struct MachineState {
    pub slots: Seq<SlotModel>,
    pub blocks: Seq<Seq<char>>,
    pub acc: Option<Seq<char>>,
}

pub open spec fn machine_init() -> MachineState {
    MachineState { slots: Seq::empty(), blocks: Seq::empty(), acc: None }
}

/// One transition of the block extractor.
///
/// A diagram-tagged fence start opens (or re-opens) the accumulator and is
/// suppressed. While the accumulator is open, text runs are appended to it
/// and suppressed, and a code-block end closes it, recording the gathered
/// source as the next block. Every other event passes through unchanged.
pub open spec fn machine_step(st: MachineState, e: EventModel) -> MachineState {
    if is_diagram_start(e) {
        MachineState { acc: Some(Seq::empty()), ..st }
    } else {
        match st.acc {
            Some(a) => match e {
                EventModel::Text(t) => MachineState { acc: Some(a + t), ..st },
                EventModel::FencedEnd => MachineState {
                    slots: st.slots.push(SlotModel::Block(st.blocks.len() as int)),
                    blocks: st.blocks.push(a),
                    acc: None,
                },
                _ => MachineState { slots: st.slots.push(SlotModel::Ev(e)), ..st },
            },
            None => MachineState { slots: st.slots.push(SlotModel::Ev(e)), ..st },
        }
    }
}

/// The extractor run over a whole event sequence, from the initial state.
pub open spec fn machine_run(evs: Seq<EventModel>) -> MachineState
    decreases evs.len(),
{
    if evs.len() == 0 {
        machine_init()
    } else {
        machine_step(machine_run(evs.drop_last()), evs.last())
    }
}

/// Consume the events of one chapter and split them into pass-through slots
/// and the sources of the diagram blocks, in source order. An unterminated
/// diagram block (a tagged start with no following code-block end) leaves its
/// gathered text behind: it is in neither result.
#[verifier::loop_isolation(false)]
pub fn extract(events: Vec<MdEvent>) -> (r: (Vec<Slot>, Vec<String>))
    ensures
        r.0.deep_view() == machine_run(events.deep_view()).slots,
        r.1.deep_view() == machine_run(events.deep_view()).blocks,
{
    let ghost all = events.deep_view();
    let ghost n = all.len() as int;
    let mut events = events;
    // Reverse into a stack, so that the events can then be taken in source
    // order by `pop` without cloning them.
    let mut stack: Vec<MdEvent> = Vec::new();
    while events.len() > 0
        invariant
            events.deep_view() =~= all.take(events@.len() as int),
            stack.deep_view() =~= Seq::new((n - events@.len()) as nat, |i: int| all[n - 1 - i]),
            events@.len() <= n,
        decreases events@.len(),
    {
        let ghost pre_events = events.deep_view();
        let ghost pre_stack = stack.deep_view();
        let ghost m = events@.len() as int;
        let e = events.pop().unwrap();
        stack.push(e);
        proof {
            assert(pre_events.len() == m);
            assert(e.deep_view() == pre_events[m - 1]);
            assert(pre_events[m - 1] == all.take(m)[m - 1]);
            assert(all.take(m)[m - 1] == all[m - 1]);
            assert(events.deep_view() =~= all.take(m - 1));
            assert(stack.deep_view() =~= pre_stack.push(e.deep_view()));
            assert(stack.deep_view() =~= Seq::new((n - (m - 1)) as nat, |i: int| all[n - 1 - i]));
        }
    }
    let tag: String = "plantuml".to_owned();
    proof {
        assert(tag@ == diagram_tag());
    }
    let mut slots: Vec<Slot> = Vec::new();
    let mut blocks: Vec<String> = Vec::new();
    let mut acc: Option<String> = None;
    let ghost mut done: int = 0;
    while stack.len() > 0
        invariant
            tag@ == diagram_tag(),
            0 <= done <= n,
            stack@.len() == n - done,
            stack.deep_view() =~= Seq::new((n - done) as nat, |i: int| all[n - 1 - i]),
            slots.deep_view() == machine_run(all.take(done)).slots,
            blocks.deep_view() == machine_run(all.take(done)).blocks,
            acc.deep_view() == machine_run(all.take(done)).acc,
        decreases stack@.len(),
    {
        let ghost pre_stack = stack.deep_view();
        let e = stack.pop().unwrap();
        proof {
            assert(pre_stack.len() == n - done);
            assert(e.deep_view() == pre_stack[n - done - 1]);
            assert(pre_stack[n - done - 1] == all[n - 1 - (n - done - 1)]);
            assert(e.deep_view() == all[done]);
            assert(stack.deep_view().len() == n - done - 1);
            assert forall|i: int| 0 <= i < n - done - 1 implies stack.deep_view()[i] == all[n - 1
                - i] by {
                assert(stack.deep_view()[i] == pre_stack[i]);
                assert(pre_stack[i] == all[n - 1 - i]);
            }
            assert(stack.deep_view() =~= Seq::new((n - (done + 1)) as nat, |i: int| all[n - 1 - i]));
            assert(all.take(done + 1).drop_last() =~= all.take(done));
            assert(all.take(done + 1).last() == all[done]);
        }
        let ghost st = machine_run(all.take(done));
        let ghost st2 = machine_step(st, all[done]);
        match e {
            MdEvent::FencedStart(t) => {
                if t == tag {
                    acc = Some(String::new());
                } else {
                    slots.push(Slot::Ev(MdEvent::FencedStart(t)));
                    proof {
                        assert(slots.deep_view() =~= st2.slots);
                    }
                }
            },
            MdEvent::Text(t) => {
                let cur = acc;
                match cur {
                    Some(mut a) => {
                        a.append(t.as_str());
                        acc = Some(a);
                    },
                    None => {
                        acc = None;
                        slots.push(Slot::Ev(MdEvent::Text(t)));
                        proof {
                            assert(slots.deep_view() =~= st2.slots);
                        }
                    },
                }
            },
            MdEvent::FencedEnd => {
                let cur = acc;
                match cur {
                    Some(a) => {
                        slots.push(Slot::Block(blocks.len()));
                        blocks.push(a);
                        acc = None;
                        proof {
                            assert(slots.deep_view() =~= st2.slots);
                            assert(blocks.deep_view() =~= st2.blocks);
                        }
                    },
                    None => {
                        acc = None;
                        slots.push(Slot::Ev(MdEvent::FencedEnd));
                        proof {
                            assert(slots.deep_view() =~= st2.slots);
                        }
                    },
                }
            },
            other => {
                slots.push(Slot::Ev(other));
                proof {
                    assert(slots.deep_view() =~= st2.slots);
                }
            },
        }
        proof {
            done = done + 1;
        }
    }
    proof {
        assert(all.take(done) =~= all);
    }
    (slots, blocks)
}

} // verus!
