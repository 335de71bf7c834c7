use vstd::prelude::*;

use crate::events::EventModel;
use crate::machine::{is_diagram_start, machine_run, machine_step, SlotModel};
use crate::render::{
    lemma_first_occ_found, occurs, occurs_at, preamble, splice_all, splice_event,
    strip_preamble_spec, utf8_decode, wrap_figure_spec, OutcomeModel,
};
use crate::diag::exit_diag_spec;

verus! {

/// The events passed through by the slots, in order; block slots contribute
/// nothing here.
pub open spec fn passed_events(slots: Seq<SlotModel>) -> Seq<EventModel>
    decreases slots.len(),
{
    if slots.len() == 0 {
        Seq::empty()
    } else {
        passed_events(slots.drop_last()) + (match slots.last() {
            SlotModel::Ev(e) => seq![e],
            SlotModel::Block(_) => Seq::empty(),
        })
    }
}

/// The indices carried by the block slots, in slot order.
pub open spec fn block_index_seq(slots: Seq<SlotModel>) -> Seq<int>
    decreases slots.len(),
{
    if slots.len() == 0 {
        Seq::empty()
    } else {
        match slots.last() {
            SlotModel::Block(i) => block_index_seq(slots.drop_last()).push(i),
            _ => block_index_seq(slots.drop_last()),
        }
    }
}

/// The replacement events contributed by the block slots, in slot order:
/// exactly what `splice_all` adds beyond the passed-through events.
pub open spec fn block_outputs(slots: Seq<SlotModel>, outs: Seq<OutcomeModel>) -> Seq<EventModel>
    decreases slots.len(),
{
    if slots.len() == 0 {
        Seq::empty()
    } else {
        block_outputs(slots.drop_last(), outs) + (match slots.last() {
            SlotModel::Block(i) => {
                if 0 <= i < outs.len() {
                    match splice_event(outs[i]) {
                        Some(e) => seq![e],
                        None => Seq::empty(),
                    }
                } else {
                    Seq::empty()
                }
            },
            _ => Seq::empty(),
        })
    }
}

/// Pass-through invariance: over events that hold no diagram-tagged fence
/// start, the extractor gathers no block, ends outside any block, and
/// splicing hands every event back unchanged, whatever outcomes are
/// supplied.
pub proof fn lemma_passthrough(evs: Seq<EventModel>, outs: Seq<OutcomeModel>)
    requires
        forall|i: int| 0 <= i < evs.len() ==> !is_diagram_start(evs[i]),
    ensures
        machine_run(evs).blocks =~= Seq::<Seq<char>>::empty(),
        machine_run(evs).acc is None,
        splice_all(machine_run(evs).slots, outs) =~= evs,
    decreases evs.len(),
{
    if evs.len() > 0 {
        let prefix = evs.drop_last();
        let e = evs.last();
        assert(forall|i: int| 0 <= i < prefix.len() ==> prefix[i] == evs[i]);
        lemma_passthrough(prefix, outs);
        let st = machine_run(prefix);
        let st2 = machine_run(evs);
        assert(st2 == machine_step(st, e));
        assert(!is_diagram_start(e));
        assert(st2.slots == st.slots.push(SlotModel::Ev(e)));
        assert(st.slots.push(SlotModel::Ev(e)).drop_last() =~= st.slots);
        assert(splice_all(st2.slots, outs) =~= splice_all(st.slots, outs) + seq![e]);
        assert(splice_all(st2.slots, outs) =~= evs);
    }
}

/// Ordering of extraction: the extractor records blocks in source order —
/// the block slots of a run carry the indices 0, 1, ... in slot order, one
/// for each gathered block source.
pub proof fn lemma_blocks_in_order(evs: Seq<EventModel>)
    ensures
        block_index_seq(machine_run(evs).slots) =~= Seq::new(
            machine_run(evs).blocks.len(),
            |i: int| i,
        ),
    decreases evs.len(),
{
    if evs.len() > 0 {
        let prefix = evs.drop_last();
        let e = evs.last();
        lemma_blocks_in_order(prefix);
        let st = machine_run(prefix);
        let st2 = machine_run(evs);
        assert(st2 == machine_step(st, e));
        if is_diagram_start(e) {
            assert(st2.slots == st.slots);
        } else {
            match st.acc {
                Some(a) => match e {
                    EventModel::Text(_) => {
                        assert(st2.slots == st.slots);
                    },
                    EventModel::FencedEnd => {
                        let b = st.blocks.len() as int;
                        assert(st2.slots == st.slots.push(SlotModel::Block(b)));
                        assert(st.slots.push(SlotModel::Block(b)).drop_last() =~= st.slots);
                        assert(block_index_seq(st2.slots) =~= block_index_seq(st.slots).push(b));
                    },
                    _ => {
                        assert(st2.slots == st.slots.push(SlotModel::Ev(e)));
                        assert(st.slots.push(SlotModel::Ev(e)).drop_last() =~= st.slots);
                    },
                },
                None => {
                    assert(st2.slots == st.slots.push(SlotModel::Ev(e)));
                    assert(st.slots.push(SlotModel::Ev(e)).drop_last() =~= st.slots);
                },
            }
        }
    }
}

proof fn lemma_outputs_in_order_upto(slots: Seq<SlotModel>, outs: Seq<OutcomeModel>, m: int)
    requires
        0 <= m <= outs.len(),
        block_index_seq(slots) =~= Seq::new(m as nat, |i: int| i),
        forall|i: int| 0 <= i < m ==> splice_event(outs[i]) is Some,
    ensures
        block_outputs(slots, outs) =~= Seq::new(m as nat, |i: int| splice_event(outs[i]).unwrap()),
    decreases slots.len(),
{
    if slots.len() > 0 {
        let prefix = slots.drop_last();
        match slots.last() {
            SlotModel::Block(b) => {
                let bis = block_index_seq(prefix);
                assert(block_index_seq(slots) == bis.push(b));
                assert(bis.push(b).len() == m);
                assert(bis.push(b).last() == b);
                assert(Seq::new(m as nat, |i: int| i).last() == m - 1);
                assert(b == m - 1);
                assert(bis.push(b).drop_last() =~= bis);
                assert(Seq::new(m as nat, |i: int| i).drop_last() =~= Seq::new(
                    (m - 1) as nat,
                    |i: int| i,
                ));
                assert(bis =~= Seq::new((m - 1) as nat, |i: int| i));
                lemma_outputs_in_order_upto(prefix, outs, m - 1);
                assert(splice_event(outs[b]) is Some);
                let f = |i: int| splice_event(outs[i]).unwrap();
                assert(block_outputs(slots, outs) =~= block_outputs(prefix, outs) + seq![f(b)]);
                assert(block_outputs(prefix, outs) + seq![f(b)] =~= Seq::new(
                    (m - 1) as nat,
                    f,
                ).push(f(m - 1)));
                assert(Seq::new((m - 1) as nat, f).push(f(m - 1)) =~= Seq::new(m as nat, f));
                assert(block_outputs(slots, outs) =~= Seq::new(
                    m as nat,
                    |i: int| splice_event(outs[i]).unwrap(),
                ));
            },
            _ => {
                assert(block_index_seq(slots) == block_index_seq(prefix));
                lemma_outputs_in_order_upto(prefix, outs, m);
                assert(block_outputs(slots, outs) =~= block_outputs(prefix, outs));
            },
        }
    } else {
        assert(block_index_seq(slots).len() == 0);
        assert(m == 0);
        assert(block_outputs(slots, outs) =~= Seq::new(
            m as nat,
            |i: int| splice_event(outs[i]).unwrap(),
        ));
    }
}

/// Ordering under multiple blocks: where the slots' block indices run
/// 0, 1, ... in slot order and every outcome yields a replacement, the
/// spliced replacements appear in exactly outcome order — the i-th rendered
/// output stands where the i-th block stood.
pub proof fn lemma_outputs_in_order(slots: Seq<SlotModel>, outs: Seq<OutcomeModel>)
    requires
        block_index_seq(slots) =~= Seq::new(outs.len(), |i: int| i),
        forall|i: int| 0 <= i < outs.len() ==> splice_event(outs[i]) is Some,
    ensures
        block_outputs(slots, outs) =~= Seq::new(
            outs.len(),
            |i: int| splice_event(outs[i]).unwrap(),
        ),
{
    lemma_outputs_in_order_upto(slots, outs, outs.len() as int);
}

/// Failure tolerance: where every render outcome yields no replacement (a
/// spawn failure, a failing exit status, or output that is not valid text),
/// splicing leaves exactly the passed-through events — the blocks vanish and
/// nothing else changes.
pub proof fn lemma_failures_drop_blocks(slots: Seq<SlotModel>, outs: Seq<OutcomeModel>)
    requires
        forall|i: int| 0 <= i < outs.len() ==> splice_event(outs[i]) is None,
    ensures
        splice_all(slots, outs) =~= passed_events(slots),
    decreases slots.len(),
{
    if slots.len() > 0 {
        lemma_failures_drop_blocks(slots.drop_last(), outs);
    }
}

/// Pass-through invariance at chapter level: where a chapter's events hold
/// no diagram-tagged fence start, the serializer is handed exactly the
/// events the parser produced, so the chapter is re-rendered from its own
/// parse, unchanged.
pub proof fn lemma_passthrough_chapter(content: Seq<char>)
    requires
        forall|i: int|
            0 <= i < crate::events::events_of(content).len() ==> !is_diagram_start(
                crate::events::events_of(content)[i],
            ),
    ensures
        crate::events::cmark_of(
            splice_all(machine_run(crate::events::events_of(content)).slots, Seq::empty()),
        ) == crate::events::cmark_of(crate::events::events_of(content)),
{
    lemma_passthrough(crate::events::events_of(content), Seq::empty());
}

/// Preamble stripping: where a successful render's output decodes to the
/// preamble declaration followed by content in which the preamble does not
/// occur again, the spliced replacement is exactly that content wrapped —
/// and the preamble occurs nowhere in it.
pub proof fn lemma_preamble_stripped(bytes: Seq<u8>, rest: Seq<char>)
    requires
        utf8_decode(bytes) == Some(preamble() + rest),
        !occurs(rest, preamble()),
    ensures
        splice_event(OutcomeModel::Success(bytes)) == Some(
            EventModel::RawHtml(wrap_figure_spec(rest)),
        ),
        !occurs(wrap_figure_spec(rest), preamble()),
{
    reveal_strlit("<?xml version=\"1.0\" encoding=\"UTF-8\" standalone=\"no\"?>");
    reveal_strlit("<figure>");
    reveal_strlit("</figure>\n\n");
    let p = preamble();
    let text = preamble() + rest;
    assert(text.subrange(0, p.len() as int) =~= p);
    assert(occurs_at(text, p, 0));
    lemma_first_occ_found(text, p, 0);
    assert(text.subrange(p.len() as int, text.len() as int) =~= rest);
    assert(strip_preamble_spec(text) =~= rest);
    assert(splice_event(OutcomeModel::Success(bytes)) == Some(
        EventModel::RawHtml(wrap_figure_spec(rest)),
    ));
    let a = "<figure>"@;
    let b = "</figure>\n\n"@;
    let w = wrap_figure_spec(rest);
    assert(a.len() == 8);
    assert(b.len() == 11);
    assert(p.len() > 10);
    assert(w.len() == 8 + rest.len() + 11);
    assert forall|i: int| !occurs_at(w, p, i) by {
        if occurs_at(w, p, i) {
            if i < 8 {
                // the container's closing bracket lies inside the would-be
                // occurrence, but no bracket stands that early in the preamble
                assert(w.subrange(i, i + p.len() as int)[7 - i] == w[7]);
                assert(w[7] == (a + rest)[7]);
                assert((a + rest)[7] == a[7]);
                assert(p[7 - i] == '>');
                assert(p[0] != '>');
                assert(p[1] != '>');
                assert(p[2] != '>');
                assert(p[3] != '>');
                assert(p[4] != '>');
                assert(p[5] != '>');
                assert(p[6] != '>');
                assert(p[7] != '>');
                assert(false);
            } else if i + p.len() <= 8 + rest.len() {
                // the occurrence would lie wholly inside the content
                assert forall|j: int| 0 <= j < p.len() implies rest[i - 8 + j] == p[j] by {
                    assert(w.subrange(i, i + p.len() as int)[j] == w[i + j]);
                    assert(w[i + j] == (a + rest)[i + j]);
                    assert((a + rest)[i + j] == rest[i + j - 8]);
                }
                assert(rest.subrange(i - 8, i - 8 + p.len() as int) =~= p);
                assert(occurs_at(rest, p, i - 8));
                assert(false);
            } else {
                // the occurrence would end inside the closing container: its
                // final bracket meets the container's bracket, but the char
                // before that one differs
                let t = i + p.len() - 1 - (8 + rest.len());
                assert(0 <= t < 11);
                assert(w.subrange(i, i + p.len() as int)[p.len() - 1] == w[i + p.len() - 1]);
                assert(w[i + p.len() - 1] == b[t]);
                assert(p[p.len() - 1] == '>');
                assert(b[t] == '>');
                assert(b[0] != '>');
                assert(b[1] != '>');
                assert(b[2] != '>');
                assert(b[3] != '>');
                assert(b[4] != '>');
                assert(b[5] != '>');
                assert(b[6] != '>');
                assert(b[7] != '>');
                assert(b[9] != '>');
                assert(b[10] != '>');
                assert(t == 8);
                assert(w.subrange(i, i + p.len() as int)[p.len() - 2] == w[i + p.len() - 2]);
                assert(w[i + p.len() - 2] == b[7]);
                assert(p[p.len() - 2] == '?');
                assert(b[7] == 'e');
                assert(false);
            }
        }
    }
}

/// A failing exit status owes a diagnostic that carries the captured error
/// stream in full.
pub proof fn lemma_exit_diag_carries_stderr(code: Option<i32>, out: Seq<char>, err: Seq<char>)
    ensures
        occurs(exit_diag_spec(code, out, err), err),
{
    let m = exit_diag_spec(code, out, err);
    let pre = "plantuml failed, exit code: "@ + crate::diag::exit_code_text(code)
        + "\nplantuml STDOUT:\n"@ + out + "\nplantuml STDERR:\n"@;
    let i = pre.len() as int;
    assert(m.subrange(i, i + err.len()) =~= err);
    assert(occurs_at(m, err, i));
}

} // verus!
