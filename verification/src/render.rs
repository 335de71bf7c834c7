use vstd::prelude::*;

use vstd::string::{StrSliceExecFns, StringExecFns};

use crate::events::{EventModel, MdEvent};
use crate::machine::{Slot, SlotModel};

verus! {

/// What one invocation of the external diagram renderer came to.
pub enum RenderOutcome {
    /// The renderer exited successfully; the bytes it wrote to its output
    /// channel.
    Success(Vec<u8>),
    /// The renderer could not be spawned, or could not be written to; the
    /// text describing the cause.
    SpawnFailed(String),
    /// The renderer exited with a failure status; the exit code (absent when
    /// the process was terminated by a signal) and the captured output and
    /// error streams.
    ExitFailed { code: Option<i32>, stdout: String, stderr: String },
}

/// The mathematical model of one render outcome.
pub ghost enum OutcomeModel {
    Success(Seq<u8>),
    SpawnFailed(Seq<char>),
    ExitFailed { code: Option<i32>, stdout: Seq<char>, stderr: Seq<char> },
}

impl DeepView for RenderOutcome {
    type V = OutcomeModel;

    open spec fn deep_view(&self) -> OutcomeModel {
        match self {
            RenderOutcome::Success(bytes) => OutcomeModel::Success(bytes@),
            RenderOutcome::SpawnFailed(cause) => OutcomeModel::SpawnFailed(cause@),
            RenderOutcome::ExitFailed { code, stdout, stderr } => (OutcomeModel::ExitFailed {
                code: *code,
                stdout: stdout@,
                stderr: stderr@,
            }),
        }
    }
}

/// The fixed preamble declaration that the renderer places in front of its
/// output document, stripped once from a successful render.
pub open spec fn preamble() -> Seq<char> {
    "<?xml version=\"1.0\" encoding=\"UTF-8\" standalone=\"no\"?>"@
}

/// Whether `needle` occurs in `hay` starting at position `i`.
pub open spec fn occurs_at(hay: Seq<char>, needle: Seq<char>, i: int) -> bool {
    0 <= i && i + needle.len() <= hay.len() && hay.subrange(i, i + needle.len()) == needle
}

/// Whether `needle` occurs anywhere in `hay`.
pub open spec fn occurs(hay: Seq<char>, needle: Seq<char>) -> bool {
    exists|i: int| occurs_at(hay, needle, i)
}

/// The first position at or after `i` where `needle` occurs in `hay`.
pub open spec fn first_occ_from(hay: Seq<char>, needle: Seq<char>, i: int) -> Option<int>
    decreases hay.len() - i,
    when 0 <= i && 0 < needle.len()
{
    if i + needle.len() > hay.len() {
        None
    } else if occurs_at(hay, needle, i) {
        Some(i)
    } else {
        first_occ_from(hay, needle, i + 1)
    }
}

/// The first position where `needle` occurs in `hay`, if any.
pub open spec fn first_occ(hay: Seq<char>, needle: Seq<char>) -> Option<int> {
    first_occ_from(hay, needle, 0)
}

/// `hay` with a single occurrence of the preamble removed: the first one,
/// if there is one at all.
pub open spec fn strip_preamble_spec(s: Seq<char>) -> Seq<char> {
    match first_occ(s, preamble()) {
        Some(i) => s.subrange(0, i) + s.subrange(i + preamble().len() as int, s.len() as int),
        None => s,
    }
}

/// Rendered content wrapped in the minimal raw-passthrough container,
/// followed by a blank separator.
pub open spec fn wrap_figure_spec(s: Seq<char>) -> Seq<char> {
    "<figure>"@ + s + "</figure>\n\n"@
}

proof fn lemma_first_occ_from_none(hay: Seq<char>, needle: Seq<char>, k: int)
    requires
        0 <= k,
        0 < needle.len(),
        forall|j: int| k <= j ==> !occurs_at(hay, needle, j),
    ensures
        first_occ_from(hay, needle, k) == None::<int>,
    decreases hay.len() - k,
{
    if k + needle.len() <= hay.len() {
        lemma_first_occ_from_none(hay, needle, k + 1);
    }
}

/// Where nothing occurs at any position, there is no first occurrence.
pub proof fn lemma_first_occ_none(hay: Seq<char>, needle: Seq<char>)
    requires
        0 < needle.len(),
        forall|j: int| !occurs_at(hay, needle, j),
    ensures
        first_occ(hay, needle) == None::<int>,
        !occurs(hay, needle),
{
    lemma_first_occ_from_none(hay, needle, 0);
}

proof fn lemma_first_occ_from_found(hay: Seq<char>, needle: Seq<char>, k: int, i: int)
    requires
        0 <= k <= i,
        0 < needle.len(),
        occurs_at(hay, needle, i),
        forall|j: int| k <= j < i ==> !occurs_at(hay, needle, j),
    ensures
        first_occ_from(hay, needle, k) == Some(i),
    decreases i - k,
{
    if k < i {
        lemma_first_occ_from_found(hay, needle, k + 1, i);
    }
}

/// An occurrence before which nothing occurs is the first occurrence.
pub proof fn lemma_first_occ_found(hay: Seq<char>, needle: Seq<char>, i: int)
    requires
        0 < needle.len(),
        occurs_at(hay, needle, i),
        forall|j: int| 0 <= j < i ==> !occurs_at(hay, needle, j),
    ensures
        first_occ(hay, needle) == Some(i),
{
    lemma_first_occ_from_found(hay, needle, 0, i);
}

/// Remove the first occurrence of the renderer's preamble declaration from
/// `s`, if there is one; otherwise hand `s` back unchanged. The match is an
/// exact literal match, nothing more.
#[verifier::loop_isolation(false)]
pub fn strip_preamble(s: &str) -> (r: String)
    ensures
        r@ == strip_preamble_spec(s@),
{
    let pat: &str = "<?xml version=\"1.0\" encoding=\"UTF-8\" standalone=\"no\"?>";
    proof {
        reveal_strlit("<?xml version=\"1.0\" encoding=\"UTF-8\" standalone=\"no\"?>");
        assert(pat@ == preamble());
    }
    let n = s.unicode_len();
    let plen = pat.unicode_len();
    if plen > n {
        proof {
            assert(forall|j: int| !occurs_at(s@, preamble(), j));
            lemma_first_occ_none(s@, preamble());
        }
        return s.to_owned();
    }
    let mut i: usize = 0;
    while i <= n - plen
        invariant
            0 <= i <= n - plen + 1,
            forall|j: int| 0 <= j < i ==> !occurs_at(s@, preamble(), j),
        decreases n - plen - i + 1,
    {
        let mut j: usize = 0;
        let mut matched = true;
        while matched && j < plen
            invariant
                0 <= j <= plen,
                i + plen <= n,
                matched ==> forall|k: int| 0 <= k < j ==> s@[i + k] == preamble()[k],
                !matched ==> !occurs_at(s@, preamble(), i as int),
            decreases plen - j + (if matched { 1int } else { 0int }),
        {
            if s.get_char(i + j) != pat.get_char(j) {
                proof {
                    assert(s@.subrange(i as int, i + plen as int)[j as int] == s@[i + j]);
                }
                matched = false;
            } else {
                j = j + 1;
            }
        }
        if matched {
            proof {
                assert(s@.subrange(i as int, i + plen as int) =~= preamble());
                assert(occurs_at(s@, preamble(), i as int));
                lemma_first_occ_found(s@, preamble(), i as int);
            }
            let mut out: String = s.substring_char(0, i).to_owned();
            out.append(s.substring_char(i + plen, n));
            return out;
        }
        i = i + 1;
    }
    proof {
        assert(forall|j: int| !occurs_at(s@, preamble(), j));
        lemma_first_occ_none(s@, preamble());
    }
    s.to_owned()
}

/// Wrap rendered content in the raw-passthrough container and the trailing
/// blank separator.
pub fn wrap_figure(s: &str) -> (r: String)
    ensures
        r@ == wrap_figure_spec(s@),
{
    let mut out: String = "<figure>".to_owned();
    out.append(s);
    out.append("</figure>\n\n");
    out
}

/// The decoding of `bytes` as UTF-8 text: present exactly where the bytes
/// are valid UTF-8.
pub uninterp spec fn utf8_decode(bytes: Seq<u8>) -> Option<Seq<char>>;

/// Relies on std's String::from_utf8: it succeeds exactly on valid UTF-8
/// input, and the decoded text depends on the bytes alone.
#[verifier::external_body]
pub(crate) fn utf8_to_string(bytes: &Vec<u8>) -> (r: Option<String>)
    ensures
        r is Some <==> utf8_decode(bytes@) is Some,
        r matches Some(s) ==> utf8_decode(bytes@) == Some(s@),
{
    match String::from_utf8(bytes.clone()) {
        Ok(s) => Some(s),
        Err(_) => None,
    }
}

/// The single replacement event for one render outcome: the decoded output,
/// preamble stripped, wrapped as raw content — or nothing, where the render
/// failed or its output was not valid text.
pub open spec fn splice_event(o: OutcomeModel) -> Option<EventModel> {
    match o {
        OutcomeModel::Success(bytes) => match utf8_decode(bytes) {
            Some(text) => Some(EventModel::RawHtml(wrap_figure_spec(strip_preamble_spec(text)))),
            None => None,
        },
        _ => None,
    }
}

/// The event sequence after splicing: pass-through slots keep their event,
/// and each block slot is replaced by the replacement event of its render
/// outcome — or by nothing, where that render failed.
pub open spec fn splice_all(slots: Seq<SlotModel>, outs: Seq<OutcomeModel>) -> Seq<EventModel>
    decreases slots.len(),
{
    if slots.len() == 0 {
        Seq::empty()
    } else {
        splice_all(slots.drop_last(), outs) + (match slots.last() {
            SlotModel::Ev(e) => seq![e],
            SlotModel::Block(i) => {
                if 0 <= i < outs.len() {
                    match splice_event(outs[i]) {
                        Some(e) => seq![e],
                        None => Seq::empty(),
                    }
                } else {
                    Seq::empty()
                }
            },
        })
    }
}

/// Replace each block slot by the replacement event of its render outcome,
/// drop the blocks whose render failed, and keep every passed-through event,
/// in order.
#[verifier::loop_isolation(false)]
pub fn splice(slots: Vec<Slot>, outcomes: &Vec<RenderOutcome>) -> (r: Vec<MdEvent>)
    ensures
        r.deep_view() == splice_all(slots.deep_view(), outcomes.deep_view()),
{
    let ghost all = slots.deep_view();
    let ghost n = all.len() as int;
    let ghost outs = outcomes.deep_view();
    let mut slots = slots;
    // Reverse into a stack, so that the slots can then be taken in source
    // order by `pop` without cloning them.
    let mut stack: Vec<Slot> = Vec::new();
    while slots.len() > 0
        invariant
            slots.deep_view() =~= all.take(slots@.len() as int),
            stack.deep_view() =~= Seq::new((n - slots@.len()) as nat, |i: int| all[n - 1 - i]),
            slots@.len() <= n,
        decreases slots@.len(),
    {
        let ghost pre_slots = slots.deep_view();
        let ghost pre_stack = stack.deep_view();
        let ghost m = slots@.len() as int;
        let e = slots.pop().unwrap();
        stack.push(e);
        proof {
            assert(e.deep_view() == pre_slots[m - 1]);
            assert(pre_slots[m - 1] == all.take(m)[m - 1]);
            assert(slots.deep_view() =~= all.take(m - 1));
            assert(stack.deep_view() =~= pre_stack.push(e.deep_view()));
            assert(stack.deep_view() =~= Seq::new((n - (m - 1)) as nat, |i: int| all[n - 1 - i]));
        }
    }
    let mut out: Vec<MdEvent> = Vec::new();
    let ghost mut done: int = 0;
    while stack.len() > 0
        invariant
            0 <= done <= n,
            stack@.len() == n - done,
            stack.deep_view() =~= Seq::new((n - done) as nat, |i: int| all[n - 1 - i]),
            out.deep_view() == splice_all(all.take(done), outs),
        decreases stack@.len(),
    {
        let ghost pre_stack = stack.deep_view();
        let ghost pre_out = out.deep_view();
        let s = stack.pop().unwrap();
        proof {
            assert(s.deep_view() == pre_stack[n - done - 1]);
            assert(pre_stack[n - done - 1] == all[n - 1 - (n - done - 1)]);
            assert(s.deep_view() == all[done]);
            assert(stack.deep_view().len() == n - done - 1);
            assert forall|i: int| 0 <= i < n - done - 1 implies stack.deep_view()[i] == all[n - 1
                - i] by {
                assert(stack.deep_view()[i] == pre_stack[i]);
                assert(pre_stack[i] == all[n - 1 - i]);
            }
            assert(stack.deep_view() =~= Seq::new((n - (done + 1)) as nat, |i: int| all[n - 1 - i]));
            assert(all.take(done + 1).drop_last() =~= all.take(done));
            assert(all.take(done + 1).last() == all[done]);
        }
        match s {
            Slot::Ev(e) => {
                out.push(e);
                proof {
                    assert(out.deep_view() =~= pre_out + seq![all[done]->Ev_0]);
                }
            },
            Slot::Block(i) => {
                if i < outcomes.len() {
                    match &outcomes[i] {
                        RenderOutcome::Success(bytes) => {
                            proof {
                                assert(outs[i as int] == OutcomeModel::Success(bytes@));
                            }
                            match utf8_to_string(bytes) {
                                Some(text) => {
                                    let stripped = strip_preamble(text.as_str());
                                    let wrapped = wrap_figure(stripped.as_str());
                                    out.push(MdEvent::RawHtml(wrapped));
                                    proof {
                                        assert(out.deep_view() =~= pre_out + seq![
                                            splice_event(outs[i as int]).unwrap(),
                                        ]);
                                    }
                                },
                                None => {
                                    proof {
                                        assert(splice_event(outs[i as int]) is None);
                                    }
                                },
                            }
                        },
                        _ => {
                            proof {
                                assert(splice_event(outs[i as int]) is None);
                            }
                        },
                    }
                }
            },
        }
        proof {
            done = done + 1;
        }
    }
    proof {
        assert(all.take(done) =~= all);
    }
    out
}

} // verus!
