use vstd::prelude::*;

use vstd::string::StringExecFns;

use crate::events::{cmark_of, events_of, parse_events, serialize_events};
use crate::machine::{extract, machine_run, Slot, SlotModel};
use crate::render::{splice, splice_all, RenderOutcome};

verus! {

/// The preprocessor: it recognises diagram-tagged fenced code blocks in
/// chapter source and splices rendered output in their place.
pub struct Puml;

impl Puml {
    pub fn new() -> Puml {
        Puml
    }

    /// The name under which the preprocessor reports itself.
    pub fn name(&self) -> (r: &'static str)
        ensures
            r@ == "puml"@,
    {
        "puml"
    }

    /// Whether output for the given renderer is supported: exactly the one
    /// fixed renderer name, no aliases, no case folding.
    pub fn supports_renderer(&self, renderer: &str) -> (r: bool)
        ensures
            r == (renderer@ == "html"@),
    {
        let a: String = renderer.to_owned();
        let b: String = "html".to_owned();
        a == b
    }
}

/// One chapter after scanning: the pass-through slots, and the diagram block
/// sources awaiting rendering, in source order.
pub struct Prepared {
    slots: Vec<Slot>,
    blocks: Vec<String>,
}

impl Prepared {
    /// The slots, as the extractor's model sees them.
    pub closed spec fn slots_model(&self) -> Seq<SlotModel> {
        self.slots.deep_view()
    }

    /// The block sources, as sequences of characters.
    pub closed spec fn blocks_model(&self) -> Seq<Seq<char>> {
        self.blocks.deep_view()
    }

    /// The diagram block sources, in source order: what is to be handed to
    /// the renderer, block by block.
    pub fn blocks(&self) -> (r: &Vec<String>)
        ensures
            r.deep_view() == self.blocks_model(),
    {
        &self.blocks
    }
}

/// Parse one chapter's source text and run the block extractor over its
/// events: the result holds the pass-through slots and the diagram block
/// sources, in source order.
pub fn prepare_chapter(content: &str) -> (p: Prepared)
    ensures
        p.slots_model() == machine_run(events_of(content@)).slots,
        p.blocks_model() == machine_run(events_of(content@)).blocks,
{
    let evs = parse_events(content);
    let (slots, blocks) = extract(evs);
    Prepared { slots, blocks }
}

/// Splice the render outcomes into the prepared chapter and re-render the
/// event sequence as source text. The result is present exactly where the
/// serializer accepts the spliced events, and is then their re-rendering;
/// None where it reports an error, which the caller treats as a failure of
/// the whole chapter.
pub fn finish_chapter(p: Prepared, outcomes: &Vec<RenderOutcome>) -> (r: Option<String>)
    ensures
        r is Some <==> cmark_of(splice_all(p.slots_model(), outcomes.deep_view())) is Some,
        r matches Some(s) ==> cmark_of(splice_all(p.slots_model(), outcomes.deep_view()))
            == Some(s@),
{
    let Prepared { slots, blocks: _blocks } = p;
    let events = splice(slots, outcomes);
    serialize_events(&events)
}

/// The warning text for a version skew between host and preprocessor.
pub open spec fn version_warning_spec(name: Seq<char>, built: Seq<char>, called: Seq<char>) -> Seq<
    char,
> {
    "Warning: The "@ + name + " plugin was built against version "@ + built
        + " of mdbook, but we're being called from version "@ + called
}

/// Compare the host-protocol version this preprocessor was built against
/// with the one it is being called from: equal versions warrant no warning,
/// differing ones owe exactly the warning text. The skew is informational
/// only; processing goes on either way.
pub fn version_warning(name: &str, built: &str, called: &str) -> (r: Option<String>)
    ensures
        built@ == called@ ==> r is None,
        built@ != called@ ==> (r matches Some(m) && m@ == version_warning_spec(
            name@,
            built@,
            called@,
        )),
{
    let b: String = built.to_owned();
    let c: String = called.to_owned();
    if b == c {
        None
    } else {
        let mut m: String = "Warning: The ".to_owned();
        m.append(name);
        m.append(" plugin was built against version ");
        m.append(built);
        m.append(" of mdbook, but we're being called from version ");
        m.append(called);
        proof {
            assert(m@ =~= version_warning_spec(name@, built@, called@));
        }
        Some(m)
    }
}

} // verus!
