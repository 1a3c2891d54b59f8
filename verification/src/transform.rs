//! The whole transformation over one document: parse, extract, rewrite.
//!
//! [`transform`] is generic in the recognized fence label and the wrapper
//! class; [`add_gabc`] is the instance this crate exists for, recognizing
//! `gabc` blocks and wrapping them in a `chant-container` element.

use vstd::prelude::*;

use crate::events::{events_view, md_events_of, parse_events, EventV};
use crate::extract::{
    extract_blocks, extract_spec, lemma_replacements_well_formed, run_machine, wf_replacements,
    GabcError, RepV,
};
use crate::rewrite::{lemma_rewrite_stitches, rewrite, rewrite_spec, stitched_spec};
use vstd::string::StringSliceAdditionalSpecFns;

verus! {

/// What transforming a document yields: each target-labelled fenced block
/// replaced in place by its wrapped, escaped content, every other byte
/// unchanged; or the error of an event stream that broke the extractor's
/// invariants.
pub open spec fn transform_spec(content: Seq<u8>, label: Seq<u8>, class: Seq<u8>) -> Result<
    Seq<u8>,
    GabcError,
> {
    match extract_spec(content, label, class, md_events_of(content)) {
        Ok(reps) => Ok(rewrite_spec(content, reps)),
        Err(e) => Err(e),
    }
}

/// Replace every fenced code block labelled `label` by its wrapper of class
/// `class`, leaving all other document bytes unchanged.
pub fn transform(content: &[u8], label: &[u8], class: &[u8]) -> (r: Result<Vec<u8>, GabcError>)
    ensures
        match r {
            Ok(out) => transform_spec(content@, label@, class@) == Ok::<Seq<u8>, GabcError>(out@),
            Err(e) => transform_spec(content@, label@, class@) == Err::<Seq<u8>, GabcError>(e),
        },
{
    let events = parse_events(content);
    match extract_blocks(content, label, class, &events) {
        Ok(reps) => {
            proof {
                lemma_replacements_well_formed(content@, label@, class@, events_view(events@));
            }
            Ok(rewrite(content, &reps))
        },
        Err(e) => Err(e),
    }
}

/// Span non-overlap and order preservation, end to end: whenever a
/// document transforms successfully, the extracted replacement spans are
/// non-overlapping and increasing, and the output is exactly the input's
/// untouched text around those spans with each block's wrapper substituted
/// in its original position and order.
pub proof fn lemma_transform_stitches(content: Seq<u8>, label: Seq<u8>, class: Seq<u8>)
    ensures
        extract_spec(content, label, class, md_events_of(content)) matches Ok(reps) ==> {
            &&& wf_replacements(reps, content.len() as int)
            &&& transform_spec(content, label, class) == Ok::<Seq<u8>, GabcError>(
                stitched_spec(content, reps, 0),
            )
        },
{
    lemma_replacements_well_formed(content, label, class, md_events_of(content));
    match extract_spec(content, label, class, md_events_of(content)) {
        Ok(reps) => lemma_rewrite_stitches(content, reps),
        Err(_) => (),
    }
}

/// Whether an event opens a fenced block whose info-string label is
/// exactly the target label.
pub open spec fn is_target_start(ev: EventV, label: Seq<u8>) -> bool {
    match ev {
        EventV::FenceStart { label: l, .. } => l == label,
        _ => false,
    }
}

/// On a stream that never opens a target-labelled block the machine stays
/// outside, fails on nothing, and emits nothing.
pub proof fn lemma_no_target_blocks_machine(
    content: Seq<u8>,
    label: Seq<u8>,
    class: Seq<u8>,
    events: Seq<EventV>,
)
    requires
        forall|k: int| 0 <= k < events.len() ==> !is_target_start(#[trigger] events[k], label),
    ensures
        run_machine(content, label, class, events).failure is None,
        !run_machine(content, label, class, events).in_target,
        run_machine(content, label, class, events).reps == Seq::<RepV>::empty(),
    decreases events.len(),
{
    if events.len() > 0 {
        assert(forall|k: int|
            0 <= k < events.drop_last().len() ==> !is_target_start(
                #[trigger] events.drop_last()[k],
                label,
            ));
        lemma_no_target_blocks_machine(content, label, class, events.drop_last());
        assert(!is_target_start(events.last(), label));
    }
}

/// Idempotence of non-target content: a document whose event stream opens
/// no fenced block with the target label is returned byte-for-byte
/// unchanged.
pub proof fn lemma_untouched_without_target(content: Seq<u8>, label: Seq<u8>, class: Seq<u8>)
    requires
        forall|k: int|
            0 <= k < md_events_of(content).len() ==> !is_target_start(
                #[trigger] md_events_of(content)[k],
                label,
            ),
    ensures
        transform_spec(content, label, class) == Ok::<Seq<u8>, GabcError>(content),
{
    lemma_no_target_blocks_machine(content, label, class, md_events_of(content));
}

/// The fence label this preprocessor recognizes.
pub open spec fn gabc_label() -> Seq<u8> {
    "gabc".spec_bytes()
}

/// The class of the wrapper element the replacement text carries.
pub open spec fn chant_class() -> Seq<u8> {
    "chant-container".spec_bytes()
}

/// Replace every `gabc`-labelled fenced code block in a Markdown document
/// by a `<pre class="chant-container">` wrapper holding the block's
/// escaped, newline-normalized source text, leaving all other bytes
/// unchanged.
pub fn add_gabc(content: &[u8]) -> (r: Result<Vec<u8>, GabcError>)
    ensures
        match r {
            Ok(out) => transform_spec(content@, gabc_label(), chant_class()) == Ok::<
                Seq<u8>,
                GabcError,
            >(out@),
            Err(e) => transform_spec(content@, gabc_label(), chant_class()) == Err::<
                Seq<u8>,
                GabcError,
            >(e),
        },
{
    transform(content, "gabc".as_bytes(), "chant-container".as_bytes())
}

} // verus!
