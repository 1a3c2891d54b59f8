//! Block extraction: a small state machine over the parser's event stream
//! that finds fenced code blocks labelled with the target label, accumulates
//! the source span of their text, and emits one replacement record per
//! block.
//!
//! The machine mirrors the invariants of the stream a CommonMark parser
//! produces.  A closing fence whose label differs from the opening one, or
//! a replacement span that does not lie within the document after the
//! previous replacement, means the stream and the machine disagree; both
//! are reported as an error rather than acted upon.

use vstd::prelude::*;

use crate::buf::{append_bytes, bytes_eq};
use crate::escape::{escape_html, escape_spec, normalize_crlf, normalize_spec};
use crate::events::{events_view, EventV, MdEvent};
use vstd::string::StringSliceAdditionalSpecFns;

verus! {

/// Why a transformation failed: the parser's event stream broke an
/// invariant the extractor relies on.  Neither case arises on streams the
/// Markdown parser actually produces.
#[derive(Clone, Copy, PartialEq, Eq, Structural, Debug)]
pub enum GabcError {
    /// A fenced block closed under a different label than it opened with.
    FenceLabelMismatch,
    /// A block's spans did not advance monotonically within the document.
    SpanInconsistency,
}

/// One pending replacement: the document span `[start, end)` to replace,
/// and the text that replaces it.
#[derive(Debug)]
pub struct Replacement {
    pub start: usize,
    pub end: usize,
    pub text: Vec<u8>,
}

/// The mathematical form of a [`Replacement`].
pub struct RepV {
    pub start: int,
    pub end: int,
    pub text: Seq<u8>,
}

impl View for Replacement {
    type V = RepV;

    open spec fn view(&self) -> RepV {
        RepV { start: self.start as int, end: self.end as int, text: self.text@ }
    }
}

/// The views of a sequence of replacements.
pub open spec fn reps_view(reps: Seq<Replacement>) -> Seq<RepV> {
    reps.map_values(|r: Replacement| r@)
}

/// The replacement text for one block: the block's source text, HTML
/// escaped, its CR LF pairs normalized to LF, wrapped in a `<pre>` element
/// of the given class and followed by two line feeds.
pub open spec fn wrap_spec(class: Seq<u8>, content: Seq<u8>) -> Seq<u8> {
    "<pre class=\"".spec_bytes() + class + "\">".spec_bytes() + normalize_spec(
        escape_spec(content),
    ) + "</pre>\n\n".spec_bytes()
}

/// Build the replacement text for one block's source text.
pub fn build_wrapper(class: &[u8], content: &[u8]) -> (out: Vec<u8>)
    ensures
        out@ == wrap_spec(class@, content@),
{
    let mut out: Vec<u8> = Vec::new();
    append_bytes(&mut out, "<pre class=\"".as_bytes());
    append_bytes(&mut out, class);
    append_bytes(&mut out, "\">".as_bytes());
    let escaped = escape_html(content);
    let normalized = normalize_crlf(escaped.as_slice());
    append_bytes(&mut out, normalized.as_slice());
    append_bytes(&mut out, "</pre>\n\n".as_bytes());
    proof {
        assert(out@ =~= wrap_spec(class@, content@));
    }
    out
}

/// The extractor's state while it walks the event stream.
pub struct MachineState {
    /// Inside a fenced block whose label is the target label.
    pub in_target: bool,
    /// No text event has been seen yet since the block opened.
    pub fresh: bool,
    /// The accumulated source span of the current block's text.
    pub span_start: int,
    pub span_end: int,
    /// End offset of the last replacement emitted; spans must not reach
    /// back before it.
    pub floor: int,
    /// The replacements emitted so far, in document order.
    pub reps: Seq<RepV>,
    /// Set once an event breaks the machine's invariants; sticky.
    pub failure: Option<GabcError>,
}

/// The machine before any event.
pub open spec fn init_state() -> MachineState {
    MachineState {
        in_target: false,
        fresh: true,
        span_start: 0,
        span_end: 0,
        floor: 0,
        reps: Seq::empty(),
        failure: None,
    }
}

/// A block may be emitted only if its text span lies within the document
/// and the block span continues past everything already replaced.
pub open spec fn can_emit(st: MachineState, doc_len: int, start: int, end: int) -> bool {
    &&& 0 <= st.span_start <= st.span_end <= doc_len
    &&& st.floor <= start <= end <= doc_len
}

/// One step of the extractor on one event.
pub open spec fn step_state(
    content: Seq<u8>,
    label: Seq<u8>,
    class: Seq<u8>,
    st: MachineState,
    ev: EventV,
) -> MachineState {
    if st.failure is Some {
        st
    } else {
        match ev {
            EventV::FenceStart { label: l, .. } => MachineState {
                in_target: l == label,
                fresh: true,
                ..st
            },
            EventV::Text { start, end } => if st.in_target {
                if st.fresh {
                    MachineState { fresh: false, span_start: start, span_end: end, ..st }
                } else {
                    MachineState { span_end: end, ..st }
                }
            } else {
                st
            },
            EventV::FenceEnd { label: l, start, end } => if st.in_target {
                if l != label {
                    MachineState { failure: Some(GabcError::FenceLabelMismatch), ..st }
                } else if can_emit(st, content.len() as int, start, end) {
                    MachineState {
                        in_target: false,
                        fresh: true,
                        floor: end,
                        reps: st.reps.push(
                            RepV {
                                start,
                                end,
                                text: wrap_spec(
                                    class,
                                    content.subrange(st.span_start, st.span_end),
                                ),
                            },
                        ),
                        ..st
                    }
                } else {
                    MachineState { failure: Some(GabcError::SpanInconsistency), ..st }
                }
            } else {
                st
            },
            EventV::Other => st,
        }
    }
}

/// The machine's state after a whole event sequence.
pub open spec fn run_machine(
    content: Seq<u8>,
    label: Seq<u8>,
    class: Seq<u8>,
    events: Seq<EventV>,
) -> MachineState
    decreases events.len(),
{
    if events.len() == 0 {
        init_state()
    } else {
        step_state(
            content,
            label,
            class,
            run_machine(content, label, class, events.drop_last()),
            events.last(),
        )
    }
}

/// What extraction yields over a whole event sequence: the replacement
/// list in document order, or the error of the event that broke the
/// machine's invariants.
pub open spec fn extract_spec(
    content: Seq<u8>,
    label: Seq<u8>,
    class: Seq<u8>,
    events: Seq<EventV>,
) -> Result<Seq<RepV>, GabcError> {
    let st = run_machine(content, label, class, events);
    match st.failure {
        Some(e) => Err(e),
        None => Ok(st.reps),
    }
}

/// A replacement list is well formed for a document length when every span
/// lies within the document and the spans increase strictly left to right
/// without overlapping.
pub open spec fn wf_replacements(reps: Seq<RepV>, doc_len: int) -> bool {
    &&& forall|k: int|
        0 <= k < reps.len() ==> 0 <= (#[trigger] reps[k]).start && reps[k].start <= reps[k].end
            && reps[k].end <= doc_len
    &&& forall|k: int, m: int|
        0 <= k < m < reps.len() ==> (#[trigger] reps[k]).end <= (#[trigger] reps[m]).start
}

/// The invariant the machine maintains over every event sequence.
pub open spec fn machine_inv(st: MachineState, doc_len: int) -> bool {
    &&& 0 <= st.floor <= doc_len
    &&& wf_replacements(st.reps, doc_len)
    &&& forall|k: int| 0 <= k < st.reps.len() ==> (#[trigger] st.reps[k]).end <= st.floor
}

/// The machine's invariant holds after any event sequence.
pub proof fn lemma_machine_inv(content: Seq<u8>, label: Seq<u8>, class: Seq<u8>, events: Seq<EventV>)
    ensures
        machine_inv(run_machine(content, label, class, events), content.len() as int),
    decreases events.len(),
{
    if events.len() == 0 {
    } else {
        lemma_machine_inv(content, label, class, events.drop_last());
        let st = run_machine(content, label, class, events.drop_last());
        let st2 = run_machine(content, label, class, events);
        assert(st2 == step_state(content, label, class, st, events.last()));
        if st.failure is None && (events.last() matches EventV::FenceEnd { label: l, start, end }
            && st.in_target && l == label && can_emit(st, content.len() as int, start, end)) {
            assert forall|k: int| 0 <= k < st2.reps.len() implies 0 <= (
            #[trigger] st2.reps[k]).start && st2.reps[k].start <= st2.reps[k].end
                && st2.reps[k].end <= content.len() by {
                if k < st.reps.len() {
                    assert(st2.reps[k] == st.reps[k]);
                }
            }
            assert forall|k: int, m: int| 0 <= k < m < st2.reps.len() implies (
            #[trigger] st2.reps[k]).end <= (#[trigger] st2.reps[m]).start by {
                if m < st.reps.len() {
                    assert(st2.reps[k] == st.reps[k]);
                    assert(st2.reps[m] == st.reps[m]);
                } else {
                    assert(st2.reps[k] == st.reps[k]);
                    assert(st.reps[k].end <= st.floor);
                }
            }
        }
    }
}

/// Span non-overlap and order preservation: whenever extraction succeeds,
/// each replacement lies within the document and the replacements appear
/// in strictly non-overlapping, increasing document order.
pub proof fn lemma_replacements_well_formed(
    content: Seq<u8>,
    label: Seq<u8>,
    class: Seq<u8>,
    events: Seq<EventV>,
)
    ensures
        extract_spec(content, label, class, events) matches Ok(reps) ==> wf_replacements(
            reps,
            content.len() as int,
        ),
{
    lemma_machine_inv(content, label, class, events);
}

/// Once the machine has failed, every later state keeps that failure.
pub proof fn lemma_failure_sticky(
    content: Seq<u8>,
    label: Seq<u8>,
    class: Seq<u8>,
    events: Seq<EventV>,
    j: int,
)
    requires
        0 <= j <= events.len(),
        run_machine(content, label, class, events.take(j)).failure is Some,
    ensures
        run_machine(content, label, class, events).failure == run_machine(
            content,
            label,
            class,
            events.take(j),
        ).failure,
    decreases events.len(),
{
    if j == events.len() {
        assert(events.take(j) =~= events);
    } else {
        assert(events.drop_last().take(j) =~= events.take(j));
        lemma_failure_sticky(content, label, class, events.drop_last(), j);
    }
}

/// Walk the event stream and collect one replacement record per fenced
/// block labelled `label`, in document order.  An event that breaks the
/// machine's invariants yields the corresponding error instead.
pub fn extract_blocks(content: &[u8], label: &[u8], class: &[u8], events: &Vec<MdEvent>) -> (r:
    Result<Vec<Replacement>, GabcError>)
    ensures
        match r {
            Ok(reps) => extract_spec(content@, label@, class@, events_view(events@)) == Ok::<
                Seq<RepV>,
                GabcError,
            >(reps_view(reps@)),
            Err(e) => extract_spec(content@, label@, class@, events_view(events@)) == Err::<
                Seq<RepV>,
                GabcError,
            >(e),
        },
{
    let ghost evs = events_view(events@);
    let mut in_target: bool = false;
    let mut fresh: bool = true;
    let mut span_start: usize = 0;
    let mut span_end: usize = 0;
    let mut floor: usize = 0;
    let mut reps: Vec<Replacement> = Vec::new();
    let mut i: usize = 0;
    proof {
        assert(evs.take(0) =~= Seq::<EventV>::empty());
        assert(reps_view(reps@) =~= Seq::<RepV>::empty());
    }
    while i < events.len()
        invariant
            i <= events@.len(),
            evs == events_view(events@),
            evs.len() == events@.len(),
            ({
                let st = run_machine(content@, label@, class@, evs.take(i as int));
                &&& st.failure is None
                &&& st.in_target == in_target
                &&& st.fresh == fresh
                &&& st.span_start == span_start as int
                &&& st.span_end == span_end as int
                &&& st.floor == floor as int
                &&& st.reps == reps_view(reps@)
            }),
        decreases events@.len() - i,
    {
        proof {
            assert(evs.take(i + 1).drop_last() =~= evs.take(i as int));
            assert(evs.take(i + 1).last() == evs[i as int]);
            assert(evs[i as int] == events@[i as int]@);
        }
        let ghost st = run_machine(content@, label@, class@, evs.take(i as int));
        let ev = &events[i];
        match ev {
            MdEvent::FenceStart { label: l, .. } => {
                in_target = bytes_eq(l.as_slice(), label);
                fresh = true;
            },
            MdEvent::Text { start, end } => {
                if in_target {
                    if fresh {
                        span_start = *start;
                        span_end = *end;
                        fresh = false;
                    } else {
                        span_end = *end;
                    }
                }
            },
            MdEvent::FenceEnd { label: l, start, end } => {
                if in_target {
                    if !bytes_eq(l.as_slice(), label) {
                        proof {
                            lemma_failure_sticky(content@, label@, class@, evs, i + 1);
                        }
                        return Err(GabcError::FenceLabelMismatch);
                    }
                    if !(span_start <= span_end && span_end <= content.len() && floor <= *start
                        && *start <= *end && *end <= content.len()) {
                        proof {
                            lemma_failure_sticky(content@, label@, class@, evs, i + 1);
                        }
                        return Err(GabcError::SpanInconsistency);
                    }
                    let text = build_wrapper(
                        class,
                        vstd::slice::slice_subrange(content, span_start, span_end),
                    );
                    let rep = Replacement { start: *start, end: *end, text };
                    reps.push(rep);
                    floor = *end;
                    in_target = false;
                    fresh = true;
                    proof {
                        assert(can_emit(st, content@.len() as int, *start as int, *end as int));
                        assert(reps_view(reps@) =~= st.reps.push(rep@));
                    }
                }
            },
            MdEvent::Other => {},
        }
        i = i + 1;
    }
    proof {
        assert(evs.take(evs.len() as int) =~= evs);
    }
    Ok(reps)
}

} // verus!
