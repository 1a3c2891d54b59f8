//! Span rewriting: apply an ordered replacement list to a document,
//! back to front, so that the byte offsets of records not yet applied are
//! never invalidated.
//!
//! Each record's span `[start, end)` is replaced by a line feed followed by
//! the record's text; the inserted line feed guarantees the wrapper starts
//! its own block from the preceding Markdown's perspective.

use vstd::prelude::*;

use crate::buf::{append_bytes, append_range};
use crate::escape::B_LF;
use crate::extract::{reps_view, wf_replacements, RepV, Replacement};

verus! {

/// One splice: the document with the record's span replaced by a line feed
/// and the record's text.
pub open spec fn splice_spec(content: Seq<u8>, r: RepV) -> Seq<u8> {
    content.subrange(0, r.start) + seq![B_LF] + r.text + content.subrange(
        r.end,
        content.len() as int,
    )
}

/// The document after all replacements, applied from the last record back
/// to the first.
pub open spec fn rewrite_spec(content: Seq<u8>, reps: Seq<RepV>) -> Seq<u8>
    decreases reps.len(),
{
    if reps.len() == 0 {
        content
    } else {
        rewrite_spec(splice_spec(content, reps.last()), reps.drop_last())
    }
}

/// The document from offset `from` on, with every record substituted in
/// place: the untouched text up to each record's span, a line feed, the
/// record's text, and so on, ending with the untouched tail.
pub open spec fn stitched_spec(content: Seq<u8>, reps: Seq<RepV>, from: int) -> Seq<u8>
    decreases reps.len(),
{
    if reps.len() == 0 {
        content.subrange(from, content.len() as int)
    } else {
        content.subrange(from, reps[0].start) + seq![B_LF] + reps[0].text + stitched_spec(
            content,
            reps.drop_first(),
            reps[0].end,
        )
    }
}

proof fn lemma_stitched_after_splice(
    content: Seq<u8>,
    rest: Seq<RepV>,
    r: RepV,
    j: int,
    from: int,
)
    requires
        wf_replacements(rest.push(r), content.len() as int),
        0 <= j <= rest.len(),
        0 <= from <= content.len(),
        from <= r.start,
        j < rest.len() ==> from <= rest[j].start,
    ensures
        stitched_spec(splice_spec(content, r), rest.skip(j), from) == stitched_spec(
            content,
            rest.push(r).skip(j),
            from,
        ),
    decreases rest.len() - j,
{
    let c2 = splice_spec(content, r);
    let reps = rest.push(r);
    assert(reps[rest.len() as int] == r);
    assert(r.start <= r.end && r.end <= content.len() && 0 <= r.start);
    if j == rest.len() {
        assert(rest.skip(j) =~= Seq::<RepV>::empty());
        assert(reps.skip(j) =~= seq![r]);
        assert(seq![r].drop_first() =~= Seq::<RepV>::empty());
        assert(seq![r][0] == r);
        assert(stitched_spec(content, Seq::<RepV>::empty(), r.end) == content.subrange(
            r.end,
            content.len() as int,
        ));
        assert(stitched_spec(content, seq![r], from) == content.subrange(from, r.start)
            + seq![B_LF] + r.text + content.subrange(r.end, content.len() as int));
        assert(stitched_spec(c2, rest.skip(j), from) =~= stitched_spec(content, seq![r], from));
    } else {
        let rj = rest[j];
        assert(reps[j] == rj);
        assert(rj.end <= r.start);
        assert(0 <= rj.start && rj.start <= rj.end);
        assert(rest.skip(j)[0] == rj);
        assert(rest.skip(j).drop_first() =~= rest.skip(j + 1));
        assert(reps.skip(j)[0] == rj);
        assert(reps.skip(j).drop_first() =~= reps.skip(j + 1));
        assert(c2.subrange(from, rj.start) =~= content.subrange(from, rj.start));
        if j + 1 < rest.len() {
            assert(rest[j + 1] == reps[j + 1]);
            assert(reps[j].end <= reps[j + 1].start);
        }
        lemma_stitched_after_splice(content, rest, r, j + 1, rj.end);
    }
}

/// Span non-overlap and order preservation, stated over the output: over a
/// well-formed replacement list the rewritten document is exactly the
/// untouched text around the spans, with each span's text replaced in its
/// original position and in its original order.
pub proof fn lemma_rewrite_stitches(content: Seq<u8>, reps: Seq<RepV>)
    requires
        wf_replacements(reps, content.len() as int),
    ensures
        rewrite_spec(content, reps) == stitched_spec(content, reps, 0),
    decreases reps.len(),
{
    if reps.len() == 0 {
        assert(stitched_spec(content, reps, 0) =~= content);
    } else {
        let r = reps.last();
        let rest = reps.drop_last();
        let c2 = splice_spec(content, r);
        assert(rest.push(r) =~= reps);
        assert(c2.len() == r.start + 1 + r.text.len() + (content.len() - r.end));
        assert forall|k: int|
            0 <= k < rest.len() implies 0 <= (#[trigger] rest[k]).start && rest[k].start
            <= rest[k].end && rest[k].end <= c2.len() by {
            assert(rest[k] == reps[k]);
            assert(reps[k].end <= r.start);
        }
        assert forall|k: int, m: int| 0 <= k < m < rest.len() implies (
        #[trigger] rest[k]).end <= (#[trigger] rest[m]).start by {
            assert(rest[k] == reps[k] && rest[m] == reps[m]);
        }
        lemma_rewrite_stitches(c2, rest);
        lemma_stitched_after_splice(content, rest, r, 0, 0);
        assert(rest.skip(0) =~= rest);
        assert(rest.push(r).skip(0) =~= reps);
    }
}

/// Substitute every replacement record into the document, iterating in
/// reverse so earlier record offsets stay valid.  Produces a new document;
/// the input is never touched.
pub fn rewrite(content: &[u8], reps: &Vec<Replacement>) -> (out: Vec<u8>)
    requires
        wf_replacements(reps_view(reps@), content@.len() as int),
    ensures
        out@ == rewrite_spec(content@, reps_view(reps@)),
{
    let ghost all = reps_view(reps@);
    let mut cur: Vec<u8> = Vec::new();
    append_bytes(&mut cur, content);
    proof {
        assert(cur@ =~= content@);
        assert(all.take(reps@.len() as int) =~= all);
    }
    let mut i: usize = reps.len();
    while i > 0
        invariant
            i <= reps@.len(),
            all == reps_view(reps@),
            all.len() == reps@.len(),
            wf_replacements(all.take(i as int), cur@.len() as int),
            rewrite_spec(cur@, all.take(i as int)) == rewrite_spec(content@, all),
        decreases i,
    {
        i = i - 1;
        proof {
            assert(all.take(i + 1).drop_last() =~= all.take(i as int));
            assert(all.take(i + 1).last() == all[i as int]);
            assert(all[i as int] == reps@[i as int]@);
        }
        let r = &reps[i];
        let mut next: Vec<u8> = Vec::new();
        append_range(&mut next, cur.as_slice(), 0, r.start);
        next.push(B_LF);
        append_bytes(&mut next, r.text.as_slice());
        append_range(&mut next, cur.as_slice(), r.end, cur.len());
        proof {
            assert(next@ =~= splice_spec(cur@, all[i as int]));
            assert(next@.len() >= all[i as int].start);
            assert forall|k: int| 0 <= k < i implies 0 <= (#[trigger] all.take(i as int)[k]).start
                && all.take(i as int)[k].start <= all.take(i as int)[k].end && all.take(
                i as int,
            )[k].end <= next@.len() by {
                assert(all.take(i + 1)[k] == all[k]);
                assert(all.take(i as int)[k] == all[k]);
                assert(all[k].end <= all[i as int].start);
            }
        }
        cur = next;
    }
    proof {
        assert(all.take(0) =~= Seq::<RepV>::empty());
    }
    cur
}

} // verus!
