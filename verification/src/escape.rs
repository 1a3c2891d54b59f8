//! HTML escaping and line-ending normalization over document bytes.
//!
//! Escaping maps each of `<`, `>`, `"`, `&` to its named entity and passes
//! every other byte through unchanged.  Normalization rewrites each CR LF
//! pair to a single LF, scanning left to right.

use vstd::prelude::*;

verus! {

/// `<`
pub const B_LT: u8 = 60;

/// `>`
pub const B_GT: u8 = 62;

/// `"`
pub const B_QUOT: u8 = 34;

/// `&`
pub const B_AMP: u8 = 38;

/// carriage return
pub const B_CR: u8 = 13;

/// line feed
pub const B_LF: u8 = 10;

/// The bytes a single document byte becomes once escaped: one of the four
/// HTML-sensitive bytes becomes its named entity, every other byte stays.
pub open spec fn entity_of(b: u8) -> Seq<u8> {
    if b == B_LT {
        seq![B_AMP, 108u8, 116u8, 59u8]
    } else if b == B_GT {
        seq![B_AMP, 103u8, 116u8, 59u8]
    } else if b == B_QUOT {
        seq![B_AMP, 113u8, 117u8, 111u8, 116u8, 59u8]
    } else if b == B_AMP {
        seq![B_AMP, 97u8, 109u8, 112u8, 59u8]
    } else {
        seq![b]
    }
}

/// The escaped form of a whole byte sequence: each byte replaced by
/// `entity_of`, in order.
pub open spec fn escape_spec(s: Seq<u8>) -> Seq<u8>
    decreases s.len(),
{
    if s.len() == 0 {
        Seq::empty()
    } else {
        entity_of(s[0]) + escape_spec(s.drop_first())
    }
}

/// Escaping distributes over appending one byte at the end.
pub proof fn lemma_escape_push(s: Seq<u8>, b: u8)
    ensures
        escape_spec(s.push(b)) == escape_spec(s) + entity_of(b),
    decreases s.len(),
{
    let t = s.push(b);
    if s.len() == 0 {
        assert(t[0] == b);
        assert(t.drop_first() =~= Seq::<u8>::empty());
        assert(escape_spec(t) == entity_of(b) + escape_spec(Seq::<u8>::empty()));
        assert(entity_of(b) + Seq::<u8>::empty() =~= entity_of(b));
        assert(escape_spec(s) + entity_of(b) =~= entity_of(b));
    } else {
        assert(t[0] == s[0]);
        assert(t.drop_first() =~= s.drop_first().push(b));
        lemma_escape_push(s.drop_first(), b);
        assert(entity_of(s[0]) + (escape_spec(s.drop_first()) + entity_of(b)) =~= (entity_of(s[0])
            + escape_spec(s.drop_first())) + entity_of(b));
    }
}

/// Replace each of `<`, `>`, `"`, `&` by its named entity and keep every
/// other byte, preserving order.
pub fn escape_html(s: &[u8]) -> (out: Vec<u8>)
    ensures
        out@ == escape_spec(s@),
{
    let mut out: Vec<u8> = Vec::new();
    let mut i: usize = 0;
    while i < s.len()
        invariant
            i <= s@.len(),
            out@ == escape_spec(s@.take(i as int)),
        decreases s@.len() - i,
    {
        let b = *vstd::slice::slice_index_get(s, i);
        if b == B_LT {
            out.push(B_AMP);
            out.push(108);
            out.push(116);
            out.push(59);
        } else if b == B_GT {
            out.push(B_AMP);
            out.push(103);
            out.push(116);
            out.push(59);
        } else if b == B_QUOT {
            out.push(B_AMP);
            out.push(113);
            out.push(117);
            out.push(111);
            out.push(116);
            out.push(59);
        } else if b == B_AMP {
            out.push(B_AMP);
            out.push(97);
            out.push(109);
            out.push(112);
            out.push(59);
        } else {
            out.push(b);
        }
        proof {
            assert(s@.take(i + 1) =~= s@.take(i as int).push(s@[i as int]));
            lemma_escape_push(s@.take(i as int), s@[i as int]);
            assert(out@ =~= escape_spec(s@.take(i as int)) + entity_of(s@[i as int]));
        }
        i = i + 1;
    }
    proof {
        assert(s@.take(s@.len() as int) =~= s@);
    }
    out
}

/// Round-trip escaping, first half: escaped text never contains a raw `<`,
/// `>` or `"`; every occurrence has become its entity.
pub proof fn lemma_escape_no_raw_specials(s: Seq<u8>)
    ensures
        forall|i: int|
            0 <= i < escape_spec(s).len() ==> (#[trigger] escape_spec(s)[i]) != B_LT && escape_spec(
                s,
            )[i] != B_GT && escape_spec(s)[i] != B_QUOT,
    decreases s.len(),
{
    if s.len() > 0 {
        lemma_escape_no_raw_specials(s.drop_first());
        assert forall|i: int| 0 <= i < escape_spec(s).len() implies (#[trigger] escape_spec(
            s,
        )[i]) != B_LT && escape_spec(s)[i] != B_GT && escape_spec(s)[i] != B_QUOT by {
            let e = entity_of(s[0]);
            if i < e.len() {
                assert(escape_spec(s)[i] == e[i]);
            } else {
                assert(escape_spec(s)[i] == escape_spec(s.drop_first())[i - e.len()]);
            }
        }
    }
}

/// Round-trip escaping, second half: a byte sequence holding none of the
/// four escaped bytes passes through escaping unchanged.
pub proof fn lemma_escape_plain_unchanged(s: Seq<u8>)
    requires
        forall|i: int|
            0 <= i < s.len() ==> (#[trigger] s[i]) != B_LT && s[i] != B_GT && s[i] != B_QUOT
                && s[i] != B_AMP,
    ensures
        escape_spec(s) == s,
    decreases s.len(),
{
    if s.len() == 0 {
        assert(escape_spec(s) =~= s);
    } else {
        assert(forall|i: int|
            0 <= i < s.drop_first().len() ==> (#[trigger] s.drop_first()[i]) != B_LT
                && s.drop_first()[i] != B_GT && s.drop_first()[i] != B_QUOT && s.drop_first()[i]
                != B_AMP);
        lemma_escape_plain_unchanged(s.drop_first());
        assert(escape_spec(s) =~= s);
    }
}

/// The normalized form of a byte sequence: scanning left to right, each
/// CR LF pair becomes a single LF; every other byte is kept.
pub open spec fn normalize_spec(s: Seq<u8>) -> Seq<u8>
    decreases s.len(),
{
    if s.len() == 0 {
        Seq::empty()
    } else if s.len() >= 2 && s[0] == B_CR && s[1] == B_LF {
        seq![B_LF] + normalize_spec(s.skip(2))
    } else {
        seq![s[0]] + normalize_spec(s.skip(1))
    }
}

/// A byte sequence holding no carriage return passes through
/// normalization unchanged.
pub proof fn lemma_normalize_no_cr_unchanged(s: Seq<u8>)
    requires
        forall|i: int| 0 <= i < s.len() ==> (#[trigger] s[i]) != B_CR,
    ensures
        normalize_spec(s) == s,
    decreases s.len(),
{
    if s.len() == 0 {
        assert(normalize_spec(s) =~= s);
    } else {
        assert(forall|i: int| 0 <= i < s.skip(1).len() ==> (#[trigger] s.skip(1)[i]) != B_CR);
        lemma_normalize_no_cr_unchanged(s.skip(1));
        assert(normalize_spec(s) =~= s);
    }
}

/// Rewrite each CR LF pair to a single LF, scanning left to right.
pub fn normalize_crlf(s: &[u8]) -> (out: Vec<u8>)
    ensures
        out@ == normalize_spec(s@),
{
    let mut out: Vec<u8> = Vec::new();
    let mut i: usize = 0;
    proof {
        assert(s@.skip(0) =~= s@);
        assert(Seq::<u8>::empty() + normalize_spec(s@) =~= normalize_spec(s@));
    }
    while i < s.len()
        invariant
            i <= s@.len(),
            normalize_spec(s@) == out@ + normalize_spec(s@.skip(i as int)),
        decreases s@.len() - i,
    {
        let b = *vstd::slice::slice_index_get(s, i);
        if b == B_CR && i + 1 < s.len() && *vstd::slice::slice_index_get(s, i + 1) == B_LF {
            proof {
                let t = s@.skip(i as int);
                assert(t.len() == s@.len() - i);
                assert(t[0] == s@[i as int]);
                assert(t[1] == s@[i + 1]);
                assert(t.skip(2) =~= s@.skip(i + 2));
                assert(normalize_spec(t) == seq![B_LF] + normalize_spec(s@.skip(i + 2)));
                assert((out@ + normalize_spec(t)) =~= (out@.push(B_LF) + normalize_spec(
                    s@.skip(i + 2),
                )));
            }
            out.push(B_LF);
            i = i + 2;
        } else {
            proof {
                let t = s@.skip(i as int);
                assert(t.len() == s@.len() - i);
                assert(t[0] == s@[i as int]);
                if i + 1 < s@.len() {
                    assert(t[1] == s@[i + 1]);
                }
                assert(t.skip(1) =~= s@.skip(i + 1));
                assert(normalize_spec(t) == seq![s@[i as int]] + normalize_spec(s@.skip(i + 1)));
                assert((out@ + normalize_spec(t)) =~= (out@.push(s@[i as int]) + normalize_spec(
                    s@.skip(i + 1),
                )));
            }
            out.push(b);
            i = i + 1;
        }
    }
    proof {
        assert(s@.skip(s@.len() as int) =~= Seq::<u8>::empty());
        assert(out@ + normalize_spec(s@.skip(s@.len() as int)) =~= out@);
    }
    out
}

} // verus!
