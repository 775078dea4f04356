//! The text-rendering transform for a step's resulting symbol string.
//!
//! The verification engine hands each step's conclusion as a byte string that
//! packs its tokens without separators: the high bit of a byte marks it as the
//! final byte of its token, interior bytes have the high bit clear.  The
//! rendered form inserts explicit separators instead: one leading space, the
//! tokens' bytes with their marker bits cleared, one space after each token,
//! and the dangling separator after the last token removed again.

use vstd::prelude::*;

verus! {

/// The byte that separates rendered tokens.
pub open spec fn space() -> u8 {
    32u8
}

/// What one source byte contributes to the rendered output: an interior byte
/// is copied unchanged, a final-marked byte is copied with the marker cleared
/// and closes its token with a separator.
pub open spec fn render_step(b: u8) -> Seq<u8> {
    if b & 0x80 == 0 {
        seq![b]
    } else {
        seq![b & 0x7f, space()]
    }
}

/// The rendered contributions of all source bytes, in order, before the
/// leading space is added and the trailing separator removed.
pub open spec fn render_body(src: Seq<u8>) -> Seq<u8>
    decreases src.len(),
{
    if src.len() == 0 {
        Seq::empty()
    } else {
        render_step(src[0]) + render_body(src.drop_first())
    }
}

/// The rendered form of a source byte string: a leading space, each byte's
/// contribution, and the last output byte removed (the separator dangling
/// after the final token).  An empty source renders to an empty output.
pub open spec fn render_spec(src: Seq<u8>) -> Seq<u8> {
    (seq![space()] + render_body(src)).drop_last()
}

/// The rendered contributions of concatenated sources concatenate.
pub proof fn lemma_render_body_concat(s: Seq<u8>, t: Seq<u8>)
    ensures
        render_body(s + t) == render_body(s) + render_body(t),
    decreases s.len(),
{
    if s.len() == 0 {
        assert(s + t =~= t);
        assert(render_body(s) + render_body(t) =~= render_body(t));
    } else {
        assert((s + t).drop_first() =~= s.drop_first() + t);
        lemma_render_body_concat(s.drop_first(), t);
        assert(render_step((s + t)[0]) + (render_body(s.drop_first()) + render_body(t)) =~= (
        render_step(s[0]) + render_body(s.drop_first())) + render_body(t));
    }
}

/// Apply the rendering transform to a step's resulting symbol string.
pub fn render(expr: &[u8]) -> (r: Vec<u8>)
    ensures
        r@ == render_spec(expr@),
{
    let mut out: Vec<u8> = Vec::new();
    out.push(32u8);
    let mut i: usize = 0;
    while i < expr.len()
        invariant
            i <= expr@.len(),
            out@ == seq![space()] + render_body(expr@.take(i as int)),
        decreases expr@.len() - i,
    {
        let chr = expr[i];
        if chr & 0x80 == 0 {
            out.push(chr);
        } else {
            out.push(chr & 0x7F);
            out.push(32u8);
        }
        proof {
            let done = expr@.take(i as int);
            assert(expr@.take(i + 1) =~= done + seq![expr@[i as int]]);
            lemma_render_body_concat(done, seq![expr@[i as int]]);
            let single = seq![expr@[i as int]];
            assert(single.drop_first() =~= Seq::<u8>::empty());
            assert(render_body(Seq::<u8>::empty()) == Seq::<u8>::empty());
            assert(render_body(single) =~= render_step(expr@[i as int]));
            assert(out@ == seq![space()] + render_body(expr@.take(i + 1)));
        }
        i = i + 1;
    }
    assert(expr@.take(expr@.len() as int) =~= expr@);
    out.pop();
    proof {
        assert(out@ =~= (seq![space()] + render_body(expr@)).drop_last());
    }
    out
}

} // verus!
