//! Putting new text in the place of marked spans of a text.
//!
//! A span is a pair of byte offsets, start and end. The spans of one text are
//! given in source order and do not overlap; each is replaced by the body
//! that stands at the same index.

use vstd::prelude::*;

verus! {

/// Each span lies inside a text of `len` bytes, and each ends before the
/// next begins.
pub open spec fn spans_ordered(spans: Seq<(usize, usize)>, len: nat) -> bool {
    &&& forall|i: int| 0 <= i < spans.len() ==> (#[trigger] spans[i]).0 <= spans[i].1 <= len
    &&& forall|i: int, j: int|
        0 <= i < j < spans.len() ==> (#[trigger] spans[i]).1 <= (#[trigger] spans[j]).0
}

/// The text with each span replaced by its body: what stands before the last
/// span, with the earlier spans replaced there, then the last body, then what
/// stands after the last span.
pub open spec fn splice(text: Seq<u8>, spans: Seq<(usize, usize)>, bodies: Seq<Seq<u8>>) -> Seq<u8>
    recommends
        spans_ordered(spans, text.len()),
        bodies.len() == spans.len(),
    decreases spans.len(),
{
    if spans.len() == 0 {
        text
    } else {
        splice(text.subrange(0, spans.last().0 as int), spans.drop_last(), bodies.drop_last())
            + bodies.last() + text.subrange(spans.last().1 as int, text.len() as int)
    }
}

/// What follows body `k` in the spliced text: the text up to the next span,
/// the next body, and so on to the end of the text.
pub open spec fn after_body(
    text: Seq<u8>,
    spans: Seq<(usize, usize)>,
    bodies: Seq<Seq<u8>>,
    k: int,
) -> Seq<u8>
    recommends
        spans_ordered(spans, text.len()),
        bodies.len() == spans.len(),
        0 <= k < spans.len(),
    decreases spans.len() - k,
{
    if k + 1 >= spans.len() {
        text.subrange(spans[k].1 as int, text.len() as int)
    } else {
        text.subrange(spans[k].1 as int, spans[k + 1].0 as int) + bodies[k + 1] + after_body(
            text,
            spans,
            bodies,
            k + 1,
        )
    }
}

/// The bodies of a list, each as a sequence of bytes.
pub open spec fn bodies_view(bodies: Seq<Vec<u8>>) -> Seq<Seq<u8>> {
    Seq::new(bodies.len(), |i: int| bodies[i]@)
}

/// The bytes that the spans cover, all together.
pub open spec fn covered(spans: Seq<(usize, usize)>) -> int
    decreases spans.len(),
{
    if spans.len() == 0 {
        0
    } else {
        covered(spans.drop_last()) + (spans.last().1 - spans.last().0)
    }
}

/// The bytes of all bodies, all together.
pub open spec fn total_len(bodies: Seq<Seq<u8>>) -> int
    decreases bodies.len(),
{
    if bodies.len() == 0 {
        0
    } else {
        total_len(bodies.drop_last()) + bodies.last().len()
    }
}

/// A prefix of ordered spans is ordered, in any text that reaches the end of
/// its last span.
pub proof fn lemma_ordered_prefix(spans: Seq<(usize, usize)>, len: nat, k: int, cut: nat)
    requires
        spans_ordered(spans, len),
        0 <= k <= spans.len(),
        cut <= len,
        k > 0 ==> spans[k - 1].1 <= cut,
    ensures
        spans_ordered(spans.take(k), cut),
{
    assert forall|i: int| 0 <= i < k implies (#[trigger] spans.take(k)[i]).0 <= spans.take(k)[i].1
        <= cut by {
        assert(spans.take(k)[i] == spans[i]);
        if i < k - 1 {
            assert(spans[i].1 <= spans[k - 1].0);
        }
    }
}

/// Text that follows the last span comes out unchanged, after everything
/// else.
pub proof fn lemma_splice_tail(
    text: Seq<u8>,
    spans: Seq<(usize, usize)>,
    bodies: Seq<Seq<u8>>,
    cut: int,
)
    requires
        spans_ordered(spans, text.len()),
        bodies.len() == spans.len(),
        0 <= cut <= text.len(),
        spans.len() > 0 ==> spans.last().1 <= cut,
    ensures
        splice(text, spans, bodies) == splice(text.subrange(0, cut), spans, bodies)
            + text.subrange(cut, text.len() as int),
{
    let len = text.len() as int;
    let head = text.subrange(0, cut);
    if spans.len() == 0 {
        assert(text =~= head + text.subrange(cut, len));
    } else {
        let s = spans.last().0 as int;
        let e = spans.last().1 as int;
        assert(head.subrange(0, s) =~= text.subrange(0, s));
        assert(text.subrange(e, len) =~= head.subrange(e, cut) + text.subrange(cut, len));
        let front = splice(text.subrange(0, s), spans.drop_last(), bodies.drop_last());
        assert(front + bodies.last() + (head.subrange(e, cut) + text.subrange(cut, len)) =~= front
            + bodies.last() + head.subrange(e, cut) + text.subrange(cut, len));
    }
}

/// A text with no span to replace comes out as it went in.
pub proof fn lemma_splice_nothing(text: Seq<u8>)
    ensures
        splice(text, Seq::empty(), Seq::empty()) == text,
{
}

/// With two spans, the first body comes out before the second, each between
/// the text that stood around its span.
pub proof fn lemma_splice_two(
    text: Seq<u8>,
    first: (usize, usize),
    second: (usize, usize),
    first_body: Seq<u8>,
    second_body: Seq<u8>,
)
    requires
        spans_ordered(seq![first, second], text.len()),
    ensures
        splice(text, seq![first, second], seq![first_body, second_body]) == text.subrange(
            0,
            first.0 as int,
        ) + first_body + text.subrange(first.1 as int, second.0 as int) + second_body
            + text.subrange(second.1 as int, text.len() as int),
{
    let spans = seq![first, second];
    let bodies = seq![first_body, second_body];
    assert(spans[0] == first && spans[1] == second);
    assert(spans[0].1 <= spans[1].0);
    assert(spans.drop_last() =~= seq![first]);
    assert(bodies.drop_last() =~= seq![first_body]);
    let head = text.subrange(0, second.0 as int);
    assert(seq![first].drop_last() =~= Seq::<(usize, usize)>::empty());
    assert(seq![first_body].drop_last() =~= Seq::<Seq<u8>>::empty());
    assert(head.subrange(0, first.0 as int) =~= text.subrange(0, first.0 as int));
    assert(head.subrange(first.1 as int, head.len() as int) =~= text.subrange(
        first.1 as int,
        second.0 as int,
    ));
    assert(splice(head, seq![first], seq![first_body]) == splice(
        head.subrange(0, first.0 as int),
        Seq::empty(),
        Seq::empty(),
    ) + first_body + head.subrange(first.1 as int, head.len() as int));
}

/// Every body comes out whole and in source order: body `k` stands after the
/// text before span `k` with the earlier spans replaced, and before the rest
/// of the text with the later spans replaced.
pub proof fn lemma_bodies_in_order(
    text: Seq<u8>,
    spans: Seq<(usize, usize)>,
    bodies: Seq<Seq<u8>>,
    k: int,
)
    requires
        spans_ordered(spans, text.len()),
        bodies.len() == spans.len(),
        0 <= k < spans.len(),
    ensures
        splice(text, spans, bodies) == splice(
            text.subrange(0, spans[k].0 as int),
            spans.take(k),
            bodies.take(k),
        ) + bodies[k] + after_body(text, spans, bodies, k),
    decreases spans.len() - k,
{
    let n = spans.len() as int;
    let len = text.len() as int;
    if k == n - 1 {
        assert(spans.take(k) =~= spans.drop_last());
        assert(bodies.take(k) =~= bodies.drop_last());
    } else {
        lemma_bodies_in_order(text, spans, bodies, k + 1);
        // The text before span k + 1, with the first k + 1 spans replaced.
        let next = spans[k + 1].0 as int;
        let head = text.subrange(0, next);
        let spans1 = spans.take(k + 1);
        let bodies1 = bodies.take(k + 1);
        assert(spans1.last() == spans[k]);
        assert(bodies1.last() == bodies[k]);
        assert(spans1.drop_last() =~= spans.take(k));
        assert(bodies1.drop_last() =~= bodies.take(k));
        assert(spans[k].1 <= spans[k + 1].0);
        assert(head.subrange(0, spans[k].0 as int) =~= text.subrange(0, spans[k].0 as int));
        assert(head.subrange(spans[k].1 as int, head.len() as int) =~= text.subrange(
            spans[k].1 as int,
            next,
        ));
        let front = splice(text.subrange(0, spans[k].0 as int), spans.take(k), bodies.take(k));
        let gap = text.subrange(spans[k].1 as int, next);
        let rest = after_body(text, spans, bodies, k + 1);
        assert(splice(head, spans1, bodies1) == front + bodies[k] + gap);
        assert((front + bodies[k] + gap) + bodies[k + 1] + rest =~= front + bodies[k] + (gap
            + bodies[k + 1] + rest));
    }
}

/// Nothing of a span stays and nothing of a body is lost: the spliced text is
/// as long as the text without its spans and with all bodies.
pub proof fn lemma_splice_len(text: Seq<u8>, spans: Seq<(usize, usize)>, bodies: Seq<Seq<u8>>)
    requires
        spans_ordered(spans, text.len()),
        bodies.len() == spans.len(),
    ensures
        splice(text, spans, bodies).len() == text.len() - covered(spans) + total_len(bodies),
    decreases spans.len(),
{
    if spans.len() > 0 {
        let s = spans.last().0;
        lemma_ordered_prefix(spans, text.len(), spans.len() - 1, s as nat);
        assert(spans.take(spans.len() - 1) =~= spans.drop_last());
        lemma_splice_len(text.subrange(0, s as int), spans.drop_last(), bodies.drop_last());
    }
}

/// Appends the bytes of `text` from `from` up to `to` to `out`.
pub fn push_range(out: &mut Vec<u8>, text: &Vec<u8>, from: usize, to: usize)
    requires
        from <= to <= text.len(),
    ensures
        final(out)@ == old(out)@ + text@.subrange(from as int, to as int),
{
    let part = vstd::slice::slice_subrange(text.as_slice(), from, to);
    out.extend_from_slice(part);
}

/// Whether the spans are in source order, without overlap, inside a text of
/// `len` bytes.
pub fn check_spans(spans: &Vec<(usize, usize)>, len: usize) -> (r: bool)
    ensures
        r == spans_ordered(spans@, len as nat),
{
    let mut floor: usize = 0;
    let mut i: usize = 0;
    while i < spans.len()
        invariant
            i <= spans.len(),
            spans_ordered(spans@.take(i as int), len as nat),
            i > 0 ==> floor == spans[i - 1].1,
            i == 0 ==> floor == 0,
        decreases spans.len() - i,
    {
        let (start, end) = spans[i];
        if !(floor <= start && start <= end && end <= len) {
            proof {
                if spans_ordered(spans@, len as nat) {
                    assert(spans[i as int].0 <= spans[i as int].1 <= len);
                    if i > 0 {
                        assert(spans[i - 1].1 <= spans[i as int].0);
                    }
                }
            }
            return false;
        }
        proof {
            let next = spans@.take(i + 1);
            let done = spans@.take(i as int);
            assert forall|a: int| 0 <= a < next.len() implies (#[trigger] next[a]).0 <= next[a].1
                <= len by {
                if a < i {
                    assert(done[a] == next[a]);
                }
            }
            assert forall|a: int, b: int| 0 <= a < b < next.len() implies (#[trigger] next[a]).1
                <= (#[trigger] next[b]).0 by {
                if b < i {
                    assert(done[a] == next[a] && done[b] == next[b]);
                } else if a < i - 1 {
                    assert(done[a] == next[a] && done[i - 1] == next[i - 1]);
                    assert(done[a].1 <= done[i - 1].0);
                    assert(done[i - 1].0 <= done[i - 1].1);
                }
            }
        }
        floor = end;
        i = i + 1;
    }
    assert(spans@.take(i as int) =~= spans@);
    true
}

/// The text with each span replaced by the body at the same index, or `None`
/// where the spans are not in order inside the text or the bodies are not one
/// for each span.
pub fn substitute(text: &Vec<u8>, spans: &Vec<(usize, usize)>, bodies: &Vec<Vec<u8>>) -> (r:
    Option<Vec<u8>>)
    ensures
        r is Some <==> spans_ordered(spans@, text.len() as nat) && bodies.len() == spans.len(),
        r matches Some(out) ==> out@ == splice(text@, spans@, bodies_view(bodies@)),
{
    if bodies.len() != spans.len() || !check_spans(spans, text.len()) {
        return None;
    }
    let ghost all = bodies_view(bodies@);
    let mut out: Vec<u8> = Vec::new();
    let mut at: usize = 0;
    let mut k: usize = 0;
    while k < spans.len()
        invariant
            k <= spans.len(),
            bodies.len() == spans.len(),
            all == bodies_view(bodies@),
            spans_ordered(spans@, text.len() as nat),
            at <= text.len(),
            k == 0 ==> at == 0,
            k > 0 ==> at == spans[k - 1].1,
            out@ == splice(text@.subrange(0, at as int), spans@.take(k as int), all.take(k as int)),
        decreases spans.len() - k,
    {
        let (start, end) = spans[k];
        proof {
            assert(spans[k as int].0 <= spans[k as int].1 <= text.len());
            if k > 0 {
                assert(spans[k - 1].1 <= spans[k as int].0);
            }
            lemma_ordered_prefix(spans@, text.len() as nat, k as int, start as nat);
            assert(spans@.take(k as int).len() > 0 ==> spans@.take(k as int).last() == spans[k
                - 1]);
            lemma_splice_tail(
                text@.subrange(0, start as int),
                spans@.take(k as int),
                all.take(k as int),
                at as int,
            );
            assert(text@.subrange(0, start as int).subrange(0, at as int) =~= text@.subrange(
                0,
                at as int,
            ));
            assert(text@.subrange(0, start as int).subrange(at as int, start as int)
                =~= text@.subrange(at as int, start as int));
            let next = text@.subrange(0, end as int);
            assert(spans@.take(k + 1).last() == spans[k as int]);
            assert(all.take(k + 1).last() == bodies[k as int]@);
            assert(spans@.take(k + 1).drop_last() =~= spans@.take(k as int));
            assert(all.take(k + 1).drop_last() =~= all.take(k as int));
            assert(next.subrange(0, start as int) =~= text@.subrange(0, start as int));
            assert(next.subrange(end as int, next.len() as int) =~= Seq::<u8>::empty());
        }
        push_range(&mut out, text, at, start);
        out.extend_from_slice(bodies[k].as_slice());
        at = end;
        k = k + 1;
    }
    proof {
        assert(spans@.take(k as int) =~= spans@);
        assert(all.take(k as int) =~= all);
        lemma_splice_tail(text@, spans@, all, at as int);
    }
    push_range(&mut out, text, at, text.len());
    Some(out)
}

} // verus!
