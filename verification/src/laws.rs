//! The library's laws: what the multiplexer guarantees, stated once and
//! proved, independent of any particular input.

use vstd::prelude::*;

use crate::color::{spec_color_prefix, spec_reset_suffix, Color};
use crate::filter::spec_passes;
use crate::lines::{
    complete_lines, has_newline, lemma_lines_empty, lemma_split_append, line_rest,
};
use crate::mux::{spec_cycle_out, spec_step_out, spec_step_view, CtxView, ProcessStatus};
use crate::render::{emitted_lines, render_lines, rendered_line};

verus! {

/// The shelf left after feeding `chunks` one at a time into an empty shelf.
pub open spec fn stream_shelf(chunks: Seq<Seq<u8>>) -> Seq<u8>
    decreases chunks.len(),
{
    if chunks.len() == 0 {
        Seq::empty()
    } else {
        line_rest(stream_shelf(chunks.drop_last()) + chunks.last())
    }
}

/// Every complete line recovered while feeding `chunks` one at a time into
/// an empty shelf, in the order recovered.
pub open spec fn stream_lines(chunks: Seq<Seq<u8>>) -> Seq<Seq<u8>>
    decreases chunks.len(),
{
    if chunks.len() == 0 {
        Seq::empty()
    } else {
        stream_lines(chunks.drop_last()) + complete_lines(
            stream_shelf(chunks.drop_last()) + chunks.last(),
        )
    }
}

/// Line integrity: however a byte stream is fragmented into read chunks,
/// reassembly recovers exactly the complete, newline-terminated lines of the
/// whole stream, once each, in their original order, and the shelf ends as
/// the stream's trailing unterminated fragment.
pub proof fn lemma_line_integrity(chunks: Seq<Seq<u8>>)
    ensures
        stream_lines(chunks) == complete_lines(chunks.flatten()),
        stream_shelf(chunks) == line_rest(chunks.flatten()),
    decreases chunks.len(),
{
    if chunks.len() == 0 {
        lemma_lines_empty();
        assert(chunks.flatten() == Seq::<u8>::empty());
    } else {
        lemma_line_integrity(chunks.drop_last());
        chunks.lemma_flatten_and_flatten_alt_are_equivalent();
        chunks.drop_last().lemma_flatten_and_flatten_alt_are_equivalent();
        let prev = chunks.drop_last().flatten();
        assert(chunks.flatten() == prev + chunks.last());
        lemma_split_append(prev, chunks.last());
    }
}

/// Filter correctness: a line is among the emitted ones if and only if it is
/// a recovered line and the filter is absent or matches it.
pub proof fn lemma_filter_correctness(f: Option<Seq<char>>, ls: Seq<Seq<u8>>, l: Seq<u8>)
    ensures
        emitted_lines(f, ls).contains(l) <==> (ls.contains(l) && spec_passes(f, l)),
    decreases ls.len(),
{
    if ls.len() == 0 {
    } else {
        lemma_filter_correctness(f, ls.drop_last(), l);
        let prev = emitted_lines(f, ls.drop_last());
        let tailp: Seq<Seq<u8>> = if spec_passes(f, ls.last()) {
            seq![ls.last()]
        } else {
            Seq::empty()
        };
        assert(emitted_lines(f, ls) == prev + tailp);
        if (prev + tailp).contains(l) {
            let i = choose|i: int| 0 <= i < (prev + tailp).len() && (prev + tailp)[i] == l;
            if i < prev.len() {
                assert(prev[i] == l);
                assert(prev.contains(l));
                let j = choose|j: int| 0 <= j < ls.drop_last().len() && ls.drop_last()[j] == l;
                assert(ls[j] == l);
                assert(ls.contains(l));
            } else {
                assert(tailp[i - prev.len()] == l);
                assert(l == ls.last() && spec_passes(f, l));
                assert(ls[ls.len() - 1] == l);
                assert(ls.contains(l));
            }
        }
        if ls.contains(l) && spec_passes(f, l) {
            let i = choose|i: int| 0 <= i < ls.len() && ls[i] == l;
            if i < ls.len() - 1 {
                assert(ls.drop_last()[i] == l);
                assert(ls.drop_last().contains(l));
                let j = choose|j: int| 0 <= j < prev.len() && prev[j] == l;
                assert((prev + tailp)[j] == l);
                assert((prev + tailp).contains(l));
            } else {
                assert(ls.last() == l);
                assert((prev + tailp)[prev.len() as int] == l);
                assert((prev + tailp).contains(l));
            }
        }
    }
}

/// Color fidelity: every emitted line is bracketed by its handle's color
/// escape sequence and the reset escape sequence, and carries the line's
/// bytes unchanged between them.
pub proof fn lemma_color_fidelity(c: Color, line: Seq<u8>)
    ensures
        rendered_line(c, line).take(spec_color_prefix(c).len() as int) == spec_color_prefix(c),
        rendered_line(c, line).subrange(
            spec_color_prefix(c).len() as int,
            spec_color_prefix(c).len() + line.len() as int,
        ) == line,
        rendered_line(c, line).skip(spec_color_prefix(c).len() + line.len() as int) == spec_reset_suffix()
            + seq![10u8],
{
    let r = rendered_line(c, line);
    let p = spec_color_prefix(c).len() as int;
    assert(r.take(p) =~= spec_color_prefix(c));
    assert(r.subrange(p, p + line.len() as int) =~= line);
    assert(r.skip(p + line.len() as int) =~= spec_reset_suffix() + seq![10u8]);
}

/// A cycle's output decomposes around any one handle: what stands before it
/// is exactly the earlier handles' output, what follows is exactly the later
/// ones'. Hence a handle that contributes nothing — silent or retired —
/// neither delays nor disturbs the others' output.
pub proof fn lemma_cycle_decomposition(ms: Seq<CtxView>, chunks: Seq<Seq<u8>>, i: int)
    requires
        ms.len() == chunks.len(),
        0 <= i < ms.len(),
    ensures
        spec_cycle_out(ms, chunks) == spec_cycle_out(ms.take(i), chunks.take(i)) + spec_step_out(
            ms[i],
            chunks[i],
        ) + spec_cycle_out(ms.skip(i + 1), chunks.skip(i + 1)),
    decreases ms.len(),
{
    if i == ms.len() - 1 {
        assert(ms.drop_last() =~= ms.take(i));
        assert(chunks.drop_last() =~= chunks.take(i));
        assert(ms.skip(i + 1).len() == 0);
        assert(spec_cycle_out(ms, chunks) =~= spec_cycle_out(ms.take(i), chunks.take(i))
            + spec_step_out(ms[i], chunks[i]) + spec_cycle_out(
            ms.skip(i + 1),
            chunks.skip(i + 1),
        ));
    } else {
        lemma_cycle_decomposition(ms.drop_last(), chunks.drop_last(), i);
        assert(ms.drop_last().take(i) =~= ms.take(i));
        assert(chunks.drop_last().take(i) =~= chunks.take(i));
        assert(ms.drop_last()[i] == ms[i]);
        assert(chunks.drop_last()[i] == chunks[i]);
        let mt = ms.skip(i + 1);
        let ct = chunks.skip(i + 1);
        assert(ms.drop_last().skip(i + 1) =~= mt.drop_last());
        assert(chunks.drop_last().skip(i + 1) =~= ct.drop_last());
        assert(mt.len() > 0);
        assert(mt.last() == ms.last());
        assert(ct.last() == chunks.last());
        assert(spec_cycle_out(mt, ct) == spec_cycle_out(mt.drop_last(), ct.drop_last())
            + spec_step_out(ms.last(), chunks.last()));
        assert(spec_cycle_out(ms, chunks) =~= spec_cycle_out(ms.take(i), chunks.take(i))
            + spec_step_out(ms[i], chunks[i]) + spec_cycle_out(mt, ct));
    }
}

/// A handle with no available data and no buffered newline emits nothing
/// this cycle, so it never stalls the cycle: by the decomposition above, the
/// next handle's output is unchanged.
pub proof fn lemma_silent_handle(m: CtxView, chunk: Seq<u8>)
    requires
        chunk.len() == 0,
        !has_newline(m.shelf),
    ensures
        spec_step_out(m, chunk) == Seq::<u8>::empty(),
{
    assert(m.shelf + chunk =~= m.shelf);
    assert(complete_lines(m.shelf) == Seq::<Seq<u8>>::empty());
}

/// Follow liveness, first half: once the probe of a followed handle reports
/// that its process exited, was signaled or stopped, the handle is retired.
pub proof fn lemma_follow_retires(m: CtxView, chunk: Seq<u8>, status: ProcessStatus)
    requires
        m.follow,
        status != ProcessStatus::Running,
    ensures
        !spec_step_view(m, chunk, status).alive,
{
}

/// Follow liveness, second half: a retired handle emits nothing and never
/// changes again, whatever is handed to it.
pub proof fn lemma_retired_handle(m: CtxView, chunk: Seq<u8>, status: ProcessStatus)
    requires
        !m.alive,
    ensures
        spec_step_out(m, chunk) == Seq::<u8>::empty(),
        spec_step_view(m, chunk, status) == m,
{
}

/// Filtering distributes over concatenation of recovered lines.
pub proof fn lemma_emitted_append(f: Option<Seq<char>>, a: Seq<Seq<u8>>, b: Seq<Seq<u8>>)
    ensures
        emitted_lines(f, a + b) == emitted_lines(f, a) + emitted_lines(f, b),
    decreases b.len(),
{
    if b.len() == 0 {
        assert(a + b =~~= a);
        assert(emitted_lines(f, b) =~~= Seq::<Seq<u8>>::empty());
        assert(emitted_lines(f, a) + emitted_lines(f, b) =~~= emitted_lines(f, a));
    } else {
        lemma_emitted_append(f, a, b.drop_last());
        assert((a + b).drop_last() =~~= a + b.drop_last());
        assert((a + b).last() == b.last());
        let tailp: Seq<Seq<u8>> = if spec_passes(f, b.last()) {
            seq![b.last()]
        } else {
            Seq::empty()
        };
        assert(emitted_lines(f, a + b) == emitted_lines(f, a + b.drop_last()) + tailp);
        assert(emitted_lines(f, b) == emitted_lines(f, b.drop_last()) + tailp);
        assert((emitted_lines(f, a) + emitted_lines(f, b.drop_last())) + tailp
            =~~= emitted_lines(f, a) + (emitted_lines(f, b.drop_last()) + tailp));
    }
}

/// Rendering distributes over concatenation of emitted lines.
pub proof fn lemma_render_append(c: Color, a: Seq<Seq<u8>>, b: Seq<Seq<u8>>)
    ensures
        render_lines(c, a + b) == render_lines(c, a) + render_lines(c, b),
    decreases b.len(),
{
    if b.len() == 0 {
        assert(a + b =~~= a);
        assert(render_lines(c, b) =~= Seq::<u8>::empty());
        assert(render_lines(c, a) + render_lines(c, b) =~= render_lines(c, a));
    } else {
        lemma_render_append(c, a, b.drop_last());
        assert((a + b).drop_last() =~~= a + b.drop_last());
        assert((a + b).last() == b.last());
        assert(render_lines(c, a + b) == render_lines(c, a + b.drop_last()) + rendered_line(
            c,
            b.last(),
        ));
        assert(render_lines(c, b) == render_lines(c, b.drop_last()) + rendered_line(c, b.last()));
        assert((render_lines(c, a) + render_lines(c, b.drop_last())) + rendered_line(c, b.last())
            =~= render_lines(c, a) + (render_lines(c, b.drop_last()) + rendered_line(
            c,
            b.last(),
        )));
    }
}

/// The handle's state after many cycles while its process keeps running.
pub open spec fn spec_run_view(m: CtxView, chunks: Seq<Seq<u8>>) -> CtxView
    decreases chunks.len(),
{
    if chunks.len() == 0 {
        m
    } else {
        spec_step_view(
            spec_run_view(m, chunks.drop_last()),
            chunks.last(),
            ProcessStatus::Running,
        )
    }
}

/// Everything the handle writes across those cycles, in order.
pub open spec fn spec_run_out(m: CtxView, chunks: Seq<Seq<u8>>) -> Seq<u8>
    decreases chunks.len(),
{
    if chunks.len() == 0 {
        Seq::empty()
    } else {
        spec_run_out(m, chunks.drop_last()) + spec_step_out(
            spec_run_view(m, chunks.drop_last()),
            chunks.last(),
        )
    }
}

/// The capstone: however its process's output is fragmented into read
/// chunks, a live handle writes exactly the complete lines of the whole
/// stream that pass its filter, once each, in the stream's order, each in
/// the handle's color — and it buffers exactly the stream's trailing
/// unterminated fragment.
pub proof fn lemma_run_integrity(m: CtxView, chunks: Seq<Seq<u8>>)
    requires
        m.alive,
        m.shelf == Seq::<u8>::empty(),
    ensures
        spec_run_out(m, chunks) == render_lines(
            m.color,
            emitted_lines(m.filter, complete_lines(chunks.flatten())),
        ),
        spec_run_view(m, chunks) == (CtxView {
            shelf: line_rest(chunks.flatten()),
            ..m
        }),
    decreases chunks.len(),
{
    if chunks.len() == 0 {
        lemma_lines_empty();
        assert(chunks.flatten() == Seq::<u8>::empty());
        assert(emitted_lines(m.filter, Seq::<Seq<u8>>::empty()) =~~= Seq::<Seq<u8>>::empty());
        assert(spec_run_view(m, chunks) =~= (CtxView { shelf: line_rest(chunks.flatten()), ..m }));
    } else {
        lemma_run_integrity(m, chunks.drop_last());
        chunks.lemma_flatten_and_flatten_alt_are_equivalent();
        chunks.drop_last().lemma_flatten_and_flatten_alt_are_equivalent();
        let prev = chunks.drop_last().flatten();
        assert(chunks.flatten() == prev + chunks.last());
        lemma_split_append(prev, chunks.last());
        let mp = spec_run_view(m, chunks.drop_last());
        assert(mp.alive && mp.color == m.color && mp.filter == m.filter);
        assert(mp.shelf == line_rest(prev));
        assert(mp.shelf + chunks.last() == line_rest(prev) + chunks.last());
        let fresh = complete_lines(line_rest(prev) + chunks.last());
        assert(complete_lines(chunks.flatten()) == complete_lines(prev) + fresh);
        lemma_emitted_append(m.filter, complete_lines(prev), fresh);
        lemma_render_append(
            m.color,
            emitted_lines(m.filter, complete_lines(prev)),
            emitted_lines(m.filter, fresh),
        );
        assert(spec_run_view(m, chunks) =~= (CtxView { shelf: line_rest(chunks.flatten()), ..m }));
    }
}

/// Multi-source ordering: when two handles both have output in the same
/// cycle, the first-supplied handle's bytes all precede the second's.
pub proof fn lemma_cycle_order(a: CtxView, b: CtxView, ca: Seq<u8>, cb: Seq<u8>)
    ensures
        spec_cycle_out(seq![a, b], seq![ca, cb]) == spec_step_out(a, ca) + spec_step_out(b, cb),
{
    let ms = seq![a, b];
    let cs = seq![ca, cb];
    assert(ms.drop_last() =~= seq![a]);
    assert(cs.drop_last() =~= seq![ca]);
    assert(seq![a].drop_last() =~= Seq::<CtxView>::empty());
    assert(seq![ca].drop_last() =~= Seq::<Seq<u8>>::empty());
    assert(seq![a].last() == a);
    assert(seq![ca].last() == ca);
    assert(spec_cycle_out(Seq::<CtxView>::empty(), Seq::<Seq<u8>>::empty())
        == Seq::<u8>::empty());
    assert(spec_cycle_out(seq![a], seq![ca]) == spec_cycle_out(
        Seq::<CtxView>::empty(),
        Seq::<Seq<u8>>::empty(),
    ) + spec_step_out(a, ca));
    assert(Seq::<u8>::empty() + spec_step_out(a, ca) =~= spec_step_out(a, ca));
    assert(spec_cycle_out(ms, cs) =~= spec_step_out(a, ca) + spec_step_out(b, cb));
}

} // verus!
