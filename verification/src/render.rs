//! Filtering and colored rendering of complete lines.

use vstd::prelude::*;

use crate::color::{
    push_color_prefix, push_reset_suffix, spec_color_prefix, spec_reset_suffix, Color,
};
use crate::filter::{filter_view, line_passes, spec_passes};
use crate::lines::{complete_lines, lemma_lines_snoc, line_rest};

verus! {

/// One emitted line as written to the console: the color's start escape,
/// the line's bytes, the reset escape, and a newline.
pub open spec fn rendered_line(c: Color, line: Seq<u8>) -> Seq<u8> {
    spec_color_prefix(c) + line + spec_reset_suffix() + seq![10u8]
}

/// The lines among `lines` that pass `filter`, in order.
pub open spec fn emitted_lines(filter: Option<Seq<char>>, lines: Seq<Seq<u8>>) -> Seq<Seq<u8>>
    decreases lines.len(),
{
    if lines.len() == 0 {
        Seq::empty()
    } else {
        emitted_lines(filter, lines.drop_last()) + (if spec_passes(filter, lines.last()) {
            seq![lines.last()]
        } else {
            Seq::empty()
        })
    }
}

/// All of `lines` rendered in color `c`, concatenated in order.
pub open spec fn render_lines(c: Color, lines: Seq<Seq<u8>>) -> Seq<u8>
    decreases lines.len(),
{
    if lines.len() == 0 {
        Seq::empty()
    } else {
        render_lines(c, lines.drop_last()) + rendered_line(c, lines.last())
    }
}

/// What one drained buffer contributes to the console: its complete lines
/// that pass the filter, rendered in the handle's color.
pub open spec fn spec_emit(c: Color, filter: Option<Seq<char>>, s: Seq<u8>) -> Seq<u8> {
    render_lines(c, emitted_lines(filter, complete_lines(s)))
}

/// Appends the colored rendering of `line` to `out`.
pub fn push_rendered_line(out: &mut Vec<u8>, c: Color, line: &Vec<u8>)
    ensures
        final(out)@ == old(out)@ + rendered_line(c, line@),
{
    push_color_prefix(out, c);
    out.extend_from_slice(line.as_slice());
    push_reset_suffix(out);
    out.push(10);
    proof {
        assert(out@ =~= old(out)@ + rendered_line(c, line@));
    }
}

/// Splits `buf` into lines, emits those that pass the filter in color `c`,
/// and returns the console bytes together with the retained trailing
/// fragment.
pub fn emit_buffer(c: Color, re: &Option<regex::bytes::Regex>, buf: &Vec<u8>) -> (r: (
    Vec<u8>,
    Vec<u8>,
))
    ensures
        r.0@ == spec_emit(c, filter_view(*re), buf@),
        r.1@ == line_rest(buf@),
{
    let ghost f = filter_view(*re);
    let mut out: Vec<u8> = Vec::new();
    let mut cur: Vec<u8> = Vec::new();
    let mut i: usize = 0;
    proof {
        assert(buf@.take(0) =~= Seq::<u8>::empty());
        crate::lines::lemma_lines_empty();
        assert(out@ =~= render_lines(c, emitted_lines(f, complete_lines(buf@.take(0)))));
    }
    while i < buf.len()
        invariant
            i <= buf@.len(),
            f == filter_view(*re),
            out@ == render_lines(c, emitted_lines(f, complete_lines(buf@.take(i as int)))),
            cur@ == line_rest(buf@.take(i as int)),
        decreases buf@.len() - i,
    {
        let b = buf[i];
        proof {
            assert(buf@.take(i + 1) =~= buf@.take(i as int).push(b));
            lemma_lines_snoc(buf@.take(i as int), b);
        }
        if b == 10 {
            let ghost cl = complete_lines(buf@.take(i as int));
            let ghost el = emitted_lines(f, cl);
            proof {
                assert(complete_lines(buf@.take(i + 1)) == cl.push(cur@));
                assert(cl.push(cur@).drop_last() =~~= cl);
                assert(cl.push(cur@).last() == cur@);
            }
            if line_passes(re, cur.as_slice()) {
                push_rendered_line(&mut out, c, &cur);
                proof {
                    assert(emitted_lines(f, cl.push(cur@)) == el + seq![cur@]);
                    assert((el + seq![cur@]).drop_last() =~~= el);
                    assert((el + seq![cur@]).last() == cur@);
                    assert(render_lines(c, el + seq![cur@]) == render_lines(c, el)
                        + rendered_line(c, cur@));
                }
            } else {
                proof {
                    assert(emitted_lines(f, cl.push(cur@)) == el + Seq::<Seq<u8>>::empty());
                    assert(el + Seq::<Seq<u8>>::empty() =~~= el);
                }
            }
            cur.clear();
        } else {
            cur.push(b);
            proof {
                assert(complete_lines(buf@.take(i + 1)) == complete_lines(buf@.take(i as int)));
            }
        }
        i += 1;
    }
    proof {
        assert(buf@.take(buf@.len() as int) =~= buf@);
    }
    (out, cur)
}

} // verus!
