//! Properties of the renderer and the extractor, proved over their specifications.
use vstd::prelude::*;
use crate::highlight::{group_style, match_spans, spec_spans};
use crate::paint::painted;
use crate::render::{apply_op, apply_ops, ops_at, spec_render, sweep, top, Op, Span};
use crate::style::{plain_style, spec_default_style, Style, PALETTE_SIZE};

verus! {

/// Positions without operations leave the sweep where it was.
pub proof fn lemma_sweep_skip(
    line: Seq<char>,
    spans: Seq<Span>,
    k: int,
    j: int,
    stack: Seq<Style>,
    from: int,
)
    requires
        0 <= k <= j <= line.len(),
        forall|p: int| k <= p < j ==> (#[trigger] ops_at(spans, p)).len() == 0,
    ensures
        sweep(line, spans, k, stack, from) == sweep(line, spans, j, stack, from),
    decreases j - k,
{
    if k < j {
        lemma_sweep_skip(line, spans, k + 1, j, stack, from);
    }
}

/// A line without spans is emitted unchanged, followed by one newline.
pub proof fn pass_through(line: Seq<char>)
    ensures
        spec_render(line, Seq::empty()) == line.push('\n'),
{
    let none = Seq::<Span>::empty();
    assert forall|p: int| 0 <= p < line.len() implies (#[trigger] ops_at(none, p)).len() == 0 by {}
    lemma_sweep_skip(line, none, 0, line.len() as int, Seq::empty(), 0);
    assert(line.subrange(0, line.len() as int) =~= line);
    assert(painted(line, plain_style()) == line);
    assert(line + seq!['\n'] =~= line.push('\n'));
}

proof fn lemma_no_groups(
    caps: Seq<Vec<Option<(usize, usize)>>>,
    names: Seq<Option<String>>,
    table: Seq<(Seq<char>, Style)>,
)
    requires
        forall|m: int| 0 <= m < caps.len() ==> (#[trigger] caps[m])@.len() <= 1,
    ensures
        spec_spans(caps, names, table) == Seq::<Span>::empty(),
    decreases caps.len(),
{
    if caps.len() > 0 {
        let rest = caps.drop_last();
        assert forall|m: int| 0 <= m < rest.len() implies (#[trigger] rest[m])@.len() <= 1 by {
            assert(rest[m] == caps[m]);
        }
        lemma_no_groups(rest, names, table);
        assert(caps[caps.len() - 1]@.len() <= 1);
        assert(spec_spans(caps, names, table) =~= Seq::<Span>::empty());
    }
}

/// When every match reports the whole match alone, as for a pattern without
/// capture groups, no span arises and the line passes through unaltered.
pub proof fn no_capture_groups_pass_through(
    line: Seq<char>,
    caps: Seq<Vec<Option<(usize, usize)>>>,
    names: Seq<Option<String>>,
    table: Seq<(Seq<char>, Style)>,
)
    requires
        forall|m: int| 0 <= m < caps.len() ==> (#[trigger] caps[m])@.len() <= 1,
    ensures
        spec_spans(caps, names, table) == Seq::<Span>::empty(),
        spec_render(line, spec_spans(caps, names, table)) == line.push('\n'),
{
    lemma_no_groups(caps, names, table);
    pass_through(line);
}

proof fn lemma_match_spans_ignore_names(
    m: Seq<Option<(usize, usize)>>,
    k: int,
    names_a: Seq<Option<String>>,
    names_b: Seq<Option<String>>,
)
    ensures
        match_spans(m, k, names_a, Seq::empty()) == match_spans(m, k, names_b, Seq::empty()),
    decreases k,
{
    if k > 1 {
        lemma_match_spans_ignore_names(m, k - 1, names_a, names_b);
        assert(group_style(k - 1, names_a, Seq::empty()) == spec_default_style(k - 1));
        assert(group_style(k - 1, names_b, Seq::empty()) == spec_default_style(k - 1));
    }
}

proof fn lemma_spans_ignore_names(
    caps: Seq<Vec<Option<(usize, usize)>>>,
    names_a: Seq<Option<String>>,
    names_b: Seq<Option<String>>,
)
    ensures
        spec_spans(caps, names_a, Seq::empty()) == spec_spans(caps, names_b, Seq::empty()),
    decreases caps.len(),
{
    if caps.len() > 0 {
        lemma_spans_ignore_names(caps.drop_last(), names_a, names_b);
        lemma_match_spans_ignore_names(
            caps.last()@,
            caps.last()@.len() as int,
            names_a,
            names_b,
        );
    }
}

/// Without a style table, the style of every group is the palette's entry
/// for its position, which repeats with the palette's length; the names of
/// the groups play no part, so the same matches always render the same way.
pub proof fn default_palette_by_position(
    line: Seq<char>,
    caps: Seq<Vec<Option<(usize, usize)>>>,
    names_a: Seq<Option<String>>,
    names_b: Seq<Option<String>>,
    i: int,
)
    requires
        i >= 0,
    ensures
        group_style(i, names_a, Seq::empty()) == spec_default_style(i),
        spec_default_style(i) == spec_default_style(i + PALETTE_SIZE),
        spec_render(line, spec_spans(caps, names_a, Seq::empty())) == spec_render(
            line,
            spec_spans(caps, names_b, Seq::empty()),
        ),
{
    lemma_spans_ignore_names(caps, names_a, names_b);
    assert((i + PALETTE_SIZE) % (PALETTE_SIZE as int) == i % (PALETTE_SIZE as int));
}

/// The operations that span `sp` alone contributes at position `p`.
pub open spec fn span_ops(sp: Span, p: int) -> Seq<Op> {
    (if sp.start == p {
        seq![Op::Push(sp.style)]
    } else {
        Seq::empty()
    }) + (if sp.end == p {
        seq![Op::Pop]
    } else {
        Seq::empty()
    })
}

proof fn lemma_ops_one(a: Span, p: int)
    ensures
        ops_at(seq![a], p) == span_ops(a, p),
{
    assert(seq![a].drop_last() =~= Seq::<Span>::empty());
    assert(seq![a].last() == a);
    assert(ops_at(Seq::<Span>::empty(), p) == Seq::<Op>::empty());
    assert(ops_at(seq![a], p) =~= span_ops(a, p));
}

proof fn lemma_ops_two(a: Span, b: Span, p: int)
    ensures
        ops_at(seq![a, b], p) == span_ops(a, p) + span_ops(b, p),
{
    assert(seq![a, b].drop_last() =~= seq![a]);
    assert(seq![a, b].last() == b);
    lemma_ops_one(a, p);
    assert(ops_at(seq![a, b], p) =~= span_ops(a, p) + span_ops(b, p));
}

proof fn lemma_apply_one(stack: Seq<Style>, x: Op)
    ensures
        apply_ops(stack, seq![x]) == apply_op(stack, x),
{
    assert(seq![x].drop_last() =~= Seq::<Op>::empty());
    assert(seq![x].last() == x);
    assert(apply_ops(stack, Seq::<Op>::empty()) == stack);
}

proof fn lemma_apply_two(stack: Seq<Style>, x: Op, y: Op)
    ensures
        apply_ops(stack, seq![x, y]) == apply_op(apply_op(stack, x), y),
{
    assert(seq![x, y].drop_last() =~= seq![x]);
    assert(seq![x, y].last() == y);
    lemma_apply_one(stack, x);
}

/// From `k`, the sweep paints the pending run at the next position `q` with
/// operations, then applies them.
proof fn lemma_step(
    line: Seq<char>,
    spans: Seq<Span>,
    k: int,
    q: int,
    stack: Seq<Style>,
    from: int,
)
    requires
        0 <= k <= q < line.len(),
        forall|p: int| k <= p < q ==> (#[trigger] ops_at(spans, p)).len() == 0,
        ops_at(spans, q).len() > 0,
    ensures
        sweep(line, spans, k, stack, from) == painted(line.subrange(from, q), top(stack)) + sweep(
            line,
            spans,
            q + 1,
            apply_ops(stack, ops_at(spans, q)),
            q,
        ),
{
    lemma_sweep_skip(line, spans, k, q, stack, from);
}

/// From `k` on without operations, the sweep paints the rest of the line.
proof fn lemma_finish(line: Seq<char>, spans: Seq<Span>, k: int, stack: Seq<Style>, from: int)
    requires
        0 <= k <= line.len(),
        forall|p: int| k <= p < line.len() ==> (#[trigger] ops_at(spans, p)).len() == 0,
    ensures
        sweep(line, spans, k, stack, from) == painted(
            line.subrange(from, line.len() as int),
            top(stack),
        ),
{
    lemma_sweep_skip(line, spans, k, line.len() as int, stack, from);
}

/// A single non-empty span `[s, e)`: the text before `s` and from `e` on is
/// emitted as it is, the text in between painted in the span's style.
pub proof fn single_span(line: Seq<char>, sp: Span)
    requires
        sp.start < sp.end <= line.len(),
    ensures
        spec_render(line, seq![sp]) == line.subrange(0, sp.start as int) + painted(
            line.subrange(sp.start as int, sp.end as int),
            sp.style,
        ) + line.subrange(sp.end as int, line.len() as int) + seq!['\n'],
{
    let spans = seq![sp];
    let n = line.len() as int;
    let s = sp.start as int;
    let e = sp.end as int;
    let none = Seq::<Style>::empty();
    assert forall|p: int| p != s && p != e implies (#[trigger] ops_at(spans, p)).len() == 0 by {
        lemma_ops_one(sp, p);
    }
    lemma_ops_one(sp, s);
    assert(ops_at(spans, s) =~= seq![Op::Push(sp.style)]);
    lemma_apply_one(none, Op::Push(sp.style));
    let one = seq![sp.style];
    assert(apply_ops(none, ops_at(spans, s)) =~= one);
    lemma_step(line, spans, 0, s, none, 0);
    assert(painted(line.subrange(0, s), top(none)) == line.subrange(0, s));
    if e < n {
        lemma_ops_one(sp, e);
        assert(ops_at(spans, e) =~= seq![Op::Pop]);
        lemma_apply_one(one, Op::Pop);
        assert(apply_ops(one, ops_at(spans, e)) =~= none);
        lemma_step(line, spans, s + 1, e, one, s);
        lemma_finish(line, spans, e + 1, none, e);
    } else {
        lemma_finish(line, spans, s + 1, one, s);
        assert(line.subrange(e, n) =~= Seq::<char>::empty());
    }
    assert(line.subrange(e, n) == painted(line.subrange(e, n), plain_style()));
    assert(spec_render(line, spans) =~= line.subrange(0, s) + painted(line.subrange(s, e), sp.style)
        + line.subrange(e, n) + seq!['\n']);
}

/// The text `t` painted in `st`, or nothing when `t` is empty.
pub open spec fn piece(t: Seq<char>, st: Style) -> Seq<char> {
    if t.len() == 0 {
        Seq::empty()
    } else {
        painted(t, st)
    }
}

/// An outer span `a` strictly containing a non-empty inner span `b`, the
/// outer discovered first: the inner style covers exactly the inner text,
/// the outer style the rest of the outer text on either side, and nothing
/// outside the outer span is styled.
pub proof fn nested_spans(line: Seq<char>, a: Span, b: Span)
    requires
        a.start <= b.start,
        b.start < b.end,
        b.end <= a.end,
        a.end <= line.len(),
        a.start != b.start || a.end != b.end,
    ensures
        spec_render(line, seq![a, b]) == line.subrange(0, a.start as int) + piece(
            line.subrange(a.start as int, b.start as int),
            a.style,
        ) + painted(line.subrange(b.start as int, b.end as int), b.style) + piece(
            line.subrange(b.end as int, a.end as int),
            a.style,
        ) + line.subrange(a.end as int, line.len() as int) + seq!['\n'],
{
    let spans = seq![a, b];
    let n = line.len() as int;
    let (a0, a1, b0, b1) = (a.start as int, a.end as int, b.start as int, b.end as int);
    let none = Seq::<Style>::empty();
    let sa = seq![a.style];
    let sab = seq![a.style, b.style];
    assert forall|p: int| p != a0 && p != a1 && p != b0 && p != b1 implies (#[trigger] ops_at(
        spans,
        p,
    )).len() == 0 by {
        lemma_ops_two(a, b, p);
    }
    lemma_ops_two(a, b, a0);
    lemma_ops_two(a, b, b0);
    lemma_ops_two(a, b, b1);
    lemma_ops_two(a, b, a1);
    assert(painted(line.subrange(0, a0), top(none)) == line.subrange(0, a0));
    // The outer span opens; the inner one with it when they start together.
    lemma_step(line, spans, 0, a0, none, 0);
    let pre = line.subrange(0, a0) + piece(line.subrange(a0, b0), a.style);
    if a0 < b0 {
        assert(ops_at(spans, a0) =~= seq![Op::Push(a.style)]);
        lemma_apply_one(none, Op::Push(a.style));
        assert(apply_ops(none, ops_at(spans, a0)) =~= sa);
        assert(ops_at(spans, b0) =~= seq![Op::Push(b.style)]);
        lemma_apply_one(sa, Op::Push(b.style));
        assert(apply_ops(sa, ops_at(spans, b0)) =~= sab);
        lemma_step(line, spans, a0 + 1, b0, sa, a0);
        assert(sweep(line, spans, 0, none, 0) == pre + sweep(line, spans, b0 + 1, sab, b0));
    } else {
        assert(ops_at(spans, a0) =~= seq![Op::Push(a.style), Op::Push(b.style)]);
        lemma_apply_two(none, Op::Push(a.style), Op::Push(b.style));
        assert(apply_ops(none, ops_at(spans, a0)) =~= sab);
        assert(line.subrange(a0, b0) =~= Seq::<char>::empty());
        assert(pre =~= line.subrange(0, a0));
        assert(sweep(line, spans, 0, none, 0) == pre + sweep(line, spans, b0 + 1, sab, b0));
    }
    let inner = painted(line.subrange(b0, b1), b.style);
    let post = piece(line.subrange(b1, a1), a.style) + line.subrange(a1, n);
    // The inner span closes; the outer one with it when they end together.
    if b1 == n {
        lemma_finish(line, spans, b0 + 1, sab, b0);
        assert(line.subrange(b1, a1) =~= Seq::<char>::empty());
        assert(line.subrange(a1, n) =~= Seq::<char>::empty());
        assert(post =~= Seq::<char>::empty());
        assert(sweep(line, spans, b0 + 1, sab, b0) =~= inner + post);
    } else if b1 == a1 {
        assert(ops_at(spans, b1) =~= seq![Op::Pop, Op::Pop]);
        lemma_apply_two(sab, Op::Pop, Op::Pop);
        assert(apply_ops(sab, ops_at(spans, b1)) =~= none);
        lemma_step(line, spans, b0 + 1, b1, sab, b0);
        lemma_finish(line, spans, b1 + 1, none, b1);
        assert(line.subrange(b1, a1) =~= Seq::<char>::empty());
        assert(painted(line.subrange(b1, n), top(none)) == line.subrange(a1, n));
        assert(post =~= line.subrange(a1, n));
        assert(sweep(line, spans, b0 + 1, sab, b0) == inner + post);
    } else {
        assert(ops_at(spans, b1) =~= seq![Op::Pop]);
        lemma_apply_one(sab, Op::Pop);
        assert(apply_ops(sab, ops_at(spans, b1)) =~= sa);
        lemma_step(line, spans, b0 + 1, b1, sab, b0);
        if a1 == n {
            lemma_finish(line, spans, b1 + 1, sa, b1);
            assert(line.subrange(a1, n) =~= Seq::<char>::empty());
            assert(post =~= painted(line.subrange(b1, n), a.style));
        } else {
            assert(ops_at(spans, a1) =~= seq![Op::Pop]);
            lemma_apply_one(sa, Op::Pop);
            assert(apply_ops(sa, ops_at(spans, a1)) =~= none);
            lemma_step(line, spans, b1 + 1, a1, sa, b1);
            lemma_finish(line, spans, a1 + 1, none, a1);
            assert(painted(line.subrange(a1, n), top(none)) == line.subrange(a1, n));
        }
        assert(sweep(line, spans, b0 + 1, sab, b0) == inner + post);
    }
    assert(spec_render(line, spans) =~= pre + inner + post + seq!['\n']);
}

} // verus!
