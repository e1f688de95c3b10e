//! The overlay renderer: an event sweep over a stack of styles.
use vstd::prelude::*;
use vstd::string::{StrSliceExecFns, StringExecFns};
use crate::paint::{paint, painted};
use crate::style::{plain_style, Style};

verus! {

/// A styled half-open interval `[start, end)` of character positions in one line.
#[derive(Clone, Copy, PartialEq, Eq, Debug)]
pub struct Span {
    pub start: usize,
    pub end: usize,
    pub style: Style,
}

/// A change of the style stack at one position.
#[derive(Clone, Copy, PartialEq, Eq, Debug)]
pub enum Op {
    Push(Style),
    Pop,
}

/// The operations at position `p`, in the order the spans were discovered:
/// a span pushes its style at its start and pops at its end.
pub open spec fn ops_at(spans: Seq<Span>, p: int) -> Seq<Op>
    decreases spans.len(),
{
    if spans.len() == 0 {
        Seq::empty()
    } else {
        let sp = spans.last();
        ops_at(spans.drop_last(), p) + (if sp.start == p {
            seq![Op::Push(sp.style)]
        } else {
            Seq::empty()
        }) + (if sp.end == p {
            seq![Op::Pop]
        } else {
            Seq::empty()
        })
    }
}

pub open spec fn apply_op(stack: Seq<Style>, op: Op) -> Seq<Style> {
    match op {
        Op::Push(s) => stack.push(s),
        Op::Pop => if stack.len() == 0 {
            stack
        } else {
            stack.drop_last()
        },
    }
}

pub open spec fn apply_ops(stack: Seq<Style>, ops: Seq<Op>) -> Seq<Style>
    decreases ops.len(),
{
    if ops.len() == 0 {
        stack
    } else {
        apply_op(apply_ops(stack, ops.drop_last()), ops.last())
    }
}

/// The style in effect under `stack`: its top, or the plain style when empty.
pub open spec fn top(stack: Seq<Style>) -> Style {
    if stack.len() == 0 {
        plain_style()
    } else {
        stack.last()
    }
}

/// The output from position `k` on, where the pending run began at `from`
/// and `stack` is in effect: at each position with operations the pending
/// run is painted in the style in effect before them, then they are applied.
pub open spec fn sweep(line: Seq<char>, spans: Seq<Span>, k: int, stack: Seq<Style>, from: int) -> Seq<
    char,
>
    decreases line.len() - k,
{
    if k >= line.len() {
        painted(line.subrange(from, line.len() as int), top(stack))
    } else if ops_at(spans, k).len() > 0 {
        painted(line.subrange(from, k), top(stack)) + sweep(
            line,
            spans,
            k + 1,
            apply_ops(stack, ops_at(spans, k)),
            k,
        )
    } else {
        sweep(line, spans, k + 1, stack, from)
    }
}

/// The rendered form of `line` under `spans`, with its line terminator.
pub open spec fn spec_render(line: Seq<char>, spans: Seq<Span>) -> Seq<char> {
    sweep(line, spans, 0, Seq::empty(), 0) + seq!['\n']
}

/// The operations at each position below `n`.
fn event_table(spans: &Vec<Span>, n: usize) -> (t: Vec<Vec<Op>>)
    ensures
        t@.len() == n,
        forall|p: int| 0 <= p < n ==> (#[trigger] t@[p])@ == ops_at(spans@, p),
{
    let mut t: Vec<Vec<Op>> = Vec::new();
    let mut p: usize = 0;
    while p < n
        invariant
            p <= n,
            t@.len() == p,
            forall|q: int| 0 <= q < p ==> (#[trigger] t@[q])@ == Seq::<Op>::empty(),
        decreases n - p,
    {
        t.push(Vec::new());
        p = p + 1;
    }
    let mut i: usize = 0;
    while i < spans.len()
        invariant
            i <= spans@.len(),
            t@.len() == n,
            forall|q: int| 0 <= q < n ==> (#[trigger] t@[q])@ == ops_at(spans@.take(i as int), q),
        decreases spans@.len() - i,
    {
        let sp = spans[i];
        let ghost before = t@;
        if sp.start < n {
            t[sp.start].push(Op::Push(sp.style));
        }
        let ghost mid = t@;
        if sp.end < n {
            t[sp.end].push(Op::Pop);
        }
        proof {
            let prev = spans@.take(i as int);
            let next = spans@.take(i + 1);
            assert(next.drop_last() =~= prev);
            assert forall|q: int| 0 <= q < n implies (#[trigger] t@[q])@ == ops_at(next, q) by {
                let a = ops_at(prev, q);
                let b: Seq<Op> = if sp.start == q { seq![Op::Push(sp.style)] } else { Seq::empty() };
                let c: Seq<Op> = if sp.end == q { seq![Op::Pop] } else { Seq::empty() };
                assert(before[q]@ == a);
                assert(mid[q]@ =~= a + b);
                assert(t@[q]@ =~= a + b + c);
            }
        }
        i = i + 1;
    }
    assert(spans@.take(spans@.len() as int) =~= spans@);
    t
}

fn top_style(stack: &Vec<Style>) -> (r: Style)
    ensures
        r == top(stack@),
{
    if stack.len() == 0 {
        Style::new()
    } else {
        stack[stack.len() - 1]
    }
}

/// Renders `line` with each span's style over its characters: nested spans
/// layer over their containers, and the line ends with a newline.
pub fn render(line: &str, spans: &Vec<Span>) -> (r: String)
    ensures
        r@ == spec_render(line@, spans@),
{
    let n = line.unicode_len();
    let table = event_table(spans, n);
    let mut out = String::new();
    let mut stack: Vec<Style> = Vec::new();
    let mut from: usize = 0;
    let mut k: usize = 0;
    while k < n
        invariant
            n == line@.len(),
            table@.len() == n,
            forall|p: int| 0 <= p < n ==> (#[trigger] table@[p])@ == ops_at(spans@, p),
            from <= k <= n,
            out@ + sweep(line@, spans@, k as int, stack@, from as int) == sweep(
                line@,
                spans@,
                0,
                Seq::empty(),
                0,
            ),
        decreases n - k,
    {
        let ops = &table[k];
        if ops.len() > 0 {
            let piece = paint(line.substring_char(from, k), &top_style(&stack));
            out.append(piece.as_str());
            let ghost start = stack@;
            let mut j: usize = 0;
            while j < ops.len()
                invariant
                    j <= ops@.len(),
                    stack@ == apply_ops(start, ops@.take(j as int)),
                decreases ops@.len() - j,
            {
                match ops[j] {
                    Op::Push(s) => stack.push(s),
                    Op::Pop => {
                        stack.pop();
                    },
                }
                proof {
                    assert(ops@.take(j + 1).drop_last() =~= ops@.take(j as int));
                }
                j = j + 1;
            }
            assert(ops@.take(ops@.len() as int) =~= ops@);
            from = k;
        }
        k = k + 1;
    }
    let piece = paint(line.substring_char(from, n), &top_style(&stack));
    out.append(piece.as_str());
    proof {
        reveal_strlit("\n");
    }
    out.append("\n");
    out
}

} // verus!
