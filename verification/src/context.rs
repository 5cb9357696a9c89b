//! The stack of named parsing contexts and the dotted path it spells.

use vstd::prelude::*;
use crate::model::ContextFrame;

verus! {

/// Names joined with `.`: `["ImageHeader", "size"]` gives `ImageHeader.size`.
pub open spec fn join_dot(names: Seq<Seq<char>>) -> Seq<char>
    decreases names.len(),
{
    if names.len() == 0 {
        Seq::empty()
    } else if names.len() == 1 {
        names[0]
    } else {
        join_dot(names.drop_last()).push('.') + names.last()
    }
}

/// The names of a stack of frames, outermost first.
pub open spec fn frame_names(frames: Seq<(Seq<char>, u64)>) -> Seq<Seq<char>> {
    frames.map_values(|f: (Seq<char>, u64)| f.0)
}

/// The dotted path of a stack of frames.
pub open spec fn path_of(frames: Seq<(Seq<char>, u64)>) -> Seq<char> {
    join_dot(frame_names(frames))
}

/// Stack of parsing contexts.
#[derive(Debug)]
pub struct ContextStack {
    frames: Vec<ContextFrame>,
}

impl View for ContextStack {
    type V = Seq<(Seq<char>, u64)>;

    closed spec fn view(&self) -> Seq<(Seq<char>, u64)> {
        self.frames@.map_values(|f: ContextFrame| f@)
    }
}

impl ContextStack {
    /// An empty stack.
    pub fn new() -> (r: Self)
        ensures
            r@ == Seq::<(Seq<char>, u64)>::empty(),
    {
        let r = Self { frames: Vec::new() };
        assert(r@ =~= Seq::<(Seq<char>, u64)>::empty());
        r
    }

    /// Enters a context named `name` that starts at bit `start_bit`.
    pub fn push(&mut self, name: &str, start_bit: u64)
        ensures
            final(self)@ == old(self)@.push((name@, start_bit)),
            final(self)@ == context_step(old(self)@, Some((name@, start_bit))),
    {
        let frame = ContextFrame { name: String::from_str(name), start_bit };
        self.frames.push(frame);
        assert(self@ =~= old(self)@.push((name@, start_bit)));
    }

    /// Leaves the innermost context and returns its frame; `None`, with the
    /// stack unchanged, when the stack is empty.
    pub fn pop(&mut self) -> (r: Option<ContextFrame>)
        ensures
            old(self)@.len() == 0 ==> r is None && final(self)@ == old(self)@,
            old(self)@.len() > 0 ==> (r matches Some(f) && f@ == old(self)@.last()
                && final(self)@ == old(self)@.drop_last()),
            final(self)@ == context_step(old(self)@, None),
    {
        let r = self.frames.pop();
        assert(self@ =~= if old(self)@.len() == 0 { old(self)@ } else { old(self)@.drop_last() });
        r
    }

    /// Get the current hierarchical path (e.g., "ImageHeader.metadata.color")
    pub fn path(&self) -> (r: String)
        ensures
            r@ == path_of(self@),
    {
        let mut out = String::new();
        let n = self.frames.len();
        let ghost names = frame_names(self@);
        let mut i: usize = 0;
        while i < n
            invariant
                n == self.frames@.len(),
                names == frame_names(self@),
                names.len() == n,
                forall|j: int| 0 <= j < n ==> names[j] == #[trigger] self.frames@[j].name@,
                i <= n,
                out@ == join_dot(names.take(i as int)),
            decreases n - i,
        {
            let ghost before = out@;
            if i > 0 {
                out.push('.');
            }
            out.append(self.frames[i].name.as_str());
            assert(names.take(i + 1).drop_last() =~= names.take(i as int));
            if i == 0 {
                assert(out@ =~= join_dot(names.take(1)));
            } else {
                assert(out@ =~= join_dot(names.take(i + 1)));
            }
            i = i + 1;
        }
        assert(names.take(n as int) =~= names);
        out
    }

    /// Number of open contexts.
    pub fn depth(&self) -> (r: usize)
        ensures
            r == self@.len(),
    {
        self.frames.len()
    }
}

/// Entering a context extends the path by the new name, after a `.` unless
/// the path was empty of contexts.
pub proof fn lemma_path_after_push(frames: Seq<(Seq<char>, u64)>, name: Seq<char>, start_bit: u64)
    ensures
        path_of(frames.push((name, start_bit))) == if frames.len() == 0 {
            name
        } else {
            path_of(frames).push('.') + name
        },
{
    let pushed = frames.push((name, start_bit));
    assert(frame_names(pushed).drop_last() =~= frame_names(frames));
    if frames.len() == 0 {
        assert(frame_names(pushed).len() == 1);
    }
}

/// Leaving the context just entered restores the stack, and therefore the
/// path, and hands back the frame that was entered.
pub proof fn lemma_pop_undoes_push(frames: Seq<(Seq<char>, u64)>, name: Seq<char>, start_bit: u64)
    ensures
        frames.push((name, start_bit)).drop_last() == frames,
        frames.push((name, start_bit)).last() == (name, start_bit),
        path_of(frames.push((name, start_bit)).drop_last()) == path_of(frames),
{
    assert(frames.push((name, start_bit)).drop_last() =~= frames);
}

/// One step on a stack of contexts: `Some(frame)` enters a context, `None`
/// leaves the innermost one (and does nothing on an empty stack).
pub open spec fn context_step(frames: Seq<(Seq<char>, u64)>, op: Option<(Seq<char>, u64)>) -> Seq<(Seq<char>, u64)> {
    match op {
        Some(f) => frames.push(f),
        None => if frames.len() > 0 { frames.drop_last() } else { frames },
    }
}

/// The stack after a sequence of steps.
pub open spec fn run_context(frames: Seq<(Seq<char>, u64)>, ops: Seq<Option<(Seq<char>, u64)>>) -> Seq<(Seq<char>, u64)>
    decreases ops.len(),
{
    if ops.len() == 0 {
        frames
    } else {
        context_step(run_context(frames, ops.drop_last()), ops.last())
    }
}

/// How many steps enter a context.
pub open spec fn entries_in(ops: Seq<Option<(Seq<char>, u64)>>) -> nat
    decreases ops.len(),
{
    if ops.len() == 0 {
        0
    } else {
        entries_in(ops.drop_last()) + if ops.last() is Some { 1nat } else { 0nat }
    }
}

/// How many steps leave a context that is there to leave.
pub open spec fn exits_taken(frames: Seq<(Seq<char>, u64)>, ops: Seq<Option<(Seq<char>, u64)>>) -> nat
    decreases ops.len(),
{
    if ops.len() == 0 {
        0
    } else {
        exits_taken(frames, ops.drop_last()) + if ops.last() is None && run_context(frames, ops.drop_last()).len() > 0 {
            1nat
        } else {
            0nat
        }
    }
}

/// Entries minus exits.
pub open spec fn balance(ops: Seq<Option<(Seq<char>, u64)>>) -> int
    decreases ops.len(),
{
    if ops.len() == 0 {
        0
    } else {
        balance(ops.drop_last()) + if ops.last() is Some { 1int } else { -1int }
    }
}

/// Exits never outnumber entries in any prefix of the steps.
pub open spec fn stays_nested(ops: Seq<Option<(Seq<char>, u64)>>) -> bool {
    forall|i: int| 0 <= i <= ops.len() ==> #[trigger] balance(ops.take(i)) >= 0
}

/// After any sequence of pushes and pops the depth is the starting depth
/// plus the number of pushes minus the number of pops that removed a
/// context (from an empty stack, `ContextStack::new().depth() == 0`).
pub proof fn lemma_depth_after_steps(frames: Seq<(Seq<char>, u64)>, ops: Seq<Option<(Seq<char>, u64)>>)
    ensures
        run_context(frames, ops).len() == frames.len() + entries_in(ops) - exits_taken(frames, ops),
    decreases ops.len(),
{
    if ops.len() > 0 {
        lemma_depth_after_steps(frames, ops.drop_last());
    }
}

/// Steps in which exits never outnumber entries leave the contexts that
/// were open before them untouched, above them as many more as entries
/// exceed exits.
proof fn lemma_nested_steps_keep_outer(frames: Seq<(Seq<char>, u64)>, ops: Seq<Option<(Seq<char>, u64)>>)
    requires
        stays_nested(ops),
    ensures
        run_context(frames, ops).len() == frames.len() + balance(ops),
        run_context(frames, ops).take(frames.len() as int) == frames,
    decreases ops.len(),
{
    if ops.len() == 0 {
        assert(frames.take(frames.len() as int) =~= frames);
    } else {
        let init = ops.drop_last();
        assert forall|i: int| 0 <= i <= init.len() implies #[trigger] balance(init.take(i)) >= 0 by {
            assert(init.take(i) =~= ops.take(i));
        }
        lemma_nested_steps_keep_outer(frames, init);
        assert(ops.take(ops.len() as int) =~= ops);
        assert(balance(ops.take(ops.len() as int)) >= 0);
        let r = run_context(frames, init);
        if ops.last() is Some {
            assert(r.push(ops.last()->0).take(frames.len() as int) =~= r.take(frames.len() as int));
        } else {
            assert(r.drop_last().take(frames.len() as int) =~= r.take(frames.len() as int));
        }
    }
}

/// A context entered and then left again around properly nested steps:
/// until it is left, the path is the outer path extended by its name, and
/// leaving it restores the outer path.
pub proof fn lemma_nested_contexts(
    frames: Seq<(Seq<char>, u64)>,
    entered: (Seq<char>, u64),
    ops: Seq<Option<(Seq<char>, u64)>>,
)
    requires
        stays_nested(ops),
        balance(ops) == 0,
    ensures
        run_context(frames.push(entered), ops) == frames.push(entered),
        path_of(run_context(frames.push(entered), ops)) == if frames.len() == 0 {
            entered.0
        } else {
            path_of(frames).push('.') + entered.0
        },
        context_step(run_context(frames.push(entered), ops), None) == frames,
        path_of(context_step(run_context(frames.push(entered), ops), None)) == path_of(frames),
{
    let inner = frames.push(entered);
    lemma_nested_steps_keep_outer(inner, ops);
    assert(run_context(inner, ops) =~= inner);
    lemma_path_after_push(frames, entered.0, entered.1);
    lemma_pop_undoes_push(frames, entered.0, entered.1);
}

} // verus!
