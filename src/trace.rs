//! The call stack of one traced execution context.
use vstd::prelude::*;
use crate::canonical::{canonical, canonicalize};
use crate::frame::Frame;

verus! {

/// A strictly last-in first-out stack of open frames.
pub struct Trace {
    frames: Vec<Frame>,
}

impl View for Trace {
    type V = Seq<Frame>;

    closed spec fn view(&self) -> Seq<Frame> {
        self.frames@
    }
}

/// The frame a pop hands out: the most recently pushed one, if any.
pub open spec fn top_of(s: Seq<Frame>) -> Option<Frame> {
    if s.len() == 0 {
        None
    } else {
        Some(s.last())
    }
}

/// The stack after one pop; popping an empty stack leaves it empty.
pub open spec fn rest_of(s: Seq<Frame>) -> Seq<Frame> {
    if s.len() == 0 {
        s
    } else {
        s.drop_last()
    }
}

/// What `n` successive pops hand out, in order.
pub open spec fn popped(s: Seq<Frame>, n: nat) -> Seq<Option<Frame>>
    decreases n,
{
    if n == 0 {
        Seq::empty()
    } else {
        seq![top_of(s)] + popped(rest_of(s), (n - 1) as nat)
    }
}

/// The stack after `n` successive pops.
pub open spec fn after_pops(s: Seq<Frame>, n: nat) -> Seq<Frame>
    decreases n,
{
    if n == 0 {
        s
    } else {
        after_pops(rest_of(s), (n - 1) as nat)
    }
}

proof fn lemma_popped_len(s: Seq<Frame>, n: nat)
    ensures
        popped(s, n).len() == n,
    decreases n,
{
    if n > 0 {
        lemma_popped_len(rest_of(s), (n - 1) as nat);
    }
}

/// Frames pushed onto a stack come off it in reverse order, leaving the
/// stack as it was; a pop beyond those pushed onto an empty stack hands out
/// nothing and leaves it empty.
pub proof fn lemma_lifo(s: Seq<Frame>, pushed: Seq<Frame>)
    ensures
        popped(s + pushed, pushed.len()).len() == pushed.len(),
        forall|k: int|
            0 <= k < pushed.len() ==> #[trigger] popped(s + pushed, pushed.len())[k] == Some(
                pushed[pushed.len() - 1 - k],
            ),
        after_pops(s + pushed, pushed.len()) == s,
        s.len() == 0 ==> popped(s + pushed, pushed.len() + 1)[pushed.len() as int] is None,
        s.len() == 0 ==> after_pops(s + pushed, pushed.len() + 1).len() == 0,
    decreases pushed.len(),
{
    let n = pushed.len();
    lemma_popped_len(s + pushed, n);
    lemma_popped_len(s + pushed, n + 1);
    if n == 0 {
        assert(s + pushed =~= s);
        if s.len() == 0 {
            assert(popped(s, 1) =~= seq![top_of(s)] + popped(rest_of(s), 0));
            assert(after_pops(s, 1) == after_pops(rest_of(s), 0));
        }
    } else {
        let p = pushed.drop_last();
        assert((s + pushed).drop_last() =~= s + p);
        assert(rest_of(s + pushed) == s + p);
        lemma_lifo(s, p);
        let tail = popped(s + p, p.len());
        assert(popped(s + pushed, n) == seq![Some(pushed.last())] + tail);
        assert forall|k: int| 0 <= k < n implies #[trigger] popped(s + pushed, n)[k] == Some(
            pushed[n - 1 - k],
        ) by {
            if k > 0 {
                assert(popped(s + pushed, n)[k] == tail[k - 1]);
                assert(pushed[n - 1 - k] == p[p.len() - 1 - (k - 1)]);
            }
        }
        if s.len() == 0 {
            lemma_popped_len(s + p, n);
            assert(popped(s + pushed, n + 1) == seq![Some(pushed.last())] + popped(s + p, n));
            assert(popped(s + pushed, n + 1)[n as int] == popped(s + p, n)[n - 1]);
        }
    }
}

impl Trace {
    /// Every frame on the stack is well formed.
    pub closed spec fn wf(&self) -> bool {
        forall|i: int| 0 <= i < self.frames@.len() ==> (#[trigger] self.frames@[i]).wf()
    }

    /// An empty stack.
    pub fn new() -> (r: Trace)
        ensures
            r.wf(),
            r@ == Seq::<Frame>::empty(),
    {
        Trace { frames: Vec::new() }
    }

    /// Opens `frame` as the new top of the stack.
    pub fn push(&mut self, frame: Frame)
        requires
            old(self).wf(),
            frame.wf(),
        ensures
            final(self).wf(),
            final(self)@ == old(self)@.push(frame),
    {
        self.frames.push(frame);
    }

    /// Removes and hands out the most recently pushed frame; on an empty
    /// stack, hands out nothing.
    pub fn pop(&mut self) -> (r: Option<Frame>)
        requires
            old(self).wf(),
        ensures
            final(self).wf(),
            r == top_of(old(self)@),
            final(self)@ == rest_of(old(self)@),
            r matches Some(f) ==> f.wf(),
    {
        self.frames.pop()
    }

    /// The most recently pushed frame, if any.
    pub fn top(&self) -> (r: Option<&Frame>)
        ensures
            match top_of(self@) {
                Some(f) => r is Some && *r->0 == f,
                None => r is None,
            },
    {
        let n = self.frames.len();
        if n == 0 {
            None
        } else {
            Some(&self.frames[n - 1])
        }
    }

    /// Records on the top frame that `var_name` was bound to a value of the
    /// raw type `raw_type`, canonicalized; does nothing on an empty stack.
    pub fn add_local(&mut self, var_name: &str, raw_type: &str)
        requires
            old(self).wf(),
        ensures
            final(self).wf(),
            final(self)@.len() == old(self)@.len(),
            old(self)@.len() > 0 ==> {
                let (f0, f1) = (old(self)@.last(), final(self)@.last());
                &&& final(self)@.drop_last() == old(self)@.drop_last()
                &&& f1.locals_view() == f0.locals_view().insert(
                    var_name@,
                    f0.types_of(var_name@).insert(canonical(raw_type@)),
                )
                &&& f1.spec_event() == f0.spec_event()
                &&& f1.spec_caller_file() == f0.spec_caller_file()
                &&& f1.spec_caller_line() == f0.spec_caller_line()
                &&& f1.spec_return_type() == f0.spec_return_type()
            },
            old(self)@.len() == 0 ==> final(self)@ == old(self)@,
    {
        match self.frames.pop() {
            Some(mut frame) => {
                let ty = canonicalize(raw_type);
                frame.add_local(var_name, ty.as_str());
                self.frames.push(frame);
                assert(self.frames@.drop_last() =~= old(self).frames@.drop_last());
            },
            None => {},
        }
    }

    /// Removes the top frame and attaches to it the return type `raw_return`,
    /// canonicalized, handing the finished frame out for persisting; does
    /// nothing on an empty stack.
    pub fn pop_and_write(&mut self, raw_return: &str) -> (r: Option<Frame>)
        requires
            old(self).wf(),
        ensures
            final(self).wf(),
            final(self)@ == rest_of(old(self)@),
            old(self)@.len() == 0 <==> r is None,
            r matches Some(f) ==> {
                let f0 = old(self)@.last();
                &&& f.wf()
                &&& f.spec_return_type() == canonical(raw_return@)
                &&& f.locals_view() == f0.locals_view()
                &&& f.spec_event() == f0.spec_event()
                &&& f.spec_caller_file() == f0.spec_caller_file()
                &&& f.spec_caller_line() == f0.spec_caller_line()
            },
    {
        match self.frames.pop() {
            Some(mut frame) => {
                frame.set_return_type(canonicalize(raw_return));
                Some(frame)
            },
            None => None,
        }
    }
}

} // verus!
