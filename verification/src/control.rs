//! The control context: the loops and functions that enclose the statement
//! being compiled.
//!
//! Entering a loop body or a function body pushes a frame; a plain block does
//! not. `break` and `continue` refer to the innermost frame, which has to be a
//! loop: a function body hides the loops around its declaration. `return`
//! refers to the innermost function frame, whatever loops lie in between.

use vstd::prelude::*;

verus! {

/// The jump targets of a loop.
#[derive(Clone, Copy, Debug, PartialEq, Eq, Structural, Hash)]
pub struct LoopFrame {
    /// Index of the instruction where the condition is checked again.
    pub cont: usize,
    /// Index of the instruction that leaves the loop: a jump to the first
    /// instruction after the loop.
    pub brk: usize,
}

/// The cells through which a function returns.
#[derive(Clone, Copy, Debug, PartialEq, Eq, Structural, Hash)]
pub struct FuncFrame {
    /// The cell that holds the address to return to.
    pub ret_addr: usize,
    /// The cell that takes the result.
    pub ret_val: usize,
}

/// One enclosing construct.
#[derive(Clone, Copy, Debug, PartialEq, Eq, Structural, Hash)]
pub enum Frame {
    Loop(LoopFrame),
    Func(FuncFrame),
}

/// The model of the control context: its frames, the innermost last.
pub type Control = Seq<Frame>;

/// The loop that a `break` or `continue` belongs to, if there is one.
pub open spec fn current_loop(control: Control) -> Option<LoopFrame> {
    if control.len() == 0 {
        None
    } else {
        match control.last() {
            Frame::Loop(l) => Some(l),
            Frame::Func(_) => None,
        }
    }
}

/// The function that a `return` belongs to, if there is one.
pub open spec fn current_function(control: Control) -> Option<FuncFrame>
    decreases control.len(),
{
    if control.len() == 0 {
        None
    } else {
        match control.last() {
            Frame::Func(f) => Some(f),
            Frame::Loop(_) => current_function(control.drop_last()),
        }
    }
}

/// The stack of enclosing loops and functions of one compilation.
pub struct ControlStack {
    frames: Vec<Frame>,
}

impl View for ControlStack {
    type V = Control;

    /// The frames, the innermost last.
    closed spec fn view(&self) -> Control {
        self.frames@
    }
}

impl ControlStack {
    /// A context with no frame: the top level of a program.
    pub fn new() -> (stack: ControlStack)
        ensures
            stack@ == Seq::<Frame>::empty(),
    {
        ControlStack { frames: Vec::new() }
    }

    /// Enters a loop body or a function body.
    pub fn enter(&mut self, frame: Frame)
        ensures
            final(self)@ == old(self)@.push(frame),
    {
        self.frames.push(frame);
    }

    /// Leaves the innermost frame.
    pub fn leave(&mut self)
        requires
            old(self)@.len() > 0,
        ensures
            final(self)@ == old(self)@.drop_last(),
    {
        self.frames.pop();
    }

    /// The loop that a `break` or `continue` at this point belongs to.
    pub fn current_loop(&self) -> (r: Option<LoopFrame>)
        ensures
            r == current_loop(self@),
    {
        let n = self.frames.len();
        if n == 0 {
            return None;
        }
        match self.frames[n - 1] {
            Frame::Loop(l) => Some(l),
            Frame::Func(_) => None,
        }
    }

    /// The function that a `return` at this point belongs to.
    pub fn current_function(&self) -> (r: Option<FuncFrame>)
        ensures
            r == current_function(self@),
    {
        let mut i = self.frames.len();
        assert(self@.take(i as int) =~= self@);
        while i > 0
            invariant
                i <= self.frames@.len(),
                current_function(self@) == current_function(self@.take(i as int)),
            decreases i,
        {
            i = i - 1;
            assert(self@.take(i + 1).drop_last() =~= self@.take(i as int));
            match self.frames[i] {
                Frame::Func(f) => {
                    return Some(f);
                },
                Frame::Loop(_) => {},
            }
        }
        assert(self@.take(0).len() == 0);
        None
    }
}

/// `return` is legal exactly when some enclosing frame is a function.
pub proof fn lemma_current_function_exists(control: Control)
    ensures
        current_function(control) is Some <==> exists|i: int|
            0 <= i < control.len() && #[trigger] control[i] is Func,
    decreases control.len(),
{
    if control.len() > 0 {
        let rest = control.drop_last();
        lemma_current_function_exists(rest);
        if control.last() is Func {
            assert(control[control.len() - 1] is Func);
        } else if current_function(rest) is Some {
            let i = choose|i: int| 0 <= i < rest.len() && #[trigger] rest[i] is Func;
            assert(control[i] is Func);
        } else if exists|i: int| 0 <= i < control.len() && #[trigger] control[i] is Func {
            let i = choose|i: int| 0 <= i < control.len() && #[trigger] control[i] is Func;
            assert(rest[i] is Func);
        }
    }
}

/// `break` and `continue` need a loop: with no loop frame anywhere there is
/// no current loop. A function body hides the loops around it, and a loop
/// body is where they are legal again.
pub proof fn lemma_current_loop(control: Control, l: LoopFrame, f: FuncFrame)
    ensures
        (forall|i: int| 0 <= i < control.len() ==> !(#[trigger] control[i] is Loop))
            ==> current_loop(control) is None,
        current_loop(control.push(Frame::Func(f))) is None,
        current_loop(control.push(Frame::Loop(l))) == Some(l),
        current_function(control.push(Frame::Func(f))) == Some(f),
        current_function(control.push(Frame::Loop(l))) == current_function(control),
{
    if control.len() > 0 {
        assert(control[control.len() - 1] == control.last());
    }
    assert(control.push(Frame::Loop(l)).drop_last() =~= control);
}

} // verus!
