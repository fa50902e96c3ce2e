//! Lexical scopes.
//!
//! A scope stack is a list of frames, the innermost last. Each frame maps the
//! names declared in it to what they stand for. A name is looked up from the
//! innermost frame outwards and the first frame that has it wins, so an inner
//! declaration shadows an outer one until its frame is left.

use vstd::prelude::*;
use std::collections::HashMap;
use crate::ast::Ident;
use crate::error::CompilerError;

verus! {

broadcast use vstd::std_specs::hash::group_hash_axioms;

/// What a declared name stands for.
#[derive(Clone, Copy, Debug, PartialEq, Eq, Structural, Hash)]
pub enum Binding {
    /// A variable that lives in `cell`.
    Var { cell: usize },
    /// A function parameter that lives in `cell`.
    Param { cell: usize },
    /// An array whose block of cells was reserved at `slot`.
    Array { slot: usize },
    /// A constant with its value.
    Const { value: i64 },
    /// A function. Its code starts at `entry`. A caller puts the address to
    /// come back to in `ret_addr` and the `arity` arguments in the cells
    /// `first_param`, `first_param + 1`, ...; the function leaves its result
    /// in `ret_val`. A function has these cells once, not once for each call
    /// that is under way.
    Func { entry: usize, ret_addr: usize, ret_val: usize, first_param: usize, arity: usize },
}

impl Binding {
    /// The parameter cells of a function lie within the range of indices.
    pub open spec fn wf(self) -> bool {
        self matches Binding::Func { first_param, arity, .. } ==> first_param + arity <= usize::MAX
    }
}

/// The model of a scope stack: its frames, the innermost last.
///
/// The functions on the model take frames of any content, so that what is
/// said of names holds whatever is recorded for them.
pub type Scopes = Seq<Map<Ident, Binding>>;

/// What `name` stands for: its binding in the innermost frame that has one.
pub open spec fn lookup<V>(scopes: Seq<Map<Ident, V>>, name: Ident) -> Option<V>
    decreases scopes.len(),
{
    if scopes.len() == 0 {
        None
    } else if scopes.last().contains_key(name) {
        Some(scopes.last()[name])
    } else {
        lookup(scopes.drop_last(), name)
    }
}

/// Whether the innermost frame declares `name`.
pub open spec fn declared_here<V>(scopes: Seq<Map<Ident, V>>, name: Ident) -> bool {
    scopes.len() > 0 && scopes.last().contains_key(name)
}

/// The stack after `name` is bound to `binding` in the innermost frame.
pub open spec fn declare<V>(scopes: Seq<Map<Ident, V>>, name: Ident, binding: V) -> Seq<
    Map<Ident, V>,
> {
    scopes.update(scopes.len() - 1, scopes.last().insert(name, binding))
}

/// The stack after a new, empty frame is entered.
pub open spec fn enter<V>(scopes: Seq<Map<Ident, V>>) -> Seq<Map<Ident, V>> {
    scopes.push(Map::empty())
}

/// The stack after the innermost frame is left.
pub open spec fn leave<V>(scopes: Seq<Map<Ident, V>>) -> Seq<Map<Ident, V>> {
    scopes.drop_last()
}

/// Every binding in every frame is well formed.
pub open spec fn all_wf(scopes: Scopes) -> bool {
    forall|i: int, name: Ident|
        0 <= i < scopes.len() && #[trigger] scopes[i].contains_key(name) ==> scopes[i][name].wf()
}

/// A frame keyed by handles, as the frame keyed by their numbers holds it.
spec fn frame_view(frame: Map<usize, Binding>) -> Map<Ident, Binding> {
    Map::new(|name: Ident| frame.contains_key(name.id), |name: Ident| frame[name.id])
}

/// The stack of scopes of one compilation.
pub struct ScopeStack {
    frames: Vec<HashMap<usize, Binding>>,
}

impl View for ScopeStack {
    type V = Scopes;

    /// The frames, the innermost last.
    closed spec fn view(&self) -> Scopes {
        Seq::new(self.frames@.len(), |i: int| frame_view(self.frames@[i]@))
    }
}

impl ScopeStack {
    /// A stack with no frame.
    pub fn new() -> (stack: ScopeStack)
        ensures
            stack@ == Seq::<Map<Ident, Binding>>::empty(),
    {
        let stack = ScopeStack { frames: Vec::new() };
        assert(stack@ =~= Seq::<Map<Ident, Binding>>::empty());
        stack
    }

    /// The number of open frames.
    pub fn depth(&self) -> (n: usize)
        ensures
            n == self@.len(),
    {
        self.frames.len()
    }

    /// Opens a new innermost frame.
    pub fn enter(&mut self)
        ensures
            final(self)@ == enter(old(self)@),
    {
        self.frames.push(HashMap::new());
        assert(self@ =~= enter(old(self)@)) by {
            assert(frame_view(Map::<usize, Binding>::empty()) =~= Map::<Ident, Binding>::empty());
        }
    }

    /// Closes the innermost frame and forgets what was declared in it.
    pub fn leave(&mut self)
        requires
            old(self)@.len() > 0,
        ensures
            final(self)@ == leave(old(self)@),
    {
        self.frames.pop();
        assert(self@ =~= leave(old(self)@));
    }

    /// Binds `name` in the innermost frame, unless that frame has it already.
    pub fn declare(&mut self, name: Ident, binding: Binding) -> (r: Result<(), CompilerError>)
        requires
            old(self)@.len() > 0,
        ensures
            match r {
                Ok(()) => !declared_here(old(self)@, name) && final(self)@ == declare(
                    old(self)@,
                    name,
                    binding,
                ),
                Err(e) => declared_here(old(self)@, name) && e
                    == CompilerError::DuplicateDeclaration(name) && final(self)@ == old(self)@,
            },
    {
        let ghost before = self@;
        let mut frame = self.frames.pop().unwrap();
        if frame.contains_key(&name.id) {
            self.frames.push(frame);
            assert(self.frames@ =~= old(self).frames@);
            return Err(CompilerError::DuplicateDeclaration(name));
        }
        let ghost shown = frame_view(frame@);
        frame.insert(name.id, binding);
        assert(frame_view(frame@) =~= shown.insert(name, binding));
        self.frames.push(frame);
        assert(self@ =~= declare(before, name, binding));
        Ok(())
    }

    /// Whether the innermost frame declares `name`.
    pub fn declared_here(&self, name: Ident) -> (b: bool)
        ensures
            b == declared_here(self@, name),
    {
        let n = self.frames.len();
        n > 0 && self.frames[n - 1].contains_key(&name.id)
    }

    /// Looks `name` up from the innermost frame outwards.
    pub fn lookup(&self, name: Ident) -> (r: Option<Binding>)
        ensures
            r == lookup(self@, name),
    {
        let mut i = self.frames.len();
        assert(self@.take(i as int) =~= self@);
        while i > 0
            invariant
                i <= self.frames@.len(),
                lookup(self@, name) == lookup(self@.take(i as int), name),
            decreases i,
        {
            i = i - 1;
            let ghost upto = self@.take(i + 1);
            assert(upto.last() == frame_view(self.frames@[i as int]@));
            assert(upto.drop_last() =~= self@.take(i as int));
            match self.frames[i].get(&name.id) {
                Some(binding) => {
                    return Some(*binding);
                },
                None => {},
            }
        }
        assert(self@.take(0).len() == 0);
        None
    }
}

/// An inner declaration shadows an outer one of the same name for as long as
/// its frame is open: inside the inner frame the name stands for the inner
/// binding, and once that frame is left it stands for the outer binding
/// again.
pub proof fn lemma_shadowing(scopes: Scopes, name: Ident, outer: Binding, inner: Binding)
    requires
        scopes.len() > 0,
    ensures
        ({
            let outside = declare(scopes, name, outer);
            let inside = declare(enter(outside), name, inner);
            &&& lookup(outside, name) == Some(outer)
            &&& !declared_here(enter(outside), name)
            &&& lookup(inside, name) == Some(inner)
            &&& leave(inside) == outside
            &&& lookup(leave(inside), name) == Some(outer)
        }),
{
    let outside = declare(scopes, name, outer);
    let inside = declare(enter(outside), name, inner);
    assert(leave(inside) =~= outside);
}

/// A declaration in an inner frame does not change what other names stand
/// for, and a name that the inner frame does not declare keeps its outer
/// meaning.
pub proof fn lemma_lookup_after_declare(scopes: Scopes, name: Ident, binding: Binding, other: Ident)
    requires
        scopes.len() > 0,
    ensures
        lookup(declare(scopes, name, binding), name) == Some(binding),
        other != name ==> lookup(declare(scopes, name, binding), other) == lookup(scopes, other),
        lookup(enter(scopes), other) == lookup(scopes, other),
{
    let after = declare(scopes, name, binding);
    assert(after.drop_last() =~= scopes.drop_last());
    assert(enter(scopes).drop_last() =~= scopes);
}

/// Declaring a well-formed binding keeps the stack well formed and touches
/// the innermost frame only.
pub proof fn lemma_declare_wf(scopes: Scopes, name: Ident, binding: Binding)
    requires
        scopes.len() > 0,
        all_wf(scopes),
        binding.wf(),
    ensures
        all_wf(declare(scopes, name, binding)),
        declare(scopes, name, binding).len() == scopes.len(),
        declare(scopes, name, binding).drop_last() == scopes.drop_last(),
{
    let after = declare(scopes, name, binding);
    assert(after.drop_last() =~= scopes.drop_last());
    assert forall|i: int, other: Ident|
        0 <= i < after.len() && #[trigger] after[i].contains_key(other) implies after[i][other].wf(
    ) by {
        if i == scopes.len() - 1 && other != name {
            assert(scopes[i].contains_key(other));
        } else if i < scopes.len() - 1 {
            assert(scopes[i].contains_key(other));
        }
    }
}

/// Entering and leaving a frame keep the stack well formed.
pub proof fn lemma_enter_leave_wf(scopes: Scopes)
    requires
        all_wf(scopes),
    ensures
        all_wf(enter(scopes)),
        leave(enter(scopes)) == scopes,
        scopes.len() > 0 ==> all_wf(leave(scopes)),
{
    let inside = enter(scopes);
    assert(leave(inside) =~= scopes);
    assert forall|i: int, name: Ident|
        0 <= i < inside.len() && #[trigger] inside[i].contains_key(name) implies inside[i][name].wf(
    ) by {
        if i < scopes.len() {
            assert(scopes[i].contains_key(name));
        }
    }
    if scopes.len() > 0 {
        let outside = leave(scopes);
        assert forall|i: int, name: Ident|
            0 <= i < outside.len() && #[trigger] outside[i].contains_key(name)
            implies outside[i][name].wf() by {
            assert(scopes[i].contains_key(name));
        }
    }
}

/// A lookup in a stack of well-formed bindings finds a well-formed binding.
pub proof fn lemma_lookup_wf(scopes: Scopes, name: Ident)
    requires
        all_wf(scopes),
    ensures
        lookup(scopes, name) matches Some(b) ==> b.wf(),
    decreases scopes.len(),
{
    if scopes.len() > 0 && !scopes.last().contains_key(name) {
        lemma_lookup_wf(scopes.drop_last(), name);
    }
}

} // verus!
