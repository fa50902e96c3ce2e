//! The table of interned identifiers.
//!
//! Interning replaces the spelling of a name by a small handle. The same
//! spelling always gets the same handle, so names are compared by comparing
//! handles, and the table gives the spelling back when a message needs it.

use vstd::prelude::*;
use vstd::string::StringExecFns;
use crate::ast::Ident;

verus! {

/// No spelling occurs twice.
pub open spec fn distinct(names: Seq<Seq<char>>) -> bool {
    forall|i: int, j: int| 0 <= i < j < names.len() ==> names[i] != names[j]
}

/// The spelling that a table gives for a handle: the entry with the handle's
/// number, or the empty text for a handle that the table did not hand out.
pub open spec fn spelling(names: Seq<Seq<char>>, name: Ident) -> Seq<char> {
    if name.id < names.len() {
        names[name.id as int]
    } else {
        Seq::empty()
    }
}

/// The number of the handle that interning `text` gives: the place of its
/// first occurrence in `names`, or the length of `names` where it does not
/// occur.
pub open spec fn find(names: Seq<Seq<char>>, text: Seq<char>) -> int
    decreases names.len(),
{
    if names.len() == 0 {
        0
    } else {
        let before = find(names.drop_last(), text);
        if before < names.len() - 1 {
            before
        } else if names.last() == text {
            names.len() - 1
        } else {
            names.len() as int
        }
    }
}

/// The table after `text` is interned.
pub open spec fn interned(names: Seq<Seq<char>>, text: Seq<char>) -> Seq<Seq<char>> {
    if find(names, text) == names.len() {
        names.push(text)
    } else {
        names
    }
}

/// `find` gives the first place where `text` stands.
pub proof fn lemma_find(names: Seq<Seq<char>>, text: Seq<char>, i: int)
    requires
        0 <= i <= names.len(),
        forall|k: int| 0 <= k < i ==> names[k] != text,
        i < names.len() ==> names[i] == text,
    ensures
        find(names, text) == i,
    decreases names.len(),
{
    if names.len() > 0 {
        if i == names.len() {
            lemma_find(names.drop_last(), text, i - 1);
        } else {
            lemma_find(names.drop_last(), text, i);
        }
    }
}

/// Maps the handles of one compilation to their spellings and back.
pub struct Environment {
    names: Vec<String>,
}

impl View for Environment {
    type V = Seq<Seq<char>>;

    /// The spellings, each at the number of its handle.
    closed spec fn view(&self) -> Seq<Seq<char>> {
        Seq::new(self.names@.len(), |i: int| self.names@[i]@)
    }
}

impl Environment {
    /// No spelling occurs twice in the table.
    pub open spec fn wf(&self) -> bool {
        distinct(self@)
    }

    /// An empty table.
    pub fn new() -> (env: Environment)
        ensures
            env@ == Seq::<Seq<char>>::empty(),
            env.wf(),
    {
        let env = Environment { names: Vec::new() };
        assert(env@ =~= Seq::<Seq<char>>::empty());
        env
    }

    /// The number of interned names.
    pub fn len(&self) -> (n: usize)
        ensures
            n == self@.len(),
    {
        self.names.len()
    }

    /// The handle of `name`. A spelling that the table has keeps its handle;
    /// a new one is added at the end.
    pub fn intern(&mut self, name: &str) -> (handle: Ident)
        requires
            old(self).wf(),
        ensures
            handle.id == find(old(self)@, name@),
            final(self)@ == interned(old(self)@, name@),
            old(self)@.contains(name@) ==> final(self)@ == old(self)@,
            !old(self)@.contains(name@) ==> final(self)@ == old(self)@.push(name@)
                && handle.id == old(self)@.len(),
            handle.id < final(self)@.len(),
            final(self)@[handle.id as int] == name@,
            final(self).wf(),
    {
        let owned = String::from_str(name);
        let mut i: usize = 0;
        while i < self.names.len()
            invariant
                i <= self.names@.len(),
                owned@ == name@,
                *self == *old(self),
                self.wf(),
                forall|k: int| 0 <= k < i ==> self@[k] != name@,
            decreases self.names.len() - i,
        {
            if self.names[i] == owned {
                assert(self@[i as int] == name@);
                proof {
                    lemma_find(self@, name@, i as int);
                }
                return Ident { id: i };
            }
            i = i + 1;
        }
        proof {
            lemma_find(self@, name@, i as int);
        }
        self.names.push(owned);
        assert(self@ =~= old(self)@.push(name@));
        assert(!old(self)@.contains(name@));
        assert(distinct(self@));
        Ident { id: i }
    }

    /// The spelling of `name`.
    pub fn resolve_name(&self, name: Ident) -> (text: &str)
        ensures
            text@ == spelling(self@, name),
    {
        if name.id < self.names.len() {
            self.names[name.id].as_str()
        } else {
            let text = "";
            assert(text@ =~= Seq::<char>::empty()) by {
                reveal_strlit("");
            }
            text
        }
    }
}

/// Interning a spelling again gives the handle it got the first time, and the
/// table gives that spelling back for it.
pub proof fn lemma_intern_stable(
    names: Seq<Seq<char>>,
    first: Ident,
    second: Ident,
    text: Seq<char>,
)
    requires
        distinct(names),
        first.id < names.len(),
        second.id < names.len(),
        names[first.id as int] == text,
        names[second.id as int] == text,
    ensures
        first == second,
        spelling(names, first) == text,
{
    if first.id < second.id {
        assert(names[first.id as int] != names[second.id as int]);
    } else if second.id < first.id {
        assert(names[second.id as int] != names[first.id as int]);
    }
}

} // verus!
