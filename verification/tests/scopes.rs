use compiler::ast::Ident;
use compiler::control::{ControlStack, Frame, FuncFrame, LoopFrame};
use compiler::env::Environment;
use compiler::error::CompilerError;
use compiler::scope::{Binding, ScopeStack};

#[test]
fn interning_the_same_name_gives_the_same_handle() {
    let mut env = Environment::new();
    let a = env.intern("alpha");
    let b = env.intern("beta");
    let again = env.intern("alpha");
    assert_eq!(a, again);
    assert_ne!(a, b);
    assert_eq!(a, Ident { id: 0 });
    assert_eq!(b, Ident { id: 1 });
    assert_eq!(env.len(), 2);
}

#[test]
fn environment_gives_the_spelling_back() {
    let mut env = Environment::new();
    let a = env.intern("alpha");
    let b = env.intern("beta");
    assert_eq!(env.resolve_name(a), "alpha");
    assert_eq!(env.resolve_name(b), "beta");
    assert_eq!(env.resolve_name(Ident { id: 2 }), "");
}

#[test]
fn lookup_finds_the_innermost_binding() {
    let x = Ident { id: 0 };
    let y = Ident { id: 1 };
    let mut scopes = ScopeStack::new();
    assert_eq!(scopes.depth(), 0);
    assert_eq!(scopes.lookup(x), None);
    scopes.enter();
    assert_eq!(scopes.declare(x, Binding::Var { cell: 1 }), Ok(()));
    assert_eq!(scopes.declare(y, Binding::Const { value: 5 }), Ok(()));
    scopes.enter();
    assert!(!scopes.declared_here(x));
    assert_eq!(scopes.lookup(x), Some(Binding::Var { cell: 1 }));
    assert_eq!(scopes.declare(x, Binding::Array { slot: 2 }), Ok(()));
    assert!(scopes.declared_here(x));
    assert_eq!(scopes.lookup(x), Some(Binding::Array { slot: 2 }));
    assert_eq!(scopes.lookup(y), Some(Binding::Const { value: 5 }));
    assert_eq!(scopes.depth(), 2);
    scopes.leave();
    assert_eq!(scopes.lookup(x), Some(Binding::Var { cell: 1 }));
    assert_eq!(scopes.depth(), 1);
}

#[test]
fn declaring_twice_in_one_frame_is_refused() {
    let x = Ident { id: 3 };
    let mut scopes = ScopeStack::new();
    scopes.enter();
    assert_eq!(scopes.declare(x, Binding::Var { cell: 1 }), Ok(()));
    assert_eq!(
        scopes.declare(x, Binding::Var { cell: 2 }),
        Err(CompilerError::DuplicateDeclaration(x))
    );
    assert_eq!(scopes.lookup(x), Some(Binding::Var { cell: 1 }));
}

#[test]
fn control_context_tracks_loops_and_functions() {
    let l = LoopFrame { cont: 1, brk: 2 };
    let inner = LoopFrame { cont: 5, brk: 6 };
    let f = FuncFrame { ret_addr: 3, ret_val: 4 };
    let mut control = ControlStack::new();
    assert_eq!(control.current_loop(), None);
    assert_eq!(control.current_function(), None);
    control.enter(Frame::Loop(l));
    assert_eq!(control.current_loop(), Some(l));
    assert_eq!(control.current_function(), None);
    control.enter(Frame::Func(f));
    assert_eq!(control.current_loop(), None);
    assert_eq!(control.current_function(), Some(f));
    control.enter(Frame::Loop(inner));
    assert_eq!(control.current_loop(), Some(inner));
    assert_eq!(control.current_function(), Some(f));
    control.leave();
    control.leave();
    assert_eq!(control.current_loop(), Some(l));
    assert_eq!(control.current_function(), None);
}
