use compiler::compile_source;
use compiler::target::{Instr, Operand};

/// What a run of the machine wrote to its output, or nothing if it did not
/// stop within the given number of steps.
fn run(code: &[Instr], steps: usize) -> Option<Vec<i64>> {
    let mut base = vec![0usize; code.len()];
    let mut size = 0usize;
    for (i, instr) in code.iter().enumerate() {
        if let Instr::Alloc { cells } = instr {
            base[i] = size;
            size += *cells as usize;
        }
    }
    let mut memory = vec![0i64; size];
    let mut output = Vec::new();
    let mut pc = 0usize;
    let read = |memory: &Vec<i64>, operand: &Operand| match operand {
        Operand::Imm(n) => *n,
        Operand::Code(i) => *i as i64,
        Operand::Cell(c) => memory[base[*c]],
    };
    for _ in 0..steps {
        let mut next = pc + 1;
        match &code[pc] {
            Instr::Alloc { .. } => {}
            Instr::Add { a, b, dst } => {
                memory[base[*dst]] = read(&memory, a).wrapping_add(read(&memory, b));
            }
            Instr::Mul { a, b, dst } => {
                memory[base[*dst]] = read(&memory, a).wrapping_mul(read(&memory, b));
            }
            Instr::LessThan { a, b, dst } => {
                memory[base[*dst]] = (read(&memory, a) < read(&memory, b)) as i64;
            }
            Instr::Equals { a, b, dst } => {
                memory[base[*dst]] = (read(&memory, a) == read(&memory, b)) as i64;
            }
            Instr::Load { slot, index, dst } => {
                let at = base[*slot] + read(&memory, index) as usize;
                memory[base[*dst]] = memory[at];
            }
            Instr::Store { slot, index, src } => {
                let at = base[*slot] + read(&memory, index) as usize;
                memory[at] = read(&memory, src);
            }
            Instr::JumpIfTrue { cond, target } => {
                if read(&memory, cond) != 0 {
                    next = read(&memory, target) as usize;
                }
            }
            Instr::JumpIfFalse { cond, target } => {
                if read(&memory, cond) == 0 {
                    next = read(&memory, target) as usize;
                }
            }
            Instr::Output { src } => output.push(read(&memory, src)),
            Instr::Halt => return Some(output),
        }
        pc = next;
    }
    None
}

fn outputs(source: &str) -> Vec<i64> {
    let code = compile_source(source).unwrap();
    run(&code, 100_000).unwrap()
}

fn message(source: &str) -> String {
    compile_source(source).unwrap_err()
}

#[test]
fn folded_constant_sizes_the_array_and_the_element_comes_back() {
    let source = "fn f() { const N = 2 + 3; let arr[N]; arr[0] = 10; return arr[0]; } out f();";
    let code = compile_source(source).unwrap();
    assert_eq!(run(&code, 1000), Some(vec![10]));
    // the constant is folded into the reservation and is loaded nowhere
    assert!(code.contains(&Instr::Alloc { cells: 5 }));
    let reserved: u64 = code
        .iter()
        .map(|instr| match instr {
            Instr::Alloc { cells } => *cells,
            _ => 0,
        })
        .sum();
    // return address, result, the array, one cell for the element read, one
    // for the result of the call
    assert_eq!(reserved, 1 + 1 + 5 + 1 + 1);
}

#[test]
fn arithmetic_runs_as_written() {
    assert_eq!(outputs("out 1 + 2 * 3 - 4;"), vec![3]);
    assert_eq!(outputs("out (1 + 2) * 3;"), vec![9]);
    assert_eq!(outputs("out -5 + 2;"), vec![-3]);
    assert_eq!(outputs("out 2 < 3; out 3 < 2; out 4 == 4; out 4 == 5;"), vec![1, 0, 1, 0]);
    assert_eq!(outputs("let x = 9223372036854775807; out x + 1;"), vec![i64::MIN]);
}

#[test]
fn loops_run_and_stop() {
    assert_eq!(
        outputs("let i = 0; let s = 0; while i < 5 { i = i + 1; s = s + i; } out s;"),
        vec![15]
    );
    assert_eq!(
        outputs("let i = 0; while 1 { i = i + 1; if i == 3 { break; } } out i;"),
        vec![3]
    );
    assert_eq!(
        outputs(
            "let i = 0; while i < 6 { i = i + 1; if i < 4 { continue; } out i; }"
        ),
        vec![4, 5, 6]
    );
    assert_eq!(outputs("while 0 { out 1; } out 2;"), vec![2]);
}

#[test]
fn nested_loops_break_the_inner_one() {
    let source = "let i = 0; while i < 2 { let j = 0; while 1 { j = j + 1; if j == 2 { break; } } \
                  out j; i = i + 1; }";
    assert_eq!(outputs(source), vec![2, 2]);
}

#[test]
fn conditionals_choose_a_branch() {
    assert_eq!(outputs("if 1 { out 1; } else { out 2; }"), vec![1]);
    assert_eq!(outputs("if 0 { out 1; } else { out 2; }"), vec![2]);
    assert_eq!(outputs("if 0 { out 1; } out 3;"), vec![3]);
}

#[test]
fn functions_take_arguments_and_return() {
    assert_eq!(outputs("fn add(a, b) { return a + b; } out add(2, 3);"), vec![5]);
    assert_eq!(outputs("fn f() { } out f();"), vec![0]);
    assert_eq!(outputs("fn f() { return; out 1; } out f() + 7;"), vec![7]);
    assert_eq!(
        outputs("fn sq(a) { return a * a; } fn g(a) { return sq(a) + sq(a + 1); } out g(2);"),
        vec![13]
    );
    assert_eq!(outputs("fn sq(a) { return a * a; } out sq(sq(3));"), vec![81]);
    assert_eq!(outputs("fn f(a, b) { return a - b; } out f(f(9, 1), f(5, 2));"), vec![5]);
}

#[test]
fn function_body_does_not_run_where_it_is_declared() {
    assert_eq!(outputs("out 1; fn f() { out 2; } out 3; f();"), vec![1, 3, 2]);
}

#[test]
fn return_leaves_a_loop() {
    let source = "fn first(limit) { let i = 0; while 1 { if limit < i * i { return i; } \
                  i = i + 1; } } out first(10);";
    assert_eq!(outputs(source), vec![4]);
}

#[test]
fn inner_variable_shadows_and_outer_comes_back() {
    let source = "let x = 1; { let x = 2; out x; x = 3; out x; } out x;";
    assert_eq!(outputs(source), vec![2, 3, 1]);
}

#[test]
fn arrays_keep_their_elements() {
    let source = "let a[3]; let i = 0; while i < 3 { a[i] = i * 10; i = i + 1; } \
                  out a[0] + a[1] + a[2]; out a[2];";
    assert_eq!(outputs(source), vec![30, 20]);
}

#[test]
fn comments_are_ignored() {
    assert_eq!(outputs("// nothing here\nout 1; // out 2;\n// out 3;"), vec![1]);
}

#[test]
fn compile_errors_are_spelled_out() {
    assert_eq!(
        message("let total; let total;"),
        "Error during compilation:\nDuplicate declaration of variable: total"
    );
    assert_eq!(message("out missing;"), "Error during compilation:\nUndefined variable: missing");
    assert_eq!(message("break;"), "Error during compilation:\nBreak outside loop");
    assert_eq!(message("continue;"), "Error during compilation:\nContinue outside loop");
    assert_eq!(message("return;"), "Error during compilation:\nReturn outside function");
    assert_eq!(
        message("fn f() { } const c = f();"),
        "Error during compilation:\nFunction call in const context"
    );
    assert_eq!(
        message("let a[2]; const c = a[0];"),
        "Error during compilation:\nArray indexing in const context"
    );
    assert_eq!(
        message("let v = 1; const c = v;"),
        "Error during compilation:\nUndefined or un-const variable in const context"
    );
    assert_eq!(
        message("while 1 { fn f() { break; } }"),
        "Error during compilation:\nBreak outside loop"
    );
}

#[test]
fn parse_errors_are_spelled_out() {
    assert_eq!(
        message("let x = ;"),
        "Error during file parsing:\nUnexpected token, number 3"
    );
    assert_eq!(message("let x"), "Error during file parsing:\nUnexpected end of input");
    assert_eq!(
        message("out 1; // fine\nout #;"),
        "Error during file parsing:\nUnexpected character at byte 12"
    );
    assert_eq!(
        message("out 99999999999999999999;"),
        "Error during file parsing:\nNumber too large at byte 4"
    );
}

#[test]
fn comment_marker_is_no_division() {
    // what follows `//` is gone before the text is read
    assert_eq!(message("out 1 // 2\n"), "Error during file parsing:\nUnexpected end of input");
}
