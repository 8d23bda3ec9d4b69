use rua::bytecode::{Bytecode, Bytecodes, Instruction};
use rua::compiler::Compiler;
use rua::lexer::Lexer;
use rua::parser::Parser;
use rua::vm::{NumOp, Step, Value, VirtualMachine, VmError};

fn num(x: f64) -> Value {
    Value::Number(x.to_bits())
}

fn compute(op: NumOp, left: u64, right: u64) -> Value {
    let l = f64::from_bits(left);
    let r = f64::from_bits(right);
    match op {
        NumOp::Add => num(l + r),
        NumOp::Sub => num(l - r),
        NumOp::Mul => num(l * r),
        NumOp::RealDiv => num(l / r),
        NumOp::IntDiv => num((l / r).floor()),
        NumOp::Pow => num(l.powf(r)),
        NumOp::Mod => num(l - (l / r).floor() * r),
        NumOp::Neg => num(-l),
        NumOp::Length => num(left as f64),
        NumOp::Lt => Value::Boolean(l < r),
        NumOp::Le => Value::Boolean(l <= r),
        NumOp::Eq => Value::Boolean(l == r),
    }
}

fn machine(code: Bytecodes) -> VirtualMachine {
    let nums = code.nums.iter().map(|n| n.parse::<f64>().unwrap().to_bits()).collect();
    VirtualMachine::new(code, nums)
}

fn run(vm: &mut VirtualMachine) -> Result<(), VmError> {
    loop {
        match vm.step()? {
            Step::Halt => return Ok(()),
            Step::Continue => {},
            Step::Compute { op, left, right } => vm.complete(compute(op, left, right)),
        }
    }
}

fn run_source(src: &str) -> VirtualMachine {
    let toks = Lexer::new(src).analyze().unwrap();
    let ast = Parser::new(toks).parse().unwrap();
    let code = Compiler::new().compile(&ast).unwrap();
    let mut vm = machine(code);
    run(&mut vm).unwrap();
    vm
}

fn global(vm: &VirtualMachine, name: &str) -> Value {
    vm.global(name).unwrap()
}

#[test]
fn vm_see() {
    let toks = Lexer::new(
        "
            a = 1 + 3
            b = 1 / 2
            a, b = b, a

            if true then
                c = 1
            elseif false then
                c = 2
            else
                c = 3
            end

            i = 1
            d = 0
            while i < 10 do
                d = d + i
                i = i + 1
            end
        ",
    )
    .analyze()
    .unwrap();
    let ast = Parser::new(toks).parse().unwrap();
    let co = Compiler::new().compile(&ast).unwrap();

    for (i, v) in co.bc.iter().enumerate() {
        println!("{}: {:?}", i, v);
    }

    let mut vm = machine(co);
    run(&mut vm).unwrap();
    for (name, value) in vm.globals() {
        println!("{}: {:?}", name, value);
    }
}

#[test]
fn sum_of_two_numbers() {
    let vm = run_source("a = 1 + 3");
    assert_eq!(vm.globals(), vec![("a".to_string(), num(4.0))]);
}

#[test]
fn swap_after_division() {
    let vm = run_source("a = 1 / 2 a, b = 2, a");
    assert_eq!(global(&vm, "a"), num(2.0));
    assert_eq!(global(&vm, "b"), num(0.5));
}

#[test]
fn right_associative_power() {
    let vm = run_source("a = 1 + 3 ^ 4 ^ 2");
    assert_eq!(global(&vm, "a"), num(43046722.0));
}

#[test]
fn first_true_arm_runs() {
    let vm = run_source("if true then c=1 elseif false then c=2 else c=3 end");
    assert_eq!(vm.globals(), vec![("c".to_string(), num(1.0))]);
}

#[test]
fn else_arm_runs() {
    let vm = run_source("if false then c=1 elseif false then c=2 else c=3 end");
    assert_eq!(global(&vm, "c"), num(3.0));
}

#[test]
fn loop_sums_to_forty_five() {
    let vm = run_source("i=1  d=0  while i<10 do d=d+i  i=i+1 end");
    assert_eq!(global(&vm, "i"), num(10.0));
    assert_eq!(global(&vm, "d"), num(45.0));
}

#[test]
fn swap_two_globals() {
    let vm = run_source("a, b = 1, 2 a, b = b, a");
    assert_eq!(global(&vm, "a"), num(2.0));
    assert_eq!(global(&vm, "b"), num(1.0));
}

#[test]
fn loop_at_program_start() {
    let vm = run_source("while false do a = 1 end b = 2");
    assert_eq!(vm.global("a"), None);
    assert_eq!(global(&vm, "b"), num(2.0));
}

#[test]
fn strings_and_logic() {
    let vm = run_source("s = 'ab' .. [[cd]] n = #s t = not false u = 1 and false e = 'x' == 'x' g = 3 > 2 h = 2 >= 3 k = 1 ~= 2");
    assert_eq!(global(&vm, "s"), Value::String("abcd".to_string()));
    assert_eq!(global(&vm, "n"), num(4.0));
    assert_eq!(global(&vm, "t"), Value::Boolean(true));
    assert_eq!(global(&vm, "u"), Value::Boolean(false));
    assert_eq!(global(&vm, "e"), Value::Boolean(true));
    assert_eq!(global(&vm, "g"), Value::Boolean(true));
    assert_eq!(global(&vm, "h"), Value::Boolean(false));
    assert_eq!(global(&vm, "k"), Value::Boolean(true));
}

#[test]
fn zero_is_truthy() {
    let vm = run_source("if 0 then a = 1 else a = 2 end");
    assert_eq!(global(&vm, "a"), num(1.0));
}

#[test]
fn halts_at_end_index() {
    let mut vm = run_source("a = 1");
    let p = vm.pc();
    assert_eq!(p, 2);
    assert_eq!(vm.step(), Ok(Step::Halt));
    assert_eq!(vm.pc(), p);
}

#[test]
fn store_glob_count_matches_targets() {
    let code = Compiler::new()
        .compile(&Parser::new(Lexer::new("a, b = 1, 2 if a then c = 3 end").analyze().unwrap()).parse().unwrap())
        .unwrap();
    assert_eq!(code.bc.iter().filter(|c| c.inst == Instruction::StoreGlob).count(), 3);
}

#[test]
fn undefined_global() {
    let code = Compiler::new()
        .compile(&Parser::new(Lexer::new("a = b").analyze().unwrap()).parse().unwrap())
        .unwrap();
    let mut vm = machine(code);
    assert_eq!(run(&mut vm), Err(VmError::UndefinedGlobal { ident: 0 }));
}

#[test]
fn arithmetic_on_a_string() {
    let code = Compiler::new()
        .compile(&Parser::new(Lexer::new("a = 'x' + 1").analyze().unwrap()).parse().unwrap())
        .unwrap();
    let mut vm = machine(code);
    assert_eq!(run(&mut vm), Err(VmError::TypeMismatch { inst: Instruction::BinAdd }));
}

fn raw(bc: Vec<Bytecode>) -> VirtualMachine {
    VirtualMachine::new(Bytecodes { bc, nums: vec![], strs: vec![], idents: vec!["a".to_string()] }, vec![])
}

#[test]
fn stack_underflow() {
    let mut vm = raw(vec![Bytecode { inst: Instruction::StoreGlob, arg: 0 }]);
    assert_eq!(vm.step(), Err(VmError::StackUnderflow));
}

#[test]
fn jump_out_of_range() {
    let mut vm = raw(vec![Bytecode { inst: Instruction::JumpAbsolute, arg: 7 }]);
    assert_eq!(vm.step(), Err(VmError::JumpOutOfRange { target: 7 }));
}

#[test]
fn counter_leaves_code() {
    let mut vm = raw(vec![Bytecode { inst: Instruction::LoadNil, arg: 0 }]);
    assert_eq!(vm.step(), Ok(Step::Continue));
    assert_eq!(vm.step(), Err(VmError::PcOutOfRange));
}

#[test]
fn reserved_instruction() {
    let mut vm = raw(vec![Bytecode { inst: Instruction::FuncCall, arg: 0 }]);
    assert_eq!(vm.step(), Err(VmError::Unimplemented { inst: Instruction::FuncCall }));
}

#[test]
fn bad_pool_index() {
    let mut vm = raw(vec![Bytecode { inst: Instruction::LoadString, arg: 3 }]);
    assert_eq!(vm.step(), Err(VmError::BadOperand { inst: Instruction::LoadString }));
}

#[test]
fn step_waits_for_computed_value() {
    let code = Compiler::new()
        .compile(&Parser::new(Lexer::new("a = -1").analyze().unwrap()).parse().unwrap())
        .unwrap();
    let mut vm = machine(code);
    assert_eq!(vm.step(), Ok(Step::Continue));
    assert_eq!(vm.step(), Ok(Step::Compute { op: NumOp::Neg, left: 1.0f64.to_bits(), right: 0 }));
    assert_eq!(vm.step(), Err(VmError::ResultAwaited));
    vm.complete(num(-1.0));
    assert_eq!(vm.step(), Ok(Step::Continue));
    assert_eq!(global(&vm, "a"), num(-1.0));
}
