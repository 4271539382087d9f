use std::sync::Arc;

use nakati::bytecode::vm::{Fault, Interpreter, RegisterValue, Registers, StackFrame};
use nakati::bytecode::{Code, ConstRef, Constant, Instruction, Module, Offset, Register};

fn module_with(code_table: Vec<Code>) -> Arc<Module> {
    Arc::new(Module {
        hash: [0; 16],
        name: "idk".to_string(),
        source_stats: (0,),
        signature: None,
        declaration_table: vec![],
        constant_table: vec![Constant::UnsignedInteger(73)],
        code_table,
    })
}

#[test]
fn machine_with_empty_main_runs_to_the_end() {
    let mut vm = Interpreter::new(module_with(vec![Code { instructions: vec![] }]));
    assert_eq!(vm.run(), Ok(()));
    assert_eq!(vm.frames.len(), 1);
    assert_eq!(vm.frames[0].ip, 0);
}

#[test]
fn return_hands_a_register_to_the_caller() {
    let code = vec![
        Code { instructions: vec![Instruction::LoadConstant(Register::new(0), ConstRef::new(0))] },
        Code { instructions: vec![Instruction::Return(Some(Register::new(3)))] },
    ];
    let mut vm = Interpreter::new(module_with(code));
    vm.frames[0].ip = 1;
    let mut callee = StackFrame::new(Some(0), 1);
    callee.registers.0[3] = RegisterValue::UnsignedInteger(73);
    vm.frames.push(callee);
    assert_eq!(vm.run(), Ok(()));
    assert_eq!(vm.frames.len(), 1);
    assert_eq!(vm.frames[0].return_value, Some(RegisterValue::UnsignedInteger(73)));
}

#[test]
fn bare_return_hands_back_nothing() {
    let code = vec![
        Code { instructions: vec![] },
        Code { instructions: vec![Instruction::Return(None), Instruction::Jump(Offset::new(-1))] },
    ];
    let mut vm = Interpreter::new(module_with(code));
    vm.frames[0].return_value = Some(RegisterValue::SignedInteger(-5));
    vm.frames.push(StackFrame::new(Some(0), 1));
    assert_eq!(vm.run(), Ok(()));
    assert_eq!(vm.frames.len(), 1);
    assert_eq!(vm.frames[0].return_value, None);
}

#[test]
fn registers_start_empty() {
    let r = Registers::new();
    assert!(r.0.iter().all(|v| *v == RegisterValue::Empty));
    assert_eq!(Register::new(63).value(), 63);
    assert_eq!(ConstRef::new(0xFF_FFFF).value(), 0xFF_FFFF);
    assert_eq!(Offset::new(-0x80_0000).value(), -0x80_0000);
}

#[test]
fn fault_finds_where_running_would_fail() {
    let code = vec![
        Code { instructions: vec![Instruction::LoadConstant(Register::new(0), ConstRef::new(0))] },
        Code { instructions: vec![Instruction::Return(None)] },
    ];
    let mut vm = Interpreter::new(module_with(code));
    assert_eq!(
        vm.fault(),
        Some(Fault::Unimplemented(Instruction::LoadConstant(Register::new(0), ConstRef::new(0))))
    );
    vm.frames[0].ip = 1;
    vm.frames.push(StackFrame::new(Some(0), 1));
    assert_eq!(vm.fault(), None);
    let mut alone = Interpreter::new(module_with(vec![Code { instructions: vec![Instruction::Return(None)] }]));
    assert_eq!(alone.fault(), Some(Fault::NoCaller));
    alone.frames[0].ip = 1;
    assert_eq!(alone.fault(), None);
}

#[test]
fn test() {
    let interpreter = Interpreter::new(Arc::new(Module {
        hash: [0; 16],
        name: "idk".to_string(),
        source_stats: (0,),
        signature: None,
        declaration_table: vec![],
        constant_table: vec![Constant::UnsignedInteger(73)],
        code_table: vec![Code {
            instructions: vec![Instruction::LoadConstant(Register::new(0), ConstRef::new(0))],
        }],
    }));
    // Running this module stops at its first instruction, which the machine does not
    // carry out yet; `fault` says so before anything runs.
    assert_eq!(
        interpreter.fault(),
        Some(Fault::Unimplemented(Instruction::LoadConstant(Register::new(0), ConstRef::new(0))))
    );
    assert_eq!(interpreter.frames.len(), 1);
    assert!(interpreter.frames[0].registers.0.iter().all(|v| *v == RegisterValue::Empty));
}
