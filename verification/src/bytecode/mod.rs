use vstd::prelude::*;

pub mod vm;

verus! {

/// The number of registers in a stack frame.
pub const REGISTERS: usize = 64;

/// A register number, below 64.
#[derive(Clone, Copy, Debug, PartialEq, Eq, Structural)]
pub struct Register(u8);

impl Register {
    #[verifier::type_invariant]
    spec fn in_range(self) -> bool {
        self.0 < 64
    }

    /// The number held.
    pub closed spec fn spec_value(self) -> u8 {
        self.0
    }

    /// The register numbered `value`; it must be below 64.
    pub fn new(value: u8) -> (r: Register)
        requires
            value < 64,
        ensures
            r.spec_value() == value,
    {
        Register(value)
    }

    /// The register's number, below 64.
    pub fn value(&self) -> (r: u8)
        ensures
            r == self.spec_value(),
            r < 64,
    {
        proof {
            use_type_invariant(self);
        }
        self.0
    }
}

/// A reference into the constant table, below 2^24.
#[derive(Clone, Copy, Debug, PartialEq, Eq, Structural)]
pub struct ConstRef(u32);

impl ConstRef {
    #[verifier::type_invariant]
    spec fn in_range(self) -> bool {
        self.0 < 0x100_0000
    }

    /// The number held.
    pub closed spec fn spec_value(self) -> u32 {
        self.0
    }

    /// The reference numbered `value`; it must be below 2^24.
    pub fn new(value: u32) -> (r: ConstRef)
        requires
            value < 0x100_0000,
        ensures
            r.spec_value() == value,
    {
        ConstRef(value)
    }

    /// The reference's number, below 2^24.
    pub fn value(&self) -> (r: u32)
        ensures
            r == self.spec_value(),
            r < 0x100_0000,
    {
        proof {
            use_type_invariant(self);
        }
        self.0
    }
}

/// A jump distance, from -2^23 up to (but not including) 2^23.
#[derive(Clone, Copy, Debug, PartialEq, Eq, Structural)]
pub struct Offset(i32);

impl Offset {
    #[verifier::type_invariant]
    spec fn in_range(self) -> bool {
        -0x80_0000 <= self.0 < 0x80_0000
    }

    /// The number held.
    pub closed spec fn spec_value(self) -> i32 {
        self.0
    }

    /// The distance `value`; it must lie from -2^23 up to (but not including) 2^23.
    pub fn new(value: i32) -> (r: Offset)
        requires
            -0x80_0000 <= value < 0x80_0000,
        ensures
            r.spec_value() == value,
    {
        Offset(value)
    }

    /// The distance, from -2^23 up to (but not including) 2^23.
    pub fn value(&self) -> (r: i32)
        ensures
            r == self.spec_value(),
            -0x80_0000 <= r < 0x80_0000,
    {
        proof {
            use_type_invariant(self);
        }
        self.0
    }
}

/// A width of memory.
#[derive(Clone, Copy, Debug, PartialEq, Eq, Structural)]
pub enum Size {
    Byte,
    Double,
    Quad,
    Octal,
}

/// One instruction of the virtual machine.
#[allow(inconsistent_fields)]
#[derive(Clone, Copy, Debug, PartialEq, Eq, Structural)]
pub enum Instruction {
    Call { function: ConstRef, start_register: Register, args: Register },
    CallThis { function: ConstRef, start_register: Register, args: Register, this: Register },
    CallClosure { function: Register, args_start: Register, args: Register },
    StoreCallResult(Register),
    /// Loads a constant value into a register.
    LoadConstant(Register, ConstRef),
    /// Copies a value from one register to another.
    CopyValueRegReg(Register, Register),
    /// Copies the value from a pointer to a register.
    CopyValuePtrReg(Register, Register, Size),
    /// Copies a value from a register to a pointer.
    CopyValueRegPtr(Register, Register, Size),
    /// Copies a value from a pointer to a pointer.
    CopyValuePtrPtr(Register, Register, Size),
    /// Copies an area of memory from a pointer to a pointer with a length.
    CopyMemory(Register, Register, Register),
    /// Jumps a number of instructions forward or backward in the current function.
    Jump(Offset),
    /// Jumps where the register holds true.
    JumpIf(Register, Offset),
    /// Returns from the current function with the value of the register, or nothing.
    Return(Option<Register>),
    /// Allocates stack memory of a constant size.
    AllocateConstant(usize),
    /// Allocates heap memory of a constant size.
    AllocateGCConstant(usize),
    /// Allocates stack memory.
    Allocate(Register),
    /// Allocates heap memory.
    AllocateGC(Register),
    /// Frees stack memory, or heap memory before its time.
    Dealloc(Register),
    /// Performs an effect.
    PerformEffect(ConstRef),
    /// Handles an effect.
    HandleEffect(ConstRef, Register),
    /// Spawns a thread.
    Spawn(),
    /// Sends a message to another thread.
    Send(),
    /// Waits for a message from another thread.
    Receive(),
    /// Exits the current thread with the register's value as its result.
    Exit(Register),
    Kill(),
    Pause(),
    Resume(),
    AddSI(Register, Register, Register),
    AddUI(Register, Register, Register),
}

/// The instructions of one function.
pub struct Code {
    pub instructions: Vec<Instruction>,
}

/// A constant of a module.
#[derive(Clone, Copy, Debug, PartialEq, Eq, Structural)]
pub enum Constant {
    UnsignedInteger(u64),
}

/// What a declaration declares.
#[derive(Clone, Copy, Debug, PartialEq, Eq, Structural)]
pub enum DeclarationKind {
    Class,
    Function,
    Static,
    TypeAlias,
    Test,
}

/// An entry for a declaration in the module.
pub struct Declaration {
    pub kind: DeclarationKind,
    pub name: String,
}

/// Who signed a module, and the signature.
pub struct Signature {
    /// A signer string.
    pub signer: String,
    pub signature: [u8; 64],
}

/// A compiled module.
pub struct Module {
    /// A hash of the source file the module was compiled from.
    pub hash: [u8; 16],
    /// The canonical path of the module.
    pub name: String,
    /// The size and modification time of the source file.
    pub source_stats: (u64,),
    pub signature: Option<Signature>,
    pub declaration_table: Vec<Declaration>,
    pub constant_table: Vec<Constant>,
    pub code_table: Vec<Code>,
}

} // verus!
