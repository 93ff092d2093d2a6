//! The eight instructions and their one-byte encoding: the top three bits
//! select the opcode, the bottom five carry the operand.

use vstd::prelude::*;

verus! {

/// One machine instruction. Five kinds carry an operand, which must fit in
/// five bits (0 to 31) for the instruction to be encoded.
#[derive(Clone, Copy, Debug, PartialEq, Eq, Structural)]
pub enum Instruction {
    /// Operand 0 resets the accumulator; any other operand halts the machine.
    Clear(u8),
    Inc,
    Add(u8),
    Dec,
    Jump(u8),
    /// Branch to the operand when the zero flag is clear.
    Bnz(u8),
    Load(u8),
    Store(u8),
}

/// Failures of encoding instructions and of loading a program into memory.
#[derive(Clone, Copy, Debug, PartialEq, Eq, Structural)]
pub enum CPUError {
    /// The program holds more bytes than memory does.
    ProgramTooLarge,
    /// The instruction carries an operand that does not fit in five bits.
    AssemblyError(Instruction),
}

impl Instruction {
    /// The opcode, 0 to 7, in declaration order.
    pub open spec fn opcode(self) -> u8 {
        match self {
            Instruction::Clear(_) => 0,
            Instruction::Inc => 1,
            Instruction::Add(_) => 2,
            Instruction::Dec => 3,
            Instruction::Jump(_) => 4,
            Instruction::Bnz(_) => 5,
            Instruction::Load(_) => 6,
            Instruction::Store(_) => 7,
        }
    }

    /// The operand carried, or 0 for `Inc` and `Dec`.
    pub open spec fn operand(self) -> u8 {
        match self {
            Instruction::Clear(op) => op,
            Instruction::Add(op) => op,
            Instruction::Jump(op) => op,
            Instruction::Bnz(op) => op,
            Instruction::Load(op) => op,
            Instruction::Store(op) => op,
            Instruction::Inc => 0,
            Instruction::Dec => 0,
        }
    }

    /// Whether the operand fits in five bits, so that the instruction can be encoded.
    pub open spec fn fits(self) -> bool {
        self.operand() < 32
    }

    /// The byte that encodes an instruction whose operand fits.
    pub open spec fn encoding(self) -> u8 {
        (self.opcode() * 32 + self.operand()) as u8
    }

    /// The instruction that a byte encodes: opcode `byte / 32`, operand `byte % 32`.
    pub open spec fn decoding(byte: u8) -> Instruction {
        let op = (byte % 32) as u8;
        if byte / 32 == 0 {
            Instruction::Clear(op)
        } else if byte / 32 == 1 {
            Instruction::Inc
        } else if byte / 32 == 2 {
            Instruction::Add(op)
        } else if byte / 32 == 3 {
            Instruction::Dec
        } else if byte / 32 == 4 {
            Instruction::Jump(op)
        } else if byte / 32 == 5 {
            Instruction::Bnz(op)
        } else if byte / 32 == 6 {
            Instruction::Load(op)
        } else {
            Instruction::Store(op)
        }
    }

    /// Encodes the instruction as one byte, failing when its operand does not fit.
    pub fn assemble(self) -> (r: Result<u8, CPUError>)
        ensures
            self.fits() ==> r == Ok::<u8, CPUError>(self.encoding()),
            !self.fits() ==> r == Err::<u8, CPUError>(CPUError::AssemblyError(self)),
    {
        let (opcode, operand): (u8, u8) = match self {
            Instruction::Clear(op) => (0, op),
            Instruction::Inc => (1, 0),
            Instruction::Add(op) => (2, op),
            Instruction::Dec => (3, 0),
            Instruction::Jump(op) => (4, op),
            Instruction::Bnz(op) => (5, op),
            Instruction::Load(op) => (6, op),
            Instruction::Store(op) => (7, op),
        };
        if operand < 32 {
            Ok(pack(opcode, operand))
        } else {
            Err(CPUError::AssemblyError(self))
        }
    }

    /// Decodes one byte. Every byte is the encoding of exactly one instruction.
    pub fn disassemble(byte: u8) -> (r: Instruction)
        ensures
            r == Instruction::decoding(byte),
    {
        let opcode = byte >> 5u8;
        let operand = byte & 0b0001_1111u8;
        assert(opcode == byte / 32 && operand == byte % 32) by (bit_vector)
            requires
                opcode == byte >> 5u8,
                operand == byte & 0b0001_1111u8,
        ;
        match opcode {
            0 => Instruction::Clear(operand),
            1 => Instruction::Inc,
            2 => Instruction::Add(operand),
            3 => Instruction::Dec,
            4 => Instruction::Jump(operand),
            5 => Instruction::Bnz(operand),
            6 => Instruction::Load(operand),
            _ => Instruction::Store(operand),
        }
    }
}

/// Puts a three-bit opcode above a five-bit operand.
fn pack(opcode: u8, operand: u8) -> (r: u8)
    requires
        opcode < 8,
        operand < 32,
    ensures
        r == opcode * 32 + operand,
{
    let r = (opcode << 5u8) | operand;
    assert(r == opcode * 32 + operand) by (bit_vector)
        requires
            r == (opcode << 5u8) | operand,
            opcode < 8,
            operand < 32,
    ;
    r
}

/// Decoding the encoding of an instruction whose operand fits gives the
/// instruction back.
pub proof fn lemma_decode_encode(i: Instruction)
    requires
        i.fits(),
    ensures
        Instruction::decoding(i.encoding()) == i,
{
}

/// Every byte decodes to an instruction whose operand fits. Encoding that
/// instruction gives the byte back, except for the `Inc` and `Dec` bytes whose
/// low five bits are not all zero: those bits are ignored by decoding.
pub proof fn lemma_encode_decode(byte: u8)
    requires
        (byte / 32 == 1 || byte / 32 == 3) ==> byte % 32 == 0,
    ensures
        Instruction::decoding(byte).fits(),
        Instruction::decoding(byte).encoding() == byte,
{
    assert(byte == (byte / 32) * 32 + byte % 32) by (bit_vector);
}

/// Encoding fails exactly on the instructions that carry an operand of 32 or
/// more; every instruction whose operand fits has an encoding.
pub proof fn lemma_encoding_fails_iff_out_of_range(i: Instruction)
    ensures
        !i.fits() <==> (i !is Inc && i !is Dec && i.operand() >= 32),
{
}

} // verus!
