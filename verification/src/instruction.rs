//! The display controller's command set: each instruction stands for the
//! command byte that selects it.

use vstd::prelude::*;

verus! {

/// Instructions understood by the display controller.
#[derive(Copy, Clone)]
pub enum Instruction {
    /// No operation
    Nop,
    /// Software reset
    SwReset,
    /// Read display identification information
    RddId,
    /// Read display status
    RddSt,
    /// Enter sleep mode
    SlpIn,
    /// Sleep out mode
    SlpOut,
    /// Partial mode on
    PtlOn,
    /// Normal display mode on
    NorOn,
    /// Display inversion off
    InvOff,
    /// Display inversion on
    InvOn,
    /// Display off
    DispOff,
    /// Display on
    DispOn,
    /// Column address set
    CaSet,
    /// Row address set
    RaSet,
    /// Memory write
    RamWr,
    /// Memory read
    RamRd,
    /// Partial area
    PtlAr,
    /// Pixel format set
    ColMod,
    /// Memory access control
    MadCtl,
    /// Frame rate control (normal mode, full colors)
    FrmCtr1,
    /// Frame rate control (idle mode, 8 colors)
    FrmCtr2,
    /// Frame rate control (partial mode, full colors)
    FrmCtr3,
    /// Display inversion control
    InvCtr,
    /// Display function control
    DisSet5,
    /// Power control 1
    PwCtr1,
    /// Power control 2
    PwCtr2,
    /// Power control 3
    PwCtr3,
    /// Power control 4
    PwCtr4,
    /// Power control 5
    PwCtr5,
    /// VCOM control 1
    VmCtr1,
    /// Read ID1
    RdId1,
    /// Read ID2
    RdId2,
    /// Read ID3
    RdId3,
    /// Read ID4
    RdId4,
    /// Power control 6
    PwCtr6,
    /// Positive gamma correction
    GmcTrp1,
    /// Negative gamma correction
    GmcTrn1,
}

impl Instruction {
    /// The command byte that selects this instruction.
    pub open spec fn spec_code(self) -> u8 {
        match self {
            Instruction::Nop => 0x00,
            Instruction::SwReset => 0x01,
            Instruction::RddId => 0x04,
            Instruction::RddSt => 0x09,
            Instruction::SlpIn => 0x10,
            Instruction::SlpOut => 0x11,
            Instruction::PtlOn => 0x12,
            Instruction::NorOn => 0x13,
            Instruction::InvOff => 0x20,
            Instruction::InvOn => 0x21,
            Instruction::DispOff => 0x28,
            Instruction::DispOn => 0x29,
            Instruction::CaSet => 0x2A,
            Instruction::RaSet => 0x2B,
            Instruction::RamWr => 0x2C,
            Instruction::RamRd => 0x2E,
            Instruction::PtlAr => 0x30,
            Instruction::ColMod => 0x3A,
            Instruction::MadCtl => 0x36,
            Instruction::FrmCtr1 => 0xB1,
            Instruction::FrmCtr2 => 0xB2,
            Instruction::FrmCtr3 => 0xB3,
            Instruction::InvCtr => 0xB4,
            Instruction::DisSet5 => 0xB6,
            Instruction::PwCtr1 => 0xC0,
            Instruction::PwCtr2 => 0xC1,
            Instruction::PwCtr3 => 0xC2,
            Instruction::PwCtr4 => 0xC3,
            Instruction::PwCtr5 => 0xC4,
            Instruction::VmCtr1 => 0xC5,
            Instruction::RdId1 => 0xDA,
            Instruction::RdId2 => 0xDB,
            Instruction::RdId3 => 0xDC,
            Instruction::RdId4 => 0xDD,
            Instruction::PwCtr6 => 0xFC,
            Instruction::GmcTrp1 => 0xE0,
            Instruction::GmcTrn1 => 0xE1,
        }
    }

    /// The command byte that selects this instruction.
    #[verifier::when_used_as_spec(spec_code)]
    pub fn code(self) -> (r: u8)
        ensures
            r == self.spec_code(),
    {
        match self {
            Instruction::Nop => 0x00,
            Instruction::SwReset => 0x01,
            Instruction::RddId => 0x04,
            Instruction::RddSt => 0x09,
            Instruction::SlpIn => 0x10,
            Instruction::SlpOut => 0x11,
            Instruction::PtlOn => 0x12,
            Instruction::NorOn => 0x13,
            Instruction::InvOff => 0x20,
            Instruction::InvOn => 0x21,
            Instruction::DispOff => 0x28,
            Instruction::DispOn => 0x29,
            Instruction::CaSet => 0x2A,
            Instruction::RaSet => 0x2B,
            Instruction::RamWr => 0x2C,
            Instruction::RamRd => 0x2E,
            Instruction::PtlAr => 0x30,
            Instruction::ColMod => 0x3A,
            Instruction::MadCtl => 0x36,
            Instruction::FrmCtr1 => 0xB1,
            Instruction::FrmCtr2 => 0xB2,
            Instruction::FrmCtr3 => 0xB3,
            Instruction::InvCtr => 0xB4,
            Instruction::DisSet5 => 0xB6,
            Instruction::PwCtr1 => 0xC0,
            Instruction::PwCtr2 => 0xC1,
            Instruction::PwCtr3 => 0xC2,
            Instruction::PwCtr4 => 0xC3,
            Instruction::PwCtr5 => 0xC4,
            Instruction::VmCtr1 => 0xC5,
            Instruction::RdId1 => 0xDA,
            Instruction::RdId2 => 0xDB,
            Instruction::RdId3 => 0xDC,
            Instruction::RdId4 => 0xDD,
            Instruction::PwCtr6 => 0xFC,
            Instruction::GmcTrp1 => 0xE0,
            Instruction::GmcTrn1 => 0xE1,
        }
    }
}

} // verus!
