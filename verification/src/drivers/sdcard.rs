//! The commands of the SD card host controller.

use vstd::prelude::*;

verus! {

/// PCI vendor and device numbers of the host controllers that are
/// supported.
pub const SUPPORT_PCI_VENDOR: u32 = 0x1b36;

pub const SUPPORT_PCI_DEVICE: u32 = 0x0007;

/// A command to the card: an ordinary one, or an application command.
#[derive(Clone, Copy, Debug, PartialEq, Eq, Structural)]
pub enum CommandType {
    CMD(u8),
    ACMD(u8),
}

/// Use DMA for the transfer.
pub const XFER_DMA_EN: u32 = 0x1;

/// The block count register is in use.
pub const XFER_BLK_CNT_EN: u32 = 0x2;

/// The card sends data to the host.
pub const XFER_DAT_XFER_READ: u32 = 0x10;

/// The transfer has more than one block.
pub const XFER_MULTI_BLK_EN: u32 = 0x20;

/// The response has 136 bits.
pub const XFER_RESP_L136: u32 = 0x1_0000;

/// The response has 48 bits.
pub const XFER_RESP_L48: u32 = 0x2_0000;

/// Check the checksum of the response.
pub const XFER_CMD_CRC_CHK_EN: u32 = 0x8_0000;

/// Check the command index of the response.
pub const XFER_CMD_IDX_CHK_EN: u32 = 0x10_0000;

/// The command comes with data.
pub const XFER_DATA_PRESENT: u32 = 0x20_0000;

impl CommandType {
    /// The number of the command.
    pub open spec fn num_spec(&self) -> u8 {
        match self {
            CommandType::CMD(t) => *t,
            CommandType::ACMD(t) => *t,
        }
    }

    /// The number of the command.
    #[verifier::when_used_as_spec(num_spec)]
    pub fn num(&self) -> (n: u8)
        ensures
            n == self.num_spec(),
    {
        match self {
            CommandType::CMD(t) => *t,
            CommandType::ACMD(t) => *t,
        }
    }

    /// The transfer flags of the commands that read blocks: those of a
    /// single block read for command 17, those of a multiple block read
    /// for command 18, and none for any other command.
    pub open spec fn flags_spec(&self) -> u32 {
        match self {
            CommandType::CMD(17) => XFER_DATA_PRESENT | XFER_DAT_XFER_READ,
            CommandType::CMD(18) => XFER_BLK_CNT_EN | XFER_MULTI_BLK_EN | XFER_DATA_PRESENT
                | XFER_DAT_XFER_READ,
            _ => 0,
        }
    }

    /// The transfer flags of the commands that read blocks.
    #[verifier::when_used_as_spec(flags_spec)]
    pub fn flags(&self) -> (flags: u32)
        ensures
            flags == self.flags_spec(),
    {
        match self {
            CommandType::CMD(17) => XFER_DATA_PRESENT | XFER_DAT_XFER_READ,
            CommandType::CMD(18) => XFER_BLK_CNT_EN | XFER_MULTI_BLK_EN | XFER_DATA_PRESENT
                | XFER_DAT_XFER_READ,
            _ => 0,
        }
    }

    /// The flags that say whether the command comes with data and in
    /// which direction.
    pub open spec fn data_flags(&self) -> u32 {
        match self {
            CommandType::CMD(17) | CommandType::CMD(18) | CommandType::ACMD(51) => XFER_DATA_PRESENT
                | XFER_DAT_XFER_READ,
            CommandType::CMD(24) => XFER_DATA_PRESENT,
            _ => 0,
        }
    }

    /// The flags that say which response the command expects and what is
    /// checked of it.
    pub open spec fn response_flags(&self) -> u32 {
        match self {
            CommandType::ACMD(6)
            | CommandType::ACMD(42)
            | CommandType::ACMD(51)
            | CommandType::CMD(17)
            | CommandType::CMD(18)
            | CommandType::CMD(24)
            | CommandType::CMD(8)
            | CommandType::CMD(16)
            | CommandType::CMD(7) => XFER_RESP_L48 | XFER_CMD_CRC_CHK_EN,
            CommandType::CMD(2) | CommandType::CMD(9) => XFER_RESP_L136 | XFER_CMD_CRC_CHK_EN,
            CommandType::ACMD(41) | CommandType::CMD(58) => XFER_RESP_L48,
            CommandType::CMD(3) => XFER_RESP_L48 | XFER_CMD_CRC_CHK_EN | XFER_CMD_IDX_CHK_EN,
            _ => 0,
        }
    }

    /// The word that starts the transfer of the command with `blk_cnt`
    /// blocks of data: the number of the command in bits 24 to 29, and
    /// below it the flags for the block count, for the data, for the
    /// response, and for DMA.
    pub open spec fn transfer_word(&self, blk_cnt: u32, dma: bool) -> u32 {
        ((self.num_spec() as u32 & 0x3f) << 24) | (if blk_cnt > 0 {
            XFER_BLK_CNT_EN
        } else {
            0
        }) | (if blk_cnt > 1 {
            XFER_MULTI_BLK_EN
        } else {
            0
        }) | self.data_flags() | self.response_flags() | (if dma {
            XFER_DMA_EN
        } else {
            0
        })
    }

    /// Computes [`CommandType::transfer_word`].
    pub fn xfer_command(&self, blk_cnt: u32, dma: bool) -> (word: u32)
        ensures
            word == self.transfer_word(blk_cnt, dma),
    {
        let index: u32 = (self.num() as u32 & 0x3f) << 24;
        let count: u32 = if blk_cnt > 0 {
            XFER_BLK_CNT_EN
        } else {
            0
        };
        let multi: u32 = if blk_cnt > 1 {
            XFER_MULTI_BLK_EN
        } else {
            0
        };
        let data: u32 = match self {
            CommandType::CMD(17) | CommandType::CMD(18) | CommandType::ACMD(51) => XFER_DATA_PRESENT
                | XFER_DAT_XFER_READ,
            CommandType::CMD(24) => XFER_DATA_PRESENT,
            _ => 0,
        };
        let response: u32 = match self {
            CommandType::ACMD(6)
            | CommandType::ACMD(42)
            | CommandType::ACMD(51)
            | CommandType::CMD(17)
            | CommandType::CMD(18)
            | CommandType::CMD(24)
            | CommandType::CMD(8)
            | CommandType::CMD(16)
            | CommandType::CMD(7) => XFER_RESP_L48 | XFER_CMD_CRC_CHK_EN,
            CommandType::CMD(2) | CommandType::CMD(9) => XFER_RESP_L136 | XFER_CMD_CRC_CHK_EN,
            CommandType::ACMD(41) | CommandType::CMD(58) => XFER_RESP_L48,
            CommandType::CMD(3) => XFER_RESP_L48 | XFER_CMD_CRC_CHK_EN | XFER_CMD_IDX_CHK_EN,
            _ => 0,
        };
        let with_dma: u32 = if dma {
            XFER_DMA_EN
        } else {
            0
        };
        index | count | multi | data | response | with_dma
    }
}

} // verus!
