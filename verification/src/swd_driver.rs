//! The debug-port driver: each operation of the driver is a program of SWD
//! commands (a `Plan`), run by a `Session` that retries transfers the target
//! answers with WAIT, polls until the power-up handshake completes, and stops
//! at the first failure.
use vstd::prelude::*;

use crate::constant::{
    AccessPortRegisterAddress, APControlStatusWordDef, AbortRegisterDef, DapResponse,
    DebugControlStatusDef, DebugSelectRegister, DpRegister, Register, CSW_VALUE, MAX_SWD_RETRY,
};
use crate::dap::sw_dp::{
    PinOp, Swd, header_bits, request_bit, setup_ops, shutdown_ops, swj_bits, swj_bits_ops,
};
use crate::error::SwdError;

verus! {

/// One step of a driver program.
#[derive(Clone, Copy, Debug, PartialEq, Eq)]
pub enum Command {
    /// Put the pins in their idle levels (`Swd::setup`).
    Setup,
    /// An SWJ sequence of the first `count` bits of `data`.
    Sequence { count: u32, data: [u8; 8] },
    /// One SWD transfer; any failure ends the program.
    Transfer { request: u8, data: u32 },
    /// An SWD transfer sent again while the target answers WAIT, at most
    /// `MAX_SWD_RETRY` times in all.
    TransferRetry { request: u8, data: u32 },
    /// A retried read, repeated until every bit of `mask` is set in the word
    /// read or `tries` words have been read.
    Poll { request: u8, mask: u32, tries: u32 },
}

/// A driver program: its commands, and the command whose word is its result.
#[derive(Debug)]
pub struct Plan {
    pub commands: Vec<Command>,
    pub result_at: usize,
}

/// A command that a session can run: SWJ sequences hold at most 64 bits and a
/// poll reads at least once.
pub open spec fn command_wf(c: Command) -> bool {
    match c {
        Command::Sequence { count, .. } => count <= 64,
        Command::Poll { tries, .. } => tries > 0,
        _ => true,
    }
}

pub open spec fn commands_wf(cmds: Seq<Command>) -> bool {
    forall|i: int| 0 <= i < cmds.len() ==> command_wf(#[trigger] cmds[i])
}

/// 1 for a set flag, 0 for a clear one.
pub open spec fn flag(b: bool) -> int {
    if b {
        1
    } else {
        0
    }
}

/// The request byte of a register access: APnDP in bit 0, RnW in bit 1 and
/// the address bits A[3:2] in bits 2 and 3.
pub open spec fn request_for(ap: bool, read: bool, adr: u8) -> u8 {
    (flag(ap) + 2 * flag(read) + (adr & 0x0Cu8)) as u8
}

/// The SELECT word that makes the bank of an AP register current.
pub open spec fn ap_select(adr: u8) -> u32 {
    (adr & 0xF0u8) as u32
}

/// The AP control word for 32-bit memory accesses.
pub open spec fn csw_word32() -> u32 {
    CSW_VALUE | APControlStatusWordDef::CSW_SIZE32
}

/// The little-endian word of the four bytes of `data` from `k` on.
pub open spec fn le_word(data: Seq<u8>, k: int) -> u32 {
    (data[k] + 256 * data[k + 1] + 65536 * data[k + 2] + 16777216 * data[k + 3]) as u32
}

pub open spec fn write_dp_cmds(adr: u8, val: u32) -> Seq<Command> {
    seq![Command::Transfer { request: request_for(false, false, adr), data: val }]
}

pub open spec fn read_dp_cmds(adr: u8) -> Seq<Command> {
    seq![Command::TransferRetry { request: request_for(false, true, adr), data: 0 }]
}

/// Select the AP bank, write the register, then read RDBUFF to complete it.
pub open spec fn write_ap_cmds(adr: u8, val: u32) -> Seq<Command> {
    write_dp_cmds(DpRegister::SELECT, ap_select(adr)) + seq![
        Command::TransferRetry { request: request_for(true, false, adr), data: val },
        Command::TransferRetry { request: request_for(false, true, DpRegister::RDBUFF), data: 0 },
    ]
}

/// Read the register, select its bank, then read it twice: AP reads are
/// posted, so the last read returns the value.
pub open spec fn read_ap_cmds(adr: u8) -> Seq<Command> {
    seq![Command::TransferRetry { request: request_for(true, true, adr), data: 0 }]
        + write_dp_cmds(DpRegister::SELECT, ap_select(adr)) + seq![
        Command::TransferRetry { request: request_for(true, true, adr), data: 0 },
        Command::TransferRetry { request: request_for(true, true, adr), data: 0 },
    ]
}

/// Set TAR, read DRW, then read RDBUFF, which holds the word.
pub open spec fn read_data_cmds(addr: u32) -> Seq<Command> {
    seq![
        Command::TransferRetry {
            request: request_for(true, false, AccessPortRegisterAddress::AP_TAR),
            data: addr,
        },
        Command::TransferRetry {
            request: request_for(true, true, AccessPortRegisterAddress::AP_DRW),
            data: 0,
        },
        Command::TransferRetry { request: request_for(false, true, DpRegister::RDBUFF), data: 0 },
    ]
}

/// Set TAR, write DRW, then read RDBUFF to complete the write.
pub open spec fn write_data_cmds(addr: u32, val: u32) -> Seq<Command> {
    seq![
        Command::TransferRetry {
            request: request_for(true, false, AccessPortRegisterAddress::AP_TAR),
            data: addr,
        },
        Command::TransferRetry {
            request: request_for(true, false, AccessPortRegisterAddress::AP_DRW),
            data: val,
        },
        Command::TransferRetry { request: request_for(false, true, DpRegister::RDBUFF), data: 0 },
    ]
}

pub open spec fn read_word_cmds(addr: u32) -> Seq<Command> {
    write_ap_cmds(AccessPortRegisterAddress::AP_CSW, csw_word32()) + read_data_cmds(addr)
}

pub open spec fn write_word_cmds(addr: u32, val: u32) -> Seq<Command> {
    write_ap_cmds(AccessPortRegisterAddress::AP_CSW, csw_word32()) + write_data_cmds(addr, val)
}

/// A line reset: 51 clock periods with SWDIO high.
pub open spec fn reset_cmds() -> Seq<Command> {
    seq![
        Command::Sequence {
            count: 51,
            data: [0xffu8, 0xff, 0xff, 0xff, 0xff, 0xff, 0xff, 0xff],
        },
    ]
}

/// A 16-bit SWJ switch sequence, least significant bit first.
pub open spec fn switch_cmds(val: u16) -> Seq<Command> {
    seq![
        Command::Sequence {
            count: 16,
            data: [(val & 0xff) as u8, ((val >> 8) & 0xff) as u8, 0, 0, 0, 0, 0, 0],
        },
    ]
}

/// Eight idle bits, then a read of IDCODE.
pub open spec fn read_idcode_cmds() -> Seq<Command> {
    seq![Command::Sequence { count: 8, data: [0u8, 0, 0, 0, 0, 0, 0, 0] }] + read_dp_cmds(0)
}

/// Idle levels, line reset, JTAG-to-SWD switch, line reset, IDCODE read.
pub open spec fn connect_cmds() -> Seq<Command> {
    seq![Command::Setup] + reset_cmds() + switch_cmds(0xE79E) + reset_cmds() + read_idcode_cmds()
}

/// The power-up request bits.
pub open spec fn power_up_request() -> u32 {
    DebugControlStatusDef::CSYSPWRUPREQ | DebugControlStatusDef::CDBGPWRUPREQ
}

/// The power-up acknowledge bits.
pub open spec fn power_up_ack() -> u32 {
    DebugControlStatusDef::CSYSPWRUPACK | DebugControlStatusDef::CDBGPWRUPACK
}

/// The sticky error flags cleared through ABORT.
pub open spec fn abort_clear() -> u32 {
    AbortRegisterDef::STKCMPCLR | AbortRegisterDef::STKERRCLR | AbortRegisterDef::WDERRCLR
        | AbortRegisterDef::ORUNERRCLR
}

/// Connect, clear the sticky errors, request power-up, wait (at most 100
/// reads) for its acknowledge, set normal transfer mode and all byte lanes,
/// and select bank 0 of AP 0.
pub open spec fn initalize_cmds() -> Seq<Command> {
    connect_cmds() + write_dp_cmds(DpRegister::ABORT, abort_clear()) + write_dp_cmds(
        DpRegister::SELECT,
        0,
    ) + write_dp_cmds(DpRegister::CTRL_STAT, power_up_request()) + seq![
        Command::Poll {
            request: request_for(false, true, DpRegister::CTRL_STAT),
            mask: power_up_ack(),
            tries: 100,
        },
    ] + write_dp_cmds(
        DpRegister::CTRL_STAT,
        power_up_request() | DebugControlStatusDef::TRNNORMAL | DebugControlStatusDef::MASKLANE,
    ) + write_dp_cmds(DpRegister::SELECT, 0)
}

/// The DRW writes of a block: one per whole four-byte chunk, little-endian.
pub open spec fn block_word_cmds(data: Seq<u8>) -> Seq<Command> {
    Seq::new(
        data.len() / 4,
        |i: int|
            Command::TransferRetry {
                request: request_for(true, false, AccessPortRegisterAddress::AP_DRW),
                data: le_word(data, 4 * i),
            },
    )
}

/// Set 32-bit accesses with address increment, set TAR, write each word to
/// DRW, and read RDBUFF to complete the last write.
pub open spec fn write_block_cmds(address: u32, data: Seq<u8>) -> Seq<Command> {
    write_ap_cmds(AccessPortRegisterAddress::AP_CSW, csw_word32()) + seq![
        Command::TransferRetry {
            request: request_for(true, false, AccessPortRegisterAddress::AP_TAR),
            data: address,
        },
    ] + block_word_cmds(data) + seq![
        Command::TransferRetry { request: request_for(false, true, DpRegister::RDBUFF), data: 0 },
    ]
}

// ---------------------------------------------------------------------------
// Building plans
// ---------------------------------------------------------------------------

proof fn lemma_request_bits(a: u8, b: u8, x: u8)
    by (bit_vector)
    requires
        a == 0 || a == 1,
        b == 0 || b == 2,
    ensures
        a | b | (x & 0x0C) == ((a + b + (x & 0x0C)) as u8),
{
}

fn request_byte(a: u8, b: u8, adr: u8) -> (r: u8)
    requires
        a == Register::DP || a == Register::AP,
        b == Register::W || b == Register::R,
    ensures
        r == request_for(a == Register::AP, b == Register::R, adr),
{
    proof {
        lemma_request_bits(a, b, adr);
    }
    a | b | Register::ADR(adr)
}

fn push_write_dp(cmds: &mut Vec<Command>, adr: u8, val: u32)
    ensures
        final(cmds)@ == old(cmds)@ + write_dp_cmds(adr, val),
{
    let req = request_byte(Register::DP, Register::W, adr);
    cmds.push(Command::Transfer { request: req, data: val });
    assert(cmds@ =~= old(cmds)@ + write_dp_cmds(adr, val));
}

fn push_read_dp(cmds: &mut Vec<Command>, adr: u8)
    ensures
        final(cmds)@ == old(cmds)@ + read_dp_cmds(adr),
{
    let req = request_byte(Register::DP, Register::R, adr);
    cmds.push(Command::TransferRetry { request: req, data: 0 });
    assert(cmds@ =~= old(cmds)@ + read_dp_cmds(adr));
}

fn select_word(adr: u8) -> (r: u32)
    ensures
        r == ap_select(adr),
{
    let apsel: u32 = (adr as u32) & 0xff000000;
    let bank_sel: u32 = (adr as u32) & DebugSelectRegister::APBANKSEL;
    assert(((adr as u32) & 0xff000000u32) | ((adr as u32) & 0xF0u32) == (adr & 0xF0u8) as u32)
        by (bit_vector);
    apsel | bank_sel
}

fn push_write_ap(cmds: &mut Vec<Command>, adr: u8, val: u32)
    ensures
        final(cmds)@ == old(cmds)@ + write_ap_cmds(adr, val),
{
    let sel = select_word(adr);
    push_write_dp(cmds, DpRegister::SELECT, sel);
    let req = request_byte(Register::AP, Register::W, adr);
    cmds.push(Command::TransferRetry { request: req, data: val });
    let rdbuff = request_byte(Register::DP, Register::R, DpRegister::RDBUFF);
    cmds.push(Command::TransferRetry { request: rdbuff, data: 0 });
    assert(cmds@ =~= old(cmds)@ + write_ap_cmds(adr, val));
}

fn push_read_data(cmds: &mut Vec<Command>, addr: u32)
    ensures
        final(cmds)@ == old(cmds)@ + read_data_cmds(addr),
{
    let tar = request_byte(Register::AP, Register::W, AccessPortRegisterAddress::AP_TAR);
    cmds.push(Command::TransferRetry { request: tar, data: addr });
    let drw = request_byte(Register::AP, Register::R, AccessPortRegisterAddress::AP_DRW);
    cmds.push(Command::TransferRetry { request: drw, data: 0 });
    let rdbuff = request_byte(Register::DP, Register::R, DpRegister::RDBUFF);
    cmds.push(Command::TransferRetry { request: rdbuff, data: 0 });
    assert(cmds@ =~= old(cmds)@ + read_data_cmds(addr));
}

fn push_write_data(cmds: &mut Vec<Command>, addr: u32, val: u32)
    ensures
        final(cmds)@ == old(cmds)@ + write_data_cmds(addr, val),
{
    let tar = request_byte(Register::AP, Register::W, AccessPortRegisterAddress::AP_TAR);
    cmds.push(Command::TransferRetry { request: tar, data: addr });
    let drw = request_byte(Register::AP, Register::W, AccessPortRegisterAddress::AP_DRW);
    cmds.push(Command::TransferRetry { request: drw, data: val });
    let rdbuff = request_byte(Register::DP, Register::R, DpRegister::RDBUFF);
    cmds.push(Command::TransferRetry { request: rdbuff, data: 0 });
    assert(cmds@ =~= old(cmds)@ + write_data_cmds(addr, val));
}

fn push_reset(cmds: &mut Vec<Command>)
    ensures
        final(cmds)@ == old(cmds)@ + reset_cmds(),
{
    let tmp_in = [0xffu8, 0xff, 0xff, 0xff, 0xff, 0xff, 0xff, 0xff];
    cmds.push(Command::Sequence { count: 51, data: tmp_in });
    assert(cmds@ =~= old(cmds)@ + reset_cmds());
}

fn push_switch(cmds: &mut Vec<Command>, val: u16)
    ensures
        final(cmds)@ == old(cmds)@ + switch_cmds(val),
{
    let tmp_in = [(val & 0xff) as u8, ((val >> 8) & 0xff) as u8, 0, 0, 0, 0, 0, 0];
    cmds.push(Command::Sequence { count: 16, data: tmp_in });
    assert(cmds@ =~= old(cmds)@ + switch_cmds(val));
}

fn push_read_idcode(cmds: &mut Vec<Command>)
    ensures
        final(cmds)@ == old(cmds)@ + read_idcode_cmds(),
{
    let tmp_in = [0u8, 0, 0, 0, 0, 0, 0, 0];
    cmds.push(Command::Sequence { count: 8, data: tmp_in });
    push_read_dp(cmds, 0);
    assert(cmds@ =~= old(cmds)@ + read_idcode_cmds());
}

fn le_word_at(data: &[u8], k: usize) -> (r: u32)
    requires
        k + 4 <= data@.len(),
    ensures
        r == le_word(data@, k as int),
{
    (data[k] as u32) + (data[k + 1] as u32) * 256 + (data[k + 2] as u32) * 65536 + (data[k
        + 3] as u32) * 16777216
}

/// The SWD debug-port driver of one link.
pub struct SwdDriver {
    pub swd: Swd,
}

impl SwdDriver {
    pub fn new(swd: Swd) -> (d: Self)
        ensures
            d.swd == swd,
    {
        Self { swd }
    }

    fn connect(&self) -> (p: Plan)
        ensures
            p.commands@ == connect_cmds(),
            p.result_at == 5,
            commands_wf(p.commands@),
    {
        let mut cmds = Vec::new();
        cmds.push(Command::Setup);
        push_reset(&mut cmds);
        push_switch(&mut cmds, 0xE79E);
        push_reset(&mut cmds);
        push_read_idcode(&mut cmds);
        assert(cmds@ =~= connect_cmds());
        Plan { commands: cmds, result_at: 5 }
    }

    /// Connects to the target and powers up its debug port; the result is the
    /// IDCODE read while connecting.
    pub fn initalize(&self) -> (p: Plan)
        ensures
            p.commands@ == initalize_cmds(),
            p.result_at == 5,
            commands_wf(p.commands@),
    {
        let plan = self.connect();
        let mut cmds = plan.commands;
        push_write_dp(
            &mut cmds,
            DpRegister::ABORT,
            AbortRegisterDef::STKCMPCLR | AbortRegisterDef::STKERRCLR | AbortRegisterDef::WDERRCLR
                | AbortRegisterDef::ORUNERRCLR,
        );
        push_write_dp(&mut cmds, DpRegister::SELECT, 0);
        push_write_dp(
            &mut cmds,
            DpRegister::CTRL_STAT,
            DebugControlStatusDef::CSYSPWRUPREQ | DebugControlStatusDef::CDBGPWRUPREQ,
        );
        let poll = request_byte(Register::DP, Register::R, DpRegister::CTRL_STAT);
        cmds.push(
            Command::Poll {
                request: poll,
                mask: DebugControlStatusDef::CSYSPWRUPACK | DebugControlStatusDef::CDBGPWRUPACK,
                tries: 100,
            },
        );
        push_write_dp(
            &mut cmds,
            DpRegister::CTRL_STAT,
            DebugControlStatusDef::CSYSPWRUPREQ | DebugControlStatusDef::CDBGPWRUPREQ
                | DebugControlStatusDef::TRNNORMAL | DebugControlStatusDef::MASKLANE,
        );
        push_write_dp(&mut cmds, DpRegister::SELECT, 0);
        assert(cmds@ =~= initalize_cmds());
        Plan { commands: cmds, result_at: plan.result_at }
    }

    /// A line reset.
    pub fn reset(&self) -> (p: Plan)
        ensures
            p.commands@ == reset_cmds(),
            p.result_at == 0,
            commands_wf(p.commands@),
    {
        let mut cmds = Vec::new();
        push_reset(&mut cmds);
        Plan { commands: cmds, result_at: 0 }
    }

    /// The 16-bit switch sequence `val`.
    pub fn switch(&self, val: u16) -> (p: Plan)
        ensures
            p.commands@ == switch_cmds(val),
            p.result_at == 0,
            commands_wf(p.commands@),
    {
        let mut cmds = Vec::new();
        push_switch(&mut cmds, val);
        Plan { commands: cmds, result_at: 0 }
    }

    /// Reads IDCODE; the result is its value.
    pub fn read_idcode(&self) -> (p: Plan)
        ensures
            p.commands@ == read_idcode_cmds(),
            p.result_at == 1,
            commands_wf(p.commands@),
    {
        let mut cmds = Vec::new();
        push_read_idcode(&mut cmds);
        Plan { commands: cmds, result_at: 1 }
    }

    /// Reads a DP register; the result is its value.
    pub fn read_dp(&self, adr: u8) -> (p: Plan)
        ensures
            p.commands@ == read_dp_cmds(adr),
            p.result_at == 0,
            commands_wf(p.commands@),
    {
        let mut cmds = Vec::new();
        push_read_dp(&mut cmds, adr);
        Plan { commands: cmds, result_at: 0 }
    }

    /// Reads an AP register; the result is its value.
    pub fn read_ap(&self, adr: u8) -> (p: Plan)
        ensures
            p.commands@ == read_ap_cmds(adr),
            p.result_at == 3,
            commands_wf(p.commands@),
    {
        let mut cmds = Vec::new();
        let req = request_byte(Register::AP, Register::R, adr);
        cmds.push(Command::TransferRetry { request: req, data: 0 });
        let sel = select_word(adr);
        push_write_dp(&mut cmds, DpRegister::SELECT, sel);
        cmds.push(Command::TransferRetry { request: req, data: 0 });
        cmds.push(Command::TransferRetry { request: req, data: 0 });
        assert(cmds@ =~= read_ap_cmds(adr));
        Plan { commands: cmds, result_at: 3 }
    }

    /// Writes a DP register, with a single transfer.
    pub fn write_dp(&self, adr: u8, val: u32) -> (p: Plan)
        ensures
            p.commands@ == write_dp_cmds(adr, val),
            p.result_at == 0,
            commands_wf(p.commands@),
    {
        let mut cmds = Vec::new();
        push_write_dp(&mut cmds, adr, val);
        Plan { commands: cmds, result_at: 0 }
    }

    /// Writes an AP register.
    pub fn write_ap(&self, adr: u8, val: u32) -> (p: Plan)
        ensures
            p.commands@ == write_ap_cmds(adr, val),
            p.result_at == 0,
            commands_wf(p.commands@),
    {
        let mut cmds = Vec::new();
        push_write_ap(&mut cmds, adr, val);
        Plan { commands: cmds, result_at: 0 }
    }

    /// Reads the 32-bit word at `addr` of target memory; the result is the word.
    pub fn read_word(&self, addr: u32) -> (p: Plan)
        ensures
            p.commands@ == read_word_cmds(addr),
            p.result_at == 5,
            commands_wf(p.commands@),
    {
        let mut cmds = Vec::new();
        push_write_ap(
            &mut cmds,
            AccessPortRegisterAddress::AP_CSW,
            CSW_VALUE | APControlStatusWordDef::CSW_SIZE32,
        );
        push_read_data(&mut cmds, addr);
        assert(cmds@ =~= read_word_cmds(addr));
        Plan { commands: cmds, result_at: 5 }
    }

    /// Writes the 32-bit word `val` at `addr` of target memory.
    pub fn write_word(&self, addr: u32, val: u32) -> (p: Plan)
        ensures
            p.commands@ == write_word_cmds(addr, val),
            p.result_at == 0,
            commands_wf(p.commands@),
    {
        let mut cmds = Vec::new();
        push_write_ap(
            &mut cmds,
            AccessPortRegisterAddress::AP_CSW,
            CSW_VALUE | APControlStatusWordDef::CSW_SIZE32,
        );
        push_write_data(&mut cmds, addr, val);
        assert(cmds@ =~= write_word_cmds(addr, val));
        Plan { commands: cmds, result_at: 0 }
    }

    /// Writes the whole four-byte words of `data`, little-endian, to target
    /// memory from `address` on, with address auto-increment. An empty block is
    /// refused; trailing bytes that do not fill a word are not written.
    pub fn write_block<E>(&self, address: u32, data: &[u8]) -> (r: Result<Plan, SwdError<E>>)
        ensures
            r is Ok <==> data@.len() > 0,
            data@.len() == 0 <==> r matches Err(SwdError::IncorrectParams),
            r is Ok ==> r->Ok_0.commands@ == write_block_cmds(address, data@),
            r is Ok ==> r->Ok_0.result_at + 1 == r->Ok_0.commands@.len(),
            r is Ok ==> commands_wf(r->Ok_0.commands@),
    {
        let size = data.len();
        if size == 0 {
            return Err(SwdError::IncorrectParams);
        }
        let mut cmds = Vec::new();
        push_write_ap(
            &mut cmds,
            AccessPortRegisterAddress::AP_CSW,
            CSW_VALUE | APControlStatusWordDef::CSW_SIZE32,
        );
        let tar = request_byte(Register::AP, Register::W, AccessPortRegisterAddress::AP_TAR);
        cmds.push(Command::TransferRetry { request: tar, data: address });
        let ghost head = cmds@;
        let drw = request_byte(Register::AP, Register::W, AccessPortRegisterAddress::AP_DRW);
        let words = size / 4;
        let mut i: usize = 0;
        assert(head =~= head + block_word_cmds(data@).take(0));
        while i < words
            invariant
                i <= words,
                words == data@.len() / 4,
                size == data@.len(),
                drw == request_for(true, false, AccessPortRegisterAddress::AP_DRW),
                cmds@ == head + block_word_cmds(data@).take(i as int),
            decreases words - i,
        {
            let word = le_word_at(data, 4 * i);
            cmds.push(Command::TransferRetry { request: drw, data: word });
            assert(block_word_cmds(data@).take(i + 1) =~= block_word_cmds(data@).take(i as int).push(
                Command::TransferRetry { request: drw, data: word },
            ));
            i += 1;
        }
        assert(block_word_cmds(data@).take(words as int) =~= block_word_cmds(data@));
        let rdbuff = request_byte(Register::DP, Register::R, DpRegister::RDBUFF);
        cmds.push(Command::TransferRetry { request: rdbuff, data: 0 });
        assert(cmds@ =~= write_block_cmds(address, data@));
        let last = cmds.len() - 1;
        Ok(Plan { commands: cmds, result_at: last })
    }
}


// ---------------------------------------------------------------------------
// Running plans
// ---------------------------------------------------------------------------

/// What the caller does next for a session.
#[derive(Debug)]
pub enum Action {
    /// Perform these pin operations; they sample nothing.
    Pins(Vec<PinOp>),
    /// Run one SWD transfer (with `Swd::swd_transfer`) and hand its outcome back.
    Transfer { request: u8, data: u32 },
    /// The program is over, with this result.
    Done(Result<u32, DapResponse>),
}

/// An action as a mathematical value.
pub enum ActionView {
    Pins(Seq<PinOp>),
    Transfer { request: u8, data: u32 },
    Done(Result<u32, DapResponse>),
}

impl View for Action {
    type V = ActionView;

    open spec fn view(&self) -> ActionView {
        match self {
            Action::Pins(ops) => ActionView::Pins(ops@),
            Action::Transfer { request, data } => ActionView::Transfer {
                request: *request,
                data: *data,
            },
            Action::Done(r) => ActionView::Done(*r),
        }
    }
}

/// The state of a running program.
pub struct SessionState {
    /// Whether the link has a reset line (what `Setup` drives).
    pub rst: bool,
    pub commands: Seq<Command>,
    pub result_at: nat,
    /// The command being run, or the number of commands once all have run.
    pub pos: nat,
    /// Transfers sent for the current request of the current command.
    pub attempts: nat,
    /// Words read so far by the current poll.
    pub polls: nat,
    /// The word of the command at `result_at`, once it has run.
    pub value: u32,
    /// A transfer was handed out and its outcome is awaited.
    pub in_flight: bool,
    /// The result, once the program is over.
    pub finished: Option<Result<u32, DapResponse>>,
}

/// A command that runs SWD transfers.
pub open spec fn is_transfer_command(c: Command) -> bool {
    c is Transfer || c is TransferRetry || c is Poll
}

/// The request and data word of the transfers of a command.
pub open spec fn command_transfer(c: Command) -> ActionView {
    match c {
        Command::Transfer { request, data } => ActionView::Transfer { request, data },
        Command::TransferRetry { request, data } => ActionView::Transfer { request, data },
        Command::Poll { request, .. } => ActionView::Transfer { request, data: 0 },
        _ => ActionView::Transfer { request: 0, data: 0 },
    }
}

/// The states a session keeps between steps.
pub open spec fn state_wf(s: SessionState) -> bool {
    &&& commands_wf(s.commands)
    &&& s.pos <= s.commands.len()
    &&& s.in_flight ==> {
        &&& s.pos < s.commands.len()
        &&& is_transfer_command(s.commands[s.pos as int])
        &&& 1 <= s.attempts <= MAX_SWD_RETRY
        &&& (s.commands[s.pos as int] matches Command::Poll { tries, .. } ==> s.polls < tries)
    }
    &&& s.finished is Some ==> !s.in_flight
}

/// The state in which a program starts.
pub open spec fn initial_state(rst: bool, commands: Seq<Command>, result_at: nat) -> SessionState {
    SessionState {
        rst,
        commands,
        result_at,
        pos: 0,
        attempts: 0,
        polls: 0,
        value: 0,
        in_flight: false,
        finished: None,
    }
}

/// Whether a transfer that failed with `e` is sent again: only a WAIT, only
/// for a retried command (a retried transfer or a poll), and only while fewer
/// than `MAX_SWD_RETRY` transfers have been sent for it.
pub open spec fn retries(c: Command, attempts: nat, e: DapResponse) -> bool {
    &&& e is DapTransferWait
    &&& (c is TransferRetry || c is Poll)
    &&& attempts < MAX_SWD_RETRY
}

/// Starts the command at `pos`: pin operations run at once, transfers are
/// handed out; past the last command the program succeeds with the word of
/// the command at `result_at`.
pub open spec fn issue_step(s: SessionState) -> (SessionState, ActionView) {
    if s.pos >= s.commands.len() {
        (SessionState { finished: Some(Ok(s.value)), ..s }, ActionView::Done(Ok(s.value)))
    } else {
        match s.commands[s.pos as int] {
            Command::Setup => (SessionState { pos: s.pos + 1, ..s }, ActionView::Pins(setup_ops(s.rst))),
            Command::Sequence { count, data } => (
                SessionState { pos: s.pos + 1, ..s },
                ActionView::Pins(swj_bits_ops(swj_bits(data@, count as nat))),
            ),
            Command::Poll { request, .. } => (
                SessionState { in_flight: true, attempts: 1, polls: 0, ..s },
                ActionView::Transfer { request, data: 0 },
            ),
            c => (
                SessionState { in_flight: true, attempts: 1, ..s },
                command_transfer(c),
            ),
        }
    }
}

/// The current command is over with word `v`.
pub open spec fn completed(s: SessionState, v: u32) -> SessionState {
    SessionState {
        pos: s.pos + 1,
        in_flight: false,
        value: if s.pos == s.result_at { v } else { s.value },
        ..s
    }
}

/// Takes the outcome of the transfer in flight: a WAIT that `retries` is sent
/// again; any other failure ends the program with it; a poll that has not seen
/// its mask reads again while it has tries left; otherwise the command is over
/// and the next one starts.
pub open spec fn resume_step(s: SessionState, outcome: Result<u32, DapResponse>) -> (
    SessionState,
    ActionView,
) {
    let c = s.commands[s.pos as int];
    match outcome {
        Err(e) => if retries(c, s.attempts, e) {
            (SessionState { attempts: s.attempts + 1, ..s }, command_transfer(c))
        } else {
            (
                SessionState { in_flight: false, finished: Some(Err(e)), ..s },
                ActionView::Done(Err(e)),
            )
        },
        Ok(v) => match c {
            Command::Poll { request, mask, tries } => if v & mask != mask && s.polls + 1 < tries {
                (
                    SessionState { polls: s.polls + 1, attempts: 1, ..s },
                    ActionView::Transfer { request, data: 0 },
                )
            } else {
                issue_step(completed(s, v))
            },
            _ => issue_step(completed(s, v)),
        },
    }
}

/// One step of a session, given the outcome of the transfer it handed out
/// last (if it is waiting for one). A finished session keeps answering its
/// result.
pub open spec fn session_step(s: SessionState, outcome: Option<Result<u32, DapResponse>>) -> (
    SessionState,
    ActionView,
) {
    if s.finished is Some {
        (s, ActionView::Done(s.finished->Some_0))
    } else if s.in_flight {
        resume_step(s, outcome->Some_0)
    } else {
        issue_step(s)
    }
}

/// A running driver program.
pub struct Session {
    swd: Swd,
    commands: Vec<Command>,
    result_at: usize,
    pos: usize,
    attempts: u32,
    polls: u32,
    value: u32,
    in_flight: bool,
    finished: Option<Result<u32, DapResponse>>,
}

impl View for Session {
    type V = SessionState;

    closed spec fn view(&self) -> SessionState {
        SessionState {
            rst: self.swd.rst,
            commands: self.commands@,
            result_at: self.result_at as nat,
            pos: self.pos as nat,
            attempts: self.attempts as nat,
            polls: self.polls as nat,
            value: self.value,
            in_flight: self.in_flight,
            finished: self.finished,
        }
    }
}

/// Whether a transfer that failed with `e` is sent again (see `retries`).
fn transfer_retry(c: Command, attempts: u32, e: DapResponse) -> (r: bool)
    ensures
        r == retries(c, attempts as nat, e),
{
    let retried = match c {
        Command::TransferRetry { .. } | Command::Poll { .. } => true,
        _ => false,
    };
    e == DapResponse::DapTransferWait && retried && attempts < MAX_SWD_RETRY
}

impl Session {
    /// Starts running `plan` on the link `swd`.
    pub fn new(swd: Swd, plan: Plan) -> (s: Self)
        requires
            commands_wf(plan.commands@),
        ensures
            s@ == initial_state(swd.rst, plan.commands@, plan.result_at as nat),
            state_wf(s@),
    {
        Session {
            swd,
            commands: plan.commands,
            result_at: plan.result_at,
            pos: 0,
            attempts: 0,
            polls: 0,
            value: 0,
            in_flight: false,
            finished: None,
        }
    }

    /// Whether the session waits for the outcome of a transfer.
    pub fn awaiting_transfer(&self) -> (r: bool)
        ensures
            r == self@.in_flight,
    {
        self.in_flight
    }

    /// One step: hand in the outcome of the last `Action::Transfer` (and
    /// `None` after any other action), get the next action.
    pub fn step(&mut self, outcome: Option<Result<u32, DapResponse>>) -> (a: Action)
        requires
            state_wf(old(self)@),
            old(self)@.finished is None ==> (old(self)@.in_flight <==> outcome is Some),
        ensures
            state_wf(final(self)@),
            (final(self)@, a@) == session_step(old(self)@, outcome),
    {
        if let Some(r) = self.finished {
            return Action::Done(r);
        }
        if self.in_flight {
            let out = outcome.unwrap();
            self.resume(out)
        } else {
            self.issue()
        }
    }

    fn issue(&mut self) -> (a: Action)
        requires
            state_wf(old(self)@),
            !old(self)@.in_flight,
            old(self)@.finished is None,
        ensures
            state_wf(final(self)@),
            (final(self)@, a@) == issue_step(old(self)@),
    {
        if self.pos >= self.commands.len() {
            let r = Ok(self.value);
            self.finished = Some(r);
            return Action::Done(r);
        }
        let c = self.commands[self.pos];
        assert(command_wf(self@.commands[self.pos as int]));
        match c {
            Command::Setup => {
                self.pos = self.pos + 1;
                Action::Pins(self.swd.setup())
            },
            Command::Sequence { count, data } => {
                self.pos = self.pos + 1;
                let ops = self.swd.swj_sequence(count, data.as_slice());
                Action::Pins(ops)
            },
            Command::Transfer { request, data } => {
                self.in_flight = true;
                self.attempts = 1;
                Action::Transfer { request, data }
            },
            Command::TransferRetry { request, data } => {
                self.in_flight = true;
                self.attempts = 1;
                Action::Transfer { request, data }
            },
            Command::Poll { request, .. } => {
                self.in_flight = true;
                self.attempts = 1;
                self.polls = 0;
                Action::Transfer { request, data: 0 }
            },
        }
    }

    fn resume(&mut self, outcome: Result<u32, DapResponse>) -> (a: Action)
        requires
            state_wf(old(self)@),
            old(self)@.in_flight,
            old(self)@.finished is None,
        ensures
            state_wf(final(self)@),
            (final(self)@, a@) == resume_step(old(self)@, outcome),
    {
        let c = self.commands[self.pos];
        match outcome {
            Err(e) => {
                if transfer_retry(c, self.attempts, e) {
                    self.attempts = self.attempts + 1;
                    match c {
                        Command::TransferRetry { request, data } => Action::Transfer { request, data },
                        Command::Poll { request, .. } => Action::Transfer { request, data: 0 },
                        _ => Action::Transfer { request: 0, data: 0 },
                    }
                } else {
                    self.in_flight = false;
                    self.finished = Some(Err(e));
                    Action::Done(Err(e))
                }
            },
            Ok(v) => {
                if let Command::Poll { request, mask, tries } = c {
                    if v & mask != mask && self.polls + 1 < tries {
                        self.polls = self.polls + 1;
                        self.attempts = 1;
                        return Action::Transfer { request, data: 0 };
                    }
                }
                if self.pos == self.result_at {
                    self.value = v;
                }
                let len = self.commands.len();
                assert(self.pos < len);
                self.pos = self.pos + 1;
                self.in_flight = false;
                self.issue()
            },
        }
    }
}


// ---------------------------------------------------------------------------
// Laws of sessions
// ---------------------------------------------------------------------------

/// A finished session stays finished: every later step answers the same result
/// and changes nothing.
pub proof fn lemma_finished_is_final(s: SessionState, outcome: Option<Result<u32, DapResponse>>)
    requires
        s.finished is Some,
    ensures
        session_step(s, outcome) == (s, ActionView::Done(s.finished->Some_0)),
{
}

/// The first failure ends the program: a failed transfer that is not a WAIT to
/// be retried makes the session finish with that failure, and hand out
/// nothing more.
pub proof fn lemma_failure_ends_program(s: SessionState, e: DapResponse)
    requires
        state_wf(s),
        s.finished is None,
        s.in_flight,
        !retries(s.commands[s.pos as int], s.attempts, e),
    ensures
        session_step(s, Some(Err(e))).1 == ActionView::Done(Err(e)),
        session_step(s, Some(Err(e))).0.finished == Some(Err::<u32, DapResponse>(e)),
{
}

/// A retried transfer that keeps getting WAIT is sent again with the same
/// request and data, up to `MAX_SWD_RETRY` transfers in all; the WAIT after the
/// last of them ends the program with WAIT. A plain transfer is never sent
/// again.
pub proof fn lemma_wait_retry_bound(s: SessionState)
    requires
        state_wf(s),
        s.finished is None,
        s.in_flight,
    ensures
        s.attempts <= MAX_SWD_RETRY,
        ({
            let c = s.commands[s.pos as int];
            let (s2, a) = session_step(s, Some(Err(DapResponse::DapTransferWait)));
            if (c is TransferRetry || c is Poll) && s.attempts < MAX_SWD_RETRY {
                &&& a == command_transfer(c)
                &&& s2.attempts == s.attempts + 1
                &&& s2.pos == s.pos
            } else {
                &&& a == ActionView::Done(Err(DapResponse::DapTransferWait))
                &&& s2.finished == Some(Err::<u32, DapResponse>(DapResponse::DapTransferWait))
            }
        }),
{
}

/// A poll reads at most `tries` words: a word without every bit of the mask
/// is followed by another read only while fewer than `tries` words were read,
/// and the poll is over (the session moves past it) once a word has every bit
/// of the mask or `tries` words were read.
pub proof fn lemma_poll_bound(s: SessionState, v: u32)
    requires
        state_wf(s),
        s.finished is None,
        s.in_flight,
        s.commands[s.pos as int] is Poll,
    ensures
        ({
            let (request, mask, tries) = match s.commands[s.pos as int] {
                Command::Poll { request, mask, tries } => (request, mask, tries),
                _ => (0u8, 0u32, 0u32),
            };
            let (s2, a) = session_step(s, Some(Ok(v)));
            &&& s.polls < tries
            &&& (v & mask != mask && s.polls + 1 < tries) ==> (a == ActionView::Transfer {
                request,
                data: 0,
            } && s2.polls == s.polls + 1 && s2.pos == s.pos)
            &&& !(v & mask != mask && s.polls + 1 < tries) ==> s2.pos > s.pos
        }),
{
}

/// A program that has run all its commands succeeds with the word of the
/// command at `result_at`.
pub proof fn lemma_completion(s: SessionState)
    requires
        state_wf(s),
        s.finished is None,
        !s.in_flight,
        s.pos == s.commands.len(),
    ensures
        session_step(s, None).1 == ActionView::Done(Ok(s.value)),
{
}


/// Runs a session for `n` steps, answering the transfer of command `k` with
/// the word `words[k]`; the actions it hands out.
pub open spec fn run_with_words(s: SessionState, words: Seq<u32>, n: nat) -> Seq<ActionView>
    decreases n,
{
    if n == 0 {
        seq![]
    } else {
        let outcome = if s.in_flight {
            Some(Ok(words[s.pos as int]))
        } else {
            None
        };
        let (s2, a) = session_step(s, outcome);
        seq![a] + run_with_words(s2, words, (n - 1) as nat)
    }
}

/// The action that a command is handed out as.
pub open spec fn command_action(rst: bool, c: Command) -> ActionView {
    match c {
        Command::Setup => ActionView::Pins(setup_ops(rst)),
        Command::Sequence { count, data } => ActionView::Pins(swj_bits_ops(swj_bits(data@, count as nat))),
        _ => command_transfer(c),
    }
}

/// The actions of the commands from `k` on, in order.
pub open spec fn planned_actions(rst: bool, cmds: Seq<Command>, k: nat) -> Seq<ActionView>
    decreases cmds.len() - k,
{
    if k >= cmds.len() {
        seq![]
    } else {
        seq![command_action(rst, cmds[k as int])] + planned_actions(rst, cmds, k + 1)
    }
}

/// The word a program with these answers ends with: the word of its result
/// command, if that command runs transfers, and 0 otherwise.
pub open spec fn planned_result(cmds: Seq<Command>, result_at: nat, words: Seq<u32>) -> u32 {
    if result_at < cmds.len() && is_transfer_command(cmds[result_at as int]) {
        words[result_at as int]
    } else {
        0
    }
}

/// The answers under which every transfer succeeds at once: one word per
/// command, and a poll's word has every bit of its mask.
pub open spec fn answers_settle(cmds: Seq<Command>, words: Seq<u32>) -> bool {
    &&& words.len() == cmds.len()
    &&& forall|k: int|
        0 <= k < cmds.len() ==> (#[trigger] cmds[k] matches Command::Poll { mask, .. } ==> words[k]
            & mask == mask)
}

/// Two states that start with the same step run alike.
proof fn lemma_run_same_first_step(s1: SessionState, s2: SessionState, words: Seq<u32>, n: nat)
    requires
        n > 0,
        session_step(
            s1,
            if s1.in_flight {
                Some(Ok(words[s1.pos as int]))
            } else {
                None
            },
        ) == session_step(
            s2,
            if s2.in_flight {
                Some(Ok(words[s2.pos as int]))
            } else {
                None
            },
        ),
    ensures
        run_with_words(s1, words, n) == run_with_words(s2, words, n),
{
}

proof fn lemma_run_from(s: SessionState, words: Seq<u32>)
    requires
        state_wf(s),
        s.finished is None,
        !s.in_flight,
        answers_settle(s.commands, words),
        s.value == (if s.result_at < s.pos && is_transfer_command(s.commands[s.result_at as int]) {
            words[s.result_at as int]
        } else {
            0
        }),
    ensures
        run_with_words(s, words, (s.commands.len() - s.pos + 1) as nat) == planned_actions(
            s.rst,
            s.commands,
            s.pos,
        ) + seq![ActionView::Done(Ok(planned_result(s.commands, s.result_at, words)))],
    decreases s.commands.len() - s.pos,
{
    let len = s.commands.len();
    let n = (len - s.pos + 1) as nat;
    let done = seq![ActionView::Done(Ok(planned_result(s.commands, s.result_at, words)))];
    if s.pos >= len {
        let (s2, a) = session_step(s, None);
        assert(a == ActionView::Done(Ok(planned_result(s.commands, s.result_at, words))));
        assert(run_with_words(s2, words, 0) =~= Seq::<ActionView>::empty());
        assert(run_with_words(s, words, n) =~= done);
        assert(planned_actions(s.rst, s.commands, s.pos) =~= Seq::<ActionView>::empty());
        assert(planned_actions(s.rst, s.commands, s.pos) + done =~= done);
    } else {
        let c = s.commands[s.pos as int];
        assert(command_wf(c));
        let (s1, a1) = session_step(s, None);
        assert(a1 == command_action(s.rst, c));
        let next = SessionState { pos: s.pos + 1, in_flight: false, ..s1 };
        if is_transfer_command(c) {
            // the transfer is handed out; its answer completes the command and
            // the next command starts in the same step
            assert(s1.in_flight && s1.pos == s.pos);
            let after = completed(s1, words[s.pos as int]);
            assert(session_step(s1, Some(Ok(words[s.pos as int]))) == issue_step(after));
            assert(session_step(after, None) == issue_step(after));
            lemma_run_same_first_step(s1, after, words, (n - 1) as nat);
            lemma_run_from(after, words);
        } else {
            assert(s1 == next);
            lemma_run_from(s1, words);
        }
        assert(run_with_words(s, words, n) =~= seq![a1] + run_with_words(s1, words, (n - 1) as nat));
        assert(planned_actions(s.rst, s.commands, s.pos) =~= seq![a1] + planned_actions(
            s.rst,
            s.commands,
            s.pos + 1,
        ));
        assert(run_with_words(s, words, n) =~= planned_actions(s.rst, s.commands, s.pos) + done);
    }
}

/// A program does what it says: when every transfer succeeds at once, a
/// session hands out the actions of its commands one per step, in order
/// (pin operations for setup and SWJ sequences, the request and data word
/// of each transfer), and then finishes with the word of the result command.
pub proof fn lemma_program_runs_in_order(
    rst: bool,
    cmds: Seq<Command>,
    result_at: nat,
    words: Seq<u32>,
)
    requires
        commands_wf(cmds),
        answers_settle(cmds, words),
    ensures
        run_with_words(initial_state(rst, cmds, result_at), words, cmds.len() + 1)
            == planned_actions(rst, cmds, 0) + seq![
            ActionView::Done(Ok(planned_result(cmds, result_at, words))),
        ],
{
    lemma_run_from(initial_state(rst, cmds, result_at), words);
}


proof fn lemma_request_fields(a: u8, b: u8, x: u8)
    by (bit_vector)
    requires
        a == 0 || a == 1,
        b == 0 || b == 2,
    ensures
        (((a + b + (x & 0x0C)) as u8 >> 0u8) & 1u8 == 1u8) == (a == 1),
        (((a + b + (x & 0x0C)) as u8 >> 1u8) & 1u8 == 1u8) == (b == 2),
        (((a + b + (x & 0x0C)) as u8 >> 2u8) & 1u8 == 1u8) == ((x >> 2u8) & 1u8 == 1u8),
        (((a + b + (x & 0x0C)) as u8 >> 3u8) & 1u8 == 1u8) == ((x >> 3u8) & 1u8 == 1u8),
{
}

/// A register access goes on the wire as it was asked for: the request packet
/// of `request_for(ap, read, adr)` carries APnDP = `ap`, RnW = `read`, and
/// bits 2 and 3 of the register address as A2 and A3.
pub proof fn lemma_request_on_wire(ap: bool, read: bool, adr: u8)
    ensures
        header_bits(request_for(ap, read, adr))[1] == ap,
        header_bits(request_for(ap, read, adr))[2] == read,
        header_bits(request_for(ap, read, adr))[3] == request_bit(adr, 2),
        header_bits(request_for(ap, read, adr))[4] == request_bit(adr, 3),
{
    let a: u8 = if ap {
        1
    } else {
        0
    };
    let b: u8 = if read {
        2
    } else {
        0
    };
    lemma_request_fields(a, b, adr);
    assert(request_for(ap, read, adr) == (a + b + (adr & 0x0C)) as u8);
}


// ---------------------------------------------------------------------------
// What the plans send, in numbers
// ---------------------------------------------------------------------------

proof fn lemma_plan_numbers()
    ensures
        request_for(false, false, DpRegister::ABORT) == 0x00,
        request_for(false, false, DpRegister::CTRL_STAT) == 0x04,
        request_for(false, false, DpRegister::SELECT) == 0x08,
        request_for(false, true, 0) == 0x02,
        request_for(false, true, DpRegister::CTRL_STAT) == 0x06,
        request_for(false, true, DpRegister::RDBUFF) == 0x0E,
        request_for(true, false, AccessPortRegisterAddress::AP_CSW) == 0x01,
        request_for(true, false, AccessPortRegisterAddress::AP_TAR) == 0x05,
        request_for(true, false, AccessPortRegisterAddress::AP_DRW) == 0x0D,
        request_for(true, true, AccessPortRegisterAddress::AP_DRW) == 0x0F,
        ap_select(AccessPortRegisterAddress::AP_CSW) == 0,
        csw_word32() == 0x2300_0052,
        abort_clear() == 0x1E,
        power_up_request() == 0x5000_0000,
        power_up_ack() == 0xA000_0000,
        power_up_request() | DebugControlStatusDef::TRNNORMAL | DebugControlStatusDef::MASKLANE
            == 0x5000_0F00,
{
    assert(0u8 & 0x0Cu8 == 0u8) by (bit_vector);
    assert(4u8 & 0x0Cu8 == 4u8) by (bit_vector);
    assert(8u8 & 0x0Cu8 == 8u8) by (bit_vector);
    assert(12u8 & 0x0Cu8 == 12u8) by (bit_vector);
    assert(0u8 & 0xF0u8 == 0u8) by (bit_vector);
    assert(0x01000000u32 | 0x20000000u32 | 0x02000000u32 | 0x40u32 | 0x10u32 | 0x2u32
        == 0x2300_0052u32) by (bit_vector);
    assert(0x2u32 | 0x4u32 | 0x8u32 | 0x10u32 == 0x1Eu32) by (bit_vector);
    assert(0x40000000u32 | 0x10000000u32 == 0x5000_0000u32) by (bit_vector);
    assert(0x80000000u32 | 0x20000000u32 == 0xA000_0000u32) by (bit_vector);
    assert(0x40000000u32 | 0x10000000u32 | 0u32 | 0xF00u32 == 0x5000_0F00u32) by (bit_vector);
}

proof fn lemma_request_literal(a: u8, b: u8, x: u8)
    by (bit_vector)
    requires
        a == 0 || a == 1,
        b == 0 || b == 2,
    ensures
        ((a + b + (x & 0x0C)) as u8) == a | b | (x & 0x0C),
{
}

/// The register plans, in numbers: a DP read sends request `0x02 | A[3:2]`
/// (retried), a DP write `A[3:2]` once with the word; an AP access first
/// writes SELECT (request `0x08`) with the register's bank `adr & 0xF0`, reads
/// with request `0x03 | A[3:2]` (three times, the last one giving the word) or
/// writes with `0x01 | A[3:2]` and then reads RDBUFF (`0x0E`).
pub proof fn lemma_register_plans(adr: u8, val: u32)
    ensures
        read_dp_cmds(adr) == seq![Command::TransferRetry { request: 2u8 | (adr & 0x0C), data: 0 }],
        write_dp_cmds(adr, val) == seq![
            Command::Transfer { request: 0u8 | 0u8 | (adr & 0x0C), data: val },
        ],
        write_ap_cmds(adr, val) == seq![
            Command::Transfer { request: 0x08, data: (adr & 0xF0) as u32 },
            Command::TransferRetry { request: 1u8 | 0u8 | (adr & 0x0C), data: val },
            Command::TransferRetry { request: 0x0E, data: 0 },
        ],
        read_ap_cmds(adr) == seq![
            Command::TransferRetry { request: 1u8 | 2u8 | (adr & 0x0C), data: 0 },
            Command::Transfer { request: 0x08, data: (adr & 0xF0) as u32 },
            Command::TransferRetry { request: 1u8 | 2u8 | (adr & 0x0C), data: 0 },
            Command::TransferRetry { request: 1u8 | 2u8 | (adr & 0x0C), data: 0 },
        ],
{
    lemma_plan_numbers();
    lemma_request_literal(0, 2, adr);
    lemma_request_literal(0, 0, adr);
    lemma_request_literal(1, 0, adr);
    lemma_request_literal(1, 2, adr);
    assert(2u8 + 0 == 2u8);
    assert(read_dp_cmds(adr) =~= seq![Command::TransferRetry { request: 2u8 | (adr & 0x0C), data: 0 }]) by {
        assert(0u8 | 2u8 | (adr & 0x0C) == 2u8 | (adr & 0x0C)) by (bit_vector);
    }
    assert(write_ap_cmds(adr, val) =~= seq![
        Command::Transfer { request: 0x08, data: (adr & 0xF0) as u32 },
        Command::TransferRetry { request: 1u8 | 0u8 | (adr & 0x0C), data: val },
        Command::TransferRetry { request: 0x0E, data: 0 },
    ]);
    assert(read_ap_cmds(adr) =~= seq![
        Command::TransferRetry { request: 1u8 | 2u8 | (adr & 0x0C), data: 0 },
        Command::Transfer { request: 0x08, data: (adr & 0xF0) as u32 },
        Command::TransferRetry { request: 1u8 | 2u8 | (adr & 0x0C), data: 0 },
        Command::TransferRetry { request: 1u8 | 2u8 | (adr & 0x0C), data: 0 },
    ]);
}

/// The memory-word plans, in numbers: SELECT bank 0 (`0x08` with 0), the AP
/// control word `0x2300_0052` (32-bit accesses, `CSW_VALUE | CSW_SIZE32`,
/// request `0x01`), RDBUFF (`0x0E`), TAR (`0x05`) with the address itself,
/// then DRW: written with the word itself (`0x0D`) or read (`0x0F`), and
/// RDBUFF, which completes the access and, for a read, holds the word.
pub proof fn lemma_memory_word_plans(addr: u32, val: u32)
    ensures
        write_word_cmds(addr, val) == seq![
            Command::Transfer { request: 0x08, data: 0 },
            Command::TransferRetry { request: 0x01, data: 0x2300_0052 },
            Command::TransferRetry { request: 0x0E, data: 0 },
            Command::TransferRetry { request: 0x05, data: addr },
            Command::TransferRetry { request: 0x0D, data: val },
            Command::TransferRetry { request: 0x0E, data: 0 },
        ],
        read_word_cmds(addr) == seq![
            Command::Transfer { request: 0x08, data: 0 },
            Command::TransferRetry { request: 0x01, data: 0x2300_0052 },
            Command::TransferRetry { request: 0x0E, data: 0 },
            Command::TransferRetry { request: 0x05, data: addr },
            Command::TransferRetry { request: 0x0F, data: 0 },
            Command::TransferRetry { request: 0x0E, data: 0 },
        ],
        0x2300_0052u32 & APControlStatusWordDef::CSW_SIZE == APControlStatusWordDef::CSW_SIZE32,
{
    lemma_plan_numbers();
    assert(0x2300_0052u32 & 7u32 == 2u32) by (bit_vector);
    assert(write_word_cmds(addr, val) =~= seq![
        Command::Transfer { request: 0x08, data: 0 },
        Command::TransferRetry { request: 0x01, data: 0x2300_0052 },
        Command::TransferRetry { request: 0x0E, data: 0 },
        Command::TransferRetry { request: 0x05, data: addr },
        Command::TransferRetry { request: 0x0D, data: val },
        Command::TransferRetry { request: 0x0E, data: 0 },
    ]);
    assert(read_word_cmds(addr) =~= seq![
        Command::Transfer { request: 0x08, data: 0 },
        Command::TransferRetry { request: 0x01, data: 0x2300_0052 },
        Command::TransferRetry { request: 0x0E, data: 0 },
        Command::TransferRetry { request: 0x05, data: addr },
        Command::TransferRetry { request: 0x0F, data: 0 },
        Command::TransferRetry { request: 0x0E, data: 0 },
    ]);
}

/// The block plan, in numbers: the same setup as a word write (SELECT bank 0,
/// control word `0x2300_0052`, RDBUFF), TAR (`0x05`) with the block's start
/// address itself, then one DRW write (`0x0D`) per whole four-byte chunk, in
/// order, carrying the chunk as a little-endian word, and RDBUFF (`0x0E`).
pub proof fn lemma_block_plan(address: u32, data: Seq<u8>)
    ensures
        ({
            let c = write_block_cmds(address, data);
            let n = data.len() / 4;
            &&& c.len() == n + 5
            &&& c[0] == Command::Transfer { request: 0x08, data: 0 }
            &&& c[1] == Command::TransferRetry { request: 0x01, data: 0x2300_0052 }
            &&& c[2] == Command::TransferRetry { request: 0x0E, data: 0 }
            &&& c[3] == Command::TransferRetry { request: 0x05, data: address }
            &&& forall|i: int|
                0 <= i < n ==> #[trigger] c[4 + i] == Command::TransferRetry {
                    request: 0x0D,
                    data: (data[4 * i] + 256 * data[4 * i + 1] + 65536 * data[4 * i + 2]
                        + 16777216 * data[4 * i + 3]) as u32,
                }
            &&& c[n + 4int] == Command::TransferRetry { request: 0x0E, data: 0 }
        }),
{
    lemma_plan_numbers();
}

/// The power-up plan, in numbers: setup, a line reset (51 bits of ones), the
/// JTAG-to-SWD sequence `0xE79E` (16 bits, least significant first), a line
/// reset, 8 idle bits, the IDCODE read (`0x02`) that gives the result; then
/// ABORT cleared with `0x1E`, SELECT 0, CTRL/STAT `0x5000_0000` (power-up
/// requests), a poll of CTRL/STAT (`0x06`) for the acknowledges
/// `0xA000_0000`, at most 100 reads, CTRL/STAT `0x5000_0F00`, SELECT 0.
pub proof fn lemma_initalize_plan()
    ensures
        initalize_cmds() == seq![
            Command::Setup,
            Command::Sequence {
                count: 51,
                data: [0xffu8, 0xff, 0xff, 0xff, 0xff, 0xff, 0xff, 0xff],
            },
            Command::Sequence { count: 16, data: [0x9Eu8, 0xE7, 0, 0, 0, 0, 0, 0] },
            Command::Sequence {
                count: 51,
                data: [0xffu8, 0xff, 0xff, 0xff, 0xff, 0xff, 0xff, 0xff],
            },
            Command::Sequence { count: 8, data: [0u8, 0, 0, 0, 0, 0, 0, 0] },
            Command::TransferRetry { request: 0x02, data: 0 },
            Command::Transfer { request: 0x00, data: 0x1E },
            Command::Transfer { request: 0x08, data: 0 },
            Command::Transfer { request: 0x04, data: 0x5000_0000 },
            Command::Poll { request: 0x06, mask: 0xA000_0000, tries: 100 },
            Command::Transfer { request: 0x04, data: 0x5000_0F00 },
            Command::Transfer { request: 0x08, data: 0 },
        ],
{
    lemma_plan_numbers();
    assert((0xE79Eu16 & 0xff) as u8 == 0x9Eu8) by (bit_vector);
    assert(((0xE79Eu16 >> 8) & 0xff) as u8 == 0xE7u8) by (bit_vector);
    assert(initalize_cmds() =~= seq![
        Command::Setup,
        Command::Sequence {
            count: 51,
            data: [0xffu8, 0xff, 0xff, 0xff, 0xff, 0xff, 0xff, 0xff],
        },
        Command::Sequence { count: 16, data: [0x9Eu8, 0xE7, 0, 0, 0, 0, 0, 0] },
        Command::Sequence {
            count: 51,
            data: [0xffu8, 0xff, 0xff, 0xff, 0xff, 0xff, 0xff, 0xff],
        },
        Command::Sequence { count: 8, data: [0u8, 0, 0, 0, 0, 0, 0, 0] },
        Command::TransferRetry { request: 0x02, data: 0 },
        Command::Transfer { request: 0x00, data: 0x1E },
        Command::Transfer { request: 0x08, data: 0 },
        Command::Transfer { request: 0x04, data: 0x5000_0000 },
        Command::Poll { request: 0x06, mask: 0xA000_0000, tries: 100 },
        Command::Transfer { request: 0x04, data: 0x5000_0F00 },
        Command::Transfer { request: 0x08, data: 0 },
    ]);
}


/// The state after answering `k` transfers in a row with WAIT.
pub open spec fn after_waits(s: SessionState, k: nat) -> SessionState
    decreases k,
{
    if k == 0 {
        s
    } else {
        session_step(after_waits(s, (k - 1) as nat), Some(Err(DapResponse::DapTransferWait))).0
    }
}

proof fn lemma_after_waits_count(s: SessionState, k: nat)
    requires
        state_wf(s),
        s.finished is None,
        s.in_flight,
        s.attempts == 1,
        s.commands[s.pos as int] is TransferRetry || s.commands[s.pos as int] is Poll,
        k < MAX_SWD_RETRY,
    ensures
        ({
            let sk = after_waits(s, k);
            &&& state_wf(sk)
            &&& sk.finished is None
            &&& sk.in_flight
            &&& sk.pos == s.pos
            &&& sk.commands == s.commands
            &&& sk.attempts == k + 1
        }),
    decreases k,
{
    if k > 0 {
        lemma_after_waits_count(s, (k - 1) as nat);
    }
}

/// Every retried command has a budget of its own: whatever WAITs the commands
/// before it received, once the session starts a retried transfer (or a poll)
/// it resends the same request after each of the first `MAX_SWD_RETRY - 1`
/// WAITs, and only the WAIT to its `MAX_SWD_RETRY`-th send ends the program.
pub proof fn lemma_retry_budget_per_command(s: SessionState, k: nat)
    requires
        state_wf(s),
        s.finished is None,
        !s.in_flight,
        s.pos < s.commands.len(),
        s.commands[s.pos as int] is TransferRetry || s.commands[s.pos as int] is Poll,
        k < MAX_SWD_RETRY,
    ensures
        ({
            let c = s.commands[s.pos as int];
            let sent = match c {
                Command::TransferRetry { request, data } => ActionView::Transfer { request, data },
                Command::Poll { request, .. } => ActionView::Transfer { request, data: 0 },
                _ => ActionView::Transfer { request: 0, data: 0 },
            };
            let (first, a) = session_step(s, None);
            let sk = after_waits(first, k);
            let (_, next) = session_step(sk, Some(Err(DapResponse::DapTransferWait)));
            &&& a == sent
            &&& sk.in_flight && sk.finished is None && sk.pos == s.pos
            &&& k + 1 < MAX_SWD_RETRY ==> next == sent
            &&& k + 1 == MAX_SWD_RETRY ==> next == ActionView::Done(
                Err(DapResponse::DapTransferWait),
            )
        }),
{
    let (first, a) = session_step(s, None);
    assert(first.attempts == 1);
    lemma_after_waits_count(first, k);
}

/// Starting any transfer command sends its request with a fresh count of
/// one send, whatever state the session was left in by earlier commands.
pub proof fn lemma_transfer_command_starts_fresh(s: SessionState)
    requires
        state_wf(s),
        s.finished is None,
        !s.in_flight,
        s.pos < s.commands.len(),
        is_transfer_command(s.commands[s.pos as int]),
    ensures
        session_step(s, None).0.attempts == 1,
        session_step(s, None).0.in_flight,
        session_step(s, None).0.pos == s.pos,
{
}


/// Only WAIT is ever retried: any other failure of any transfer, and a WAIT
/// to a plain transfer, ends the program at once with that failure.
pub proof fn lemma_only_wait_is_retried(s: SessionState, e: DapResponse)
    requires
        state_wf(s),
        s.finished is None,
        s.in_flight,
        !(e is DapTransferWait) || s.commands[s.pos as int] is Transfer,
    ensures
        session_step(s, Some(Err(e))).1 == ActionView::Done(Err(e)),
        session_step(s, Some(Err(e))).0.finished == Some(Err::<u32, DapResponse>(e)),
{
}

/// The idle levels, in pins: setup drives SWDIO high, SWCLK high and (when
/// wired) releases reset high; shutdown holds reset low; a session hands out
/// exactly the setup levels for a `Setup` command.
pub proof fn lemma_setup_levels(rst: bool)
    ensures
        setup_ops(true) == seq![PinOp::Swdio(true), PinOp::Swclk(true), PinOp::Rst(true)],
        setup_ops(false) == seq![PinOp::Swdio(true), PinOp::Swclk(true)],
        shutdown_ops(true) == seq![PinOp::Rst(false)],
        shutdown_ops(false) == Seq::<PinOp>::empty(),
        command_action(true, Command::Setup) == ActionView::Pins(
            seq![PinOp::Swdio(true), PinOp::Swclk(true), PinOp::Rst(true)],
        ),
{
    assert(setup_ops(true) =~= seq![PinOp::Swdio(true), PinOp::Swclk(true), PinOp::Rst(true)]);
    assert(setup_ops(false) =~= seq![PinOp::Swdio(true), PinOp::Swclk(true)]);
    assert(shutdown_ops(false) =~= Seq::<PinOp>::empty());
}

} // verus!
