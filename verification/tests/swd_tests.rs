use swd::config::SwdConfig;
use swd::constant::{
    DapResult,
    APControlStatusWordDef, AccessPortRegisterAddress, DapResponse, DapTransfer, DebugControlStatusDef,
    DpRegister, Register, CSW_VALUE, MAX_SWD_RETRY,
};
use swd::dap::sw_dp::{ack_response, read_data_bits, PinOp, Swd, TransferNext, TransferPhase};
use swd::error::SwdError;
use swd::swd_driver::{Action, Command, Plan, Session, SwdDriver};

#[test]
fn it_works() {
    let _driver = SwdDriver::new(Swd::new(SwdConfig::default()));
}

// ---------------------------------------------------------------------------
// helpers
// ---------------------------------------------------------------------------

fn config(turnaround: u32, idle_cycles: u32) -> SwdConfig {
    SwdConfig { clock_speed_mhz: 160, turnaround, idle_cycles, target_speed_khz: 1000 }
}

/// The levels the host writes with `sw_write_bit` waveforms, in order.
fn written_bits(ops: &[PinOp]) -> Vec<bool> {
    let mut bits = Vec::new();
    let mut i = 0;
    while i + 4 < ops.len() {
        if let (PinOp::Swclk(false), PinOp::Swdio(b), PinOp::Delay, PinOp::Swclk(true), PinOp::Delay) =
            (ops[i], ops[i + 1], ops[i + 2], ops[i + 3], ops[i + 4])
        {
            bits.push(b);
            i += 5;
        } else {
            i += 1;
        }
    }
    bits
}

fn samples(ops: &[PinOp]) -> usize {
    ops.iter().filter(|o| **o == PinOp::Sample).count()
}

fn clock_periods(ops: &[PinOp]) -> usize {
    ops.iter().filter(|o| **o == PinOp::Swclk(true)).count()
}

fn word_frame(v: u32) -> [bool; 33] {
    let mut bits = [false; 33];
    for i in 0..32 {
        bits[i] = (v >> i) & 1 == 1;
    }
    bits[32] = v.count_ones() % 2 == 1;
    bits
}

fn ack_bits(code: u8) -> [bool; 3] {
    [code & 1 != 0, code & 2 != 0, code & 4 != 0]
}

/// Runs a whole transfer against a target that answers `ack` and, for reads,
/// drives the 33 bits `data_bits`; returns the data word afterwards, the
/// verdict, and all pin operations.
fn run_transfer(
    swd: &Swd,
    request: u8,
    data: u32,
    ack: u8,
    data_bits: [bool; 33],
) -> (u32, DapResult, Vec<PinOp>) {
    let mut all = Vec::new();
    let mut phase = TransferPhase::Start { request, data };
    loop {
        let (ops, next) = swd.swd_transfer(phase);
        all.extend_from_slice(&ops);
        match next {
            TransferNext::AwaitAck => {
                phase = TransferPhase::Acknowledged { request, data, ack: ack_bits(ack) };
            },
            TransferNext::AwaitData => {
                phase = TransferPhase::DataRead { bits: data_bits };
            },
            TransferNext::Complete { data, result } => return (data, result, all),
        }
    }
}

/// Runs a plan; each transfer's outcome comes from `answer`, called with the
/// request and data word of the transfer.
fn run_plan(
    plan: Plan,
    mut answer: impl FnMut(u8, u32) -> Result<u32, DapResponse>,
) -> (Result<u32, DapResponse>, Vec<(u8, u32)>, usize) {
    let mut session = Session::new(Swd::new(SwdConfig::default()), plan);
    let mut outcome = None;
    let mut transfers = Vec::new();
    let mut pin_batches = 0;
    loop {
        match session.step(outcome) {
            Action::Pins(_) => {
                pin_batches += 1;
                outcome = None;
            },
            Action::Transfer { request, data } => {
                transfers.push((request, data));
                outcome = Some(answer(request, data));
            },
            Action::Done(r) => return (r, transfers, pin_batches),
        }
    }
}

// ---------------------------------------------------------------------------
// constants and responses
// ---------------------------------------------------------------------------

#[test]
fn default_config_values() {
    let c = SwdConfig::default();
    assert_eq!(c.clock_speed_mhz, 160);
    assert_eq!(c.turnaround, 1);
    assert_eq!(c.idle_cycles, 0);
    assert_eq!(c.target_speed_khz, 4000);
}

#[test]
fn response_codes() {
    assert_eq!(DapResponse::from(0), DapResponse::DapTransferInvalid);
    assert_eq!(DapResponse::from(1), DapResponse::DapTransferOk);
    assert_eq!(DapResponse::from(2), DapResponse::DapTransferWait);
    assert_eq!(DapResponse::from(4), DapResponse::DapTransferFault);
    assert_eq!(DapResponse::from(8), DapResponse::DapTransferError);
    assert_eq!(DapResponse::from(16), DapResponse::DapTransferMismatch);
    assert_eq!(DapResponse::from(7), DapResponse::DapUnknown(7));
    assert_eq!(DapResponse::from(3), DapResponse::DapUnknown(3));
}

#[test]
fn transfer_flag_masks() {
    assert_eq!(DapTransfer::ApnDp.mask(), 1);
    assert_eq!(DapTransfer::RnW.mask(), 2);
    assert_eq!(DapTransfer::A2.mask(), 4);
    assert_eq!(DapTransfer::A3.mask(), 8);
    assert_eq!(DapTransfer::MatchValue.mask(), 16);
    assert_eq!(DapTransfer::MatchMask.mask(), 32);
}

#[test]
fn register_address_bits() {
    assert_eq!(Register::ADR(0x0C), 0x0C);
    assert_eq!(Register::ADR(0xFF), 0x0C);
    assert_eq!(Register::ADR(0x04), 0x04);
    assert_eq!(Register::ADR(0x03), 0x00);
    assert_eq!(CSW_VALUE, 0x2300_0050);
}

#[test]
fn ack_decoding() {
    assert_eq!(ack_response(&[true, false, false]), DapResponse::DapTransferOk);
    assert_eq!(ack_response(&[false, true, false]), DapResponse::DapTransferWait);
    assert_eq!(ack_response(&[false, false, true]), DapResponse::DapTransferFault);
    assert_eq!(ack_response(&[false, false, false]), DapResponse::DapTransferInvalid);
    assert_eq!(ack_response(&[true, true, true]), DapResponse::DapUnknown(7));
}

// ---------------------------------------------------------------------------
// waveforms
// ---------------------------------------------------------------------------

#[test]
fn primitive_waveforms() {
    let swd = Swd::new(SwdConfig::default());
    assert_eq!(
        swd.sw_clock_cycle(),
        vec![PinOp::Swclk(false), PinOp::Delay, PinOp::Swclk(true), PinOp::Delay]
    );
    assert_eq!(
        swd.sw_write_bit(true),
        vec![PinOp::Swclk(false), PinOp::Swdio(true), PinOp::Delay, PinOp::Swclk(true), PinOp::Delay]
    );
    assert_eq!(
        swd.sw_read_bit(),
        vec![PinOp::Swclk(false), PinOp::Delay, PinOp::Sample, PinOp::Swclk(true), PinOp::Delay]
    );
}

#[test]
fn setup_and_shutdown_levels() {
    let swd = Swd::new(SwdConfig::default());
    assert_eq!(swd.setup(), vec![PinOp::Swdio(true), PinOp::Swclk(true), PinOp::Rst(true)]);
    assert_eq!(swd.shutdown(), vec![PinOp::Rst(false)]);
    let no_rst = Swd { config: SwdConfig::default(), rst: false };
    assert_eq!(no_rst.setup(), vec![PinOp::Swdio(true), PinOp::Swclk(true)]);
    assert_eq!(no_rst.shutdown(), vec![]);
}

#[test]
fn swj_sequence_switch_bits() {
    let swd = Swd::new(SwdConfig::default());
    let ops = swd.swj_sequence(16, &[0x9E, 0xE7]);
    assert_eq!(ops.len(), 16 * 5);
    let levels: Vec<bool> = ops
        .iter()
        .filter_map(|o| if let PinOp::Swdio(b) = o { Some(*b) } else { None })
        .collect();
    let expected: Vec<bool> = (0..16).map(|i| (0xE79Eu16 >> i) & 1 == 1).collect();
    assert_eq!(levels, expected);
    assert_eq!(clock_periods(&ops), 16);
}

#[test]
fn swj_sequence_partial_byte() {
    let swd = Swd::new(SwdConfig::default());
    let ops = swd.swj_sequence(3, &[0b101]);
    assert_eq!(ops[0], PinOp::Swdio(true));
    assert_eq!(ops[5], PinOp::Swdio(false));
    assert_eq!(ops[10], PinOp::Swdio(true));
    assert_eq!(ops.len(), 15);
    assert_eq!(swd.swj_sequence(0, &[]), vec![]);
}

// ---------------------------------------------------------------------------
// transfers
// ---------------------------------------------------------------------------

#[test]
fn request_packet_for_idcode_read() {
    // DP read of IDCODE: the well-known packet 0xA5, least significant bit first.
    let swd = Swd::new(config(1, 0));
    let (ops, next) = swd.swd_transfer(TransferPhase::Start { request: 0x02, data: 0 });
    assert_eq!(next, TransferNext::AwaitAck);
    let bits = written_bits(&ops);
    let expected: Vec<bool> = (0..8).map(|i| (0xA5u8 >> i) & 1 == 1).collect();
    assert_eq!(bits, expected);
    assert_eq!(samples(&ops), 3);
    // 8 request bits, 1 turnaround period, 3 acknowledge bits
    assert_eq!(clock_periods(&ops), 12);
}

#[test]
fn request_packet_parity() {
    let swd = Swd::new(config(2, 0));
    for request in 0u8..16 {
        let (ops, _) = swd.swd_transfer(TransferPhase::Start { request, data: 0 });
        let bits = written_bits(&ops);
        assert_eq!(bits.len(), 8);
        assert!(bits[0] && !bits[6] && bits[7]);
        let ones = bits[1..6].iter().filter(|b| **b).count();
        assert_eq!(ones % 2, 0, "request {request}");
        assert_eq!(clock_periods(&ops), 8 + 2 + 3);
    }
}

#[test]
fn write_transfer_sends_word_and_parity() {
    let swd = Swd::new(config(1, 0));
    let (word, r, ops) = run_transfer(&swd, 0x0D, 0xDEAD_BEEF, 1, [false; 33]);
    assert_eq!(r, Ok(()));
    assert_eq!(word, 0xDEAD_BEEF);
    let bits = written_bits(&ops);
    // request packet, then the data frame
    assert_eq!(bits.len(), 8 + 33);
    assert_eq!(&bits[8..], &word_frame(0xDEAD_BEEF)[..]);
    assert_eq!(ops.last(), Some(&PinOp::Swdio(true)));
}

#[test]
fn read_transfer_returns_word() {
    let swd = Swd::new(config(1, 2));
    let (word, r, ops) = run_transfer(&swd, 0x0F, 0, 1, word_frame(0x1234_5678));
    assert_eq!(r, Ok(()));
    assert_eq!(word, 0x1234_5678);
    assert_eq!(samples(&ops), 3 + 33);
    // request 8, turnaround 1, ack 3, data 33, turnaround 1, idle 2
    assert_eq!(clock_periods(&ops), 8 + 1 + 3 + 33 + 1 + 2);
    assert!(ops.contains(&PinOp::Swdio(false)));
    assert_eq!(ops.last(), Some(&PinOp::Swdio(true)));
}

#[test]
fn read_transfer_detects_parity_error() {
    let swd = Swd::new(config(1, 0));
    let mut frame = word_frame(0xCAFE_F00D);
    frame[32] = !frame[32];
    let (word, r, _) = run_transfer(&swd, 0x0F, 0, 1, frame);
    assert_eq!(r, Err(DapResponse::DapTransferError));
    // the word read is still handed back
    assert_eq!(word, 0xCAFE_F00D);
    for i in 0..33 {
        let mut flipped = word_frame(0x0000_0001);
        flipped[i] = !flipped[i];
        assert_eq!(read_data_bits(&flipped).1, Err(DapResponse::DapTransferError));
    }
}

#[test]
fn write_then_read_round_trip() {
    let swd = Swd::new(config(1, 0));
    for v in [0u32, 1, 0x8000_0000, 0xFFFF_FFFF, 0x5A5A_A5A5] {
        let (_, _, ops) = run_transfer(&swd, 0x0D, v, 1, [false; 33]);
        let bits = written_bits(&ops);
        let mut frame = [false; 33];
        frame.copy_from_slice(&bits[8..41]);
        assert_eq!(read_data_bits(&frame), (v, Ok(())));
    }
}

#[test]
fn wait_and_fault_answers() {
    let swd = Swd::new(config(1, 0));
    let (word, r, ops) = run_transfer(&swd, 0x02, 0x77, 2, [false; 33]);
    assert_eq!(r, Err(DapResponse::DapTransferWait));
    assert_eq!(word, 0x77);
    assert_eq!(clock_periods(&ops), 8 + 1 + 3 + 1);
    let (_, r, _) = run_transfer(&swd, 0x02, 0, 4, [false; 33]);
    assert_eq!(r, Err(DapResponse::DapTransferFault));
}

#[test]
fn protocol_error_clocks_out_frame() {
    let swd = Swd::new(config(1, 0));
    let (_, r, ops) = run_transfer(&swd, 0x02, 0, 7, [false; 33]);
    assert_eq!(r, Err(DapResponse::DapUnknown(7)));
    assert_eq!(clock_periods(&ops), 8 + 1 + 3 + 1 + 33);
    let (_, r, _) = run_transfer(&swd, 0x02, 0, 0, [false; 33]);
    assert_eq!(r, Err(DapResponse::DapTransferInvalid));
}

// ---------------------------------------------------------------------------
// driver plans
// ---------------------------------------------------------------------------

fn driver() -> SwdDriver {
    SwdDriver::new(Swd::new(SwdConfig::default()))
}

#[test]
fn read_dp_plan() {
    let p = driver().read_dp(DpRegister::CTRL_STAT);
    assert_eq!(p.commands, vec![Command::TransferRetry { request: 0x06, data: 0 }]);
    assert_eq!(p.result_at, 0);
}

#[test]
fn write_dp_plan_single_transfer() {
    let p = driver().write_dp(DpRegister::SELECT, 0xF0);
    assert_eq!(p.commands, vec![Command::Transfer { request: 0x08, data: 0xF0 }]);
}

#[test]
fn read_ap_plan() {
    let p = driver().read_ap(0xFC);
    assert_eq!(
        p.commands,
        vec![
            Command::TransferRetry { request: 0x0F, data: 0 },
            Command::Transfer { request: 0x08, data: 0xF0 },
            Command::TransferRetry { request: 0x0F, data: 0 },
            Command::TransferRetry { request: 0x0F, data: 0 },
        ]
    );
    assert_eq!(p.result_at, 3);
}

#[test]
fn write_ap_plan() {
    let p = driver().write_ap(AccessPortRegisterAddress::AP_TAR, 0x2000_0000);
    assert_eq!(
        p.commands,
        vec![
            Command::Transfer { request: 0x08, data: 0 },
            Command::TransferRetry { request: 0x05, data: 0x2000_0000 },
            Command::TransferRetry { request: 0x0E, data: 0 },
        ]
    );
}

#[test]
fn read_word_plan() {
    let p = driver().read_word(0x0800_0000);
    let csw = CSW_VALUE | APControlStatusWordDef::CSW_SIZE32;
    assert_eq!(
        p.commands,
        vec![
            Command::Transfer { request: 0x08, data: 0 },
            Command::TransferRetry { request: 0x01, data: csw },
            Command::TransferRetry { request: 0x0E, data: 0 },
            Command::TransferRetry { request: 0x05, data: 0x0800_0000 },
            Command::TransferRetry { request: 0x0F, data: 0 },
            Command::TransferRetry { request: 0x0E, data: 0 },
        ]
    );
    assert_eq!(p.result_at, 5);
}

#[test]
fn write_word_plan() {
    let p = driver().write_word(0x0800_0000, 0xFF00_00A5);
    assert_eq!(p.commands.len(), 6);
    assert_eq!(p.commands[3], Command::TransferRetry { request: 0x05, data: 0x0800_0000 });
    assert_eq!(p.commands[4], Command::TransferRetry { request: 0x0D, data: 0xFF00_00A5 });
    assert_eq!(p.commands[5], Command::TransferRetry { request: 0x0E, data: 0 });
}

#[test]
fn write_block_plan() {
    let data = [0x01u8, 0x02, 0x03, 0x04, 0xAA, 0xBB, 0xCC, 0xDD, 0x99];
    let p = driver().write_block::<()>(0x2000_0000, &data).unwrap();
    assert_eq!(p.commands.len(), 3 + 1 + 2 + 1);
    assert_eq!(p.commands[3], Command::TransferRetry { request: 0x05, data: 0x2000_0000 });
    assert_eq!(p.commands[4], Command::TransferRetry { request: 0x0D, data: 0x0403_0201 });
    assert_eq!(p.commands[5], Command::TransferRetry { request: 0x0D, data: 0xDDCC_BBAA });
    assert_eq!(p.commands[6], Command::TransferRetry { request: 0x0E, data: 0 });
    assert_eq!(p.result_at, 6);
}

#[test]
fn write_block_refuses_empty() {
    let r = driver().write_block::<()>(0x2000_0000, &[]);
    assert!(matches!(r, Err(SwdError::IncorrectParams)));
}

#[test]
fn reset_switch_idcode_plans() {
    let d = driver();
    assert_eq!(d.reset().commands, vec![Command::Sequence { count: 51, data: [0xff; 8] }]);
    assert_eq!(
        d.switch(0xE79E).commands,
        vec![Command::Sequence { count: 16, data: [0x9E, 0xE7, 0, 0, 0, 0, 0, 0] }]
    );
    let p = d.read_idcode();
    assert_eq!(
        p.commands,
        vec![
            Command::Sequence { count: 8, data: [0; 8] },
            Command::TransferRetry { request: 0x02, data: 0 },
        ]
    );
    assert_eq!(p.result_at, 1);
}

#[test]
fn initalize_plan() {
    let p = driver().initalize();
    assert_eq!(p.commands.len(), 6 + 3 + 1 + 2);
    assert_eq!(p.commands[0], Command::Setup);
    assert_eq!(p.result_at, 5);
    assert_eq!(p.commands[6], Command::Transfer { request: 0x00, data: 0x1E });
    assert_eq!(
        p.commands[9],
        Command::Poll {
            request: 0x06,
            mask: DebugControlStatusDef::CSYSPWRUPACK | DebugControlStatusDef::CDBGPWRUPACK,
            tries: 100,
        }
    );
    assert_eq!(p.commands[10], Command::Transfer { request: 0x04, data: 0x5000_0F00 });
}

// ---------------------------------------------------------------------------
// sessions
// ---------------------------------------------------------------------------

#[test]
fn session_retries_wait() {
    let mut waits = 3;
    let (r, transfers, _) = run_plan(driver().read_dp(0), |_, _| {
        if waits > 0 {
            waits -= 1;
            Err(DapResponse::DapTransferWait)
        } else {
            Ok(0x0BB1_1477)
        }
    });
    assert_eq!(r, Ok(0x0BB1_1477));
    assert_eq!(transfers.len(), 4);
}

#[test]
fn session_gives_up_after_max_retries() {
    let (r, transfers, _) = run_plan(driver().read_dp(0), |_, _| Err(DapResponse::DapTransferWait));
    assert_eq!(r, Err(DapResponse::DapTransferWait));
    assert_eq!(transfers.len(), MAX_SWD_RETRY as usize);
}

#[test]
fn session_single_transfer_not_retried() {
    let (r, transfers, _) =
        run_plan(driver().write_dp(DpRegister::SELECT, 0), |_, _| Err(DapResponse::DapTransferWait));
    assert_eq!(r, Err(DapResponse::DapTransferWait));
    assert_eq!(transfers.len(), 1);
}

#[test]
fn session_stops_at_first_fault() {
    let mut n = 0;
    let (r, transfers, _) = run_plan(driver().read_word(0x0800_0000), |_, _| {
        n += 1;
        if n == 3 {
            Err(DapResponse::DapTransferFault)
        } else {
            Ok(0)
        }
    });
    assert_eq!(r, Err(DapResponse::DapTransferFault));
    assert_eq!(transfers.len(), 3);
}

#[test]
fn session_read_word_result() {
    let (r, transfers, _) = run_plan(driver().read_word(0x0800_0000), |request, _| {
        if request == 0x0E { Ok(0xFF00_00A5) } else { Ok(0x1111) }
    });
    assert_eq!(r, Ok(0xFF00_00A5));
    assert_eq!(transfers.len(), 6);
}

#[test]
fn session_initalize_polls_until_powered() {
    let mut ctrl_reads = 0;
    let (r, transfers, pins) = run_plan(driver().initalize(), |request, _| {
        if request == 0x02 {
            Ok(0x0BB1_1477)
        } else if request == 0x06 {
            ctrl_reads += 1;
            if ctrl_reads == 4 { Ok(0xF000_0000) } else { Ok(0x5000_0000) }
        } else {
            Ok(0)
        }
    });
    assert_eq!(r, Ok(0x0BB1_1477));
    // setup and four SWJ sequences
    assert_eq!(pins, 5);
    // IDCODE, three writes, four polls, two writes
    assert_eq!(transfers.len(), 1 + 3 + 4 + 2);
}

#[test]
fn session_initalize_poll_gives_up_after_100() {
    let (r, transfers, _) = run_plan(driver().initalize(), |request, _| {
        if request == 0x02 { Ok(7) } else { Ok(0) }
    });
    assert_eq!(r, Ok(7));
    assert_eq!(transfers.len(), 1 + 3 + 100 + 2);
}

#[test]
fn session_finished_stays_finished() {
    let mut session = Session::new(Swd::new(SwdConfig::default()), driver().write_dp(0, 0));
    assert!(matches!(session.step(None), Action::Transfer { request: 0, data: 0 }));
    assert!(session.awaiting_transfer());
    assert!(matches!(session.step(Some(Err(DapResponse::DapTransferFault))), Action::Done(Err(DapResponse::DapTransferFault))));
    assert!(matches!(session.step(None), Action::Done(Err(DapResponse::DapTransferFault))));
}

#[test]
fn session_pins_for_sequences() {
    let mut session = Session::new(Swd::new(SwdConfig::default()), driver().switch(0xE79E));
    match session.step(None) {
        Action::Pins(ops) => assert_eq!(ops.len(), 80),
        other => panic!("unexpected {other:?}"),
    }
    assert!(matches!(session.step(None), Action::Done(Ok(0))));
}

#[test]
fn request_fields_on_wire() {
    let swd = Swd::new(config(1, 0));
    // AP read of register 0xFC: APnDP = 1, RnW = 1, A2 = 1, A3 = 1, parity 0
    let req = driver().read_ap(0xFC).commands[0];
    let request = match req {
        Command::TransferRetry { request, .. } => request,
        other => panic!("unexpected {other:?}"),
    };
    let (ops, _) = swd.swd_transfer(TransferPhase::Start { request, data: 0 });
    assert_eq!(written_bits(&ops), vec![true, true, true, true, true, false, false, true]);
    // DP write of SELECT (0x08): APnDP = 0, RnW = 0, A2 = 0, A3 = 1, parity 1
    let (ops, _) = swd.swd_transfer(TransferPhase::Start { request: 0x08, data: 0 });
    assert_eq!(written_bits(&ops), vec![true, false, false, false, true, true, false, true]);
}

#[test]
fn session_hands_out_plan_in_order() {
    let plan = driver().write_word(0x2000_0010, 0xABCD_EF01);
    let expected: Vec<(u8, u32)> = plan
        .commands
        .iter()
        .map(|c| match *c {
            Command::Transfer { request, data } | Command::TransferRetry { request, data } => (request, data),
            other => panic!("unexpected {other:?}"),
        })
        .collect();
    let (r, transfers, pins) = run_plan(plan, |_, _| Ok(0));
    assert_eq!(r, Ok(0));
    assert_eq!(transfers, expected);
    assert_eq!(pins, 0);
}

#[test]
fn response_codes_unknown_keep_code() {
    for v in 0u8..=255 {
        let r = DapResponse::from(v);
        match v {
            0 | 1 | 2 | 4 | 8 | 16 => assert!(!matches!(r, DapResponse::DapUnknown(_))),
            _ => assert_eq!(r, DapResponse::DapUnknown(v)),
        }
    }
}

#[test]
fn write_block_eight_bytes_succeeds() {
    let data = [1u8, 2, 3, 4, 5, 6, 7, 8];
    let p = driver().write_block::<()>(0x2000_0000, &data).unwrap();
    let (r, transfers, _) = run_plan(p, |_, _| Ok(0));
    assert_eq!(r, Ok(0));
    let csw = CSW_VALUE | APControlStatusWordDef::CSW_SIZE32;
    assert_eq!(
        transfers,
        vec![
            (0x08, 0),
            (0x01, csw),
            (0x0E, 0),
            (0x05, 0x2000_0000),
            (0x0D, 0x0403_0201),
            (0x0D, 0x0807_0605),
            (0x0E, 0),
        ]
    );
    assert_eq!(data, [1, 2, 3, 4, 5, 6, 7, 8]);
}

fn swclk_levels(ops: &[PinOp]) -> Vec<bool> {
    ops.iter().filter_map(|o| if let PinOp::Swclk(b) = o { Some(*b) } else { None }).collect()
}

#[test]
fn transfer_steps_alternate_clock_and_end_high() {
    let swd = Swd::new(config(2, 3));
    for ack in 0u8..8 {
        for request in [0x02u8, 0x0D] {
            let phases = [
                TransferPhase::Start { request, data: 0x1234 },
                TransferPhase::Acknowledged { request, data: 0x1234, ack: ack_bits(ack) },
                TransferPhase::DataRead { bits: word_frame(9) },
            ];
            for (k, phase) in phases.into_iter().enumerate() {
                let (ops, _) = swd.swd_transfer(phase);
                let levels = swclk_levels(&ops);
                assert_eq!(levels.len() % 2, 0);
                for (i, l) in levels.iter().enumerate() {
                    assert_eq!(*l, i % 2 == 1);
                }
                if k == 1 {
                    assert_eq!(ops.last(), Some(&PinOp::Swdio(true)));
                }
            }
        }
    }
}

#[test]
fn swj_sequence_splits_at_byte_boundary() {
    let swd = Swd::new(SwdConfig::default());
    let data = [0xA5u8, 0x3C, 0xFF, 0x01];
    let whole = swd.swj_sequence(27, &data);
    let mut parts = swd.swj_sequence(16, &data[..2]);
    parts.extend(swd.swj_sequence(11, &data[2..]));
    assert_eq!(whole, parts);
}
