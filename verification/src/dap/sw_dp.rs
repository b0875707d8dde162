//! The SW-DP wire protocol: pin waveforms of the SWD primitives, SWJ
//! sequences, and the request / acknowledge / data phases of a transfer.
//!
//! Nothing here touches a pin. Every function returns the pin operations to
//! perform, in order; the levels sampled by `PinOp::Sample` are handed back
//! to `Swd::swd_transfer`, which decides the next phase.
use vstd::prelude::*;
use vstd::arithmetic::div_mod::{lemma_div_denominator, lemma_mod_breakdown};

use crate::config::SwdConfig;
use crate::constant::{DapResponse, DapResult, DapTransfer, response_of_code};

verus! {

/// One elementary action on the SWD pins.
#[derive(Clone, Copy, Debug, PartialEq, Eq)]
pub enum PinOp {
    /// Drive SWCLK high (`true`) or low (`false`).
    Swclk(bool),
    /// Drive SWDIO high (`true`) or low (`false`).
    Swdio(bool),
    /// Drive the target reset line high (`true`) or low (`false`).
    Rst(bool),
    /// Wait half an SWCLK period.
    Delay,
    /// Sample the level of SWDIO; the level is handed back to the protocol.
    Sample,
}

// ---------------------------------------------------------------------------
// Waveforms
// ---------------------------------------------------------------------------

/// One SWCLK period with SWDIO left alone.
pub open spec fn clock_cycle_ops() -> Seq<PinOp> {
    seq![PinOp::Swclk(false), PinOp::Delay, PinOp::Swclk(true), PinOp::Delay]
}

/// The host drives one bit: SWDIO changes while SWCLK is low, the target
/// latches it on the rising edge.
pub open spec fn write_bit_ops(value: bool) -> Seq<PinOp> {
    seq![PinOp::Swclk(false), PinOp::Swdio(value), PinOp::Delay, PinOp::Swclk(true), PinOp::Delay]
}

/// The host reads one bit: SWDIO is sampled while SWCLK is low.
pub open spec fn read_bit_ops() -> Seq<PinOp> {
    seq![PinOp::Swclk(false), PinOp::Delay, PinOp::Sample, PinOp::Swclk(true), PinOp::Delay]
}

/// `n` clock periods.
pub open spec fn clock_cycles_ops(n: nat) -> Seq<PinOp>
    decreases n,
{
    if n == 0 {
        seq![]
    } else {
        clock_cycles_ops((n - 1) as nat) + clock_cycle_ops()
    }
}

/// `n` bits read in a row.
pub open spec fn read_bits_ops(n: nat) -> Seq<PinOp>
    decreases n,
{
    if n == 0 {
        seq![]
    } else {
        read_bits_ops((n - 1) as nat) + read_bit_ops()
    }
}

/// The bits of `bits` written in order.
pub open spec fn write_bits_ops(bits: Seq<bool>) -> Seq<PinOp>
    decreases bits.len(),
{
    if bits.len() == 0 {
        seq![]
    } else {
        write_bits_ops(bits.drop_last()) + write_bit_ops(bits.last())
    }
}

/// One bit of an SWJ sequence: SWDIO is set, then one clock period.
pub open spec fn swj_bit_ops(value: bool) -> Seq<PinOp> {
    seq![PinOp::Swdio(value)] + clock_cycle_ops()
}

/// An SWJ sequence of the bits of `bits`, in order.
pub open spec fn swj_bits_ops(bits: Seq<bool>) -> Seq<PinOp>
    decreases bits.len(),
{
    if bits.len() == 0 {
        seq![]
    } else {
        swj_bits_ops(bits.drop_last()) + swj_bit_ops(bits.last())
    }
}

/// Bit `i` of a byte string, least significant bit of the first byte first.
pub open spec fn byte_string_bit(data: Seq<u8>, i: int) -> bool {
    (data[i / 8] >> ((i % 8) as u8)) & 1u8 == 1u8
}

/// The first `count` bits of `data`, least significant bit of each byte first.
pub open spec fn swj_bits(data: Seq<u8>, count: nat) -> Seq<bool> {
    Seq::new(count, |i: int| byte_string_bit(data, i))
}

/// How many operations of `ops` sample SWDIO.
pub open spec fn sample_count(ops: Seq<PinOp>) -> nat
    decreases ops.len(),
{
    if ops.len() == 0 {
        0
    } else {
        sample_count(ops.drop_last()) + (if ops.last() is Sample { 1nat } else { 0nat })
    }
}

// ---------------------------------------------------------------------------
// Bits and words
// ---------------------------------------------------------------------------

/// 1 for a set bit, 0 for a clear one.
pub open spec fn bit_value(b: bool) -> nat {
    if b {
        1
    } else {
        0
    }
}

/// The number of set bits.
pub open spec fn count_ones(bits: Seq<bool>) -> nat
    decreases bits.len(),
{
    if bits.len() == 0 {
        0
    } else {
        bit_value(bits[0]) + count_ones(bits.drop_first())
    }
}

/// The number that `bits` stand for, least significant bit first.
pub open spec fn bits_value(bits: Seq<bool>) -> nat
    decreases bits.len(),
{
    if bits.len() == 0 {
        0
    } else {
        bit_value(bits[0]) + 2 * bits_value(bits.drop_first())
    }
}

/// 2 to the power `n`.
pub open spec fn two_pow(n: nat) -> nat
    decreases n,
{
    if n == 0 {
        1
    } else {
        2 * two_pow((n - 1) as nat)
    }
}

/// The `n` low bits of `v`, least significant first.
pub open spec fn low_bits(v: nat, n: nat) -> Seq<bool>
    decreases n,
{
    if n == 0 {
        seq![]
    } else {
        seq![v % 2 == 1] + low_bits(v / 2, (n - 1) as nat)
    }
}

/// The 32 bits of a data word in the order SWD sends them.
pub open spec fn word_bits(v: u32) -> Seq<bool> {
    low_bits(v as nat, 32)
}

/// The data phase of a write: the 32 bits of the word and an even-parity bit.
pub open spec fn data_frame(v: u32) -> Seq<bool> {
    word_bits(v).push(count_ones(word_bits(v)) % 2 == 1)
}

/// What a read data phase yields from the 33 bits the target drove: the word
/// carried by the first 32, and a transfer error when the parity bit leaves
/// an odd number of set bits.
pub open spec fn read_outcome(bits: Seq<bool>) -> (u32, DapResult) {
    (
        bits_value(bits.take(32)) as u32,
        if (count_ones(bits.take(32)) + bit_value(bits[32])) % 2 == 1 {
            Err(DapResponse::DapTransferError)
        } else {
            Ok(())
        },
    )
}

// ---------------------------------------------------------------------------
// Request and acknowledge
// ---------------------------------------------------------------------------

/// Bit `i` of a request byte.
pub open spec fn request_bit(request: u8, i: u8) -> bool {
    (request >> i) & 1u8 == 1u8
}

/// The parity of the APnDP, RnW, A2 and A3 bits of a request.
pub open spec fn request_parity(request: u8) -> bool {
    (bit_value(request_bit(request, 0)) + bit_value(request_bit(request, 1)) + bit_value(
        request_bit(request, 2),
    ) + bit_value(request_bit(request, 3))) % 2 == 1
}

/// The eight bits of a request packet: start, APnDP, RnW, A2, A3, parity,
/// stop and park.
pub open spec fn header_bits(request: u8) -> Seq<bool> {
    seq![
        true,
        request_bit(request, 0),
        request_bit(request, 1),
        request_bit(request, 2),
        request_bit(request, 3),
        request_parity(request),
        false,
        true,
    ]
}

/// The acknowledge code carried by the three acknowledge bits, first bit least
/// significant.
pub open spec fn ack_code(ack: Seq<bool>) -> u8 {
    (bit_value(ack[0]) + 2 * bit_value(ack[1]) + 4 * bit_value(ack[2])) as u8
}

/// The response carried by the three acknowledge bits.
pub open spec fn ack_response_of(ack: Seq<bool>) -> DapResponse {
    response_of_code(ack_code(ack))
}

/// An acknowledge that is neither OK, WAIT nor FAULT: a protocol error.
pub open spec fn is_protocol_error(r: DapResponse) -> bool {
    !(r is DapTransferOk || r is DapTransferWait || r is DapTransferFault)
}

// ---------------------------------------------------------------------------
// Transfer phases
// ---------------------------------------------------------------------------

/// Where a transfer stands, with what the target has driven so far.
#[derive(Clone, Copy, Debug, PartialEq, Eq)]
pub enum TransferPhase {
    /// Nothing sent yet.
    Start { request: u8, data: u32 },
    /// The request was sent; the three acknowledge bits sampled after it.
    Acknowledged { request: u8, data: u32, ack: [bool; 3] },
    /// A read was acknowledged OK; the 32 data bits and the parity bit sampled.
    DataRead { bits: [bool; 33] },
}

/// What follows the pin operations of a transfer phase.
#[derive(Clone, Copy, Debug, PartialEq, Eq)]
pub enum TransferNext {
    /// The operations end with three samples: the acknowledge bits.
    AwaitAck,
    /// The operations begin with 33 samples: the data bits and parity.
    AwaitData,
    /// After the operations the transfer is over. `data` is the transfer's
    /// data word afterwards (the word read, even when its parity fails;
    /// otherwise the word handed in), `result` its verdict.
    Complete { data: u32, result: DapResult },
}

/// The idle phase after a data phase: SWDIO low for `n` clock periods, if any.
pub open spec fn idle_ops(n: u32) -> Seq<PinOp> {
    if n == 0 {
        seq![]
    } else {
        seq![PinOp::Swdio(false)] + clock_cycles_ops(n as nat)
    }
}

/// The operations of the request phase: the packet, the turnaround, and the
/// three acknowledge bits read.
pub open spec fn request_phase_ops(cfg: SwdConfig, request: u8) -> Seq<PinOp> {
    write_bits_ops(header_bits(request)) + clock_cycles_ops(cfg.turnaround as nat) + read_bits_ops(
        3,
    )
}

/// What follows an acknowledge: the operations to perform and what comes next.
///
/// OK to a read (RnW, bit 1 of the request, set): 33 bits are read, then
/// turnaround, idle cycles and SWDIO high. OK to a write: turnaround, the data frame, idle cycles and SWDIO high,
/// and the transfer succeeds. WAIT or FAULT: turnaround and SWDIO high, and the
/// transfer fails with that response. Anything else: turnaround plus 33 clock
/// periods and SWDIO high, and the transfer fails with that response.
pub open spec fn acknowledged_step(cfg: SwdConfig, request: u8, data: u32, ack: Seq<bool>) -> (
    Seq<PinOp>,
    TransferNext,
) {
    let resp = ack_response_of(ack);
    let t = cfg.turnaround as nat;
    if resp is DapTransferOk {
        if request & 2u8 != 0 {
            (
                read_bits_ops(33) + clock_cycles_ops(t) + idle_ops(cfg.idle_cycles) + seq![
                    PinOp::Swdio(true),
                ],
                TransferNext::AwaitData,
            )
        } else {
            (
                clock_cycles_ops(t) + write_bits_ops(data_frame(data)) + idle_ops(cfg.idle_cycles)
                    + seq![PinOp::Swdio(true)],
                TransferNext::Complete { data, result: Ok(()) },
            )
        }
    } else if resp is DapTransferWait || resp is DapTransferFault {
        (
            clock_cycles_ops(t) + seq![PinOp::Swdio(true)],
            TransferNext::Complete { data, result: Err(resp) },
        )
    } else {
        (
            clock_cycles_ops(t + 33) + seq![PinOp::Swdio(true)],
            TransferNext::Complete { data, result: Err(resp) },
        )
    }
}

/// The result of one step of a transfer.
pub open spec fn transfer_step(cfg: SwdConfig, phase: TransferPhase) -> (Seq<PinOp>, TransferNext) {
    match phase {
        TransferPhase::Start { request, data } => (
            request_phase_ops(cfg, request),
            TransferNext::AwaitAck,
        ),
        TransferPhase::Acknowledged { request, data, ack } => acknowledged_step(
            cfg,
            request,
            data,
            ack@,
        ),
        TransferPhase::DataRead { bits } => (
            seq![],
            TransferNext::Complete { data: read_outcome(bits@).0, result: read_outcome(bits@).1 },
        ),
    }
}

/// The phases that `swd_transfer` can take: a protocol error is followed by
/// `turnaround + 33` clock periods, a count that has to fit in a `u32`.
pub open spec fn transfer_phase_fits(cfg: SwdConfig, phase: TransferPhase) -> bool {
    phase matches TransferPhase::Acknowledged { ack, .. } && is_protocol_error(
        ack_response_of(ack@),
    ) ==> cfg.turnaround + 33 <= u32::MAX
}

// ---------------------------------------------------------------------------
// The SW-DP
// ---------------------------------------------------------------------------

/// An SW-DP link: its parameters, and whether a reset line is wired.
#[derive(Clone, Copy, Debug)]
pub struct Swd {
    pub config: SwdConfig,
    pub rst: bool,
}

/// The pin levels set by `Swd::setup`: SWDIO and SWCLK high, and the reset
/// line high when one is wired.
pub open spec fn setup_ops(rst: bool) -> Seq<PinOp> {
    seq![PinOp::Swdio(true), PinOp::Swclk(true)] + if rst {
        seq![PinOp::Rst(true)]
    } else {
        seq![]
    }
}

/// The pin levels set by `Swd::shutdown`: the reset line low, when one is wired.
pub open spec fn shutdown_ops(rst: bool) -> Seq<PinOp> {
    if rst {
        seq![PinOp::Rst(false)]
    } else {
        seq![]
    }
}

fn push_clock_cycle(ops: &mut Vec<PinOp>)
    ensures
        final(ops)@ == old(ops)@ + clock_cycle_ops(),
{
    ops.push(PinOp::Swclk(false));
    ops.push(PinOp::Delay);
    ops.push(PinOp::Swclk(true));
    ops.push(PinOp::Delay);
    assert(ops@ =~= old(ops)@ + clock_cycle_ops());
}

fn push_write_bit(ops: &mut Vec<PinOp>, value: bool)
    ensures
        final(ops)@ == old(ops)@ + write_bit_ops(value),
{
    ops.push(PinOp::Swclk(false));
    ops.push(PinOp::Swdio(value));
    ops.push(PinOp::Delay);
    ops.push(PinOp::Swclk(true));
    ops.push(PinOp::Delay);
    assert(ops@ =~= old(ops)@ + write_bit_ops(value));
}

fn push_read_bit(ops: &mut Vec<PinOp>)
    ensures
        final(ops)@ == old(ops)@ + read_bit_ops(),
{
    ops.push(PinOp::Swclk(false));
    ops.push(PinOp::Delay);
    ops.push(PinOp::Sample);
    ops.push(PinOp::Swclk(true));
    ops.push(PinOp::Delay);
    assert(ops@ =~= old(ops)@ + read_bit_ops());
}

fn push_clock_cycles(ops: &mut Vec<PinOp>, n: u64)
    ensures
        final(ops)@ == old(ops)@ + clock_cycles_ops(n as nat),
{
    let ghost start = ops@;
    let mut i: u64 = 0;
    assert(start =~= start + clock_cycles_ops(0));
    while i < n
        invariant
            i <= n,
            ops@ == start + clock_cycles_ops(i as nat),
        decreases n - i,
    {
        push_clock_cycle(ops);
        assert(start + clock_cycles_ops((i + 1) as nat) =~= start + clock_cycles_ops(i as nat)
            + clock_cycle_ops());
        i = i + 1;
    }
}

fn push_read_bits(ops: &mut Vec<PinOp>, n: u64)
    ensures
        final(ops)@ == old(ops)@ + read_bits_ops(n as nat),
{
    let ghost start = ops@;
    let mut i: u64 = 0;
    assert(start =~= start + read_bits_ops(0));
    while i < n
        invariant
            i <= n,
            ops@ == start + read_bits_ops(i as nat),
        decreases n - i,
    {
        push_read_bit(ops);
        assert(start + read_bits_ops((i + 1) as nat) =~= start + read_bits_ops(i as nat)
            + read_bit_ops());
        i = i + 1;
    }
}

/// Writing one more bit extends the written sequence by that bit.
proof fn lemma_write_bits_push(start: Seq<PinOp>, bits: Seq<bool>, b: bool)
    ensures
        start + write_bits_ops(bits) + write_bit_ops(b) == start + write_bits_ops(bits.push(b)),
{
    assert(bits.push(b).drop_last() =~= bits);
    assert(start + write_bits_ops(bits) + write_bit_ops(b) =~= start + write_bits_ops(
        bits.push(b),
    ));
}

/// Pushes the eight bits of a request packet.
fn push_request(ops: &mut Vec<PinOp>, request: u8)
    ensures
        final(ops)@ == old(ops)@ + write_bits_ops(header_bits(request)),
{
    let ghost start = ops@;
    let b0 = (request >> 0u8) & 1 == 1;
    let b1 = (request >> 1u8) & 1 == 1;
    let b2 = (request >> 2u8) & 1 == 1;
    let b3 = (request >> 3u8) & 1 == 1;
    let mut parity: u32 = 0;
    if b0 {
        parity += 1;
    }
    if b1 {
        parity += 1;
    }
    if b2 {
        parity += 1;
    }
    if b3 {
        parity += 1;
    }
    let p = parity % 2 == 1;
    assert(p == request_parity(request));
    let ghost h = header_bits(request);
    assert(start =~= start + write_bits_ops(h.take(0)));
    push_write_bit(ops, true);
    proof { lemma_write_bits_push(start, h.take(0), h[0]); assert(h.take(0).push(h[0]) =~= h.take(1)); }
    push_write_bit(ops, b0);
    proof { lemma_write_bits_push(start, h.take(1), h[1]); assert(h.take(1).push(h[1]) =~= h.take(2)); }
    push_write_bit(ops, b1);
    proof { lemma_write_bits_push(start, h.take(2), h[2]); assert(h.take(2).push(h[2]) =~= h.take(3)); }
    push_write_bit(ops, b2);
    proof { lemma_write_bits_push(start, h.take(3), h[3]); assert(h.take(3).push(h[3]) =~= h.take(4)); }
    push_write_bit(ops, b3);
    proof { lemma_write_bits_push(start, h.take(4), h[4]); assert(h.take(4).push(h[4]) =~= h.take(5)); }
    push_write_bit(ops, p);
    proof { lemma_write_bits_push(start, h.take(5), h[5]); assert(h.take(5).push(h[5]) =~= h.take(6)); }
    push_write_bit(ops, false);
    proof { lemma_write_bits_push(start, h.take(6), h[6]); assert(h.take(6).push(h[6]) =~= h.take(7)); }
    push_write_bit(ops, true);
    proof { lemma_write_bits_push(start, h.take(7), h[7]); assert(h.take(7).push(h[7]) =~= h); }
}

proof fn lemma_low_bit(v: u32)
    by (bit_vector)
    ensures
        (v & 1 != 0) == (v % 2 == 1),
        v >> 1 == v / 2,
{
}

/// One step of `low_bits`: the first bit, then the bits of the half.
proof fn lemma_low_bits_unfold(v: nat, n: nat)
    requires
        n > 0,
    ensures
        low_bits(v, n) == seq![v % 2 == 1] + low_bits(v / 2, (n - 1) as nat),
        low_bits(v, n).drop_first() == low_bits(v / 2, (n - 1) as nat),
        low_bits(v, n)[0] == (v % 2 == 1),
        count_ones(low_bits(v, n)) == bit_value(v % 2 == 1) + count_ones(
            low_bits(v / 2, (n - 1) as nat),
        ),
{
    assert(low_bits(v, n).drop_first() =~= low_bits(v / 2, (n - 1) as nat));
}

/// Pushes the data phase of a write: the 32 bits of `data`, least significant
/// first, then the parity bit.
fn push_data_frame(ops: &mut Vec<PinOp>, data: u32)
    ensures
        final(ops)@ == old(ops)@ + write_bits_ops(data_frame(data)),
{
    let ghost start = ops@;
    let ghost mut sent: Seq<bool> = seq![];
    let mut val: u32 = data;
    let mut parity: u32 = 0;
    let mut i: u32 = 0;
    assert(start =~= start + write_bits_ops(sent));
    assert(sent + low_bits(val as nat, 32) =~= word_bits(data));
    while i < 32
        invariant
            i <= 32,
            sent.len() == i,
            ops@ == start + write_bits_ops(sent),
            sent + low_bits(val as nat, (32 - i) as nat) == word_bits(data),
            parity + count_ones(low_bits(val as nat, (32 - i) as nat)) == count_ones(
                word_bits(data),
            ),
            parity <= i,
        decreases 32 - i,
    {
        proof {
            lemma_low_bit(val);
            lemma_low_bits_unfold(val as nat, (32 - i) as nat);
        }
        let b = val & 1 != 0;
        push_write_bit(ops, b);
        proof {
            lemma_write_bits_push(start, sent, b);
            assert(sent.push(b) + low_bits((val / 2) as nat, (32 - i - 1) as nat) =~= sent
                + low_bits(val as nat, (32 - i) as nat));
            sent = sent.push(b);
        }
        if val & 1 != 0 {
            parity += 1;
        }
        val >>= 1;
        i += 1;
    }
    assert(low_bits(val as nat, 0) =~= Seq::<bool>::empty());
    assert(sent =~= word_bits(data));
    let p = parity % 2 != 0;
    push_write_bit(ops, p);
    proof {
        lemma_write_bits_push(start, sent, p);
    }
}


proof fn lemma_two_pow_pos(n: nat)
    ensures
        two_pow(n) > 0,
    decreases n,
{
    if n > 0 {
        lemma_two_pow_pos((n - 1) as nat);
    }
}

proof fn lemma_two_pow_mono(a: nat, b: nat)
    requires
        a <= b,
    ensures
        two_pow(a) <= two_pow(b),
    decreases b,
{
    if a < b {
        lemma_two_pow_mono(a, (b - 1) as nat);
        lemma_two_pow_pos((b - 1) as nat);
    }
}

proof fn lemma_two_pow_32()
    ensures
        two_pow(32) == 0x1_0000_0000,
{
    reveal_with_fuel(two_pow, 33);
}

/// A sequence of `n` bits stands for a number below `2^n`.
proof fn lemma_bits_value_bound(bits: Seq<bool>)
    ensures
        bits_value(bits) < two_pow(bits.len()),
    decreases bits.len(),
{
    if bits.len() > 0 {
        lemma_bits_value_bound(bits.drop_first());
    }
}

/// Decodes the 33 bits a target drove in a read data phase: the word they
/// carry, and a transfer error when their parity is odd.
pub fn read_data_bits(bits: &[bool; 33]) -> (r: (u32, DapResult))
    ensures
        r == read_outcome(bits@),
{
    let mut val: u32 = 0;
    let mut parity: u32 = 0;
    let mut i: usize = 32;
    assert(bits@.subrange(32, 32) =~= Seq::<bool>::empty());
    while i > 0
        invariant
            i <= 32,
            bits@.len() == 33,
            val as nat == bits_value(bits@.subrange(i as int, 32)),
            parity as nat == count_ones(bits@.subrange(i as int, 32)),
            parity <= 32 - i,
        decreases i,
    {
        i -= 1;
        let b = bits[i];
        let ghost sub = bits@.subrange(i as int, 32);
        proof {
            assert(sub.drop_first() =~= bits@.subrange(i + 1, 32));
            lemma_bits_value_bound(sub);
            lemma_two_pow_mono(sub.len(), 32);
            lemma_two_pow_32();
        }
        let inc: u32 = if b {
            1
        } else {
            0
        };
        val = val * 2 + inc;
        parity = parity + inc;
    }
    assert(bits@.subrange(0, 32) =~= bits@.take(32));
    let pbit: u32 = if bits[32] {
        1
    } else {
        0
    };
    if (parity + pbit) % 2 == 1 {
        (val, Err(DapResponse::DapTransferError))
    } else {
        (val, Ok(()))
    }
}

/// The response carried by the three acknowledge bits of a transfer, the first
/// bit sampled being the least significant.
pub fn ack_response(ack: &[bool; 3]) -> (r: DapResponse)
    ensures
        r == ack_response_of(ack@),
{
    let a0: u8 = if ack[0] {
        1
    } else {
        0
    };
    let a1: u8 = if ack[1] {
        1
    } else {
        0
    };
    let a2: u8 = if ack[2] {
        1
    } else {
        0
    };
    let code: u8 = a0 + 2 * a1 + 4 * a2;
    DapResponse::from(code)
}

impl Swd {
    /// A link with the given parameters and a wired reset line.
    pub fn new(config: SwdConfig) -> (s: Self)
        ensures
            s.config == config,
            s.rst,
    {
        Self { config, rst: true }
    }

    /// The pin levels of an idle link: SWDIO and SWCLK high, reset released.
    pub fn setup(&self) -> (ops: Vec<PinOp>)
        ensures
            ops@ == setup_ops(self.rst),
    {
        let mut ops = Vec::new();
        ops.push(PinOp::Swdio(true));
        ops.push(PinOp::Swclk(true));
        if self.rst {
            ops.push(PinOp::Rst(true));
        }
        assert(ops@ =~= setup_ops(self.rst));
        ops
    }

    /// Holds the target in reset.
    pub fn shutdown(&self) -> (ops: Vec<PinOp>)
        ensures
            ops@ == shutdown_ops(self.rst),
    {
        let mut ops = Vec::new();
        if self.rst {
            ops.push(PinOp::Rst(false));
        }
        assert(ops@ =~= shutdown_ops(self.rst));
        ops
    }

    /// One SWCLK period.
    pub fn sw_clock_cycle(&self) -> (ops: Vec<PinOp>)
        ensures
            ops@ == clock_cycle_ops(),
    {
        let mut ops = Vec::new();
        push_clock_cycle(&mut ops);
        ops
    }

    /// One bit driven by the host.
    pub fn sw_write_bit(&self, value: bool) -> (ops: Vec<PinOp>)
        ensures
            ops@ == write_bit_ops(value),
    {
        let mut ops = Vec::new();
        push_write_bit(&mut ops, value);
        ops
    }

    /// One bit read from the target.
    pub fn sw_read_bit(&self) -> (ops: Vec<PinOp>)
        ensures
            ops@ == read_bit_ops(),
    {
        let mut ops = Vec::new();
        push_read_bit(&mut ops);
        ops
    }

    /// An SWJ sequence: the first `count` bits of `data`, least significant bit
    /// of each byte first, each set on SWDIO and clocked once.
    pub fn swj_sequence(&self, count: u32, data: &[u8]) -> (ops: Vec<PinOp>)
        requires
            count <= 8 * data@.len(),
        ensures
            ops@ == swj_bits_ops(swj_bits(data@, count as nat)),
    {
        let mut ops = Vec::new();
        let mut i: u32 = 0;
        assert(ops@ =~= swj_bits_ops(swj_bits(data@, 0)));
        while i < count
            invariant
                i <= count,
                count <= 8 * data@.len(),
                ops@ == swj_bits_ops(swj_bits(data@, i as nat)),
            decreases count - i,
        {
            let byte = data[(i / 8) as usize];
            let bit = (byte >> ((i % 8) as u8)) & 1 == 1;
            let ghost before = ops@;
            ops.push(PinOp::Swdio(bit));
            push_clock_cycle(&mut ops);
            proof {
                let next = swj_bits(data@, (i + 1) as nat);
                assert(next.drop_last() =~= swj_bits(data@, i as nat));
                assert(next.last() == bit);
                assert(ops@ =~= before + swj_bit_ops(bit));
            }
            i += 1;
        }
        ops
    }

    /// One step of an SWD transfer.
    ///
    /// `Start` gives the request packet, the turnaround and the three
    /// acknowledge reads. `Acknowledged` gives what the acknowledge calls for
    /// (see `acknowledged_step`). `DataRead` gives the outcome of a read: its
    /// word, or a transfer error when the parity does not match.
    pub fn swd_transfer(&self, phase: TransferPhase) -> (res: (Vec<PinOp>, TransferNext))
        requires
            transfer_phase_fits(self.config, phase),
        ensures
            res.0@ == transfer_step(self.config, phase).0,
            res.1 == transfer_step(self.config, phase).1,
    {
        match phase {
            TransferPhase::Start { request, data } => {
                let mut ops = Vec::new();
                push_request(&mut ops, request);
                push_clock_cycles(&mut ops, self.config.turnaround as u64);
                push_read_bits(&mut ops, 3);
                assert(ops@ =~= request_phase_ops(self.config, request));
                (ops, TransferNext::AwaitAck)
            },
            TransferPhase::Acknowledged { request, data, ack } => {
                let resp = ack_response(&ack);
                let mut ops = Vec::new();
                match resp {
                    DapResponse::DapTransferOk => {
                        if request & DapTransfer::RnW.mask() != 0 {
                            // read data, then turnaround
                            push_read_bits(&mut ops, 33);
                            push_clock_cycles(&mut ops, self.config.turnaround as u64);
                            self.push_idle(&mut ops);
                            ops.push(PinOp::Swdio(true));
                            assert(ops@ =~= acknowledged_step(self.config, request, data, ack@).0);
                            (ops, TransferNext::AwaitData)
                        } else {
                            // turnaround, then write data
                            push_clock_cycles(&mut ops, self.config.turnaround as u64);
                            push_data_frame(&mut ops, data);
                            self.push_idle(&mut ops);
                            ops.push(PinOp::Swdio(true));
                            assert(ops@ =~= acknowledged_step(self.config, request, data, ack@).0);
                            (ops, TransferNext::Complete { data, result: Ok(()) })
                        }
                    },
                    DapResponse::DapTransferWait | DapResponse::DapTransferFault => {
                        push_clock_cycles(&mut ops, self.config.turnaround as u64);
                        ops.push(PinOp::Swdio(true));
                        assert(ops@ =~= acknowledged_step(self.config, request, data, ack@).0);
                        (ops, TransferNext::Complete { data, result: Err(resp) })
                    },
                    _ => {
                        // protocol error: clock out the rest of the frame
                        push_clock_cycles(&mut ops, (self.config.turnaround + 32 + 1) as u64);
                        ops.push(PinOp::Swdio(true));
                        assert(ops@ =~= acknowledged_step(self.config, request, data, ack@).0);
                        (ops, TransferNext::Complete { data, result: Err(resp) })
                    },
                }
            },
            TransferPhase::DataRead { bits } => {
                let (word, result) = read_data_bits(&bits);
                (Vec::new(), TransferNext::Complete { data: word, result })
            },
        }
    }

    fn push_idle(&self, ops: &mut Vec<PinOp>)
        ensures
            final(ops)@ == old(ops)@ + idle_ops(self.config.idle_cycles),
    {
        let n = self.config.idle_cycles;
        if n != 0 {
            ops.push(PinOp::Swdio(false));
            push_clock_cycles(ops, n as u64);
            assert(ops@ =~= old(ops)@ + idle_ops(self.config.idle_cycles));
        } else {
            assert(ops@ =~= old(ops)@ + idle_ops(self.config.idle_cycles));
        }
    }
}


// ---------------------------------------------------------------------------
// Laws
// ---------------------------------------------------------------------------

/// A request packet starts with a set bit, ends with a clear stop bit and a
/// set park bit, and its parity bit makes the number of set bits among APnDP,
/// RnW, A2, A3 and parity even.
pub proof fn lemma_header_parity(request: u8)
    ensures
        header_bits(request).len() == 8,
        header_bits(request)[0],
        !header_bits(request)[6],
        header_bits(request)[7],
        count_ones(header_bits(request).subrange(1, 6)) % 2 == 0,
{
    let h = header_bits(request);
    let s = h.subrange(1, 6);
    reveal_with_fuel(count_ones, 6);
    assert(s.drop_first() =~= h.subrange(2, 6));
    assert(s.drop_first().drop_first() =~= h.subrange(3, 6));
    assert(s.drop_first().drop_first().drop_first() =~= h.subrange(4, 6));
    assert(s.drop_first().drop_first().drop_first().drop_first() =~= h.subrange(5, 6));
    assert(h.subrange(5, 6).drop_first() =~= Seq::<bool>::empty());
}

proof fn lemma_bits_value_low_bits(x: nat, n: nat)
    ensures
        bits_value(low_bits(x, n)) == x % two_pow(n),
    decreases n,
{
    if n > 0 {
        lemma_low_bits_unfold(x, n);
        lemma_bits_value_low_bits(x / 2, (n - 1) as nat);
        lemma_two_pow_pos((n - 1) as nat);
        lemma_mod_breakdown(x as int, 2, two_pow((n - 1) as nat) as int);
    }
}

proof fn lemma_low_bits_len(x: nat, n: nat)
    ensures
        low_bits(x, n).len() == n,
    decreases n,
{
    if n > 0 {
        lemma_low_bits_len(x / 2, (n - 1) as nat);
    }
}

/// What a write puts on the wire is what a read takes off it: decoding the
/// data frame of any word gives the word back, and its parity checks.
pub proof fn lemma_data_round_trip(v: u32)
    ensures
        data_frame(v).len() == 33,
        data_frame(v).take(32) == word_bits(v),
        read_outcome(data_frame(v)) == (v, Ok::<(), DapResponse>(())),
{
    lemma_low_bits_len(v as nat, 32);
    assert(data_frame(v).take(32) =~= word_bits(v));
    lemma_bits_value_low_bits(v as nat, 32);
    lemma_two_pow_32();
}

proof fn lemma_count_ones_flip(s: Seq<bool>, i: int)
    requires
        0 <= i < s.len(),
    ensures
        count_ones(s.update(i, !s[i])) + bit_value(s[i]) == count_ones(s) + bit_value(!s[i]),
    decreases s.len(),
{
    let f = s.update(i, !s[i]);
    if i == 0 {
        assert(f.drop_first() =~= s.drop_first());
    } else {
        assert(f.drop_first() =~= s.drop_first().update(i - 1, !s[i]));
        lemma_count_ones_flip(s.drop_first(), i - 1);
    }
}

/// The parity bit catches every single-bit error: a data frame with any one of
/// its 33 bits flipped decodes to a transfer error.
pub proof fn lemma_single_bit_error_detected(v: u32, i: int)
    requires
        0 <= i < 33,
    ensures
        read_outcome(data_frame(v).update(i, !data_frame(v)[i])).1 == Err::<(), DapResponse>(
            DapResponse::DapTransferError,
        ),
{
    lemma_data_round_trip(v);
    let f = data_frame(v);
    let g = f.update(i, !f[i]);
    let c = count_ones(word_bits(v));
    assert(f[32] == (c % 2 == 1));
    if i < 32 {
        assert(g.take(32) =~= f.take(32).update(i, !f[i]));
        lemma_count_ones_flip(f.take(32), i);
        assert(g[32] == f[32]);
    } else {
        assert(g.take(32) =~= f.take(32));
    }
}

proof fn lemma_sample_count_add(a: Seq<PinOp>, b: Seq<PinOp>)
    ensures
        sample_count(a + b) == sample_count(a) + sample_count(b),
    decreases b.len(),
{
    if b.len() == 0 {
        assert(a + b =~= a);
    } else {
        assert((a + b).drop_last() =~= a + b.drop_last());
        lemma_sample_count_add(a, b.drop_last());
    }
}

proof fn lemma_sample_count_clocks(n: nat)
    ensures
        sample_count(clock_cycles_ops(n)) == 0,
    decreases n,
{
    reveal_with_fuel(sample_count, 5);
    if n > 0 {
        lemma_sample_count_clocks((n - 1) as nat);
        lemma_sample_count_add(clock_cycles_ops((n - 1) as nat), clock_cycle_ops());
    }
}

proof fn lemma_sample_count_reads(n: nat)
    ensures
        sample_count(read_bits_ops(n)) == n,
    decreases n,
{
    reveal_with_fuel(sample_count, 6);
    if n > 0 {
        lemma_sample_count_reads((n - 1) as nat);
        lemma_sample_count_add(read_bits_ops((n - 1) as nat), read_bit_ops());
    }
}

proof fn lemma_sample_count_writes(bits: Seq<bool>)
    ensures
        sample_count(write_bits_ops(bits)) == 0,
    decreases bits.len(),
{
    reveal_with_fuel(sample_count, 6);
    if bits.len() > 0 {
        lemma_sample_count_writes(bits.drop_last());
        lemma_sample_count_add(write_bits_ops(bits.drop_last()), write_bit_ops(bits.last()));
    }
}

proof fn lemma_sample_count_idle(n: u32)
    ensures
        sample_count(idle_ops(n)) == 0,
{
    reveal_with_fuel(sample_count, 2);
    lemma_sample_count_clocks(n as nat);
    if n != 0 {
        lemma_sample_count_add(seq![PinOp::Swdio(false)], clock_cycles_ops(n as nat));
    }
}

/// Each step of a transfer samples SWDIO exactly as often as its next phase
/// needs: three times for the acknowledge, 33 times for read data, never when
/// the transfer completes.
pub proof fn lemma_transfer_samples(cfg: SwdConfig, phase: TransferPhase)
    ensures
        transfer_step(cfg, phase).1 is AwaitAck ==> sample_count(transfer_step(cfg, phase).0) == 3,
        transfer_step(cfg, phase).1 is AwaitData ==> sample_count(transfer_step(cfg, phase).0)
            == 33,
        transfer_step(cfg, phase).1 is Complete ==> sample_count(transfer_step(cfg, phase).0) == 0,
{
    let t = cfg.turnaround as nat;
    let high = seq![PinOp::Swdio(true)];
    assert(sample_count(high) == 0) by {
        reveal_with_fuel(sample_count, 2);
    }
    assert(sample_count(Seq::<PinOp>::empty()) == 0);
    lemma_sample_count_clocks(t);
    lemma_sample_count_clocks(t + 33);
    lemma_sample_count_reads(3);
    lemma_sample_count_reads(33);
    lemma_sample_count_idle(cfg.idle_cycles);
    match phase {
        TransferPhase::Start { request, data } => {
            lemma_sample_count_writes(header_bits(request));
            lemma_sample_count_add(write_bits_ops(header_bits(request)), clock_cycles_ops(t));
            lemma_sample_count_add(
                write_bits_ops(header_bits(request)) + clock_cycles_ops(t),
                read_bits_ops(3),
            );
        },
        TransferPhase::Acknowledged { request, data, ack } => {
            lemma_sample_count_writes(data_frame(data));
            let a = read_bits_ops(33);
            lemma_sample_count_add(a, clock_cycles_ops(t));
            lemma_sample_count_add(a + clock_cycles_ops(t), idle_ops(cfg.idle_cycles));
            lemma_sample_count_add(a + clock_cycles_ops(t) + idle_ops(cfg.idle_cycles), high);
            let w = clock_cycles_ops(t);
            lemma_sample_count_add(w, write_bits_ops(data_frame(data)));
            lemma_sample_count_add(w + write_bits_ops(data_frame(data)), idle_ops(cfg.idle_cycles));
            lemma_sample_count_add(
                w + write_bits_ops(data_frame(data)) + idle_ops(cfg.idle_cycles),
                high,
            );
            lemma_sample_count_add(w, high);
            lemma_sample_count_add(clock_cycles_ops(t + 33), high);
        },
        TransferPhase::DataRead { bits } => {},
    }
}


/// A word written reads back: the data frame that a write transfer of `v`
/// acknowledged OK drives on SWDIO, once sampled by the data phase of a read
/// transfer, completes that read with the word `v` and no error.
pub proof fn lemma_written_word_reads_back(
    cfg: SwdConfig,
    request: u8,
    v: u32,
    ack: [bool; 3],
    bits: [bool; 33],
)
    requires
        ack_response_of(ack@) is DapTransferOk,
        request & 2u8 == 0,
        bits@ == data_frame(v),
    ensures
        transfer_step(cfg, TransferPhase::Acknowledged { request, data: v, ack }).0
            == clock_cycles_ops(cfg.turnaround as nat) + write_bits_ops(bits@) + idle_ops(
            cfg.idle_cycles,
        ) + seq![PinOp::Swdio(true)],
        transfer_step(cfg, TransferPhase::DataRead { bits }).1 == (TransferNext::Complete {
            data: v,
            result: Ok(()),
        }),
{
    lemma_data_round_trip(v);
}


/// The levels driven on SWCLK by `ops`, in order.
pub open spec fn swclk_levels(ops: Seq<PinOp>) -> Seq<bool>
    decreases ops.len(),
{
    if ops.len() == 0 {
        seq![]
    } else {
        swclk_levels(ops.drop_last()) + match ops.last() {
            PinOp::Swclk(b) => seq![b],
            _ => seq![],
        }
    }
}

/// SWCLK levels that alternate low, high, low, high, ..., ending high.
pub open spec fn alternates_from_low(levels: Seq<bool>) -> bool {
    &&& levels.len() % 2 == 0
    &&& forall|i: int| 0 <= i < levels.len() ==> #[trigger] levels[i] == (i % 2 == 1)
}

/// `n` low-then-high SWCLK pairs.
pub open spec fn clock_pairs(n: nat) -> Seq<bool>
    decreases n,
{
    if n == 0 {
        seq![]
    } else {
        clock_pairs((n - 1) as nat) + seq![false, true]
    }
}

proof fn lemma_clock_pairs_add(m: nat, n: nat)
    ensures
        clock_pairs(m) + clock_pairs(n) == clock_pairs(m + n),
    decreases n,
{
    if n == 0 {
        assert(clock_pairs(m) + clock_pairs(0) =~= clock_pairs(m));
    } else {
        lemma_clock_pairs_add(m, (n - 1) as nat);
        assert(clock_pairs(m) + clock_pairs(n) =~= clock_pairs(m) + clock_pairs((n - 1) as nat)
            + seq![false, true]);
    }
}

proof fn lemma_clock_pairs_alternate(n: nat)
    ensures
        clock_pairs(n).len() == 2 * n,
        alternates_from_low(clock_pairs(n)),
    decreases n,
{
    if n > 0 {
        lemma_clock_pairs_alternate((n - 1) as nat);
        let p = clock_pairs(n);
        assert forall|i: int| 0 <= i < p.len() implies #[trigger] p[i] == (i % 2 == 1) by {
            if i < 2 * (n - 1) {
                assert(p[i] == clock_pairs((n - 1) as nat)[i]);
            }
        }
    }
}

proof fn lemma_swclk_levels_add(a: Seq<PinOp>, b: Seq<PinOp>)
    ensures
        swclk_levels(a + b) == swclk_levels(a) + swclk_levels(b),
    decreases b.len(),
{
    if b.len() == 0 {
        assert(a + b =~= a);
        assert(swclk_levels(a) + swclk_levels(b) =~= swclk_levels(a));
    } else {
        assert((a + b).drop_last() =~= a + b.drop_last());
        lemma_swclk_levels_add(a, b.drop_last());
        assert(swclk_levels(a + b) =~= swclk_levels(a) + swclk_levels(b));
    }
}

proof fn lemma_swclk_one_period()
    ensures
        swclk_levels(clock_cycle_ops()) == clock_pairs(1),
        swclk_levels(read_bit_ops()) == clock_pairs(1),
        forall|b: bool| swclk_levels(#[trigger] write_bit_ops(b)) == clock_pairs(1),
        swclk_levels(seq![PinOp::Swdio(true)]) == Seq::<bool>::empty(),
        swclk_levels(seq![PinOp::Swdio(false)]) == Seq::<bool>::empty(),
{
    reveal_with_fuel(swclk_levels, 6);
    reveal_with_fuel(clock_pairs, 2);
    assert(swclk_levels(clock_cycle_ops()) =~= clock_pairs(1));
    assert(swclk_levels(read_bit_ops()) =~= clock_pairs(1));
    assert forall|b: bool| swclk_levels(#[trigger] write_bit_ops(b)) == clock_pairs(1) by {
        assert(swclk_levels(write_bit_ops(b)) =~= clock_pairs(1));
    }
    assert(swclk_levels(seq![PinOp::Swdio(true)]) =~= Seq::<bool>::empty());
    assert(swclk_levels(seq![PinOp::Swdio(false)]) =~= Seq::<bool>::empty());
}

proof fn lemma_swclk_clocks(n: nat)
    ensures
        swclk_levels(clock_cycles_ops(n)) == clock_pairs(n),
    decreases n,
{
    if n == 0 {
        assert(swclk_levels(clock_cycles_ops(0)) =~= clock_pairs(0));
    } else {
        lemma_swclk_clocks((n - 1) as nat);
        lemma_swclk_one_period();
        lemma_swclk_levels_add(clock_cycles_ops((n - 1) as nat), clock_cycle_ops());
        lemma_clock_pairs_add((n - 1) as nat, 1);
    }
}

proof fn lemma_swclk_reads(n: nat)
    ensures
        swclk_levels(read_bits_ops(n)) == clock_pairs(n),
    decreases n,
{
    if n == 0 {
        assert(swclk_levels(read_bits_ops(0)) =~= clock_pairs(0));
    } else {
        lemma_swclk_reads((n - 1) as nat);
        lemma_swclk_one_period();
        lemma_swclk_levels_add(read_bits_ops((n - 1) as nat), read_bit_ops());
        lemma_clock_pairs_add((n - 1) as nat, 1);
    }
}

proof fn lemma_swclk_writes(bits: Seq<bool>)
    ensures
        swclk_levels(write_bits_ops(bits)) == clock_pairs(bits.len()),
    decreases bits.len(),
{
    if bits.len() == 0 {
        assert(swclk_levels(write_bits_ops(bits)) =~= clock_pairs(0));
    } else {
        lemma_swclk_writes(bits.drop_last());
        lemma_swclk_one_period();
        lemma_swclk_levels_add(write_bits_ops(bits.drop_last()), write_bit_ops(bits.last()));
        lemma_clock_pairs_add((bits.len() - 1) as nat, 1);
    }
}

proof fn lemma_swclk_idle(n: u32)
    ensures
        swclk_levels(idle_ops(n)) == clock_pairs(n as nat),
{
    lemma_swclk_clocks(n as nat);
    if n == 0 {
        assert(swclk_levels(idle_ops(n)) =~= clock_pairs(0));
    } else {
        lemma_swclk_one_period();
        lemma_swclk_levels_add(seq![PinOp::Swdio(false)], clock_cycles_ops(n as nat));
        assert(Seq::<bool>::empty() + clock_pairs(n as nat) =~= clock_pairs(n as nat));
    }
}

/// The clock and idle levels of a transfer: within every step SWCLK goes low
/// then high, period after period, so each step starts by pulling it low and
/// leaves it high; and the step that follows the acknowledge, which ends every
/// transfer on the wire, leaves SWDIO driven high.
pub proof fn lemma_transfer_idle_levels(cfg: SwdConfig, phase: TransferPhase)
    ensures
        alternates_from_low(swclk_levels(transfer_step(cfg, phase).0)),
        phase is Acknowledged ==> transfer_step(cfg, phase).0.last() == PinOp::Swdio(true),
{
    let t = cfg.turnaround as nat;
    let high = seq![PinOp::Swdio(true)];
    lemma_swclk_one_period();
    lemma_swclk_clocks(t);
    lemma_swclk_clocks(t + 33);
    lemma_swclk_reads(3);
    lemma_swclk_reads(33);
    lemma_swclk_idle(cfg.idle_cycles);
    let ops = transfer_step(cfg, phase).0;
    match phase {
        TransferPhase::Start { request, data } => {
            let h = header_bits(request);
            lemma_swclk_writes(h);
            lemma_swclk_levels_add(write_bits_ops(h), clock_cycles_ops(t));
            lemma_swclk_levels_add(write_bits_ops(h) + clock_cycles_ops(t), read_bits_ops(3));
            lemma_clock_pairs_add(h.len(), t);
            lemma_clock_pairs_add(h.len() + t, 3);
            lemma_clock_pairs_alternate(h.len() + t + 3);
        },
        TransferPhase::Acknowledged { request, data, ack } => {
            let resp = ack_response_of(ack@);
            let idle = idle_ops(cfg.idle_cycles);
            let n_idle = cfg.idle_cycles as nat;
            if resp is DapTransferOk {
                if request & 2u8 != 0 {
                    let a = read_bits_ops(33);
                    lemma_swclk_levels_add(a, clock_cycles_ops(t));
                    lemma_swclk_levels_add(a + clock_cycles_ops(t), idle);
                    lemma_swclk_levels_add(a + clock_cycles_ops(t) + idle, high);
                    lemma_clock_pairs_add(33, t);
                    lemma_clock_pairs_add(33 + t, n_idle);
                    assert(clock_pairs(33 + t + n_idle) + Seq::<bool>::empty() =~= clock_pairs(
                        33 + t + n_idle,
                    ));
                    lemma_clock_pairs_alternate(33 + t + n_idle);
                } else {
                    let f = data_frame(data);
                    let w = clock_cycles_ops(t);
                    lemma_swclk_writes(f);
                    lemma_swclk_levels_add(w, write_bits_ops(f));
                    lemma_swclk_levels_add(w + write_bits_ops(f), idle);
                    lemma_swclk_levels_add(w + write_bits_ops(f) + idle, high);
                    lemma_clock_pairs_add(t, f.len());
                    lemma_clock_pairs_add(t + f.len(), n_idle);
                    assert(clock_pairs(t + f.len() + n_idle) + Seq::<bool>::empty()
                        =~= clock_pairs(t + f.len() + n_idle));
                    lemma_clock_pairs_alternate(t + f.len() + n_idle);
                }
            } else if resp is DapTransferWait || resp is DapTransferFault {
                lemma_swclk_levels_add(clock_cycles_ops(t), high);
                assert(clock_pairs(t) + Seq::<bool>::empty() =~= clock_pairs(t));
                lemma_clock_pairs_alternate(t);
            } else {
                lemma_swclk_levels_add(clock_cycles_ops(t + 33), high);
                assert(clock_pairs(t + 33) + Seq::<bool>::empty() =~= clock_pairs(t + 33));
                lemma_clock_pairs_alternate(t + 33);
            }
        },
        TransferPhase::DataRead { bits } => {
            assert(swclk_levels(ops) =~= clock_pairs(0));
            lemma_clock_pairs_alternate(0);
        },
    }
}

proof fn lemma_swj_bits_ops_add(a: Seq<bool>, b: Seq<bool>)
    ensures
        swj_bits_ops(a + b) == swj_bits_ops(a) + swj_bits_ops(b),
    decreases b.len(),
{
    if b.len() == 0 {
        assert(a + b =~= a);
        assert(swj_bits_ops(a) + swj_bits_ops(b) =~= swj_bits_ops(a));
    } else {
        assert((a + b).drop_last() =~= a + b.drop_last());
        assert((a + b).last() == b.last());
        lemma_swj_bits_ops_add(a, b.drop_last());
        assert(swj_bits_ops(a + b) =~= swj_bits_ops(a) + swj_bits_ops(b));
    }
}

proof fn lemma_byte_index_before(i: int, m: int)
    by (nonlinear_arith)
    requires
        0 <= i < 8 * m,
    ensures
        i / 8 < m,
{
}

proof fn lemma_byte_index_after(i: int, m: int)
    by (nonlinear_arith)
    requires
        0 <= m,
        8 * m <= i,
    ensures
        (i - 8 * m) / 8 + m == i / 8,
        (i - 8 * m) % 8 == i % 8,
{
}

/// An SWJ sequence split at a byte boundary is the two halves sent one after
/// the other: the first `k` bits from the first `k / 8` bytes, then the rest
/// from the bytes that follow.
pub proof fn lemma_swj_split(data: Seq<u8>, count: nat, k: nat)
    requires
        k % 8 == 0,
        k <= count,
        count <= 8 * data.len(),
    ensures
        swj_bits_ops(swj_bits(data, count)) == swj_bits_ops(
            swj_bits(data.subrange(0, (k / 8) as int), k),
        ) + swj_bits_ops(swj_bits(data.subrange((k / 8) as int, data.len() as int), (count - k) as nat)),
{
    let m = (k / 8) as int;
    assert(k == 8 * m);
    let head = data.subrange(0, m);
    let tail = data.subrange(m, data.len() as int);
    let a = swj_bits(head, k);
    let b = swj_bits(tail, (count - k) as nat);
    let whole = swj_bits(data, count);
    assert forall|i: int| 0 <= i < count implies #[trigger] whole[i] == (a + b)[i] by {
        lemma_byte_index_before(i, data.len() as int);
        if i < k {
            lemma_byte_index_before(i, m);
            assert(whole[i] == byte_string_bit(data, i));
            assert(a[i] == byte_string_bit(head, i));
        } else {
            let j = i - k;
            lemma_byte_index_after(i, m);
            assert(whole[i] == byte_string_bit(data, i));
            assert(b[j] == byte_string_bit(tail, j));
            assert(tail[j / 8] == data[i / 8]);
        }
    }
    assert(whole =~= a + b);
    lemma_swj_bits_ops_add(a, b);
}


/// The acknowledge decides the verdict of a transfer, read or write alike:
/// the bits OK (1, 0, 0 in the order sampled) are the only ones that let it
/// go on; WAIT (0, 1, 0) and FAULT (0, 0, 1) end it with that response; any
/// other pattern ends it with an error; a transfer that ends here keeps its
/// data word. After OK a read goes on to its data phase and a write is
/// accepted.
pub proof fn lemma_acknowledge_verdict(cfg: SwdConfig, request: u8, data: u32, ack: [bool; 3])
    ensures
        ({
            let next = transfer_step(cfg, TransferPhase::Acknowledged { request, data, ack }).1;
            &&& ack@ == seq![false, true, false] ==> next == TransferNext::Complete {
                data,
                result: Err(DapResponse::DapTransferWait),
            }
            &&& ack@ == seq![false, false, true] ==> next == TransferNext::Complete {
                data,
                result: Err(DapResponse::DapTransferFault),
            }
            &&& ack@ != seq![true, false, false] ==> (next matches TransferNext::Complete {
                data: d,
                result: Err(_),
            } && d == data)
            &&& (ack@ == seq![true, false, false] && request & 2 != 0) ==> next
                == TransferNext::AwaitData
            &&& (ack@ == seq![true, false, false] && request & 2 == 0) ==> next
                == TransferNext::Complete { data, result: Ok(()) }
        }),
{
    let a = ack@;
    assert(a.len() == 3);
    if a != seq![true, false, false] {
        // the code is 1 only for the OK pattern
        if ack_code(a) == 1 {
            assert(a =~= seq![true, false, false]);
        }
    }
}


proof fn lemma_low_bits_index(x: nat, n: nat, i: int)
    requires
        0 <= i < n,
    ensures
        low_bits(x, n)[i] == ((x / two_pow(i as nat)) % 2 == 1),
    decreases i,
{
    lemma_low_bits_len(x, n);
    lemma_low_bits_unfold(x, n);
    if i > 0 {
        lemma_low_bits_len(x / 2, (n - 1) as nat);
        assert(low_bits(x, n)[i] == low_bits(x / 2, (n - 1) as nat)[i - 1]);
        lemma_low_bits_index(x / 2, (n - 1) as nat, i - 1);
        lemma_two_pow_pos((i - 1) as nat);
        lemma_div_denominator(x as int, 2, two_pow((i - 1) as nat) as int);
        assert(two_pow(i as nat) == 2 * two_pow((i - 1) as nat));
    } else {
        assert(two_pow(0) == 1);
        assert(x / 1 == x);
    }
}

/// The data phase of a write puts the word on the wire least significant bit
/// first: bit `i` of the frame is bit `i` of the word (the word divided by
/// `2^i`, modulo 2), and the 33rd bit makes the number of set bits even.
pub proof fn lemma_data_frame_layout(v: u32)
    ensures
        data_frame(v).len() == 33,
        forall|i: int| 0 <= i < 32 ==> #[trigger] data_frame(v)[i] == ((v as nat / two_pow(i as nat))
            % 2 == 1),
        count_ones(data_frame(v)) % 2 == 0,
{
    lemma_data_round_trip(v);
    assert forall|i: int| 0 <= i < 32 implies #[trigger] data_frame(v)[i] == ((v as nat / two_pow(
        i as nat,
    )) % 2 == 1) by {
        lemma_low_bits_index(v as nat, 32, i);
    }
    let f = data_frame(v);
    lemma_count_ones_split(f.take(32), seq![f[32]]);
    assert(f.take(32) + seq![f[32]] =~= f);
    assert(count_ones(seq![f[32]]) == bit_value(f[32])) by {
        reveal_with_fuel(count_ones, 2);
        assert(seq![f[32]].drop_first() =~= Seq::<bool>::empty());
    }
}

proof fn lemma_count_ones_split(a: Seq<bool>, b: Seq<bool>)
    ensures
        count_ones(a + b) == count_ones(a) + count_ones(b),
    decreases a.len(),
{
    if a.len() == 0 {
        assert(a + b =~= b);
    } else {
        assert((a + b).drop_first() =~= a.drop_first() + b);
        lemma_count_ones_split(a.drop_first(), b);
    }
}


/// The levels driven on SWDIO by `ops`, in order.
pub open spec fn swdio_levels(ops: Seq<PinOp>) -> Seq<bool>
    decreases ops.len(),
{
    if ops.len() == 0 {
        seq![]
    } else {
        swdio_levels(ops.drop_last()) + match ops.last() {
            PinOp::Swdio(b) => seq![b],
            _ => seq![],
        }
    }
}

proof fn lemma_swdio_levels_add(a: Seq<PinOp>, b: Seq<PinOp>)
    ensures
        swdio_levels(a + b) == swdio_levels(a) + swdio_levels(b),
    decreases b.len(),
{
    if b.len() == 0 {
        assert(a + b =~= a);
        assert(swdio_levels(a) + swdio_levels(b) =~= swdio_levels(a));
    } else {
        assert((a + b).drop_last() =~= a + b.drop_last());
        lemma_swdio_levels_add(a, b.drop_last());
        assert(swdio_levels(a + b) =~= swdio_levels(a) + swdio_levels(b));
    }
}

proof fn lemma_swdio_plain(t: nat)
    ensures
        swdio_levels(clock_cycles_ops(t)) == Seq::<bool>::empty(),
        swdio_levels(read_bits_ops(t)) == Seq::<bool>::empty(),
    decreases t,
{
    reveal_with_fuel(swdio_levels, 6);
    assert(swdio_levels(clock_cycle_ops()) =~= Seq::<bool>::empty());
    assert(swdio_levels(read_bit_ops()) =~= Seq::<bool>::empty());
    if t > 0 {
        lemma_swdio_plain((t - 1) as nat);
        lemma_swdio_levels_add(clock_cycles_ops((t - 1) as nat), clock_cycle_ops());
        lemma_swdio_levels_add(read_bits_ops((t - 1) as nat), read_bit_ops());
    } else {
        assert(swdio_levels(clock_cycles_ops(0)) =~= Seq::<bool>::empty());
        assert(swdio_levels(read_bits_ops(0)) =~= Seq::<bool>::empty());
    }
}

proof fn lemma_swdio_writes(bits: Seq<bool>)
    ensures
        swdio_levels(write_bits_ops(bits)) == bits,
    decreases bits.len(),
{
    reveal_with_fuel(swdio_levels, 6);
    if bits.len() > 0 {
        lemma_swdio_writes(bits.drop_last());
        lemma_swdio_levels_add(write_bits_ops(bits.drop_last()), write_bit_ops(bits.last()));
        assert(swdio_levels(write_bit_ops(bits.last())) =~= seq![bits.last()]);
        assert(bits.drop_last() + seq![bits.last()] =~= bits);
    } else {
        assert(swdio_levels(write_bits_ops(bits)) =~= bits);
    }
}

proof fn lemma_swdio_blocks(t: nat, bits: Seq<bool>, idle: u32)
    ensures
        swdio_levels(clock_cycles_ops(t)) == Seq::<bool>::empty(),
        swdio_levels(read_bits_ops(t)) == Seq::<bool>::empty(),
        swdio_levels(write_bits_ops(bits)) == bits,
        swdio_levels(idle_ops(idle)) == (if idle == 0 {
            Seq::<bool>::empty()
        } else {
            seq![false]
        }),
        swdio_levels(seq![PinOp::Swdio(true)]) == seq![true],
{
    reveal_with_fuel(swdio_levels, 2);
    assert(swdio_levels(seq![PinOp::Swdio(true)]) =~= seq![true]);
    lemma_swdio_plain(t);
    lemma_swdio_writes(bits);
    if idle == 0 {
        assert(swdio_levels(idle_ops(idle)) =~= Seq::<bool>::empty());
    } else {
        lemma_swdio_plain(idle as nat);
        lemma_swdio_levels_add(seq![PinOp::Swdio(false)], clock_cycles_ops(idle as nat));
        assert(swdio_levels(seq![PinOp::Swdio(false)]) =~= seq![false]);
        assert(seq![false] + Seq::<bool>::empty() =~= seq![false]);
    }
}

/// The three acknowledge patterns the protocol names; every other pattern is
/// a protocol error.
pub proof fn lemma_ack_patterns(ack: Seq<bool>)
    requires
        ack.len() == 3,
    ensures
        ack_response_of(ack) is DapTransferOk <==> ack == seq![true, false, false],
        ack_response_of(ack) is DapTransferWait <==> ack == seq![false, true, false],
        ack_response_of(ack) is DapTransferFault <==> ack == seq![false, false, true],
{
    if ack[0] {
        assert(ack != seq![false, true, false]);
        assert(ack != seq![false, false, true]);
        if !ack[1] && !ack[2] {
            assert(ack =~= seq![true, false, false]);
        }
    } else {
        assert(ack != seq![true, false, false]);
        if ack[1] && !ack[2] {
            assert(ack =~= seq![false, true, false]);
        } else {
            assert(ack != seq![false, true, false]);
        }
        if !ack[1] && ack[2] {
            assert(ack =~= seq![false, false, true]);
        } else {
            assert(ack != seq![false, false, true]);
        }
    }
}

/// Each step of a transfer on the wire, in numbers. With turnaround `t` and
/// `i` idle cycles:
/// - the request step clocks `8 + t + 3` periods, drives the eight packet
///   bits on SWDIO and samples 3 times;
/// - after OK to a read: `33 + t + i` periods, 33 samples, and on SWDIO only
///   the idle low (if `i > 0`) and the final high;
/// - after OK to a write: `t + 33 + i` periods, no sample, and on SWDIO the
///   33 bits of the data frame, the idle low (if `i > 0`) and the final high;
/// - after WAIT or FAULT: `t` periods, no sample, SWDIO high;
/// - after any other acknowledge: `t + 33` periods, no sample, SWDIO high;
/// - the data step drives nothing.
pub proof fn lemma_transfer_on_wire(cfg: SwdConfig, phase: TransferPhase)
    ensures
        ({
            let ops = transfer_step(cfg, phase).0;
            let t = cfg.turnaround as nat;
            let i = cfg.idle_cycles;
            let idle_low = if i == 0 {
                Seq::<bool>::empty()
            } else {
                seq![false]
            };
            match phase {
                TransferPhase::Start { request, .. } => {
                    &&& swclk_levels(ops) == clock_pairs(8 + t + 3)
                    &&& swdio_levels(ops) == header_bits(request)
                    &&& sample_count(ops) == 3
                },
                TransferPhase::Acknowledged { request, data, ack } => {
                    &&& (ack@ == seq![true, false, false] && request & 2 != 0) ==> {
                        &&& swclk_levels(ops) == clock_pairs(33 + t + i as nat)
                        &&& swdio_levels(ops) == idle_low + seq![true]
                        &&& sample_count(ops) == 33
                    }
                    &&& (ack@ == seq![true, false, false] && request & 2 == 0) ==> {
                        &&& swclk_levels(ops) == clock_pairs(t + 33 + i as nat)
                        &&& swdio_levels(ops) == data_frame(data) + idle_low + seq![true]
                        &&& sample_count(ops) == 0
                    }
                    &&& (ack@ == seq![false, true, false] || ack@ == seq![false, false, true]) ==> {
                        &&& swclk_levels(ops) == clock_pairs(t)
                        &&& swdio_levels(ops) == seq![true]
                        &&& sample_count(ops) == 0
                    }
                    &&& (ack@ != seq![true, false, false] && ack@ != seq![false, true, false]
                        && ack@ != seq![false, false, true]) ==> {
                        &&& swclk_levels(ops) == clock_pairs(t + 33)
                        &&& swdio_levels(ops) == seq![true]
                        &&& sample_count(ops) == 0
                    }
                },
                TransferPhase::DataRead { .. } => ops.len() == 0,
            }
        }),
{
    let t = cfg.turnaround as nat;
    let i = cfg.idle_cycles;
    let high = seq![PinOp::Swdio(true)];
    let ops = transfer_step(cfg, phase).0;
    lemma_transfer_samples(cfg, phase);
    lemma_swclk_one_period();
    lemma_swclk_clocks(t);
    lemma_swclk_clocks(t + 33);
    lemma_swclk_reads(3);
    lemma_swclk_reads(33);
    lemma_swclk_idle(i);
    lemma_swdio_blocks(t, seq![], i);
    lemma_swdio_blocks(t + 33, seq![], i);
    lemma_swdio_blocks(3, seq![], i);
    lemma_swdio_blocks(33, seq![], i);
    match phase {
        TransferPhase::Start { request, data } => {
            let h = header_bits(request);
            lemma_swdio_blocks(0, h, i);
            lemma_swclk_writes(h);
            lemma_swclk_levels_add(write_bits_ops(h), clock_cycles_ops(t));
            lemma_swclk_levels_add(write_bits_ops(h) + clock_cycles_ops(t), read_bits_ops(3));
            lemma_clock_pairs_add(8, t);
            lemma_clock_pairs_add(8 + t, 3);
            lemma_swdio_levels_add(write_bits_ops(h), clock_cycles_ops(t));
            lemma_swdio_levels_add(write_bits_ops(h) + clock_cycles_ops(t), read_bits_ops(3));
            assert(h + Seq::<bool>::empty() + Seq::<bool>::empty() =~= h);
        },
        TransferPhase::Acknowledged { request, data, ack } => {
            lemma_ack_patterns(ack@);
            let idle = idle_ops(i);
            let n_idle = i as nat;
            let e = Seq::<bool>::empty();
            if ack@ == seq![true, false, false] {
                if request & 2u8 != 0 {
                    let a = read_bits_ops(33);
                    lemma_swclk_levels_add(a, clock_cycles_ops(t));
                    lemma_swclk_levels_add(a + clock_cycles_ops(t), idle);
                    lemma_swclk_levels_add(a + clock_cycles_ops(t) + idle, high);
                    lemma_clock_pairs_add(33, t);
                    lemma_clock_pairs_add(33 + t, n_idle);
                    assert(clock_pairs(33 + t + n_idle) + e =~= clock_pairs(33 + t + n_idle));
                    lemma_swdio_levels_add(a, clock_cycles_ops(t));
                    lemma_swdio_levels_add(a + clock_cycles_ops(t), idle);
                    lemma_swdio_levels_add(a + clock_cycles_ops(t) + idle, high);
                    assert(e + e + swdio_levels(idle) + seq![true] =~= swdio_levels(idle) + seq![
                        true,
                    ]);
                } else {
                    let f = data_frame(data);
                    let w = clock_cycles_ops(t);
                    lemma_data_round_trip(data);
                    lemma_swdio_blocks(0, f, i);
                    lemma_swclk_writes(f);
                    lemma_swclk_levels_add(w, write_bits_ops(f));
                    lemma_swclk_levels_add(w + write_bits_ops(f), idle);
                    lemma_swclk_levels_add(w + write_bits_ops(f) + idle, high);
                    lemma_clock_pairs_add(t, 33);
                    lemma_clock_pairs_add(t + 33, n_idle);
                    assert(clock_pairs(t + 33 + n_idle) + e =~= clock_pairs(t + 33 + n_idle));
                    lemma_swdio_levels_add(w, write_bits_ops(f));
                    lemma_swdio_levels_add(w + write_bits_ops(f), idle);
                    lemma_swdio_levels_add(w + write_bits_ops(f) + idle, high);
                    assert(e + f =~= f);
                }
            } else if ack@ == seq![false, true, false] || ack@ == seq![false, false, true] {
                lemma_swclk_levels_add(clock_cycles_ops(t), high);
                assert(clock_pairs(t) + e =~= clock_pairs(t));
                lemma_swdio_levels_add(clock_cycles_ops(t), high);
                assert(e + seq![true] =~= seq![true]);
            } else {
                lemma_swclk_levels_add(clock_cycles_ops(t + 33), high);
                assert(clock_pairs(t + 33) + e =~= clock_pairs(t + 33));
                lemma_swdio_levels_add(clock_cycles_ops(t + 33), high);
                assert(e + seq![true] =~= seq![true]);
            }
        },
        TransferPhase::DataRead { bits } => {},
    }
}


proof fn lemma_request_bit_masks(r: u8)
    by (bit_vector)
    ensures
        ((r >> 0u8) & 1u8 == 1u8) == (r & 1u8 == 1u8),
        ((r >> 1u8) & 1u8 == 1u8) == (r & 2u8 == 2u8),
        ((r >> 2u8) & 1u8 == 1u8) == (r & 4u8 == 4u8),
        ((r >> 3u8) & 1u8 == 1u8) == (r & 8u8 == 8u8),
{
}

/// The request packet of a request byte `r`, bit by bit: start (1), APnDP =
/// bit 0 of `r`, RnW = bit 1, A2 = bit 2, A3 = bit 3, the parity of those
/// four bits, stop (0) and park (1).
pub proof fn lemma_header_layout(r: u8)
    ensures
        header_bits(r) == seq![
            true,
            r & 1 == 1,
            r & 2 == 2,
            r & 4 == 4,
            r & 8 == 8,
            (bit_value(r & 1 == 1) + bit_value(r & 2 == 2) + bit_value(r & 4 == 4) + bit_value(
                r & 8 == 8,
            )) % 2 == 1,
            false,
            true,
        ],
{
    lemma_request_bit_masks(r);
}


proof fn lemma_byte_shift_is_div(x: u8)
    by (bit_vector)
    ensures
        ((x >> 0u8) & 1u8 == 1u8) == (x % 2u8 == 1u8),
        ((x >> 1u8) & 1u8 == 1u8) == ((x / 2u8) % 2u8 == 1u8),
        ((x >> 2u8) & 1u8 == 1u8) == ((x / 4u8) % 2u8 == 1u8),
        ((x >> 3u8) & 1u8 == 1u8) == ((x / 8u8) % 2u8 == 1u8),
        ((x >> 4u8) & 1u8 == 1u8) == ((x / 16u8) % 2u8 == 1u8),
        ((x >> 5u8) & 1u8 == 1u8) == ((x / 32u8) % 2u8 == 1u8),
        ((x >> 6u8) & 1u8 == 1u8) == ((x / 64u8) % 2u8 == 1u8),
        ((x >> 7u8) & 1u8 == 1u8) == ((x / 128u8) % 2u8 == 1u8),
{
}

/// An SWJ sequence sends each whole byte least significant bit first: bits
/// `8k .. 8k + 8` of the sequence are bit 0, 1, ..., 7 of byte `k` (the byte
/// divided by `2^i`, modulo 2).
pub proof fn lemma_swj_byte_order(data: Seq<u8>, count: nat, k: int)
    requires
        0 <= k,
        8 * k + 8 <= count,
        count <= 8 * data.len(),
    ensures
        forall|i: int|
            0 <= i < 8 ==> #[trigger] swj_bits(data, count)[8 * k + i] == ((data[k] as nat
                / two_pow(i as nat)) % 2 == 1),
{
    reveal_with_fuel(two_pow, 9);
    assert forall|i: int| 0 <= i < 8 implies #[trigger] swj_bits(data, count)[8 * k + i] == ((
    data[k] as nat / two_pow(i as nat)) % 2 == 1) by {
        assert((8 * k + i) / 8 == k);
        assert((8 * k + i) % 8 == i);
        let x = data[k];
        lemma_byte_shift_is_div(x);
        assert(swj_bits(data, count)[8 * k + i] == ((x >> (i as u8)) & 1u8 == 1u8));
        assert(two_pow(0) == 1 && two_pow(1) == 2 && two_pow(2) == 4 && two_pow(3) == 8);
        assert(two_pow(4) == 16 && two_pow(5) == 32 && two_pow(6) == 64 && two_pow(7) == 128);
        if i == 0 {
        } else if i == 1 {
        } else if i == 2 {
        } else if i == 3 {
        } else if i == 4 {
        } else if i == 5 {
        } else if i == 6 {
        } else {
            assert(i == 7);
        }
    }
}

} // verus!
