//! TCP tuning for the network stack: the window a link's round trip asks
//! for, the buffer sizes and window scale that follow from it, and the
//! socket timers each scale gets.
use crate::allocator::buddy::pow2;
use vstd::prelude::*;
use vstd::string::*;

verus! {

/// The window scale a socket is configured with by default.
pub const TCP_WINDOW_SCALE: u8 = 7;
/// The link MTU.
pub const DEFAULT_MTU: usize = 1500;
/// The default receive buffer size.
pub const TCP_RX_BUF_SIZE: usize = 256 * 1024;
/// The default send buffer size.
pub const TCP_TX_BUF_SIZE: usize = 256 * 1024;

/// `x` capped at the largest `usize`.
pub open spec fn saturate(x: int) -> int {
    if x > usize::MAX { usize::MAX as int } else { x }
}

/// The larger of two integers.
pub open spec fn max_int(a: int, b: int) -> int {
    if a >= b { a } else { b }
}

/// The window, in bytes, that keeps a link of `throughput_mbps` megabits
/// per second busy over a round trip of `rtt_ms` milliseconds (at least one),
/// with products capped at the largest `usize`, and never below 65535.
pub open spec fn window_bytes(rtt_ms: nat, throughput_mbps: nat) -> int {
    let bytes_per_second = saturate((throughput_mbps * 1_000_000) as int) / 8;
    let bytes_per_rtt = saturate(bytes_per_second * max_int(rtt_ms as int, 1)) / 1_000;
    max_int(bytes_per_rtt, 65_535)
}

/// The least scale `s` from `from` up to 14 with `65535 * 2^s` at least
/// `window`; 14 when none is.
pub open spec fn scale_from(window: nat, from: nat) -> nat
    decreases 14 - from,
{
    if from >= 14 || 65_535 * pow2(from) >= window { from } else { scale_from(window, from + 1) }
}

/// The window scale a window of `window` bytes needs.
pub open spec fn scale_for(window: nat) -> nat {
    scale_from(window, 0)
}

/// Whether `p` is the least power of two at least `x`.
pub open spec fn is_next_pow2(p: nat, x: nat) -> bool {
    exists|k: nat| #[trigger] pow2(k) == p && p >= x && (k == 0 || pow2((k - 1) as nat) < x)
}

/// A TCP socket's configuration: its endpoints, window scale and buffer
/// sizes. The remote address is an IPv4 address.
#[derive(Clone, Copy, Debug, PartialEq, Eq)]
pub struct TcpSocketConfig {
    pub local_port: u16,
    pub remote_addr: [u8; 4],
    pub remote_port: u16,
    pub window_scale: u8,
    pub rx_buffer_size: usize,
    pub tx_buffer_size: usize,
}

/// The configuration every socket starts from.
pub open spec fn default_config() -> TcpSocketConfig {
    TcpSocketConfig {
        local_port: 0,
        remote_addr: [0u8, 0u8, 0u8, 0u8],
        remote_port: 0,
        window_scale: TCP_WINDOW_SCALE,
        rx_buffer_size: TCP_RX_BUF_SIZE,
        tx_buffer_size: TCP_TX_BUF_SIZE,
    }
}

impl TcpSocketConfig {
    /// No endpoints, scale 7 and 256 KiB buffers each way.
    pub fn new() -> (c: Self)
        ensures
            c == default_config(),
    {
        TcpSocketConfig {
            local_port: 0,
            remote_addr: [0u8, 0u8, 0u8, 0u8],
            remote_port: 0,
            window_scale: TCP_WINDOW_SCALE,
            rx_buffer_size: TCP_RX_BUF_SIZE,
            tx_buffer_size: TCP_TX_BUF_SIZE,
        }
    }

    /// The configuration with the remote endpoint `addr:port`.
    pub fn with_remote(self, addr: [u8; 4], port: u16) -> (c: Self)
        ensures
            c == (TcpSocketConfig { remote_addr: addr, remote_port: port, ..self }),
    {
        let mut c = self;
        c.remote_addr = addr;
        c.remote_port = port;
        c
    }

    /// The configuration with local port `port`.
    pub fn with_local_port(self, port: u16) -> (c: Self)
        ensures
            c == (TcpSocketConfig { local_port: port, ..self }),
    {
        let mut c = self;
        c.local_port = port;
        c
    }

    /// The configuration with window scale `scale`, capped at 14.
    pub fn with_window_scale(self, scale: u8) -> (c: Self)
        ensures
            c == (TcpSocketConfig { window_scale: if scale <= 14 { scale } else { 14u8 }, ..self }),
    {
        let mut c = self;
        c.window_scale = if scale <= TcpWindowScaler::MAX_SCALE { scale } else { TcpWindowScaler::MAX_SCALE };
        c
    }

    /// The configuration with buffer sizes `rx` and `tx`.
    pub fn with_buffers(self, rx: usize, tx: usize) -> (c: Self)
        ensures
            c == (TcpSocketConfig { rx_buffer_size: rx, tx_buffer_size: tx, ..self }),
    {
        let mut c = self;
        c.rx_buffer_size = rx;
        c.tx_buffer_size = tx;
        c
    }
}

impl Default for TcpSocketConfig {
    fn default() -> (c: Self)
        ensures
            c == default_config(),
    {
        Self::new()
    }
}

/// `a * b`, or the largest `usize` when that overflows.
fn saturating_mul(a: usize, b: usize) -> (r: usize)
    ensures
        r == saturate(a * b),
{
    match a.checked_mul(b) {
        Some(x) => x,
        None => usize::MAX,
    }
}

/// The least power of two at least `x`, for `x` at most half the
/// largest `usize`.
fn next_pow2(x: usize) -> (r: usize)
    requires
        x <= usize::MAX / 2,
    ensures
        is_next_pow2(r as nat, x as nat),
{
    let mut p: usize = 1;
    let mut k: Ghost<nat> = Ghost(0);
    while p < x
        invariant
            x <= usize::MAX / 2,
            p == pow2(k@),
            k@ == 0 || pow2((k@ - 1) as nat) < x,
            1 <= p,
        decreases usize::MAX - p,
    {
        p = p * 2;
        k = Ghost(k@ + 1);
        assert(pow2(k@) == 2 * pow2((k@ - 1) as nat));
    }
    assert(pow2(k@) == p);
    p
}

/// The timers a socket gets for a window scale.
#[derive(Clone, Copy, Debug, PartialEq, Eq, Structural)]
pub struct SocketTuning {
    pub ack_delay_ms: u64,
    pub timeout_ms: u64,
    pub keep_alive_ms: u64,
}

/// Why a read or write on the stack's TCP socket failed.
#[derive(Clone, Copy, Debug, PartialEq, Eq, Structural)]
pub enum NetworkIoError {
    Send,
    Receive,
    WriteZero,
}

/// The text of an I/O error.
pub open spec fn io_error_text(e: NetworkIoError) -> Seq<char> {
    match e {
        NetworkIoError::Send => "send failed"@,
        NetworkIoError::Receive => "receive failed"@,
        NetworkIoError::WriteZero => "write zero"@,
    }
}

impl NetworkIoError {
    /// The error's text: "send failed", "receive failed" or "write zero".
    pub fn to_string(&self) -> (s: String)
        ensures
            s@ == io_error_text(*self),
    {
        match self {
            NetworkIoError::Send => String::from_str("send failed"),
            NetworkIoError::Receive => String::from_str("receive failed"),
            NetworkIoError::WriteZero => String::from_str("write zero"),
        }
    }
}

/// The outcome of writing `requested` bytes of which the socket took
/// `written`: a write of a non-empty buffer that took nothing fails with
/// `WriteZero`.
pub fn write_outcome(requested: usize, written: usize) -> (r: Result<usize, NetworkIoError>)
    ensures
        r == (if requested > 0 && written == 0 { Err(NetworkIoError::WriteZero) } else { Ok(written) }),
{
    if requested > 0 && written == 0 {
        return Err(NetworkIoError::WriteZero);
    }
    Ok(written)
}

/// Window tuning for TCP sockets.
pub struct TcpWindowScaler;

impl TcpWindowScaler {
    /// The largest window scale TCP allows.
    pub const MAX_SCALE: u8 = 14;
    /// The throughput the buffers are sized for, in megabits per second.
    pub const DEFAULT_TARGET_THROUGHPUT_MBPS: usize = 1000;

    /// The window that keeps a link of `throughput_mbps` busy over a round
    /// trip of `rtt_ms`: the bandwidth-delay product, never below 65535.
    pub fn recommended_window_bytes(rtt_ms: usize, throughput_mbps: usize) -> (w: usize)
        ensures
            w == window_bytes(rtt_ms as nat, throughput_mbps as nat),
    {
        let safe_rtt = if rtt_ms >= 1 { rtt_ms } else { 1 };
        let bits_per_second = saturating_mul(throughput_mbps, 1_000_000);
        let bytes_per_second = bits_per_second / 8;
        let bytes_per_rtt = saturating_mul(bytes_per_second, safe_rtt) / 1_000;
        if bytes_per_rtt >= 65_535 { bytes_per_rtt } else { 65_535 }
    }

    /// Buffer sizes and window scale for a round trip of `rtt_ms` at the
    /// target throughput: the receive buffer is the recommended window
    /// rounded up to a power of two (at least 64 KiB), the send buffer half
    /// of it (at least 64 KiB), and the scale the one the receive buffer
    /// needs.
    pub fn calibrate_buffers(rtt_ms: usize) -> (r: (usize, usize, u8))
        ensures
            r.0 >= 65_536,
            r.0 == max_int(next_pow2_of(window_bytes(rtt_ms as nat, 1000) as nat) as int, 65_536),
            r.1 == max_int(r.0 as int / 2, 65_536),
            r.2 == scale_for(r.0 as nat),
            r.2 <= 14,
    {
        let target = Self::recommended_window_bytes(rtt_ms, Self::DEFAULT_TARGET_THROUGHPUT_MBPS);
        proof {
            lemma_window_small(rtt_ms as nat);
        }
        let aligned = next_pow2(target);
        proof {
            lemma_next_pow2_unique(aligned as nat, target as nat);
        }
        let rx = if aligned >= 65_536 { aligned } else { 65_536 };
        let tx = if rx / 2 >= 65_536 { rx / 2 } else { 65_536 };
        let scale = Self::calculate_scale(rx);
        (rx, tx, scale)
    }

    /// The least scale, at most 14, by which a 65535-byte window reaches
    /// `window_size`.
    pub fn calculate_scale(window_size: usize) -> (s: u8)
        ensures
            s as nat == scale_for(window_size as nat),
            s <= 14,
    {
        let mut shift: u8 = 0;
        let mut current: usize = 65_535;
        proof {
            lemma_scale_from_bound(window_size as nat, 0);
            lemma_pow2_upto14();
        }
        while current < window_size && shift < Self::MAX_SCALE
            invariant
                shift <= 14,
                current == 65_535 * pow2(shift as nat),
                scale_for(window_size as nat) == scale_from(window_size as nat, shift as nat),
            decreases 14 - shift,
        {
            proof {
                lemma_pow2_upto14();
                assert(pow2((shift + 1) as nat) == 2 * pow2(shift as nat));
            }
            current = current * 2;
            shift = shift + 1;
        }
        shift
    }
}

/// The least power of two at least `x`.
pub open spec fn next_pow2_of(x: nat) -> nat {
    choose|p: nat| is_next_pow2(p, x)
}

proof fn lemma_pow2_upto14()
    ensures
        pow2(14) == 16384,
        forall|k: nat| k <= 14 ==> #[trigger] pow2(k) <= 16384,
        forall|k: nat| k >= 1 ==> #[trigger] pow2(k) == 2 * pow2((k - 1) as nat),
{
    reveal_with_fuel(pow2, 15);
    assert forall|k: nat| k <= 14 implies #[trigger] pow2(k) <= 16384 by {
        reveal_with_fuel(pow2, 15);
        assert(k == 0 || k == 1 || k == 2 || k == 3 || k == 4 || k == 5 || k == 6 || k == 7 || k == 8
            || k == 9 || k == 10 || k == 11 || k == 12 || k == 13 || k == 14);
    }
}

proof fn lemma_scale_from_bound(w: nat, from: nat)
    requires
        from <= 14,
    ensures
        from <= scale_from(w, from) <= 14,
    decreases 14 - from,
{
    if from < 14 && 65_535 * pow2(from) < w {
        lemma_scale_from_bound(w, from + 1);
    }
}

proof fn lemma_pow2_strict(a: nat, b: nat)
    requires
        a < b,
    ensures
        pow2(a) < pow2(b),
    decreases b,
{
    lemma_pow2_pos_net(a);
    if b > a + 1 {
        lemma_pow2_strict(a, (b - 1) as nat);
    }
}

proof fn lemma_pow2_pos_net(k: nat)
    ensures
        pow2(k) >= 1,
    decreases k,
{
    if k > 0 {
        lemma_pow2_pos_net((k - 1) as nat);
    }
}

/// The least power of two at least `x` is unique.
proof fn lemma_next_pow2_unique(p: nat, x: nat)
    requires
        is_next_pow2(p, x),
    ensures
        next_pow2_of(x) == p,
{
    let q = next_pow2_of(x);
    assert(is_next_pow2(q, x));
    let kp = choose|k: nat| #[trigger] pow2(k) == p && p >= x && (k == 0 || pow2((k - 1) as nat) < x);
    let kq = choose|k: nat| #[trigger] pow2(k) == q && q >= x && (k == 0 || pow2((k - 1) as nat) < x);
    if kp < kq {
        if kq - 1 > kp {
            lemma_pow2_strict(kp, (kq - 1) as nat);
        }
    } else if kq < kp {
        if kp - 1 > kq {
            lemma_pow2_strict(kq, (kp - 1) as nat);
        }
    }
}

/// At the target throughput the recommended window stays far below the
/// largest `usize`.
proof fn lemma_window_small(rtt: nat)
    ensures
        window_bytes(rtt, 1000) <= usize::MAX / 2,
{
    let bps = saturate(1000int * 1_000_000) / 8;
    let per = saturate(bps * max_int(rtt as int, 1)) / 1_000;
    assert(per <= usize::MAX / 1000);
    assert(usize::MAX >= 0xffff_ffff);
}

/// The recommended window grows with both the round trip and the
/// throughput, never drops below 65535, and treats a round trip of 0 as 1.
pub proof fn lemma_window_monotonic(rtt1: nat, t1: nat, rtt2: nat, t2: nat)
    requires
        rtt1 <= rtt2,
        t1 <= t2,
    ensures
        window_bytes(rtt1, t1) <= window_bytes(rtt2, t2),
        window_bytes(rtt1, t1) >= 65_535,
        window_bytes(0, t1) == window_bytes(1, t1),
{
    assert(t1 * 1_000_000 <= t2 * 1_000_000) by (nonlinear_arith)
        requires
            t1 <= t2,
    ;
    let s1 = saturate((t1 * 1_000_000) as int);
    let s2 = saturate((t2 * 1_000_000) as int);
    assert(0 <= s1 <= s2);
    vstd::arithmetic::div_mod::lemma_div_is_ordered(s1, s2, 8);
    let b1 = s1 / 8;
    let b2 = s2 / 8;
    assert(0 <= b1 <= b2);
    let r1 = max_int(rtt1 as int, 1);
    let r2 = max_int(rtt2 as int, 1);
    assert(b1 * r1 <= b2 * r2) by (nonlinear_arith)
        requires
            0 <= b1 <= b2,
            1 <= r1 <= r2,
    ;
    assert(b1 * r1 >= 0) by (nonlinear_arith)
        requires
            0 <= b1,
            1 <= r1,
    ;
    let a = saturate(b1 * r1);
    let b = saturate(b2 * r2);
    assert(0 <= a <= b);
    vstd::arithmetic::div_mod::lemma_div_is_ordered(a, b, 1_000);
}

/// The window scale never shrinks as the window grows.
pub proof fn lemma_scale_monotonic(w1: nat, w2: nat)
    requires
        w1 <= w2,
    ensures
        scale_for(w1) <= scale_for(w2),
{
    lemma_scale_from_monotonic(w1, w2, 0);
}

proof fn lemma_scale_from_monotonic(w1: nat, w2: nat, from: nat)
    requires
        w1 <= w2,
        from <= 14,
    ensures
        scale_from(w1, from) <= scale_from(w2, from),
    decreases 14 - from,
{
    lemma_scale_from_bound(w2, from);
    lemma_scale_from_bound(w1, from);
    if from < 14 && 65_535 * pow2(from) < w1 {
        lemma_scale_from_monotonic(w1, w2, from + 1);
    }
}

/// The timers for a socket whose receive buffer holds `recv_capacity`
/// bytes under `config`: the effective scale is the requested one (at most
/// 14), capped by the larger of the scales the socket's buffer and the
/// configured buffer (at least 65535) need; at scale 6 and above the ACK
/// delay is 2 ms and the timeout 400 ms, below 5 ms and 250 ms; keep-alive
/// is 500 ms.
pub open spec fn tuning_for(config: TcpSocketConfig, recv_capacity: nat) -> SocketTuning {
    let configured_rx = if config.rx_buffer_size >= 65_535 { config.rx_buffer_size as nat } else { 65_535 };
    let socket_scale = scale_for(recv_capacity);
    let configured_scale = scale_for(configured_rx);
    let requested = if config.window_scale <= 14 { config.window_scale as nat } else { 14 };
    let cap = if socket_scale >= configured_scale { socket_scale } else { configured_scale };
    let effective = if requested <= cap { requested } else { cap };
    SocketTuning {
        ack_delay_ms: if effective >= 6 { 2 } else { 5 },
        timeout_ms: if effective >= 6 { 400 } else { 250 },
        keep_alive_ms: 500,
    }
}

/// The timers for a socket with a receive buffer of `recv_capacity` bytes
/// configured by `config`.
pub fn window_tuning(config: TcpSocketConfig, recv_capacity: usize) -> (t: SocketTuning)
    ensures
        t == tuning_for(config, recv_capacity as nat),
{
    let configured_rx = if config.rx_buffer_size >= 65_535 { config.rx_buffer_size } else { 65_535 };
    let socket_scale = TcpWindowScaler::calculate_scale(recv_capacity);
    let configured_scale = TcpWindowScaler::calculate_scale(configured_rx);
    let requested = if config.window_scale <= TcpWindowScaler::MAX_SCALE { config.window_scale } else { TcpWindowScaler::MAX_SCALE };
    let cap = if socket_scale >= configured_scale { socket_scale } else { configured_scale };
    let effective = if requested <= cap { requested } else { cap };
    SocketTuning {
        ack_delay_ms: if effective >= 6 { 2 } else { 5 },
        timeout_ms: if effective >= 6 { 400 } else { 250 },
        keep_alive_ms: 500,
    }
}

/// The configuration for a round trip of `rtt_ms`: the default one with
/// the calibrated scale and buffer sizes.
pub fn rtt_profile(rtt_ms: usize) -> (c: TcpSocketConfig)
    ensures
        ({
            let rx = max_int(next_pow2_of(window_bytes(rtt_ms as nat, 1000) as nat) as int, 65_536);
            &&& c.window_scale as nat == scale_for(rx as nat)
            &&& c.rx_buffer_size == rx
            &&& c.tx_buffer_size == max_int(rx / 2, 65_536)
            &&& c.local_port == 0
            &&& c.remote_port == 0
            &&& c.remote_addr == default_config().remote_addr
        }),
{
    let (rx, tx, scale) = TcpWindowScaler::calibrate_buffers(rtt_ms);
    TcpSocketConfig::new().with_window_scale(scale).with_buffers(rx, tx)
}

} // verus!
