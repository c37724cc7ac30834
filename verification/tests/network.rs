use sos::allocator::slab::SlabAllocator;
use sos::network::readiness::{ReadinessStatus, ReadinessSuite};
use sos::network::stack::{
    rtt_profile, window_tuning, write_outcome, NetworkIoError, TcpSocketConfig, TcpWindowScaler,
    TCP_RX_BUF_SIZE, TCP_WINDOW_SCALE,
};
use sos::network::tls::{TlsSession, TlsSessionError, TlsState};
use sos::network::virtio::{
    acknowledge_status, driver_ok_status, features_accepted, features_ok_status,
    negotiate_features, VirtioNetDriver, FRAME_SLOT_SIZE, VIRTIO_NET_F_CSUM, VIRTIO_NET_F_MAC,
    VIRTIO_NET_F_MRG_RXBUF, VIRTIO_NET_F_STATUS,
};

#[test]
fn readiness_suite_is_ready_when_all_checks_pass() {
    let suite = ReadinessSuite::run_with_probes(|| true, || true, || true);
    assert!(suite.is_ready());
    assert_eq!(suite.checks[0].status, ReadinessStatus::Ready);
    assert_eq!(suite.checks[1].status, ReadinessStatus::Ready);
    assert_eq!(suite.checks[2].status, ReadinessStatus::Ready);
}

#[test]
fn readiness_suite_is_not_ready_when_any_check_fails() {
    let suite = ReadinessSuite::run_with_probes(|| true, || false, || true);
    assert!(!suite.is_ready());
    assert_eq!(suite.checks[0].status, ReadinessStatus::Ready);
    assert_eq!(suite.checks[1].status, ReadinessStatus::NotReady);
    assert_eq!(suite.checks[2].status, ReadinessStatus::Ready);
}

#[test]
fn readiness_checks_are_named_in_probe_order() {
    let suite = ReadinessSuite::from_probe_results(false, true, true);
    assert_eq!(suite.checks[0].name, "icmp");
    assert_eq!(suite.checks[1].name, "dns");
    assert_eq!(suite.checks[2].name, "https");
    assert!(!suite.is_ready());
    assert_eq!(ReadinessStatus::Ready.to_string(), "ready");
    assert_eq!(ReadinessStatus::NotReady.to_string(), "not-ready");
}

#[test]
fn test_window_scale_calculation() {
    assert_eq!(TcpWindowScaler::calculate_scale(65_535), 0);
    assert!(TcpWindowScaler::calculate_scale(256 * 1024) > 0);
}

#[test]
fn test_rtt_buffer_calibration() {
    let (rx_low, tx_low, scale_low) = TcpWindowScaler::calibrate_buffers(2);
    let (rx_high, tx_high, scale_high) = TcpWindowScaler::calibrate_buffers(30);
    assert!(rx_low >= 65_536);
    assert!(tx_low >= 65_536);
    assert!(rx_high > rx_low);
    assert!(tx_high >= tx_low);
    assert!(scale_high >= scale_low);
}

#[test]
fn test_recommended_window_monotonic_with_rtt() {
    let w1 = TcpWindowScaler::recommended_window_bytes(1, 1_000);
    let w5 = TcpWindowScaler::recommended_window_bytes(5, 1_000);
    let w20 = TcpWindowScaler::recommended_window_bytes(20, 1_000);
    assert!(w1 >= 65_535);
    assert!(w5 > w1);
    assert!(w20 > w5);
}

#[test]
fn recommended_window_is_the_bandwidth_delay_product() {
    // 1000 Mbit/s over 20 ms: 125,000,000 bytes/s * 20 / 1000.
    assert_eq!(TcpWindowScaler::recommended_window_bytes(20, 1_000), 2_500_000);
    assert_eq!(TcpWindowScaler::recommended_window_bytes(0, 1_000), 125_000);
    assert_eq!(TcpWindowScaler::recommended_window_bytes(1, 1), 65_535);
    assert_eq!(TcpWindowScaler::recommended_window_bytes(usize::MAX, usize::MAX), usize::MAX / 1000);
}

#[test]
fn calibration_rounds_up_to_a_power_of_two() {
    // 4 ms: 500,000 bytes, rounded up to 524,288; scale 4 covers it.
    assert_eq!(TcpWindowScaler::calibrate_buffers(4), (524_288, 262_144, 4));
    assert_eq!(TcpWindowScaler::calculate_scale(usize::MAX), 14);
    assert_eq!(TcpWindowScaler::calculate_scale(65_536), 1);
}

#[test]
fn socket_config_builders() {
    let c = TcpSocketConfig::new();
    assert_eq!(c.window_scale, TCP_WINDOW_SCALE);
    assert_eq!(c.rx_buffer_size, TCP_RX_BUF_SIZE);
    let c = c.with_remote([10, 0, 0, 1], 443).with_local_port(5000).with_window_scale(20);
    assert_eq!(c.remote_addr, [10, 0, 0, 1]);
    assert_eq!(c.remote_port, 443);
    assert_eq!(c.local_port, 5000);
    assert_eq!(c.window_scale, 14);
    assert_eq!(TcpSocketConfig::default(), TcpSocketConfig::new());
}

#[test]
fn socket_timers_follow_the_effective_scale() {
    let t = window_tuning(TcpSocketConfig::new(), 256 * 1024);
    assert_eq!((t.ack_delay_ms, t.timeout_ms, t.keep_alive_ms), (5, 250, 500));
    let big = TcpSocketConfig::new().with_window_scale(14).with_buffers(8 << 20, 8 << 20);
    let t = window_tuning(big, 65_535);
    assert_eq!((t.ack_delay_ms, t.timeout_ms), (2, 400));
    let profile = rtt_profile(4);
    assert_eq!(profile.rx_buffer_size, 524_288);
    assert_eq!(profile.tx_buffer_size, 262_144);
    assert_eq!(profile.window_scale, 4);
}

#[test]
fn write_of_nothing_taken_fails() {
    assert_eq!(write_outcome(5, 0), Err(NetworkIoError::WriteZero));
    assert_eq!(write_outcome(0, 0), Ok(0));
    assert_eq!(write_outcome(5, 3), Ok(3));
    assert_eq!(NetworkIoError::Send.to_string(), "send failed");
}

fn driver_with_slab(objects: usize) -> VirtioNetDriver {
    let mut slab = SlabAllocator::new(FRAME_SLOT_SIZE, objects);
    slab.init(0x40000);
    VirtioNetDriver::new(VirtioNetDriver::MMIO_BASE, slab, 0)
}

#[test]
fn test_dma_roundtrip_without_extra_copy() {
    let mut driver = driver_with_slab(8);
    let dma_ptr = driver.alloc_dma_buffer();
    assert!(dma_ptr != 0);
    driver.write_dma_buffer(dma_ptr, b"sos-phase2");
    let tx_len = driver.submit_tx_dma(dma_ptr, b"sos-phase2".len()).unwrap();
    assert_eq!(tx_len, b"sos-phase2".len());
    let (rx_ptr, rx_len) = driver.receive_dma_slot().unwrap();
    assert_eq!(rx_ptr, dma_ptr);
    assert_eq!(rx_len, b"sos-phase2".len());
    let out = driver.read_dma_buffer(rx_ptr, rx_len);
    assert_eq!(&out[..rx_len], b"sos-phase2");
    driver.release_dma_buffer(rx_ptr);
}

#[test]
fn transmitted_frames_come_back_in_order() {
    let mut driver = driver_with_slab(4);
    assert!(!driver.can_receive());
    assert_eq!(driver.transmit_frame(b"one"), Some(3));
    assert_eq!(driver.transmit_frame(b"second"), Some(6));
    assert!(driver.can_receive());
    let mut buf = vec![0u8; 4];
    assert_eq!(driver.receive_frame(&mut buf), Some(3));
    assert_eq!(&buf[..3], b"one");
    assert_eq!(driver.receive_frame(&mut buf), Some(4));
    assert_eq!(&buf, b"seco");
    assert_eq!(driver.receive_frame(&mut buf), None);
    assert!(driver.can_transmit());
    assert_eq!(driver.frame_capacity(), 2048);
    assert_eq!(driver.mac_address(), [0x02, 0, 0, 0, 0, 0x01]);
}

#[test]
fn transmit_fails_when_the_slab_is_exhausted() {
    let mut driver = driver_with_slab(1);
    assert_eq!(driver.transmit_frame(b"a"), Some(1));
    assert_eq!(driver.transmit_frame(b"b"), None);
    assert!(!driver.loopback_inject(b"c"));
    let mut buf = vec![0u8; 8];
    assert_eq!(driver.receive_frame(&mut buf), Some(1));
    assert!(driver.loopback_inject(b"c"));
}

#[test]
fn long_frames_are_cut_to_one_buffer() {
    let mut driver = driver_with_slab(2);
    let frame = vec![7u8; 3000];
    assert_eq!(driver.transmit_frame(&frame), Some(2048));
    let mut big = vec![0u8; 4096];
    assert_eq!(driver.receive_frame(&mut big), Some(2048));
}

#[test]
fn feature_negotiation_keeps_the_supported_bits() {
    let all = VIRTIO_NET_F_CSUM | VIRTIO_NET_F_MAC | VIRTIO_NET_F_MRG_RXBUF | VIRTIO_NET_F_STATUS;
    assert_eq!(negotiate_features(u32::MAX), all);
    assert_eq!(negotiate_features(1 << 3), 0);
    assert_eq!(acknowledge_status(0), 3);
    assert_eq!(features_ok_status(3), 11);
    assert_eq!(driver_ok_status(11), 15);
    assert!(features_accepted(11));
    assert!(!features_accepted(3));
    let slab = SlabAllocator::new(FRAME_SLOT_SIZE, 2);
    assert!(VirtioNetDriver::init(VirtioNetDriver::MMIO_BASE, slab, u32::MAX, 3).is_none());
    let slab = SlabAllocator::new(FRAME_SLOT_SIZE, 2);
    assert!(VirtioNetDriver::init(VirtioNetDriver::MMIO_BASE, slab, u32::MAX, 11).is_some());
}

#[test]
fn tls_session_states() {
    let mut s = TlsSession::new();
    assert_eq!(s.state(), TlsState::Initial);
    assert_eq!(s.require_connection(), Err(TlsSessionError::MissingHandshake));
    assert_eq!(s.begin_open(), Ok(()));
    assert_eq!(s.state(), TlsState::HandshakeInProgress);
    s.finish_open(false);
    assert_eq!(s.state(), TlsState::Error);
    assert_eq!(s.require_connection(), Err(TlsSessionError::MissingHandshake));
    assert_eq!(s.begin_open(), Err(TlsSessionError::RandomSourceSpent));
    let mut ok = TlsSession::new();
    ok.begin_open().unwrap();
    ok.finish_open(true);
    assert_eq!(ok.state(), TlsState::Connected);
    assert_eq!(ok.require_connection(), Ok(()));
}

#[test]
fn display_status_strings_match_contract() {
    assert_eq!(sos::network::ReadinessStatus::Ready.to_string(), "ready");
    assert_eq!(sos::network::ReadinessStatus::NotReady.to_string(), "not-ready");
}
