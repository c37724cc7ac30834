//! Networking: the readiness suite, TCP window and buffer tuning, the
//! VirtIO network driver's queues and DMA buffers, and the TLS session
//! states.
pub mod readiness;
pub mod stack;
pub mod tls;
pub mod virtio;

pub use readiness::{ReadinessCheck, ReadinessStatus, ReadinessSuite};
pub use stack::{NetworkIoError, TcpSocketConfig, TcpWindowScaler};
pub use tls::{TlsSession, TlsState, TLS_MAX_FRAME_SIZE};
pub use virtio::VirtioNetDriver;
