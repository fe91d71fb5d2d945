//! Network configuration of a node: subnet keys, the subnet file, and the
//! receiver and service that apply the configuration a node is sent.
//!
//! - `text`: digits, decimal text, replacing, splitting and trimming characters.
//! - `net`: IPv4 and IPv6 networks and their CIDR text.
//! - `key`: subnet keys (`10.0.1.0-24&fc00::-64`), read and written.
//! - `subnet`: the subnet file's contents and the networks read from its bytes.
//! - `receiver`: the receiver's builder, configuration messages and the steps
//!   they ask for, and the service's start/stop decisions.
pub mod text;
pub mod net;
pub mod key;
pub mod subnet;
pub mod receiver;
