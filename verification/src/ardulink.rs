//! Configuration of the autopilot transport link. The link itself is an
//! external collaborator; only its address bookkeeping lives here.

use vstd::prelude::*;
use crate::text::{dec_chars, u32_dec};

verus! {

/// How the transport connects: a serial device or a UDP or TCP endpoint,
/// each with a port or baud rate.
pub enum ArdulinkConnectionType {
    Serial(String, u32),
    Udp(String, u32),
    Tcp(String, u32),
}

/// Transport configuration.
pub struct ArdulinkConfig {
    pub connection: ArdulinkConnectionType,
}

impl ArdulinkConfig {
    /// A configuration around the given connection.
    pub fn new(connection: ArdulinkConnectionType) -> (r: ArdulinkConfig)
        ensures
            r.connection == connection,
    {
        ArdulinkConfig { connection }
    }
}

impl ArdulinkConnectionType {
    /// The connection string the transport dials:
    /// `serial:<path>:<baud>`, `udpin:<addr>:<port>` or
    /// `tcpout:<addr>:<port>`.
    pub fn connection_string(&self) -> (r: String)
        ensures
            (match self {
                ArdulinkConnectionType::Serial(path, baud) =>
                    r@ == "serial:"@ + path@ + ":"@ + dec_chars(*baud as nat),
                ArdulinkConnectionType::Udp(addr, port) =>
                    r@ == "udpin:"@ + addr@ + ":"@ + dec_chars(*port as nat),
                ArdulinkConnectionType::Tcp(addr, port) =>
                    r@ == "tcpout:"@ + addr@ + ":"@ + dec_chars(*port as nat),
            }),
    {
        match self {
            ArdulinkConnectionType::Serial(path, baud) => {
                let mut s = String::from_str("serial:");
                s.append(path.as_str());
                s.append(":");
                let d = u32_dec(*baud);
                s.append(d.as_str());
                s
            },
            ArdulinkConnectionType::Udp(addr, port) => {
                let mut s = String::from_str("udpin:");
                s.append(addr.as_str());
                s.append(":");
                let d = u32_dec(*port);
                s.append(d.as_str());
                s
            },
            ArdulinkConnectionType::Tcp(addr, port) => {
                let mut s = String::from_str("tcpout:");
                s.append(addr.as_str());
                s.append(":");
                let d = u32_dec(*port);
                s.append(d.as_str());
                s
            },
        }
    }

    /// The numeric port or baud rate of the connection.
    pub fn get_port(&self) -> (r: u32)
        ensures
            (match self {
                ArdulinkConnectionType::Serial(_, port) => r == port,
                ArdulinkConnectionType::Udp(_, port) => r == port,
                ArdulinkConnectionType::Tcp(_, port) => r == port,
            }),
    {
        match self {
            ArdulinkConnectionType::Serial(_, port) => *port,
            ArdulinkConnectionType::Udp(_, port) => *port,
            ArdulinkConnectionType::Tcp(_, port) => *port,
        }
    }
}

} // verus!
