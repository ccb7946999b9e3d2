//! Which fields the node's discovery record (ENR) carries, decided from
//! the network configuration: addresses, UDP ports, and — with a fallback
//! to the listening ports — the TCP and QUIC ports. Building and signing
//! the record itself is the discovery stack's work; this module fixes what
//! goes into it.

use vstd::prelude::*;

verus! {

/// The parts of the network configuration that shape the discovery record.
/// A port of zero in a listening address means none is in use.
#[derive(Clone, Copy, Debug, PartialEq, Eq, Structural)]
pub struct EnrConfig {
    /// Address to advertise, IPv4, as a packed integer.
    pub enr_address_v4: Option<u32>,
    /// Address to advertise, IPv6, as a packed integer.
    pub enr_address_v6: Option<u128>,
    pub enr_udp4_port: Option<u16>,
    pub enr_udp6_port: Option<u16>,
    pub enr_tcp4_port: Option<u16>,
    pub enr_tcp6_port: Option<u16>,
    pub enr_quic4_port: Option<u16>,
    pub enr_quic6_port: Option<u16>,
    /// Whether the faster transport is switched off.
    pub disable_quic_support: bool,
    /// Whether the node listens over IPv4, and on which ports.
    pub listen_v4: Option<ListenPorts>,
    /// Whether the node listens over IPv6, and on which ports.
    pub listen_v6: Option<ListenPorts>,
}

/// The ports of one listening address; zero means not listening there.
#[derive(Clone, Copy, Debug, PartialEq, Eq, Structural)]
pub struct ListenPorts {
    pub tcp_port: u16,
    pub quic_port: u16,
}

/// The fields the discovery record will carry.
#[derive(Clone, Copy, Debug, PartialEq, Eq, Structural)]
pub struct EnrFields {
    pub ip4: Option<u32>,
    pub ip6: Option<u128>,
    pub udp4: Option<u16>,
    pub udp6: Option<u16>,
    pub tcp4: Option<u16>,
    pub tcp6: Option<u16>,
    pub quic4: Option<u16>,
    pub quic6: Option<u16>,
}

/// An explicitly configured port, or the listening port when one is in use.
pub open spec fn port_or_listen(explicit: Option<u16>, listen: Option<u16>) -> Option<u16> {
    match explicit {
        Some(p) => Some(p),
        None => match listen {
            Some(p) => if p != 0 {
                Some(p)
            } else {
                None
            },
            None => None,
        },
    }
}

/// The TCP listening port of `l`, if the node listens there.
pub open spec fn listen_tcp(l: Option<ListenPorts>) -> Option<u16> {
    match l {
        Some(lp) => Some(lp.tcp_port),
        None => None,
    }
}

/// The QUIC listening port of `l`, if the node listens there.
pub open spec fn listen_quic(l: Option<ListenPorts>) -> Option<u16> {
    match l {
        Some(lp) => Some(lp.quic_port),
        None => None,
    }
}

/// Decide the discovery record's fields: advertise the configured
/// addresses and UDP ports as they stand; advertise QUIC ports only while
/// QUIC support is on, and TCP ports always, each falling back to the
/// matching listening port when none is configured.
pub fn enr_fields(config: &EnrConfig) -> (r: EnrFields)
    ensures
        r.ip4 == config.enr_address_v4,
        r.ip6 == config.enr_address_v6,
        r.udp4 == config.enr_udp4_port,
        r.udp6 == config.enr_udp6_port,
        r.tcp4 == port_or_listen(config.enr_tcp4_port, listen_tcp(config.listen_v4)),
        r.tcp6 == port_or_listen(config.enr_tcp6_port, listen_tcp(config.listen_v6)),
        r.quic4 == (if config.disable_quic_support {
            None
        } else {
            port_or_listen(config.enr_quic4_port, listen_quic(config.listen_v4))
        }),
        r.quic6 == (if config.disable_quic_support {
            None
        } else {
            port_or_listen(config.enr_quic6_port, listen_quic(config.listen_v6))
        }),
{
    let quic4 = if config.disable_quic_support {
        None
    } else {
        resolve_port(config.enr_quic4_port, quic_of(&config.listen_v4))
    };
    let quic6 = if config.disable_quic_support {
        None
    } else {
        resolve_port(config.enr_quic6_port, quic_of(&config.listen_v6))
    };
    let tcp4 = resolve_port(config.enr_tcp4_port, tcp_of(&config.listen_v4));
    let tcp6 = resolve_port(config.enr_tcp6_port, tcp_of(&config.listen_v6));
    EnrFields {
        ip4: config.enr_address_v4,
        ip6: config.enr_address_v6,
        udp4: config.enr_udp4_port,
        udp6: config.enr_udp6_port,
        tcp4,
        tcp6,
        quic4,
        quic6,
    }
}

/// The TCP port of a listening address, when there is one.
fn tcp_of(l: &Option<ListenPorts>) -> (r: Option<u16>)
    ensures
        r == listen_tcp(*l),
{
    match l {
        Some(lp) => Some(lp.tcp_port),
        None => None,
    }
}

/// The QUIC port of a listening address, when there is one.
fn quic_of(l: &Option<ListenPorts>) -> (r: Option<u16>)
    ensures
        r == listen_quic(*l),
{
    match l {
        Some(lp) => Some(lp.quic_port),
        None => None,
    }
}

/// An explicit port, else a non-zero listening port.
fn resolve_port(explicit: Option<u16>, listen: Option<u16>) -> (r: Option<u16>)
    ensures
        r == port_or_listen(explicit, listen),
{
    match explicit {
        Some(p) => Some(p),
        None => match listen {
            Some(p) => if p != 0 {
                Some(p)
            } else {
                None
            },
            None => None,
        },
    }
}

} // verus!
