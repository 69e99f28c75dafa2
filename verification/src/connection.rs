//! The kernel connection file: the transport, address and ports of the five
//! Jupyter sockets, and the key that signs messages.
use vstd::prelude::*;

use crate::chars::{decimal, extend_str, push_decimal, string_from};

verus! {

broadcast use vstd::string::group_string_axioms;

/// One of the five sockets of a Jupyter kernel.
#[derive(Debug, Clone, Copy, PartialEq, Eq, Structural)]
pub enum Channel {
    Shell,
    Iopub,
    Stdin,
    Control,
    Heartbeat,
}

/// The contents of a kernel connection file.
#[derive(Debug, Clone)]
pub struct ConnectionFile {
    pub ip: String,
    pub transport: String,
    pub shell_port: u16,
    pub iopub_port: u16,
    pub stdin_port: u16,
    pub control_port: u16,
    pub hb_port: u16,
    pub key: String,
    pub signature_scheme: String,
    pub kernel_name: String,
}

/// The signature scheme a connection file uses when it names none.
pub fn default_signature_scheme() -> (r: String)
    ensures
        r@ == "hmac-sha256"@,
{
    let mut out: Vec<char> = Vec::new();
    extend_str(&mut out, "hmac-sha256");
    string_from(out.as_slice())
}

impl ConnectionFile {
    /// The port of a channel.
    pub open spec fn port_of(&self, channel: Channel) -> u16 {
        match channel {
            Channel::Shell => self.shell_port,
            Channel::Iopub => self.iopub_port,
            Channel::Stdin => self.stdin_port,
            Channel::Control => self.control_port,
            Channel::Heartbeat => self.hb_port,
        }
    }

    /// `transport://ip:port` for a channel.
    pub open spec fn endpoint_spec(&self, channel: Channel) -> Seq<char> {
        self.transport@ + "://"@ + self.ip@ + ":"@ + decimal(self.port_of(channel) as nat)
    }

    /// The one-line summary of the connection shown in the status area.
    pub open spec fn summary_spec(&self) -> Seq<char> {
        "transport="@ + self.transport@ + " ip="@ + self.ip@
            + " shell="@ + decimal(self.shell_port as nat)
            + " iopub="@ + decimal(self.iopub_port as nat)
            + " stdin="@ + decimal(self.stdin_port as nat)
            + " control="@ + decimal(self.control_port as nat)
            + " hb="@ + decimal(self.hb_port as nat)
    }

    /// The ZeroMQ endpoint of a channel.
    pub fn endpoint(&self, channel: Channel) -> (r: String)
        ensures
            r@ == self.endpoint_spec(channel),
    {
        let port = match channel {
            Channel::Shell => self.shell_port,
            Channel::Iopub => self.iopub_port,
            Channel::Stdin => self.stdin_port,
            Channel::Control => self.control_port,
            Channel::Heartbeat => self.hb_port,
        };
        let mut out: Vec<char> = Vec::new();
        extend_str(&mut out, self.transport.as_str());
        extend_str(&mut out, "://");
        extend_str(&mut out, self.ip.as_str());
        extend_str(&mut out, ":");
        push_decimal(&mut out, port as u64);
        string_from(out.as_slice())
    }

    /// `transport=.. ip=.. shell=.. iopub=.. stdin=.. control=.. hb=..`.
    pub fn summary(&self) -> (r: String)
        ensures
            r@ == self.summary_spec(),
    {
        let mut out: Vec<char> = Vec::new();
        extend_str(&mut out, "transport=");
        extend_str(&mut out, self.transport.as_str());
        extend_str(&mut out, " ip=");
        extend_str(&mut out, self.ip.as_str());
        extend_str(&mut out, " shell=");
        push_decimal(&mut out, self.shell_port as u64);
        extend_str(&mut out, " iopub=");
        push_decimal(&mut out, self.iopub_port as u64);
        extend_str(&mut out, " stdin=");
        push_decimal(&mut out, self.stdin_port as u64);
        extend_str(&mut out, " control=");
        push_decimal(&mut out, self.control_port as u64);
        extend_str(&mut out, " hb=");
        push_decimal(&mut out, self.hb_port as u64);
        string_from(out.as_slice())
    }
}

} // verus!
