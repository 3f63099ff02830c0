//! Socket addresses: what the library reads of them, and their printed forms.

use vstd::prelude::*;
use vstd::utf8::encode_utf8;
use crate::decimal::nat_text;
use crate::decimal::push_u64;
use crate::text::push_char;
use crate::text::str_eq;

verus! {

/// A socket address as mathematics sees it.
#[verifier::ext_equal]
pub struct SocketAddressView {
    pub ip: Seq<char>,
    pub port: u16,
    pub flow: u32,
    pub scope: u32,
    pub text: Seq<char>,
}

/// A socket address.
#[derive(Debug, PartialEq, Eq)]
pub struct SocketAddress {
    /// The IP address in its usual form.
    pub ip: String,
    /// The port.
    pub port: u16,
    /// The flow information of an IPv6 address, zero for IPv4.
    pub flow: u32,
    /// The scope of an IPv6 address, zero for IPv4.
    pub scope: u32,
    /// The whole address in its usual form.
    pub text: String,
}

impl View for SocketAddress {
    type V = SocketAddressView;

    open spec fn view(&self) -> SocketAddressView {
        SocketAddressView {
            ip: self.ip@,
            port: self.port,
            flow: self.flow,
            scope: self.scope,
            text: self.text@,
        }
    }
}

impl SocketAddressView {
    /// The address as a value has it on the wire.
    pub open spec fn wire_text(self) -> Seq<char> {
        self.ip + seq![':'] + nat_text(self.port as nat)
    }
}

impl Clone for SocketAddress {
    fn clone(&self) -> (copy: SocketAddress)
        ensures
            copy@ == self@,
    {
        SocketAddress {
            ip: self.ip.clone(),
            port: self.port,
            flow: self.flow,
            scope: self.scope,
            text: self.text.clone(),
        }
    }
}

impl SocketAddress {
    /// Whether two addresses are the same.
    pub fn same(&self, other: &SocketAddress) -> (r: bool)
        ensures
            r == (self@ == other@),
    {
        self.port == other.port && self.flow == other.flow && self.scope == other.scope && str_eq(
            self.ip.as_str(),
            other.ip.as_str(),
        ) && str_eq(self.text.as_str(), other.text.as_str())
    }

    /// The address as a value has it on the wire: the IP address, a colon and the port.
    pub fn to_wire(&self) -> (bytes: Vec<u8>)
        ensures
            bytes@ == encode_utf8(self@.wire_text()),
    {
        let mut text = self.ip.clone();
        push_char(&mut text, ':');
        push_u64(&mut text, self.port as u64);
        assert(text@ =~= self@.wire_text());
        text.as_str().as_bytes_vec()
    }
}

/// A host and a port, with a colon between them.
pub fn address_text(host: &str, port: u16) -> (text: String)
    ensures
        text@ == host@ + seq![':'] + nat_text(port as nat),
{
    let mut text = host.to_owned();
    push_char(&mut text, ':');
    push_u64(&mut text, port as u64);
    assert(text@ =~= host@ + seq![':'] + nat_text(port as nat));
    text
}

} // verus!
