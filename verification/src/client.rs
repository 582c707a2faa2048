//! Remote endpoint addressing: scheme, host and port, and the URL
//! strings built from them. The port renders in decimal through a
//! verified digit-by-digit conversion.

use vstd::prelude::*;
use vstd::string::StringExecFns;

verus! {

/// Connection scheme of a remote endpoint.
pub enum Scheme {
    HTTP,
    HTTPS,
}

/// The characters a scheme renders as.
pub open spec fn scheme_str(s: Scheme) -> Seq<char> {
    match s {
        Scheme::HTTP => "http"@,
        Scheme::HTTPS => "https"@,
    }
}

/// A remote host name.
pub struct Host(String);

impl View for Host {
    type V = Seq<char>;

    closed spec fn view(&self) -> Seq<char> {
        self.0@
    }
}

impl Host {
    /// Wraps a host name.
    pub fn new(host: String) -> (r: Host)
        ensures
            r@ == host@,
    {
        Host(host)
    }
}

/// A TCP port; zero is rejected at construction.
pub struct Port(u16);

impl View for Port {
    type V = u16;

    closed spec fn view(&self) -> u16 {
        self.0
    }
}

/// The rejection a zero port gets.
#[derive(Debug)]
pub struct PortOutOfRange;

impl Port {
    /// Accepts any port from 1 to 65535; rejects 0.
    pub fn new(port: u16) -> (r: Result<Port, PortOutOfRange>)
        ensures
            r is Ok <==> port >= 1,
            r matches Ok(p) ==> p@ == port,
    {
        if port < 1 {
            return Err(PortOutOfRange);
        }
        Ok(Port(port))
    }
}

/// The decimal digit character for `d` in 0..10.
pub open spec fn dec_digit(d: int) -> char {
    if d == 0 {
        '0'
    } else if d == 1 {
        '1'
    } else if d == 2 {
        '2'
    } else if d == 3 {
        '3'
    } else if d == 4 {
        '4'
    } else if d == 5 {
        '5'
    } else if d == 6 {
        '6'
    } else if d == 7 {
        '7'
    } else if d == 8 {
        '8'
    } else {
        '9'
    }
}

/// The decimal rendering of a non-negative integer, no leading zeros.
pub open spec fn dec_str(n: int) -> Seq<char>
    decreases n,
{
    if n < 10 {
        seq![dec_digit(n)]
    } else {
        dec_str(n / 10).push(dec_digit(n % 10))
    }
}

/// Renders a number in decimal.
fn u16_to_string(n: u16) -> (r: String)
    ensures
        r@ == dec_str(n as int),
    decreases n,
{
    let d: &str = match n % 10 {
        0 => "0",
        1 => "1",
        2 => "2",
        3 => "3",
        4 => "4",
        5 => "5",
        6 => "6",
        7 => "7",
        8 => "8",
        _ => "9",
    };
    proof {
        reveal_strlit("0");
        reveal_strlit("1");
        reveal_strlit("2");
        reveal_strlit("3");
        reveal_strlit("4");
        reveal_strlit("5");
        reveal_strlit("6");
        reveal_strlit("7");
        reveal_strlit("8");
        reveal_strlit("9");
        assert(d@ =~= seq![dec_digit(n as int % 10)]);
    }
    if n < 10 {
        String::from_str(d)
    } else {
        let mut s = u16_to_string(n / 10);
        s.append(d);
        proof {
            assert(s@ =~= dec_str(n as int / 10).push(dec_digit(n as int % 10)));
        }
        s
    }
}

/// A remote endpoint: a display name and where to reach the store.
pub struct ConsulClient {
    pub name: String,
    pub host: Host,
    pub port: Port,
    pub scheme: Scheme,
}

impl ConsulClient {
    /// The base address this endpoint renders as.
    pub open spec fn address_view(&self) -> Seq<char> {
        scheme_str(self.scheme) + "://"@ + self.host@ + ":"@ + dec_str(self.port@ as int)
    }

    /// Renders `scheme://host:port`.
    pub fn address(&self) -> (r: String)
        ensures
            r@ == self.address_view(),
    {
        let scheme_s: &str = match self.scheme {
            Scheme::HTTP => "http",
            Scheme::HTTPS => "https",
        };
        proof {
            reveal_strlit("http");
            reveal_strlit("https");
            assert(scheme_s@ == scheme_str(self.scheme));
        }
        let mut s = String::from_str(scheme_s);
        s.append("://");
        s.append(self.host.0.as_str());
        s.append(":");
        let port_s = u16_to_string(self.port.0);
        s.append(port_s.as_str());
        s
    }

    /// Renders the key-value URL for `key`:
    /// `scheme://host:port/v1/kv/key`.
    pub fn kv_url(&self, key: &String) -> (r: String)
        ensures
            r@ == self.address_view() + "/v1/kv/"@ + key@,
    {
        let mut s = self.address();
        s.append("/v1/kv/");
        s.append(key.as_str());
        s
    }
}

} // verus!
