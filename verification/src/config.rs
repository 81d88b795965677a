//! What the agent is told once, when it starts.
use crate::handshake::Credentials;
use crate::text::decimal;
use vstd::prelude::*;
use vstd::string::*;

verus! {

/// `n` in decimal, as characters.
pub open spec fn decimal_chars(n: nat) -> Seq<char> {
    decimal(n).map_values(|b: u8| b as char)
}

/// The agent's settings. They are made once and only read afterwards.
#[derive(Debug, PartialEq, Eq)]
pub struct Config {
    /// The server's host name or address.
    pub server: String,
    /// The server's TCP port.
    pub port: u16,
    /// What the agent presents when the server asks who it is.
    pub credentials: Credentials,
    /// Seconds from one report to the next, not counting the time that a
    /// report takes.
    pub interval: u64,
}

fn digit_text(d: u64) -> (text: &'static str)
    requires
        d < 10,
    ensures
        text@ == seq![(0x30 + d) as u8 as char],
{
    proof {
        reveal_strlit("0");
        reveal_strlit("1");
        reveal_strlit("2");
        reveal_strlit("3");
        reveal_strlit("4");
        reveal_strlit("5");
        reveal_strlit("6");
        reveal_strlit("7");
        reveal_strlit("8");
        reveal_strlit("9");
    }
    let text: &'static str = match d {
        0 => "0",
        1 => "1",
        2 => "2",
        3 => "3",
        4 => "4",
        5 => "5",
        6 => "6",
        7 => "7",
        8 => "8",
        _ => "9",
    };
    assert(text@ =~= seq![(0x30 + d) as u8 as char]);
    text
}

fn push_decimal_chars(out: &mut String, n: u64)
    ensures
        final(out)@ == old(out)@ + decimal_chars(n as nat),
    decreases n,
{
    if n >= 10 {
        push_decimal_chars(out, n / 10);
    }
    out.append(digit_text(n % 10));
    assert(out@ =~= old(out)@ + decimal_chars(n as nat));
}

impl Config {
    /// The server's address as a session is opened to it: the host, a colon,
    /// the port in decimal.
    pub open spec fn address_text(self) -> Seq<char> {
        self.server@ + seq![':'] + decimal_chars(self.port as nat)
    }

    /// The server's address, as a session is opened to it.
    pub fn address(&self) -> (address: String)
        ensures
            address@ == self.address_text(),
    {
        let mut address: String = self.server.clone();
        proof {
            reveal_strlit(":");
        }
        address.append(":");
        push_decimal_chars(&mut address, self.port as u64);
        assert(address@ =~= self.address_text());
        address
    }
}

} // verus!
