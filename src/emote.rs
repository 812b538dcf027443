use vstd::prelude::*;
use crate::text::string_of;

verus! {

/// The service an emote comes from.
#[derive(Debug, Clone, Copy, PartialEq, Eq, Structural)]
pub enum EmoteServer {
    Twitch,
    Bttv,
    FrankerFaceZ,
    SevenTv,
}

/// An emote: the service that hosts it and its id there.
#[derive(Debug, Clone, Copy, PartialEq, Eq, Structural)]
pub struct Emote {
    pub server: EmoteServer,
    pub id: u32,
}

impl EmoteServer {
    /// The name of the service, as written in `server:id`.
    pub fn name(&self) -> (r: &'static str)
        ensures
            r@ == server_name(*self),
    {
        match self {
            EmoteServer::Twitch => "Twitch",
            EmoteServer::Bttv => "Bttv",
            EmoteServer::FrankerFaceZ => "FrankerFaceZ",
            EmoteServer::SevenTv => "SevenTv",
        }
    }
}

pub open spec fn server_name(s: EmoteServer) -> Seq<char> {
    match s {
        EmoteServer::Twitch => "Twitch"@,
        EmoteServer::Bttv => "Bttv"@,
        EmoteServer::FrankerFaceZ => "FrankerFaceZ"@,
        EmoteServer::SevenTv => "SevenTv"@,
    }
}

/// The decimal digits of `n`, without leading zeros.
pub open spec fn decimal(n: nat) -> Seq<char>
    decreases n,
{
    if n < 10 {
        seq![digit_char(n)]
    } else {
        decimal(n / 10).push(digit_char(n % 10))
    }
}

/// The character of the digit `d`.
pub open spec fn digit_char(d: nat) -> char {
    char_of_digit(d as u8)
}

pub open spec fn char_of_digit(d: u8) -> char {
    if d == 0 { '0' } else if d == 1 { '1' } else if d == 2 { '2' } else if d == 3 { '3' }
    else if d == 4 { '4' } else if d == 5 { '5' } else if d == 6 { '6' } else if d == 7 { '7' }
    else if d == 8 { '8' } else { '9' }
}

fn digit_to_char(d: u8) -> (c: char)
    ensures
        c == char_of_digit(d),
{
    if d == 0 { '0' } else if d == 1 { '1' } else if d == 2 { '2' } else if d == 3 { '3' }
    else if d == 4 { '4' } else if d == 5 { '5' } else if d == 6 { '6' } else if d == 7 { '7' }
    else if d == 8 { '8' } else { '9' }
}

/// The decimal digits of `n`.
pub fn decimal_chars(n: u32) -> (r: Vec<char>)
    ensures
        r@ == decimal(n as nat),
{
    let mut out: Vec<char> = Vec::new();
    let mut m: u32 = n;
    while m >= 10
        invariant
            decimal(n as nat) == decimal(m as nat) + out@,
        decreases m,
    {
        let d = (m % 10) as u8;
        let ghost before = out@;
        out.insert(0, digit_to_char(d));
        assert(decimal(m as nat) == decimal((m / 10) as nat).push(digit_char((m % 10) as nat)));
        assert(decimal(m as nat) + before =~= decimal((m / 10) as nat) + out@);
        m = m / 10;
    }
    let ghost before = out@;
    out.insert(0, digit_to_char(m as u8));
    assert(decimal(m as nat) + before =~= out@);
    out
}

impl Emote {
    /// The emote written `server:id`.
    pub fn label(&self) -> (r: String)
        ensures
            r@ == server_name(self.server) + seq![':'] + decimal(self.id as nat),
    {
        let name = self.server.name();
        let mut chars = crate::text::chars_of(name);
        chars.push(':');
        let mut digits = decimal_chars(self.id);
        chars.append(&mut digits);
        string_of(chars.as_slice())
    }
}

} // verus!
