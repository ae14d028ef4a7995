//! The box's HTTP interface, as far as it is decisions and text: the login
//! response, the commands and their query parameters, and what the box's
//! answers mean.
use crate::error::FritzError;
use crate::text::{chars_of, same_text, string_of};
use vstd::prelude::*;

verus! {

/// The answer of `login_sid.lua`.
#[derive(Debug, Clone)]
pub struct SessionInfo {
    pub sid: String,
    pub challenge: String,
    pub block_time: i32,
}

/// `s` with each character outside ASCII replaced by `.`.
pub open spec fn ascii_masked(s: Seq<char>) -> Seq<char> {
    s.map_values(|c: char| if (c as u32) < 128 { c } else { '.' })
}

/// The UTF-16 code units of `c`, little-endian.
pub open spec fn char_utf16le(c: char) -> Seq<u8> {
    let u = c as u32 as int;
    if u < 0x10000 {
        seq![(u % 256) as u8, (u / 256) as u8]
    } else {
        let v = u - 0x10000;
        let hi = 0xD800 + v / 0x400;
        let lo = 0xDC00 + v % 0x400;
        seq![(hi % 256) as u8, (hi / 256) as u8, (lo % 256) as u8, (lo / 256) as u8]
    }
}

/// `s` in UTF-16, little-endian.
pub open spec fn utf16le(s: Seq<char>) -> Seq<u8>
    decreases s.len(),
{
    if s.len() == 0 {
        Seq::empty()
    } else {
        utf16le(s.drop_last()) + char_utf16le(s.last())
    }
}

pub open spec fn hex_digit(d: int) -> char {
    if d < 10 {
        (48 + d) as char
    } else {
        (87 + d) as char
    }
}

/// The bytes in lowercase hexadecimal, two digits each.
pub open spec fn hex_of(b: Seq<u8>) -> Seq<char>
    decreases b.len(),
{
    if b.len() == 0 {
        Seq::empty()
    } else {
        hex_of(b.drop_last()) + seq![hex_digit(b.last() as int / 16), hex_digit(b.last() as int % 16)]
    }
}

/// The MD5 digest of the data.
pub uninterp spec fn md5_of(data: Seq<u8>) -> Seq<u8>;

/// Relies on `md5::compute`: the 16-byte MD5 digest (`Digest(pub [u8; 16])`)
/// of the data.
#[verifier::external_body]
fn md5_digest(data: &Vec<u8>) -> (r: Vec<u8>)
    ensures
        r@ == md5_of(data@),
        r@.len() == 16,
{
    md5::compute(data).0.to_vec()
}

/// The text a login answers a challenge with, given the digest of the
/// challenge and password.
pub open spec fn response_text(challenge: Seq<char>, digest: Seq<u8>) -> Seq<char> {
    challenge + seq!['-'] + hex_of(digest)
}

/// What is hashed to answer `challenge` with `password`.
pub open spec fn hash_input(password: Seq<char>, challenge: Seq<char>) -> Seq<u8> {
    utf16le(challenge + seq!['-'] + ascii_masked(password))
}

/// The login response from the digest of the challenge and password.
pub fn response_from_digest(challenge: &str, digest: &Vec<u8>) -> (r: String)
    ensures
        r@ == response_text(challenge@, digest@),
{
    let mut out = chars_of(challenge);
    out.push('-');
    let ghost start = out@;
    let mut i: usize = 0;
    while i < digest.len()
        invariant
            i <= digest.len(),
            out@ == start + hex_of(digest@.take(i as int)),
        decreases digest.len() - i,
    {
        let b = digest[i];
        let hi = b / 16;
        let lo = b % 16;
        let ghost before = out@;
        out.push(if hi < 10 { (48 + hi) as char } else { (87 + hi) as char });
        out.push(if lo < 10 { (48 + lo) as char } else { (87 + lo) as char });
        proof {
            assert(digest@.take(i as int + 1).drop_last() =~= digest@.take(i as int));
            assert(out@ =~= start + hex_of(digest@.take(i as int + 1)));
        }
        i += 1;
    }
    proof {
        assert(digest@.take(digest.len() as int) =~= digest@);
    }
    string_of(&out)
}

/// The bytes of `cs` in UTF-16, little-endian.
pub fn utf16le_bytes(cs: &Vec<char>) -> (r: Vec<u8>)
    ensures
        r@ == utf16le(cs@),
{
    let mut r: Vec<u8> = Vec::new();
    let mut i: usize = 0;
    while i < cs.len()
        invariant
            i <= cs.len(),
            r@ == utf16le(cs@.take(i as int)),
        decreases cs.len() - i,
    {
        let u = cs[i] as u32;
        let ghost before = r@;
        if u < 0x10000 {
            r.push((u % 256) as u8);
            r.push((u / 256) as u8);
        } else {
            let v = u - 0x10000;
            let hi = 0xD800 + v / 0x400;
            let lo = 0xDC00 + v % 0x400;
            r.push((hi % 256) as u8);
            r.push((hi / 256) as u8);
            r.push((lo % 256) as u8);
            r.push((lo / 256) as u8);
        }
        proof {
            assert(cs@.take(i as int + 1).drop_last() =~= cs@.take(i as int));
            assert(r@ =~= before + char_utf16le(cs@[i as int]));
        }
        i += 1;
    }
    proof {
        assert(cs@.take(cs.len() as int) =~= cs@);
    }
    r
}

/// The string that authenticates `password` against the box's `challenge`:
/// the challenge, `-`, and the MD5 digest, in hexadecimal, of the UTF-16LE
/// text `challenge-password`, where each character of the password outside
/// ASCII becomes `.`.
pub fn request_response(password: &str, challenge: &str) -> (r: String)
    ensures
        r@ == response_text(challenge@, md5_of(hash_input(password@, challenge@))),
{
    let pw = chars_of(password);
    let mut input = chars_of(challenge);
    input.push('-');
    let ghost start = input@;
    let mut i: usize = 0;
    while i < pw.len()
        invariant
            i <= pw.len(),
            pw@ == password@,
            input@ == start + ascii_masked(pw@.take(i as int)),
        decreases pw.len() - i,
    {
        let c = pw[i];
        input.push(if (c as u32) < 128 { c } else { '.' });
        proof {
            assert(start + ascii_masked(pw@.take(i as int + 1)) =~= input@);
        }
        i += 1;
    }
    proof {
        assert(pw@.take(pw.len() as int) =~= pw@);
        assert(start =~= challenge@ + seq!['-']);
        assert(input@ =~= challenge@ + seq!['-'] + ascii_masked(password@));
    }
    let bytes = utf16le_bytes(&input);
    let digest = md5_digest(&bytes);
    response_from_digest(challenge, &digest)
}

/// The session id the box hands out before a login.
pub open spec fn default_sid() -> Seq<char> {
    "0000000000000000"@
}

/// What to do after the box's first answer to a login.
#[derive(Debug, Clone, PartialEq, Eq)]
pub enum LoginStep {
    /// The box already gave a session id.
    Authenticated(String),
    /// Answer the challenge with this response.
    Respond(String),
}

/// The box's first answer: a session id other than the default one is
/// valid as it is; otherwise the challenge is answered.
pub fn login_step(info: &SessionInfo, password: &str) -> (r: LoginStep)
    ensures
        info.sid@ != default_sid() ==> (r matches LoginStep::Authenticated(s) && s@ == info.sid@),
        info.sid@ == default_sid() ==> (r matches LoginStep::Respond(s) && s@ == response_text(
            info.challenge@,
            md5_of(hash_input(password@, info.challenge@)),
        )),
{
    if !same_text(info.sid.as_str(), "0000000000000000") {
        LoginStep::Authenticated(info.sid.clone())
    } else {
        LoginStep::Respond(request_response(password, info.challenge.as_str()))
    }
}

/// The box's answer to the challenge response: still the default session
/// id means the login failed.
pub fn login_outcome(info: &SessionInfo) -> (r: Result<String, FritzError>)
    ensures
        info.sid@ != default_sid() ==> (r matches Ok(s) && s@ == info.sid@),
        info.sid@ == default_sid() ==> r matches Err(FritzError::LoginError(_)),
{
    if same_text(info.sid.as_str(), "0000000000000000") {
        let msg = chars_of("login error - sid is still the default after login attempt");
        Err(FritzError::LoginError(string_of(&msg)))
    } else {
        Ok(info.sid.clone())
    }
}

/// The outcome of the request for a higher refresh rate, after its status.
pub fn refresh_outcome(status: u16) -> (r: Result<(), FritzError>)
    ensures
        status == 200 ==> r is Ok,
        status != 200 ==> r == Err::<(), FritzError>(FritzError::TriggerHighRefreshRateError(status)),
{
    if status != 200 {
        Err(FritzError::TriggerHighRefreshRateError(status))
    } else {
        Ok(())
    }
}

/// A command of the box's home-automation interface.
#[derive(Debug, Clone, PartialEq, Eq)]
pub enum Commands {
    GetDeviceListInfos,
    GetBasicDeviceStats { ain: String },
    SetSwitchOff { ain: String },
    SetSwitchOn { ain: String },
    SetSwitchToggle { ain: String },
}

pub open spec fn command_name(c: Commands) -> Seq<char> {
    match c {
        Commands::GetDeviceListInfos => "getdevicelistinfos"@,
        Commands::GetBasicDeviceStats { .. } => "getbasicdevicestats"@,
        Commands::SetSwitchOff { .. } => "setswitchoff"@,
        Commands::SetSwitchOn { .. } => "setswitchon"@,
        Commands::SetSwitchToggle { .. } => "setswitchtoggle"@,
    }
}

pub open spec fn command_ain(c: Commands) -> Option<Seq<char>> {
    match c {
        Commands::GetDeviceListInfos => None,
        Commands::GetBasicDeviceStats { ain } => Some(ain@),
        Commands::SetSwitchOff { ain } => Some(ain@),
        Commands::SetSwitchOn { ain } => Some(ain@),
        Commands::SetSwitchToggle { ain } => Some(ain@),
    }
}

pub open spec fn pair_view(p: (String, String)) -> (Seq<char>, Seq<char>) {
    (p.0@, p.1@)
}

/// The query parameters of the command: `switchcmd`, `sid` and, for a
/// command on one device, `ain`.
pub open spec fn command_query(c: Commands, sid: Seq<char>) -> Seq<(Seq<char>, Seq<char>)> {
    let base = seq![("switchcmd"@, command_name(c)), ("sid"@, sid)];
    match command_ain(c) {
        Some(a) => base.push(("ain"@, a)),
        None => base,
    }
}

impl Commands {
    /// A copy of the command.
    pub fn clone_command(&self) -> (r: Commands)
        ensures
            r == *self,
    {
        match self {
            Commands::GetDeviceListInfos => Commands::GetDeviceListInfos,
            Commands::GetBasicDeviceStats { ain } => Commands::GetBasicDeviceStats { ain: ain.clone() },
            Commands::SetSwitchOff { ain } => Commands::SetSwitchOff { ain: ain.clone() },
            Commands::SetSwitchOn { ain } => Commands::SetSwitchOn { ain: ain.clone() },
            Commands::SetSwitchToggle { ain } => Commands::SetSwitchToggle { ain: ain.clone() },
        }
    }

    /// The command's name in the interface.
    pub fn name(&self) -> (r: &'static str)
        ensures
            r@ == command_name(*self),
    {
        match self {
            Commands::GetDeviceListInfos => "getdevicelistinfos",
            Commands::GetBasicDeviceStats { .. } => "getbasicdevicestats",
            Commands::SetSwitchOff { .. } => "setswitchoff",
            Commands::SetSwitchOn { .. } => "setswitchon",
            Commands::SetSwitchToggle { .. } => "setswitchtoggle",
        }
    }

    /// The device the command is about, if any.
    pub fn ain(&self) -> (r: Option<&String>)
        ensures
            match command_ain(*self) {
                Some(a) => r matches Some(s) && s@ == a,
                None => r is None,
            },
    {
        match self {
            Commands::GetDeviceListInfos => None,
            Commands::GetBasicDeviceStats { ain } => Some(ain),
            Commands::SetSwitchOff { ain } => Some(ain),
            Commands::SetSwitchOn { ain } => Some(ain),
            Commands::SetSwitchToggle { ain } => Some(ain),
        }
    }

    /// The query parameters that send the command with session `sid`.
    pub fn query(&self, sid: &str) -> (r: Vec<(String, String)>)
        ensures
            r@.map_values(|p: (String, String)| pair_view(p)) == command_query(*self, sid@),
    {
        let mut r: Vec<(String, String)> = Vec::new();
        r.push(("switchcmd".to_owned(), self.name().to_owned()));
        r.push(("sid".to_owned(), sid.to_owned()));
        match self.ain() {
            Some(a) => r.push(("ain".to_owned(), a.clone())),
            None => {},
        }
        proof {
            assert(r@.map_values(|p: (String, String)| pair_view(p)) =~= command_query(*self, sid@));
        }
        r
    }
}

} // verus!
