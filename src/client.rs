//! The client's session logic: which session id a request uses, when to log
//! in, and when a refused request is tried once more after a new login. A
//! driver performs the logins and the HTTP requests; this state machine
//! decides.
use crate::api::Commands;
use crate::error::FritzError;
use vstd::prelude::*;

verus! {

/// The main interface to the box: the credentials and, once logged in, the
/// session id.
#[derive(Debug, Clone)]
pub struct FritzClient {
    user: String,
    password: String,
    sid: Option<String>,
}

pub struct ClientView {
    pub user: Seq<char>,
    pub password: Seq<char>,
    pub sid: Option<Seq<char>>,
}

impl View for FritzClient {
    type V = ClientView;

    closed spec fn view(&self) -> ClientView {
        ClientView {
            user: self.user@,
            password: self.password@,
            sid: match self.sid {
                Some(s) => Some(s@),
                None => None,
            },
        }
    }
}

/// What a request waits for.
#[derive(Debug, Clone, Copy, PartialEq, Eq, Structural)]
pub enum Awaiting {
    /// A login, before the first try.
    Login,
    /// The box's answer to the command.
    Response,
    /// A new login, after the box refused the command.
    Relogin,
}

/// A request in progress.
#[derive(Debug, Clone)]
pub struct Request {
    pub cmd: Commands,
    pub attempt: usize,
    pub awaiting: Awaiting,
}

/// What the driver does next for a request.
#[derive(Debug)]
pub enum RequestAction {
    /// Log in, and hand the outcome back.
    Login,
    /// Send the command with the session id, and hand the answer back.
    Send { cmd: Commands, sid: String },
    /// The request is done.
    Finish(Result<String, FritzError>),
}

/// `r` starts try number `attempt` of `cmd` for a client in state `c`: with
/// the session id where there is one, with a login where there is none.
pub open spec fn starts_attempt(c: ClientView, cmd: Commands, attempt: usize, r: (Request, RequestAction)) -> bool {
    &&& r.0.cmd == cmd
    &&& r.0.attempt == attempt
    &&& match c.sid {
        Some(s) => r.0.awaiting == Awaiting::Response && (r.1 matches RequestAction::Send {
            cmd: c2,
            sid,
        } && c2 == cmd && sid@ == s),
        None => r.0.awaiting == Awaiting::Login && r.1 is Login,
    }
}

/// The session id after a login with outcome `login`.
pub open spec fn sid_after(old_sid: Option<Seq<char>>, login: Result<String, FritzError>) -> Option<Seq<char>> {
    match login {
        Ok(s) => Some(s@),
        Err(_) => old_sid,
    }
}

impl FritzClient {
    pub fn new(user: &str, password: &str) -> (r: FritzClient)
        ensures
            r@.user == user@,
            r@.password == password@,
            r@.sid is None,
    {
        FritzClient { user: user.to_owned(), password: password.to_owned(), sid: None }
    }

    pub fn user(&self) -> (r: &str)
        ensures
            r@ == self@.user,
    {
        self.user.as_str()
    }

    pub fn password(&self) -> (r: &str)
        ensures
            r@ == self@.password,
    {
        self.password.as_str()
    }

    /// Keeps the session id of a successful login.
    pub fn update_sid(&mut self, login: Result<String, FritzError>) -> (r: Result<String, FritzError>)
        ensures
            r == login,
            final(self)@.user == old(self)@.user,
            final(self)@.password == old(self)@.password,
            final(self)@.sid == sid_after(old(self)@.sid, login),
    {
        match &login {
            Ok(s) => {
                self.sid = Some(s.clone());
            },
            Err(_) => {},
        }
        login
    }

    fn request_attempt(&self, cmd: Commands, attempt: usize) -> (r: (Request, RequestAction))
        ensures
            starts_attempt(self@, cmd, attempt, r),
    {
        match &self.sid {
            Some(s) => (
                Request { cmd: cmd.clone_command(), attempt, awaiting: Awaiting::Response },
                RequestAction::Send { cmd, sid: s.clone() },
            ),
            None => (Request { cmd, attempt, awaiting: Awaiting::Login }, RequestAction::Login),
        }
    }

    /// Starts sending `cmd`.
    pub fn request(&self, cmd: Commands) -> (r: (Request, RequestAction))
        ensures
            starts_attempt(self@, cmd, 0, r),
    {
        self.request_attempt(cmd, 0)
    }

    /// Moves `req` on with what the driver brought back: the outcome of a
    /// login, or the box's answer. A failed first login ends the request as
    /// forbidden; a refused first try is tried once more after a new login.
    pub fn step(&mut self, req: Request, answer: Result<String, FritzError>) -> (r: (Request, RequestAction))
        ensures
            final(self)@.user == old(self)@.user,
            final(self)@.password == old(self)@.password,
            match req.awaiting {
                Awaiting::Login => final(self)@.sid == sid_after(old(self)@.sid, answer) && match answer {
                    Ok(_) => starts_attempt(final(self)@, req.cmd, req.attempt, r),
                    Err(_) => r.1 matches RequestAction::Finish(Err(FritzError::Forbidden)),
                },
                Awaiting::Response => final(self)@ == old(self)@ && if answer == Err::<String, FritzError>(
                    FritzError::Forbidden,
                ) && req.attempt == 0 {
                    r.0.cmd == req.cmd && r.0.attempt == req.attempt && r.0.awaiting == Awaiting::Relogin
                        && r.1 is Login
                } else {
                    r.1 matches RequestAction::Finish(a) && a == answer
                },
                Awaiting::Relogin => final(self)@.sid == sid_after(old(self)@.sid, answer)
                    && starts_attempt(
                    final(self)@,
                    req.cmd,
                    if req.attempt < usize::MAX {
                        (req.attempt + 1) as usize
                    } else {
                        req.attempt
                    },
                    r,
                ),
            },
    {
        match req.awaiting {
            Awaiting::Login => {
                let login = self.update_sid(answer);
                match login {
                    Ok(_) => self.request_attempt(req.cmd, req.attempt),
                    Err(_) => (req, RequestAction::Finish(Err(FritzError::Forbidden))),
                }
            },
            Awaiting::Response => {
                let refused = match &answer {
                    Err(FritzError::Forbidden) => true,
                    _ => false,
                };
                if refused && req.attempt == 0 {
                    (Request { cmd: req.cmd, attempt: req.attempt, awaiting: Awaiting::Relogin }, RequestAction::Login)
                } else {
                    (req, RequestAction::Finish(answer))
                }
            },
            Awaiting::Relogin => {
                let _ = self.update_sid(answer);
                let next = if req.attempt < usize::MAX {
                    req.attempt + 1
                } else {
                    req.attempt
                };
                self.request_attempt(req.cmd, next)
            },
        }
    }

    /// Starts fetching the device list.
    pub fn list_devices(&self) -> (r: (Request, RequestAction))
        ensures
            starts_attempt(self@, Commands::GetDeviceListInfos, 0, r),
    {
        self.request(Commands::GetDeviceListInfos)
    }

    /// Starts fetching the statistics of device `ain`.
    pub fn device_stats(&self, ain: &str) -> (r: (Request, RequestAction))
        ensures
            r.0.cmd matches Commands::GetBasicDeviceStats { ain: a } && a@ == ain@,
            starts_attempt(self@, r.0.cmd, 0, r),
    {
        self.request(Commands::GetBasicDeviceStats { ain: ain.to_owned() })
    }

    /// Starts switching device `ain` on.
    pub fn turn_on(&self, ain: &str) -> (r: (Request, RequestAction))
        ensures
            r.0.cmd matches Commands::SetSwitchOn { ain: a } && a@ == ain@,
            starts_attempt(self@, r.0.cmd, 0, r),
    {
        self.request(Commands::SetSwitchOn { ain: ain.to_owned() })
    }

    /// Starts switching device `ain` off.
    pub fn turn_off(&self, ain: &str) -> (r: (Request, RequestAction))
        ensures
            r.0.cmd matches Commands::SetSwitchOff { ain: a } && a@ == ain@,
            starts_attempt(self@, r.0.cmd, 0, r),
    {
        self.request(Commands::SetSwitchOff { ain: ain.to_owned() })
    }

    /// Starts toggling device `ain`.
    pub fn toggle(&self, ain: &str) -> (r: (Request, RequestAction))
        ensures
            r.0.cmd matches Commands::SetSwitchToggle { ain: a } && a@ == ain@,
            starts_attempt(self@, r.0.cmd, 0, r),
    {
        self.request(Commands::SetSwitchToggle { ain: ain.to_owned() })
    }

    /// The session id for the high refresh rate request: the one held, or
    /// the outcome of a new login; without one the request is forbidden.
    pub fn refresh_sid(&mut self, login: Option<Result<String, FritzError>>) -> (r: Result<String, FritzError>)
        ensures
            final(self)@.user == old(self)@.user,
            final(self)@.password == old(self)@.password,
            match old(self)@.sid {
                Some(s) => final(self)@ == old(self)@ && (r matches Ok(t) && t@ == s),
                None => match login {
                    Some(Ok(s)) => r == Ok::<String, FritzError>(s) && final(self)@.sid == Some(s@),
                    _ => r == Err::<String, FritzError>(FritzError::Forbidden) && final(self)@ == old(self)@,
                },
            },
    {
        match &self.sid {
            Some(s) => Ok(s.clone()),
            None => match login {
                Some(Ok(s)) => self.update_sid(Ok(s)),
                _ => Err(FritzError::Forbidden),
            },
        }
    }
}

} // verus!
