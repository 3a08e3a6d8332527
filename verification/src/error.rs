//! Why a control command was refused.

use crate::netlink::{nl_error_text, NlError};
use crate::text::{int_error_text, push_str, IntErrorKind};
use vstd::prelude::*;

verus! {

/// The option whose value is missing on a command line.
#[derive(Clone, Copy, Debug, PartialEq, Eq, Structural)]
pub enum CmdOption {
    Address,
    Port,
    EchoId,
    Uid,
    Comment,
}

/// Why a control command failed.
#[derive(Clone, Debug, PartialEq, Eq)]
pub enum CmdError {
    /// An option was given as the last argument, without its value.
    MissingValue(CmdOption),
    /// A numeric argument is not a number of the expected size.
    InvalidNumber(IntErrorKind),
    /// The text names no known user and is not a user id.
    UnknownUser(String),
    /// `client-add` lacks the user, the address or the port.
    ClientAddIncomplete,
    /// `client-del` lacks the user or the address.
    ClientDelIncomplete,
    /// `server-add` lacks the user, the address or the port.
    ServerAddIncomplete,
    /// `server-del` lacks the user.
    ServerDelIncomplete,
    /// The module is in server mode, and the command is for a client.
    NotClientMode,
    /// The module is in client mode, and the command is for a server.
    NotServerMode,
    /// The name could not be looked up; the text says why.
    LookupFailed(String),
    /// The name resolved to no address at all.
    CouldNotResolve(String),
    /// The name resolved to no address of the requested family.
    NoSuitableAddress,
    /// Adding the ingress entry failed (possibly a port conflict).
    IngressUpdateFailed(NlError),
    /// Talking to the kernel module failed.
    Netlink(NlError),
    /// A structure received from the module was too short.
    ShortReply,
}

/// A [`CmdError`] with its texts taken as character sequences.
pub enum CmdErrorV {
    MissingValue(CmdOption),
    InvalidNumber(IntErrorKind),
    UnknownUser(Seq<char>),
    ClientAddIncomplete,
    ClientDelIncomplete,
    ServerAddIncomplete,
    ServerDelIncomplete,
    NotClientMode,
    NotServerMode,
    LookupFailed(Seq<char>),
    CouldNotResolve(Seq<char>),
    NoSuitableAddress,
    IngressUpdateFailed(NlError),
    Netlink(NlError),
    ShortReply,
}

impl View for CmdError {
    type V = CmdErrorV;

    open spec fn view(&self) -> CmdErrorV {
        match self {
            CmdError::MissingValue(o) => CmdErrorV::MissingValue(*o),
            CmdError::InvalidNumber(k) => CmdErrorV::InvalidNumber(*k),
            CmdError::UnknownUser(s) => CmdErrorV::UnknownUser(s@),
            CmdError::ClientAddIncomplete => CmdErrorV::ClientAddIncomplete,
            CmdError::ClientDelIncomplete => CmdErrorV::ClientDelIncomplete,
            CmdError::ServerAddIncomplete => CmdErrorV::ServerAddIncomplete,
            CmdError::ServerDelIncomplete => CmdErrorV::ServerDelIncomplete,
            CmdError::NotClientMode => CmdErrorV::NotClientMode,
            CmdError::NotServerMode => CmdErrorV::NotServerMode,
            CmdError::LookupFailed(s) => CmdErrorV::LookupFailed(s@),
            CmdError::CouldNotResolve(s) => CmdErrorV::CouldNotResolve(s@),
            CmdError::NoSuitableAddress => CmdErrorV::NoSuitableAddress,
            CmdError::IngressUpdateFailed(e) => CmdErrorV::IngressUpdateFailed(*e),
            CmdError::Netlink(e) => CmdErrorV::Netlink(*e),
            CmdError::ShortReply => CmdErrorV::ShortReply,
        }
    }
}

/// The name by which an option is reported.
pub open spec fn option_name(o: CmdOption) -> Seq<char> {
    match o {
        CmdOption::Address => "address"@,
        CmdOption::Port => "port"@,
        CmdOption::EchoId => "icmp-id"@,
        CmdOption::Uid => "uid"@,
        CmdOption::Comment => "comment"@,
    }
}

impl CmdOption {
    /// The name by which this option is reported.
    pub fn name(&self) -> (s: &'static str)
        ensures
            s@ == option_name(*self),
    {
        match self {
            CmdOption::Address => "address",
            CmdOption::Port => "port",
            CmdOption::EchoId => "icmp-id",
            CmdOption::Uid => "uid",
            CmdOption::Comment => "comment",
        }
    }
}

/// How each refusal is reported.
pub open spec fn cmd_error_text(e: CmdErrorV) -> Seq<char> {
    match e {
        CmdErrorV::MissingValue(o) => "missing value for "@ + option_name(o),
        CmdErrorV::InvalidNumber(k) => int_error_text(k),
        CmdErrorV::UnknownUser(s) => "unknown user or invalid uid format: "@ + s,
        CmdErrorV::ClientAddIncomplete => "UID, address, and port must be specified"@,
        CmdErrorV::ClientDelIncomplete => "UID and address must be specified"@,
        CmdErrorV::ServerAddIncomplete => "uid, address and port must be specified"@,
        CmdErrorV::ServerDelIncomplete => "UID must be specified"@,
        CmdErrorV::NotClientMode => "must be in client mode"@,
        CmdErrorV::NotServerMode => "must be in server mode"@,
        CmdErrorV::LookupFailed(s) => s,
        CmdErrorV::CouldNotResolve(s) => "could not resolve address: "@ + s,
        CmdErrorV::NoSuitableAddress => "no suitable address found"@,
        CmdErrorV::IngressUpdateFailed(n) => "ingress update failed (possible port conflict): "@
            + nl_error_text(n),
        CmdErrorV::Netlink(n) => nl_error_text(n),
        CmdErrorV::ShortReply => "failed to parse struct"@,
    }
}

impl CmdError {
    /// How this refusal is reported.
    pub fn message(&self) -> (s: String)
        ensures
            s@ == cmd_error_text(self@),
    {
        let mut s = String::new();
        match self {
            CmdError::MissingValue(o) => {
                push_str(&mut s, "missing value for ");
                push_str(&mut s, o.name());
            },
            CmdError::InvalidNumber(k) => push_str(&mut s, k.message()),
            CmdError::UnknownUser(t) => {
                push_str(&mut s, "unknown user or invalid uid format: ");
                push_str(&mut s, t.as_str());
            },
            CmdError::ClientAddIncomplete => push_str(&mut s, "UID, address, and port must be specified"),
            CmdError::ClientDelIncomplete => push_str(&mut s, "UID and address must be specified"),
            CmdError::ServerAddIncomplete => push_str(&mut s, "uid, address and port must be specified"),
            CmdError::ServerDelIncomplete => push_str(&mut s, "UID must be specified"),
            CmdError::NotClientMode => push_str(&mut s, "must be in client mode"),
            CmdError::NotServerMode => push_str(&mut s, "must be in server mode"),
            CmdError::LookupFailed(t) => push_str(&mut s, t.as_str()),
            CmdError::CouldNotResolve(t) => {
                push_str(&mut s, "could not resolve address: ");
                push_str(&mut s, t.as_str());
            },
            CmdError::NoSuitableAddress => push_str(&mut s, "no suitable address found"),
            CmdError::IngressUpdateFailed(n) => {
                push_str(&mut s, "ingress update failed (possible port conflict): ");
                push_str(&mut s, n.message());
            },
            CmdError::Netlink(n) => push_str(&mut s, n.message()),
            CmdError::ShortReply => push_str(&mut s, "failed to parse struct"),
        }
        assert(s@ =~= cmd_error_text(self@));
        s
    }
}

}
