use vstd::prelude::*;

verus! {

/// The ways in which an operation of the client can fail.
#[derive(Clone, Copy, Debug, PartialEq, Eq, Structural)]
pub enum Ssm2Error {
    /// The transport could not be acquired.
    PortUnavailable,
    /// The operation needs an open client, and the client is closed.
    NotOpen,
    /// A command that writes to the control unit was asked for.
    UnsupportedOperation,
    /// The read budget ran out, or the line went idle, before a structurally
    /// valid response packet was seen.
    MalformedResponse,
}

impl Ssm2Error {
    /// A short description of the failure, for logs and messages.
    pub fn message(&self) -> (text: &'static str)
        ensures
            text@ == match *self {
                Ssm2Error::PortUnavailable => "serial port unavailable"@,
                Ssm2Error::NotOpen => "serial port is not open"@,
                Ssm2Error::UnsupportedOperation => "write operations are not supported"@,
                Ssm2Error::MalformedResponse => "no valid response packet received"@,
            },
    {
        match self {
            Ssm2Error::PortUnavailable => "serial port unavailable",
            Ssm2Error::NotOpen => "serial port is not open",
            Ssm2Error::UnsupportedOperation => "write operations are not supported",
            Ssm2Error::MalformedResponse => "no valid response packet received",
        }
    }
}

} // verus!
