//! The failures that the coordination core reports.

use vstd::prelude::*;

verus! {

/// The kinds of failure that the coordination core reports.
#[derive(Clone, Copy, Debug, PartialEq, Eq, Structural)]
pub enum ServerError {
    /// The cluster configuration is malformed or inconsistent.
    ConfigError,
    /// A prepare was requested while the server is already preparing.
    AlreadyPreparing,
    /// A peer signature names an epoch other than the current one.
    StaleEpoch,
    /// A peer signature names a root other than the current one.
    RootMismatch,
    /// A signature does not parse or does not verify.
    SignatureInvalid,
    /// A request lacks a field that the operation needs.
    MissingField,
    /// A peer transaction names a server outside the parallel cluster.
    PeerUnknown,
    /// The inner provider refused a transaction or the epoch transition.
    CommitFailure,
    /// A waiting client saw too many wake-ups without its commit.
    CommitNotificationLost,
}

impl ServerError {
    /// A short description of the failure, for logs and RPC status texts.
    pub fn message(&self) -> (text: &'static str)
        ensures
            text@ == Self::message_of(*self),
    {
        match self {
            ServerError::ConfigError => "the cluster configuration is malformed or inconsistent",
            ServerError::AlreadyPreparing => "server is already in prepare state",
            ServerError::StaleEpoch => "received signatures for an epoch that is not equal to current epoch",
            ServerError::RootMismatch => "received signatures for a root that is not equal to current root",
            ServerError::SignatureInvalid => "signature is invalid",
            ServerError::MissingField => "a required field is missing",
            ServerError::PeerUnknown => "peer server does not exist in server cluster",
            ServerError::CommitFailure => "the inner provider failed to commit",
            ServerError::CommitNotificationLost => "failed to receive commit notification",
        }
    }

    /// The text that `message` returns for each kind.
    pub open spec fn message_of(e: ServerError) -> Seq<char> {
        match e {
            ServerError::ConfigError => "the cluster configuration is malformed or inconsistent"@,
            ServerError::AlreadyPreparing => "server is already in prepare state"@,
            ServerError::StaleEpoch => "received signatures for an epoch that is not equal to current epoch"@,
            ServerError::RootMismatch => "received signatures for a root that is not equal to current root"@,
            ServerError::SignatureInvalid => "signature is invalid"@,
            ServerError::MissingField => "a required field is missing"@,
            ServerError::PeerUnknown => "peer server does not exist in server cluster"@,
            ServerError::CommitFailure => "the inner provider failed to commit"@,
            ServerError::CommitNotificationLost => "failed to receive commit notification"@,
        }
    }
}

} // verus!
