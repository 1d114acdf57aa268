//! Errors and reports of the island manager's commands.
use vstd::prelude::*;
use crate::types::IslandId;
use crate::zone_transfer::TransferError;
use crate::text::{decimal, decimal_chars};

verus! {

#[derive(Debug, PartialEq, Eq)]
pub enum ActivationError {
    DuplicateIsland(IslandId),
    AtCapacity { max: u32 },
}

impl ActivationError {
    pub fn to_string(&self) -> (s: String)
        ensures
            s@ == (match self {
                ActivationError::DuplicateIsland(id) => "island already exists: "@ + id@,
                ActivationError::AtCapacity { max } => "server at capacity ("@ + decimal_chars(*max as nat)
                    + " islands)"@,
            }),
    {
        match self {
            ActivationError::DuplicateIsland(id) => {
                let mut s = String::from_str("island already exists: ");
                s.append(id.as_str());
                s
            },
            ActivationError::AtCapacity { max } => {
                let mut s = String::from_str("server at capacity (");
                s.append(decimal(*max as u64).as_str());
                s.append(" islands)");
                s
            },
        }
    }
}

#[derive(Debug, PartialEq, Eq)]
pub enum LifecycleError {
    NotFound(IslandId),
    InvalidTransition(String),
}

impl LifecycleError {
    pub fn to_string(&self) -> (s: String)
        ensures
            s@ == (match self {
                LifecycleError::NotFound(id) => "island not found: "@ + id@,
                LifecycleError::InvalidTransition(msg) => "invalid transition: "@ + msg@,
            }),
    {
        match self {
            LifecycleError::NotFound(id) => {
                let mut s = String::from_str("island not found: ");
                s.append(id.as_str());
                s
            },
            LifecycleError::InvalidTransition(msg) => {
                let mut s = String::from_str("invalid transition: ");
                s.append(msg.as_str());
                s
            },
        }
    }
}

#[derive(Debug, PartialEq, Eq)]
pub enum ZoneTransferError {
    NotConfigured,
    SourceNotFound(IslandId),
    SourceNotRunning(IslandId),
    TargetNotFound(IslandId),
    TargetNotRunning(IslandId),
    Transfer(TransferError),
}

impl ZoneTransferError {
    pub fn to_string(&self) -> (s: String)
        ensures
            s@ == (match self {
                ZoneTransferError::NotConfigured => "zone transfer not configured"@,
                ZoneTransferError::SourceNotFound(id) => "source island not found: "@ + id@,
                ZoneTransferError::SourceNotRunning(id) => "source island not running: "@ + id@,
                ZoneTransferError::TargetNotFound(id) => "target island not found: "@ + id@,
                ZoneTransferError::TargetNotRunning(id) => "target island not running: "@ + id@,
                ZoneTransferError::Transfer(e) => "transfer error: "@ + crate::zone_transfer::transfer_error_text(*e),
            }),
    {
        match self {
            ZoneTransferError::NotConfigured => String::from_str("zone transfer not configured"),
            ZoneTransferError::SourceNotFound(id) => {
                let mut s = String::from_str("source island not found: ");
                s.append(id.as_str());
                s
            },
            ZoneTransferError::SourceNotRunning(id) => {
                let mut s = String::from_str("source island not running: ");
                s.append(id.as_str());
                s
            },
            ZoneTransferError::TargetNotFound(id) => {
                let mut s = String::from_str("target island not found: ");
                s.append(id.as_str());
                s
            },
            ZoneTransferError::TargetNotRunning(id) => {
                let mut s = String::from_str("target island not running: ");
                s.append(id.as_str());
                s
            },
            ZoneTransferError::Transfer(e) => {
                let mut s = String::from_str("transfer error: ");
                s.append(e.to_string().as_str());
                s
            },
        }
    }
}

impl From<TransferError> for ZoneTransferError {
    fn from(e: TransferError) -> (z: ZoneTransferError) {
        ZoneTransferError::Transfer(e)
    }
}

impl vstd::std_specs::convert::FromSpecImpl<TransferError> for ZoneTransferError {
    open spec fn obeys_from_spec() -> bool {
        true
    }

    open spec fn from_spec(e: TransferError) -> ZoneTransferError {
        ZoneTransferError::Transfer(e)
    }
}

/// The manager's counts.
#[derive(Debug, Clone, Copy, PartialEq, Eq, Structural)]
pub struct ManagerMetrics {
    pub active_islands: u32,
    pub total_islands: u32,
    pub total_entities: u64,
    pub connected_clients: usize,
}

#[derive(Debug, PartialEq, Eq)]
pub enum ClientConnectedError {
    AtCapacity { max: usize },
}

impl ClientConnectedError {
    pub fn to_string(&self) -> (s: String)
        ensures
            s@ == (match self {
                ClientConnectedError::AtCapacity { max } => "server at client capacity ("@ + decimal_chars(*max as nat)
                    + ")"@,
            }),
    {
        match self {
            ClientConnectedError::AtCapacity { max } => {
                let mut s = String::from_str("server at client capacity (");
                s.append(decimal(*max as u64).as_str());
                s.append(")");
                s
            },
        }
    }
}

#[derive(Debug, PartialEq, Eq)]
pub enum RegisterClientError {
    IslandNotFound(IslandId),
    IslandNotRunning(IslandId),
    AtSlotCapacity,
}

impl RegisterClientError {
    pub fn to_string(&self) -> (s: String)
        ensures
            s@ == (match self {
                RegisterClientError::IslandNotFound(id) => "island not found: "@ + id@,
                RegisterClientError::IslandNotRunning(id) => "island not running: "@ + id@,
                RegisterClientError::AtSlotCapacity => "island at entity slot capacity"@,
            }),
    {
        match self {
            RegisterClientError::IslandNotFound(id) => {
                let mut s = String::from_str("island not found: ");
                s.append(id.as_str());
                s
            },
            RegisterClientError::IslandNotRunning(id) => {
                let mut s = String::from_str("island not running: ");
                s.append(id.as_str());
                s
            },
            RegisterClientError::AtSlotCapacity => String::from_str("island at entity slot capacity"),
        }
    }
}

} // verus!
