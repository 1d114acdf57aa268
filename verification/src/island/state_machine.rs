use vstd::prelude::*;

verus! {

/// Lifecycle state of a simulation island.
#[derive(Debug, Clone, Copy, PartialEq, Eq, Structural)]
pub enum IslandState {
    Initializing,
    Running,
    Draining,
    Stopped,
}

/// A rejected lifecycle transition.
#[derive(Debug, PartialEq, Eq, Structural)]
pub struct TransitionError {
    pub from: IslandState,
    pub to: IslandState,
}

/// The lifecycle moves strictly forward: Initializing -> Running -> Draining -> Stopped.
pub open spec fn valid_transition(from: IslandState, to: IslandState) -> bool {
    ||| (from == IslandState::Initializing && to == IslandState::Running)
    ||| (from == IslandState::Running && to == IslandState::Draining)
    ||| (from == IslandState::Draining && to == IslandState::Stopped)
}

impl IslandState {
    pub fn transition(self, to: IslandState) -> (res: Result<IslandState, TransitionError>)
        ensures
            valid_transition(self, to) ==> res == Ok::<IslandState, TransitionError>(to),
            !valid_transition(self, to) ==> res == Err::<IslandState, TransitionError>(
                TransitionError { from: self, to },
            ),
    {
        let valid = match (self, to) {
            (IslandState::Initializing, IslandState::Running) => true,
            (IslandState::Running, IslandState::Draining) => true,
            (IslandState::Draining, IslandState::Stopped) => true,
            _ => false,
        };
        if valid {
            Ok(to)
        } else {
            Err(TransitionError { from: self, to })
        }
    }
}

pub open spec fn state_name(s: IslandState) -> Seq<char> {
    match s {
        IslandState::Initializing => "Initializing"@,
        IslandState::Running => "Running"@,
        IslandState::Draining => "Draining"@,
        IslandState::Stopped => "Stopped"@,
    }
}

impl IslandState {
    /// The state's name.
    pub fn to_string(self) -> (s: String)
        ensures
            s@ == state_name(self),
    {
        match self {
            IslandState::Initializing => String::from_str("Initializing"),
            IslandState::Running => String::from_str("Running"),
            IslandState::Draining => String::from_str("Draining"),
            IslandState::Stopped => String::from_str("Stopped"),
        }
    }
}

impl TransitionError {
    /// Human-readable description of the error.
    pub fn to_string(&self) -> (s: String)
        ensures
            s@ == "invalid transition: "@ + state_name(self.from) + " -> "@ + state_name(self.to),
    {
        let mut s = String::from_str("invalid transition: ");
        s.append(self.from.to_string().as_str());
        s.append(" -> ");
        s.append(self.to.to_string().as_str());
        s
    }
}

/// Position of a state along the lifecycle.
pub open spec fn stage(s: IslandState) -> int {
    match s {
        IslandState::Initializing => 0,
        IslandState::Running => 1,
        IslandState::Draining => 2,
        IslandState::Stopped => 3,
    }
}

/// The lifecycle only moves forward, one stage at a time, and Stopped is final.
pub proof fn law_lifecycle_moves_forward(from: IslandState, to: IslandState)
    ensures
        valid_transition(from, to) <==> stage(to) == stage(from) + 1,
        from == IslandState::Stopped ==> !valid_transition(from, to),
{
}

} // verus!
