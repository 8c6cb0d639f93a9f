use vstd::prelude::*;

verus! {

/// A marker indicating that an entity is on the ground.
#[derive(Copy, Clone, Debug, Default, PartialEq, Eq, Structural)]
pub struct Grounded;

/// The answer of a controller that was asked about its basis and has none.
#[derive(Copy, Clone, Debug, PartialEq, Eq, Structural)]
pub struct ControllerHasNoBasis;

impl ControllerHasNoBasis {
    /// The sentence that describes this error.
    pub fn message(&self) -> (text: &'static str)
        ensures
            text@ == "The  controller does not have any basis set"@,
    {
        "The  controller does not have any basis set"
    }
}

/// Where a controller stands with the actions it is fed.
#[derive(Copy, Clone, Debug)]
pub enum ActionFlowStatus {
    /// No action is going on.
    NoAction,
    /// An action just started.
    ActionStarted(&'static str),
    /// An action was fed in a past frame and is still ongoing.
    ActionOngoing(&'static str),
    /// An action has stopped being fed.
    ///
    /// Note that the action may still have a termination sequence after this happens.
    ActionEnded(&'static str),
    /// An action has just been canceled into another action.
    Cancelled { old: &'static str, new: &'static str },
}

impl Default for ActionFlowStatus {
    fn default() -> (status: Self)
        ensures
            status is NoAction,
    {
        ActionFlowStatus::NoAction
    }
}

impl ActionFlowStatus {
    /// The name of the ongoing action, if there is an ongoing action.
    ///
    /// Will also return a value if the action has just started.
    pub fn ongoing(&self) -> (name: Option<&'static str>)
        ensures
            name == match *self {
                ActionFlowStatus::NoAction => None,
                ActionFlowStatus::ActionEnded(_) => None,
                ActionFlowStatus::ActionStarted(action_name) => Some(action_name),
                ActionFlowStatus::ActionOngoing(action_name) => Some(action_name),
                ActionFlowStatus::Cancelled { old: _, new: action_name } => Some(action_name),
            },
    {
        match self {
            ActionFlowStatus::NoAction | ActionFlowStatus::ActionEnded(_) => None,
            ActionFlowStatus::ActionStarted(action_name)
            | ActionFlowStatus::ActionOngoing(action_name)
            | ActionFlowStatus::Cancelled { old: _, new: action_name } => Some(action_name),
        }
    }

    /// The name of the action that has just started this frame.
    ///
    /// Will return `None` if there is no action, or if the ongoing action has started in a past
    /// frame.
    pub fn just_starting(&self) -> (name: Option<&'static str>)
        ensures
            name == match *self {
                ActionFlowStatus::NoAction => None,
                ActionFlowStatus::ActionOngoing(_) => None,
                ActionFlowStatus::ActionEnded(_) => None,
                ActionFlowStatus::ActionStarted(action_name) => Some(action_name),
                ActionFlowStatus::Cancelled { old: _, new: action_name } => Some(action_name),
            },
    {
        match self {
            ActionFlowStatus::NoAction
            | ActionFlowStatus::ActionOngoing(_)
            | ActionFlowStatus::ActionEnded(_) => None,
            ActionFlowStatus::ActionStarted(action_name)
            | ActionFlowStatus::Cancelled { old: _, new: action_name } => Some(action_name),
        }
    }
}

} // verus!
