//! Data channels: connections that a client lends to a tunnel, one for each visitor.

use vstd::prelude::*;
use vstd::string::StringExecFns;

use crate::protocol::DataChannelCmd;

verus! {

/// How many data channels a client is asked for before any visitor comes.
pub const TCP_POOL_SIZE: usize = 8;

/// How many connections a channel of the server holds.
pub const CHAN_SIZE: usize = 2048;

/// How many lent data channels may wait for visitors.
pub const DATA_CHANNEL_QUEUE: usize = CHAN_SIZE * 2;

/// The command that puts a data channel to use.
pub const START_COMMAND: DataChannelCmd = DataChannelCmd::StartForwardTcp;

/// Why a visitor gets no data channel.
#[derive(Debug)]
pub enum OpenError {
    /// The control channel of the tunnel is closed.
    ControlChannelClosed,
    /// The client of the tunnel lends no more data channels.
    Unavailable { tunnel: String },
}

/// What an `OpenError` holds.
#[verifier::ext_equal]
pub enum OpenErrorModel {
    ControlChannelClosed,
    Unavailable { tunnel: Seq<char> },
}

impl View for OpenError {
    type V = OpenErrorModel;

    open spec fn view(&self) -> OpenErrorModel {
        match self {
            OpenError::ControlChannelClosed => OpenErrorModel::ControlChannelClosed,
            OpenError::Unavailable { tunnel } => OpenErrorModel::Unavailable { tunnel: tunnel@ },
        }
    }
}

impl OpenErrorModel {
    /// The text of the error.
    pub open spec fn text(self) -> Seq<char> {
        match self {
            OpenErrorModel::ControlChannelClosed => "relay control channel is closed"@,
            OpenErrorModel::Unavailable { tunnel } => "no available relay data channel for `"@
                + tunnel + "`"@,
        }
    }
}

impl OpenError {
    /// Describes the error.
    pub fn message(&self) -> (text: String)
        ensures
            text@ == self@.text(),
            text@ == match *self {
                OpenError::ControlChannelClosed => "relay control channel is closed"@,
                OpenError::Unavailable { tunnel } => "no available relay data channel for `"@
                    + tunnel@ + "`"@,
            },
    {
        match self {
            OpenError::ControlChannelClosed => String::from_str("relay control channel is closed"),
            OpenError::Unavailable { tunnel } => {
                let mut text = String::from_str("no available relay data channel for `");
                text.append(tunnel.as_str());
                text.append("`");
                text
            },
        }
    }
}

/// Where opening a data channel for a visitor stands. Each phase but the last
/// three has one thing to do, which works out or does not.
#[derive(Clone, Copy, Debug, PartialEq, Eq, Structural)]
pub enum OpenPhase {
    /// Ask the client for a data channel, in place of the one to be taken.
    Ask,
    /// Wait for a data channel.
    Wait,
    /// Send the command that starts forwarding on it.
    Start,
    /// Ask for another one, in place of one that was broken.
    AskAgain,
    /// The data channel is open.
    Opened,
    /// The control channel was closed from the start.
    ControlChannelClosed,
    /// No data channel is to be had.
    Unavailable,
}

/// The phase behind `phase`, once what it has to do has worked out or not.
pub open spec fn next_phase(phase: OpenPhase, worked: bool) -> OpenPhase {
    match phase {
        OpenPhase::Ask => if worked { OpenPhase::Wait } else { OpenPhase::ControlChannelClosed },
        OpenPhase::Wait => if worked { OpenPhase::Start } else { OpenPhase::Unavailable },
        OpenPhase::Start => if worked { OpenPhase::Opened } else { OpenPhase::AskAgain },
        OpenPhase::AskAgain => if worked { OpenPhase::Wait } else { OpenPhase::Unavailable },
        _ => phase,
    }
}

/// Whether nothing is left to do.
pub open spec fn is_final(phase: OpenPhase) -> bool {
    phase is Opened || phase is ControlChannelClosed || phase is Unavailable
}

impl OpenPhase {
    /// The phase that follows, once what this one has to do has worked out or not.
    pub fn next(self, worked: bool) -> (phase: OpenPhase)
        ensures
            phase == next_phase(self, worked),
    {
        match self {
            OpenPhase::Ask => if worked {
                OpenPhase::Wait
            } else {
                OpenPhase::ControlChannelClosed
            },
            OpenPhase::Wait => if worked {
                OpenPhase::Start
            } else {
                OpenPhase::Unavailable
            },
            OpenPhase::Start => if worked {
                OpenPhase::Opened
            } else {
                OpenPhase::AskAgain
            },
            OpenPhase::AskAgain => if worked {
                OpenPhase::Wait
            } else {
                OpenPhase::Unavailable
            },
            OpenPhase::Opened => OpenPhase::Opened,
            OpenPhase::ControlChannelClosed => OpenPhase::ControlChannelClosed,
            OpenPhase::Unavailable => OpenPhase::Unavailable,
        }
    }

    /// Why the data channel of `tunnel` could not be opened, in a phase of failure.
    pub fn error(self, tunnel: &str) -> (error: Option<OpenError>)
        ensures
            match self {
                OpenPhase::ControlChannelClosed => error matches Some(e) && e@
                    == OpenErrorModel::ControlChannelClosed,
                OpenPhase::Unavailable => error matches Some(e) && e@ == (
                OpenErrorModel::Unavailable { tunnel: tunnel@ }),
                _ => error is None,
            },
            self is ControlChannelClosed ==> (error matches Some(OpenError::ControlChannelClosed)),
            self is Unavailable ==> (error matches Some(OpenError::Unavailable { tunnel: name })
                && name@ == tunnel@),
    {
        match self {
            OpenPhase::ControlChannelClosed => Some(OpenError::ControlChannelClosed),
            OpenPhase::Unavailable => Some(
                OpenError::Unavailable { tunnel: String::from_str(tunnel) },
            ),
            _ => None,
        }
    }
}

/// The phase after a number of things have worked out or not.
pub open spec fn phase_after(phase: OpenPhase, outcomes: Seq<bool>) -> OpenPhase
    decreases outcomes.len(),
{
    if outcomes.len() == 0 {
        phase
    } else {
        next_phase(phase_after(phase, outcomes.drop_last()), outcomes.last())
    }
}

/// How many data channels were asked for on the way.
pub open spec fn asked(phase: OpenPhase, outcomes: Seq<bool>) -> nat
    decreases outcomes.len(),
{
    if outcomes.len() == 0 {
        0
    } else {
        let before = phase_after(phase, outcomes.drop_last());
        asked(phase, outcomes.drop_last()) + if (before is Ask || before is AskAgain)
            && outcomes.last() {
            1nat
        } else {
            0nat
        }
    }
}

/// How many data channels were taken on the way.
pub open spec fn taken(phase: OpenPhase, outcomes: Seq<bool>) -> nat
    decreases outcomes.len(),
{
    if outcomes.len() == 0 {
        0
    } else {
        let before = phase_after(phase, outcomes.drop_last());
        taken(phase, outcomes.drop_last()) + if before is Wait && outcomes.last() {
            1nat
        } else {
            0nat
        }
    }
}

/// Opening a data channel asks the client for as many as it takes, broken ones
/// included, so that the pool keeps its size; while it waits, and when it fails
/// there, it is one ahead.
pub proof fn pool_is_refilled(outcomes: Seq<bool>)
    ensures
        ({
            let phase = phase_after(OpenPhase::Ask, outcomes);
            let asked = asked(OpenPhase::Ask, outcomes);
            let taken = taken(OpenPhase::Ask, outcomes);
            &&& phase is Opened || phase is Start || phase is AskAgain ==> asked == taken && taken > 0
            &&& phase is Wait ==> asked == taken + 1
            &&& phase is Ask || phase is ControlChannelClosed ==> asked == 0 && taken == 0
            &&& phase is Unavailable ==> asked == taken || asked == taken + 1
        }),
    decreases outcomes.len(),
{
    if outcomes.len() > 0 {
        pool_is_refilled(outcomes.drop_last());
    }
}

/// Once a phase has nothing left to do, nothing changes it.
pub proof fn final_phases_stay(phase: OpenPhase, outcomes: Seq<bool>)
    requires
        is_final(phase),
    ensures
        phase_after(phase, outcomes) == phase,
    decreases outcomes.len(),
{
    if outcomes.len() > 0 {
        final_phases_stay(phase, outcomes.drop_last());
    }
}

} // verus!
