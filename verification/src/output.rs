//! The stream of notification requests a game produces.
//!
//! The core never talks to the chat platform itself: every user-visible
//! event is recorded here as a structured notification, and the host process
//! drains the queue and renders and delivers the messages. Routing of team
//! destinations is carried alongside, updated by the game but never
//! interpreted by it.

use vstd::prelude::*;

use crate::team::TeamId;

verus! {

/// One outbound notification request, addressed to the whole game's
/// audience unless it names a team.
pub enum Notification {
    GamePaused,
    GameUnpaused,
    TeamsReset,
    ScoresReset,
    ScoreAdjusted { team: TeamId, new_score: i32 },
    QuizStarted,
    NewQuestion { prompt: Vec<u8> },
    VoteStarted,
    WagerStarted,
    ResultsStarted,
    CorrectGuess { team: TeamId, new_score: i32 },
    QuizEnded,
}

/// The mathematical value of a notification.
pub enum NotifModel {
    GamePaused,
    GameUnpaused,
    TeamsReset,
    ScoresReset,
    ScoreAdjusted { team: Seq<u8>, new_score: int },
    QuizStarted,
    NewQuestion { prompt: Seq<u8> },
    VoteStarted,
    WagerStarted,
    ResultsStarted,
    CorrectGuess { team: Seq<u8>, new_score: int },
    QuizEnded,
}

impl View for Notification {
    type V = NotifModel;

    open spec fn view(&self) -> NotifModel {
        match self {
            Notification::GamePaused => NotifModel::GamePaused,
            Notification::GameUnpaused => NotifModel::GameUnpaused,
            Notification::TeamsReset => NotifModel::TeamsReset,
            Notification::ScoresReset => NotifModel::ScoresReset,
            Notification::ScoreAdjusted { team, new_score } => NotifModel::ScoreAdjusted {
                team: team@,
                new_score: *new_score as int,
            },
            Notification::QuizStarted => NotifModel::QuizStarted,
            Notification::NewQuestion { prompt } => NotifModel::NewQuestion { prompt: prompt@ },
            Notification::VoteStarted => NotifModel::VoteStarted,
            Notification::WagerStarted => NotifModel::WagerStarted,
            Notification::ResultsStarted => NotifModel::ResultsStarted,
            Notification::CorrectGuess { team, new_score } => NotifModel::CorrectGuess {
                team: team@,
                new_score: *new_score as int,
            },
            Notification::QuizEnded => NotifModel::QuizEnded,
        }
    }
}

/// Routes one team's notifications to a destination channel.
pub struct TeamChannel {
    pub team: TeamId,
    pub channel: u64,
}

impl View for TeamChannel {
    type V = (Seq<u8>, u64);

    open spec fn view(&self) -> (Seq<u8>, u64) {
        (self.team@, self.channel)
    }
}

/// The outbound side of one game: its home community and channel, the queue
/// of pending notification requests, and the team-to-channel routing table.
pub struct OutputPipe {
    community: u64,
    channel: u64,
    messages: Vec<Notification>,
    team_channels: Vec<TeamChannel>,
}

/// The mathematical value of an output pipe.
pub struct PipeModel {
    pub community: u64,
    pub channel: u64,
    pub msgs: Seq<NotifModel>,
    pub channels: Seq<(Seq<u8>, u64)>,
}

impl View for OutputPipe {
    type V = PipeModel;

    closed spec fn view(&self) -> PipeModel {
        PipeModel {
            community: self.community,
            channel: self.channel,
            msgs: self.messages@.map_values(|n: Notification| n@),
            channels: self.team_channels@.map_values(|c: TeamChannel| c@),
        }
    }
}

impl OutputPipe {
    /// A pipe bound to one community and its home channel, with nothing
    /// pending and no routing.
    pub fn new(community: u64, channel: u64) -> (r: OutputPipe)
        ensures
            r@ == (PipeModel {
                community,
                channel,
                msgs: Seq::<NotifModel>::empty(),
                channels: Seq::<(Seq<u8>, u64)>::empty(),
            }),
    {
        let r = OutputPipe { community, channel, messages: Vec::new(), team_channels: Vec::new() };
        proof {
            assert(r@.msgs =~= Seq::<NotifModel>::empty());
            assert(r@.channels =~= Seq::<(Seq<u8>, u64)>::empty());
        }
        r
    }

    /// Queues one notification request.
    pub(crate) fn push_note(&mut self, n: Notification)
        ensures
            final(self)@ == (PipeModel { msgs: old(self)@.msgs.push(n@), ..old(self)@ }),
    {
        let ghost nv = n@;
        self.messages.push(n);
        proof {
            assert(self@.msgs =~= old(self)@.msgs.push(nv));
        }
    }

    /// Replaces the team-to-channel routing table; a pure passthrough that
    /// touches nothing else.
    pub fn update_team_channels(&mut self, mapping: Vec<TeamChannel>)
        ensures
            final(self)@ == (PipeModel {
                channels: mapping@.map_values(|c: TeamChannel| c@),
                ..old(self)@
            }),
    {
        self.team_channels = mapping;
    }

    /// Hands the pending notifications to the caller, leaving the queue
    /// empty. The host process delivers them.
    pub fn take_notifications(&mut self) -> (r: Vec<Notification>)
        ensures
            r@.map_values(|n: Notification| n@) == old(self)@.msgs,
            final(self)@ == (PipeModel { msgs: Seq::<NotifModel>::empty(), ..old(self)@ }),
    {
        let mut out: Vec<Notification> = Vec::new();
        core::mem::swap(&mut out, &mut self.messages);
        proof {
            assert(self@.msgs =~= Seq::<NotifModel>::empty());
        }
        out
    }

    /// The community this pipe serves.
    pub fn community(&self) -> (r: u64)
        ensures
            r == self@.community,
    {
        self.community
    }

    /// The home channel notifications default to.
    pub fn channel(&self) -> (r: u64)
        ensures
            r == self@.channel,
    {
        self.channel
    }

    /// The current routing table, for the host process to consult when
    /// delivering.
    pub fn team_channels(&self) -> (r: &Vec<TeamChannel>)
        ensures
            r@.map_values(|c: TeamChannel| c@) == self@.channels,
    {
        &self.team_channels
    }
}

} // verus!
