//! The per-community game: a state machine over setup and quiz phases.
//!
//! A game owns its team registry and output pipe. During setup, teams may
//! change freely; once a quiz runs, play is delegated to the quiz engine and
//! players already on a team may not switch. Every state-changing command
//! that affects players queues a notification on the output pipe.

use vstd::prelude::*;

use crate::errors::GameError;
use crate::output::{NotifModel, Notification, OutputPipe, PipeModel, TeamChannel};
use crate::quizz::{
    default_settings, fresh_timer, guess_spec, skip_spec, tick_spec, wf_quizz, GuessOutcome,
    Quizz, QuizzDefinition, QuizzModel, StepModel,
};
use crate::team::{
    adjust_spec, clamp_i32, disband_spec, has_team, join_spec, on_some_team,
    reset_scores_spec, sanitize_ok, sanitize_spec, team_index_of_id, team_of_player, wf_teams,
    Team, TeamId, TeamModel, TeamRegistry,
};

verus! {

/// The game-level phase: `Startup` exists only transiently during
/// construction and is replaced by `Setup` before a game is ever observed.
pub enum Phase {
    Startup,
    Setup,
    Quiz(Quizz),
}

/// The mathematical value of a game-level phase.
pub enum PhaseModel {
    Startup,
    Setup,
    Quiz(QuizzModel),
}

impl View for Phase {
    type V = PhaseModel;

    open spec fn view(&self) -> PhaseModel {
        match self {
            Phase::Startup => PhaseModel::Startup,
            Phase::Setup => PhaseModel::Setup,
            Phase::Quiz(q) => PhaseModel::Quiz(q@),
        }
    }
}

/// One community's game.
pub struct Game {
    current_phase: Phase,
    teams: TeamRegistry,
    output_pipe: OutputPipe,
    paused: bool,
}

/// The mathematical value of a game.
pub struct GameModel {
    pub phase: PhaseModel,
    pub teams: Seq<TeamModel>,
    pub out: PipeModel,
    pub paused: bool,
}

impl View for Game {
    type V = GameModel;

    closed spec fn view(&self) -> GameModel {
        GameModel {
            phase: self.current_phase@,
            teams: self.teams@,
            out: self.output_pipe@,
            paused: self.paused,
        }
    }
}

/// Well-formedness of a game: its registry is well-formed, and so is a
/// running quiz.
pub open spec fn wf_game(g: GameModel) -> bool {
    &&& wf_teams(g.teams)
    &&& (g.phase matches PhaseModel::Quiz(q) ==> wf_quizz(q))
}

/// One time step of a game: nothing while paused; during a quiz the quiz
/// ticks, and a finished quiz is discarded, the game reverting to setup.
pub open spec fn game_tick_spec(g: GameModel, dt: u64) -> GameModel {
    if g.paused {
        g
    } else {
        match g.phase {
            PhaseModel::Quiz(q) => {
                let (q2, notes) = tick_spec(q, dt);
                let out2 = PipeModel { msgs: g.out.msgs + notes, ..g.out };
                if q2.over {
                    GameModel { phase: PhaseModel::Setup, out: out2, ..g }
                } else {
                    GameModel { phase: PhaseModel::Quiz(q2), out: out2, ..g }
                }
            },
            _ => g,
        }
    }
}

/// Pausing: only the first call in a run of paused states changes anything,
/// and it queues exactly one notification.
pub open spec fn pause_spec(g: GameModel) -> GameModel {
    if g.paused {
        g
    } else {
        GameModel {
            paused: true,
            out: PipeModel { msgs: g.out.msgs.push(NotifModel::GamePaused), ..g.out },
            ..g
        }
    }
}

/// Unpausing: the exact mirror of `pause_spec`.
pub open spec fn unpause_spec(g: GameModel) -> GameModel {
    if !g.paused {
        g
    } else {
        GameModel {
            paused: false,
            out: PipeModel { msgs: g.out.msgs.push(NotifModel::GameUnpaused), ..g.out },
            ..g
        }
    }
}

/// Pausing twice queues exactly one notification: the second call changes
/// nothing. Unpausing an unpaused game queues none.
pub proof fn lemma_pause_emits_once(g: GameModel)
    ensures
        pause_spec(pause_spec(g)) == pause_spec(g),
        !g.paused ==> pause_spec(g).out.msgs == g.out.msgs.push(NotifModel::GamePaused),
        g.paused ==> pause_spec(g) == g,
        !g.paused ==> unpause_spec(g) == g,
        unpause_spec(unpause_spec(g)) == unpause_spec(g),
{
}

impl Game {
    /// A fresh game over the given pipe and registry. It passes through the
    /// transient startup phase and is in setup when handed back.
    pub fn new(output_pipe: OutputPipe, teams: TeamRegistry) -> (r: Game)
        requires
            wf_teams(teams@),
        ensures
            r@ == (GameModel {
                phase: PhaseModel::Setup,
                teams: teams@,
                out: output_pipe@,
                paused: false,
            }),
            wf_game(r@),
    {
        let mut game = Game {
            current_phase: Phase::Startup,
            output_pipe,
            paused: false,
            teams,
        };
        game.set_current_phase(Phase::Setup);
        game
    }

    fn set_current_phase(&mut self, phase: Phase)
        ensures
            final(self)@ == (GameModel { phase: phase@, ..old(self)@ }),
    {
        self.current_phase = phase;
    }

    /// One time step: a no-op while paused; otherwise the running quiz
    /// ticks, and when it reports completion the game reverts to setup.
    pub fn tick(&mut self, dt: u64)
        requires
            wf_game(old(self)@),
        ensures
            final(self)@ == game_tick_spec(old(self)@, dt),
            wf_game(final(self)@),
    {
        if self.paused {
            return ;
        }
        match &mut self.current_phase {
            Phase::Startup | Phase::Setup => (),
            Phase::Quiz(quiz) => {
                quiz.tick(dt, &mut self.output_pipe);
                if quiz.is_over() {
                    self.set_current_phase(Phase::Setup);
                }
            },
        }
    }

    /// Starts a quiz from what the loader produced. Legal only during
    /// setup (`WrongPhase` otherwise, with a running quiz untouched); a
    /// missing or empty definition fails with `LoadError` and mutates
    /// nothing.
    pub fn begin(&mut self, source: Option<QuizzDefinition>) -> (r: Result<(), GameError>)
        requires
            wf_game(old(self)@),
        ensures
            old(self)@.phase !is Setup ==> r == Err::<(), GameError>(GameError::WrongPhase)
                && final(self)@ == old(self)@,
            old(self)@.phase is Setup ==> (match source {
                Some(d) => {
                    if d@.len() >= 1 {
                        r is Ok && final(self)@ == (GameModel {
                            phase: PhaseModel::Quiz(
                                (QuizzModel {
                                    settings: default_settings(),
                                    queue: d@,
                                    step: StepModel::Cooldown {
                                        timer: fresh_timer(default_settings().cooldown_ms),
                                    },
                                    over: false,
                                }),
                            ),
                            out: (PipeModel {
                                msgs: old(self)@.out.msgs.push(NotifModel::QuizStarted),
                                ..old(self)@.out
                            }),
                            ..old(self)@
                        })
                    } else {
                        r == Err::<(), GameError>(GameError::LoadError) && final(self)@ == old(self)@
                    }
                },
                None => r == Err::<(), GameError>(GameError::LoadError) && final(self)@ == old(self)@,
            }),
            wf_game(final(self)@),
    {
        if !matches!(self.current_phase, Phase::Setup) {
            return Err(GameError::WrongPhase);
        }
        let quiz = match Quizz::load(source) {
            Ok(q) => q,
            Err(e) => {
                return Err(e);
            },
        };
        self.set_current_phase(Phase::Quiz(quiz));
        self.output_pipe.push_note(Notification::QuizStarted);
        Ok(())
    }

    /// Moderator skip of the current quiz step. Fails with `WrongPhase`
    /// when no quiz is in progress.
    pub fn skip(&mut self) -> (r: Result<(), GameError>)
        requires
            wf_game(old(self)@),
        ensures
            old(self)@.phase !is Quiz ==> r == Err::<(), GameError>(GameError::WrongPhase)
                && final(self)@ == old(self)@,
            old(self)@.phase matches PhaseModel::Quiz(q) ==> r is Ok && ({
                let (q2, notes) = skip_spec(q);
                final(self)@ == (GameModel {
                    phase: PhaseModel::Quiz(q2),
                    out: (PipeModel { msgs: old(self)@.out.msgs + notes, ..old(self)@.out }),
                    ..old(self)@
                })
            }),
            wf_game(final(self)@),
    {
        match &mut self.current_phase {
            Phase::Quiz(q) => {
                q.skip_phase(&mut self.output_pipe);
                Ok(())
            },
            _ => Err(GameError::WrongPhase),
        }
    }

    /// Resolves one guess: the player must be on a team (`NotOnTeam`), a
    /// quiz must be running and accepting answers (`WrongPhase`), and then
    /// the guess resolves as `guess_spec` says — scores move only on a
    /// team's first correct guess for the question.
    pub fn guess(&mut self, player: u64, text: &[u8]) -> (r: Result<GuessOutcome, GameError>)
        requires
            wf_game(old(self)@),
        ensures
            team_of_player(old(self)@.teams, player) is None ==> r == Err::<
                GuessOutcome,
                GameError,
            >(GameError::NotOnTeam) && final(self)@ == old(self)@,
            team_of_player(old(self)@.teams, player) matches Some(id) ==> (match old(self)@.phase {
                PhaseModel::Quiz(q) => {
                    if q.step is Question {
                        let (q2, ts2, outcome, notes) = guess_spec(
                            q,
                            old(self)@.teams,
                            id,
                            text@,
                        );
                        r == Ok::<GuessOutcome, GameError>(outcome) && final(self)@
                            == (GameModel {
                            phase: PhaseModel::Quiz(q2),
                            teams: ts2,
                            out: (PipeModel {
                                msgs: old(self)@.out.msgs + notes,
                                ..old(self)@.out
                            }),
                            ..old(self)@
                        })
                    } else {
                        r == Err::<GuessOutcome, GameError>(GameError::WrongPhase) && final(self)@ == old(self)@
                    }
                },
                _ => r == Err::<GuessOutcome, GameError>(GameError::WrongPhase) && final(self)@
                    == old(self)@,
            }),
            wf_game(final(self)@),
    {
        let team_id = match self.teams.find_team_of(player) {
            Some(t) => t,
            None => {
                return Err(GameError::NotOnTeam);
            },
        };
        proof {
            let ts = old(self)@.teams;
            let j = crate::team::team_index_of_player(ts, player);
            assert(0 <= j < ts.len() && ts[j].id == team_id@);
            assert(has_team(ts, team_id@));
        }
        match &mut self.current_phase {
            Phase::Quiz(quiz) => quiz.guess(
                &team_id,
                text,
                &mut self.teams,
                &mut self.output_pipe,
            ),
            _ => Err(GameError::WrongPhase),
        }
    }

    /// Removes the named team outright; its members are left without a
    /// team. Fails with `InvalidName` or `NotFound`, mutating nothing.
    pub fn disband_team(&mut self, team_name: &[u8]) -> (r: Result<(), GameError>)
        requires
            wf_game(old(self)@),
        ensures
            r is Ok <==> (sanitize_ok(team_name@) && has_team(
                old(self)@.teams,
                sanitize_spec(team_name@),
            )),
            r is Ok ==> final(self)@ == (GameModel {
                teams: disband_spec(old(self)@.teams, sanitize_spec(team_name@)),
                ..old(self)@
            }) && !has_team(final(self)@.teams, sanitize_spec(team_name@)),
            r is Ok ==> forall|p: u64|
                old(self)@.teams[team_index_of_id(
                    old(self)@.teams,
                    sanitize_spec(team_name@),
                )].players.contains(p) ==> !on_some_team(final(self)@.teams, p),
            r matches Err(e) ==> final(self)@ == old(self)@ && ((e == GameError::InvalidName
                && !sanitize_ok(team_name@)) || (e == GameError::NotFound && sanitize_ok(
                team_name@,
            ) && !has_team(old(self)@.teams, sanitize_spec(team_name@)))),
            wf_game(final(self)@),
    {
        self.teams.disband(team_name)
    }

    /// Puts the player on the named team. During setup this is always
    /// legal; while a quiz runs, a player already on a team may not switch
    /// (`TeamLocked`). An unsanitizable name fails with `InvalidName`. A
    /// failure mutates nothing.
    pub fn join_team(&mut self, player: u64, team_name: &[u8]) -> (r: Result<(), GameError>)
        requires
            wf_game(old(self)@),
        ensures
            on_some_team(old(self)@.teams, player) && !(old(self)@.phase is Setup) ==> r == Err::<
                (),
                GameError,
            >(GameError::TeamLocked) && final(self)@ == old(self)@,
            !(on_some_team(old(self)@.teams, player) && !(old(self)@.phase is Setup)) ==> {
                &&& r is Ok <==> sanitize_ok(team_name@)
                &&& r matches Err(e) ==> e == GameError::InvalidName && final(self)@ == old(self)@
                &&& r is Ok ==> final(self)@ == (GameModel {
                    teams: join_spec(old(self)@.teams, player, sanitize_spec(team_name@)),
                    ..old(self)@
                })
            },
            wf_game(final(self)@),
    {
        let is_setup = matches!(self.current_phase, Phase::Setup);
        let on_team = self.teams.find_team_of(player).is_some();
        if on_team && !is_setup {
            return Err(GameError::TeamLocked);
        }
        self.teams.join(player, team_name)
    }

    /// Adds `delta` to the named team's score (clamped at the numeric
    /// limits) and queues a broadcast with the new score. Fails with
    /// `NotFound`, mutating nothing.
    pub fn adjust_score(&mut self, team_id: TeamId, delta: i32) -> (r: Result<(), GameError>)
        requires
            wf_game(old(self)@),
        ensures
            r is Ok <==> has_team(old(self)@.teams, team_id@),
            r is Ok ==> final(self)@ == (GameModel {
                teams: adjust_spec(old(self)@.teams, team_id@, delta as int),
                out: (PipeModel {
                    msgs: old(self)@.out.msgs.push(
                        NotifModel::ScoreAdjusted {
                            team: team_id@,
                            new_score: clamp_i32(
                                old(self)@.teams[team_index_of_id(
                                    old(self)@.teams,
                                    team_id@,
                                )].score + delta,
                            ),
                        },
                    ),
                    ..old(self)@.out
                }),
                ..old(self)@
            }),
            r matches Err(e) ==> e == GameError::NotFound && final(self)@ == old(self)@,
            wf_game(final(self)@),
    {
        match self.teams.adjust_score(&team_id, delta) {
            Ok(s) => {
                self.output_pipe.push_note(
                    Notification::ScoreAdjusted { team: team_id, new_score: s },
                );
                Ok(())
            },
            Err(e) => Err(e),
        }
    }

    /// Clears every team and queues a broadcast saying so.
    pub fn reset_teams(&mut self)
        requires
            wf_game(old(self)@),
        ensures
            final(self)@ == (GameModel {
                teams: Seq::<TeamModel>::empty(),
                out: (PipeModel {
                    msgs: old(self)@.out.msgs.push(NotifModel::TeamsReset),
                    ..old(self)@.out
                }),
                ..old(self)@
            }),
            wf_game(final(self)@),
    {
        self.teams.reset_all();
        self.output_pipe.push_note(Notification::TeamsReset);
    }

    /// Sets every team's score to zero, preserving membership, and queues a
    /// broadcast saying so.
    pub fn reset_scores(&mut self)
        requires
            wf_game(old(self)@),
        ensures
            final(self)@ == (GameModel {
                teams: reset_scores_spec(old(self)@.teams),
                out: (PipeModel {
                    msgs: old(self)@.out.msgs.push(NotifModel::ScoresReset),
                    ..old(self)@.out
                }),
                ..old(self)@
            }),
            wf_game(final(self)@),
    {
        self.teams.reset_scores();
        self.output_pipe.push_note(Notification::ScoresReset);
    }

    /// Pauses the game: idempotent, and only the transition out of the
    /// unpaused state queues a notification.
    pub fn pause(&mut self)
        requires
            wf_game(old(self)@),
        ensures
            final(self)@ == pause_spec(old(self)@),
            wf_game(final(self)@),
    {
        if !self.paused {
            self.paused = true;
            self.output_pipe.push_note(Notification::GamePaused);
        }
    }

    /// Unpauses the game: idempotent, and only the transition out of the
    /// paused state queues a notification.
    pub fn unpause(&mut self)
        requires
            wf_game(old(self)@),
        ensures
            final(self)@ == unpause_spec(old(self)@),
            wf_game(final(self)@),
    {
        if self.paused {
            self.paused = false;
            self.output_pipe.push_note(Notification::GameUnpaused);
        }
    }

    /// Replaces the team-to-channel routing of the output pipe; a pure
    /// passthrough with no phase restriction.
    pub fn update_team_channels(&mut self, mapping: Vec<TeamChannel>)
        requires
            wf_game(old(self)@),
        ensures
            final(self)@ == (GameModel {
                out: (PipeModel {
                    channels: mapping@.map_values(|c: TeamChannel| c@),
                    ..old(self)@.out
                }),
                ..old(self)@
            }),
            wf_game(final(self)@),
    {
        self.output_pipe.update_team_channels(mapping);
    }

    /// A read-only snapshot of every team, for display.
    pub fn get_teams(&self) -> (r: Vec<Team>)
        ensures
            r@.map_values(|t: Team| t@) == self@.teams,
    {
        self.teams.get_all()
    }

    /// The current team-to-channel routing, for the host process to consult
    /// when delivering notifications.
    pub fn get_team_channels(&self) -> (r: &Vec<TeamChannel>)
        ensures
            r@.map_values(|c: TeamChannel| c@) == self@.out.channels,
    {
        self.output_pipe.team_channels()
    }

    /// Hands the pending notifications to the caller, leaving the queue
    /// empty; the host process delivers them.
    pub fn take_notifications(&mut self) -> (r: Vec<Notification>)
        requires
            wf_game(old(self)@),
        ensures
            r@.map_values(|n: Notification| n@) == old(self)@.out.msgs,
            final(self)@ == (GameModel {
                out: (PipeModel { msgs: Seq::<NotifModel>::empty(), ..old(self)@.out }),
                ..old(self)@
            }),
            wf_game(final(self)@),
    {
        self.output_pipe.take_notifications()
    }
}

} // verus!
