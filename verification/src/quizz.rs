//! Quiz engine: one running trivia session over a team registry.
//!
//! A quiz advances through timed steps. Each question runs
//! cooldown, then question (answers accepted), then vote, wager and results;
//! after results the next question's cooldown starts, or the quiz ends when
//! the queue is empty. Timers advance only through `tick`, so the machine is
//! a pure function of elapsed time and is driven with synthetic time steps.
//! `skip_phase` completes the current step at once, as if its timer had
//! expired; scoring happens at guess time, never at a transition, so
//! skipping loses no side effect.

use vstd::prelude::*;

use crate::errors::GameError;
use crate::output::{NotifModel, Notification, OutputPipe, PipeModel};
use crate::team::{
    adjust_spec, clamp_i32, clone_bytes, has_team, sanitize_name, sanitize_ok, sanitize_spec,
    team_index_of_id, wf_teams, TeamId, TeamModel, TeamRegistry,
};

verus! {

// ---------------------------------------------------------------------------
// Settings, questions, definitions
// ---------------------------------------------------------------------------

/// Round timings of one quiz, in milliseconds of game time.
#[derive(Clone, Copy, Debug)]
pub struct Settings {
    pub cooldown_ms: u64,
    pub question_ms: u64,
    pub vote_ms: u64,
    pub wager_ms: u64,
    pub results_ms: u64,
}

/// The stock timings a quiz starts with.
pub open spec fn default_settings() -> Settings {
    Settings {
        cooldown_ms: 10000,
        question_ms: 30000,
        vote_ms: 10000,
        wager_ms: 10000,
        results_ms: 5000,
    }
}

impl Default for Settings {
    fn default() -> (r: Settings)
        ensures
            r == default_settings(),
    {
        Settings {
            cooldown_ms: 10000,
            question_ms: 30000,
            vote_ms: 10000,
            wager_ms: 10000,
            results_ms: 5000,
        }
    }
}

/// One question: its prompt, the accepted answers, and how many points a
/// correct guess is worth.
pub struct Question {
    pub prompt: Vec<u8>,
    pub answers: Vec<Vec<u8>>,
    pub score_value: i32,
}

/// The mathematical value of a question.
pub struct QuestionModel {
    pub prompt: Seq<u8>,
    pub answers: Seq<Seq<u8>>,
    pub score_value: int,
}

impl View for Question {
    type V = QuestionModel;

    open spec fn view(&self) -> QuestionModel {
        QuestionModel {
            prompt: self.prompt@,
            answers: self.answers@.map_values(|a: Vec<u8>| a@),
            score_value: self.score_value as int,
        }
    }
}

/// An ordered sequence of questions, parsed for the core by the host
/// process; immutable for the lifetime of a quiz.
pub struct QuizzDefinition {
    pub questions: Vec<Question>,
}

impl View for QuizzDefinition {
    type V = Seq<QuestionModel>;

    open spec fn view(&self) -> Seq<QuestionModel> {
        self.questions@.map_values(|q: Question| q@)
    }
}

// ---------------------------------------------------------------------------
// Steps
// ---------------------------------------------------------------------------

/// Timer state of one timed step: elapsed game time against a budget.
pub struct CooldownStep {
    pub time_elapsed: u64,
    pub time_to_wait: u64,
}

/// `u64` addition that sticks at the maximum instead of wrapping.
pub open spec fn sat_add64(a: u64, b: u64) -> u64 {
    if a + b > u64::MAX {
        u64::MAX
    } else {
        (a + b) as u64
    }
}

impl CooldownStep {
    /// A fresh timer that waits for `duration` milliseconds.
    pub fn new(duration: u64) -> (r: CooldownStep)
        ensures
            r == (CooldownStep { time_elapsed: 0, time_to_wait: duration }),
    {
        CooldownStep { time_elapsed: 0, time_to_wait: duration }
    }

    /// Advances the timer by `dt` milliseconds.
    pub fn tick(&mut self, dt: u64)
        ensures
            *final(self) == (CooldownStep {
                time_elapsed: sat_add64(old(self).time_elapsed, dt),
                time_to_wait: old(self).time_to_wait,
            }),
    {
        self.time_elapsed = self.time_elapsed.saturating_add(dt);
    }

    /// The timer has used up its budget.
    pub fn is_over(&self) -> (r: bool)
        ensures
            r == (self.time_elapsed >= self.time_to_wait),
    {
        self.time_elapsed >= self.time_to_wait
    }
}

/// The answer-accepting step: the active question, its timer, and the teams
/// that already scored on it.
pub struct QuestionStep {
    pub question: Question,
    pub timer: CooldownStep,
    pub guessed: Vec<TeamId>,
}

/// Which step a quiz is in, with that step's state.
pub enum QuizzStep {
    Cooldown(CooldownStep),
    Question(QuestionStep),
    Vote(CooldownStep),
    Wager(CooldownStep),
    Results(CooldownStep),
}

/// The mathematical value of a quiz step.
pub enum StepModel {
    Cooldown { timer: CooldownStep },
    Question { question: QuestionModel, timer: CooldownStep, guessed: Seq<Seq<u8>> },
    Vote { timer: CooldownStep },
    Wager { timer: CooldownStep },
    Results { timer: CooldownStep },
}

impl View for QuizzStep {
    type V = StepModel;

    open spec fn view(&self) -> StepModel {
        match self {
            QuizzStep::Cooldown(t) => StepModel::Cooldown { timer: *t },
            QuizzStep::Question(qs) => StepModel::Question {
                question: qs.question@,
                timer: qs.timer,
                guessed: qs.guessed@.map_values(|t: TeamId| t@),
            },
            QuizzStep::Vote(t) => StepModel::Vote { timer: *t },
            QuizzStep::Wager(t) => StepModel::Wager { timer: *t },
            QuizzStep::Results(t) => StepModel::Results { timer: *t },
        }
    }
}

// ---------------------------------------------------------------------------
// The quiz and its transitions
// ---------------------------------------------------------------------------

/// One running quiz session.
pub struct Quizz {
    settings: Settings,
    remaining_questions: Vec<Question>,
    current_step: QuizzStep,
    over: bool,
}

/// The mathematical value of a quiz.
pub struct QuizzModel {
    pub settings: Settings,
    pub queue: Seq<QuestionModel>,
    pub step: StepModel,
    pub over: bool,
}

impl View for Quizz {
    type V = QuizzModel;

    closed spec fn view(&self) -> QuizzModel {
        QuizzModel {
            settings: self.settings,
            queue: self.remaining_questions@.map_values(|q: Question| q@),
            step: self.current_step@,
            over: self.over,
        }
    }
}

/// Well-formedness: a cooldown only runs when a question is left to pose,
/// and a finished quiz rests in the results step with an empty queue.
pub open spec fn wf_quizz(q: QuizzModel) -> bool {
    &&& (q.step is Cooldown ==> q.queue.len() >= 1)
    &&& (q.over ==> q.step is Results && q.queue.len() == 0)
}

/// A timer that has not yet started on a budget of `wait`.
pub open spec fn fresh_timer(wait: u64) -> CooldownStep {
    CooldownStep { time_elapsed: 0, time_to_wait: wait }
}

/// The current step's state with `dt` more elapsed time.
pub open spec fn step_with_time(s: StepModel, dt: u64) -> StepModel {
    match s {
        StepModel::Cooldown { timer } => StepModel::Cooldown {
            timer: CooldownStep {
                time_elapsed: sat_add64(timer.time_elapsed, dt),
                time_to_wait: timer.time_to_wait,
            },
        },
        StepModel::Question { question, timer, guessed } => StepModel::Question {
            question,
            timer: CooldownStep {
                time_elapsed: sat_add64(timer.time_elapsed, dt),
                time_to_wait: timer.time_to_wait,
            },
            guessed,
        },
        StepModel::Vote { timer } => StepModel::Vote {
            timer: CooldownStep {
                time_elapsed: sat_add64(timer.time_elapsed, dt),
                time_to_wait: timer.time_to_wait,
            },
        },
        StepModel::Wager { timer } => StepModel::Wager {
            timer: CooldownStep {
                time_elapsed: sat_add64(timer.time_elapsed, dt),
                time_to_wait: timer.time_to_wait,
            },
        },
        StepModel::Results { timer } => StepModel::Results {
            timer: CooldownStep {
                time_elapsed: sat_add64(timer.time_elapsed, dt),
                time_to_wait: timer.time_to_wait,
            },
        },
    }
}

/// The current step's timer has used up its budget.
pub open spec fn step_done(s: StepModel) -> bool {
    match s {
        StepModel::Cooldown { timer } => timer.time_elapsed >= timer.time_to_wait,
        StepModel::Question { timer, .. } => timer.time_elapsed >= timer.time_to_wait,
        StepModel::Vote { timer } => timer.time_elapsed >= timer.time_to_wait,
        StepModel::Wager { timer } => timer.time_elapsed >= timer.time_to_wait,
        StepModel::Results { timer } => timer.time_elapsed >= timer.time_to_wait,
    }
}

/// Forced completion of the current step: the next scheduled step begins
/// (with its announcement), or the quiz ends after the last results step.
pub open spec fn advance_spec(q: QuizzModel) -> (QuizzModel, Seq<NotifModel>) {
    match q.step {
        StepModel::Cooldown { .. } => {
            let question = q.queue[0];
            (
                QuizzModel {
                    queue: q.queue.drop_first(),
                    step: StepModel::Question {
                        question,
                        timer: fresh_timer(q.settings.question_ms),
                        guessed: Seq::empty(),
                    },
                    ..q
                },
                seq![NotifModel::NewQuestion { prompt: question.prompt }],
            )
        },
        StepModel::Question { .. } => (
            QuizzModel { step: StepModel::Vote { timer: fresh_timer(q.settings.vote_ms) }, ..q },
            seq![NotifModel::VoteStarted],
        ),
        StepModel::Vote { .. } => (
            QuizzModel { step: StepModel::Wager { timer: fresh_timer(q.settings.wager_ms) }, ..q },
            seq![NotifModel::WagerStarted],
        ),
        StepModel::Wager { .. } => (
            QuizzModel {
                step: StepModel::Results { timer: fresh_timer(q.settings.results_ms) },
                ..q
            },
            seq![NotifModel::ResultsStarted],
        ),
        StepModel::Results { .. } => {
            if q.queue.len() == 0 {
                (QuizzModel { over: true, ..q }, seq![NotifModel::QuizEnded])
            } else {
                (
                    QuizzModel {
                        step: StepModel::Cooldown { timer: fresh_timer(q.settings.cooldown_ms) },
                        ..q
                    },
                    Seq::empty(),
                )
            }
        },
    }
}

/// One time step: nothing happens on a finished quiz; otherwise the timer
/// advances and, if it thereby uses up its budget, the step completes.
pub open spec fn tick_spec(q: QuizzModel, dt: u64) -> (QuizzModel, Seq<NotifModel>) {
    if q.over {
        (q, Seq::empty())
    } else {
        let q2 = QuizzModel { step: step_with_time(q.step, dt), ..q };
        if step_done(q2.step) {
            advance_spec(q2)
        } else {
            (q2, Seq::empty())
        }
    }
}

/// A moderator skip: the current step completes at once; nothing happens on
/// a finished quiz.
pub open spec fn skip_spec(q: QuizzModel) -> (QuizzModel, Seq<NotifModel>) {
    if q.over {
        (q, Seq::empty())
    } else {
        advance_spec(q)
    }
}

/// The guess text names one of the question's accepted answers, compared in
/// sanitized form (trimmed, lowercased).
pub open spec fn answer_matches(text: Seq<u8>, question: QuestionModel) -> bool {
    sanitize_ok(text) && exists|i: int|
        0 <= i < question.answers.len() && sanitize_spec(#[trigger] question.answers[i])
            == sanitize_spec(text)
}

/// What one guess does during the question step: a team that already scored
/// on this question is ignored; a first correct guess scores the question's
/// value exactly once and is announced; a wrong guess changes nothing.
pub open spec fn guess_spec(
    q: QuizzModel,
    ts: Seq<TeamModel>,
    id: Seq<u8>,
    text: Seq<u8>,
) -> (QuizzModel, Seq<TeamModel>, GuessOutcome, Seq<NotifModel>)
    recommends
        q.step is Question,
{
    match q.step {
        StepModel::Question { question, timer, guessed } => {
            if guessed.contains(id) {
                (q, ts, GuessOutcome::AlreadyAnswered, Seq::empty())
            } else if answer_matches(text, question) {
                let new_score = clamp_i32(
                    ts[team_index_of_id(ts, id)].score + question.score_value,
                );
                (
                    QuizzModel {
                        step: StepModel::Question { question, timer, guessed: guessed.push(id) },
                        ..q
                    },
                    adjust_spec(ts, id, question.score_value),
                    GuessOutcome::Correct,
                    seq![NotifModel::CorrectGuess { team: id, new_score }],
                )
            } else {
                (q, ts, GuessOutcome::Incorrect, Seq::empty())
            }
        },
        _ => (q, ts, GuessOutcome::Incorrect, Seq::empty()),
    }
}

/// How a guess was resolved.
#[derive(Clone, Copy, Debug, PartialEq, Eq, Structural)]
pub enum GuessOutcome {
    /// First correct guess of this team for this question; it scored.
    Correct,
    /// The text names no accepted answer; nothing changed.
    Incorrect,
    /// This team already scored on this question; nothing changed.
    AlreadyAnswered,
}

/// A team that has already scored on the current question scores nothing
/// from any further guess: the second guess leaves every team, and the quiz,
/// exactly as they were.
pub proof fn lemma_guess_scores_once(
    q: QuizzModel,
    ts: Seq<TeamModel>,
    id: Seq<u8>,
    text1: Seq<u8>,
    text2: Seq<u8>,
)
    requires
        q.step is Question,
        answer_matches(text1, q.step->question),
        !(q.step->guessed).contains(id),
    ensures
        ({
            let (q1, ts1, o1, n1) = guess_spec(q, ts, id, text1);
            let (q2, ts2, o2, n2) = guess_spec(q1, ts1, id, text2);
            &&& o1 == GuessOutcome::Correct
            &&& o2 == GuessOutcome::AlreadyAnswered
            &&& ts2 == ts1
            &&& q2 == q1
            &&& n2 == Seq::<NotifModel>::empty()
        }),
{
    let (q1, ts1, o1, n1) = guess_spec(q, ts, id, text1);
    assert((q1.step->guessed).contains(id)) by {
        let g = q.step->guessed;
        assert(g.push(id)[g.len() as int] == id);
    }
}

fn teamid_list_contains(v: &Vec<TeamId>, id: &TeamId) -> (r: bool)
    ensures
        r <==> v@.map_values(|t: TeamId| t@).contains(id@),
{
    let ghost m = v@.map_values(|t: TeamId| t@);
    let mut i: usize = 0;
    while i < v.len()
        invariant
            m == v@.map_values(|t: TeamId| t@),
            i <= v@.len(),
            forall|k: int| 0 <= k < i ==> m[k] != id@,
        decreases v@.len() - i,
    {
        if crate::team::bytes_eq(v[i].name().as_slice(), id.name().as_slice()) {
            assert(m[i as int] == id@);
            return true;
        }
        i += 1;
    }
    false
}

fn matches_answers(answers: &Vec<Vec<u8>>, text: &[u8]) -> (r: bool)
    ensures
        r == (sanitize_ok(text@) && exists|i: int|
            0 <= i < answers@.len() && sanitize_spec((#[trigger] answers@[i])@) == sanitize_spec(
                text@,
            )),
{
    let st = match sanitize_name(text) {
        Ok(v) => v,
        Err(_) => {
            return false;
        },
    };
    let mut i: usize = 0;
    while i < answers.len()
        invariant
            st@ == sanitize_spec(text@),
            sanitize_ok(text@),
            i <= answers@.len(),
            forall|k: int|
                0 <= k < i ==> sanitize_spec((#[trigger] answers@[k])@) != sanitize_spec(text@),
        decreases answers@.len() - i,
    {
        match sanitize_name(answers[i].as_slice()) {
            Ok(sa) => {
                if crate::team::bytes_eq(sa.as_slice(), st.as_slice()) {
                    assert(sanitize_spec((answers@[i as int])@) == sanitize_spec(text@));
                    return true;
                }
            },
            Err(_) => {
                assert(sanitize_spec((answers@[i as int])@).len() == 0);
            },
        }
        i += 1;
    }
    false
}

impl Quizz {
    /// A quiz over the given definition with the stock settings, resting in
    /// the first question's cooldown.
    pub fn new(definition: QuizzDefinition) -> (r: Quizz)
        requires
            definition@.len() >= 1,
        ensures
            r@ == (QuizzModel {
                settings: default_settings(),
                queue: definition@,
                step: StepModel::Cooldown { timer: fresh_timer(default_settings().cooldown_ms) },
                over: false,
            }),
            wf_quizz(r@),
    {
        let settings = Settings::default();
        Quizz {
            current_step: QuizzStep::Cooldown(CooldownStep::new(settings.cooldown_ms)),
            remaining_questions: definition.questions,
            settings,
            over: false,
        }
    }

    /// Builds a quiz from what the loader produced: `None` (source missing
    /// or unreadable) and a definition without questions both fail with
    /// `LoadError`.
    pub fn load(source: Option<QuizzDefinition>) -> (r: Result<Quizz, GameError>)
        ensures
            r is Ok <==> (source matches Some(d) && d@.len() >= 1),
            r matches Ok(q) ==> source matches Some(d) && q@ == (QuizzModel {
                settings: default_settings(),
                queue: d@,
                step: StepModel::Cooldown { timer: fresh_timer(default_settings().cooldown_ms) },
                over: false,
            }) && wf_quizz(q@),
            r matches Err(e) ==> e == GameError::LoadError,
    {
        match source {
            Some(d) => {
                if d.questions.len() == 0 {
                    Err(GameError::LoadError)
                } else {
                    Ok(Quizz::new(d))
                }
            },
            None => Err(GameError::LoadError),
        }
    }

    /// The quiz has posed its last question and revealed its results.
    pub fn is_over(&self) -> (r: bool)
        ensures
            r == self@.over,
    {
        self.over
    }

    /// Forced completion of the current step (moderator override).
    pub fn skip_phase(&mut self, output: &mut OutputPipe)
        requires
            wf_quizz(old(self)@),
        ensures
            ({
                let (q2, notes) = skip_spec(old(self)@);
                final(self)@ == q2 && final(output)@ == (PipeModel {
                    msgs: old(output)@.msgs + notes,
                    ..old(output)@
                })
            }),
            wf_quizz(final(self)@),
    {
        if self.over {
            proof {
                assert(old(output)@.msgs + Seq::<NotifModel>::empty() =~= old(output)@.msgs);
                assert(final(output)@ =~= old(output)@);
            }
            return ;
        }
        self.advance(output);
    }

    /// One time step of `dt` milliseconds.
    pub fn tick(&mut self, dt: u64, output: &mut OutputPipe)
        requires
            wf_quizz(old(self)@),
        ensures
            ({
                let (q2, notes) = tick_spec(old(self)@, dt);
                final(self)@ == q2 && final(output)@ == (PipeModel {
                    msgs: old(output)@.msgs + notes,
                    ..old(output)@
                })
            }),
            wf_quizz(final(self)@),
    {
        if self.over {
            proof {
                assert(old(output)@.msgs + Seq::<NotifModel>::empty() =~= old(output)@.msgs);
                assert(final(output)@ =~= old(output)@);
            }
            return ;
        }
        match &mut self.current_step {
            QuizzStep::Cooldown(t) => t.tick(dt),
            QuizzStep::Question(qs) => qs.timer.tick(dt),
            QuizzStep::Vote(t) => t.tick(dt),
            QuizzStep::Wager(t) => t.tick(dt),
            QuizzStep::Results(t) => t.tick(dt),
        }
        let done = match &self.current_step {
            QuizzStep::Cooldown(t) => t.is_over(),
            QuizzStep::Question(qs) => qs.timer.is_over(),
            QuizzStep::Vote(t) => t.is_over(),
            QuizzStep::Wager(t) => t.is_over(),
            QuizzStep::Results(t) => t.is_over(),
        };
        if done {
            self.advance(output);
        } else {
            proof {
                assert(old(output)@.msgs + Seq::<NotifModel>::empty() =~= old(output)@.msgs);
                assert(final(output)@ =~= old(output)@);
            }
        }
    }

    /// Completes the current step: the transition of `advance_spec`.
    fn advance(&mut self, output: &mut OutputPipe)
        requires
            wf_quizz(old(self)@),
            !old(self)@.over,
        ensures
            ({
                let (q2, notes) = advance_spec(old(self)@);
                final(self)@ == q2 && final(output)@ == (PipeModel {
                    msgs: old(output)@.msgs + notes,
                    ..old(output)@
                })
            }),
            wf_quizz(final(self)@),
    {
        let is_cooldown = matches!(self.current_step, QuizzStep::Cooldown(_));
        let is_question = matches!(self.current_step, QuizzStep::Question(_));
        let is_vote = matches!(self.current_step, QuizzStep::Vote(_));
        let is_wager = matches!(self.current_step, QuizzStep::Wager(_));
        if is_cooldown {
            let question = self.remaining_questions.remove(0);
            let prompt = clone_bytes(&question.prompt);
            self.current_step = QuizzStep::Question(QuestionStep {
                question,
                timer: CooldownStep::new(self.settings.question_ms),
                guessed: Vec::new(),
            });
            output.push_note(Notification::NewQuestion { prompt });
            proof {
                assert(final(self)@.queue =~= old(self)@.queue.drop_first());
                assert(final(self)@.step->guessed =~= Seq::<Seq<u8>>::empty());
                assert(final(output)@.msgs =~= old(output)@.msgs + seq![
                    NotifModel::NewQuestion { prompt: old(self)@.queue[0].prompt },
                ]);
            }
        } else if is_question {
            self.current_step = QuizzStep::Vote(CooldownStep::new(self.settings.vote_ms));
            output.push_note(Notification::VoteStarted);
            proof {
                assert(final(output)@.msgs =~= old(output)@.msgs + seq![NotifModel::VoteStarted]);
            }
        } else if is_vote {
            self.current_step = QuizzStep::Wager(CooldownStep::new(self.settings.wager_ms));
            output.push_note(Notification::WagerStarted);
            proof {
                assert(final(output)@.msgs =~= old(output)@.msgs + seq![NotifModel::WagerStarted]);
            }
        } else if is_wager {
            self.current_step = QuizzStep::Results(CooldownStep::new(self.settings.results_ms));
            output.push_note(Notification::ResultsStarted);
            proof {
                assert(final(output)@.msgs =~= old(output)@.msgs + seq![
                    NotifModel::ResultsStarted,
                ]);
            }
        } else {
            if self.remaining_questions.len() == 0 {
                self.over = true;
                output.push_note(Notification::QuizEnded);
                proof {
                    assert(final(output)@.msgs =~= old(output)@.msgs + seq![
                        NotifModel::QuizEnded,
                    ]);
                }
            } else {
                self.current_step = QuizzStep::Cooldown(
                    CooldownStep::new(self.settings.cooldown_ms),
                );
                proof {
                    assert(final(output)@.msgs =~= old(output)@.msgs
                        + Seq::<NotifModel>::empty());
                }
            }
        }
    }

    /// Resolves one guess from the named team. Outside the question step it
    /// fails with `WrongPhase` and changes nothing; during it, the
    /// transition of `guess_spec`: at most one scoring per team per
    /// question.
    pub fn guess(
        &mut self,
        team_id: &TeamId,
        text: &[u8],
        teams: &mut TeamRegistry,
        output: &mut OutputPipe,
    ) -> (r: Result<GuessOutcome, GameError>)
        requires
            wf_quizz(old(self)@),
            wf_teams(old(teams)@),
            has_team(old(teams)@, team_id@),
        ensures
            old(self)@.step !is Question ==> r == Err::<GuessOutcome, GameError>(
                GameError::WrongPhase,
            ) && final(self)@ == old(self)@ && final(teams)@ == old(teams)@ && final(output)@
                == old(output)@,
            old(self)@.step is Question ==> ({
                let (q2, ts2, outcome, notes) = guess_spec(
                    old(self)@,
                    old(teams)@,
                    team_id@,
                    text@,
                );
                r == Ok::<GuessOutcome, GameError>(outcome) && final(self)@ == q2 && final(teams)@
                    == ts2 && final(output)@ == (PipeModel {
                    msgs: old(output)@.msgs + notes,
                    ..old(output)@
                })
            }),
            wf_quizz(final(self)@),
            wf_teams(final(teams)@),
    {
        match &mut self.current_step {
            QuizzStep::Question(qs) => {
                if teamid_list_contains(&qs.guessed, team_id) {
                    return Ok(GuessOutcome::AlreadyAnswered);
                }
                let correct = matches_answers(&qs.question.answers, text);
                proof {
                    // Bridge the byte-level match to the model-level one.
                    let qm = old(self)@.step->question;
                    if correct {
                        let i = choose|i: int|
                            0 <= i < qs.question.answers@.len() && sanitize_spec(
                                (#[trigger] qs.question.answers@[i])@,
                            ) == sanitize_spec(text@);
                        assert(sanitize_spec(qm.answers[i]) == sanitize_spec(text@));
                        assert(answer_matches(text@, qm));
                    } else if answer_matches(text@, qm) {
                        let i = choose|i: int|
                            0 <= i < qm.answers.len() && sanitize_spec(#[trigger] qm.answers[i])
                                == sanitize_spec(text@);
                        assert(sanitize_spec((qs.question.answers@[i])@) == sanitize_spec(
                            text@,
                        ));
                        assert(false);
                    }
                }
                if correct {
                    let value = qs.question.score_value;
                    qs.guessed.push(team_id.clone());
                    let new_score = match teams.adjust_score(team_id, value) {
                        Ok(s) => s,
                        Err(_) => {
                            proof {
                                assert(false);
                            }
                            0
                        },
                    };
                    output.push_note(Notification::CorrectGuess {
                        team: team_id.clone(),
                        new_score,
                    });
                    proof {
                        let (q2, ts2, outcome, notes) = guess_spec(
                            old(self)@,
                            old(teams)@,
                            team_id@,
                            text@,
                        );
                        assert(final(self)@.step->guessed =~= old(self)@.step->guessed.push(
                            team_id@,
                        ));
                        assert(final(output)@.msgs =~= old(output)@.msgs + notes);
                    }
                    Ok(GuessOutcome::Correct)
                } else {
                    Ok(GuessOutcome::Incorrect)
                }
            },
            _ => Err(GameError::WrongPhase),
        }
    }
}

} // verus!
