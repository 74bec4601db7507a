//! What one test case does on the page: the states it passes through, the
//! interaction policy of each mode, and the selectors, scripts and screenshot
//! names of the page contract.
use vstd::prelude::*;
use crate::model::{answers, Mode, Question, RunError, TestCase};
use crate::text::{decimal, push_decimal, sanitized, sanitize_for_filename};

verus! {

/// An element of the page under test that a step waits for or clicks.
#[derive(PartialEq, Eq, Structural, Clone, Copy, Debug)]
pub enum Target {
    StartScreen,
    /// Any question-set tile.
    AnyTile,
    /// The tile of the test case being run.
    Tile,
    GameScreen,
    /// Any answer choice.
    Choices,
    /// The answer choice at a zero-based position.
    Choice(usize),
    ResultScreen,
    NextButton,
    FinishScreen,
}

/// A diagnostic screenshot taken on every run of a case.
#[derive(PartialEq, Eq, Structural, Clone, Copy, Debug)]
pub enum Shot {
    /// The start screen once tiles are present.
    TilesPresent,
    /// The start screen just before the tile is clicked.
    BeforeClick,
    /// The finish screen.
    Finish,
}

/// One step of a test case; the steps run in order and the first that fails ends
/// the case.
#[derive(PartialEq, Eq, Structural, Clone, Copy, Debug)]
pub enum Step {
    /// Open the page under test.
    Navigate,
    /// Wait until the target is present, or time out.
    WaitFor(Target),
    /// Fail unless the start screen is shown.
    CheckStartVisible,
    /// Report the keys of the tiles present.
    ListTiles,
    Screenshot(Shot),
    Click(Target),
    /// Pause for the given number of milliseconds.
    Pause(u64),
}

/// How long to stay on the game screen after the deliberately wrong answer.
pub const WRONG_ANSWER_PAUSE_MS: u64 = 500;

/// The choice clicked as a wrong answer: the first, unless it is the correct one.
pub open spec fn wrong_choice(correct: usize) -> usize {
    if correct == 0 {
        1
    } else {
        0
    }
}

/// The steps of one question round.
pub open spec fn round_model(mode: Mode, first: bool, correct: usize) -> Seq<Step> {
    match mode {
        Mode::Hard => seq![
            Step::WaitFor(Target::Choices),
            Step::Click(Target::Choice(0)),
            Step::WaitFor(Target::ResultScreen),
            Step::Click(Target::NextButton),
        ],
        Mode::Easy => if first {
            seq![
                Step::WaitFor(Target::Choices),
                Step::Click(Target::Choice(wrong_choice(correct))),
                Step::Pause(WRONG_ANSWER_PAUSE_MS),
                Step::Click(Target::Choice(correct)),
                Step::WaitFor(Target::ResultScreen),
                Step::Click(Target::NextButton),
            ]
        } else {
            seq![
                Step::WaitFor(Target::Choices),
                Step::Click(Target::Choice(correct)),
                Step::WaitFor(Target::ResultScreen),
                Step::Click(Target::NextButton),
            ]
        },
    }
}

/// The rounds of all questions, given their correct answers in order.
pub open spec fn rounds_model(mode: Mode, correct: Seq<usize>) -> Seq<Step>
    decreases correct.len(),
{
    if correct.len() == 0 {
        seq![]
    } else {
        rounds_model(mode, correct.drop_last()) + round_model(
            mode,
            correct.len() == 1,
            correct.last(),
        )
    }
}

/// From a fresh page to the game screen.
pub open spec fn opening() -> Seq<Step> {
    seq![
        Step::Navigate,
        Step::WaitFor(Target::StartScreen),
        Step::CheckStartVisible,
        Step::WaitFor(Target::AnyTile),
        Step::ListTiles,
        Step::Screenshot(Shot::TilesPresent),
        Step::WaitFor(Target::Tile),
        Step::Screenshot(Shot::BeforeClick),
        Step::Click(Target::Tile),
        Step::WaitFor(Target::GameScreen),
    ]
}

/// After the last round.
pub open spec fn closing() -> Seq<Step> {
    seq![Step::WaitFor(Target::FinishScreen), Step::Screenshot(Shot::Finish)]
}

/// All steps of a test case.
pub open spec fn plan_model(mode: Mode, correct: Seq<usize>) -> Seq<Step> {
    opening() + rounds_model(mode, correct) + closing()
}

pub fn wrong_choice_for(correct: usize) -> (r: usize)
    ensures
        r == wrong_choice(correct),
{
    if correct == 0 {
        1
    } else {
        0
    }
}

fn push_round(v: &mut Vec<Step>, mode: Mode, first: bool, correct: usize)
    ensures
        final(v)@ == old(v)@ + round_model(mode, first, correct),
{
    v.push(Step::WaitFor(Target::Choices));
    match mode {
        Mode::Hard => {
            v.push(Step::Click(Target::Choice(0)));
        },
        Mode::Easy => {
            if first {
                v.push(Step::Click(Target::Choice(wrong_choice_for(correct))));
                v.push(Step::Pause(WRONG_ANSWER_PAUSE_MS));
            }
            v.push(Step::Click(Target::Choice(correct)));
        },
    }
    v.push(Step::WaitFor(Target::ResultScreen));
    v.push(Step::Click(Target::NextButton));
    proof {
        assert(final(v)@ =~= old(v)@ + round_model(mode, first, correct));
    }
}

/// The steps of one question round under `mode`; `first` marks the first
/// question of the set.
pub fn round_steps(mode: Mode, first: bool, correct: usize) -> (r: Vec<Step>)
    ensures
        r@ == round_model(mode, first, correct),
{
    let mut r: Vec<Step> = Vec::new();
    push_round(&mut r, mode, first, correct);
    proof {
        assert(Seq::<Step>::empty() + round_model(mode, first, correct) =~= round_model(
            mode,
            first,
            correct,
        ));
    }
    r
}

/// The steps that run `case` from a fresh page to its finish screen.
pub fn plan_for(case: &TestCase) -> (r: Vec<Step>)
    ensures
        r@ == plan_model(case.metadata.mode, answers(case.questions@)),
{
    let mode = case.metadata.mode;
    let mut r: Vec<Step> = Vec::new();
    r.push(Step::Navigate);
    r.push(Step::WaitFor(Target::StartScreen));
    r.push(Step::CheckStartVisible);
    r.push(Step::WaitFor(Target::AnyTile));
    r.push(Step::ListTiles);
    r.push(Step::Screenshot(Shot::TilesPresent));
    r.push(Step::WaitFor(Target::Tile));
    r.push(Step::Screenshot(Shot::BeforeClick));
    r.push(Step::Click(Target::Tile));
    r.push(Step::WaitFor(Target::GameScreen));
    proof {
        assert(r@ =~= opening());
    }
    let ghost all = answers(case.questions@);
    let n = case.questions.len();
    let mut i: usize = 0;
    while i < n
        invariant
            n == case.questions@.len(),
            all == answers(case.questions@),
            i <= n,
            r@ == opening() + rounds_model(mode, all.take(i as int)),
        decreases n - i,
    {
        let ghost pre = r@;
        push_round(&mut r, mode, i == 0, case.questions[i].correct_answer);
        proof {
            assert(all.take(i + 1).drop_last() =~= all.take(i as int));
            assert(all.take(i + 1).last() == all[i as int]);
            assert(r@ =~= opening() + rounds_model(mode, all.take(i + 1)));
        }
        i += 1;
    }
    r.push(Step::WaitFor(Target::FinishScreen));
    r.push(Step::Screenshot(Shot::Finish));
    proof {
        assert(all.take(n as int) =~= all);
        assert(r@ =~= plan_model(mode, all));
    }
    r
}

/// The positions of the answer choices clicked, in order.
pub open spec fn choice_clicks(steps: Seq<Step>) -> Seq<usize>
    decreases steps.len(),
{
    if steps.len() == 0 {
        seq![]
    } else {
        choice_clicks(steps.drop_last()) + match steps.last() {
            Step::Click(Target::Choice(i)) => seq![i],
            _ => seq![],
        }
    }
}

proof fn lemma_clicks_concat(a: Seq<Step>, b: Seq<Step>)
    ensures
        choice_clicks(a + b) == choice_clicks(a) + choice_clicks(b),
    decreases b.len(),
{
    if b.len() == 0 {
        assert(a + b =~= a);
        assert(choice_clicks(a) + choice_clicks(b) =~= choice_clicks(a));
    } else {
        assert((a + b).drop_last() =~= a + b.drop_last());
        lemma_clicks_concat(a, b.drop_last());
        assert((a + b).last() == b.last());
        let tail = match b.last() {
            Step::Click(Target::Choice(i)) => seq![i],
            _ => seq![],
        };
        assert(choice_clicks(a) + choice_clicks(b.drop_last()) + tail =~= choice_clicks(a) + (
        choice_clicks(b.drop_last()) + tail));
    }
}

proof fn lemma_round_clicks(mode: Mode, first: bool, c: usize)
    ensures
        choice_clicks(round_model(mode, first, c)) == (match mode {
            Mode::Hard => seq![0usize],
            Mode::Easy => if first {
                seq![wrong_choice(c), c]
            } else {
                seq![c]
            },
        }),
{
    let r = round_model(mode, first, c);
    reveal_with_fuel(choice_clicks, 7);
    assert(r.drop_last().drop_last().drop_last().drop_last() =~= r.take(r.len() - 4));
    if mode == Mode::Easy && first {
        assert(r.take(2).drop_last() =~= r.take(1));
        assert(r.take(1).drop_last() =~= r.take(0));
        assert(choice_clicks(r.take(2)) =~= seq![wrong_choice(c)]);
        assert(r.drop_last() =~= r.take(5));
        assert(r.take(5).drop_last() =~= r.take(4));
        assert(r.take(4).drop_last() =~= r.take(3));
        assert(r.take(3).drop_last() =~= r.take(2));
        assert(choice_clicks(r) =~= seq![wrong_choice(c), c]);
    } else {
        assert(r.drop_last() =~= r.take(3));
        assert(r.take(3).drop_last() =~= r.take(2));
        assert(r.take(2).drop_last() =~= r.take(1));
        assert(r.take(1).drop_last() =~= r.take(0));
    }
}

/// Hard mode clicks exactly one choice per question, always the first one,
/// whatever the correct answers are.
pub proof fn lemma_hard_mode_clicks(correct: Seq<usize>)
    ensures
        choice_clicks(rounds_model(Mode::Hard, correct)) == Seq::new(correct.len(), |k: int| 0usize),
        forall|first: bool, c: usize| choice_clicks(#[trigger] round_model(Mode::Hard, first, c)) == seq![0usize],
    decreases correct.len(),
{
    assert forall|first: bool, c: usize| choice_clicks(#[trigger] round_model(Mode::Hard, first, c)) == seq![0usize] by {
        lemma_round_clicks(Mode::Hard, first, c);
    }
    if correct.len() == 0 {
        assert(choice_clicks(seq![]) =~= Seq::new(0, |k: int| 0usize));
    } else {
        lemma_hard_mode_clicks(correct.drop_last());
        let c = correct.last();
        lemma_clicks_concat(rounds_model(Mode::Hard, correct.drop_last()), round_model(Mode::Hard, correct.len() == 1, c));
        lemma_round_clicks(Mode::Hard, correct.len() == 1, c);
        assert(Seq::new(correct.drop_last().len(), |k: int| 0usize) + seq![0usize] =~= Seq::new(
            correct.len(),
            |k: int| 0usize,
        ));
    }
}

/// Easy mode clicks, on the first question, one wrong choice and then the
/// correct one, both before waiting for the result screen; on every other
/// question it clicks the correct choice once.
pub proof fn lemma_easy_mode_clicks(correct: Seq<usize>)
    requires
        correct.len() > 0,
    ensures
        choice_clicks(rounds_model(Mode::Easy, correct)) == seq![
            wrong_choice(correct[0]),
            correct[0],
        ] + correct.drop_first(),
        wrong_choice(correct[0]) != correct[0],
        ({
            let r = round_model(Mode::Easy, true, correct[0]);
            &&& choice_clicks(r.take(4)) == seq![wrong_choice(correct[0]), correct[0]]
            &&& r[4] == Step::WaitFor(Target::ResultScreen)
            &&& choice_clicks(r.skip(4)) == Seq::<usize>::empty()
        }),
        forall|c: usize| choice_clicks(#[trigger] round_model(Mode::Easy, false, c)) == seq![c],
    decreases correct.len(),
{
    assert forall|c: usize| choice_clicks(#[trigger] round_model(Mode::Easy, false, c)) == seq![c] by {
        lemma_round_clicks(Mode::Easy, false, c);
    }
    let c0 = correct[0];
    let r = round_model(Mode::Easy, true, c0);
    lemma_round_clicks(Mode::Easy, true, c0);
    assert(r =~= r.take(4) + r.skip(4));
    lemma_clicks_concat(r.take(4), r.skip(4));
    reveal_with_fuel(choice_clicks, 3);
    assert(r.skip(4).drop_last() =~= r.skip(4).take(1));
    assert(r.skip(4).take(1).drop_last() =~= r.skip(4).take(0));
    assert(choice_clicks(r.skip(4)) =~= Seq::<usize>::empty());
    assert(choice_clicks(r.take(4)) =~= seq![wrong_choice(c0), c0]);
    if correct.len() == 1 {
        assert(correct.drop_last() =~= Seq::<usize>::empty());
        lemma_clicks_concat(Seq::<Step>::empty(), r);
        assert(rounds_model(Mode::Easy, correct.drop_last()) =~= Seq::<Step>::empty());
        assert(correct.last() == c0);
        assert(rounds_model(Mode::Easy, correct) =~= Seq::<Step>::empty() + r);
        assert(seq![wrong_choice(c0), c0] + correct.drop_first() =~= seq![wrong_choice(c0), c0]);
        assert(choice_clicks(Seq::<Step>::empty()) =~= Seq::<usize>::empty());
        assert(Seq::<usize>::empty() + seq![wrong_choice(c0), c0] =~= seq![wrong_choice(c0), c0]);
    } else {
        let front = correct.drop_last();
        lemma_easy_mode_clicks(front);
        let c = correct.last();
        lemma_clicks_concat(rounds_model(Mode::Easy, front), round_model(Mode::Easy, false, c));
        assert(front[0] == c0);
        assert(seq![wrong_choice(c0), c0] + front.drop_first() + seq![c] =~= seq![
            wrong_choice(c0),
            c0,
        ] + correct.drop_first());
    }
}

/// The wrong choice of the first easy round differs from the correct one, and it
/// exists among the choices exactly when there are at least two of them.
pub proof fn lemma_wrong_choice(q: Question)
    requires
        q.valid(),
    ensures
        wrong_choice(q.correct_answer) != q.correct_answer,
        wrong_choice(q.correct_answer) < q.choices@.len() <==> q.choices@.len() >= 2,
{
}

/// The outcome of the start-screen check, given what evaluating the visibility
/// script gave: shown, hidden, or an evaluation failure with its description.
pub fn start_screen_outcome(visible: Result<bool, String>) -> (r: Result<(), RunError>)
    ensures
        visible == Ok::<bool, String>(true) ==> r is Ok,
        visible == Ok::<bool, String>(false) ==> r == Err::<(), RunError>(RunError::StartScreenHidden),
        visible matches Err(d) ==> r == Err::<(), RunError>(RunError::Evaluation(d)),
{
    match visible {
        Ok(true) => Ok(()),
        Ok(false) => Err(RunError::StartScreenHidden),
        Err(d) => Err(RunError::Evaluation(d)),
    }
}

/// The progress of one test case through its steps: the steps run in order, and
/// the first failure ends the case and is kept.
pub struct CaseRun {
    pub steps: Vec<Step>,
    pub done: usize,
    pub failure: Option<RunError>,
}

impl CaseRun {
    /// Steps done so far all succeeded, except that the last one tried may have
    /// failed.
    pub open spec fn wf(&self) -> bool {
        &&& self.done <= self.steps@.len()
        &&& self.failure is Some ==> self.done < self.steps@.len()
    }

    /// No step is left to run: all succeeded, or one failed.
    pub open spec fn over(&self) -> bool {
        self.failure is Some || self.done == self.steps@.len()
    }

    /// A fresh run of the steps that `case` plans.
    pub fn new(case: &TestCase) -> (r: CaseRun)
        ensures
            r.wf(),
            r.steps@ == plan_model(case.metadata.mode, answers(case.questions@)),
            r.done == 0,
            r.failure is None,
    {
        CaseRun { steps: plan_for(case), done: 0, failure: None }
    }

    /// The next step to perform, or `None` once the case is over.
    pub fn next_step(&self) -> (r: Option<Step>)
        requires
            self.wf(),
        ensures
            r is None <==> self.over(),
            r matches Some(s) ==> s == self.steps@[self.done as int],
    {
        if self.failure.is_some() || self.done == self.steps.len() {
            None
        } else {
            Some(self.steps[self.done])
        }
    }

    /// Records how the step that `next_step` named went.
    pub fn record(&mut self, outcome: Result<(), RunError>)
        requires
            old(self).wf(),
            !old(self).over(),
        ensures
            final(self).wf(),
            final(self).steps == old(self).steps,
            outcome is Ok ==> final(self).done == old(self).done + 1 && final(self).failure is None,
            outcome matches Err(e) ==> final(self).done == old(self).done && final(self).failure
                == Some(e),
    {
        match outcome {
            Ok(()) => {
                proof {
                    vstd::std_specs::vec::axiom_spec_len(&self.steps);
                }
                self.done = self.done + 1;
            },
            Err(e) => {
                self.failure = Some(e);
            },
        }
    }
}

/// The CSS selector of a target; `key` is the test case's key.
pub open spec fn selector_of(t: Target, key: Seq<char>) -> Seq<char> {
    match t {
        Target::StartScreen => "#start-screen"@,
        Target::AnyTile => ".question-set-tile"@,
        Target::Tile => "[data-key='"@ + key + "']"@,
        Target::GameScreen => "#game-screen"@,
        Target::Choices => ".choice-button"@,
        Target::Choice(i) => ".choice-button:nth-child("@ + decimal((i + 1) as nat) + ")"@,
        Target::ResultScreen => "#result-screen"@,
        Target::NextButton => "#next-button"@,
        Target::FinishScreen => "#finish-screen"@,
    }
}

/// The CSS selector of `t` for the test case with key `key`.
pub fn selector(t: Target, key: &str) -> (r: String)
    ensures
        r@ == selector_of(t, key@),
{
    match t {
        Target::StartScreen => String::from_str("#start-screen"),
        Target::AnyTile => String::from_str(".question-set-tile"),
        Target::Tile => {
            let mut r = String::from_str("[data-key='");
            r.append(key);
            r.append("']");
            r
        },
        Target::GameScreen => String::from_str("#game-screen"),
        Target::Choices => String::from_str(".choice-button"),
        Target::Choice(i) => {
            let mut r = String::from_str(".choice-button:nth-child(");
            push_decimal(&mut r, i as u128 + 1);
            r.append(")");
            r
        },
        Target::ResultScreen => String::from_str("#result-screen"),
        Target::NextButton => String::from_str("#next-button"),
        Target::FinishScreen => String::from_str("#finish-screen"),
    }
}

/// The file name (without extension) of a screenshot of the case with key `key`.
pub open spec fn shot_name_of(s: Shot, key: Seq<char>) -> Seq<char> {
    match s {
        Shot::TilesPresent => "tiles_present_before_click_"@ + key,
        Shot::BeforeClick => "before_click_"@ + key,
        Shot::Finish => "finish_"@ + key,
    }
}

pub fn shot_name(s: Shot, key: &str) -> (r: String)
    ensures
        r@ == shot_name_of(s, key@),
{
    let mut r = match s {
        Shot::TilesPresent => String::from_str("tiles_present_before_click_"),
        Shot::BeforeClick => String::from_str("before_click_"),
        Shot::Finish => String::from_str("finish_"),
    };
    r.append(key);
    r
}

/// The name of the screenshot taken when a wait for `selector` times out.
pub fn timeout_shot_name(selector: &str) -> (r: String)
    ensures
        r@ == "fail_timeout_wait_for_"@ + sanitized(selector@),
{
    let mut r = String::from_str("fail_timeout_wait_for_");
    let safe = sanitize_for_filename(selector);
    r.append(safe.as_str());
    r
}

/// The name of the screenshot taken when the start screen is hidden.
pub const START_HIDDEN_SHOT: &'static str = "fail_start_not_visible";

/// Script that is true when the start screen is not hidden.
pub const START_VISIBLE_SCRIPT: &'static str = "document.getElementById('start-screen').style.display !== 'none'";

/// Script that lists the keys of the tiles present.
pub const TILE_KEYS_SCRIPT: &'static str = "Array.from(document.querySelectorAll('.question-set-tile')).map(el => el.dataset.key)";

/// Script that is true when an element matches the selector written as the
/// JavaScript string literal `quoted`.
pub fn presence_script(quoted: &str) -> (r: String)
    ensures
        r@ == "document.querySelector("@ + quoted@ + ") !== null"@,
{
    let mut r = String::from_str("document.querySelector(");
    r.append(quoted);
    r.append(") !== null");
    r
}

/// Script that clicks the element matching the selector written as the
/// JavaScript string literal `quoted`.
pub fn click_script(quoted: &str) -> (r: String)
    ensures
        r@ == "document.querySelector("@ + quoted@ + ").click()"@,
{
    let mut r = String::from_str("document.querySelector(");
    r.append(quoted);
    r.append(").click()");
    r
}

} // verus!
