//! The data a run works on: question sets, test cases, results and errors.
use vstd::prelude::*;
use crate::text::{decimal, push_decimal, same_text};

verus! {

/// How a question set is played.
#[derive(PartialEq, Eq, Structural, Clone, Copy, Debug)]
pub enum Mode {
    Easy,
    Hard,
}

/// The name a question-set file uses for a mode.
pub open spec fn mode_name(m: Mode) -> Seq<char> {
    match m {
        Mode::Easy => "easy"@,
        Mode::Hard => "hard"@,
    }
}

impl Mode {
    /// The mode a question-set file names, if it names one.
    pub fn from_name(name: &str) -> (r: Option<Mode>)
        ensures
            r matches Some(m) ==> mode_name(m) == name@,
            r is None ==> name@ != mode_name(Mode::Easy) && name@ != mode_name(Mode::Hard),
    {
        if same_text(name, "easy") {
            Some(Mode::Easy)
        } else if same_text(name, "hard") {
            Some(Mode::Hard)
        } else {
            None
        }
    }

    pub fn as_str(&self) -> (r: &'static str)
        ensures
            r@ == mode_name(*self),
    {
        match self {
            Mode::Easy => "easy",
            Mode::Hard => "hard",
        }
    }
}

/// The descriptive header of a question set.
#[derive(Debug)]
pub struct Metadata {
    pub title: String,
    pub description: String,
    pub mode: Mode,
    pub target_age: String,
    pub subject: String,
}

/// One question; `correct_answer` is a zero-based index into `choices`.
#[derive(Debug)]
pub struct Question {
    pub id: String,
    pub question: String,
    pub choices: Vec<String>,
    pub correct_answer: usize,
    pub explanation: String,
}

impl Question {
    /// The correct answer is one of the choices.
    pub open spec fn valid(&self) -> bool {
        self.correct_answer < self.choices@.len()
    }
}

/// The content of one question-set file.
#[derive(Debug)]
pub struct QuestionSet {
    pub metadata: Metadata,
    pub questions: Vec<Question>,
}

/// One question-set file to exercise; `key` names its tile on the page.
#[derive(Debug)]
pub struct TestCase {
    pub filename: String,
    pub key: String,
    pub metadata: Metadata,
    pub questions: Vec<Question>,
}

/// The correct answers of the questions, in order.
pub open spec fn answers(qs: Seq<Question>) -> Seq<usize> {
    qs.map_values(|q: Question| q.correct_answer)
}

/// Why a run or a test case failed.
#[derive(Debug, Clone)]
pub enum RunError {
    /// The data directory is missing or cannot be listed.
    Discovery(String),
    /// The named question-set file does not have the expected shape.
    Parse(String),
    /// No test case is left after discovery and filtering.
    Empty,
    /// The browser could not be started.
    Launch(String),
    /// The page under test could not be opened.
    Navigation(String),
    /// An element matching the selector did not appear in time.
    Timeout { selector: String, elapsed_ms: u64 },
    /// The start screen is present but hidden.
    StartScreenHidden,
    /// A script could not be evaluated in the page.
    Evaluation(String),
    /// Clicking the element matching the selector failed.
    Click(String),
}

/// The text that describes an error.
pub open spec fn message_of(e: RunError) -> Seq<char> {
    match e {
        RunError::Discovery(d) => "data directory not found: "@ + d@,
        RunError::Parse(f) => "Failed to parse "@ + f@,
        RunError::Empty => "No question sets found to test!"@,
        RunError::Launch(d) => "Failed to launch browser: "@ + d@,
        RunError::Navigation(d) => "Failed to navigate to game: "@ + d@,
        RunError::Timeout { selector, elapsed_ms } => "Timeout waiting for element: "@
            + selector@ + " after "@ + decimal(elapsed_ms as nat) + " ms"@,
        RunError::StartScreenHidden => "Start screen not visible"@,
        RunError::Evaluation(d) => "Failed to evaluate script: "@ + d@,
        RunError::Click(s) => "Failed to click element: "@ + s@,
    }
}

fn joined(head: &str, tail: &str) -> (r: String)
    ensures
        r@ == head@ + tail@,
{
    let mut r = String::from_str(head);
    r.append(tail);
    r
}

impl RunError {
    pub fn message(&self) -> (r: String)
        ensures
            r@ == message_of(*self),
    {
        match self {
            RunError::Discovery(d) => joined("data directory not found: ", d.as_str()),
            RunError::Parse(f) => joined("Failed to parse ", f.as_str()),
            RunError::Empty => String::from_str("No question sets found to test!"),
            RunError::Launch(d) => joined("Failed to launch browser: ", d.as_str()),
            RunError::Navigation(d) => joined("Failed to navigate to game: ", d.as_str()),
            RunError::Timeout { selector, elapsed_ms } => {
                let mut r = joined("Timeout waiting for element: ", selector.as_str());
                r.append(" after ");
                push_decimal(&mut r, *elapsed_ms as u128);
                r.append(" ms");
                r
            },
            RunError::StartScreenHidden => String::from_str("Start screen not visible"),
            RunError::Evaluation(d) => joined("Failed to evaluate script: ", d.as_str()),
            RunError::Click(s) => joined("Failed to click element: ", s.as_str()),
        }
    }
}

/// The outcome of one executed test case.
#[derive(Debug, Clone)]
pub struct TestResult {
    pub name: String,
    pub mode: Mode,
    pub passed: bool,
    pub error: Option<String>,
}

impl TestResult {
    /// The result of running `case`: passed when no error stopped it, else failed
    /// with the error's text.
    pub fn for_case(case: &TestCase, outcome: &Option<RunError>) -> (r: TestResult)
        ensures
            r.name@ == case.metadata.title@,
            r.mode == case.metadata.mode,
            r.passed == outcome.is_none(),
            outcome.is_none() ==> r.error.is_none(),
            outcome matches Some(e) ==> r.error matches Some(t) && t@ == message_of(*e),
    {
        let error = match outcome {
            Some(e) => Some(e.message()),
            None => None,
        };
        TestResult {
            name: case.metadata.title.clone(),
            mode: case.metadata.mode,
            passed: outcome.is_none(),
            error,
        }
    }
}

} // verus!
