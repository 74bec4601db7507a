use game_test_runner::loader::{build_test_cases, is_question_file, key_for, select_files, LoadedFile};
use game_test_runner::model::{Metadata, Mode, Question, QuestionSet, RunError, TestCase, TestResult};
use game_test_runner::plan::{
    click_script, plan_for, presence_script, round_steps, selector, shot_name, start_screen_outcome,
    timeout_shot_name, wrong_choice_for, CaseRun, Shot, Step, Target, WRONG_ANSWER_PAUSE_MS,
};
use game_test_runner::poll::{wait_step, WaitStep};
use game_test_runner::run::{all_passed, exit_code, passed_count, tally_line, Run};
use game_test_runner::selection::select_cases;
use game_test_runner::session::{resolve_executable, timeout_ms_from_secs};
use game_test_runner::text::{
    contains_str, decimal_string, ends_with, js_string_literal, sanitize_for_filename, starts_with,
    text_lt,
};

fn question(correct: usize) -> Question {
    Question {
        id: format!("q{}", correct),
        question: "Which one?".to_string(),
        choices: vec!["a".to_string(), "b".to_string(), "c".to_string()],
        correct_answer: correct,
        explanation: "because".to_string(),
    }
}

fn set(title: &str, mode: Mode, correct: &[usize]) -> QuestionSet {
    QuestionSet {
        metadata: Metadata {
            title: title.to_string(),
            description: "d".to_string(),
            mode,
            target_age: "8".to_string(),
            subject: "s".to_string(),
        },
        questions: correct.iter().map(|c| question(*c)).collect(),
    }
}

fn case(name: &str, mode: Mode, correct: &[usize]) -> TestCase {
    let files = vec![LoadedFile { filename: name.to_string(), set: Some(set(name, mode, correct)) }];
    build_test_cases(files).unwrap().pop().unwrap()
}

fn strings(v: &[&str]) -> Vec<String> {
    v.iter().map(|s| s.to_string()).collect()
}

fn choice_clicks(steps: &[Step]) -> Vec<usize> {
    steps
        .iter()
        .filter_map(|s| match s {
            Step::Click(Target::Choice(i)) => Some(*i),
            _ => None,
        })
        .collect()
}

fn result(passed: bool) -> TestResult {
    TestResult { name: "t".to_string(), mode: Mode::Easy, passed, error: None }
}

#[test]
fn substring_search() {
    assert!(contains_str("questions_easy", "easy"));
    assert!(contains_str("questions_easy", ""));
    assert!(!contains_str("questions_easy", "hard"));
    assert!(!contains_str("ab", "abc"));
    assert!(starts_with("questions_x.json", "questions"));
    assert!(!starts_with("question.json", "questions"));
    assert!(ends_with("questions_x.json", ".json"));
    assert!(!ends_with("questions_x.jsonl", ".json"));
}

#[test]
fn text_order_is_lexicographic() {
    assert!(text_lt("questions_easy.json", "questions_hard.json"));
    assert!(!text_lt("questions_hard.json", "questions_easy.json"));
    assert!(text_lt("questions", "questions_a"));
    assert!(!text_lt("same", "same"));
    assert!(text_lt("B", "a"));
}

#[test]
fn decimal_notation() {
    assert_eq!(decimal_string(0), "0");
    assert_eq!(decimal_string(7), "7");
    assert_eq!(decimal_string(120), "120");
    assert_eq!(decimal_string(18446744073709551616), "18446744073709551616");
}

#[test]
fn sanitize_replaces_non_alphanumerics() {
    assert_eq!(sanitize_for_filename("#result-screen"), "_result_screen");
    assert_eq!(sanitize_for_filename("[data-key='q1']"), "_data_key__q1__");
    assert_eq!(sanitize_for_filename("abcXYZ019"), "abcXYZ019");
    assert_eq!(sanitize_for_filename("é"), "_");
}

#[test]
fn js_literal_quotes_and_escapes() {
    assert_eq!(js_string_literal("#game-screen"), "\"#game-screen\"");
    assert_eq!(js_string_literal("[data-key='k']"), "\"[data-key='k']\"");
    assert_eq!(js_string_literal("a\"b\\c"), "\"a\\\"b\\\\c\"");
    assert_eq!(js_string_literal(""), "\"\"");
    assert_eq!(js_string_literal("a\nb\tc\r\u{8}\u{c}"), "\"a\\nb\\tc\\r\\b\\f\"");
    assert_eq!(js_string_literal("\u{1}\u{1f}"), "\"\\u0001\\u001f\"");
    assert_eq!(js_string_literal("é/\u{7f}"), "\"é/\u{7f}\"");
}

#[test]
fn question_file_pattern() {
    assert!(is_question_file("questions.json"));
    assert!(is_question_file("questions_easy.json"));
    assert!(!is_question_file("schema.json"));
    assert!(!is_question_file("questions_easy.txt"));
    assert!(!is_question_file("my_questions.json"));
}

#[test]
fn key_drops_the_extension() {
    assert_eq!(key_for("questions_easy.json"), "questions_easy");
    assert_eq!(key_for("questions.json"), "questions");
    assert_eq!(key_for("questions.json.json"), "questions.json");
    assert_eq!(key_for("notes"), "notes");
}

#[test]
fn selection_is_sorted_and_filtered() {
    let names = strings(&["questions_b.json", "schema.json", "questions_a.json", "readme.md", "questions_a.json"]);
    assert_eq!(select_files(&names, &None), strings(&["questions_a.json", "questions_b.json"]));
    assert_eq!(select_files(&names, &Some("b".to_string())), strings(&["questions_b.json"]));
    assert_eq!(select_files(&names, &Some("json".to_string())), Vec::<String>::new());
    assert_eq!(select_files(&Vec::new(), &None), Vec::<String>::new());
}

#[test]
fn filtered_selection_is_subset() {
    let names = strings(&["questions_easy_math.json", "questions_hard_math.json", "questions_easy_art.json"]);
    let all = select_files(&names, &None);
    let some = select_files(&names, &Some("easy".to_string()));
    assert_eq!(some, strings(&["questions_easy_art.json", "questions_easy_math.json"]));
    for s in &some {
        assert!(all.contains(s));
        assert!(key_for(s).contains("easy"));
    }
}

#[test]
fn one_case_per_file() {
    let files = vec![
        LoadedFile { filename: "questions_a.json".to_string(), set: Some(set("A", Mode::Easy, &[0])) },
        LoadedFile { filename: "questions_b.json".to_string(), set: Some(set("B", Mode::Hard, &[1, 2])) },
    ];
    let cases = build_test_cases(files).unwrap();
    assert_eq!(cases.len(), 2);
    assert_eq!(cases[0].key, "questions_a");
    assert_eq!(cases[1].key, "questions_b");
    assert_eq!(cases[1].filename, "questions_b.json");
    assert_eq!(cases[1].metadata.title, "B");
    assert_eq!(cases[1].questions.len(), 2);
}

#[test]
fn empty_and_parse_errors() {
    assert!(matches!(build_test_cases(Vec::new()), Err(RunError::Empty)));
    let files = vec![
        LoadedFile { filename: "questions_a.json".to_string(), set: Some(set("A", Mode::Easy, &[0])) },
        LoadedFile { filename: "questions_b.json".to_string(), set: None },
        LoadedFile { filename: "questions_c.json".to_string(), set: None },
    ];
    match build_test_cases(files) {
        Err(RunError::Parse(f)) => assert_eq!(f, "questions_b.json"),
        other => panic!("unexpected {:?}", other),
    }
}

#[test]
fn first_per_mode_keeps_earliest() {
    let cases = vec![
        case("questions_1.json", Mode::Hard, &[0]),
        case("questions_2.json", Mode::Hard, &[0]),
        case("questions_3.json", Mode::Easy, &[0]),
        case("questions_4.json", Mode::Easy, &[0]),
    ];
    assert_eq!(select_cases(&cases, true), vec![0, 2]);
    assert_eq!(select_cases(&cases, false), vec![0, 1, 2, 3]);
    assert_eq!(select_cases(&Vec::new(), true), Vec::<usize>::new());
}

#[test]
fn wait_decisions() {
    assert_eq!(wait_step(true, 0, 1000), WaitStep::Found);
    assert_eq!(wait_step(true, 5000, 1000), WaitStep::Found);
    assert_eq!(wait_step(false, 1000, 1000), WaitStep::Retry);
    assert_eq!(wait_step(false, 1001, 1000), WaitStep::TimedOut);
}

#[test]
fn simulated_wait_is_bounded() {
    // One poll per interval with no predicate ever true.
    let timeout = 1000u64;
    let mut k = 0u64;
    loop {
        match wait_step(false, k * 100, timeout) {
            WaitStep::Retry => k += 1,
            WaitStep::TimedOut => break,
            WaitStep::Found => panic!("never present"),
        }
    }
    assert_eq!(k, 11);
    assert!(k * 100 <= timeout + 100);
}

#[test]
fn easy_first_round_clicks_wrong_then_correct() {
    let steps = round_steps(Mode::Easy, true, 2);
    assert_eq!(
        steps,
        vec![
            Step::WaitFor(Target::Choices),
            Step::Click(Target::Choice(0)),
            Step::Pause(WRONG_ANSWER_PAUSE_MS),
            Step::Click(Target::Choice(2)),
            Step::WaitFor(Target::ResultScreen),
            Step::Click(Target::NextButton),
        ]
    );
    assert_eq!(choice_clicks(&round_steps(Mode::Easy, true, 0)), vec![1, 0]);
    assert_eq!(choice_clicks(&round_steps(Mode::Easy, false, 1)), vec![1]);
    assert_eq!(wrong_choice_for(0), 1);
    assert_eq!(wrong_choice_for(3), 0);
}

#[test]
fn hard_rounds_click_first_choice() {
    for c in 0..3 {
        assert_eq!(choice_clicks(&round_steps(Mode::Hard, true, c)), vec![0]);
        assert_eq!(choice_clicks(&round_steps(Mode::Hard, false, c)), vec![0]);
    }
    let tc = case("questions_h.json", Mode::Hard, &[2, 1, 2]);
    assert_eq!(choice_clicks(&plan_for(&tc)), vec![0, 0, 0]);
}

#[test]
fn easy_plan_runs_through_all_states() {
    let tc = case("questions_e.json", Mode::Easy, &[0, 2, 1]);
    let plan = plan_for(&tc);
    assert_eq!(choice_clicks(&plan), vec![1, 0, 2, 1]);
    assert_eq!(plan[0], Step::Navigate);
    assert_eq!(plan[1], Step::WaitFor(Target::StartScreen));
    assert_eq!(plan[2], Step::CheckStartVisible);
    assert_eq!(plan[8], Step::Click(Target::Tile));
    assert_eq!(plan[9], Step::WaitFor(Target::GameScreen));
    assert_eq!(plan.len(), 10 + 6 + 4 + 4 + 2);
    assert_eq!(plan[plan.len() - 2], Step::WaitFor(Target::FinishScreen));
    assert_eq!(plan[plan.len() - 1], Step::Screenshot(Shot::Finish));
    let empty = case("questions_none.json", Mode::Easy, &[]);
    assert_eq!(plan_for(&empty).len(), 12);
}

#[test]
fn selectors_and_names() {
    assert_eq!(selector(Target::Tile, "questions_easy"), "[data-key='questions_easy']");
    assert_eq!(selector(Target::Choice(0), "k"), ".choice-button:nth-child(1)");
    assert_eq!(selector(Target::Choice(9), "k"), ".choice-button:nth-child(10)");
    assert_eq!(selector(Target::NextButton, "k"), "#next-button");
    assert_eq!(selector(Target::FinishScreen, "k"), "#finish-screen");
    assert_eq!(shot_name(Shot::Finish, "questions_easy"), "finish_questions_easy");
    assert_eq!(shot_name(Shot::BeforeClick, "q"), "before_click_q");
    assert_eq!(shot_name(Shot::TilesPresent, "q"), "tiles_present_before_click_q");
    assert_eq!(timeout_shot_name("#game-screen"), "fail_timeout_wait_for__game_screen");
    assert_eq!(presence_script("\"#x\""), "document.querySelector(\"#x\") !== null");
    assert_eq!(click_script("\"#x\""), "document.querySelector(\"#x\").click()");
}

#[test]
fn modes_and_messages() {
    assert_eq!(Mode::from_name("easy"), Some(Mode::Easy));
    assert_eq!(Mode::from_name("hard"), Some(Mode::Hard));
    assert_eq!(Mode::from_name("Easy"), None);
    assert_eq!(Mode::Hard.as_str(), "hard");
    let e = RunError::Timeout { selector: "#game-screen".to_string(), elapsed_ms: 10050 };
    assert_eq!(e.message(), "Timeout waiting for element: #game-screen after 10050 ms");
    assert_eq!(RunError::StartScreenHidden.message(), "Start screen not visible");
    assert_eq!(RunError::Click("#next-button".to_string()).message(), "Failed to click element: #next-button");
    assert_eq!(RunError::Parse("questions_x.json".to_string()).message(), "Failed to parse questions_x.json");
    assert_eq!(RunError::Empty.message(), "No question sets found to test!");
    assert_eq!(RunError::Discovery("data".to_string()).message(), "data directory not found: data");
    assert_eq!(RunError::Launch("x".to_string()).message(), "Failed to launch browser: x");
    assert_eq!(RunError::Navigation("x".to_string()).message(), "Failed to navigate to game: x");
}

#[test]
fn result_for_case() {
    let tc = case("questions_e.json", Mode::Easy, &[0]);
    let ok = TestResult::for_case(&tc, &None);
    assert!(ok.passed);
    assert_eq!(ok.name, "questions_e.json");
    assert_eq!(ok.mode, Mode::Easy);
    assert_eq!(ok.error, None);
    let bad = TestResult::for_case(&tc, &Some(RunError::StartScreenHidden));
    assert!(!bad.passed);
    assert_eq!(bad.error, Some("Start screen not visible".to_string()));
}

#[test]
fn fail_fast_stops_after_first_failure() {
    let outcomes = [true, true, false, true, true];
    let mut run = Run::new(vec![0, 1, 2, 3, 4]);
    let mut ran = Vec::new();
    while let Some(c) = run.next_case() {
        ran.push(c);
        run.record(result(outcomes[c]));
    }
    assert_eq!(ran, vec![0, 1, 2]);
    assert_eq!(run.results.len(), 3);
    assert_eq!(passed_count(&run.results), 2);
    assert_eq!(exit_code(&run.results), 1);
    assert_eq!(tally_line(&run.results), "Results: 2/3 question sets passed");
}

#[test]
fn all_pass_runs_everything() {
    let mut run = Run::new(vec![2, 0]);
    let mut ran = Vec::new();
    while let Some(c) = run.next_case() {
        ran.push(c);
        run.record(result(true));
    }
    assert_eq!(ran, vec![2, 0]);
    assert!(all_passed(&run.results));
    assert_eq!(exit_code(&run.results), 0);
    assert_eq!(tally_line(&Vec::new()), "Results: 0/0 question sets passed");
}

#[test]
fn executable_resolution() {
    let o = Some("/opt/chrome".to_string());
    let d = Some("/Applications/Chrome".to_string());
    assert_eq!(resolve_executable(o.clone(), d.clone(), true), o);
    assert_eq!(resolve_executable(None, d.clone(), true), d);
    assert_eq!(resolve_executable(None, d, false), None);
    assert_eq!(resolve_executable(None, None, true), None);
    assert_eq!(timeout_ms_from_secs(10), 10_000);
    assert_eq!(timeout_ms_from_secs(u64::MAX), u64::MAX);
}

#[test]
fn two_files_first_per_mode_and_unreachable_page() {
    let names = strings(&["questions_hard.json", "schema.json", "questions_easy.json"]);
    let chosen = select_files(&names, &None);
    assert_eq!(chosen, strings(&["questions_easy.json", "questions_hard.json"]));
    let files = vec![
        LoadedFile { filename: chosen[0].clone(), set: Some(set("Easy set", Mode::Easy, &[0, 1, 2])) },
        LoadedFile { filename: chosen[1].clone(), set: Some(set("Hard set", Mode::Hard, &[1, 1])) },
    ];
    let cases = build_test_cases(files).unwrap();
    assert_eq!(cases.len(), 2);
    assert_eq!(cases[0].key, "questions_easy");
    assert_eq!(cases[1].key, "questions_hard");
    let queue = select_cases(&cases, true);
    assert_eq!(queue, vec![0, 1]);
    // The page under test cannot be reached: the first step of the first case fails.
    let mut run = Run::new(queue);
    let mut attempted = 0;
    while let Some(c) = run.next_case() {
        attempted += 1;
        let plan = plan_for(&cases[c]);
        assert_eq!(plan[0], Step::Navigate);
        let err = RunError::Navigation("file not found".to_string());
        run.record(TestResult::for_case(&cases[c], &Some(err)));
    }
    assert_eq!(attempted, 1);
    assert_eq!(run.results.len(), 1);
    assert!(!run.results[0].passed);
    assert_eq!(run.results[0].name, "Easy set");
    assert_eq!(run.results[0].error, Some("Failed to navigate to game: file not found".to_string()));
    assert_eq!(exit_code(&run.results), 1);
}

#[test]
fn start_screen_check() {
    assert!(start_screen_outcome(Ok(true)).is_ok());
    assert!(matches!(start_screen_outcome(Ok(false)), Err(RunError::StartScreenHidden)));
    match start_screen_outcome(Err("boom".to_string())) {
        Err(e @ RunError::Evaluation(_)) => assert_eq!(e.message(), "Failed to evaluate script: boom"),
        other => panic!("unexpected {:?}", other),
    }
}

#[test]
fn case_run_stops_at_first_failing_step() {
    let tc = case("questions_h.json", Mode::Hard, &[1]);
    let mut progress = CaseRun::new(&tc);
    assert_eq!(progress.steps, plan_for(&tc));
    let mut performed = Vec::new();
    while let Some(step) = progress.next_step() {
        performed.push(step);
        if step == Step::Click(Target::Tile) {
            progress.record(Err(RunError::Click("[data-key='questions_h']".to_string())));
        } else {
            progress.record(Ok(()));
        }
    }
    assert_eq!(performed.len(), 9);
    assert_eq!(progress.done, 8);
    assert_eq!(
        progress.failure.map(|e| e.message()),
        Some("Failed to click element: [data-key='questions_h']".to_string())
    );
}

#[test]
fn case_run_completes_all_steps() {
    let tc = case("questions_e.json", Mode::Easy, &[0, 1]);
    let mut progress = CaseRun::new(&tc);
    let mut count = 0;
    while let Some(_) = progress.next_step() {
        count += 1;
        progress.record(Ok(()));
    }
    assert_eq!(count, 10 + 6 + 4 + 2);
    assert!(progress.failure.is_none());
}
