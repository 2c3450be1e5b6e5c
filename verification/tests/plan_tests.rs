use rush::plan::{
    has_prefix, plan_cd, plan_pipeline, plan_stage, plan_turn, str_eq, CdPlan, StageCmd,
    StagePlan, Turn,
};
use rush::prompt::{build_prompt, interrupt_response, prompt_line};

fn strings(v: &[&str]) -> Vec<String> {
    v.iter().map(|s| s.to_string()).collect()
}

#[test]
fn turn_end_of_input_on_zero_read() {
    assert_eq!(plan_turn(0, ""), Turn::EndOfInput);
    assert_eq!(plan_turn(0, "ignored"), Turn::EndOfInput);
}

#[test]
fn turn_blank_line_reprompts_without_dispatch() {
    assert_eq!(plan_turn(1, "\n"), Turn::Empty);
    assert_eq!(plan_turn(4, "   \n"), Turn::Empty);
    assert_eq!(plan_turn(3, " \t "), Turn::Empty);
}

#[test]
fn turn_exit_short_circuits() {
    assert_eq!(plan_turn(5, "exit\n"), Turn::Exit);
    assert_eq!(plan_turn(8, "  exit  \n"), Turn::Exit);
    // The keyword check is a prefix check on the sole subcommand.
    assert_eq!(plan_turn(9, "exitnow\n"), Turn::Exit);
}

#[test]
fn turn_cd_is_dispatched_as_builtin() {
    assert_eq!(plan_turn(8, "cd /tmp\n"), Turn::ChangeDir("cd /tmp".to_string()));
    assert_eq!(plan_turn(3, "cd\n"), Turn::ChangeDir("cd".to_string()));
}

#[test]
fn turn_builtin_in_pipeline_is_not_short_circuited() {
    // With more than one subcommand the built-in check does not apply.
    assert_eq!(
        plan_turn(9, "exit | a\n"),
        Turn::Pipeline(strings(&["exit ", " a"]))
    );
}

#[test]
fn turn_ordinary_line_becomes_pipeline() {
    assert_eq!(plan_turn(3, "ls\n"), Turn::Pipeline(strings(&["ls"])));
    assert_eq!(
        plan_turn(12, "\"a|b\" | cat\n"),
        Turn::Pipeline(strings(&["\"a|b\" ", " cat"]))
    );
}

#[test]
fn cd_with_too_many_arguments_is_an_error() {
    assert_eq!(plan_cd("cd a b", Some("/home/u")), CdPlan::TooManyArgs);
}

#[test]
fn cd_with_one_argument_targets_it() {
    assert_eq!(
        plan_cd("cd /nonexistent", Some("/home/u")),
        CdPlan::ChangeTo("/nonexistent".to_string())
    );
}

#[test]
fn cd_without_argument_targets_home() {
    assert_eq!(
        plan_cd("cd", Some("/home/u")),
        CdPlan::ChangeTo("/home/u".to_string())
    );
    assert_eq!(plan_cd("cd", None), CdPlan::ChangeTo("/".to_string()));
}

#[test]
fn cd_strips_quotes_from_target() {
    assert_eq!(
        plan_cd("cd \"a b\"", Some("/home/u")),
        CdPlan::ChangeTo("a b".to_string())
    );
}

#[test]
fn pipeline_plan_keeps_order_and_wiring() {
    let subs = strings(&["printf %s hi ", " cat"]);
    let plans = plan_pipeline(&subs);
    assert_eq!(
        plans,
        vec![
            StagePlan::Run(StageCmd {
                program: "printf".to_string(),
                args: strings(&["%s", "hi"]),
                pipe_output: true,
            }),
            StagePlan::Run(StageCmd {
                program: "cat".to_string(),
                args: strings(&[]),
                pipe_output: false,
            }),
        ]
    );
}

#[test]
fn stage_without_tokens_is_skipped() {
    assert_eq!(plan_stage(&strings(&[]), false), StagePlan::Skip);
    let plans = plan_pipeline(&strings(&["a ", " ", " b"]));
    assert_eq!(plans.len(), 3);
    assert_eq!(plans[1], StagePlan::Skip);
}

#[test]
fn builtin_named_mid_pipeline_is_skipped() {
    assert_eq!(plan_stage(&strings(&["cd", "/tmp"]), false), StagePlan::Skip);
    assert_eq!(plan_stage(&strings(&["exit"]), true), StagePlan::Skip);
}

#[test]
fn last_stage_inherits_output() {
    let p = plan_stage(&strings(&["cat"]), true);
    assert_eq!(
        p,
        StagePlan::Run(StageCmd {
            program: "cat".to_string(),
            args: strings(&[]),
            pipe_output: false,
        })
    );
}

#[test]
fn prefix_and_equality_checks() {
    assert!(has_prefix("exit now", "exit"));
    assert!(!has_prefix("exi", "exit"));
    assert!(has_prefix("cd", "cd"));
    assert!(str_eq("cd", "cd"));
    assert!(!str_eq("cd", "cde"));
    assert!(!str_eq("cde", "cd"));
}

#[test]
fn prompt_holds_all_three_pieces() {
    let p = build_prompt(Some("user"), Some("host\n"), Some("/tmp"));
    assert_eq!(p, "\x1b[1;32muser@host:\x1b[1;34m/tmp \x1b[0m".to_string());
}

#[test]
fn prompt_degrades_to_empty_on_any_failure() {
    assert_eq!(build_prompt(None, Some("h"), Some("/")), String::new());
    assert_eq!(build_prompt(Some("u"), None, Some("/")), String::new());
    assert_eq!(build_prompt(Some("u"), Some("h"), None), String::new());
}

#[test]
fn prompt_line_appends_sigil() {
    assert_eq!(prompt_line("abc "), "abc $ ".to_string());
    assert_eq!(prompt_line(""), "$ ".to_string());
}

#[test]
fn interrupt_outside_read_window_is_swallowed() {
    assert_eq!(interrupt_response(false, "prompt "), None);
}

#[test]
fn interrupt_during_read_redraws_prompt() {
    assert_eq!(
        interrupt_response(true, "prompt "),
        Some("\nprompt $ ".to_string())
    );
}
