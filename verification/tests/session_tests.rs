use truss_fem::session::{Session, Step};
use truss_fem::shell::ReportFormat;

fn loaded(path: &str) -> Session {
    let mut s = Session::new();
    s.record(&Step::Load(path.to_string()), true);
    s
}

fn solved(path: &str) -> Session {
    let mut s = loaded(path);
    s.record(&Step::Solve, true);
    s
}

const NO_MODEL: &str = "no model loaded \u{2014} use 'load <file>' first (see 'samples')";

#[test]
fn blank_lines_do_nothing() {
    assert!(Session::new().plan("").is_empty());
    assert!(Session::new().plan("   \t\n").is_empty());
}

#[test]
fn simple_commands() {
    let s = Session::new();
    assert_eq!(s.plan("help\n"), vec![Step::PrintHelp]);
    assert_eq!(s.plan("?"), vec![Step::PrintHelp]);
    assert_eq!(s.plan("  QUIT  "), vec![Step::Quit]);
    assert_eq!(s.plan("q"), vec![Step::Quit]);
    assert_eq!(s.plan("ls"), vec![Step::ListSamples]);
    assert_eq!(s.plan("cls"), vec![Step::ClearScreen]);
    assert_eq!(s.plan("example"), vec![Step::WriteExample("truss_example.txt".to_string())]);
    assert_eq!(s.plan("example my.txt"), vec![Step::WriteExample("my.txt".to_string())]);
}

#[test]
fn load_needs_a_path() {
    let s = Session::new();
    assert_eq!(s.plan("load"), vec![Step::Fail("usage: load <file>".to_string())]);
    assert_eq!(
        s.plan("load \"my bridge.txt\""),
        vec![Step::Load("my bridge.txt".to_string())]
    );
}

#[test]
fn commands_that_need_a_model_fail_without_one() {
    let s = Session::new();
    let fail = vec![Step::Fail(NO_MODEL.to_string())];
    assert_eq!(s.plan("info"), fail);
    assert_eq!(s.plan("solve"), fail);
    assert_eq!(s.plan("report"), fail);
    assert_eq!(s.plan("save out.txt"), fail);
    assert_eq!(s.plan("save-model m.txt"), fail);
    assert_eq!(s.plan("view"), fail);
    assert_eq!(s.plan("serve"), fail);
}

#[test]
fn a_path_argument_loads_first() {
    let s = Session::new();
    assert_eq!(s.plan("info b.txt"), vec![Step::Load("b.txt".to_string()), Step::PrintInfo]);
    assert_eq!(
        s.plan("run b.txt"),
        vec![
            Step::Load("b.txt".to_string()),
            Step::Solve,
            Step::PrintReport(ReportFormat::Text)
        ]
    );
    assert_eq!(
        s.plan("view b.txt"),
        vec![
            Step::Load("b.txt".to_string()),
            Step::Solve,
            Step::WriteViewer("b.html".to_string())
        ]
    );
}

#[test]
fn analysis_happens_once_per_model() {
    let s = loaded("a.txt");
    assert_eq!(s.plan("report json"), vec![Step::Solve, Step::PrintReport(ReportFormat::Json)]);
    let s = solved("a.txt");
    assert_eq!(s.plan("report"), vec![Step::PrintReport(ReportFormat::Text)]);
    assert_eq!(s.plan("report TEXT"), vec![Step::PrintReport(ReportFormat::Text)]);
    // `solve` always runs a fresh analysis.
    assert_eq!(s.plan("solve"), vec![Step::Solve, Step::PrintReport(ReportFormat::Text)]);
}

#[test]
fn report_format_is_checked_after_the_analysis() {
    let s = loaded("a.txt");
    assert_eq!(
        s.plan("report XML"),
        vec![
            Step::Solve,
            Step::Fail("unknown format 'xml' (expected 'text' or 'json')".to_string())
        ]
    );
}

#[test]
fn save_picks_the_format_by_extension() {
    let s = solved("a.txt");
    assert_eq!(
        s.plan("save out.JSON"),
        vec![Step::SaveReport("out.JSON".to_string(), ReportFormat::Json)]
    );
    assert_eq!(
        s.plan("save out.txt"),
        vec![Step::SaveReport("out.txt".to_string(), ReportFormat::Text)]
    );
    assert_eq!(
        s.plan("save"),
        vec![Step::Fail(
            "usage: save <file>   ('.json' extension saves JSON, otherwise text)".to_string()
        )]
    );
    assert_eq!(s.plan("save-model"), vec![Step::Fail("usage: save-model <file>".to_string())]);
    assert_eq!(s.plan("savemodel m.txt"), vec![Step::SaveModel("m.txt".to_string())]);
}

#[test]
fn viewer_output_path() {
    let s = solved("dir/a.txt");
    assert_eq!(s.plan("view"), vec![Step::WriteViewer("dir/a.html".to_string())]);
    assert_eq!(s.plan("view out.HTML"), vec![Step::WriteViewer("out.HTML".to_string())]);
}

#[test]
fn serve_port() {
    let s = solved("a.txt");
    assert_eq!(s.plan("serve"), vec![Step::Serve(8080)]);
    assert_eq!(s.plan("serve 9000"), vec![Step::Serve(9000)]);
    assert_eq!(s.plan("serve 70000"), vec![Step::Fail("invalid port '70000'".to_string())]);
    // The port is checked before the analysis.
    assert_eq!(
        Session::new().plan("serve x"),
        vec![Step::Fail("invalid port 'x'".to_string())]
    );
}

#[test]
fn unknown_command_is_named_in_lower_case() {
    assert_eq!(
        Session::new().plan("FROB it"),
        vec![Step::Fail("unknown command 'frob' \u{2014} type 'help' for a list".to_string())]
    );
}

#[test]
fn outcomes_update_the_session() {
    let mut s = solved("a.txt");
    assert!(s.has_model && s.has_solution);
    assert_eq!(s.path.as_deref(), Some("a.txt"));
    // A failed load changes nothing.
    s.record(&Step::Load("b.txt".to_string()), false);
    assert_eq!(s.path.as_deref(), Some("a.txt"));
    assert!(s.has_solution);
    // A new model drops the old analysis.
    s.record(&Step::Load("b.txt".to_string()), true);
    assert_eq!(s.path.as_deref(), Some("b.txt"));
    assert!(s.has_model && !s.has_solution);
    // A failed analysis leaves none.
    s.record(&Step::Solve, true);
    s.record(&Step::Solve, false);
    assert!(!s.has_solution);
    // Other steps change nothing.
    s.record(&Step::PrintInfo, true);
    s.record(&Step::Fail("x".to_string()), false);
    assert!(s.has_model && !s.has_solution);
}
