use website_compiler::{
    compilation_summary, compile_scss_file, compile_typescript_file, CompileEvent,
};

fn exited(success: bool, stdout: &str, stderr: &str) -> CompileEvent {
    CompileEvent::Exited { success, stdout: stdout.to_string(), stderr: stderr.to_string() }
}

#[test]
fn test_compile_scss_source_not_found() {
    let result = compile_scss_file("non_existent.scss", &CompileEvent::SourceMissing);
    assert!(result.is_err(), "Function should return Err when source is not found");
    assert!(result.clone().unwrap_err().contains("source scss file not found"));
    assert_eq!(result.unwrap_err(), "warning: source scss file not found: non_existent.scss");
}

#[test]
fn test_compile_scss_success() {
    let result = compile_scss_file("style.scss", &exited(true, "", ""));
    assert!(result.is_ok(), "Function should return Ok on success");
}

#[test]
fn test_compile_scss_command_fails() {
    let result = compile_scss_file(
        "style.scss",
        &exited(false, "", "Error: Invalid CSS after \"body...\": expected \"{\", was \"}\"\n"),
    );
    assert!(result.is_err(), "Function should return Err on compilation failure");
    let error_message = result.unwrap_err();
    assert!(error_message.contains("error compiling scss file"));
    assert!(error_message.contains("Invalid CSS"));
    assert_eq!(
        error_message,
        "error compiling scss file: style.scss\nSass Error Output:\nError: Invalid CSS after \"body...\": expected \"{\", was \"}\"\n"
    );
}

#[test]
fn test_compile_typescript_success() {
    let result = compile_typescript_file("app.ts", &exited(true, "note", ""));
    assert!(result.is_ok(), "Function should return Ok on success");
}

#[test]
fn test_compile_typescript_command_fails() {
    let result = compile_typescript_file(
        "app.ts",
        &exited(
            false,
            "",
            "app.ts(1,7): error TS2322: Type 'string' is not assignable to type 'number'.\n",
        ),
    );
    assert!(result.is_err(), "Function should return Err on compilation failure");
    assert_eq!(
        result.unwrap_err(),
        "error compiling typescript file: app.ts\nTSC Error Output:\napp.ts(1,7): error TS2322: Type 'string' is not assignable to type 'number'.\n"
    );
}

#[test]
fn typescript_error_quotes_both_streams() {
    let both = compile_typescript_file("a.ts", &exited(false, "out", "err")).unwrap_err();
    assert_eq!(both, "error compiling typescript file: a.ts\nTSC Error Output:\nout\nerr");
    let only_out = compile_typescript_file("a.ts", &exited(false, "out", " \n")).unwrap_err();
    assert_eq!(only_out, "error compiling typescript file: a.ts\nTSC Error Output:\nout");
    let neither = compile_typescript_file("a.ts", &exited(false, " ", "")).unwrap_err();
    assert_eq!(neither, "error compiling typescript file: a.ts\nTSC Error Output:\n");
}

#[test]
fn compiler_that_did_not_start_is_an_error() {
    let sass = compile_scss_file(
        "a.scss",
        &CompileEvent::CommandNotRun { error: "No such file".to_string() },
    );
    assert_eq!(
        sass.unwrap_err(),
        "failed to execute sass command. Is `sass` installed and in your PATH? Error: No such file"
    );
    let tsc = compile_typescript_file(
        "a.ts",
        &CompileEvent::CommandNotRun { error: "No such file".to_string() },
    );
    assert_eq!(
        tsc.unwrap_err(),
        "failed to execute tsc command. Is `typescript` installed and in your PATH? Error: No such file"
    );
    let dir = compile_typescript_file(
        "a.ts",
        &CompileEvent::OutputDirectoryFailed { error: "denied".to_string() },
    );
    assert_eq!(dir.unwrap_err(), "failed to create output directory: denied");
    let missing = compile_typescript_file("a.ts", &CompileEvent::SourceMissing);
    assert_eq!(missing.unwrap_err(), "warning: source typescript file not found: a.ts");
    let scss_dir = compile_scss_file(
        "a.scss",
        &CompileEvent::OutputDirectoryFailed { error: "denied".to_string() },
    );
    assert_eq!(scss_dir.unwrap_err(), "failed to create output directory: denied");
}

#[test]
fn summary_counts_successes_of_all() {
    assert_eq!(
        compilation_summary(&vec![true, false, true, true], "SCSS", "CSS"),
        "3 of 4 SCSS file(s) compiled to CSS."
    );
    assert_eq!(
        compilation_summary(&vec![], "TypeScript", "JavaScript"),
        "0 of 0 TypeScript file(s) compiled to JavaScript."
    );
    assert_eq!(
        compilation_summary(&vec![false; 12], "TypeScript", "JavaScript"),
        "0 of 12 TypeScript file(s) compiled to JavaScript."
    );
}
