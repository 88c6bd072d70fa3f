use zorto::execute::{execute_blocks, runner_for, ExecutableBlock, RunOutcome, Runner};

fn block(lang: &str, source: &str) -> ExecutableBlock {
    ExecutableBlock { language: lang.into(), source: source.into(), file_ref: None, output: None, error: None }
}

/// Stands in for the shell: the captured output of the commands used below.
fn fake(r: Runner, source: String, file: Option<String>) -> RunOutcome {
    match (r, source.as_str()) {
        (Runner::Shell, "echo hello") => RunOutcome::Ran { stdout: "hello\n".into(), stderr: String::new(), succeeded: true },
        (Runner::Shell, "echo oops >&2") => RunOutcome::Ran { stdout: String::new(), stderr: "oops\n".into(), succeeded: true },
        (Runner::Shell, _) if file.is_some() => RunOutcome::Failed("no such file".into()),
        (Runner::Python, _) => RunOutcome::Unavailable("Python execution not available".into()),
        (Runner::Shell, "exit 1") => RunOutcome::Ran { stdout: String::new(), stderr: String::new(), succeeded: false },
        (Runner::Shell, "ls /nope") => RunOutcome::Ran { stdout: String::new(), stderr: "no such file\n".into(), succeeded: false },
        _ => RunOutcome::Ran { stdout: String::new(), stderr: String::new(), succeeded: true },
    }
}

#[test]
fn runners_by_language() {
    assert_eq!(runner_for("python"), Runner::Python);
    assert_eq!(runner_for("bash"), Runner::Shell);
    assert_eq!(runner_for("sh"), Runner::Shell);
    assert_eq!(runner_for("ruby"), Runner::Unsupported);
}

#[test]
fn outcomes_are_recorded() {
    let mut blocks = vec![
        block("bash", "echo hello"),
        block("bash", "echo oops >&2"),
        block("ruby", "puts 1"),
        ExecutableBlock { file_ref: Some("missing.sh".into()), ..block("sh", "") },
        block("python", "print(1)"),
    ];
    let warnings = execute_blocks(&mut blocks, &fake);
    assert_eq!(blocks[0].output.as_deref(), Some("hello\n"));
    assert!(blocks[0].error.is_none());
    assert_eq!(blocks[1].output.as_deref(), Some(""));
    assert_eq!(blocks[1].error.as_deref(), Some("oops\n"));
    assert_eq!(blocks[2].error.as_deref(), Some("Unsupported executable language: ruby"));
    assert!(blocks[2].output.is_none());
    assert_eq!(blocks[3].error.as_deref(), Some("Bash execution error: no such file"));
    assert_eq!(blocks[4].error.as_deref(), Some("Python execution not available"));
    assert_eq!(
        warnings,
        vec![
            "Unsupported executable language: ruby".to_string(),
            "Bash execution error: no such file".to_string(),
            "Python execution not available".to_string(),
        ]
    );
}

#[test]
fn test_execute_bash_stdout() {
    let mut blocks = vec![block("bash", "echo hello")];
    execute_blocks(&mut blocks, &fake);
    assert_eq!(blocks[0].output.as_deref(), Some("hello\n"));
    assert!(blocks[0].error.is_none());
}

#[test]
fn test_execute_bash_stderr() {
    let mut blocks = vec![block("bash", "echo oops >&2")];
    execute_blocks(&mut blocks, &fake);
    assert_eq!(blocks[0].output.as_deref(), Some(""));
    assert_eq!(blocks[0].error.as_deref(), Some("oops\n"));
}

#[test]
fn failure_status_is_an_error() {
    let mut blocks = vec![block("bash", "exit 1"), block("sh", "ls /nope"), block("bash", "true")];
    let warnings = execute_blocks(&mut blocks, &fake);
    assert_eq!(blocks[0].error.as_deref(), Some("the code exited with a failure status"));
    assert_eq!(blocks[1].error.as_deref(), Some("no such file\n"));
    assert!(blocks[2].error.is_none());
    assert_eq!(warnings.len(), 2);
}
