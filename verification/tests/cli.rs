use sabbahc::cli::{CLIInstructions, EarlyExit, OutputMode};

fn args(list: &[&str]) -> Vec<String> {
    list.iter().map(|s| s.to_string()).collect()
}

#[test]
fn plain_input_defaults_to_linked_binary() {
    let c = CLIInstructions::from(args(&["sabbahc", "main.sbb"])).unwrap();
    assert_eq!(c.input, "main.sbb");
    assert_eq!(c.output, "main");
    assert_eq!(c.mode, OutputMode::BinaryExecutable);
    assert_eq!(c.exit_early, None);
    assert!(!c.force);
}

#[test]
fn assembly_mode_appends_s() {
    let c = CLIInstructions::from(args(&["sabbahc", "main.sbb", "-s"])).unwrap();
    assert_eq!(c.mode, OutputMode::Assembly);
    assert_eq!(c.output, "main.s");
}

#[test]
fn object_mode_appends_o() {
    let c = CLIInstructions::from(args(&["sabbahc", "dir/prog.sbb", "-b"])).unwrap();
    assert_eq!(c.mode, OutputMode::Object);
    assert_eq!(c.output, "prog.o");
}

#[test]
fn explicit_output_wins() {
    let c = CLIInstructions::from(args(&["sabbahc", "main.sbb", "-o", "custom"])).unwrap();
    assert_eq!(c.output, "custom");
}

#[test]
fn long_flags_work() {
    let c = CLIInstructions::from(args(&[
        "sabbahc", "--force", "main.sbb", "--mode", "assembly",
    ]))
    .unwrap();
    assert!(c.force);
    assert_eq!(c.mode, OutputMode::Assembly);
}

#[test]
fn mode_names() {
    for (name, mode) in [
        ("asm", OutputMode::Assembly),
        ("s", OutputMode::Assembly),
        ("obj", OutputMode::Object),
        ("object", OutputMode::Object),
        ("bin", OutputMode::BinaryExecutable),
        ("binary", OutputMode::BinaryExecutable),
    ] {
        let c = CLIInstructions::from(args(&["sabbahc", "x.sbb", "-m", name])).unwrap();
        assert_eq!(c.mode, mode, "mode name {}", name);
    }
}

#[test]
fn unrecognized_mode_is_an_error() {
    let e = CLIInstructions::from(args(&["sabbahc", "x.sbb", "-m", "elf"])).unwrap_err();
    assert_eq!(e.code, 4);
    assert_eq!(e.message, "ERROR: Unrecognized mode: elf");
}

#[test]
fn output_flag_needs_an_argument() {
    let e = CLIInstructions::from(args(&["sabbahc", "x.sbb", "-o"])).unwrap_err();
    assert_eq!(e.code, 3);
    assert_eq!(e.message, "ERROR: -o flag requires an argument");
}

#[test]
fn mode_flag_needs_an_argument() {
    let e = CLIInstructions::from(args(&["sabbahc", "x.sbb", "--mode"])).unwrap_err();
    assert_eq!(e.code, 5);
}

#[test]
fn second_positional_argument_is_rejected() {
    let e = CLIInstructions::from(args(&["sabbahc", "a.sbb", "b.sbb"])).unwrap_err();
    assert_eq!(e.code, 2);
    assert_eq!(e.message, "ERROR: Unexpected argument: b.sbb");
    let e2 = CLIInstructions::from(args(&["sabbahc", "a.sbb", "-x"])).unwrap_err();
    assert_eq!(e2.code, 2);
    assert_eq!(e2.message, "ERROR: Unrecognized flag/option: -x");
}

#[test]
fn help_and_version_exit_early() {
    let c = CLIInstructions::from(args(&["sabbahc", "-h"])).unwrap();
    assert_eq!(c.exit_early, Some(EarlyExit::Help));
    let c2 = CLIInstructions::from(args(&["sabbahc", "--version"])).unwrap();
    assert_eq!(c2.exit_early, Some(EarlyExit::Version));
}

#[test]
fn missing_input_defaults_to_stdin() {
    let c = CLIInstructions::from(args(&["sabbahc", "-s"])).unwrap();
    assert_eq!(c.input, "/dev/stdin");
    assert_eq!(c.output, "stdin.s");
}

#[test]
fn output_name_strips_directories() {
    let c = CLIInstructions::from(args(&["sabbahc", "a/b/c.sbb", "-s"])).unwrap();
    assert_eq!(c.output, "c.s");
}

#[test]
fn non_sbb_extension_is_kept() {
    let c = CLIInstructions::from(args(&["sabbahc", "main.txt", "-s"])).unwrap();
    assert_eq!(c.output, "main.txt.s");
}

#[test]
fn trailing_slash_falls_back_to_output() {
    let c = CLIInstructions::from(args(&["sabbahc", "some/dir/", "-s"])).unwrap();
    assert_eq!(c.output, "output.s");
}
