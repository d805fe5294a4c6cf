//! Command-line instructions.
//!
//! Turns the raw argument vector into the compiler's instructions: the
//! input path, the output path (derived from the input's file name when
//! none is given), the output mode, whether to exit early for help or
//! version output, and whether nonfatal errors are ignored.  A malformed
//! command line yields an error carrying the exit status and the message
//! the driver prints.  Reading files, printing and exiting stay with the
//! driver.
//!
//! The output name derived from an input path is the part after the last
//! `/` (or `output` where that is empty), with a trailing `.sbb` removed
//! and the mode's extension appended.

use vstd::prelude::*;

use crate::strutil::{chars_to_string, string_to_chars, strs_view};

verus! {

/// What the compiler is asked to produce.
#[derive(Debug, Clone, Copy, PartialEq, Eq, Structural)]
pub enum OutputMode {
    Assembly,
    Object,
    BinaryExecutable,
}

/// A request to print something and exit before compiling.
#[derive(Debug, Clone, Copy, PartialEq, Eq, Structural)]
pub enum EarlyExit {
    Version,
    Help,
}

/// The parsed command line.
#[derive(Debug, PartialEq, Eq)]
pub struct CLIInstructions {
    pub input: String,
    pub output: String,
    pub mode: OutputMode,
    pub exit_early: Option<EarlyExit>,
    pub force: bool,
}

/// The mathematical image of `CLIInstructions`.
#[verifier::ext_equal]
pub ghost struct SpecCli {
    pub input: Seq<char>,
    pub output: Seq<char>,
    pub mode: OutputMode,
    pub exit_early: Option<EarlyExit>,
    pub force: bool,
}

impl View for CLIInstructions {
    type V = SpecCli;

    open spec fn view(&self) -> SpecCli {
        SpecCli {
            input: self.input@,
            output: self.output@,
            mode: self.mode,
            exit_early: self.exit_early,
            force: self.force,
        }
    }
}

/// A rejected command line: the process status to exit with and the
/// message to print.
#[derive(Debug, PartialEq, Eq)]
pub struct CliError {
    pub code: i32,
    pub message: String,
}

/// The mathematical image of a `CliError`.
#[verifier::ext_equal]
pub ghost struct SpecCliError {
    pub code: int,
    pub message: Seq<char>,
}

impl View for CliError {
    type V = SpecCliError;

    open spec fn view(&self) -> SpecCliError {
        SpecCliError { code: self.code as int, message: self.message@ }
    }
}

/// The scan's running state.
#[verifier::ext_equal]
pub ghost struct CliState {
    pub input: Seq<char>,
    pub output: Seq<char>,
    pub mode: OutputMode,
    pub exit_early: Option<EarlyExit>,
    pub force: bool,
    pub input_set: bool,
}

pub open spec fn cli_init_state() -> CliState {
    CliState {
        input: Seq::empty(),
        output: Seq::empty(),
        mode: OutputMode::BinaryExecutable,
        exit_early: None,
        force: false,
        input_set: false,
    }
}

/// The argument scan from index `i` on, one flag or argument at a time.
pub open spec fn scan_args(args: Seq<Seq<char>>, i: int, st: CliState) -> Result<
    CliState,
    SpecCliError,
>
    decreases args.len() - i,
{
    if i >= args.len() {
        Ok(st)
    } else {
        let a = args[i];
        if a == "-h"@ || a == "--help"@ {
            scan_args(args, i + 1, CliState { exit_early: Some(EarlyExit::Help), ..st })
        } else if a == "-f"@ || a == "--force"@ {
            scan_args(args, i + 1, CliState { force: true, ..st })
        } else if a == "-v"@ || a == "--version"@ {
            scan_args(args, i + 1, CliState { exit_early: Some(EarlyExit::Version), ..st })
        } else if a == "-o"@ || a == "--output"@ {
            if i + 1 < args.len() {
                scan_args(args, i + 2, CliState { output: args[i + 1], ..st })
            } else {
                Err(SpecCliError { code: 3, message: "ERROR: -o flag requires an argument"@ })
            }
        } else if a == "-s"@ || a == "--asm"@ {
            scan_args(args, i + 1, CliState { mode: OutputMode::Assembly, ..st })
        } else if a == "-b"@ || a == "--object"@ {
            scan_args(args, i + 1, CliState { mode: OutputMode::Object, ..st })
        } else if a == "-m"@ || a == "--mode"@ {
            if i + 1 < args.len() {
                let v = args[i + 1];
                if v == "asm"@ || v == "assembly"@ || v == "s"@ {
                    scan_args(args, i + 2, CliState { mode: OutputMode::Assembly, ..st })
                } else if v == "obj"@ || v == "object"@ {
                    scan_args(args, i + 2, CliState { mode: OutputMode::Object, ..st })
                } else if v == "bin"@ || v == "binary"@ {
                    scan_args(args, i + 2, CliState { mode: OutputMode::BinaryExecutable, ..st })
                } else {
                    Err(SpecCliError { code: 4, message: "ERROR: Unrecognized mode: "@ + v })
                }
            } else {
                Err(SpecCliError { code: 5, message: "ERROR: -m flag requires an argument"@ })
            }
        } else if !st.input_set {
            scan_args(args, i + 1, CliState { input: a, input_set: true, ..st })
        } else if a.len() > 0 && a[0] == '-' {
            Err(SpecCliError { code: 2, message: "ERROR: Unrecognized flag/option: "@ + a })
        } else {
            Err(SpecCliError { code: 2, message: "ERROR: Unexpected argument: "@ + a })
        }
    }
}

/// The index just after the last `/` in `s`, or 0 if none occurs.
pub open spec fn last_slash_end(s: Seq<char>) -> int
    decreases s.len(),
{
    if s.len() == 0 {
        0
    } else if s[s.len() - 1] == '/' {
        s.len() as int
    } else {
        last_slash_end(s.subrange(0, s.len() - 1))
    }
}

proof fn lemma_last_slash_end_bounds(s: Seq<char>)
    ensures
        0 <= last_slash_end(s) <= s.len(),
    decreases s.len(),
{
    if s.len() > 0 && s[s.len() - 1] != '/' {
        lemma_last_slash_end_bounds(s.subrange(0, s.len() - 1));
    }
}

/// The file-name part of a path: what follows the last `/`, or `output`
/// where that is empty.
pub open spec fn base_stem(s: Seq<char>) -> Seq<char> {
    let b = s.subrange(last_slash_end(s), s.len() as int);
    if b.len() == 0 {
        "output"@
    } else {
        b
    }
}

/// A name with a trailing `.sbb` removed.
pub open spec fn strip_sbb(s: Seq<char>) -> Seq<char> {
    if s.len() >= 4 && s.subrange(s.len() - 4, s.len() as int) == ".sbb"@ {
        s.subrange(0, s.len() - 4)
    } else {
        s
    }
}

/// The output name derived from the input path and the output mode.
pub open spec fn derived_output(input: Seq<char>, mode: OutputMode) -> Seq<char> {
    let stem = strip_sbb(base_stem(input));
    match mode {
        OutputMode::Assembly => stem + ".s"@,
        OutputMode::Object => stem + ".o"@,
        OutputMode::BinaryExecutable => stem,
    }
}

/// The whole command line's meaning: the scan from the first argument
/// after the program name, then the stdin default for a missing input and
/// the derived name for a missing output.
pub open spec fn cli_from(args: Seq<Seq<char>>) -> Result<SpecCli, SpecCliError> {
    match scan_args(args, 1, cli_init_state()) {
        Err(e) => Err(e),
        Ok(st) => {
            let inp = if st.input.len() == 0 {
                "/dev/stdin"@
            } else {
                st.input
            };
            let outp = if st.output.len() == 0 {
                derived_output(inp, st.mode)
            } else {
                st.output
            };
            Ok(
                SpecCli {
                    input: inp,
                    output: outp,
                    mode: st.mode,
                    exit_early: st.exit_early,
                    force: st.force,
                },
            )
        },
    }
}

/// Derives the output name from the input path and mode.
fn derive_output(input: &String, mode: OutputMode) -> (r: String)
    ensures
        r@ == derived_output(input@, mode),
{
    let chars = string_to_chars(input.as_str());
    let n = chars.len();
    let mut cut: usize = 0;
    let mut j: usize = 0;
    proof {
        assert(chars@.subrange(0, 0).len() == 0);
    }
    while j < n
        invariant
            n == chars@.len(),
            0 <= cut <= j <= n,
            cut == last_slash_end(chars@.subrange(0, j as int)),
        decreases n - j,
    {
        proof {
            assert(chars@.subrange(0, j + 1).subrange(0, j as int) =~= chars@.subrange(
                0,
                j as int,
            ));
            assert(chars@.subrange(0, j + 1)[j as int] == chars@[j as int]);
        }
        if chars[j] == '/' {
            cut = j + 1;
        }
        j = j + 1;
    }
    proof {
        assert(chars@.subrange(0, n as int) =~= chars@);
        lemma_last_slash_end_bounds(chars@);
    }
    let mut stem: Vec<char> = Vec::new();
    let mut k: usize = cut;
    while k < n
        invariant
            n == chars@.len(),
            cut <= k <= n,
            stem@ == chars@.subrange(cut as int, k as int),
        decreases n - k,
    {
        stem.push(chars[k]);
        proof {
            assert(stem@ =~= chars@.subrange(cut as int, k + 1));
        }
        k = k + 1;
    }
    if stem.len() == 0 {
        stem = string_to_chars("output");
        proof {
            assert(stem@ == "output"@);
        }
    }
    proof {
        assert(stem@ == base_stem(input@));
    }
    let m = stem.len();
    let dotted = m >= 4 && stem[m - 4] == '.' && stem[m - 3] == 's' && stem[m - 2] == 'b'
        && stem[m - 1] == 'b';
    proof {
        reveal_strlit(".sbb");
        if dotted {
            assert(stem@.subrange(m - 4, m as int) =~= ".sbb"@);
        } else {
            if stem@.len() >= 4 && stem@.subrange(m - 4, m as int) == ".sbb"@ {
                assert(stem@[m - 4] == ".sbb"@[0]);
                assert(stem@[m - 3] == ".sbb"@[1]);
                assert(stem@[m - 2] == ".sbb"@[2]);
                assert(stem@[m - 1] == ".sbb"@[3]);
                assert(false);
            }
        }
    }
    if dotted {
        stem.pop();
        stem.pop();
        stem.pop();
        stem.pop();
        proof {
            assert(stem@ =~= strip_sbb(base_stem(input@)));
        }
    }
    let mut out = chars_to_string(&stem);
    match mode {
        OutputMode::Assembly => {
            out.append(".s");
        },
        OutputMode::Object => {
            out.append(".o");
        },
        OutputMode::BinaryExecutable => {},
    }
    out
}

impl CLIInstructions {
    /// Parses the raw argument vector (the program name first) into the
    /// compiler's instructions, or the exit status and message for a
    /// malformed command line.
    #[verifier::rlimit(100)]
    pub fn from(args: Vec<String>) -> (r: Result<CLIInstructions, CliError>)
        ensures
            ({
                let outcome = cli_from(strs_view(args@));
                match r {
                    Ok(c) => outcome == Ok::<SpecCli, SpecCliError>(c@),
                    Err(e) => outcome == Err::<SpecCli, SpecCliError>(e@),
                }
            }),
    {
        let ghost av = strs_view(args@);
        let n = args.len();
        let mut input = String::new();
        let mut output = String::new();
        let mut mode = OutputMode::BinaryExecutable;
        let mut exit_early: Option<EarlyExit> = None;
        let mut force = false;
        let mut input_set = false;
        let mut i: usize = 1;
        proof {
            assert(av.len() == args@.len());
        }
        while i < n
            invariant
                n == args@.len(),
                av == strs_view(args@),
                1 <= i <= n + 1,
                scan_args(av, 1, cli_init_state()) == scan_args(
                    av,
                    i as int,
                    CliState {
                        input: input@,
                        output: output@,
                        mode: mode,
                        exit_early: exit_early,
                        force: force,
                        input_set: input_set,
                    },
                ),
            decreases n - i,
        {
            proof {
                assert(av[i as int] == args@[i as int]@);
                if i + 1 < n {
                    assert(av[i + 1] == args@[i + 1]@);
                }
            }
            let a = &args[i];
            if *a == String::from_str("-h") || *a == String::from_str("--help") {
                exit_early = Some(EarlyExit::Help);
            } else if *a == String::from_str("-f") || *a == String::from_str("--force") {
                force = true;
            } else if *a == String::from_str("-v") || *a == String::from_str("--version") {
                exit_early = Some(EarlyExit::Version);
            } else if *a == String::from_str("-o") || *a == String::from_str("--output") {
                if i + 1 < n {
                    output = args[i + 1].clone();
                    i = i + 1;
                } else {
                    return Err(
                        CliError {
                            code: 3,
                            message: String::from_str("ERROR: -o flag requires an argument"),
                        },
                    );
                }
            } else if *a == String::from_str("-s") || *a == String::from_str("--asm") {
                mode = OutputMode::Assembly;
            } else if *a == String::from_str("-b") || *a == String::from_str("--object") {
                mode = OutputMode::Object;
            } else if *a == String::from_str("-m") || *a == String::from_str("--mode") {
                if i + 1 < n {
                    let v = &args[i + 1];
                    if *v == String::from_str("asm") || *v == String::from_str("assembly") || *v
                        == String::from_str("s") {
                        mode = OutputMode::Assembly;
                    } else if *v == String::from_str("obj") || *v == String::from_str("object") {
                        mode = OutputMode::Object;
                    } else if *v == String::from_str("bin") || *v == String::from_str("binary") {
                        mode = OutputMode::BinaryExecutable;
                    } else {
                        let mut msg = String::from_str("ERROR: Unrecognized mode: ");
                        msg.append(v.as_str());
                        return Err(CliError { code: 4, message: msg });
                    }
                    i = i + 1;
                } else {
                    return Err(
                        CliError {
                            code: 5,
                            message: String::from_str("ERROR: -m flag requires an argument"),
                        },
                    );
                }
            } else if !input_set {
                input = a.clone();
                input_set = true;
            } else {
                let ac = string_to_chars(a.as_str());
                let dash = ac.len() > 0 && ac[0] == '-';
                if dash {
                    let mut msg = String::from_str("ERROR: Unrecognized flag/option: ");
                    msg.append(a.as_str());
                    return Err(CliError { code: 2, message: msg });
                } else {
                    let mut msg = String::from_str("ERROR: Unexpected argument: ");
                    msg.append(a.as_str());
                    return Err(CliError { code: 2, message: msg });
                }
            }
            i = i + 1;
        }
        if input.as_str().is_empty() {
            input = String::from_str("/dev/stdin");
        }
        if output.as_str().is_empty() {
            output = derive_output(&input, mode);
        }
        Ok(CLIInstructions { input, output, mode, exit_early, force })
    }
}

} // verus!
