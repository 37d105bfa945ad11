//! An LC-3 toolchain: a two-pass assembler and linker for the LC-3 source
//! language, an object and symbol file codec, and a 16-bit virtual machine
//! with memory-mapped keyboard and display registers.

pub mod assemble;
pub mod binary_utils;
pub mod error;
pub mod file_io;
pub mod tokenizer;
pub mod virtual_machine;

use vstd::prelude::*;
use crate::error::CliError;
use crate::tokenizer::{seq_eq_ci, str_eq, str_eq_ci};

verus! {

/// The assembler's command-line options.
#[derive(Clone, Copy, Debug, PartialEq, Eq, Structural)]
pub struct AssemblerFlags {
    pub case_insensitive_labels: bool,
    pub output_symbol_file: bool,
    pub verbose_log: bool,
}

impl AssemblerFlags {
    /// The defaults: labels compared without case, a symbol file written,
    /// quiet logging.
    pub fn new() -> (r: Self)
        ensures
            r.case_insensitive_labels,
            r.output_symbol_file,
            !r.verbose_log,
    {
        AssemblerFlags { case_insensitive_labels: true, output_symbol_file: true, verbose_log: false }
    }

    /// Compares labels with case from now on.
    pub fn case_sensitive_labels(&mut self)
        ensures
            *final(self) == (AssemblerFlags { case_insensitive_labels: false, ..*old(self) }),
    {
        self.case_insensitive_labels = false;
    }

    /// Chooses whether a symbol file is written beside the object.
    pub fn set_symbol_file(&mut self, flag: bool)
        ensures
            *final(self) == (AssemblerFlags { output_symbol_file: flag, ..*old(self) }),
    {
        self.output_symbol_file = flag;
    }

    /// Chooses verbose logging.
    pub fn set_verbose_log(&mut self, flag: bool)
        ensures
            *final(self) == (AssemblerFlags { verbose_log: flag, ..*old(self) }),
    {
        self.verbose_log = flag;
    }
}

/// What a command line asks for: assembling one source file, loading and
/// running images, help, or a recognised subcommand with nothing to do.
pub enum CliRequest {
    Assemble {
        src_file: String,
        output_file: String,
        external_files: Vec<String>,
        flags: AssemblerFlags,
    },
    LoadRun { primary: String, companions: Vec<String> },
    Help,
    Nothing,
}

/// The mathematical shape of a command-line request.
pub enum CliRequestModel {
    Assemble {
        src_file: Seq<char>,
        output_file: Seq<char>,
        external_files: Seq<Seq<char>>,
        flags: AssemblerFlags,
    },
    LoadRun { primary: Seq<char>, companions: Seq<Seq<char>> },
    Help,
    Nothing,
}

/// The texts of an argument list.
pub open spec fn args_model(args: Seq<String>) -> Seq<Seq<char>> {
    args.map_values(|s: String| s@)
}

/// The object file name of a source file: the `.asm` suffix replaced by
/// `.obj`, or `.obj` appended.
pub open spec fn spec_output_name(src: Seq<char>) -> Seq<char> {
    if src.len() >= 4 && src.skip(src.len() - 4) == ".asm"@ {
        src.take(src.len() - 4) + ".obj"@
    } else {
        src + ".obj"@
    }
}

/// The assembler options and linked files the trailing arguments select.
pub open spec fn spec_asm_args(
    args: Seq<Seq<char>>,
    k: nat,
    flags: AssemblerFlags,
) -> Option<(AssemblerFlags, Seq<Seq<char>>)>
    decreases args.len() - k,
{
    if k >= args.len() {
        Some((flags, Seq::empty()))
    } else if args[k as int] == "--case-sensitive"@ {
        spec_asm_args(args, k + 1, AssemblerFlags { case_insensitive_labels: false, ..flags })
    } else if args[k as int] == "--no-sym-file"@ {
        spec_asm_args(args, k + 1, AssemblerFlags { output_symbol_file: false, ..flags })
    } else if args[k as int] == "--verbose-log"@ {
        spec_asm_args(args, k + 1, AssemblerFlags { verbose_log: true, ..flags })
    } else if args[k as int] == "--link"@ {
        if k + 1 >= args.len() {
            None
        } else {
            Some((flags, args.skip(k as int + 1)))
        }
    } else {
        None
    }
}

/// The request a command line denotes, or nothing for a malformed one.
pub open spec fn spec_parse_arguments(args: Seq<Seq<char>>) -> Option<CliRequestModel> {
    if args.len() < 3 {
        None
    } else if seq_eq_ci(args[1], "asm"@) {
        match spec_asm_args(
            args,
            3,
            AssemblerFlags {
                case_insensitive_labels: true,
                output_symbol_file: true,
                verbose_log: false,
            },
        ) {
            None => None,
            Some(fl) => Some(
                CliRequestModel::Assemble {
                    src_file: args[2],
                    output_file: spec_output_name(args[2]),
                    external_files: fl.1,
                    flags: fl.0,
                },
            ),
        }
    } else if seq_eq_ci(args[1], "link"@) {
        Some(CliRequestModel::Nothing)
    } else if seq_eq_ci(args[1], "load"@) {
        Some(CliRequestModel::LoadRun { primary: args[2], companions: args.skip(3) })
    } else if seq_eq_ci(args[1], "help"@) {
        Some(CliRequestModel::Help)
    } else {
        None
    }
}

/// The model of a request value.
pub open spec fn cli_request_model(r: CliRequest) -> CliRequestModel {
    match r {
        CliRequest::Assemble {
            src_file,
            output_file,
            external_files,
            flags,
        } => CliRequestModel::Assemble {
            src_file: src_file@,
            output_file: output_file@,
            external_files: external_files@.map_values(|s: String| s@),
            flags,
        },
        CliRequest::LoadRun { primary, companions } => CliRequestModel::LoadRun {
            primary: primary@,
            companions: companions@.map_values(|s: String| s@),
        },
        CliRequest::Help => CliRequestModel::Help,
        CliRequest::Nothing => CliRequestModel::Nothing,
    }
}

/// Parses a command line into the request it asks for.  The first argument
/// is the program's own name; the second selects the subcommand; a
/// malformed line is an error.
pub fn parse_arguments(args: Vec<String>) -> (r: Result<CliRequest, CliError>)
    ensures
        match spec_parse_arguments(args_model(args@)) {
            Some(m) => r matches Ok(req) && cli_request_model(req) == m,
            None => r is Err,
        },
{
    let ghost am = args_model(args@);
    if args.len() < 3 {
        return Err(CliError::new("expected at least three arguments"));
    }
    proof {
        assert(am[1] == args@[1]@);
        assert(am[2] == args@[2]@);
    }
    if str_eq_ci(args[1].as_str(), "asm") {
        let mut flags = AssemblerFlags::new();
        let mut external_files: Vec<String> = Vec::new();
        let mut arg_no: usize = 3;
        let n = args.len();
        let ghost flags0 = flags;
        proof {
            assert(flags0 == AssemblerFlags {
                case_insensitive_labels: true,
                output_symbol_file: true,
                verbose_log: false,
            });
        }
        while arg_no < n
            invariant
                3 <= arg_no <= n,
                n == args@.len(),
                am == args_model(args@),
                am.len() >= 3,
                seq_eq_ci(am[1], "asm"@),
                am[2] == args@[2]@,
                flags0 == (AssemblerFlags {
                    case_insensitive_labels: true,
                    output_symbol_file: true,
                    verbose_log: false,
                }),
                external_files@.len() == 0,
                spec_asm_args(am, 3, flags0) == spec_asm_args(am, arg_no as nat, flags),
            decreases n - arg_no,
        {
            proof {
                assert(am[arg_no as int] == args@[arg_no as int]@);
            }
            if str_eq(args[arg_no].as_str(), "--case-sensitive") {
                flags.case_sensitive_labels();
            } else if str_eq(args[arg_no].as_str(), "--no-sym-file") {
                flags.set_symbol_file(false);
            } else if str_eq(args[arg_no].as_str(), "--verbose-log") {
                flags.set_verbose_log(true);
            } else if str_eq(args[arg_no].as_str(), "--link") {
                if arg_no + 1 == n {
                    return Err(CliError::new("expected files to link after the link flag"));
                }
                let mut k = arg_no + 1;
                while k < n
                    invariant
                        arg_no + 1 <= k <= n,
                        arg_no + 1 < n,
                        n == args@.len(),
                        am == args_model(args@),
                        am.len() >= 3,
                        seq_eq_ci(am[1], "asm"@),
                        am[2] == args@[2]@,
                        flags0 == (AssemblerFlags {
                            case_insensitive_labels: true,
                            output_symbol_file: true,
                            verbose_log: false,
                        }),
                        spec_asm_args(am, 3, flags0) == spec_asm_args(am, arg_no as nat, flags),
                        am[arg_no as int] == "--link"@,
                        external_files@.len() == k - arg_no - 1,
                        forall|j: int|
                            0 <= j < external_files@.len() ==> (#[trigger] external_files@[j])@
                                == am[arg_no + 1 + j],
                    decreases n - k,
                {
                    external_files.push(args[k].clone());
                    proof {
                        assert(am[k as int] == args@[k as int]@);
                    }
                    k += 1;
                }
                proof {
                    assert(external_files@.map_values(|s: String| s@) =~= am.skip(
                        arg_no as int + 1,
                    ));
                }
                let output_file = output_name(args[2].as_str());
                return Ok(
                    CliRequest::Assemble {
                        src_file: args[2].clone(),
                        output_file,
                        external_files,
                        flags,
                    },
                );
            } else {
                return Err(CliError::new("expected a flag after the assemble subcommand"));
            }
            arg_no += 1;
        }
        proof {
            assert(spec_asm_args(am, n as nat, flags) == Some((flags, Seq::<Seq<char>>::empty())));
            assert(external_files@.map_values(|s: String| s@) =~= Seq::<Seq<char>>::empty());
        }
        let output_file = output_name(args[2].as_str());
        Ok(CliRequest::Assemble { src_file: args[2].clone(), output_file, external_files, flags })
    } else if str_eq_ci(args[1].as_str(), "link") {
        Ok(CliRequest::Nothing)
    } else if str_eq_ci(args[1].as_str(), "load") {
        let mut companions: Vec<String> = Vec::new();
        let mut k: usize = 3;
        let n = args.len();
        while k < n
            invariant
                3 <= k <= n,
                n == args@.len(),
                am == args_model(args@),
                am.len() >= 3,
                !seq_eq_ci(am[1], "asm"@),
                !seq_eq_ci(am[1], "link"@),
                seq_eq_ci(am[1], "load"@),
                am[2] == args@[2]@,
                companions@.len() == k - 3,
                forall|j: int|
                    0 <= j < companions@.len() ==> (#[trigger] companions@[j])@ == am[3 + j],
            decreases n - k,
        {
            companions.push(args[k].clone());
            proof {
                assert(am[k as int] == args@[k as int]@);
            }
            k += 1;
        }
        proof {
            assert(companions@.map_values(|s: String| s@) =~= am.skip(3));
        }
        Ok(CliRequest::LoadRun { primary: args[2].clone(), companions })
    } else if str_eq_ci(args[1].as_str(), "help") {
        Ok(CliRequest::Help)
    } else {
        Err(CliError::new("unknown subcommand"))
    }
}

/// The object file name of a source file.
fn output_name(src: &str) -> (r: String)
    ensures
        r@ == spec_output_name(src@),
{
    let n = src.unicode_len();
    let stem: &str = if n >= 4 && str_eq(src.substring_char(n - 4, n), ".asm") {
        src.substring_char(0, n - 4)
    } else {
        src
    };
    let mut out: Vec<char> = Vec::new();
    crate::tokenizer::push_str_chars(&mut out, stem);
    crate::tokenizer::push_str_chars(&mut out, ".obj");
    proof {
        if src@.len() >= 4 && src@.skip(src@.len() - 4) == ".asm"@ {
            assert(src@.subrange(src@.len() - 4, src@.len() as int) =~= src@.skip(src@.len() - 4));
        }
        assert(out@ =~= spec_output_name(src@));
    }
    crate::tokenizer::chars_to_string(&out)
}

} // verus!
