//! Mapping a chosen snippet to an interpreter invocation, and classifying
//! what came of running it.
//!
//! Spawning the child process is I/O and happens outside this crate; here the
//! invocation is computed — program, flags, and the code as the single final
//! argument — and the child's exit status is turned into the reported
//! outcome.

use vstd::prelude::*;

use crate::registry::{
    find_language, spec_find_language, tag_bash, tag_node, tag_perl, tag_php, tag_python3,
    tag_ruby, Language,
};
use crate::snippet::{clone_bytes, CodeSnippet};

verus! {

/// The bytes of the program that interprets each language: "bash",
/// "python3", "node", "ruby", "perl" or "php". For four of the six the
/// program happens to be spelled like a fence tag, whose bytes are reused
/// here.
pub open spec fn spec_interpreter(l: Language) -> Seq<u8> {
    match l {
        Language::Bash => tag_bash(),
        Language::Python => tag_python3(),
        Language::JavaScript => tag_node(),
        Language::Ruby => tag_ruby(),
        Language::Perl => tag_perl(),
        Language::Php => tag_php(),
    }
}

/// The single flag each interpreter takes before the code: "-c" for bash and
/// python3, "-e" for node, ruby and perl, "-r" for php.
pub open spec fn spec_flag(l: Language) -> Seq<u8> {
    match l {
        Language::Bash => seq![45u8, 99u8],
        Language::Python => seq![45u8, 99u8],
        Language::JavaScript => seq![45u8, 101u8],
        Language::Ruby => seq![45u8, 101u8],
        Language::Perl => seq![45u8, 101u8],
        Language::Php => seq![45u8, 114u8],
    }
}

/// The ordered flag list each interpreter takes before the code argument.
pub open spec fn spec_flags(l: Language) -> Seq<Seq<u8>> {
    seq![spec_flag(l)]
}

/// A computed interpreter invocation: the program to spawn and its full
/// argument list — the language's flags, then the snippet body as the single
/// final argument. The code is handed over as an argument, never through
/// standard input.
#[derive(Debug)]
pub struct Invocation {
    pub program: Vec<u8>,
    pub args: Vec<Vec<u8>>,
}

/// Building an invocation fails only when the snippet's tag resolves to no
/// registered language.
#[derive(Clone, Copy, PartialEq, Eq, Structural, Debug)]
pub enum ExecError {
    UnsupportedLanguage,
}

fn interpreter_bytes(l: Language) -> (r: Vec<u8>)
    ensures
        r@ == spec_interpreter(l),
{
    let mut v: Vec<u8> = Vec::new();
    match l {
        Language::Bash => {
            v.push(98);
            v.push(97);
            v.push(115);
            v.push(104);
            proof {
                assert(v@ =~= tag_bash());
            }
        },
        Language::Python => {
            v.push(112);
            v.push(121);
            v.push(116);
            v.push(104);
            v.push(111);
            v.push(110);
            v.push(51);
            proof {
                assert(v@ =~= tag_python3());
            }
        },
        Language::JavaScript => {
            v.push(110);
            v.push(111);
            v.push(100);
            v.push(101);
            proof {
                assert(v@ =~= tag_node());
            }
        },
        Language::Ruby => {
            v.push(114);
            v.push(117);
            v.push(98);
            v.push(121);
            proof {
                assert(v@ =~= tag_ruby());
            }
        },
        Language::Perl => {
            v.push(112);
            v.push(101);
            v.push(114);
            v.push(108);
            proof {
                assert(v@ =~= tag_perl());
            }
        },
        Language::Php => {
            v.push(112);
            v.push(104);
            v.push(112);
            proof {
                assert(v@ =~= tag_php());
            }
        },
    }
    v
}

fn flag_bytes(l: Language) -> (r: Vec<u8>)
    ensures
        r@ == spec_flag(l),
{
    let mut v: Vec<u8> = Vec::new();
    v.push(45);
    match l {
        Language::Bash => v.push(99),
        Language::Python => v.push(99),
        Language::JavaScript => v.push(101),
        Language::Ruby => v.push(101),
        Language::Perl => v.push(101),
        Language::Php => v.push(114),
    }
    proof {
        assert(v@ =~= spec_flag(l));
    }
    v
}

/// Computes the interpreter invocation for a snippet: the resolved language's
/// program, its flags, and the snippet body as the single final argument.
/// Fails exactly when the snippet's tag resolves to no language — checked here
/// again, independently of extraction, since any snippet can be handed in.
pub fn build_invocation(snippet: &CodeSnippet) -> (r: Result<Invocation, ExecError>)
    ensures
        (match spec_find_language(snippet.language@) {
            Some(l) => r matches Ok(inv) && inv.program@ == spec_interpreter(l)
                && inv.args.deep_view() == spec_flags(l).push(snippet.code@),
            None => r matches Err(e) && e == ExecError::UnsupportedLanguage,
        }),
{
    match find_language(snippet.language.as_slice()) {
        Some(l) => {
            let program = interpreter_bytes(l);
            let mut args: Vec<Vec<u8>> = Vec::new();
            args.push(flag_bytes(l));
            args.push(clone_bytes(&snippet.code));
            proof {
                assert(args.deep_view() =~~= spec_flags(l).push(snippet.code@));
            }
            Ok(Invocation { program, args })
        },
        None => Err(ExecError::UnsupportedLanguage),
    }
}

/// The reported outcome of running a chosen snippet: whether it succeeded,
/// and the exit code it reported, if any.
#[derive(Clone, Copy, Debug)]
pub struct ExecutionOutcome {
    pub success: bool,
    pub exit_code: Option<i32>,
}

/// Classifies a child's exit: code 0 is success; any other code, or the
/// absence of one (a child killed by a signal reports none), is failure.
/// The failure is reported, never escalated: it does not change the
/// program's own exit.
pub fn outcome_from_exit(code: Option<i32>) -> (r: ExecutionOutcome)
    ensures
        r.success == (code == Some(0i32)),
        r.exit_code == code,
{
    let success = match code {
        Some(c) => c == 0,
        None => false,
    };
    ExecutionOutcome { success, exit_code: code }
}

/// The numeric code shown when reporting a failure: the child's exit code,
/// or -1 when it reported none.
pub fn reported_code(o: &ExecutionOutcome) -> (r: i32)
    ensures
        (o.exit_code matches Some(c) ==> r == c),
        (o.exit_code is None ==> r == -1),
{
    match o.exit_code {
        Some(c) => c,
        None => -1,
    }
}

} // verus!
