use vstd::prelude::*;

use vstd::string::{StrSliceExecFns, StringExecFns};

use crate::render::{utf8_decode, utf8_to_string, OutcomeModel, RenderOutcome};

verus! {

/// The decimal digit character for `d`.
pub open spec fn digit_char(d: int) -> char {
    if d == 0 {
        '0'
    } else if d == 1 {
        '1'
    } else if d == 2 {
        '2'
    } else if d == 3 {
        '3'
    } else if d == 4 {
        '4'
    } else if d == 5 {
        '5'
    } else if d == 6 {
        '6'
    } else if d == 7 {
        '7'
    } else if d == 8 {
        '8'
    } else {
        '9'
    }
}

/// The decimal digits of a non-negative number, most significant first.
pub open spec fn dec_nat_spec(n: int) -> Seq<char>
    decreases n,
    when n >= 0
{
    if n < 10 {
        seq![digit_char(n)]
    } else {
        dec_nat_spec(n / 10).push(digit_char(n % 10))
    }
}

/// The decimal spelling of an integer, with a leading minus sign where it is
/// negative.
pub open spec fn dec_int_spec(n: int) -> Seq<char> {
    if n < 0 {
        seq!['-'] + dec_nat_spec(-n)
    } else {
        dec_nat_spec(n)
    }
}

fn push_digit(out: &mut String, d: u64)
    requires
        d < 10,
    ensures
        final(out)@ == old(out)@ + seq![digit_char(d as int)],
{
    proof {
        reveal_strlit("0");
        reveal_strlit("1");
        reveal_strlit("2");
        reveal_strlit("3");
        reveal_strlit("4");
        reveal_strlit("5");
        reveal_strlit("6");
        reveal_strlit("7");
        reveal_strlit("8");
        reveal_strlit("9");
    }
    match d {
        0 => out.append("0"),
        1 => out.append("1"),
        2 => out.append("2"),
        3 => out.append("3"),
        4 => out.append("4"),
        5 => out.append("5"),
        6 => out.append("6"),
        7 => out.append("7"),
        8 => out.append("8"),
        _ => out.append("9"),
    }
}

fn push_dec_u64(out: &mut String, n: u64)
    ensures
        final(out)@ == old(out)@ + dec_nat_spec(n as int),
    decreases n,
{
    if n < 10 {
        push_digit(out, n);
    } else {
        let ghost mid = old(out)@ + dec_nat_spec(n as int / 10);
        push_dec_u64(out, n / 10);
        push_digit(out, n % 10);
        proof {
            assert(n as int / 10 == (n / 10) as int);
            assert(final(out)@ =~= old(out)@ + dec_nat_spec(n as int));
        }
    }
}

/// The decimal spelling of a signed 32-bit number.
pub fn i32_dec_string(n: i32) -> (r: String)
    ensures
        r@ == dec_int_spec(n as int),
{
    let mut out = String::new();
    if n < 0 {
        out.append("-");
        let m: u64 = (-(n as i64)) as u64;
        proof {
            reveal_strlit("-");
            assert(m as int == -(n as int));
        }
        push_dec_u64(&mut out, m);
        proof {
            assert(out@ =~= dec_int_spec(n as int));
        }
    } else {
        push_dec_u64(&mut out, n as u64);
    }
    out
}

/// The diagnostic for a renderer that could not be spawned or written to.
pub open spec fn spawn_diag_spec(cause: Seq<char>) -> Seq<char> {
    "failed to launch plantuml, not rendering plantuml block: "@ + cause
}

/// The text standing for an exit code: its decimal value, or a word where
/// the process left none.
pub open spec fn exit_code_text(code: Option<i32>) -> Seq<char> {
    match code {
        Some(c) => dec_int_spec(c as int),
        None => "unknown"@,
    }
}

/// The diagnostic for a renderer that exited with a failure status, carrying
/// both captured streams.
pub open spec fn exit_diag_spec(code: Option<i32>, out: Seq<char>, err: Seq<char>) -> Seq<char> {
    "plantuml failed, exit code: "@ + exit_code_text(code) + "\nplantuml STDOUT:\n"@ + out
        + "\nplantuml STDERR:\n"@ + err + "\n/plantuml output"@
}

/// The diagnostic for renderer output that is not valid text.
pub open spec fn invalid_output_diag_spec() -> Seq<char> {
    "plantuml produced invalid UTF-8 output, not rendering plantuml block"@
}

/// The diagnostic owed for a render outcome: none for a success whose output
/// decodes, one line otherwise.
pub open spec fn diagnostic_spec(o: OutcomeModel) -> Option<Seq<char>> {
    match o {
        OutcomeModel::Success(bytes) => match utf8_decode(bytes) {
            Some(_) => None,
            None => Some(invalid_output_diag_spec()),
        },
        OutcomeModel::SpawnFailed(cause) => Some(spawn_diag_spec(cause)),
        OutcomeModel::ExitFailed { code, stdout, stderr } => (Some(
            exit_diag_spec(code, stdout, stderr),
        )),
    }
}

/// The human-readable side-channel message for one render outcome: present
/// exactly where the block was dropped, never for a rendered block.
pub fn diagnostic_for(o: &RenderOutcome) -> (r: Option<String>)
    ensures
        r is Some <==> diagnostic_spec(o.deep_view()) is Some,
        r matches Some(s) ==> diagnostic_spec(o.deep_view()) == Some(s@),
{
    match o {
        RenderOutcome::Success(bytes) => match utf8_to_string(bytes) {
            Some(_) => None,
            None => Some("plantuml produced invalid UTF-8 output, not rendering plantuml block".to_owned()),
        },
        RenderOutcome::SpawnFailed(cause) => {
            let mut m: String = "failed to launch plantuml, not rendering plantuml block: ".to_owned();
            m.append(cause.as_str());
            Some(m)
        },
        RenderOutcome::ExitFailed { code, stdout, stderr } => {
            let mut m: String = "plantuml failed, exit code: ".to_owned();
            match code {
                Some(c) => {
                    let digits = i32_dec_string(*c);
                    m.append(digits.as_str());
                },
                None => {
                    m.append("unknown");
                },
            }
            m.append("\nplantuml STDOUT:\n");
            m.append(stdout.as_str());
            m.append("\nplantuml STDERR:\n");
            m.append(stderr.as_str());
            m.append("\n/plantuml output");
            proof {
                assert(m@ =~= exit_diag_spec(*code, stdout@, stderr@));
            }
            Some(m)
        },
    }
}

} // verus!
