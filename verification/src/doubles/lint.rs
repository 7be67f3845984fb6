//! The `llmlint` stand-in: what each run writes and how it ends, as its environment
//! scripts it.

use crate::text::{
    opt_str, parse_i32, pieces, same, signed_value, split, stands_at, starts_with, texts, trim,
    trimmed,
};
use vstd::prelude::*;
use vstd::string::*;

verus! {

/// The report of a failing run: the failing rules with their places, then the
/// summary line.
pub const FAILING_REPORT: &'static str =
    "FAIL  scripts_are_quiet_on_success\n  scripts/release-probe.sh:12: prints a banner on every successful run\n  rationale: a script that succeeds should print one line or nothing\n1 failed, 3 passed, 0 skipped, 0 not relevant\n";

/// The report of a clean run.
pub const CLEAN_REPORT: &'static str = "0 failed, 4 passed, 0 skipped, 0 not relevant\n";

/// What a run that could not complete, for want of `harness`, writes to stderr.
pub open spec fn incomplete(harness: Seq<char>) -> Seq<char> {
    "error: could not resolve harness `"@ + harness + "`: not installed\n"@
}

/// How many `lint` runs are on record.
pub open spec fn lint_runs(lines: Seq<Seq<char>>) -> nat
    decreases lines.len(),
{
    if lines.len() == 0 {
        0
    } else {
        lint_runs(lines.drop_last()) + if stands_at(lines.last(), "[\"lint\""@, 0) {
            1nat
        } else {
            0nat
        }
    }
}

/// How many `lint` runs a record holds.
pub fn count_runs(recorded: &str) -> (n: usize)
    ensures
        n == lint_runs(pieces(recorded@, '\n')),
{
    let lines = split(recorded, '\n');
    let ghost all = texts(lines@);
    let mut n: usize = 0;
    let mut i: usize = 0;
    proof {
        assert(all.take(0) =~= Seq::empty());
    }
    while i < lines.len()
        invariant
            i <= lines@.len(),
            n <= i,
            all == texts(lines@),
            n == lint_runs(all.take(i as int)),
        decreases lines@.len() - i,
    {
        proof {
            assert(all.take(i + 1).last() == lines@[i as int]@);
            assert(all.take(i + 1).drop_last() =~= all.take(i as int));
        }
        if starts_with(lines[i].as_str(), "[\"lint\"") {
            n = n + 1;
        }
        i = i + 1;
    }
    proof {
        assert(all.take(i as int) =~= all);
    }
    n
}

/// The outcome a script gives the run that follows `earlier` others: outcomes come
/// in order, the last one repeating; an absent or empty script is one clean run.
pub open spec fn outcome_at(script: Option<Seq<char>>, earlier: nat) -> Seq<char> {
    let outcomes = pieces(
        match script {
            Some(script) => if script.len() == 0 {
                "0"@
            } else {
                script
            },
            None => "0"@,
        },
        ',',
    );
    if outcomes.len() == 0 {
        "0"@
    } else if earlier < outcomes.len() {
        trimmed(outcomes[earlier as int])
    } else {
        trimmed(outcomes.last())
    }
}

/// The outcome of the run that follows `earlier` others.
pub fn outcome(script: Option<&str>, earlier: usize) -> (r: String)
    ensures
        r@ == outcome_at(opt_str(script), earlier as nat),
{
    let script = match script {
        Some(script) => if script.is_empty() {
            "0"
        } else {
            script
        },
        None => "0",
    };
    let outcomes = split(script, ',');
    proof {
        assert(texts(outcomes@).len() == outcomes@.len());
    }
    if outcomes.len() == 0 {
        return "0".to_owned();
    }
    let at: usize = if earlier < outcomes.len() {
        earlier
    } else {
        outcomes.len() - 1
    };
    trim(outcomes[at].as_str()).to_owned()
}

/// What a run writes, and how it ends.
#[derive(Debug, Clone, PartialEq, Eq)]
pub struct Played {
    /// What it writes to stdout.
    pub stdout: String,
    /// What it writes to stderr.
    pub stderr: String,
    /// Its exit code; `None` for a death by signal.
    pub code: Option<i32>,
}

/// The exit code of an outcome.
pub open spec fn code_of(outcome: Seq<char>) -> Option<i32> {
    if outcome == "signal"@ {
        None
    } else {
        match signed_value(outcome) {
            Some(n) if i32::MIN <= n <= i32::MAX => Some(n as i32),
            _ => Some(2),
        }
    }
}

/// Play an outcome. What the script says of stdout and stderr takes the place of the
/// canned texts; `none` writes nothing to stdout.
pub fn play(
    outcome: &str,
    harness: &str,
    stdout: Option<&str>,
    stderr: Option<&str>,
) -> (r: Played)
    ensures
        r.stdout@ == match opt_str(stdout) {
            Some(text) => if text == "none"@ {
                Seq::empty()
            } else {
                text
            },
            None => if outcome@ == "0"@ {
                CLEAN_REPORT@
            } else if outcome@ == "1"@ {
                FAILING_REPORT@
            } else {
                Seq::empty()
            },
        },
        r.stderr@ == match opt_str(stderr) {
            Some(text) => text,
            None => if outcome@ == "0"@ || outcome@ == "1"@ {
                Seq::empty()
            } else {
                incomplete(harness@)
            },
        },
        r.code == code_of(outcome@),
{
    let clean = same(outcome, "0");
    let failing = same(outcome, "1");
    let out = match stdout {
        Some(text) => if same(text, "none") {
            String::new()
        } else {
            text.to_owned()
        },
        None => if clean {
            CLEAN_REPORT.to_owned()
        } else if failing {
            FAILING_REPORT.to_owned()
        } else {
            String::new()
        },
    };
    let err = match stderr {
        Some(text) => text.to_owned(),
        None => if clean || failing {
            String::new()
        } else {
            let mut text = "error: could not resolve harness `".to_owned();
            text.append(harness);
            text.append("`: not installed\n");
            text
        },
    };
    let code = if same(outcome, "signal") {
        None
    } else {
        match parse_i32(outcome) {
            Some(code) => Some(code),
            None => Some(2),
        }
    };
    Played { stdout: out, stderr: err, code }
}

/// **A played outcome is the one named**: zero is a clean run, one a failing one, another
/// number that exit code, a signal no code at all; and what is said of the output takes its
/// place.
pub proof fn lemma_a_played_outcome_is_the_one_named(
    outcome: &str,
    harness: &str,
    stdout: Option<&str>,
    stderr: Option<&str>,
    code: Option<i32>,
    r: Played,
)
    requires
        call_ensures(play, (outcome, harness, stdout, stderr), r),
        call_ensures(parse_i32, (outcome,), code),
    ensures
        outcome@ == "signal"@ ==> r.code is None,
        outcome@ != "signal"@ && code is Some ==> r.code == code,
        outcome@ != "signal"@ && code is None ==> r.code == Some(2i32),
        stdout is Some && stdout->0@ != "none"@ ==> r.stdout@ == stdout->0@,
        stdout is Some && stdout->0@ == "none"@ ==> r.stdout@.len() == 0,
        stderr is Some ==> r.stderr@ == stderr->0@,
        stdout is None && outcome@ == "0"@ ==> r.stdout@ == CLEAN_REPORT@,
        stdout is None && outcome@ == "1"@ ==> r.stdout@ == FAILING_REPORT@,
        stderr is None && (outcome@ == "0"@ || outcome@ == "1"@) ==> r.stderr@.len() == 0,
        stderr is None && outcome@ != "0"@ && outcome@ != "1"@ ==> crate::text::has(
            r.stderr@,
            harness@,
        ),
{
    reveal_strlit("0");
    reveal_strlit("1");
    assert("0"@.len() == 1 && "0"@[0] == '0' && "1"@.len() == 1 && "1"@[0] == '1');
    crate::text::lemma_has_between(
        "error: could not resolve harness `"@,
        harness@,
        "`: not installed\n"@,
    );
}

/// **A script plays its outcomes in their order, and the last one ever after**.
pub proof fn lemma_a_script_plays_its_outcomes_in_order(
    script: &str,
    outcomes: Vec<String>,
    earlier: usize,
    r: String,
    unscripted: String,
)
    requires
        call_ensures(outcome, (Some(script), earlier), r),
        call_ensures(outcome, (None::<&str>, earlier), unscripted),
        script@.len() > 0,
        call_ensures(split, (script, ','), outcomes),
        outcomes@.len() > 0,
    ensures
        earlier < outcomes@.len() ==> r@ == trimmed(outcomes@[earlier as int]@),
        earlier >= outcomes@.len() ==> r@ == trimmed(outcomes@.last()@),
        unscripted@ == "0"@,
{
    let all = texts(outcomes@);
    assert(all.len() == outcomes@.len());
    if earlier < outcomes@.len() {
        assert(all[earlier as int] == outcomes@[earlier as int]@);
    }
    lemma_the_unscripted_outcome();
}

proof fn lemma_the_unscripted_outcome()
    ensures
        pieces("0"@, ',') == seq!["0"@],
        trimmed("0"@) == "0"@,
{
    reveal_strlit("0");
    let s = "0"@;
    let none = Seq::<char>::empty();
    assert(s.drop_last() =~= none);
    assert(pieces(none, ',') == seq![none]);
    assert(none.push('0') =~= s);
    assert(seq![none].drop_last().push(s) =~= seq![s]);
    assert(pieces(s, ',') =~= seq![s]);
}

} // verus!
