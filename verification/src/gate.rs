//! The command that says a project is fit to commit: what a run of it came
//! to, and the line the record keeps of it. Running it is the program's
//! work.
use vstd::prelude::*;
use crate::text::{append, append_str, chars_of, decimal, push_decimal, push_signed, signed_decimal, starts_with, text_of};

verus! {

/// What a gate run came to.
pub struct Run {
    /// What the shell exited with; `None` when it was killed by a signal.
    pub code: Option<i32>,
    pub seconds: u64,
}

/// A time said the way a person would.
pub open spec fn duration_text(seconds: nat) -> Seq<char> {
    if seconds == 0 {
        "under a second"@
    } else if seconds == 1 {
        "1 second"@
    } else if seconds < 60 {
        decimal(seconds) + " seconds"@
    } else {
        let m = seconds / 60;
        let r = seconds % 60;
        if m == 1 && r == 0 {
            "1 minute"@
        } else if r == 0 {
            decimal(m) + " minutes"@
        } else if m == 1 {
            "1 minute "@ + decimal(r) + "s"@
        } else {
            decimal(m) + " minutes "@ + decimal(r) + "s"@
        }
    }
}

/// The line the record keeps of a run: the verdict, the time, the command.
pub open spec fn run_text(code: Option<i32>, seconds: nat, command: Seq<char>) -> Seq<char> {
    let verdict = match code {
        Some(c) => if c == 0 {
            "green"@
        } else {
            "red (exit "@ + signed_decimal(c as int) + ")"@
        },
        None => "red (stopped before it finished)"@,
    };
    verdict + " in "@ + duration_text(seconds) + ": "@ + command
}

impl Run {
    pub fn passed(&self) -> (r: bool)
        ensures
            r == (self.code == Some(0i32)),
    {
        match self.code {
            Some(c) => c == 0,
            None => false,
        }
    }

    /// The line the record keeps: the verdict, the time it took, and the
    /// command.
    pub fn event_body(&self, command: &str) -> (r: String)
        ensures
            r@ == run_text(self.code, self.seconds as nat, command@),
    {
        let mut out: Vec<char> = Vec::new();
        match self.code {
            Some(c) => {
                if c == 0 {
                    append_str(&mut out, "green");
                } else {
                    append_str(&mut out, "red (exit ");
                    push_signed(&mut out, c as i64);
                    append_str(&mut out, ")");
                }
            },
            None => append_str(&mut out, "red (stopped before it finished)"),
        }
        append_str(&mut out, " in ");
        let d = duration_chars(self.seconds);
        append(&mut out, &d);
        append_str(&mut out, ": ");
        append_str(&mut out, command);
        text_of(&out)
    }
}

/// Whether a run's line reads as green.
pub fn body_is_green(body: &str) -> (r: bool)
    ensures
        r == starts_with(body@, "green"@),
{
    let s = chars_of(body);
    crate::text::starts_str(&s, "green")
}

/// A line of a green run reads back as green, and one of any other run
/// does not.
pub proof fn law_green_reads_back(code: Option<i32>, seconds: nat, command: Seq<char>)
    ensures
        starts_with(run_text(code, seconds, command), "green"@) <==> code == Some(0i32),
{
    reveal_strlit("green");
    reveal_strlit("red (exit ");
    reveal_strlit("red (stopped before it finished)");
    let t = run_text(code, seconds, command);
    assert(t.take(5)[0] == t[0]);
    if code != Some(0i32) {
        assert(t[0] == 'r');
    } else {
        assert(t.take(5) =~= "green"@);
    }
}

fn duration_chars(seconds: u64) -> (r: Vec<char>)
    ensures
        r@ == duration_text(seconds as nat),
{
    let mut out: Vec<char> = Vec::new();
    if seconds == 0 {
        append_str(&mut out, "under a second");
    } else if seconds == 1 {
        append_str(&mut out, "1 second");
    } else if seconds < 60 {
        push_decimal(&mut out, seconds);
        append_str(&mut out, " seconds");
    } else {
        let m = seconds / 60;
        let r = seconds % 60;
        if m == 1 && r == 0 {
            append_str(&mut out, "1 minute");
        } else if r == 0 {
            push_decimal(&mut out, m);
            append_str(&mut out, " minutes");
        } else if m == 1 {
            append_str(&mut out, "1 minute ");
            push_decimal(&mut out, r);
            append_str(&mut out, "s");
        } else {
            push_decimal(&mut out, m);
            append_str(&mut out, " minutes ");
            push_decimal(&mut out, r);
            append_str(&mut out, "s");
        }
    }
    out
}

/// A time said the way a person would: seconds under a minute, minutes and
/// the seconds left over above it.
pub fn duration(seconds: u64) -> (r: String)
    ensures
        r@ == duration_text(seconds as nat),
{
    let out = duration_chars(seconds);
    text_of(&out)
}

} // verus!
