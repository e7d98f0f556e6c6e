//! Starting a session with the packet already in it: which assistant, and
//! what its first message says. Launching it is the program's work.
use vstd::prelude::*;
use crate::text::{append_str, chars_of, strings, text_of, views, words, words_of};

verus! {

pub const ASSISTANT_ENV: &'static str = "RIGGER_ASSISTANT";

/// The instruction the packet arrives with, then the packet.
pub open spec fn first_message_text(packet: Seq<char>) -> Seq<char> {
    "This is where the project stands, from rigger. Pick up from the next step; record what you decide or find with `rigger note`, and anything for the owner with `rigger wish`.\n\n"@
        + packet
}

/// The instruction the packet arrives with, so that the assistant treats
/// it as the state of the work rather than as a request to summarise it.
pub fn first_message(packet: &str) -> (r: String)
    ensures
        r@ == first_message_text(packet@),
{
    let mut out: Vec<char> = Vec::new();
    append_str(
        &mut out,
        "This is where the project stands, from rigger. Pick up from the next step; record what you decide or find with `rigger note`, and anything for the owner with `rigger wish`.\n\n",
    );
    append_str(&mut out, packet);
    text_of(&out)
}

/// The assistant's command and arguments: the variable's words, the first
/// the program; the default command when the variable is unset or has no
/// words.
pub open spec fn assistant_words(raw: Option<Seq<char>>, default: Seq<char>) -> (Seq<char>, Seq<Seq<char>>) {
    let ws = words(
        match raw {
            Some(r) => r,
            None => default,
        },
    );
    if ws.len() == 0 {
        (default, Seq::empty())
    } else {
        (ws[0], ws.drop_first())
    }
}

/// The command a session is opened with, and its arguments, from what
/// `RIGGER_ASSISTANT` holds: split on white space, so flags travel with it;
/// `default` when it holds no words.
pub fn assistant_from(raw: Option<&str>, default: &str) -> (r: (String, Vec<String>))
    ensures
        (r.0@, strings(r.1@)) == assistant_words(
            match raw {
                Some(s) => Some(s@),
                None => None,
            },
            default@,
        ),
{
    let s = match raw {
        Some(r) => chars_of(r),
        None => chars_of(default),
    };
    let ws = words_of(&s);
    if ws.len() == 0 {
        return (default.to_owned(), Vec::new());
    }
    let ghost all = views(ws@);
    assert(all[0] == ws@[0]@);
    let mut args: Vec<String> = Vec::new();
    for j in 1..ws.len()
        invariant
            all == views(ws@),
            ws.len() > 0,
            strings(args@) == all.drop_first().take(j - 1),
    {
        let ghost before = strings(args@);
        args.push(text_of(&ws[j]));
        assert(strings(args@) =~= before.push(ws@[j as int]@));
        assert(all.drop_first().take(j as int) =~= all.drop_first().take(j - 1).push(all[j as int]));
    }
    assert(all.drop_first().take(ws.len() - 1) =~= all.drop_first());
    (text_of(&ws[0]), args)
}

/// A project directory that is not there any more.
#[derive(Debug, Clone)]
pub struct NotADirectory {
    pub dir: String,
}

impl NotADirectory {
    pub fn message(&self) -> (r: String)
        ensures
            r@ == self.dir@ + " is not a directory any more; the project moved or was removed"@,
    {
        let mut out = crate::text::chars_of_string(&self.dir);
        append_str(&mut out, " is not a directory any more; the project moved or was removed");
        text_of(&out)
    }
}

/// Checks the directory is there before launching anything, so a stale
/// path in the record is reported as such rather than as a missing
/// assistant; whether it is a directory is the file system's to say.
pub fn check_dir(dir: &str, is_dir: bool) -> (r: Result<(), NotADirectory>)
    ensures
        is_dir ==> r is Ok,
        !is_dir ==> (r matches Err(e) && e.dir@ == dir@),
{
    if is_dir {
        Ok(())
    } else {
        Err(NotADirectory { dir: dir.to_owned() })
    }
}

} // verus!
