//! Commit messages as facts: the line writes Conventional Commits, so a
//! commit already says what kind of change it is. Only `feat`, `fix` and
//! anything marked breaking are changes to the product.
use vstd::prelude::*;
use crate::text::{
    all_in, append, append_str, chars_of, chars_of_string, contains, is_lower, is_space, lemma_find_first,
    lemma_find_none, lemma_one_line, lemma_trim_bare, lemma_trimmed_ends, lines, lines_of, lower_all, lower_text,
    occurs_at, opt_chars, split_once, split_once_at, starts_with, strip_suffix, stripped_suffix, text_of, trim, trimmed,
    views, Class,
};

verus! {

/// A commit message that follows the convention.
#[derive(Debug, PartialEq, Eq)]
pub struct Conventional {
    pub kind: String,
    pub scope: Option<String>,
    pub breaking: bool,
    pub summary: String,
}

/// Whether a commit changed the product: breaking, or a `feat` or a `fix`.
pub open spec fn changes_product(c: Conventional) -> bool {
    c.breaking || c.kind@ == "feat"@ || c.kind@ == "fix"@
}

/// The event's text: the summary, with what the convention says about it.
pub open spec fn body_text(c: Conventional) -> Seq<char> {
    (if c.breaking {
        "breaking: "@
    } else {
        Seq::empty()
    }) + c.kind@ + match c.scope {
        Some(s) => "("@ + s@ + ")"@,
        None => Seq::empty(),
    } + ": "@ + c.summary@
}

impl Conventional {
    /// Whether this commit changed the product, rather than the work around
    /// it.
    pub fn is_a_change(&self) -> (r: bool)
        ensures
            r == changes_product(*self),
    {
        let k = chars_of_string(&self.kind);
        self.breaking || crate::text::same_str(&k, "feat") || crate::text::same_str(&k, "fix")
    }

    /// The event's text: the summary, with what the convention says about
    /// it.
    pub fn body(&self) -> (r: String)
        ensures
            r@ == body_text(*self),
    {
        let mut out: Vec<char> = Vec::new();
        if self.breaking {
            append_str(&mut out, "breaking: ");
        }
        append(&mut out, &chars_of_string(&self.kind));
        match &self.scope {
            Some(s) => {
                append_str(&mut out, "(");
                append(&mut out, &chars_of_string(s));
                append_str(&mut out, ")");
            },
            None => {},
        }
        append_str(&mut out, ": ");
        append(&mut out, &chars_of_string(&self.summary));
        proof {
            reveal_strlit("");
        }
        text_of(&out)
    }
}

/// Whether a line after the subject is the footer that marks a break.
pub open spec fn break_footer(l: Seq<char>) -> bool {
    starts_with(l, "BREAKING CHANGE:"@) || starts_with(l, "BREAKING-CHANGE:"@)
}

/// The type, the scope and whether `!` marked a break, from the part of
/// the subject before `": "`: `type`, `type(scope)`, `type!` or
/// `type(scope)!`.
pub open spec fn head_parts(head: Seq<char>) -> Option<(Seq<char>, Option<Seq<char>>, bool)> {
    let (h, marked) = match strip_suffix(head, "!"@) {
        Some(h) => (h, true),
        None => (head, false),
    };
    match split_once(h, "("@) {
        Some((kind, rest)) => match strip_suffix(rest, ")"@) {
            Some(scope) => Some((kind, Some(scope), marked)),
            None => None,
        },
        None => Some((h, None, marked)),
    }
}

/// What a commit message says, when it follows the convention.
pub open spec fn conventional(message: Seq<char>) -> Option<(Seq<char>, Option<Seq<char>>, bool, Seq<char>)> {
    let ls = lines(message);
    if ls.len() == 0 {
        None
    } else {
        match split_once(trim(ls[0]), ": "@) {
            None => None,
            Some((head, rest)) => {
                let summary = trim(rest);
                if summary.len() == 0 {
                    None
                } else {
                    match head_parts(head) {
                        None => None,
                        Some((kind, scope, marked)) => {
                            if kind.len() == 0 || !all_in(kind, Class::Alpha) {
                                None
                            } else if scope matches Some(s) && s.len() == 0 {
                                None
                            } else {
                                let footer = exists|i: int| 1 <= i < ls.len() && break_footer(#[trigger] ls[i]);
                                Some((lower_all(kind), scope, marked || footer, summary))
                            }
                        },
                    }
                }
            },
        }
    }
}

/// Reads the first line of a commit message, and the rest only for the
/// footer that marks a break; `None` for a message that does not follow the
/// convention.
pub fn parse(message: &str) -> (r: Option<Conventional>)
    ensures
        match conventional(message@) {
            Some((kind, scope, breaking, summary)) => r matches Some(c) && c.kind@ == kind && (match c.scope {
                Some(s) => scope == Some(s@),
                None => scope is None,
            }) && c.breaking == breaking && c.summary@ == summary,
            None => r is None,
        },
{
    let s = chars_of(message);
    let ls = lines_of(&s);
    let ghost all = views(ls@);
    if ls.len() == 0 {
        return None;
    }
    assert(all[0] == ls@[0]@);
    let subject = trimmed(&ls[0]);
    let (head, rest) = match split_once_at(&subject, ": ") {
        Some(p) => p,
        None => {
            return None;
        },
    };
    let summary = trimmed(&rest);
    if summary.len() == 0 {
        return None;
    }
    let (h, marked) = match stripped_suffix(&head, "!") {
        Some(h) => (h, true),
        None => (crate::text::slice(&head, 0, head.len()), false),
    };
    assert(head@.subrange(0, head@.len() as int) =~= head@);
    let (kind, scope) = match split_once_at(&h, "(") {
        Some((kind, rest)) => match stripped_suffix(&rest, ")") {
            Some(scope) => (kind, Some(scope)),
            None => {
                return None;
            },
        },
        None => (h, None),
    };
    if kind.len() == 0 || !crate::text::all_of(&kind, Class::Alpha) {
        return None;
    }
    match &scope {
        Some(sc) => {
            if sc.len() == 0 {
                return None;
            }
        },
        None => {},
    }
    let mut footer = false;
    let mut i: usize = 1;
    while i < ls.len()
        invariant
            all == views(ls@),
            1 <= i <= ls.len(),
            footer == exists|j: int| 1 <= j < i && break_footer(#[trigger] all[j]),
        decreases ls.len() - i,
    {
        assert(all[i as int] == ls@[i as int]@);
        if crate::text::starts_str(&ls[i], "BREAKING CHANGE:") || crate::text::starts_str(&ls[i], "BREAKING-CHANGE:") {
            footer = true;
        }
        i = i + 1;
    }
    let low = lower_text(&kind);
    Some(
        Conventional {
            kind: text_of(&low),
            scope: match scope {
                Some(sc) => Some(text_of(&sc)),
                None => None,
            },
            breaking: marked || footer,
            summary: text_of(&summary),
        },
    )
}


/// The commits whose event text reads back as the same commit: not
/// breaking (a breaking text begins `breaking: `, which reads as a type of
/// its own), a type of lower-case ASCII letters, a scope that is not empty
/// and holds neither `": "` nor a line feed, and a summary on one line that
/// trimming leaves as it is.
pub open spec fn reads_back(c: Conventional) -> bool {
    &&& !c.breaking
    &&& c.kind@.len() > 0
    &&& forall|i: int| 0 <= i < c.kind@.len() ==> is_lower(#[trigger] c.kind@[i])
    &&& match c.scope {
        Some(s) => s@.len() > 0 && !contains(s@, ": "@) && forall|i: int| 0 <= i < s@.len() ==> #[trigger] s@[i] != '\n',
        None => true,
    }
    &&& c.summary@.len() > 0
    &&& trim(c.summary@) == c.summary@
    &&& forall|i: int| 0 <= i < c.summary@.len() ==> #[trigger] c.summary@[i] != '\n'
}

/// A commit's event text, read as a commit message, gives the commit back:
/// its type, its scope, that it is not breaking, and its summary.
pub proof fn law_body_reads_back(c: Conventional)
    requires
        reads_back(c),
    ensures
        conventional(body_text(c)) == Some((c.kind@, opt_chars(c.scope), false, c.summary@)),
{
    reveal_strlit("(");
    reveal_strlit(")");
    reveal_strlit(": ");
    reveal_strlit("!");
    let k = c.kind@;
    let sum = c.summary@;
    let mid: Seq<char> = match c.scope {
        Some(s) => "("@ + s@ + ")"@,
        None => Seq::empty(),
    };
    let head = k + mid;
    let m = body_text(c);
    assert(m =~= head + ": "@ + sum);
    let h = head.len() as int;
    assert forall|i: int| 0 <= i < m.len() implies m[i] != '\n' by {
        if i < k.len() {
            assert(m[i] == k[i]);
            assert(is_lower(k[i]));
        } else if i < h {
            assert(m[i] == mid[i - k.len()]);
            if let Some(s) = c.scope {
                if i - k.len() >= 1 && i - k.len() <= s@.len() {
                    assert(mid[i - k.len()] == s@[i - k.len() - 1]);
                }
            }
        } else if i >= h + 2 {
            assert(m[i] == sum[i - h - 2]);
        }
    }
    lemma_one_line(m);
    let ls = lines(m);
    lemma_trimmed_ends(sum);
    assert(m[0] == k[0]);
    assert(is_lower(k[0]));
    assert(m.last() == sum.last());
    lemma_trim_bare(m);
    // The first `": "` is the one after the head.
    assert(m.subrange(h, h + 2) =~= ": "@);
    assert forall|j: int| 0 <= j < h implies !occurs_at(m, ": "@, j) by {
        if occurs_at(m, ": "@, j) {
            assert(m.subrange(j, j + 2)[0] == ':');
            assert(m.subrange(j, j + 2)[1] == ' ');
            assert(m[j] == ':');
            assert(m[j + 1] == ' ');
            if j < k.len() {
                assert(m[j] == k[j]);
                assert(is_lower(k[j]));
            } else if let Some(s) = c.scope {
                if j == k.len() {
                    assert(m[j] == '(');
                } else if j + 1 == h - 1 {
                    assert(m[j + 1] == ')');
                } else {
                    let t = j - k.len() - 1;
                    assert(m[j] == s@[t]);
                    assert(m[j + 1] == s@[t + 1]);
                    assert(s@.subrange(t, t + 2) =~= ": "@);
                    assert(occurs_at(s@, ": "@, t));
                }
            }
        }
    }
    lemma_find_first(m, ": "@, h);
    assert(m.take(h) =~= head);
    assert(m.skip(h + 2) =~= sum);
    assert(split_once(m, ": "@) == Some((head, sum)));
    // No `!` ends the head.
    assert(!crate::text::ends_with(head, "!"@)) by {
        if crate::text::ends_with(head, "!"@) {
            assert(head.skip(head.len() - 1)[0] == head.last());
            if c.scope is None {
                assert(head.last() == k.last());
                assert(is_lower(k[k.len() - 1]));
            } else {
                assert(head.last() == ')');
            }
        }
    }
    match c.scope {
        Some(s) => {
            assert forall|j: int| 0 <= j < k.len() implies !occurs_at(head, "("@, j) by {
                if occurs_at(head, "("@, j) {
                    assert(head.subrange(j, j + 1)[0] == head[j]);
                    assert(head[j] == k[j]);
                    assert(is_lower(k[j]));
                }
            }
            assert(head.subrange(k.len() as int, k.len() as int + 1) =~= "("@);
            lemma_find_first(head, "("@, k.len() as int);
            let rest = head.skip(k.len() as int + 1);
            assert(rest =~= s@ + ")"@);
            assert(head.take(k.len() as int) =~= k);
            assert(crate::text::ends_with(rest, ")"@)) by {
                assert(rest.skip(rest.len() - 1) =~= ")"@);
            }
            assert(rest.take(rest.len() - 1) =~= s@);
        },
        None => {
            assert forall|j: int| !occurs_at(head, "("@, j) by {
                if occurs_at(head, "("@, j) {
                    assert(head.subrange(j, j + 1)[0] == head[j]);
                    assert(head[j] == k[j]);
                    assert(is_lower(k[j]));
                }
            }
            lemma_find_none(head, "("@);
            assert(head =~= k);
        },
    }
    assert(all_in(k, Class::Alpha));
    assert(lower_all(k) =~= k);
    assert(!exists|i: int| 1 <= i < ls.len() && break_footer(#[trigger] ls[i]));
}

} // verus!
