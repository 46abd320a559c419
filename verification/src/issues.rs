//! Accumulating field-level problem lists for the manifest validators.

use vstd::prelude::*;
use crate::text::{only_if, owned};

verus! {

/// A field path and what is wrong with it.
pub type IssueText = (Seq<char>, Seq<char>);

/// One accumulated problem before it becomes a validator's public error type.
pub struct Issue {
    pub path: String,
    pub message: String,
}

impl View for Issue {
    type V = IssueText;

    open spec fn view(&self) -> IssueText {
        (self.path@, self.message@)
    }
}

#[verifier::opaque]
pub open spec fn issue_texts(issues: Seq<Issue>) -> Seq<IssueText> {
    issues.map_values(|e: Issue| e@)
}

pub proof fn lemma_issue_texts_len(issues: Seq<Issue>)
    ensures
        issue_texts(issues).len() == issues.len(),
{
    reveal(issue_texts);
}

pub proof fn lemma_issue_texts_index(issues: Seq<Issue>, i: int)
    requires
        0 <= i < issues.len(),
    ensures
        issue_texts(issues)[i] == issues[i]@,
        issue_texts(issues).len() == issues.len(),
{
    reveal(issue_texts);
}

/// Append `(path, message)` when `flag` holds.
pub fn push_issue(issues: &mut Vec<Issue>, flag: bool, path: String, message: String) -> (r: Ghost<
    Seq<IssueText>,
>)
    ensures
        r@ == only_if(flag, (path@, message@)),
        issue_texts(final(issues)@) == issue_texts(old(issues)@) + r@,
{
    let ghost before = issues@;
    let ghost item = (path@, message@);
    reveal(issue_texts);
    if flag {
        issues.push(Issue { path, message });
        assert(issue_texts(issues@) =~= issue_texts(before) + seq![item]);
    } else {
        assert(issue_texts(issues@) =~= issue_texts(before) + Seq::empty());
    }
    Ghost(only_if(flag, item))
}

/// Append `(path, message)` when `flag` holds, extending a running account `acc`
/// of what was appended since `start`.
pub fn push_step(
    issues: &mut Vec<Issue>,
    flag: bool,
    path: String,
    message: String,
    Ghost(start): Ghost<Seq<IssueText>>,
    acc: Ghost<Seq<IssueText>>,
) -> (r: Ghost<Seq<IssueText>>)
    requires
        issue_texts(old(issues)@) == start + acc@,
    ensures
        r@ == acc@ + only_if(flag, (path@, message@)),
        issue_texts(final(issues)@) == start + r@,
{
    let ghost item = (path@, message@);
    push_issue(issues, flag, path, message);
    proof {
        vstd::seq_lib::lemma_concat_associative(start, acc@, only_if(flag, item));
    }
    Ghost(acc@ + only_if(flag, item))
}

/// A static text as an owned message.
pub fn msg(s: &str) -> (r: String)
    ensures
        r@ == s@,
{
    owned(s)
}

} // verus!
