//! Issue candidates: a title and a body, and the text form in which a
//! candidate is shown to the user and read back after an edit.

use crate::text::{
    find, first_occurrence, is_trimmed, lemma_first_occurrence, lemma_first_occurrence_is,
    lemma_trim_is_trimmed, lemma_trim_of_trimmed, line_feed, occurs, occurs_at, to_chars, trim,
    trim_bounds,
};
use vstd::prelude::*;
use vstd::string::*;

verus! {

/// What an [`Issue`] holds.
pub struct IssueView {
    pub title: Seq<char>,
    pub body: Seq<char>,
}

/// A candidate for the issue tracker. Its title is never empty.
pub struct Issue {
    title: String,
    body: String,
}

impl View for Issue {
    type V = IssueView;

    closed spec fn view(&self) -> IssueView {
        IssueView { title: self.title@, body: self.body@ }
    }
}

/// The views of a sequence of issues.
pub open spec fn issue_views(issues: Seq<Issue>) -> Seq<IssueView> {
    issues.map_values(|issue: Issue| issue@)
}

/// The text form of an issue: the title on the first line, the body on the
/// lines after it.
pub open spec fn render(issue: IssueView) -> Seq<char> {
    issue.title + line_feed() + issue.body
}

/// Reads the text form back. The first line is the title and what follows
/// it is the body, each without the whitespace around it; neither may be
/// empty.
pub open spec fn parse_issue(text: Seq<char>) -> Option<IssueView> {
    match first_occurrence(text, line_feed()) {
        Some(at) if 0 <= at < text.len() => {
            let title = trim(text.take(at));
            let body = trim(text.skip(at + 1));
            if title.len() > 0 && body.len() > 0 {
                Some(IssueView { title, body })
            } else {
                None
            }
        },
        _ => None,
    }
}

/// An issue that its text form gives back unchanged: title and body stand
/// without whitespace around them, the title on one line, the body not empty.
pub open spec fn survives_edit(issue: IssueView) -> bool {
    &&& issue.title.len() > 0
    &&& issue.body.len() > 0
    &&& is_trimmed(issue.title)
    &&& is_trimmed(issue.body)
    &&& !occurs(issue.title, line_feed())
}

/// Reading the text form of an issue gives the issue back.
pub proof fn lemma_parse_render(issue: IssueView)
    requires
        survives_edit(issue),
    ensures
        parse_issue(render(issue)) == Some(issue),
{
    let text = render(issue);
    let at = issue.title.len() as int;
    assert(text.subrange(at, at + 1) =~= line_feed());
    assert forall|j: int| 0 <= j < at implies !occurs_at(text, line_feed(), j) by {
        if occurs_at(text, line_feed(), j) {
            assert(text.subrange(j, j + 1)[0] == line_feed()[0]);
            assert(issue.title.subrange(j, j + 1) =~= line_feed());
            assert(occurs_at(issue.title, line_feed(), j));
        }
    }
    lemma_first_occurrence_is(text, line_feed(), at);
    assert(text.take(at) =~= issue.title);
    assert(text.skip(at + 1) =~= issue.body);
    lemma_trim_of_trimmed(issue.title);
    lemma_trim_of_trimmed(issue.body);
}

/// Whatever is read back from a text has a title and a body that are not
/// empty and carry no whitespace around them.
pub proof fn lemma_parsed_is_clean(text: Seq<char>)
    requires
        parse_issue(text) is Some,
    ensures
        parse_issue(text)->0.title.len() > 0,
        parse_issue(text)->0.body.len() > 0,
        is_trimmed(parse_issue(text)->0.title),
        is_trimmed(parse_issue(text)->0.body),
{
    let at = first_occurrence(text, line_feed())->0;
    lemma_trim_is_trimmed(text.take(at));
    lemma_trim_is_trimmed(text.skip(at + 1));
}

impl Clone for Issue {
    fn clone(&self) -> (copy: Issue)
        ensures
            copy@ == self@,
    {
        proof {
            use_type_invariant(self);
        }
        Issue { title: self.title.clone(), body: self.body.clone() }
    }
}

impl Issue {
    #[verifier::type_invariant]
    spec fn has_title(self) -> bool {
        self.title@.len() > 0
    }

    /// An issue with the given title and body, unless the title is empty.
    pub fn new(title: String, body: String) -> (made: Option<Issue>)
        ensures
            match made {
                Some(issue) => title@.len() > 0 && issue@ == (IssueView {
                    title: title@,
                    body: body@,
                }),
                None => title@.len() == 0,
            },
    {
        if title.as_str().is_empty() {
            None
        } else {
            Some(Issue { title, body })
        }
    }

    /// The title, which is never empty.
    pub fn get_title(&self) -> (title: &str)
        ensures
            title@ == self@.title,
            title@.len() > 0,
    {
        proof {
            use_type_invariant(self);
        }
        self.title.as_str()
    }

    /// The body.
    pub fn get_body(&self) -> (body: &str)
        ensures
            body@ == self@.body,
    {
        self.body.as_str()
    }

    /// The text form of the issue, as it is shown and handed to an editor.
    pub fn to_string(&self) -> (text: String)
        ensures
            text@ == render(self@),
    {
        proof {
            reveal_strlit("\n");
        }
        let mut text = self.title.clone();
        text.append("\n");
        text.append(self.body.as_str());
        assert("\n"@ =~= line_feed());
        text
    }

    /// Reads an issue back from its text form, as an editor returned it.
    pub fn from_string(input: String) -> (read: Option<Issue>)
        ensures
            match read {
                Some(issue) => parse_issue(input@) == Some(issue@),
                None => parse_issue(input@) is None,
            },
    {
        let text = input.as_str();
        let chars = to_chars(text);
        let feed: Vec<char> = vec!['\n'];
        assert(feed@ =~= line_feed());
        match find(chars.as_slice(), feed.as_slice()) {
            None => None,
            Some(at) => {
                proof {
                    lemma_first_occurrence(chars@, line_feed());
                }
                let (a, b) = trim_bounds(chars.as_slice(), 0, at);
                let (c, d) = trim_bounds(chars.as_slice(), at + 1, chars.len());
                assert(chars@.subrange(0, at as int) =~= input@.take(at as int));
                assert(chars@.subrange(at + 1, chars@.len() as int) =~= input@.skip(at + 1));
                if a < b && c < d {
                    let title = text.substring_char(a, b).to_owned();
                    let body = text.substring_char(c, d).to_owned();
                    Some(Issue { title, body })
                } else {
                    None
                }
            },
        }
    }
}

} // verus!
