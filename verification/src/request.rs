//! Submission: what is sent to the tracker to create an issue, and what the
//! tracker's reply means. Sending is left to the caller.

use crate::issue::{Issue, IssueView};
use crate::text::{decimal, push_decimal};
use vstd::prelude::*;
use vstd::string::*;

verus! {

/// The address at which the issues of the repository `remote` are created.
pub open spec fn endpoint(remote: Seq<char>) -> Seq<char> {
    "https://api.github.com/repos/"@ + remote + "/issues"@
}

/// The value of the `Authorization` header for the credential `token`.
pub open spec fn authorization(token: Seq<char>) -> Seq<char> {
    "token "@ + token
}

/// The payload that creates `issue`: its title and its body, each under its key.
pub open spec fn payload(issue: IssueView) -> Seq<(Seq<char>, Seq<char>)> {
    seq![("title"@, issue.title), ("body"@, issue.body)]
}

/// The views of a sequence of pairs of texts.
pub open spec fn pair_views(pairs: Seq<(String, String)>) -> Seq<(Seq<char>, Seq<char>)> {
    pairs.map_values(|pair: (String, String)| (pair.0@, pair.1@))
}

/// The status is one of success.
pub open spec fn is_success(status: u16) -> bool {
    200 <= status <= 299
}

/// The cause that is given for a status that is none of success.
pub open spec fn status_cause(status: u16) -> Seq<char> {
    "unexpected status "@ + decimal(status as nat)
}

/// What the user is told of an issue that was created.
pub open spec fn success_text(title: Seq<char>) -> Seq<char> {
    "Successfully created issue with title: "@ + title
}

/// What the user is told of a submission that failed.
pub open spec fn failure_text(title: Seq<char>, cause: Seq<char>) -> Seq<char> {
    "Failed to open issue "@ + title + ". Received error "@ + cause
}

/// A request to create an issue, ready to be sent with the `POST` method.
pub struct Submission {
    /// Where to send it.
    pub url: String,
    /// The value of the `Authorization` header.
    pub authorization: String,
    /// The keys and values of the JSON object that is the body.
    pub payload: Vec<(String, String)>,
}

/// How a submission ended.
pub enum Reply {
    /// The tracker answered with this status.
    Status(u16),
    /// No usable answer came; the text says why.
    Failed(String),
}

/// A submission that failed: the title of the issue and the cause.
pub struct SubmissionError {
    pub title: String,
    pub cause: String,
}

impl SubmissionError {
    /// What the user is told of this failure.
    pub fn to_string(&self) -> (text: String)
        ensures
            text@ == failure_text(self.title@, self.cause@),
    {
        let mut text = String::from_str("Failed to open issue ");
        text.append(self.title.as_str());
        text.append(". Received error ");
        text.append(self.cause.as_str());
        text
    }
}

/// What the user is told once `issue` was created.
pub fn success_message(issue: &Issue) -> (text: String)
    ensures
        text@ == success_text(issue@.title),
{
    let mut text = String::from_str("Successfully created issue with title: ");
    text.append(issue.get_title());
    text
}

/// The tracker's side of a run: the repository that issues are filed in and
/// the credential to file them with.
pub struct Request {
    remote: String,
    token: String,
}

impl Request {
    /// The repository, as owner and name.
    pub closed spec fn remote(&self) -> Seq<char> {
        self.remote@
    }

    /// The credential.
    pub closed spec fn token(&self) -> Seq<char> {
        self.token@
    }

    /// Files issues in the repository `remote` with the credential `token`.
    pub fn new(remote: String, token: String) -> (request: Request)
        ensures
            request.remote() == remote@,
            request.token() == token@,
    {
        Request { remote, token }
    }

    /// The request that creates `issue`.
    pub fn open_issue(&self, issue: &Issue) -> (submission: Submission)
        ensures
            submission.url@ == endpoint(self.remote()),
            submission.authorization@ == authorization(self.token()),
            pair_views(submission.payload@) == payload(issue@),
    {
        let mut url = String::from_str("https://api.github.com/repos/");
        url.append(self.remote.as_str());
        url.append("/issues");
        let mut header = String::from_str("token ");
        header.append(self.token.as_str());
        let mut pairs: Vec<(String, String)> = Vec::new();
        pairs.push((String::from_str("title"), issue.get_title().to_owned()));
        pairs.push((String::from_str("body"), issue.get_body().to_owned()));
        assert(pair_views(pairs@) =~= payload(issue@));
        Submission { url, authorization: header, payload: pairs }
    }

    /// What `reply` means for the submission of `issue`: success on a status
    /// of success, and on anything else an error that names the issue and the
    /// cause.
    pub fn settle(issue: &Issue, reply: Reply) -> (outcome: Result<(), SubmissionError>)
        ensures
            match reply {
                Reply::Status(status) => if is_success(status) {
                    outcome is Ok
                } else {
                    outcome matches Err(e) && e.title@ == issue@.title && e.cause@ == status_cause(
                        status,
                    )
                },
                Reply::Failed(cause) => outcome matches Err(e) && e.title@ == issue@.title
                    && e.cause@ == cause@,
            },
    {
        match reply {
            Reply::Status(status) => {
                if 200 <= status && status <= 299 {
                    Ok(())
                } else {
                    let mut cause = String::from_str("unexpected status ");
                    push_decimal(&mut cause, status as usize);
                    Err(SubmissionError { title: issue.get_title().to_owned(), cause })
                }
            },
            Reply::Failed(cause) => Err(
                SubmissionError { title: issue.get_title().to_owned(), cause },
            ),
        }
    }
}

} // verus!
