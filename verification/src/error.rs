//! The recoverable errors of configuration resolution and task lookup.

use vstd::prelude::*;

verus! {

/// Why a configuration document was rejected.
///
/// `Syntax` carries the parser's own diagnostic; the remaining variants name
/// the schema rule that the document breaks, carrying the offending task's
/// name where one exists.
#[derive(Debug, Clone, PartialEq)]
pub enum ParseIssue {
    /// The text is not well-formed at all; the payload is the parser's diagnostic.
    Syntax(String),
    /// The document's top level is not a table of keys.
    NotATable,
    /// `env` is present but is not an array of string-to-string tables.
    BadEnv,
    /// `task` is present but is not a table whose entries are tables.
    BadTaskList,
    /// A task table holds the same name twice.
    DuplicateTask(String),
    /// The named task's `command` is not a string.
    BadCommand(String),
    /// The named task's `run-from` is not one of the four location forms.
    BadRunFrom(String),
    /// The named task's `before` or `after` is not an array of strings.
    BadHooks(String),
    /// The named task has an unrecognized field, or both member filters at once,
    /// or a member filter that is not an array of strings.
    BadModifiers(String),
}

/// Spec-level shape of a `ParseIssue`.
pub enum ParseIssueV {
    Syntax(Seq<char>),
    NotATable,
    BadEnv,
    BadTaskList,
    DuplicateTask(Seq<char>),
    BadCommand(Seq<char>),
    BadRunFrom(Seq<char>),
    BadHooks(Seq<char>),
    BadModifiers(Seq<char>),
}

impl View for ParseIssue {
    type V = ParseIssueV;

    open spec fn view(&self) -> ParseIssueV {
        match self {
            ParseIssue::Syntax(d) => ParseIssueV::Syntax(d@),
            ParseIssue::NotATable => ParseIssueV::NotATable,
            ParseIssue::BadEnv => ParseIssueV::BadEnv,
            ParseIssue::BadTaskList => ParseIssueV::BadTaskList,
            ParseIssue::DuplicateTask(t) => ParseIssueV::DuplicateTask(t@),
            ParseIssue::BadCommand(t) => ParseIssueV::BadCommand(t@),
            ParseIssue::BadRunFrom(t) => ParseIssueV::BadRunFrom(t@),
            ParseIssue::BadHooks(t) => ParseIssueV::BadHooks(t@),
            ParseIssue::BadModifiers(t) => ParseIssueV::BadModifiers(t@),
        }
    }
}

/// Every gracefully reported failure of resolution or lookup.
///
/// A task's own command exiting non-zero is not an error: that exit status
/// travels back as an ordinary value.
#[derive(Debug, Clone, PartialEq)]
pub enum DorsError {
    /// A document was present but failed to parse or broke its schema.
    CouldNotParseDorsfile(ParseIssue),
    /// The workspace root was queried and holds no document.
    NoDorsfile,
    /// Neither the queried location nor the workspace root holds a document.
    NoMemberDorsfile,
    /// The resolved document has no task of the given name.
    NoTask(String),
}

/// Spec-level shape of a `DorsError`.
pub enum DorsErrorV {
    CouldNotParseDorsfile(ParseIssueV),
    NoDorsfile,
    NoMemberDorsfile,
    NoTask(Seq<char>),
}

impl View for DorsError {
    type V = DorsErrorV;

    open spec fn view(&self) -> DorsErrorV {
        match self {
            DorsError::CouldNotParseDorsfile(i) => DorsErrorV::CouldNotParseDorsfile(i@),
            DorsError::NoDorsfile => DorsErrorV::NoDorsfile,
            DorsError::NoMemberDorsfile => DorsErrorV::NoMemberDorsfile,
            DorsError::NoTask(t) => DorsErrorV::NoTask(t@),
        }
    }
}

/// The one human-readable line each issue renders as.
pub open spec fn spec_issue_line(i: ParseIssueV) -> Seq<char> {
    match i {
        ParseIssueV::Syntax(d) => d,
        ParseIssueV::NotATable => "the document is not a table"@,
        ParseIssueV::BadEnv => "`env` must be an array of string-to-string tables"@,
        ParseIssueV::BadTaskList => "`task` must be a table of tables"@,
        ParseIssueV::DuplicateTask(t) => "task defined twice: `"@ + t + "`"@,
        ParseIssueV::BadCommand(t) => "`command` must be a string in task `"@ + t + "`"@,
        ParseIssueV::BadRunFrom(t) => "bad `run-from` in task `"@ + t + "`"@,
        ParseIssueV::BadHooks(t) => "`before` and `after` must be arrays of strings in task `"@ + t
            + "`"@,
        ParseIssueV::BadModifiers(t) => "unrecognized field in task `"@ + t + "`"@,
    }
}

/// The one human-readable line each error kind renders as.
pub open spec fn spec_error_line(e: DorsErrorV) -> Seq<char> {
    match e {
        DorsErrorV::CouldNotParseDorsfile(i) => "Could not parse dorsfile: "@ + spec_issue_line(i),
        DorsErrorV::NoDorsfile => "Expected `Dorsfile.toml`"@,
        DorsErrorV::NoMemberDorsfile => "Need `Dorsfile.toml` at either member or workspace root."@,
        DorsErrorV::NoTask(t) => "No task named: `"@ + t + "`"@,
    }
}

impl DorsError {
    /// One human-readable line for this error, as the command line prints it.
    pub fn describe(&self) -> (r: String)
        ensures
            r@ == spec_error_line(self@),
    {
        match self {
            DorsError::CouldNotParseDorsfile(issue) => {
                let mut s = String::from_str("Could not parse dorsfile: ");
                s.append(issue.describe().as_str());
                s
            },
            DorsError::NoDorsfile => String::from_str("Expected `Dorsfile.toml`"),
            DorsError::NoMemberDorsfile => String::from_str(
                "Need `Dorsfile.toml` at either member or workspace root.",
            ),
            DorsError::NoTask(task) => {
                let mut s = String::from_str("No task named: `");
                s.append(task.as_str());
                s.append("`");
                proof {
                    assert(s@ =~= "No task named: `"@ + task@ + "`"@);
                }
                s
            },
        }
    }
}

impl ParseIssue {
    /// One human-readable line for this issue.
    pub fn describe(&self) -> (r: String)
        ensures
            r@ == spec_issue_line(self@),
    {
        match self {
            ParseIssue::Syntax(d) => d.clone(),
            ParseIssue::NotATable => String::from_str("the document is not a table"),
            ParseIssue::BadEnv => String::from_str(
                "`env` must be an array of string-to-string tables",
            ),
            ParseIssue::BadTaskList => String::from_str("`task` must be a table of tables"),
            ParseIssue::DuplicateTask(t) => {
                let mut s = String::from_str("task defined twice: `");
                s.append(t.as_str());
                s.append("`");
                proof {
                    assert(s@ =~= "task defined twice: `"@ + t@ + "`"@);
                }
                s
            },
            ParseIssue::BadCommand(t) => {
                let mut s = String::from_str("`command` must be a string in task `");
                s.append(t.as_str());
                s.append("`");
                proof {
                    assert(s@ =~= "`command` must be a string in task `"@ + t@ + "`"@);
                }
                s
            },
            ParseIssue::BadRunFrom(t) => {
                let mut s = String::from_str("bad `run-from` in task `");
                s.append(t.as_str());
                s.append("`");
                proof {
                    assert(s@ =~= "bad `run-from` in task `"@ + t@ + "`"@);
                }
                s
            },
            ParseIssue::BadHooks(t) => {
                let mut s = String::from_str(
                    "`before` and `after` must be arrays of strings in task `",
                );
                s.append(t.as_str());
                s.append("`");
                proof {
                    assert(s@ =~= "`before` and `after` must be arrays of strings in task `"@ + t@
                        + "`"@);
                }
                s
            },
            ParseIssue::BadModifiers(t) => {
                let mut s = String::from_str("unrecognized field in task `");
                s.append(t.as_str());
                s.append("`");
                proof {
                    assert(s@ =~= "unrecognized field in task `"@ + t@ + "`"@);
                }
                s
            },
        }
    }
}

} // verus!
