//! What is shown of the outcome of a lookup: the exit status and the
//! lines to print.

use vstd::prelude::*;
use crate::resolver::{Outcome, OutcomeView};
use crate::text::{append, clone_texts};

verus! {

/// What the caller is to show of an outcome: the exit status, the lines
/// for the standard output, and a line for the standard error.
#[derive(Debug)]
pub struct Report {
    pub status: u8,
    pub lines: Vec<String>,
    pub diagnostic: Option<String>,
}

/// A `Report` as plain data.
pub struct ReportView {
    pub status: u8,
    pub lines: Seq<Seq<char>>,
    pub diagnostic: Option<Seq<char>>,
}

impl View for Report {
    type V = ReportView;

    open spec fn view(&self) -> ReportView {
        ReportView {
            status: self.status,
            lines: self.lines.deep_view(),
            diagnostic: self.diagnostic.deep_view(),
        }
    }
}

/// The line that says that a new record could not be written.
pub open spec fn save_warning(save_failed: bool) -> Option<Seq<char>> {
    if save_failed {
        Some("cache not written"@)
    } else {
        None
    }
}

/// What is shown of an outcome. A key that stands for nothing gives the
/// status 1 and not a line; a refresh that could not be written the
/// status 2; a directory is one line, the candidates one line each.
pub open spec fn report_spec(outcome: OutcomeView) -> ReportView {
    match outcome {
        OutcomeView::Candidates { candidates, save_failed, .. } => ReportView {
            status: 0,
            lines: candidates,
            diagnostic: save_warning(save_failed),
        },
        OutcomeView::Directory { path, save_failed } => ReportView {
            status: 0,
            lines: seq![path],
            diagnostic: save_warning(save_failed),
        },
        OutcomeView::NotFound => ReportView { status: 1, lines: Seq::empty(), diagnostic: None },
        OutcomeView::Refreshed { message, .. } => ReportView {
            status: 0,
            lines: Seq::empty(),
            diagnostic: Some(message),
        },
        OutcomeView::RefreshFailed { path } => ReportView {
            status: 2,
            lines: Seq::empty(),
            diagnostic: Some("cannot write "@ + path),
        },
    }
}

fn warning(save_failed: bool) -> (r: Option<String>)
    ensures
        r.deep_view() == save_warning(save_failed),
{
    if save_failed {
        Some("cache not written".to_owned())
    } else {
        None
    }
}

impl Outcome {
    /// What the caller is to show of this outcome.
    pub fn report(&self) -> (r: Report)
        ensures
            r@ == report_spec(self@),
    {
        match self {
            Outcome::Candidates { candidates, save_failed, .. } => Report {
                status: 0,
                lines: clone_texts(candidates),
                diagnostic: warning(*save_failed),
            },
            Outcome::Directory { path, save_failed } => {
                let mut lines: Vec<String> = Vec::new();
                lines.push(path.clone());
                assert(lines.deep_view() =~= seq![path@]);
                Report { status: 0, lines, diagnostic: warning(*save_failed) }
            },
            Outcome::NotFound => {
                let lines: Vec<String> = Vec::new();
                assert(lines.deep_view() =~= Seq::<Seq<char>>::empty());
                Report { status: 1, lines, diagnostic: None }
            },
            Outcome::Refreshed { message, .. } => {
                let lines: Vec<String> = Vec::new();
                assert(lines.deep_view() =~= Seq::<Seq<char>>::empty());
                Report { status: 0, lines, diagnostic: Some(message.clone()) }
            },
            Outcome::RefreshFailed { path } => {
                let lines: Vec<String> = Vec::new();
                assert(lines.deep_view() =~= Seq::<Seq<char>>::empty());
                Report {
                    status: 2,
                    lines,
                    diagnostic: Some(append("cannot write ", path.as_str())),
                }
            },
        }
    }
}

} // verus!
