//! The choices a command line offers, and what each one selects.

use vstd::prelude::*;

use crate::report::{ReportFormat, ReportPeriod};
use crate::task::TaskStatus;

verus! {

/// Which tasks `list` shows.
#[derive(Debug, Clone, Copy, PartialEq, Eq, Structural)]
pub enum ListStatus {
    Open,
    Done,
    All,
}

/// The period named on the `report` command line.
#[derive(Debug, Clone, Copy, PartialEq, Eq, Structural)]
pub enum ReportPeriodArg {
    Today,
    Week,
    Month,
    All,
}

/// The format named on the `report` command line.
#[derive(Debug, Clone, Copy, PartialEq, Eq, Structural)]
pub enum ReportFormatArg {
    Text,
    Md,
}

/// The status filter a `list` choice stands for: none for `All`.
pub fn status_filter(status: ListStatus) -> (r: Option<TaskStatus>)
    ensures
        status == ListStatus::Open ==> r == Some(TaskStatus::Open),
        status == ListStatus::Done ==> r == Some(TaskStatus::Done),
        status == ListStatus::All ==> r is None,
{
    match status {
        ListStatus::Open => Some(TaskStatus::Open),
        ListStatus::Done => Some(TaskStatus::Done),
        ListStatus::All => None,
    }
}

/// The report period a command-line period stands for.
pub fn report_period(period: ReportPeriodArg) -> (r: ReportPeriod)
    ensures
        period == ReportPeriodArg::Today ==> r == ReportPeriod::Today,
        period == ReportPeriodArg::Week ==> r == ReportPeriod::Week,
        period == ReportPeriodArg::Month ==> r == ReportPeriod::Month,
        period == ReportPeriodArg::All ==> r == ReportPeriod::All,
{
    match period {
        ReportPeriodArg::Today => ReportPeriod::Today,
        ReportPeriodArg::Week => ReportPeriod::Week,
        ReportPeriodArg::Month => ReportPeriod::Month,
        ReportPeriodArg::All => ReportPeriod::All,
    }
}

/// The report format a command-line format stands for.
pub fn report_format(format: ReportFormatArg) -> (r: ReportFormat)
    ensures
        format == ReportFormatArg::Text ==> r == ReportFormat::Text,
        format == ReportFormatArg::Md ==> r == ReportFormat::Markdown,
{
    match format {
        ReportFormatArg::Text => ReportFormat::Text,
        ReportFormatArg::Md => ReportFormat::Markdown,
    }
}

} // verus!
