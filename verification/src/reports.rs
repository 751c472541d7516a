use vstd::prelude::*;
use crate::error::{ErrorCode, OperationError, Result, error_code_name, fails_as};
use crate::models::FactorySessionSummary;
use crate::package::PackageSummary;

verus! {

/// A session counts the runs of one package id and firmware version.
pub open spec fn spec_session_matches(summary: FactorySessionSummary, package: PackageSummary) -> bool {
    summary.package_id@ == package.package_id@ && summary.firmware_version@ == package.firmware_version@
}

pub fn session_matches(summary: &FactorySessionSummary, package: &PackageSummary) -> (b: bool)
    ensures
        b == spec_session_matches(*summary, *package),
{
    summary.package_id == package.package_id && summary.firmware_version == package.firmware_version
}

/// A run can be recorded in the open session of its package.
pub fn check_record(session: Option<&FactorySessionSummary>, package: &PackageSummary) -> (r: Result<()>)
    ensures
        match session {
            None => r matches Err(e) && fails_as(
                e,
                (ErrorCode::InvalidState, "Производственная сессия не запущена"@),
            ),
            Some(s) => if spec_session_matches(*s, *package) {
                r is Ok
            } else {
                r matches Err(e) && fails_as(
                    e,
                    (ErrorCode::InvalidState, "Пакет не совпадает с активной производственной сессией"@),
                )
            },
        },
{
    match session {
        None => Err(OperationError::new(ErrorCode::InvalidState, "Производственная сессия не запущена")),
        Some(s) => if session_matches(s, package) {
            Ok(())
        } else {
            Err(
                OperationError::new(
                    ErrorCode::InvalidState,
                    "Пакет не совпадает с активной производственной сессией",
                ),
            )
        },
    }
}

/// The result and error-code columns of a report row: `OK` and nothing,
/// or `ERROR` and the error's code.
pub fn row_result(error: Option<&OperationError>) -> (r: (&'static str, &'static str))
    ensures
        match error {
            None => r.0@ == "OK"@ && r.1@ == ""@,
            Some(e) => r.0@ == "ERROR"@ && r.1@ == error_code_name(e.code),
        },
{
    match error {
        None => ("OK", ""),
        Some(e) => ("ERROR", e.code.as_str()),
    }
}

impl FactorySessionSummary {
    /// A new session for a package, with no runs counted.
    pub fn opened(session_id: String, started_at: String, package: &PackageSummary, report_path: String) -> (s: FactorySessionSummary)
        ensures
            s.session_id == session_id,
            s.started_at == started_at,
            s.package_id@ == package.package_id@,
            s.firmware_version@ == package.firmware_version@,
            s.total == 0,
            s.passed == 0,
            s.failed == 0,
            s.report_path == report_path,
    {
        FactorySessionSummary {
            session_id,
            started_at,
            package_id: package.package_id.clone(),
            firmware_version: package.firmware_version.clone(),
            total: 0,
            passed: 0,
            failed: 0,
            report_path,
        }
    }

    /// Counts one run, passed or failed.
    pub fn count(&mut self, passed: bool)
        requires
            old(self).total < u64::MAX,
            old(self).passed < u64::MAX,
            old(self).failed < u64::MAX,
        ensures
            final(self).total == old(self).total + 1,
            final(self).passed == old(self).passed + (if passed { 1int } else { 0int }),
            final(self).failed == old(self).failed + (if passed { 0int } else { 1int }),
            final(self).session_id == old(self).session_id,
            final(self).started_at == old(self).started_at,
            final(self).package_id == old(self).package_id,
            final(self).firmware_version == old(self).firmware_version,
            final(self).report_path == old(self).report_path,
    {
        self.total = self.total + 1;
        if passed {
            self.passed = self.passed + 1;
        } else {
            self.failed = self.failed + 1;
        }
    }
}

/// Every recorded run is counted once: as passed or as failed.
pub proof fn lemma_counts_add_up(before: FactorySessionSummary, after: FactorySessionSummary, passed: bool)
    requires
        before.total == before.passed + before.failed,
        after.total == before.total + 1,
        after.passed == before.passed + (if passed { 1int } else { 0int }),
        after.failed == before.failed + (if passed { 0int } else { 1int }),
    ensures
        after.total == after.passed + after.failed,
{
}

} // verus!
