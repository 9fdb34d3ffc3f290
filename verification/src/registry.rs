//! The report header registry: what a request that names a report by its
//! external identifier asks of the report collaborators.

use crate::error::QueueError;
use crate::report::{parse_report_id, parse_queued_report_id, QueueClass, ReportClass, ReportEvent};
use vstd::prelude::*;

verus! {

/// What is to be done with a report.
#[derive(Debug, Clone, Copy, PartialEq, Eq, Structural)]
pub enum ReportOp {
    /// Assemble the report of a header.
    Locate,
    /// Delete a header with what belongs to it.
    Delete,
}

/// A call on a report collaborator. DMARC reports are handled one header
/// at a time; TLS reports take a batch of headers.
#[derive(Debug, PartialEq, Eq)]
pub enum ReportCall {
    GenerateDmarc(ReportEvent),
    GenerateTls(Vec<ReportEvent>),
    DeleteDmarc(ReportEvent),
    DeleteTls(Vec<ReportEvent>),
}

/// `call` is the kind of call that `op` on a report of class `class` asks
/// for.
pub open spec fn asks_for(op: ReportOp, class: ReportClass, call: ReportCall) -> bool {
    match (op, class) {
        (ReportOp::Locate, ReportClass::Dmarc) => call is GenerateDmarc,
        (ReportOp::Locate, ReportClass::Tls) => call is GenerateTls,
        (ReportOp::Delete, ReportClass::Dmarc) => call is DeleteDmarc,
        (ReportOp::Delete, ReportClass::Tls) => call is DeleteTls,
    }
}

impl ReportCall {
    /// The headers that the call is about.
    pub open spec fn headers(self) -> Seq<ReportEvent> {
        match self {
            ReportCall::GenerateDmarc(e) => seq![e],
            ReportCall::DeleteDmarc(e) => seq![e],
            ReportCall::GenerateTls(es) => es@,
            ReportCall::DeleteTls(es) => es@,
        }
    }
}

/// Turns a request on the report with the external identifier `id` into
/// the call to make. A text that is no identifier is refused as bad
/// input and asks for nothing.
pub fn request(op: ReportOp, id: &str) -> (r: Result<ReportCall, QueueError>)
    ensures
        match parse_report_id(id@) {
            Some(named) => r matches Ok(call) && asks_for(op, named.0, call)
                && call.headers().len() == 1 && call.headers()[0]@ == named.1,
            None => r == Err::<ReportCall, QueueError>(QueueError::BadInput),
        },
{
    match parse_queued_report_id(id) {
        Some(QueueClass::DmarcReportHeader(event)) => Ok(
            match op {
                ReportOp::Locate => ReportCall::GenerateDmarc(event),
                ReportOp::Delete => ReportCall::DeleteDmarc(event),
            },
        ),
        Some(QueueClass::TlsReportHeader(event)) => {
            let mut batch: Vec<ReportEvent> = Vec::new();
            batch.push(event);
            Ok(
                match op {
                    ReportOp::Locate => ReportCall::GenerateTls(batch),
                    ReportOp::Delete => ReportCall::DeleteTls(batch),
                },
            )
        },
        _ => Err(QueueError::BadInput),
    }
}

/// What the caller gets of an assembled report: the report where the
/// collaborator found entries, `NotFound` where none remain, and
/// `StorageTransient` where the collaborator failed.
pub fn located<R, E>(generated: Result<Option<R>, E>) -> (r: Result<R, QueueError>)
    ensures
        match generated {
            Ok(Some(report)) => r == Ok::<R, QueueError>(report),
            Ok(None) => r == Err::<R, QueueError>(QueueError::NotFound),
            Err(_) => r == Err::<R, QueueError>(QueueError::StorageTransient),
        },
{
    match generated {
        Ok(Some(report)) => Ok(report),
        Ok(None) => Err(QueueError::NotFound),
        Err(_) => Err(QueueError::StorageTransient),
    }
}

} // verus!
