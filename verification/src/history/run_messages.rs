//! The words in which a run tells why it stops, which are kept with its job.

use crate::history::runner::{RawHistoryRunError, SourceProblem, SourceReason};
use crate::primitives::BlockRange;
use crate::request::SourceError;
use crate::text::{debug_text, decimal_digits, list_text, range_text, texts};
use crate::text::{push_debug, push_decimal, push_list, push_range};
use crate::xatu::messages::{column_text, tell_column, tell_values, tell_version};
use crate::xatu::messages::{values_text, version_text};
use vstd::prelude::*;

verus! {

/// The ranges, each in words.
pub open spec fn range_texts(ranges: Seq<BlockRange>) -> Seq<Seq<char>> {
    ranges.map_values(|range: BlockRange| range_text(range))
}

fn push_ranges(output: &mut String, ranges: &Vec<BlockRange>)
    ensures
        final(output)@ == old(output)@ + list_text(range_texts(ranges@)),
{
    let mut items: Vec<String> = Vec::new();
    let mut index: usize = 0;
    while index < ranges.len()
        invariant
            index <= ranges@.len(),
            items@.len() == index,
            forall|i: int|
                0 <= i < index ==> (#[trigger] items@[i])@ == range_text(ranges@[i]),
        decreases ranges@.len() - index,
    {
        let mut item: String = String::new();
        push_range(&mut item, ranges[index]);
        assert(item@ =~= range_text(ranges@[index as int]));
        items.push(item);
        index += 1;
    }
    assert(texts(items@) =~= range_texts(ranges@));
    push_list(output, &items);
}

impl SourceError {
    /// Why a source cannot serve, in words. Those around a detail are this
    /// library's choice.
    pub open spec fn spec_message(self) -> Seq<char> {
        match self {
            SourceError::InvalidPlan(detail) => "invalid source plan: "@ + detail@,
            SourceError::InvalidIdentity(words) => {
                "invalid source plan: invalid Xatu chunk identity: "@ + words@
            },
            SourceError::UnsupportedIdentityVersion(version) => {
                "invalid source plan: unsupported Xatu chunk identity version "@
                    + decimal_digits(version as nat)
            },
            SourceError::CorruptFrame(detail) => "corrupt frame: "@ + detail@,
            SourceError::CorruptSegment(error) => "corrupt frame: "@ + error.spec_message(),
            SourceError::CorruptStore(error) => "corrupt frame: "@ + error.spec_message(),
            SourceError::SegmentUnavailable(id) => {
                "source unavailable: unknown or unreadable segment `SegmentId(\""@ + id@ + "\")`"@
            },
            SourceError::MissingRange(range) => "source lacks "@ + range_text(range),
            SourceError::MissingMaterial { gaps, required, available } => {
                "source lacks material in "@ + list_text(range_texts(gaps@)) + ": required "@
                    + decimal_digits(required as nat) + ", available "@
                    + decimal_digits(available as nat)
            },
            SourceError::BudgetExceeded { resource, limit, observed } => {
                "source "@ + resource@ + " budget "@ + decimal_digits(limit as nat)
                    + " exceeded: observed "@ + decimal_digits(observed as nat)
            },
            SourceError::SchemaDrift { expected, observed } => {
                "source schema drift: expected "@ + expected@ + ", observed "@ + observed@
            },
            SourceError::IncompleteRange { range, detail } => {
                "source range "@ + range_text(range) + " is incomplete: "@ + detail@
            },
            SourceError::CorruptRows(problem) => "corrupt frame: "@ + problem.spec_message(),
            SourceError::CorruptColumn { column, data_type } => {
                "corrupt frame: "@ + column_text(column@, data_type@)
            },
            SourceError::CorruptValues { data_type } => {
                "corrupt frame: "@ + values_text(data_type@)
            },
            SourceError::UnsupportedBlockVersion(version) => {
                "corrupt frame: "@ + version_text(version@)
            },
            SourceError::Disconnected(detail) => "source disconnected: "@ + detail@,
            SourceError::Unavailable(detail) => "source unavailable: "@ + detail@,
            SourceError::Protocol(detail) => "source protocol error: "@ + detail@,
            SourceError::Cancelled => "source was cancelled"@,
        }
    }

    /// Tells why a source cannot serve.
    pub fn message(&self) -> (text: String)
        ensures
            text@ == self.spec_message(),
    {
        match self {
            SourceError::InvalidPlan(detail) => {
                let mut text: String = "invalid source plan: ".to_owned();
                text.append(*detail);
                text
            },
            SourceError::InvalidIdentity(words) => {
                let mut text: String =
                    "invalid source plan: invalid Xatu chunk identity: ".to_owned();
                text.append(words.as_str());
                text
            },
            SourceError::UnsupportedIdentityVersion(version) => {
                let mut text: String =
                    "invalid source plan: unsupported Xatu chunk identity version ".to_owned();
                push_decimal(&mut text, *version as u64);
                text
            },
            SourceError::CorruptFrame(detail) => {
                let mut text: String = "corrupt frame: ".to_owned();
                text.append(*detail);
                text
            },
            SourceError::CorruptSegment(error) => {
                let mut text: String = "corrupt frame: ".to_owned();
                text.append(error.message().as_str());
                text
            },
            SourceError::CorruptStore(error) => {
                let mut text: String = "corrupt frame: ".to_owned();
                text.append(error.message().as_str());
                text
            },
            SourceError::SegmentUnavailable(id) => {
                let mut text: String =
                    "source unavailable: unknown or unreadable segment `SegmentId(\"".to_owned();
                text.append(id.as_str());
                text.append("\")`");
                text
            },
            SourceError::MissingRange(range) => {
                let mut text: String = "source lacks ".to_owned();
                push_range(&mut text, *range);
                text
            },
            SourceError::MissingMaterial { gaps, required, available } => {
                let mut text: String = "source lacks material in ".to_owned();
                push_ranges(&mut text, gaps);
                text.append(": required ");
                push_decimal(&mut text, *required as u64);
                text.append(", available ");
                push_decimal(&mut text, *available as u64);
                text
            },
            SourceError::BudgetExceeded { resource, limit, observed } => {
                let mut text: String = "source ".to_owned();
                text.append(*resource);
                text.append(" budget ");
                push_decimal(&mut text, *limit);
                text.append(" exceeded: observed ");
                push_decimal(&mut text, *observed);
                text
            },
            SourceError::SchemaDrift { expected, observed } => {
                let mut text: String = "source schema drift: expected ".to_owned();
                text.append(expected.as_str());
                text.append(", observed ");
                text.append(observed.as_str());
                text
            },
            SourceError::IncompleteRange { range, detail } => {
                let mut text: String = "source range ".to_owned();
                push_range(&mut text, *range);
                text.append(" is incomplete: ");
                text.append(detail.as_str());
                text
            },
            SourceError::CorruptRows(problem) => {
                let mut text: String = "corrupt frame: ".to_owned();
                text.append(problem.message().as_str());
                text
            },
            SourceError::CorruptColumn { column, data_type } => {
                let mut text: String = "corrupt frame: ".to_owned();
                text.append(tell_column(*column, data_type.as_str()).as_str());
                text
            },
            SourceError::CorruptValues { data_type } => {
                let mut text: String = "corrupt frame: ".to_owned();
                text.append(tell_values(data_type.as_str()).as_str());
                text
            },
            SourceError::UnsupportedBlockVersion(version) => {
                let mut text: String = "corrupt frame: ".to_owned();
                text.append(tell_version(version).as_str());
                text
            },
            SourceError::Disconnected(detail) => {
                let mut text: String = "source disconnected: ".to_owned();
                text.append(detail.as_str());
                text
            },
            SourceError::Unavailable(detail) => {
                let mut text: String = "source unavailable: ".to_owned();
                text.append(detail.as_str());
                text
            },
            SourceError::Protocol(detail) => {
                let mut text: String = "source protocol error: ".to_owned();
                text.append(detail.as_str());
                text
            },
            SourceError::Cancelled => "source was cancelled".to_owned(),
        }
    }
}

impl SourceReason {
    /// Why a source was not used, in words.
    pub open spec fn spec_message(self) -> Seq<char> {
        match self.problem {
            SourceProblem::IncompatibleDescriptor => {
                self.source_id@ + ": incompatible descriptor"@
            },
            SourceProblem::IncompletePlan => self.source_id@ + ": incomplete plan"@,
            SourceProblem::Error(error) => self.source_id@ + ": "@ + error.spec_message(),
        }
    }

    /// Tells why a source was not used.
    pub fn message(&self) -> (text: String)
        ensures
            text@ == self.spec_message(),
    {
        let mut text: String = self.source_id.clone();
        match &self.problem {
            SourceProblem::IncompatibleDescriptor => text.append(": incompatible descriptor"),
            SourceProblem::IncompletePlan => text.append(": incomplete plan"),
            SourceProblem::Error(error) => {
                text.append(": ");
                text.append(error.message().as_str());
            },
        }
        text
    }
}

/// The reasons, each in words and as it is shown to a developer.
pub open spec fn reason_texts(reasons: Seq<SourceReason>) -> Seq<Seq<char>> {
    reasons.map_values(|reason: SourceReason| debug_text(reason.spec_message()))
}

fn push_reasons(output: &mut String, reasons: &Vec<SourceReason>)
    ensures
        final(output)@ == old(output)@ + list_text(reason_texts(reasons@)),
{
    let mut items: Vec<String> = Vec::new();
    let mut index: usize = 0;
    while index < reasons.len()
        invariant
            index <= reasons@.len(),
            items@.len() == index,
            forall|i: int|
                0 <= i < index ==> (#[trigger] items@[i])@ == debug_text(
                    reasons@[i].spec_message(),
                ),
        decreases reasons@.len() - index,
    {
        let mut item: String = String::new();
        push_debug(&mut item, reasons[index].message().as_str());
        assert(item@ =~= debug_text(reasons@[index as int].spec_message()));
        items.push(item);
        index += 1;
    }
    assert(texts(items@) =~= reason_texts(reasons@));
    push_list(output, &items);
}

impl RawHistoryRunError {
    /// Why a run, or what it needs, is refused, in words.
    pub open spec fn spec_message(self) -> Seq<char> {
        match self {
            RawHistoryRunError::InvalidSourceSet(problem) => {
                "invalid raw-history source set: "@ + problem@
            },
            RawHistoryRunError::DuplicateSource(id) => {
                "invalid raw-history source set: duplicate source ID `"@ + id@ + "`"@
            },
            RawHistoryRunError::ConcurrentRun(id) => {
                "raw-history job `"@ + id@ + "` is already running in this process"@
            },
            RawHistoryRunError::SourcePolicyChanged { expected, configured } => {
                "raw-history job source policy changed: expected "@ + expected@ + ", configured "@
                    + configured@
            },
            RawHistoryRunError::NoCompatibleSource { range, reasons } => {
                "no source could satisfy raw-history range "@ + range_text(range) + ": "@
                    + list_text(reason_texts(reasons@))
            },
            RawHistoryRunError::SourcesUnavailable { range, reasons } => {
                "all compatible sources are temporarily unavailable for "@ + range_text(range)
                    + ": "@ + list_text(reason_texts(reasons@))
            },
            RawHistoryRunError::Store(error) => error.spec_message(),
        }
    }

    /// Tells why a run, or what it needs, is refused.
    pub fn message(&self) -> (text: String)
        ensures
            text@ == self.spec_message(),
    {
        match self {
            RawHistoryRunError::InvalidSourceSet(problem) => {
                let mut text: String = "invalid raw-history source set: ".to_owned();
                text.append(*problem);
                text
            },
            RawHistoryRunError::DuplicateSource(id) => {
                let mut text: String =
                    "invalid raw-history source set: duplicate source ID `".to_owned();
                text.append(id.as_str());
                text.append("`");
                text
            },
            RawHistoryRunError::ConcurrentRun(id) => {
                let mut text: String = "raw-history job `".to_owned();
                text.append(id.as_str());
                text.append("` is already running in this process");
                text
            },
            RawHistoryRunError::SourcePolicyChanged { expected, configured } => {
                let mut text: String =
                    "raw-history job source policy changed: expected ".to_owned();
                text.append(expected.as_str());
                text.append(", configured ");
                text.append(configured.as_str());
                text
            },
            RawHistoryRunError::NoCompatibleSource { range, reasons } => {
                let mut text: String = "no source could satisfy raw-history range ".to_owned();
                push_range(&mut text, *range);
                text.append(": ");
                push_reasons(&mut text, reasons);
                text
            },
            RawHistoryRunError::SourcesUnavailable { range, reasons } => {
                let mut text: String =
                    "all compatible sources are temporarily unavailable for ".to_owned();
                push_range(&mut text, *range);
                text.append(": ");
                push_reasons(&mut text, reasons);
                text
            },
            RawHistoryRunError::Store(error) => error.message(),
        }
    }
}

} // verus!
