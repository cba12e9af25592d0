//! Query-output selection for the command line: the output formats a user
//! can ask for, and which serialization each one maps to for tabular,
//! boolean and graph-producing results.

use vstd::prelude::*;

use crate::negotiate::{QueryResultsFormatKind, RdfFormatKind};

verus! {

/// The output format of a command-line query run.
#[derive(Clone, Copy, Debug, PartialEq, Eq, Structural, Default)]
pub enum DeOutput {
    #[default]
    CSV,
    TSV,
    JSON,
    XML,
    N3,
    NQUADS,
    RDFXML,
    NTRIPLE,
    TRIG,
    TURTLE,
}

/// The tabular/boolean serialization an output choice maps to, if any.
pub open spec fn spec_results_format_for(out: DeOutput) -> Option<QueryResultsFormatKind> {
    match out {
        DeOutput::CSV => Some(QueryResultsFormatKind::Csv),
        DeOutput::TSV => Some(QueryResultsFormatKind::Tsv),
        DeOutput::JSON => Some(QueryResultsFormatKind::Json),
        DeOutput::XML => Some(QueryResultsFormatKind::Xml),
        _ => None,
    }
}

/// The graph serialization an output choice maps to, if any.
pub open spec fn spec_rdf_format_for(out: DeOutput) -> Option<RdfFormatKind> {
    match out {
        DeOutput::N3 => Some(RdfFormatKind::N3),
        DeOutput::NQUADS => Some(RdfFormatKind::NQuads),
        DeOutput::RDFXML => Some(RdfFormatKind::RdfXml),
        DeOutput::NTRIPLE => Some(RdfFormatKind::NTriples),
        DeOutput::TRIG => Some(RdfFormatKind::TriG),
        DeOutput::TURTLE => Some(RdfFormatKind::Turtle),
        _ => None,
    }
}

/// The tabular/boolean serialization for an output choice; graph-only
/// choices map to nothing and the caller falls back to its default.
pub fn results_format_for(out: &DeOutput) -> (r: Option<QueryResultsFormatKind>)
    ensures
        r == spec_results_format_for(*out),
{
    match out {
        DeOutput::CSV => Some(QueryResultsFormatKind::Csv),
        DeOutput::TSV => Some(QueryResultsFormatKind::Tsv),
        DeOutput::JSON => Some(QueryResultsFormatKind::Json),
        DeOutput::XML => Some(QueryResultsFormatKind::Xml),
        _ => None,
    }
}

/// The graph serialization for an output choice; tabular-only choices map
/// to nothing and the caller falls back to its default.
pub fn rdf_format_for(out: &DeOutput) -> (r: Option<RdfFormatKind>)
    ensures
        r == spec_rdf_format_for(*out),
{
    match out {
        DeOutput::N3 => Some(RdfFormatKind::N3),
        DeOutput::NQUADS => Some(RdfFormatKind::NQuads),
        DeOutput::RDFXML => Some(RdfFormatKind::RdfXml),
        DeOutput::NTRIPLE => Some(RdfFormatKind::NTriples),
        DeOutput::TRIG => Some(RdfFormatKind::TriG),
        DeOutput::TURTLE => Some(RdfFormatKind::Turtle),
        _ => None,
    }
}

} // verus!
