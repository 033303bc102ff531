//! The operations offered to the front end: preview, verification of what
//! was struck, and the test whether the interpreter can be used.

use crate::hexdump::{bytes_to_hexdump, hexdump_text};
use crate::validate::{
    contaminants_of, find_contaminants, finding_views, first_contaminated, lemma_modes_agree,
    Contaminant, ContaminantView,
};
use vstd::prelude::*;
use vstd::string::StringExecFns;

verus! {

/// A request to strike `bytes` onto the substrate at `path`.
#[derive(Debug, PartialEq, Eq)]
pub struct StrikePayload {
    pub bytes: Vec<u8>,
    pub path: String,
}

/// What a strike would do, computed without touching anything.
#[derive(Debug, PartialEq, Eq)]
pub struct PreviewResult {
    /// The dump of the pending bytes.
    pub hex_preview: String,
    /// Whether any byte may not be struck.
    pub would_contaminate: bool,
    /// Every byte that may not be struck, in the order of the buffer.
    pub contaminants: Vec<Contaminant>,
    /// The length of the buffer.
    pub byte_count: usize,
}

/// What was found on a substrate.
#[derive(Debug, PartialEq, Eq)]
pub struct VerifyResult {
    /// Whether every byte is one that may be struck.
    pub clean: bool,
    /// Every byte that may not be struck, in the order of the file.
    pub contaminants: Vec<Contaminant>,
    /// The dump of the file.
    pub hexdump: String,
    /// The length of the file.
    pub size: usize,
}

/// A preview with its texts as character sequences.
pub struct PreviewResultView {
    pub hex_preview: Seq<char>,
    pub would_contaminate: bool,
    pub contaminants: Seq<ContaminantView>,
    pub byte_count: nat,
}

/// A verification report with its texts as character sequences.
pub struct VerifyResultView {
    pub clean: bool,
    pub contaminants: Seq<ContaminantView>,
    pub hexdump: Seq<char>,
    pub size: nat,
}

impl View for PreviewResult {
    type V = PreviewResultView;

    open spec fn view(&self) -> PreviewResultView {
        PreviewResultView {
            hex_preview: self.hex_preview@,
            would_contaminate: self.would_contaminate,
            contaminants: finding_views(self.contaminants@),
            byte_count: self.byte_count as nat,
        }
    }
}

impl View for VerifyResult {
    type V = VerifyResultView;

    open spec fn view(&self) -> VerifyResultView {
        VerifyResultView {
            clean: self.clean,
            contaminants: finding_views(self.contaminants@),
            hexdump: self.hexdump@,
            size: self.size as nat,
        }
    }
}

/// How an attempt to run a program ended.
#[derive(Debug, PartialEq, Eq)]
pub enum ProcessOutcome {
    /// The program ran and exited, with status zero or not.
    Exited { success: bool },
    /// The program could not be started; the text is the system's diagnostic.
    NotStarted { diagnostic: String },
}

/// An outcome with its text as a character sequence.
pub enum ProcessOutcomeView {
    Exited { success: bool },
    NotStarted { diagnostic: Seq<char> },
}

impl View for ProcessOutcome {
    type V = ProcessOutcomeView;

    open spec fn view(&self) -> ProcessOutcomeView {
        match *self {
            ProcessOutcome::Exited { success } => ProcessOutcomeView::Exited { success },
            ProcessOutcome::NotStarted { diagnostic } => ProcessOutcomeView::NotStarted {
                diagnostic: diagnostic@,
            },
        }
    }
}

/// The program started and exited with status zero.
pub open spec fn succeeded(outcome: ProcessOutcomeView) -> bool {
    outcome matches ProcessOutcomeView::Exited { success } && success
}

/// The preview of a buffer.
pub open spec fn preview_of(bytes: Seq<u8>) -> PreviewResultView {
    PreviewResultView {
        hex_preview: hexdump_text(bytes),
        would_contaminate: contaminants_of(bytes).len() > 0,
        contaminants: contaminants_of(bytes),
        byte_count: bytes.len(),
    }
}

/// The report on the bytes of a substrate.
pub open spec fn report_of(bytes: Seq<u8>) -> VerifyResultView {
    VerifyResultView {
        clean: contaminants_of(bytes).len() == 0,
        contaminants: contaminants_of(bytes),
        hexdump: hexdump_text(bytes),
        size: bytes.len(),
    }
}

/// What the front end is told when the substrate at `path` could not be
/// read.
pub open spec fn read_failure_text(path: Seq<char>, diagnostic: Seq<char>) -> Seq<char> {
    "Failed to read "@ + path + ": "@ + diagnostic
}

/// Whether the interpreter can be used, from the outcome of running it with
/// its version argument: only if it started and exited with status zero.
pub fn check_gforth(probe: &ProcessOutcome) -> (available: bool)
    ensures
        available == succeeded(probe@),
{
    match probe {
        ProcessOutcome::Exited { success } => *success,
        ProcessOutcome::NotStarted { .. } => false,
    }
}

/// Shows what a strike of `bytes` would do: the dump, and every byte that
/// may not be struck. Nothing is written and nothing is run.
pub fn preview_forth_strike(bytes: Vec<u8>) -> (preview: PreviewResult)
    ensures
        preview@ == preview_of(bytes@),
{
    let contaminants = find_contaminants(bytes.as_slice());
    PreviewResult {
        hex_preview: bytes_to_hexdump(bytes.as_slice()),
        would_contaminate: !contaminants.is_empty(),
        contaminants,
        byte_count: bytes.len(),
    }
}

/// Reports on a substrate from the outcome of reading the file at `path`:
/// the bytes read, or the system's diagnostic. Bytes that may not be struck
/// are part of the report, not a failure.
pub fn verify_substrate(path: &str, read: Result<Vec<u8>, String>) -> (report: Result<
    VerifyResult,
    String,
>)
    ensures
        match read {
            Ok(bytes) => report matches Ok(found) && found@ == report_of(bytes@),
            Err(diagnostic) => report matches Err(text) && text@ == read_failure_text(
                path@,
                diagnostic@,
            ),
        },
{
    match read {
        Ok(bytes) => {
            let contaminants = find_contaminants(bytes.as_slice());
            Ok(
                VerifyResult {
                    clean: contaminants.is_empty(),
                    contaminants,
                    hexdump: bytes_to_hexdump(bytes.as_slice()),
                    size: bytes.len(),
                },
            )
        },
        Err(diagnostic) => {
            let mut text = String::from_str("Failed to read ");
            text.append(path);
            text.append(": ");
            text.append(diagnostic.as_str());
            Err(text)
        },
    }
}

/// The report on a substrate for display; the same as `verify_substrate`.
pub fn read_substrate_hex(path: &str, read: Result<Vec<u8>, String>) -> (report: Result<
    VerifyResult,
    String,
>)
    ensures
        match read {
            Ok(bytes) => report matches Ok(found) && found@ == report_of(bytes@),
            Err(diagnostic) => report matches Err(text) && text@ == read_failure_text(
                path@,
                diagnostic@,
            ),
        },
{
    verify_substrate(path, read)
}

/// Preview, report and strict gate judge a buffer alike: the preview warns
/// of contamination exactly when the strict gate would refuse the buffer,
/// and a report calls clean exactly what the preview does not warn of.
pub proof fn lemma_preview_agrees_with_strict_gate(bytes: Seq<u8>)
    ensures
        preview_of(bytes).would_contaminate <==> first_contaminated(bytes) is Some,
        report_of(bytes).clean <==> !preview_of(bytes).would_contaminate,
        report_of(bytes).contaminants == preview_of(bytes).contaminants,
        report_of(bytes).hexdump == preview_of(bytes).hex_preview,
        report_of(bytes).size == preview_of(bytes).byte_count,
{
    lemma_modes_agree(bytes);
}

} // verus!
