//! Deciding, for one file, whether it is evaluated and whether its score makes
//! it a finding.
//!
//! Nothing here touches a file. The caller reads metadata, samples the file
//! and computes the score, and asks between these steps what to do next.

use crate::entropy::SamplePlan;
use crate::entropy::Sampler;
use crate::entropy::SAMPLE_WINDOW;
use crate::filter::FileFilter;
use crate::filter::PathEntry;
use vstd::multiset::Multiset;
use vstd::prelude::*;
use vstd::slice::slice_subrange;

verus! {

/// Bit pattern of the largest finite single-precision number.
pub const MAX_SCORE_BITS: u32 = 0x7F7F_FFFF;

/// Bit pattern of the single-precision number nearest to 7.9, the score from
/// which a file is reported unless configured otherwise.
pub const DEFAULT_THRESHOLD_BITS: u32 = 0x40FC_CCCD;

/// Number of leading bytes of a file that a type probe looks at.
pub const PROBE_WINDOW: usize = 8192;

/// An entropy estimate in bits per byte, held as the IEEE 754 single-precision
/// bit pattern of a finite number that is not negative.
///
/// Among such patterns the order of the numbers is the order of the patterns
/// read as unsigned integers, so scores are compared by their patterns.
#[derive(Clone, Copy, Debug, PartialEq, Eq)]
pub struct Score {
    bits: u32,
}

impl Score {
    /// The bit pattern of the score.
    pub closed spec fn pattern(self) -> u32 {
        self.bits
    }

    #[verifier::type_invariant]
    spec fn finite_and_not_negative(self) -> bool {
        self.bits <= MAX_SCORE_BITS
    }

    /// The score with the given bit pattern; none where the pattern is that
    /// of a negative number, an infinity or a NaN.
    pub fn from_bits(bits: u32) -> (score: Option<Score>)
        ensures
            score is Some <==> bits <= MAX_SCORE_BITS,
            score matches Some(s) ==> s.pattern() == bits,
    {
        if bits <= MAX_SCORE_BITS {
            Some(Score { bits })
        } else {
            None
        }
    }

    /// The score 7.9.
    pub fn default_threshold() -> (score: Score)
        ensures
            score.pattern() == DEFAULT_THRESHOLD_BITS,
    {
        Score { bits: DEFAULT_THRESHOLD_BITS }
    }

    /// The bit pattern of the score.
    pub fn bits(&self) -> (bits: u32)
        ensures
            bits == self.pattern(),
            bits <= MAX_SCORE_BITS,
    {
        proof {
            use_type_invariant(self);
        }
        self.bits
    }

    /// Whether the score is at least `threshold`.
    pub fn reaches(&self, threshold: Score) -> (reached: bool)
        ensures
            reached == (self.pattern() >= threshold.pattern()),
    {
        self.bits >= threshold.bits
    }
}

/// The format that a type probe recognised.
#[derive(Clone, Debug, PartialEq, Eq)]
pub struct TypeTag {
    pub mime: String,
    pub extension: String,
}

/// A [`TypeTag`] as plain text.
pub struct TypeTagText {
    pub mime: Seq<char>,
    pub extension: Seq<char>,
}

impl View for TypeTag {
    type V = TypeTagText;

    open spec fn view(&self) -> TypeTagText {
        TypeTagText { mime: self.mime@, extension: self.extension@ }
    }
}

/// How a type probe of a file ended.
#[derive(Clone, Debug, PartialEq, Eq)]
pub enum TypeLookup {
    /// The leading bytes are those of a known format.
    Known(TypeTag),
    /// The leading bytes are of no known format.
    Unknown,
    /// The leading bytes could not be read.
    Failed,
}

/// The format that the magic-number matchers recognise in `head`, if any.
pub uninterp spec fn probed_type(head: Seq<u8>) -> Option<TypeTagText>;

/// Runs the magic-number matchers of `infer::get` on `head`.
///
/// The matchers are a fixed list of pure predicates on the bytes; the first
/// that holds gives the type. The contract claims only that the answer is a
/// function of the bytes, `probed_type`, and that the MIME type and the
/// extension of the answer are handed on unchanged.
#[verifier::external_body]
fn probe(head: &[u8]) -> (tag: Option<TypeTag>)
    ensures
        match tag {
            Some(t) => probed_type(head@) == Some(t@),
            None => probed_type(head@) is None,
        },
{
    infer::get(head).map(
        |kind| TypeTag {
            mime: kind.mime_type().to_string(),
            extension: kind.extension().to_string(),
        },
    )
}

/// The leading bytes of `bytes` that a type probe looks at.
pub open spec fn probe_head(bytes: Seq<u8>) -> Seq<u8> {
    if bytes.len() <= PROBE_WINDOW {
        bytes
    } else {
        bytes.take(PROBE_WINDOW as int)
    }
}

/// Names the format of a file from its leading bytes. Only the first
/// [`PROBE_WINDOW`] bytes are looked at.
pub fn get_file_type(bytes: &[u8]) -> (lookup: TypeLookup)
    ensures
        match lookup {
            TypeLookup::Known(tag) => probed_type(probe_head(bytes@)) == Some(tag@),
            TypeLookup::Unknown => probed_type(probe_head(bytes@)) is None,
            TypeLookup::Failed => false,
        },
{
    let head = if bytes.len() <= PROBE_WINDOW {
        bytes
    } else {
        slice_subrange(bytes, 0, PROBE_WINDOW)
    };
    match probe(head) {
        Some(tag) => TypeLookup::Known(tag),
        None => TypeLookup::Unknown,
    }
}

/// A file whose score reached the threshold.
#[derive(Clone, Debug, PartialEq, Eq)]
pub struct Finding {
    pub path: String,
    pub score: Score,
    /// The format of the file where a type probe recognised one.
    pub file_type: Option<TypeTag>,
}

impl Finding {
    /// Whether the finding belongs in the report: a file of a recognised
    /// format is kept out of it.
    pub open spec fn reported(self) -> bool {
        self.file_type is None
    }

    /// Whether the finding belongs in the report.
    pub fn is_reported(&self) -> (reported: bool)
        ensures
            reported == self.reported(),
    {
        self.file_type.is_none()
    }
}

/// What to do with a file once its score is known.
#[derive(Clone, Copy, Debug, PartialEq, Eq)]
pub enum Ruling {
    /// The score is below the threshold: the file is no finding and nothing
    /// more is read from it.
    Discard,
    /// The score reached the threshold: probe the type of the file, then
    /// conclude.
    Probe,
    /// The score reached the threshold and types are not probed: conclude
    /// with the type unknown.
    Report,
}

/// The settings under which single files are evaluated.
#[derive(Clone, Copy, Debug)]
pub struct FileEvaluator {
    pub filter: FileFilter,
    /// Number of bytes sampled at each end of a file.
    pub window: u64,
    /// Score from which a file is a finding.
    pub threshold: Score,
    /// Whether the type of a finding is probed.
    pub probe_types: bool,
}

impl FileEvaluator {
    /// An evaluator with the default window and threshold that probes types.
    pub fn new(filter: FileFilter) -> (evaluator: FileEvaluator)
        ensures
            evaluator.filter == filter,
            evaluator.window == SAMPLE_WINDOW,
            evaluator.threshold.pattern() == DEFAULT_THRESHOLD_BITS,
            evaluator.probe_types,
    {
        FileEvaluator {
            filter,
            window: SAMPLE_WINDOW,
            threshold: Score::default_threshold(),
            probe_types: true,
        }
    }

    /// What `rule` answers for a score with the given bit pattern.
    pub open spec fn ruling(self, pattern: u32) -> Ruling {
        if pattern < self.threshold.pattern() {
            Ruling::Discard
        } else if self.probe_types {
            Ruling::Probe
        } else {
            Ruling::Report
        }
    }

    /// Checks the metadata of a file again, right before it is opened, and
    /// sets up the sampling of the file. `None` means that the file is
    /// skipped.
    pub fn screen(&self, entry: &PathEntry) -> (sampler: Option<Sampler>)
        ensures
            sampler is Some <==> self.filter.accepts(*entry),
            sampler matches Some(s) ==> {
                &&& s.well_formed()
                &&& s.plan() == SamplePlan::for_source(entry.size, self.window)
                &&& s.reads() == 0
                &&& s.counted() == Multiset::<u8>::empty()
            },
    {
        if self.filter.accept(entry) {
            Some(Sampler::new(entry.size, self.window))
        } else {
            None
        }
    }

    /// Decides from the score of a file what happens to it next.
    pub fn rule(&self, score: Score) -> (ruling: Ruling)
        ensures
            ruling == self.ruling(score.pattern()),
    {
        if !score.reaches(self.threshold) {
            Ruling::Discard
        } else if self.probe_types {
            Ruling::Probe
        } else {
            Ruling::Report
        }
    }
}

/// The type that a finding is annotated with after a lookup.
pub open spec fn annotation(lookup: TypeLookup) -> Option<TypeTag> {
    match lookup {
        TypeLookup::Known(tag) => Some(tag),
        TypeLookup::Unknown => None,
        TypeLookup::Failed => None,
    }
}

/// Whether a file with this metadata and a score of this bit pattern is a
/// finding.
pub open spec fn is_finding(evaluator: FileEvaluator, entry: PathEntry, pattern: u32) -> bool {
    evaluator.filter.accepts(entry) && pattern >= evaluator.threshold.pattern()
}

/// Evaluates a file from what was read of it: its metadata, its score and the
/// outcome of its type lookup.
///
/// The file is a finding where the filter admits it and its score reaches
/// the threshold. A recognised type is noted on the finding, which keeps it
/// out of the report; a lookup that failed leaves the type unknown and the
/// finding in the report. Where types are not probed the lookup is ignored.
pub fn check_file(
    evaluator: &FileEvaluator,
    entry: PathEntry,
    score: Score,
    lookup: TypeLookup,
) -> (finding: Option<Finding>)
    ensures
        finding is Some <==> is_finding(*evaluator, entry, score.pattern()),
        finding matches Some(f) ==> {
            &&& f.path == entry.path
            &&& f.score == score
            &&& f.file_type == if evaluator.probe_types {
                annotation(lookup)
            } else {
                None
            }
        },
{
    if !evaluator.filter.accept(&entry) || !score.reaches(evaluator.threshold) {
        return None;
    }
    let file_type = if evaluator.probe_types {
        match lookup {
            TypeLookup::Known(tag) => Some(tag),
            TypeLookup::Unknown => None,
            TypeLookup::Failed => None,
        }
    } else {
        None
    };
    Some(Finding { path: entry.path, score, file_type })
}

/// The steps that spare reading a file agree with the evaluation of the
/// whole: a file that `screen` skips or whose score `rule` discards is no
/// finding, and every other file is one.
pub proof fn lemma_early_exits_agree(evaluator: FileEvaluator, entry: PathEntry, pattern: u32)
    ensures
        !evaluator.filter.accepts(entry) ==> !is_finding(evaluator, entry, pattern),
        evaluator.ruling(pattern) is Discard ==> !is_finding(evaluator, entry, pattern),
        evaluator.filter.accepts(entry) && !(evaluator.ruling(pattern) is Discard) ==> is_finding(
            evaluator,
            entry,
            pattern,
        ),
{
}

} // verus!
