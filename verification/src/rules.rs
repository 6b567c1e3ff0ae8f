use crate::diff::DiffError;
use crate::text::{opt_view, push_str, string_of};
use vstd::prelude::*;

verus! {

/// Status of a single check line.
#[derive(Debug, Clone, Copy, PartialEq, Eq)]
pub enum RuleStatus {
    Pass,
    Warn,
    Fail,
}

/// One emitted check result.
#[derive(Debug, Clone)]
pub struct CheckLine {
    /// Check identifier, e.g. `contrast-aa`.
    pub check: String,
    /// Selector of the evaluated node.
    pub selector: String,
    /// Tag name, when known.
    pub tag: Option<String>,
    pub status: RuleStatus,
    /// Measured evidence backing the verdict.
    pub evidence: String,
}

impl View for CheckLine {
    type V = (Seq<char>, Seq<char>, Option<Seq<char>>, RuleStatus, Seq<char>);

    /// `(check, selector, tag, status, evidence)` with the texts as
    /// character sequences.
    open spec fn view(&self) -> Self::V {
        (self.check@, self.selector@, opt_view(self.tag), self.status, self.evidence@)
    }
}

/// Number of lines in `lines` whose status is `status`.
pub open spec fn count_status(lines: Seq<CheckLine>, status: RuleStatus) -> nat
    decreases lines.len(),
{
    if lines.len() == 0 {
        0
    } else {
        count_status(lines.drop_last(), status) + if lines.last().status == status { 1nat } else { 0nat }
    }
}

/// Aggregate counters over check lines: `(pass, warn, fail)`.
pub fn summarize(lines: &[CheckLine]) -> (res: (usize, usize, usize))
    ensures
        res.0 == count_status(lines@, RuleStatus::Pass),
        res.1 == count_status(lines@, RuleStatus::Warn),
        res.2 == count_status(lines@, RuleStatus::Fail),
{
    let mut pass: usize = 0;
    let mut warn: usize = 0;
    let mut fail: usize = 0;
    let mut i: usize = 0;
    while i < lines.len()
        invariant
            i <= lines.len(),
            pass == count_status(lines@.take(i as int), RuleStatus::Pass),
            warn == count_status(lines@.take(i as int), RuleStatus::Warn),
            fail == count_status(lines@.take(i as int), RuleStatus::Fail),
            pass + warn + fail == i,
        decreases lines.len() - i,
    {
        assert(lines@.take(i + 1).drop_last() =~= lines@.take(i as int));
        match lines[i].status {
            RuleStatus::Pass => pass = pass + 1,
            RuleStatus::Warn => warn = warn + 1,
            RuleStatus::Fail => fail = fail + 1,
        }
        i = i + 1;
    }
    assert(lines@.take(lines.len() as int) =~= lines@);
    (pass, warn, fail)
}

/// Errors produced by the check layer (mostly upstream loading errors).
#[derive(Debug)]
pub enum CheckError {
    Load(DiffError),
    Other(String),
}

impl CheckError {
    /// The human-readable text of the error.
    pub fn message(&self) -> (r: String)
        ensures
            self is Load ==> "failed to load snapshot JSONL: "@.is_prefix_of(r@),
            self matches CheckError::Load(DiffError::MixedLayout) ==> r@ == "failed to load snapshot JSONL: "@
                + "snapshot mixes tree and flat layouts in a single file"@,
            match self {
                CheckError::Other(s) => r@ == s@,
                CheckError::Load(_) => true,
            },
    {
        match self {
            CheckError::Load(e) => {
                let mut v: Vec<char> = Vec::new();
                push_str(&mut v, "failed to load snapshot JSONL: ");
                let t = e.message();
                push_str(&mut v, t.as_str());
                string_of(v)
            },
            CheckError::Other(s) => s.clone(),
        }
    }
}

impl From<DiffError> for CheckError {
    fn from(e: DiffError) -> (r: CheckError) {
        CheckError::Load(e)
    }
}

impl vstd::std_specs::convert::FromSpecImpl<DiffError> for CheckError {
    open spec fn obeys_from_spec() -> bool {
        true
    }

    open spec fn from_spec(v: DiffError) -> CheckError {
        CheckError::Load(v)
    }
}

} // verus!
