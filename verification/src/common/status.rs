use vstd::prelude::*;
use vstd::string::*;
use crate::common::text::{dec, push_dec};

verus! {

/// How serious a finding is, from `Info` up to `Critical`.
#[derive(Debug, Clone, Copy, PartialEq, Eq, Structural, PartialOrd, Ord, Hash)]
pub enum Severity {
    Info,
    Low,
    Medium,
    High,
    Critical,
}

impl Severity {
    /// The position of the severity in the order `Info < Low < Medium < High < Critical`.
    pub open spec fn spec_rank(self) -> nat {
        match self {
            Severity::Info => 0,
            Severity::Low => 1,
            Severity::Medium => 2,
            Severity::High => 3,
            Severity::Critical => 4,
        }
    }

    pub open spec fn spec_name(self) -> Seq<char> {
        match self {
            Severity::Info => "info"@,
            Severity::Low => "low"@,
            Severity::Medium => "medium"@,
            Severity::High => "high"@,
            Severity::Critical => "critical"@,
        }
    }

    /// The severity a score maps to.
    pub open spec fn spec_from_score(score: u8) -> Severity {
        if score <= 19 {
            Severity::Info
        } else if score <= 39 {
            Severity::Low
        } else if score <= 69 {
            Severity::Medium
        } else if score <= 89 {
            Severity::High
        } else {
            Severity::Critical
        }
    }

    pub fn rank(self) -> (r: u8)
        ensures
            r == self.spec_rank(),
    {
        match self {
            Severity::Info => 0,
            Severity::Low => 1,
            Severity::Medium => 2,
            Severity::High => 3,
            Severity::Critical => 4,
        }
    }

    pub fn as_str(self) -> (r: &'static str)
        ensures
            r@ == self.spec_name(),
    {
        match self {
            Severity::Info => "info",
            Severity::Low => "low",
            Severity::Medium => "medium",
            Severity::High => "high",
            Severity::Critical => "critical",
        }
    }

    pub fn from_score(score: u8) -> (r: Self)
        ensures
            r == Self::spec_from_score(score),
    {
        if score <= 19 {
            Severity::Info
        } else if score <= 39 {
            Severity::Low
        } else if score <= 69 {
            Severity::Medium
        } else if score <= 89 {
            Severity::High
        } else {
            Severity::Critical
        }
    }

    /// The more serious of the two.
    pub open spec fn spec_max(self, other: Self) -> Self {
        if other.spec_rank() > self.spec_rank() {
            other
        } else {
            self
        }
    }

    /// The more serious of the two (`Ord::max`).
    pub fn max(self, other: Self) -> (r: Self)
        ensures
            r == self.spec_max(other),
    {
        if other.rank() > self.rank() {
            other
        } else {
            self
        }
    }
}

/// A higher score never maps to a lower severity.
pub proof fn law_from_score_monotone(a: u8, b: u8)
    requires
        a <= b,
    ensures
        Severity::spec_from_score(a).spec_rank() <= Severity::spec_from_score(b).spec_rank(),
{
}

/// What a match of an indicator or rule means for traffic.
#[derive(Debug, Clone, Copy, PartialEq, Eq, Structural)]
pub enum MatchDisposition {
    Allowed,
    Blocked,
    Observed,
    Unknown,
}

impl MatchDisposition {
    pub open spec fn spec_strongest(self, other: Self) -> Self {
        if self == MatchDisposition::Blocked || other == MatchDisposition::Blocked {
            MatchDisposition::Blocked
        } else if self == MatchDisposition::Allowed || other == MatchDisposition::Allowed {
            MatchDisposition::Allowed
        } else if self == MatchDisposition::Observed || other == MatchDisposition::Observed {
            MatchDisposition::Observed
        } else {
            MatchDisposition::Unknown
        }
    }

    /// The stronger of two dispositions: blocked, then allowed, then observed.
    pub fn strongest(self, other: Self) -> (r: Self)
        ensures
            r == self.spec_strongest(other),
    {
        match (self, other) {
            (MatchDisposition::Blocked, _) | (_, MatchDisposition::Blocked) => MatchDisposition::Blocked,
            (MatchDisposition::Allowed, _) | (_, MatchDisposition::Allowed) => MatchDisposition::Allowed,
            (MatchDisposition::Observed, _) | (_, MatchDisposition::Observed) => MatchDisposition::Observed,
            _ => MatchDisposition::Unknown,
        }
    }
}

/// `strongest` does not depend on the order of its arguments, groups freely, gives back a
/// disposition combined with itself, has `Unknown` as neutral element and `Blocked` as
/// absorbing element.
pub proof fn law_strongest(a: MatchDisposition, b: MatchDisposition, c: MatchDisposition)
    ensures
        a.spec_strongest(b) == b.spec_strongest(a),
        a.spec_strongest(b).spec_strongest(c) == a.spec_strongest(b.spec_strongest(c)),
        a.spec_strongest(a) == a,
        a.spec_strongest(MatchDisposition::Unknown) == a,
        a.spec_strongest(MatchDisposition::Blocked) == MatchDisposition::Blocked,
{
}

/// Why an input was refused.
#[derive(Debug, Clone, PartialEq, Eq)]
pub enum AegisError {
    Truncated { needed: usize, available: usize },
    InvalidFormat(String),
    Unsupported(String),
    Conflict(String),
}

/// An error with its messages as character sequences.
pub ghost enum ErrorView {
    Truncated { needed: nat, available: nat },
    InvalidFormat(Seq<char>),
    Unsupported(Seq<char>),
    Conflict(Seq<char>),
}

impl View for AegisError {
    type V = ErrorView;

    open spec fn view(&self) -> ErrorView {
        match self {
            AegisError::Truncated { needed, available } => ErrorView::Truncated {
                needed: *needed as nat,
                available: *available as nat,
            },
            AegisError::InvalidFormat(m) => ErrorView::InvalidFormat(m@),
            AegisError::Unsupported(m) => ErrorView::Unsupported(m@),
            AegisError::Conflict(m) => ErrorView::Conflict(m@),
        }
    }
}

/// The text of an error, as its `Display` would show it.
pub open spec fn error_text(e: ErrorView) -> Seq<char> {
    match e {
        ErrorView::Truncated { needed, available } => "truncated input: needed "@ + dec(needed)
            + ", available "@ + dec(available),
        ErrorView::InvalidFormat(m) => m,
        ErrorView::Unsupported(m) => m,
        ErrorView::Conflict(m) => m,
    }
}

impl AegisError {
    /// The error's message: what `Display` shows.
    pub fn render(&self) -> (r: String)
        ensures
            r@ == error_text(self@),
    {
        match self {
            AegisError::Truncated { needed, available } => {
                let mut s = String::from_str("truncated input: needed ");
                push_dec(&mut s, *needed as u64);
                s.append(", available ");
                push_dec(&mut s, *available as u64);
                s
            },
            AegisError::InvalidFormat(m) => m.clone(),
            AegisError::Unsupported(m) => m.clone(),
            AegisError::Conflict(m) => m.clone(),
        }
    }
}

pub type AegisResult<T> = Result<T, AegisError>;

} // verus!
