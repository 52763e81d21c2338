use vstd::prelude::*;
use vstd::string::*;
use vstd::std_specs::iter::IteratorSpec;
use crate::common::status::Severity;
use crate::common::text::{dec, push_dec};

verus! {

/// One finding: how serious it is, a stable code, a message, and where it applies.
#[derive(Debug, Clone, PartialEq, Eq)]
pub struct Diagnostic {
    pub severity: Severity,
    pub code: String,
    pub message: String,
    pub offset: Option<usize>,
    pub context: Option<String>,
}

impl Diagnostic {
    pub fn new(severity: Severity, code: &str, message: &str) -> (d: Self)
        ensures
            d.severity == severity,
            d.code@ == code@,
            d.message@ == message@,
            d.offset is None,
            d.context is None,
    {
        Diagnostic {
            severity,
            code: String::from_str(code),
            message: String::from_str(message),
            offset: None,
            context: None,
        }
    }

    /// The same diagnostic, placed at `offset`.
    pub fn at(self, offset: usize) -> (d: Self)
        ensures
            d.severity == self.severity,
            d.code == self.code,
            d.message == self.message,
            d.offset == Some(offset),
            d.context == self.context,
    {
        let mut d = self;
        d.offset = Some(offset);
        d
    }

    /// The same diagnostic, with a line of context.
    pub fn with_context(self, context: &str) -> (d: Self)
        ensures
            d.severity == self.severity,
            d.code == self.code,
            d.message == self.message,
            d.offset == self.offset,
            d.context matches Some(c) && c@ == context@,
    {
        let mut d = self;
        d.context = Some(String::from_str(context));
        d
    }
}

/// A diagnostic with its texts as character sequences.
pub ghost struct DiagView {
    pub severity: Severity,
    pub code: Seq<char>,
    pub message: Seq<char>,
    pub offset: Option<usize>,
    pub context: Option<Seq<char>>,
}

impl View for Diagnostic {
    type V = DiagView;

    open spec fn view(&self) -> DiagView {
        DiagView {
            severity: self.severity,
            code: self.code@,
            message: self.message@,
            offset: self.offset,
            context: match self.context {
                Some(c) => Some(c@),
                None => None,
            },
        }
    }
}

pub open spec fn diag_views(s: Seq<Diagnostic>) -> Seq<DiagView> {
    s.map_values(|d: Diagnostic| d@)
}

/// A diagnostic that `Diagnostic::new` makes, with no offset and no context.
pub open spec fn finding(severity: Severity, code: Seq<char>, message: Seq<char>) -> DiagView {
    DiagView { severity, code, message, offset: None, context: None }
}

/// The same finding, placed at `offset`.
pub open spec fn finding_at(
    severity: Severity,
    code: Seq<char>,
    message: Seq<char>,
    offset: usize,
) -> DiagView {
    DiagView { severity, code, message, offset: Some(offset), context: None }
}

/// The text one diagnostic renders to.
pub open spec fn diagnostic_text(d: DiagView) -> Seq<char> {
    let head = "["@ + d.severity.spec_name() + "] "@ + d.code + match d.offset {
        Some(o) => " at "@ + dec(o as nat),
        None => Seq::<char>::empty(),
    } + ": "@ + d.message + "\n"@;
    head + match d.context {
        Some(c) => "  "@ + c + "\n"@,
        None => Seq::<char>::empty(),
    }
}

pub open spec fn diagnostics_text(s: Seq<DiagView>) -> Seq<char>
    decreases s.len(),
{
    if s.len() == 0 {
        Seq::empty()
    } else {
        diagnostics_text(s.drop_last()) + diagnostic_text(s.last())
    }
}

/// The most serious severity among the diagnostics, if there are any.
pub open spec fn highest_of(s: Seq<Diagnostic>) -> Option<Severity>
    decreases s.len(),
{
    if s.len() == 0 {
        None
    } else {
        match highest_of(s.drop_last()) {
            Some(h) => Some(h.spec_max(s.last().severity)),
            None => Some(s.last().severity),
        }
    }
}

/// Some diagnostic is `High` or worse.
pub open spec fn any_error(s: Seq<Diagnostic>) -> bool {
    exists|i: int| 0 <= i < s.len() && (#[trigger] s[i]).severity.spec_rank() >= 3
}

/// An ordered collection of diagnostics.
#[derive(Debug, Clone, PartialEq, Eq)]
pub struct DiagnosticSet {
    items: Vec<Diagnostic>,
}

impl View for DiagnosticSet {
    type V = Seq<Diagnostic>;

    closed spec fn view(&self) -> Seq<Diagnostic> {
        self.items@
    }
}

impl Default for DiagnosticSet {
    fn default() -> (s: Self)
        ensures
            s@ == Seq::<Diagnostic>::empty(),
    {
        DiagnosticSet { items: Vec::new() }
    }
}

impl DiagnosticSet {
    pub fn new() -> (s: Self)
        ensures
            s@ == Seq::<Diagnostic>::empty(),
    {
        DiagnosticSet { items: Vec::new() }
    }

    pub fn push(&mut self, diagnostic: Diagnostic)
        ensures
            final(self)@ == old(self)@.push(diagnostic),
    {
        self.items.push(diagnostic);
    }

    /// Appends all of `other`, in order.
    pub fn extend(&mut self, other: DiagnosticSet)
        ensures
            final(self)@ == old(self)@ + other@,
    {
        let mut other = other;
        self.items.append(&mut other.items);
    }

    pub fn has_errors(&self) -> (r: bool)
        ensures
            r == any_error(self@),
    {
        let mut i: usize = 0;
        while i < self.items.len()
            invariant
                i <= self.items@.len(),
                forall|j: int| 0 <= j < i ==> (#[trigger] self.items@[j]).severity.spec_rank() < 3,
            decreases self.items@.len() - i,
        {
            if self.items[i].severity.rank() >= 3 {
                assert(self.items@[i as int].severity.spec_rank() >= 3);
                return true;
            }
            i = i + 1;
        }
        false
    }

    pub fn highest(&self) -> (r: Option<Severity>)
        ensures
            r == highest_of(self@),
    {
        let mut best: Option<Severity> = None;
        let mut i: usize = 0;
        while i < self.items.len()
            invariant
                i <= self.items@.len(),
                best == highest_of(self.items@.take(i as int)),
            decreases self.items@.len() - i,
        {
            let s = self.items[i].severity;
            assert(self.items@.take(i + 1).drop_last() =~= self.items@.take(i as int));
            best = match best {
                Some(h) => Some(h.max(s)),
                None => Some(s),
            };
            i = i + 1;
        }
        assert(self.items@.take(self.items@.len() as int) =~= self.items@);
        best
    }

    pub fn len(&self) -> (r: usize)
        ensures
            r == self@.len(),
    {
        self.items.len()
    }

    pub fn is_empty(&self) -> (r: bool)
        ensures
            r == (self@.len() == 0),
    {
        self.items.len() == 0
    }

    /// The diagnostics, in order.
    pub fn iter(&self) -> (r: std::slice::Iter<'_, Diagnostic>)
        ensures
            r.remaining() == self@.as_ref(),
    {
        let s = self.items.as_slice();
        proof {
            vstd::std_specs::slice::axiom_spec_slice_iter(s);
        }
        s.iter()
    }

    /// One line per diagnostic (`[severity] code at offset: message`), each followed by an
    /// indented context line where there is one.
    pub fn render_text(&self) -> (r: String)
        ensures
            r@ == diagnostics_text(diag_views(self@)),
    {
        let ghost dv = diag_views(self.items@);
        let mut out = String::new();
        let mut i: usize = 0;
        assert(dv.take(0) =~= Seq::<DiagView>::empty());
        while i < self.items.len()
            invariant
                i <= self.items@.len(),
                dv == diag_views(self.items@),
                out@ == diagnostics_text(dv.take(i as int)),
            decreases self.items@.len() - i,
        {
            let item = &self.items[i];
            let ghost before = out@;
            push_diagnostic(&mut out, item);
            assert(dv.take(i + 1).drop_last() =~= dv.take(i as int));
            assert(dv.take(i + 1).last() == item@);
            assert(out@ =~= before + diagnostic_text(item@));
            i = i + 1;
        }
        assert(dv.take(self.items@.len() as int) =~= dv);
        out
    }
}

fn push_diagnostic(out: &mut String, item: &Diagnostic)
    ensures
        final(out)@ == old(out)@ + diagnostic_text(item@),
{
    let ghost start = out@;
    let mut head = String::from_str("[");
    head.append(item.severity.as_str());
    head.append("] ");
    head.append(item.code.as_str());
    match item.offset {
        Some(offset) => {
            head.append(" at ");
            push_dec(&mut head, offset as u64);
        },
        None => {},
    }
    head.append(": ");
    head.append(item.message.as_str());
    head.append("\n");
    let ghost h = head@;
    assert(h =~= "["@ + item.severity.spec_name() + "] "@ + item.code@ + match item.offset {
        Some(o) => " at "@ + dec(o as nat),
        None => Seq::<char>::empty(),
    } + ": "@ + item.message@ + "\n"@);
    out.append(head.as_str());
    match &item.context {
        Some(ctx) => {
            let mut tail = String::from_str("  ");
            tail.append(ctx.as_str());
            tail.append("\n");
            out.append(tail.as_str());
        },
        None => {},
    }
    assert(out@ =~= start + diagnostic_text(item@));
}

/// A set has errors exactly when its highest severity is `High` or `Critical`.
pub proof fn law_has_errors_iff_highest(s: Seq<Diagnostic>)
    ensures
        any_error(s) <==> (highest_of(s) matches Some(h) && h.spec_rank() >= 3),
    decreases s.len(),
{
    if s.len() > 0 {
        law_has_errors_iff_highest(s.drop_last());
        let t = s.drop_last();
        if any_error(s) {
            let i = choose|i: int| 0 <= i < s.len() && (#[trigger] s[i]).severity.spec_rank() >= 3;
            if i < s.len() - 1 {
                assert(t[i] == s[i]);
                assert(any_error(t));
            }
        }
        if any_error(t) {
            let i = choose|i: int| 0 <= i < t.len() && (#[trigger] t[i]).severity.spec_rank() >= 3;
            assert(s[i] == t[i]);
        }
        if s.last().severity.spec_rank() >= 3 {
            assert(s[s.len() - 1].severity.spec_rank() >= 3);
        }
    }
}

/// The highest severity of a set is the severity of one of its diagnostics, and none is
/// more serious.
pub proof fn law_highest_is_max(s: Seq<Diagnostic>)
    ensures
        s.len() == 0 <==> highest_of(s) is None,
        highest_of(s) matches Some(h) ==> (exists|i: int|
            0 <= i < s.len() && (#[trigger] s[i]).severity == h) && forall|i: int|
            0 <= i < s.len() ==> (#[trigger] s[i]).severity.spec_rank() <= h.spec_rank(),
    decreases s.len(),
{
    if s.len() > 0 {
        let t = s.drop_last();
        law_highest_is_max(t);
        assert forall|i: int| 0 <= i < t.len() implies #[trigger] s[i] == t[i] by {}
        match highest_of(t) {
            Some(h) => {
                let i = choose|i: int| 0 <= i < t.len() && (#[trigger] t[i]).severity == h;
                assert(s[i] == t[i]);
                assert(s[s.len() - 1] == s.last());
            },
            None => {
                assert(s[s.len() - 1] == s.last());
            },
        }
    }
}

} // verus!
