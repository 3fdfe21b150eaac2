use vstd::prelude::*;

use crate::error::opt_string_view;
use crate::text::{nat_digits, push_nat, push_str};

verus! {

/// A design value that does not come from the design tokens.
#[derive(Debug)]
pub struct Violation {
    pub file: String,
    pub node: String,
    pub rule: String,
    pub value: String,
    pub message: String,
    pub suggestion: Option<String>,
}

/// The mathematical content of a violation.
pub ghost struct ViolationV {
    pub file: Seq<char>,
    pub node: Seq<char>,
    pub rule: Seq<char>,
    pub value: Seq<char>,
    pub message: Seq<char>,
    pub suggestion: Option<Seq<char>>,
}

impl View for Violation {
    type V = ViolationV;

    open spec fn view(&self) -> ViolationV {
        ViolationV {
            file: self.file@,
            node: self.node@,
            rule: self.rule@,
            value: self.value@,
            message: self.message@,
            suggestion: opt_string_view(self.suggestion),
        }
    }
}

/// The violations found in a document.
#[derive(Debug)]
pub struct LintReport {
    pub violations: Vec<Violation>,
}

pub open spec fn violations_view(vs: Seq<Violation>) -> Seq<ViolationV> {
    vs.map_values(|v: Violation| v@)
}

/// One violation as a report line, with its suggestion on a line of its own.
pub open spec fn violation_text(v: ViolationV) -> Seq<char> {
    let head = v.file + "  ["@ + v.node + "] "@ + v.message + " ("@ + v.rule + ")\n"@;
    match v.suggestion {
        Some(s) => head + "  suggestion: "@ + s + "\n"@,
        None => head,
    }
}

pub open spec fn violations_text(vs: Seq<ViolationV>) -> Seq<char>
    decreases vs.len(),
{
    if vs.len() == 0 {
        Seq::empty()
    } else {
        violations_text(vs.drop_last()) + violation_text(vs.last())
    }
}

/// The report as text: every violation, then a summary line.
pub open spec fn report_text(vs: Seq<ViolationV>) -> Seq<char> {
    if vs.len() == 0 {
        "  All design values match token definitions\n"@
    } else {
        violations_text(vs) + "\n"@ + nat_digits(vs.len()) + " violation(s) found\n"@
    }
}

impl LintReport {
    pub fn new() -> (r: LintReport)
        ensures
            r.violations@.len() == 0,
    {
        LintReport { violations: Vec::new() }
    }

    pub fn add(&mut self, v: Violation)
        ensures
            final(self).violations@ == old(self).violations@.push(v),
    {
        self.violations.push(v);
    }

    pub fn format_text(&self) -> (s: String)
        ensures
            s@ == report_text(violations_view(self.violations@)),
    {
        let mut out = String::new();
        let mut i: usize = 0;
        while i < self.violations.len()
            invariant
                i <= self.violations.len(),
                out@ == violations_text(violations_view(self.violations@.subrange(0, i as int))),
            decreases self.violations.len() - i,
        {
            let v = &self.violations[i];
            let ghost before = out@;
            push_str(&mut out, v.file.as_str());
            push_str(&mut out, "  [");
            push_str(&mut out, v.node.as_str());
            push_str(&mut out, "] ");
            push_str(&mut out, v.message.as_str());
            push_str(&mut out, " (");
            push_str(&mut out, v.rule.as_str());
            push_str(&mut out, ")\n");
            match &v.suggestion {
                Some(s) => {
                    push_str(&mut out, "  suggestion: ");
                    push_str(&mut out, s.as_str());
                    push_str(&mut out, "\n");
                },
                None => {},
            }
            proof {
                let sub = violations_view(self.violations@.subrange(0, i + 1));
                assert(sub.drop_last() =~= violations_view(self.violations@.subrange(0, i as int)));
                assert(sub.last() == v@);
                assert(out@ =~= before + violation_text(v@));
            }
            i = i + 1;
        }
        proof {
            assert(self.violations@.subrange(0, self.violations@.len() as int) =~= self.violations@);
        }
        if self.violations.len() == 0 {
            let mut s = String::new();
            push_str(&mut s, "  All design values match token definitions\n");
            s
        } else {
            let ghost body = out@;
            push_str(&mut out, "\n");
            push_nat(&mut out, self.violations.len() as u64);
            push_str(&mut out, " violation(s) found\n");
            proof {
                assert(out@ =~= report_text(violations_view(self.violations@)));
            }
            out
        }
    }
}

} // verus!
