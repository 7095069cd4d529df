//! Reading the report of the system check that runs before the engine starts:
//! one token per line, framed by decorated progress lines.
use crate::rate::trimmed;
use vstd::prelude::*;
use vstd::string::StringExecFns;

verus! {

/// A prerequisite of the policy path that the system lacks.
#[derive(Debug, Clone, Copy, PartialEq, Eq, Structural)]
pub enum Requirement {
    /// The process is not elevated.
    Administrator,
    /// The NetQoS module is not installed.
    NetQos,
    /// PowerShell is older than 5.0.
    PowerShell,
    /// A test policy could not be created.
    PolicyCreation,
}

/// The lines of `s`, split at each line break (the last line may be empty).
pub open spec fn lines_of(s: Seq<char>) -> Seq<Seq<char>>
    decreases s.len(),
{
    if s.len() == 0 {
        seq![seq![]]
    } else {
        let l = lines_of(s.drop_last());
        if s.last() == '\n' {
            l.push(seq![])
        } else {
            l.update(l.len() - 1, l.last().push(s.last()))
        }
    }
}

/// The first characters of the decorated progress lines, which carry no token.
pub open spec fn is_marker(c: char) -> bool {
    c == '\u{1F50D}' || c == '\u{2705}' || c == '\u{274C}' || c == '\u{26A0}' || c == '\u{1F4CA}'
        || c == '\u{1F9F9}'
}

/// A trimmed line that carries a token.
pub open spec fn is_token(t: Seq<char>) -> bool {
    t.len() > 0 && !is_marker(t[0])
}

/// The tokens of a report: its trimmed lines, less blank and decorated ones.
pub open spec fn tokens_of(lines: Seq<Seq<char>>) -> Seq<Seq<char>>
    decreases lines.len(),
{
    if lines.len() == 0 {
        seq![]
    } else {
        let rest = tokens_of(lines.drop_last());
        let t = trimmed(lines.last());
        if is_token(t) {
            rest.push(t)
        } else {
            rest
        }
    }
}

/// The prerequisite a token reports missing, if any.
pub open spec fn missing_in(t: Seq<char>) -> Option<Requirement> {
    if t == "ADMIN_MISSING"@ {
        Some(Requirement::Administrator)
    } else if t == "NETQOS_MISSING"@ {
        Some(Requirement::NetQos)
    } else if t == "POWERSHELL_OLD"@ {
        Some(Requirement::PowerShell)
    } else if t == "QOS_CREATE_FAILED"@ {
        Some(Requirement::PolicyCreation)
    } else {
        None
    }
}

/// The check that a token reports as not made, if any.
pub open spec fn unchecked_in(t: Seq<char>) -> Option<Requirement> {
    if "ADMIN_ERROR"@.is_prefix_of(t) {
        Some(Requirement::Administrator)
    } else if "NETQOS_ERROR"@.is_prefix_of(t) {
        Some(Requirement::NetQos)
    } else if "POWERSHELL_ERROR"@.is_prefix_of(t) {
        Some(Requirement::PowerShell)
    } else {
        None
    }
}

/// The missing prerequisites that `toks` report, in order.
pub open spec fn missing_of(toks: Seq<Seq<char>>) -> Seq<Requirement>
    decreases toks.len(),
{
    if toks.len() == 0 {
        seq![]
    } else {
        let rest = missing_of(toks.drop_last());
        match missing_in(toks.last()) {
            Some(r) => rest.push(r),
            None => rest,
        }
    }
}

/// The checks that `toks` report as not made, in order.
pub open spec fn unchecked_of(toks: Seq<Seq<char>>) -> Seq<Requirement>
    decreases toks.len(),
{
    if toks.len() == 0 {
        seq![]
    } else {
        let rest = unchecked_of(toks.drop_last());
        match unchecked_in(toks.last()) {
            Some(r) => rest.push(r),
            None => rest,
        }
    }
}

/// What a report says: the prerequisites found missing, which fail the
/// start, and the checks that could not be made, which only warn.
pub struct RequirementReport {
    pub missing: Vec<Requirement>,
    pub unchecked: Vec<Requirement>,
}

fn split_lines(s: &str) -> (r: Vec<Vec<char>>)
    ensures
        r@.len() == lines_of(s@).len(),
        forall|i: int| 0 <= i < r@.len() ==> (#[trigger] r@[i])@ == lines_of(s@)[i],
{
    let chars = crate::names::chars_of(s);
    let mut lines: Vec<Vec<char>> = Vec::new();
    let mut cur: Vec<char> = Vec::new();
    let mut i: usize = 0;
    while i < chars.len()
        invariant
            chars@ == s@,
            i <= chars@.len(),
            lines@.len() + 1 == lines_of(s@.take(i as int)).len(),
            forall|k: int|
                0 <= k < lines@.len() ==> (#[trigger] lines@[k])@ == lines_of(s@.take(i as int))[k],
            cur@ == lines_of(s@.take(i as int)).last(),
        decreases chars@.len() - i,
    {
        let c = chars[i];
        proof {
            let t = s@.take(i + 1);
            assert(t.drop_last() =~= s@.take(i as int));
            assert(t.last() == c);
        }
        let ghost l = lines_of(s@.take(i as int));
        let ghost prev = lines@;
        if c == '\n' {
            let done = cur;
            lines.push(done);
            cur = Vec::new();
            proof {
                assert forall|k: int| 0 <= k < lines@.len() implies (#[trigger] lines@[k])@
                    == lines_of(s@.take(i + 1))[k] by {
                    if k < prev.len() {
                        assert(lines@[k] == prev[k]);
                    }
                }
                assert(cur@ =~= lines_of(s@.take(i + 1)).last());
            }
        } else {
            cur.push(c);
            proof {
                assert forall|k: int| 0 <= k < lines@.len() implies (#[trigger] lines@[k])@
                    == lines_of(s@.take(i + 1))[k] by {
                    assert(lines@[k] == prev[k]);
                }
            }
        }
        i = i + 1;
    }
    lines.push(cur);
    assert(s@.take(chars@.len() as int) =~= s@);
    lines
}

fn same_chars(a: &Vec<char>, b: &str) -> (r: bool)
    ensures
        r == (a@ == b@),
{
    let y = crate::names::chars_of(b);
    if a.len() != y.len() {
        return false;
    }
    let mut i: usize = 0;
    while i < a.len()
        invariant
            y@ == b@,
            a@.len() == y@.len(),
            i <= a@.len(),
            forall|k: int| 0 <= k < i ==> a@[k] == y@[k],
        decreases a@.len() - i,
    {
        if a[i] != y[i] {
            return false;
        }
        i = i + 1;
    }
    assert(a@ =~= y@);
    true
}

fn starts_with_chars(a: &Vec<char>, p: &str) -> (r: bool)
    ensures
        r == p@.is_prefix_of(a@),
{
    let y = crate::names::chars_of(p);
    if y.len() > a.len() {
        return false;
    }
    let mut i: usize = 0;
    while i < y.len()
        invariant
            y@ == p@,
            y@.len() <= a@.len(),
            i <= y@.len(),
            forall|k: int| 0 <= k < i ==> a@[k] == y@[k],
        decreases y@.len() - i,
    {
        if a[i] != y[i] {
            return false;
        }
        i = i + 1;
    }
    true
}

fn missing_exec(t: &Vec<char>) -> (r: Option<Requirement>)
    ensures
        r == missing_in(t@),
{
    if same_chars(t, "ADMIN_MISSING") {
        Some(Requirement::Administrator)
    } else if same_chars(t, "NETQOS_MISSING") {
        Some(Requirement::NetQos)
    } else if same_chars(t, "POWERSHELL_OLD") {
        Some(Requirement::PowerShell)
    } else if same_chars(t, "QOS_CREATE_FAILED") {
        Some(Requirement::PolicyCreation)
    } else {
        None
    }
}

fn unchecked_exec(t: &Vec<char>) -> (r: Option<Requirement>)
    ensures
        r == unchecked_in(t@),
{
    if starts_with_chars(t, "ADMIN_ERROR") {
        Some(Requirement::Administrator)
    } else if starts_with_chars(t, "NETQOS_ERROR") {
        Some(Requirement::NetQos)
    } else if starts_with_chars(t, "POWERSHELL_ERROR") {
        Some(Requirement::PowerShell)
    } else {
        None
    }
}

fn is_marker_exec(c: char) -> (r: bool)
    ensures
        r == is_marker(c),
{
    c == '\u{1F50D}' || c == '\u{2705}' || c == '\u{274C}' || c == '\u{26A0}' || c == '\u{1F4CA}'
        || c == '\u{1F9F9}'
}

/// Reads the report of the system check: one token per line; blank lines
/// and lines that open with a progress marker carry none.
pub fn assess_requirements(report: &str) -> (r: RequirementReport)
    ensures
        r.missing@ == missing_of(tokens_of(lines_of(report@))),
        r.unchecked@ == unchecked_of(tokens_of(lines_of(report@))),
{
    let lines = split_lines(report);
    let ghost ls = lines_of(report@);
    let mut missing: Vec<Requirement> = Vec::new();
    let mut unchecked: Vec<Requirement> = Vec::new();
    let mut k: usize = 0;
    while k < lines.len()
        invariant
            lines@.len() == ls.len(),
            ls == lines_of(report@),
            forall|i: int| 0 <= i < lines@.len() ==> (#[trigger] lines@[i])@ == ls[i],
            k <= lines@.len(),
            missing@ == missing_of(tokens_of(ls.take(k as int))),
            unchecked@ == unchecked_of(tokens_of(ls.take(k as int))),
        decreases lines@.len() - k,
    {
        let t = crate::rate::trim_chars(&lines[k]);
        proof {
            let w = ls.take(k + 1);
            assert(w.drop_last() =~= ls.take(k as int));
            assert(w.last() == ls[k as int]);
        }
        if t.len() > 0 && !is_marker_exec(t[0]) {
            proof {
                let toks = tokens_of(ls.take(k as int));
                assert(tokens_of(ls.take(k + 1)) == toks.push(t@));
                assert(toks.push(t@).drop_last() =~= toks);
            }
            match missing_exec(&t) {
                Some(m) => missing.push(m),
                None => {},
            }
            match unchecked_exec(&t) {
                Some(u) => unchecked.push(u),
                None => {},
            }
        }
        k = k + 1;
    }
    assert(ls.take(ls.len() as int) =~= ls);
    RequirementReport { missing, unchecked }
}

impl Requirement {
    /// The message shown when the prerequisite is missing.
    pub fn missing_message(&self) -> (r: &'static str)
        ensures
            r@ == missing_text(*self),
    {
        match self {
            Requirement::Administrator => "Permissions administrateur manquantes",
            Requirement::NetQos => "Module NetQoS non disponible",
            Requirement::PowerShell => "Version PowerShell insuffisante",
            Requirement::PolicyCreation => "Impossible de créer des politiques QoS",
        }
    }
}

/// The message of a missing prerequisite.
pub open spec fn missing_text(r: Requirement) -> Seq<char> {
    match r {
        Requirement::Administrator => "Permissions administrateur manquantes"@,
        Requirement::NetQos => "Module NetQoS non disponible"@,
        Requirement::PowerShell => "Version PowerShell insuffisante"@,
        Requirement::PolicyCreation => "Impossible de créer des politiques QoS"@,
    }
}

/// The messages of `ms`, separated by ", ".
pub open spec fn joined(ms: Seq<Requirement>) -> Seq<char>
    decreases ms.len(),
{
    if ms.len() == 0 {
        seq![]
    } else if ms.len() == 1 {
        missing_text(ms[0])
    } else {
        joined(ms.drop_last()) + ", "@ + missing_text(ms.last())
    }
}

/// The error text for a start refused for `missing` prerequisites.
pub fn missing_summary(missing: &Vec<Requirement>) -> (r: String)
    ensures
        r@ == "Prérequis système manquants: "@ + joined(missing@),
{
    let mut s = String::from_str("Prérequis système manquants: ");
    let ghost head = s@;
    let mut i: usize = 0;
    while i < missing.len()
        invariant
            i <= missing@.len(),
            head == "Prérequis système manquants: "@,
            s@ == head + joined(missing@.take(i as int)),
        decreases missing@.len() - i,
    {
        let ghost before = s@;
        if i > 0 {
            s.append(", ");
        }
        s.append(missing[i].missing_message());
        proof {
            let w = missing@.take(i + 1);
            assert(w.drop_last() =~= missing@.take(i as int));
            assert(w.last() == missing@[i as int]);
            if i == 0 {
                assert(w =~= seq![missing@[0]]);
                assert(s@ =~= head + joined(w));
            } else {
                assert(s@ =~= head + joined(w));
            }
        }
        i = i + 1;
    }
    assert(missing@.take(missing@.len() as int) =~= missing@);
    s
}

} // verus!
