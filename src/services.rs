//! The catalogue of Windows services that a gaming session may pause.
use vstd::prelude::*;
use vstd::string::StringExecFns;

verus! {

/// What can be done to a service.
#[derive(Debug, Clone, Copy, PartialEq, Eq, Structural)]
pub enum ServiceAction {
    Disable,
    Enable,
    Stop,
    Start,
}

/// The services that are safe to modify without breaking the system.
pub open spec fn is_safe_service(name: Seq<char>) -> bool {
    ||| name == "WSearch"@
    ||| name == "SysMain"@
    ||| name == "wuauserv"@
    ||| name == "Spooler"@
    ||| name == "Fax"@
    ||| name == "TabletInputService"@
    ||| name == "WerSvc"@
    ||| name == "Themes"@
    ||| name == "Browser"@
}

fn same_text(a: &str, b: &str) -> (r: bool)
    ensures
        r == (a@ == b@),
{
    let x = crate::names::chars_of(a);
    let y = crate::names::chars_of(b);
    if x.len() != y.len() {
        return false;
    }
    let mut i: usize = 0;
    while i < x.len()
        invariant
            x@ == a@,
            y@ == b@,
            x@.len() == y@.len(),
            i <= x@.len(),
            forall|k: int| 0 <= k < i ==> x@[k] == y@[k],
        decreases x@.len() - i,
    {
        if x[i] != y[i] {
            return false;
        }
        i = i + 1;
    }
    assert(x@ =~= y@);
    true
}

/// Whether a service (by its exact name) may be modified.
pub fn is_service_safe_to_modify(service_name: &str) -> (r: bool)
    ensures
        r == is_safe_service(service_name@),
{
    same_text(service_name, "WSearch") || same_text(service_name, "SysMain") || same_text(
        service_name,
        "wuauserv",
    ) || same_text(service_name, "Spooler") || same_text(service_name, "Fax") || same_text(
        service_name,
        "TabletInputService",
    ) || same_text(service_name, "WerSvc") || same_text(service_name, "Themes") || same_text(
        service_name,
        "Browser",
    )
}

fn entry(name: &str, display: &str, description: &str) -> (r: (String, String, String))
    ensures
        r.0@ == name@ && r.1@ == display@ && r.2@ == description@,
{
    (String::from_str(name), String::from_str(display), String::from_str(description))
}

/// The services recommended for a gaming session, as
/// (service name, display name, description).
pub fn get_service_recommendations() -> (r: Vec<(String, String, String)>)
    ensures
        r@.len() == 5,
        r@[0].0@ == "WSearch"@ && r@[0].1@ == "Windows Search"@,
        r@[1].0@ == "SysMain"@ && r@[1].1@ == "Superfetch"@,
        r@[2].0@ == "wuauserv"@ && r@[2].1@ == "Windows Update"@,
        r@[3].0@ == "Spooler"@ && r@[3].1@ == "Print Spooler"@,
        r@[4].0@ == "WerSvc"@ && r@[4].1@ == "Windows Error Reporting"@,
        r@[0].2@ == "Indexes files for faster searching. Can be disabled for gaming."@,
        r@[1].2@ == "Preloads frequently used apps. May cause disk usage during gaming."@,
        r@[2].2@ == "Handles Windows updates. Can be temporarily stopped."@,
        r@[3].2@ == "Manages printing. Safe to disable if no printer is used."@,
        r@[4].2@ == "Collects error reports. Can be disabled for privacy and performance."@,
        forall|i: int| 0 <= i < 5 ==> is_safe_service((#[trigger] r@[i]).0@),
{
    let mut v: Vec<(String, String, String)> = Vec::new();
    v.push(
        entry(
            "WSearch",
            "Windows Search",
            "Indexes files for faster searching. Can be disabled for gaming.",
        ),
    );
    v.push(
        entry(
            "SysMain",
            "Superfetch",
            "Preloads frequently used apps. May cause disk usage during gaming.",
        ),
    );
    v.push(
        entry("wuauserv", "Windows Update", "Handles Windows updates. Can be temporarily stopped."),
    );
    v.push(
        entry(
            "Spooler",
            "Print Spooler",
            "Manages printing. Safe to disable if no printer is used.",
        ),
    );
    v.push(
        entry(
            "WerSvc",
            "Windows Error Reporting",
            "Collects error reports. Can be disabled for privacy and performance.",
        ),
    );
    v
}

/// Queries about the state of services.
pub struct ServiceManager;

impl ServiceManager {
    /// Whether a service is running. The state is not read from the service
    /// manager: every service reads as not running, so no optimisation is
    /// ever skipped on its account.
    pub fn is_service_running(service_name: &str) -> (r: Result<bool, String>)
        ensures
            r == Ok::<bool, String>(false),
    {
        Ok(false)
    }
}

} // verus!
