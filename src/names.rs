//! Process names: the application name a policy matches, and the heuristics
//! that read a process name.
use vstd::prelude::*;
use vstd::string::{StrSliceExecFns, StringExecFns};

verus! {

/// `needle` occurs in `hay` as a contiguous run.
pub open spec fn has_infix(hay: Seq<char>, needle: Seq<char>) -> bool {
    exists|i: int| 0 <= i <= hay.len() - needle.len() && #[trigger] hay.subrange(i, i + needle.len()) == needle
}

/// The characters of `s`, in order.
pub fn chars_of(s: &str) -> (r: Vec<char>)
    ensures
        r@ == s@,
{
    let n = s.unicode_len();
    let mut out: Vec<char> = Vec::new();
    let mut i: usize = 0;
    while i < n
        invariant
            n == s@.len(),
            i <= n,
            out@ == s@.take(i as int),
        decreases n - i,
    {
        out.push(s.get_char(i));
        i = i + 1;
        assert(out@ =~= s@.take(i as int));
    }
    assert(out@ =~= s@);
    out
}

/// Whether `needle` occurs in `hay`.
pub fn contains_str(hay: &str, needle: &str) -> (r: bool)
    ensures
        r == has_infix(hay@, needle@),
{
    let h = chars_of(hay);
    let nd = chars_of(needle);
    if nd.len() > h.len() {
        return false;
    }
    let last = h.len() - nd.len();
    assert(h@.len() <= usize::MAX);
    let mut i: usize = 0;
    while i <= last
        invariant
            h@ == hay@,
            nd@ == needle@,
            last == h@.len() - nd@.len(),
            h@.len() <= usize::MAX,
            i <= last,
            forall|k: int| 0 <= k < i ==> #[trigger] h@.subrange(k, k + nd@.len()) != nd@,
        decreases last + 1 - i,
    {
        let mut j: usize = 0;
        let mut same = true;
        while j < nd.len()
            invariant
                h@ == hay@,
                nd@ == needle@,
                i <= last,
                last == h@.len() - nd@.len(),
                i + nd@.len() <= h@.len(),
                h@.len() <= usize::MAX,
                j <= nd@.len(),
                same == (forall|x: int| 0 <= x < j ==> h@[i + x] == nd@[x]),
            decreases nd@.len() - j,
        {
            if h[i + j] != nd[j] {
                same = false;
            }
            j = j + 1;
        }
        if same {
            assert(h@.subrange(i as int, i + nd@.len()) =~= nd@);
            return true;
        }
        proof {
            let x = choose|x: int| 0 <= x < nd@.len() && h@[i + x] != nd@[x];
            assert(h@.subrange(i as int, i + nd@.len())[x] != nd@[x]);
        }
        if i == last {
            return false;
        }
        i = i + 1;
    }
    false
}

/// The application name a policy matches for a process called `name`:
/// the name itself when it mentions ".exe", else the name with ".exe" added.
pub open spec fn exe_name_of(name: Seq<char>) -> Seq<char> {
    if has_infix(name, ".exe"@) {
        name
    } else {
        name + ".exe"@
    }
}

/// The application name a policy matches for a process called `name`.
pub fn exe_name(name: &str) -> (r: String)
    ensures
        r@ == exe_name_of(name@),
{
    let mut s = String::from_str(name);
    if !contains_str(name, ".exe") {
        s.append(".exe");
    }
    s
}

/// The lower-case form of a name.
pub uninterp spec fn lower_of(s: Seq<char>) -> Seq<char>;

/// Relies on str::to_lowercase: the result depends on the characters alone.
#[verifier::external_body]
fn lowercase(s: &str) -> (r: String)
    ensures
        r@ == lower_of(s@),
{
    s.to_lowercase()
}

/// A lower-cased name that mentions one of Windows's own processes.
pub open spec fn names_system_process(l: Seq<char>) -> bool {
    ||| has_infix(l, "svchost.exe"@)
    ||| has_infix(l, "system"@)
    ||| has_infix(l, "registry"@)
    ||| has_infix(l, "dwm.exe"@)
    ||| has_infix(l, "winlogon.exe"@)
    ||| has_infix(l, "csrss.exe"@)
    ||| has_infix(l, "lsass.exe"@)
    ||| has_infix(l, "services.exe"@)
    ||| has_infix(l, "spoolsv.exe"@)
    ||| has_infix(l, "explorer.exe"@)
    ||| has_infix(l, "taskhost.exe"@)
    ||| has_infix(l, "rundll32.exe"@)
    ||| has_infix(l, "dllhost.exe"@)
    ||| has_infix(l, "msiexec.exe"@)
    ||| has_infix(l, "conhost.exe"@)
    ||| has_infix(l, "audiodg.exe"@)
    ||| has_infix(l, "wininit.exe"@)
    ||| has_infix(l, "fontdrvhost.exe"@)
    ||| has_infix(l, "sihost.exe"@)
    ||| has_infix(l, "ctfmon.exe"@)
}

/// Whether an already lower-cased name mentions one of Windows's own processes.
pub fn names_system_process_lowered(l: &str) -> (r: bool)
    ensures
        r == names_system_process(l@),
{
    contains_str(l, "svchost.exe") || contains_str(l, "system") || contains_str(l, "registry")
        || contains_str(l, "dwm.exe") || contains_str(l, "winlogon.exe") || contains_str(
        l,
        "csrss.exe",
    ) || contains_str(l, "lsass.exe") || contains_str(l, "services.exe") || contains_str(
        l,
        "spoolsv.exe",
    ) || contains_str(l, "explorer.exe") || contains_str(l, "taskhost.exe") || contains_str(
        l,
        "rundll32.exe",
    ) || contains_str(l, "dllhost.exe") || contains_str(l, "msiexec.exe") || contains_str(
        l,
        "conhost.exe",
    ) || contains_str(l, "audiodg.exe") || contains_str(l, "wininit.exe") || contains_str(
        l,
        "fontdrvhost.exe",
    ) || contains_str(l, "sihost.exe") || contains_str(l, "ctfmon.exe")
}

/// Whether a process name, in any case, is one of Windows's own processes,
/// which are kept out of the lists offered to the user.
pub fn is_windows_system_process(process_name: &str) -> (r: bool)
    ensures
        r == names_system_process(lower_of(process_name@)),
{
    let l = lowercase(process_name);
    names_system_process_lowered(l.as_str())
}

/// The number of connections guessed for a lower-cased process name.
pub open spec fn connections_guess(l: Seq<char>) -> u32 {
    if has_infix(l, "chrome"@) {
        8
    } else if has_infix(l, "firefox"@) {
        6
    } else if has_infix(l, "discord"@) {
        3
    } else if has_infix(l, "steam"@) {
        12
    } else if has_infix(l, "teams"@) {
        5
    } else if has_infix(l, "zoom"@) {
        4
    } else if has_infix(l, "spotify"@) {
        2
    } else if has_infix(l, "vlc"@) {
        1
    } else if has_infix(l, "edge"@) {
        7
    } else {
        1
    }
}

/// The connections guessed for an already lower-cased name (display only).
pub fn connections_for_lowered(l: &str) -> (r: u32)
    ensures
        r == connections_guess(l@),
{
    if contains_str(l, "chrome") {
        8
    } else if contains_str(l, "firefox") {
        6
    } else if contains_str(l, "discord") {
        3
    } else if contains_str(l, "steam") {
        12
    } else if contains_str(l, "teams") {
        5
    } else if contains_str(l, "zoom") {
        4
    } else if contains_str(l, "spotify") {
        2
    } else if contains_str(l, "vlc") {
        1
    } else if contains_str(l, "edge") {
        7
    } else {
        1
    }
}

/// The connections guessed for a process name, in any case (display only).
pub fn estimate_connections_for_process(name: &str) -> (r: u32)
    ensures
        r == connections_guess(lower_of(name@)),
{
    let l = lowercase(name);
    connections_for_lowered(l.as_str())
}

} // verus!
