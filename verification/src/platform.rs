//! Platform compatibility of packages: the `os` and `cpu` fields of a
//! manifest against the machine's identifiers.

use crate::strs::{copy_strs, strs_view};
use crate::text::{cat, owned, slice, str_eq};
use vstd::prelude::*;
use vstd::string::StrSliceExecFns;

verus! {

/// Why a package does not fit the current platform.
#[derive(Debug, Clone)]
pub enum PlatformMismatch {
    /// The package requires a different OS.
    Os {
        /// OS identifiers the package supports.
        package_supports: Vec<String>,
        /// The current OS identifier.
        current: String,
    },
    /// The package requires a different CPU.
    Cpu {
        /// CPU architectures the package supports.
        package_supports: Vec<String>,
        /// The current CPU architecture.
        current: String,
    },
}

/// A constraint `c` (or `!c` for "anything but") admits `current` when it
/// names it, or one of the names in `aliases(c)`.
pub open spec fn constraint_admits(
    constraint: Seq<char>,
    current: Seq<char>,
    aliases: spec_fn(Seq<char>) -> Option<Seq<char>>,
) -> bool {
    if constraint.len() > 0 && constraint[0] == '!' {
        current != constraint.skip(1)
    } else {
        current == constraint || aliases(constraint) == Some(current)
    }
}

/// OS constraints have no aliases.
pub open spec fn no_alias(c: Seq<char>) -> Option<Seq<char>> {
    None
}

/// The other spelling a CPU constraint also admits.
pub open spec fn cpu_alias(c: Seq<char>) -> Option<Seq<char>> {
    if c == seq!['x', '6', '4'] {
        Some(seq!['x', '8', '6', '_', '6', '4'])
    } else if c == seq!['x', '8', '6'] {
        Some(seq!['i', '6', '8', '6'])
    } else if c == seq!['a', 'r', 'm', '6', '4'] {
        Some(seq!['a', 'a', 'r', 'c', 'h', '6', '4'])
    } else if c == seq!['a', 'r', 'm'] {
        Some(seq!['a', 'r', 'm', 'v', '7'])
    } else {
        None
    }
}

/// An empty list admits everything; otherwise some entry must admit.
pub open spec fn list_admits(
    list: Seq<Seq<char>>,
    current: Seq<char>,
    aliases: spec_fn(Seq<char>) -> Option<Seq<char>>,
) -> bool {
    list.len() == 0 || exists|i: int|
        0 <= i < list.len() && constraint_admits(#[trigger] list[i], current, aliases)
}

/// The verdict on a package's `os` and `cpu` lists: the OS is checked
/// first.
pub open spec fn platform_verdict(
    os: Seq<Seq<char>>,
    cpu: Seq<Seq<char>>,
    current_os: Seq<char>,
    current_cpu: Seq<char>,
    r: Option<PlatformMismatch>,
) -> bool {
    if !list_admits(os, current_os, |c: Seq<char>| no_alias(c)) {
        r matches Some(PlatformMismatch::Os { package_supports, current })
            && strs_view(package_supports@) == os && current@ == current_os
    } else if !list_admits(cpu, current_cpu, |c: Seq<char>| cpu_alias(c)) {
        r matches Some(PlatformMismatch::Cpu { package_supports, current })
            && strs_view(package_supports@) == cpu && current@ == current_cpu
    } else {
        r is None
    }
}

/// A negated constraint `!x` admits exactly the identifiers other than `x`,
/// whatever aliases plain constraints have; a plain constraint admits at
/// least the identifier it names.
pub proof fn lemma_negated_constraint(
    x: Seq<char>,
    current: Seq<char>,
    aliases: spec_fn(Seq<char>) -> Option<Seq<char>>,
)
    ensures
        constraint_admits(seq!['!'] + x, current, aliases) <==> current != x,
        (x.len() == 0 || x[0] != '!') ==> constraint_admits(x, x, aliases),
{
    assert((seq!['!'] + x).skip(1) =~= x);
}

/// A package fails on its operating system exactly when its `os` list is
/// not empty and every entry shuts the current system out: a negated entry
/// `!x` where `x` is the current system, a plain entry naming another one.
pub proof fn lemma_os_verdict(
    os: Seq<Seq<char>>,
    cpu: Seq<Seq<char>>,
    current_os: Seq<char>,
    current_cpu: Seq<char>,
    r: Option<PlatformMismatch>,
)
    requires
        platform_verdict(os, cpu, current_os, current_cpu, r),
    ensures
        (r matches Some(PlatformMismatch::Os { .. })) <==> (os.len() > 0 && forall|i: int|
            0 <= i < os.len() ==> if (#[trigger] os[i]).len() > 0 && os[i][0] == '!' {
                os[i].skip(1) == current_os
            } else {
                os[i] != current_os
            }),
{
    let a = |c: Seq<char>| no_alias(c);
    if os.len() > 0 && forall|i: int|
        0 <= i < os.len() ==> if (#[trigger] os[i]).len() > 0 && os[i][0] == '!' {
            os[i].skip(1) == current_os
        } else {
            os[i] != current_os
        } {
        assert forall|i: int| 0 <= i < os.len() implies !constraint_admits(#[trigger] os[i], current_os, a) by {
            assert(a(os[i]) == None::<Seq<char>>);
        }
    } else if os.len() > 0 {
        let i = choose|i: int|
            0 <= i < os.len() && !(if (#[trigger] os[i]).len() > 0 && os[i][0] == '!' {
                os[i].skip(1) == current_os
            } else {
                os[i] != current_os
            });
        assert(constraint_admits(os[i], current_os, a));
    }
}

/// Whether an OS constraint admits the current OS.
pub fn os_matches(constraint: &str, current_os: &str) -> (r: bool)
    ensures
        r == constraint_admits(constraint@, current_os@, |c: Seq<char>| no_alias(c)),
        constraint@.len() > 0 && constraint@[0] == '!' ==> (r <==> current_os@ != constraint@.skip(1)),
        !(constraint@.len() > 0 && constraint@[0] == '!') ==> (r <==> current_os@ == constraint@),
{
    let n = constraint.unicode_len();
    if n > 0 && constraint.get_char(0) == '!' {
        !str_eq(current_os, slice(constraint, 1, n))
    } else {
        str_eq(current_os, constraint)
    }
}

/// Whether a CPU constraint admits the current CPU.
pub fn cpu_matches(constraint: &str, current_cpu: &str) -> (r: bool)
    ensures
        r == constraint_admits(constraint@, current_cpu@, |c: Seq<char>| cpu_alias(c)),
        constraint@.len() > 0 && constraint@[0] == '!' ==> (r <==> current_cpu@ != constraint@.skip(1)),
        !(constraint@.len() > 0 && constraint@[0] == '!') && current_cpu@ == constraint@ ==> r,
{
    let n = constraint.unicode_len();
    if n > 0 && constraint.get_char(0) == '!' {
        return !str_eq(current_cpu, slice(constraint, 1, n));
    }
    if str_eq(current_cpu, constraint) {
        return true;
    }
    let x64 = "x64";
    let x86 = "x86";
    let arm64 = "arm64";
    let arm = "arm";
    let x86_64 = "x86_64";
    let i686 = "i686";
    let aarch64 = "aarch64";
    let armv7 = "armv7";
    proof {
        reveal_strlit("x64");
        reveal_strlit("x86");
        reveal_strlit("arm64");
        reveal_strlit("arm");
        reveal_strlit("x86_64");
        reveal_strlit("i686");
        reveal_strlit("aarch64");
        reveal_strlit("armv7");
        assert(x64@ =~= seq!['x', '6', '4']);
        assert(x86@ =~= seq!['x', '8', '6']);
        assert(arm64@ =~= seq!['a', 'r', 'm', '6', '4']);
        assert(arm@ =~= seq!['a', 'r', 'm']);
        assert(x86_64@ =~= seq!['x', '8', '6', '_', '6', '4']);
        assert(i686@ =~= seq!['i', '6', '8', '6']);
        assert(aarch64@ =~= seq!['a', 'a', 'r', 'c', 'h', '6', '4']);
        assert(armv7@ =~= seq!['a', 'r', 'm', 'v', '7']);
    }
    if str_eq(constraint, x64) {
        str_eq(current_cpu, x86_64)
    } else if str_eq(constraint, x86) {
        str_eq(current_cpu, i686)
    } else if str_eq(constraint, arm64) {
        str_eq(current_cpu, aarch64)
    } else if str_eq(constraint, arm) {
        str_eq(current_cpu, armv7)
    } else {
        false
    }
}

/// Checks a package's `os` and `cpu` lists against the current platform:
/// `None` when both admit it, else the first mismatch (OS before CPU).
pub fn check_platform_compatibility(
    pkg_os: &Vec<String>,
    pkg_cpu: &Vec<String>,
    current_os: &str,
    current_cpu: &str,
) -> (r: Option<PlatformMismatch>)
    ensures
        platform_verdict(strs_view(pkg_os@), strs_view(pkg_cpu@), current_os@, current_cpu@, r),
{
    let mut os_ok = pkg_os.len() == 0;
    let mut i: usize = 0;
    while i < pkg_os.len() && !os_ok
        invariant
            i <= pkg_os@.len(),
            os_ok ==> list_admits(strs_view(pkg_os@), current_os@, |c: Seq<char>| no_alias(c)),
            !os_ok ==> pkg_os@.len() > 0 && forall|j: int|
                0 <= j < i ==> !constraint_admits(
                    #[trigger] strs_view(pkg_os@)[j],
                    current_os@,
                    |c: Seq<char>| no_alias(c),
                ),
        decreases pkg_os@.len() - i,
    {
        if os_matches(pkg_os[i].as_str(), current_os) {
            os_ok = true;
            proof {
                assert(constraint_admits(strs_view(pkg_os@)[i as int], current_os@, |c: Seq<char>| no_alias(c)));
            }
        }
        i = i + 1;
    }
    if !os_ok {
        return Some(PlatformMismatch::Os { package_supports: copy_strs(pkg_os), current: owned(current_os) });
    }
    let mut cpu_ok = pkg_cpu.len() == 0;
    let mut j: usize = 0;
    while j < pkg_cpu.len() && !cpu_ok
        invariant
            j <= pkg_cpu@.len(),
            cpu_ok ==> list_admits(strs_view(pkg_cpu@), current_cpu@, |c: Seq<char>| cpu_alias(c)),
            !cpu_ok ==> pkg_cpu@.len() > 0 && forall|t: int|
                0 <= t < j ==> !constraint_admits(
                    #[trigger] strs_view(pkg_cpu@)[t],
                    current_cpu@,
                    |c: Seq<char>| cpu_alias(c),
                ),
        decreases pkg_cpu@.len() - j,
    {
        if cpu_matches(pkg_cpu[j].as_str(), current_cpu) {
            cpu_ok = true;
            proof {
                assert(constraint_admits(strs_view(pkg_cpu@)[j as int], current_cpu@, |c: Seq<char>| cpu_alias(c)));
            }
        }
        j = j + 1;
    }
    if !cpu_ok {
        return Some(PlatformMismatch::Cpu { package_supports: copy_strs(pkg_cpu), current: owned(current_cpu) });
    }
    None
}

/// The CPU identifier npm uses for a Rust architecture name.
pub open spec fn cpu_identifier_spec(arch: Seq<char>) -> Seq<char> {
    if arch == seq!['x', '8', '6', '_', '6', '4'] {
        seq!['x', '6', '4']
    } else if arch == seq!['a', 'a', 'r', 'c', 'h', '6', '4'] {
        seq!['a', 'r', 'm', '6', '4']
    } else {
        arch
    }
}

/// The CPU identifier npm uses for a Rust architecture name (`x86_64` is
/// `x64`, `aarch64` is `arm64`, others unchanged).
pub fn cpu_identifier(arch: &str) -> (r: String)
    ensures
        r@ == cpu_identifier_spec(arch@),
{
    let x86_64 = "x86_64";
    let aarch64 = "aarch64";
    proof {
        reveal_strlit("x86_64");
        reveal_strlit("aarch64");
        assert(x86_64@ =~= seq!['x', '8', '6', '_', '6', '4']);
        assert(aarch64@ =~= seq!['a', 'a', 'r', 'c', 'h', '6', '4']);
    }
    if str_eq(arch, x86_64) {
        let x64 = "x64";
        proof {
            reveal_strlit("x64");
            assert(x64@ =~= seq!['x', '6', '4']);
        }
        owned(x64)
    } else if str_eq(arch, aarch64) {
        let arm64 = "arm64";
        proof {
            reveal_strlit("arm64");
            assert(arm64@ =~= seq!['a', 'r', 'm', '6', '4']);
        }
        owned(arm64)
    } else {
        owned(arch)
    }
}

/// What `{:?}` writes for a list of strings: the `Debug` form of a
/// `Vec<String>`, quoted and escaped items in brackets.
pub uninterp spec fn debug_list_text(items: Seq<Seq<char>>) -> Seq<char>;

/// `format!("{:?}", items)` on a list of strings.
#[verifier::external_body]
fn debug_list(items: &Vec<String>) -> (r: String)
    ensures
        r@ == debug_list_text(strs_view(items@)),
{
    format!("{:?}", items)
}

/// The text a platform mismatch is shown as.
pub open spec fn mismatch_text(m: PlatformMismatch) -> Seq<char> {
    match m {
        PlatformMismatch::Os { package_supports, current } =>
            "OS mismatch: package requires one of "@ + debug_list_text(strs_view(package_supports@))
                + ", current is '"@ + current@ + "'"@,
        PlatformMismatch::Cpu { package_supports, current } =>
            "CPU mismatch: package requires one of "@ + debug_list_text(strs_view(package_supports@))
                + ", current is '"@ + current@ + "'"@,
    }
}

impl PlatformMismatch {
    /// The mismatch as it is shown to the user.
    pub fn message(&self) -> (r: String)
        ensures
            r@ == mismatch_text(*self),
    {
        let (lead, list, current) = match self {
            PlatformMismatch::Os { package_supports, current } => (
                "OS mismatch: package requires one of ",
                package_supports,
                current,
            ),
            PlatformMismatch::Cpu { package_supports, current } => (
                "CPU mismatch: package requires one of ",
                package_supports,
                current,
            ),
        };
        let mut s = cat(lead, debug_list(list).as_str());
        s.append(", current is '");
        s.append(current.as_str());
        s.append("'");
        proof {
            reveal_strlit("OS mismatch: package requires one of ");
            reveal_strlit("CPU mismatch: package requires one of ");
            reveal_strlit(", current is '");
            reveal_strlit("'");
        }
        s
    }
}


/// The OS identifier npm uses for a Rust OS name (`macos` is `darwin`,
/// `windows` is `win32`, others unchanged).
pub open spec fn os_identifier_spec(os: Seq<char>) -> Seq<char> {
    if os == "macos"@ {
        "darwin"@
    } else if os == "windows"@ {
        "win32"@
    } else {
        os
    }
}

/// The npm identifier of an operating system.
pub fn os_identifier(os: &str) -> (r: String)
    ensures
        r@ == os_identifier_spec(os@),
{
    if str_eq(os, "macos") {
        owned("darwin")
    } else if str_eq(os, "windows") {
        owned("win32")
    } else {
        owned(os)
    }
}

} // verus!
