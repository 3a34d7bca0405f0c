use vstd::prelude::*;
use vstd::utf8::encode_utf8;

use crate::bytes::{begins_with, is_hex_digit, occurs_at};
use crate::error::CliError;

verus! {

/// One `[[package]]` entry of a Cargo lock file, as far as the lock checks read it.
pub struct LockPackage {
    pub name: String,
    pub source: Option<String>,
}

/// A Cargo lock file: its format version and its packages.
pub struct CargoLock {
    pub version: u32,
    pub package: Vec<LockPackage>,
}

/// What a lock file that passes the checks reports.
pub struct LockReport {
    pub format_version: u32,
    pub package_count: usize,
    pub engine_package_count: usize,
    pub pinned_git_source_count: usize,
    pub unpinned_git_source_count: usize,
}

/// The most packages that one lock file may list.
pub const MAX_LOCK_PACKAGES: usize = 100_000;

/// A package that provides a merge engine.
pub open spec fn is_engine_name(name: Seq<char>) -> bool {
    name == "syncer"@ || name == "syncer-c"@ || name == "syncer-rs"@
}

/// A source that Cargo fetches from Git.
pub open spec fn is_git_source(source: Seq<char>) -> bool {
    occurs_at(encode_utf8(source), encode_utf8("git+"@), 0)
}

/// The bytes after the last `#` of a source are a full 40-digit hexadecimal revision.
pub open spec fn is_pinned_bytes(b: Seq<u8>) -> bool {
    exists|k: int|
        0 <= k < b.len() && b[k] == 35 && b.len() - k - 1 == 40 && (forall|j: int|
            k < j < b.len() ==> is_hex_digit(#[trigger] b[j]))
}

pub open spec fn is_pinned_source(source: Seq<char>) -> bool {
    is_pinned_bytes(encode_utf8(source))
}

pub open spec fn git_source_of(p: LockPackage) -> Option<Seq<char>> {
    match p.source {
        Some(s) => if is_git_source(s@) { Some(s@) } else { None },
        None => None,
    }
}

pub open spec fn engine_count(ps: Seq<LockPackage>) -> nat
    decreases ps.len(),
{
    if ps.len() == 0 {
        0
    } else {
        engine_count(ps.drop_last()) + if is_engine_name(ps.last().name@) { 1nat } else { 0nat }
    }
}

pub open spec fn pinned_count(ps: Seq<LockPackage>) -> nat
    decreases ps.len(),
{
    if ps.len() == 0 {
        0
    } else {
        pinned_count(ps.drop_last()) + match git_source_of(ps.last()) {
            Some(s) => if is_pinned_source(s) { 1nat } else { 0nat },
            None => 0nat,
        }
    }
}

pub open spec fn unpinned_count(ps: Seq<LockPackage>) -> nat
    decreases ps.len(),
{
    if ps.len() == 0 {
        0
    } else {
        unpinned_count(ps.drop_last()) + match git_source_of(ps.last()) {
            Some(s) => if is_pinned_source(s) { 0nat } else { 1nat },
            None => 0nat,
        }
    }
}

/// A lock file that passes the checks: format version 3 or 4, at most
/// `MAX_LOCK_PACKAGES` packages, at most one merge-engine package, every Git source
/// pinned.
pub open spec fn lock_accepted(version: u32, ps: Seq<LockPackage>) -> bool {
    &&& 3 <= version <= 4
    &&& ps.len() <= MAX_LOCK_PACKAGES
    &&& engine_count(ps) <= 1
    &&& unpinned_count(ps) == 0
}

/// Whether the source bytes end in `#` and a 40-digit hexadecimal revision.
fn pinned_revision(b: &[u8]) -> (r: bool)
    ensures
        r == is_pinned_bytes(b@),
{
    let n = b.len();
    let mut i = n;
    while i > 0 && b[i - 1] != 35
        invariant
            i <= n,
            n == b@.len(),
            forall|j: int| i <= j < n ==> b@[j] != 35,
        decreases i,
    {
        i = i - 1;
    }
    if i == 0 {
        assert(!is_pinned_bytes(b@));
        return false;
    }
    let k = i - 1;
    assert(b@[k as int] == 35);
    if n - k - 1 != 40 {
        assert(!is_pinned_bytes(b@)) by {
            if is_pinned_bytes(b@) {
                let k2 = choose|k2: int|
                    0 <= k2 < b@.len() && b@[k2] == 35 && b@.len() - k2 - 1 == 40 && (forall|j: int|
                        k2 < j < b@.len() ==> is_hex_digit(#[trigger] b@[j]));
                if k2 < k {
                    assert(is_hex_digit(b@[k as int]));
                }
            }
        }
        return false;
    }
    let mut j = k + 1;
    while j < n
        invariant
            k < j <= n,
            n == b@.len(),
            b@[k as int] == 35,
            forall|t: int| k < t < n ==> b@[t] != 35,
            forall|t: int| k < t < j ==> is_hex_digit(#[trigger] b@[t]),
        decreases n - j,
    {
        let c = b[j];
        if !((48 <= c && c <= 57) || (65 <= c && c <= 70) || (97 <= c && c <= 102)) {
            assert(!is_pinned_bytes(b@)) by {
                if is_pinned_bytes(b@) {
                    let k2 = choose|k2: int|
                        0 <= k2 < b@.len() && b@[k2] == 35 && b@.len() - k2 - 1 == 40 && (forall|t: int|
                            k2 < t < b@.len() ==> is_hex_digit(#[trigger] b@[t]));
                    if k2 < k {
                        assert(is_hex_digit(b@[k as int]));
                    } else if k2 > k {
                        assert(b@[k2] != 35);
                    } else {
                        assert(is_hex_digit(b@[j as int]));
                    }
                }
            }
            return false;
        }
        j = j + 1;
    }
    assert(is_pinned_bytes(b@)) by {
        assert(0 <= k < b@.len() && b@[k as int] == 35 && b@.len() - k - 1 == 40);
    }
    true
}

/// Checks a Cargo lock file: its format version is 3 or 4, it lists at most
/// `MAX_LOCK_PACKAGES` packages, at most one package provides a merge engine, and every
/// Git source is pinned to a full revision. Any failure is a validation error.
pub fn validate_cargo_lock(lock: &CargoLock) -> (r: Result<LockReport, CliError>)
    ensures
        ({
            let ps = lock.package@;
            let accepted = lock_accepted(lock.version, ps);
            match r {
                Ok(report) => accepted && report.format_version == lock.version
                    && report.package_count == ps.len() && report.engine_package_count
                    == engine_count(ps) && report.pinned_git_source_count == pinned_count(ps)
                    && report.unpinned_git_source_count == 0,
                Err(e) => !accepted && e == CliError::Validation,
            }
        }),
{
    if !(3 <= lock.version && lock.version <= 4) || lock.package.len() > MAX_LOCK_PACKAGES {
        return Err(CliError::Validation);
    }
    let syncer = "syncer".to_owned();
    let syncer_c = "syncer-c".to_owned();
    let syncer_rs = "syncer-rs".to_owned();
    let mut engine_packages: usize = 0;
    let mut pinned: usize = 0;
    let mut unpinned: usize = 0;
    let n = lock.package.len();
    for i in 0..n
        invariant
            n == lock.package@.len(),
            n <= MAX_LOCK_PACKAGES,
            syncer@ == "syncer"@,
            syncer_c@ == "syncer-c"@,
            syncer_rs@ == "syncer-rs"@,
            engine_packages == engine_count(lock.package@.take(i as int)),
            pinned == pinned_count(lock.package@.take(i as int)),
            unpinned == unpinned_count(lock.package@.take(i as int)),
            engine_packages <= i,
            pinned + unpinned <= i,
    {
        let package = &lock.package[i];
        let ghost ps = lock.package@.take(i + 1);
        proof {
            assert(ps.drop_last() =~= lock.package@.take(i as int));
            assert(ps.last() == *package);
        }
        if package.name == syncer || package.name == syncer_c || package.name == syncer_rs {
            engine_packages = engine_packages + 1;
        }
        match &package.source {
            Some(source) => {
                let b = source.as_str().as_bytes();
                if begins_with(b, "git+".as_bytes()) {
                    if pinned_revision(b) {
                        pinned = pinned + 1;
                    } else {
                        unpinned = unpinned + 1;
                    }
                }
            },
            None => {},
        }
    }
    proof {
        assert(lock.package@.take(n as int) =~= lock.package@);
    }
    if engine_packages > 1 || unpinned > 0 {
        return Err(CliError::Validation);
    }
    Ok(
        LockReport {
            format_version: lock.version,
            package_count: n,
            engine_package_count: engine_packages,
            pinned_git_source_count: pinned,
            unpinned_git_source_count: unpinned,
        },
    )
}

} // verus!
