//! The page of checks: whether the files that the system needs are there.

use vstd::prelude::*;

verus! {

/// A file that the system needs.
#[derive(Clone, Copy, PartialEq, Eq, Structural, Debug)]
pub enum NeededFile {
    AuditLog,
    Vault,
    BusSocket,
}

/// How a check ends: a socket that is not there is only a warning.
pub open spec fn status_of(file: NeededFile, found: bool) -> Seq<char> {
    if found {
        "ok"@
    } else if file == NeededFile::BusSocket {
        "warning"@
    } else {
        "error"@
    }
}

/// How a check ends.
pub fn check_status(file: NeededFile, found: bool) -> (r: &'static str)
    ensures
        r@ == status_of(file, found),
{
    if found {
        "ok"
    } else if file == NeededFile::BusSocket {
        "warning"
    } else {
        "error"
    }
}

/// The name of a check.
pub open spec fn named(file: NeededFile) -> Seq<char> {
    match file {
        NeededFile::AuditLog => "Audit Log Path"@,
        NeededFile::Vault => "Vault Path"@,
        NeededFile::BusSocket => "Bus Socket"@,
    }
}

/// The name of a check.
pub fn check_name(file: NeededFile) -> (r: &'static str)
    ensures
        r@ == named(file),
{
    match file {
        NeededFile::AuditLog => "Audit Log Path",
        NeededFile::Vault => "Vault Path",
        NeededFile::BusSocket => "Bus Socket",
    }
}

/// A check as the page shows it.
pub struct Check {
    pub name: &'static str,
    pub status: &'static str,
    pub details: String,
}

/// The check of a file, from its path and whether it is there.
pub fn check(file: NeededFile, path: String, found: bool) -> (r: Check)
    ensures
        r.name@ == named(file),
        r.status@ == status_of(file, found),
        r.details == path,
{
    Check { name: check_name(file), status: check_status(file, found), details: path }
}

/// A file that is found is in order. One that is missing is an error, but for the socket, which is
/// only a warning.
pub proof fn law_only_the_socket_may_be_missing(file: NeededFile)
    ensures
        status_of(file, true) == "ok"@,
        file is BusSocket ==> status_of(file, false) == "warning"@,
        file is AuditLog || file is Vault ==> status_of(file, false) == "error"@,
{
}

} // verus!
