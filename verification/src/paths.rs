//! The two fixed places of the hosts table: the table itself and its backup.
use vstd::prelude::*;
use vstd::string::*;

verus! {

/// The path of the hosts table.
pub open spec fn table_path() -> Seq<char> {
    "/etc/hosts"@
}

/// The path of the backup: the table's path with the suffix `.bak`.
pub open spec fn backup_path_text() -> Seq<char> {
    table_path() + ".bak"@
}

/// The path of the hosts table.
pub fn hosts_path() -> (path: &'static str)
    ensures
        path@ == table_path(),
{
    "/etc/hosts"
}

/// The path to which the table is copied before each write.
pub fn backup_path() -> (path: String)
    ensures
        path@ == backup_path_text(),
{
    let mut path: String = String::from_str(hosts_path());
    path.append(".bak");
    path
}

} // verus!
