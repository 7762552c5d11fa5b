//! Choice of what a run of the program should do, from the command-line
//! switches the user gave.

use vstd::prelude::*;

verus! {

/// Root choice of program behaviour for one run.
pub enum RunMode {
    Wake(WakeMode),
    Edit,
    Add,
    List,
    Backup(BackupMode),
}

/// How and which machines should be woken.
pub enum WakeMode {
    /// Wake every configured machine.
    WakeAll,
    /// Interactively pick hosts to wake.
    WakeSome,
    /// Wake these MAC addresses directly.
    DirectMacs(Vec<String>),
}

/// Where the configuration backup should go.
pub enum BackupMode {
    /// Write to the named file.
    ToFile(String),
    /// Write to standard output.
    ToStdout,
}

/// The command-line switches that matter for choosing a run mode, already
/// read off the argument list.
pub struct CliRequest {
    pub add: bool,
    pub all: bool,
    pub edit: bool,
    pub list: bool,
    pub backup: Option<String>,
    pub print_config: bool,
}

/// The mode a request selects: the first switch set wins, in the order
/// add, all, edit, list, backup, print-config; with none set, the
/// interactive pick of hosts to wake.
pub open spec fn spec_runmode(req: CliRequest) -> RunMode {
    if req.add {
        RunMode::Add
    } else if req.all {
        RunMode::Wake(WakeMode::WakeAll)
    } else if req.edit {
        RunMode::Edit
    } else if req.list {
        RunMode::List
    } else {
        match req.backup {
            Some(path) => RunMode::Backup(BackupMode::ToFile(path)),
            None => if req.print_config {
                RunMode::Backup(BackupMode::ToStdout)
            } else {
                RunMode::Wake(WakeMode::WakeSome)
            },
        }
    }
}

/// Picks the run mode a request selects; `spec_runmode` says which.
pub fn get_runmode(req: CliRequest) -> (r: RunMode)
    ensures
        r == spec_runmode(req),
{
    if req.add {
        RunMode::Add
    } else if req.all {
        RunMode::Wake(WakeMode::WakeAll)
    } else if req.edit {
        RunMode::Edit
    } else if req.list {
        RunMode::List
    } else {
        match req.backup {
            Some(path) => RunMode::Backup(BackupMode::ToFile(path)),
            None => if req.print_config {
                RunMode::Backup(BackupMode::ToStdout)
            } else {
                RunMode::Wake(WakeMode::WakeSome)
            },
        }
    }
}

} // verus!
