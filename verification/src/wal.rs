//! Watching the message databases for changes by other processes.
use vstd::prelude::*;
use crate::text;

verus! {

/// A change of a file.
#[derive(Debug, Clone)]
pub struct FileEvent {
    /// The process that made it.
    pub pid: i32,
    /// The file.
    pub path: String,
}

/// What stands between the start and watching.
#[derive(Debug, Clone, Copy, PartialEq, Eq, Structural)]
pub enum WatchStart {
    /// The directory of the message databases is not there yet.
    AwaitDir,
    /// The log of the first database is not there yet.
    AwaitLog,
    /// Nothing.
    Watch,
}

/// Whether a change tells of new messages: another process made it, below the
/// directory of the message databases.
pub open spec fn matters(e: FileEvent, own_pid: i32, dir: Seq<char>) -> bool {
    e.pid != own_pid && text::begins(e.path@, dir + "/"@)
}

/// What stands between a stage of the start and watching.
pub open spec fn next_stage(stage: WatchStart, dir_exists: bool, log_exists: bool) -> WatchStart {
    match stage {
        WatchStart::AwaitDir => if !dir_exists {
            WatchStart::AwaitDir
        } else if !log_exists {
            WatchStart::AwaitLog
        } else {
            WatchStart::Watch
        },
        WatchStart::AwaitLog => if !log_exists {
            WatchStart::AwaitLog
        } else {
            WatchStart::Watch
        },
        WatchStart::Watch => WatchStart::Watch,
    }
}

/// What stands between the start and watching. A stage once passed is not
/// looked at again.
pub fn watch_start(stage: WatchStart, dir_exists: bool, log_exists: bool) -> (r: WatchStart)
    ensures
        r == next_stage(stage, dir_exists, log_exists),
{
    match stage {
        WatchStart::AwaitDir => if !dir_exists {
            WatchStart::AwaitDir
        } else if !log_exists {
            WatchStart::AwaitLog
        } else {
            WatchStart::Watch
        },
        WatchStart::AwaitLog => if !log_exists {
            WatchStart::AwaitLog
        } else {
            WatchStart::Watch
        },
        WatchStart::Watch => WatchStart::Watch,
    }
}

/// Whether any of some changes tells of new messages.
pub fn has_external_modify(events: &Vec<FileEvent>, own_pid: i32, dir: &str) -> (r: bool)
    ensures
        r == exists|i: int|
            0 <= i < events@.len() && matters(#[trigger] events@[i], own_pid, dir@),
{
    let mut below = dir.to_owned();
    below.append("/");
    let mut found = false;
    let mut i: usize = 0;
    while i < events.len()
        invariant
            below@ == dir@ + "/"@,
            0 <= i <= events@.len(),
            found == exists|j: int|
                0 <= j < i && matters(#[trigger] events@[j], own_pid, dir@),
        decreases events@.len() - i,
    {
        if events[i].pid != own_pid && text::starts_with(
            events[i].path.as_str(),
            below.as_str(),
        ) {
            assert(matters(events@[i as int], own_pid, dir@));
            found = true;
        }
        i += 1;
    }
    found
}

/// A change below the watched directory matters exactly where another process
/// made it, however deep below the file lies.
pub proof fn law_changes_below_matter(e: FileEvent, own_pid: i32, dir: Seq<char>, rest: Seq<char>)
    requires
        e.path@ == dir + seq!['/'] + rest,
    ensures
        matters(e, own_pid, dir) <==> e.pid != own_pid,
{
    reveal_strlit("/");
    assert("/"@ =~= seq!['/']);
    assert(e.path@.take((dir + "/"@).len() as int) =~= dir + "/"@);
}

/// A change elsewhere never matters, not even of a file or a directory whose
/// name only begins like the watched one.
pub proof fn law_changes_elsewhere_do_not_matter(e: FileEvent, own_pid: i32, dir: Seq<char>)
    requires
        e.path@.len() <= dir.len() || e.path@.take(dir.len() as int) != dir
            || e.path@[dir.len() as int] != '/',
    ensures
        !matters(e, own_pid, dir),
{
    reveal_strlit("/");
    if matters(e, own_pid, dir) {
        let p = dir + "/"@;
        assert(e.path@.take(p.len() as int) == p);
        assert(p[dir.len() as int] == '/');
        assert(e.path@[dir.len() as int] == e.path@.take(p.len() as int)[dir.len() as int]);
        assert(e.path@.take(dir.len() as int) =~= e.path@.take(p.len() as int).take(
            dir.len() as int,
        ));
        assert(p.take(dir.len() as int) =~= dir);
    }
}

/// Where a stage of the start stands among the stages.
pub open spec fn rank(stage: WatchStart) -> int {
    match stage {
        WatchStart::AwaitDir => 0,
        WatchStart::AwaitLog => 1,
        WatchStart::Watch => 2,
    }
}

/// The start never goes back, waits only for what is not there, and watches as
/// soon as both are there.
pub proof fn law_start_goes_on(stage: WatchStart, dir_exists: bool, log_exists: bool)
    ensures
        rank(next_stage(stage, dir_exists, log_exists)) >= rank(stage),
        next_stage(stage, dir_exists, log_exists) == WatchStart::AwaitDir ==> !dir_exists,
        next_stage(stage, dir_exists, log_exists) == WatchStart::AwaitLog ==> !log_exists,
        next_stage(stage, dir_exists, log_exists) == WatchStart::Watch ==> log_exists || stage
            == WatchStart::Watch,
        !dir_exists && stage == WatchStart::AwaitDir ==> next_stage(stage, dir_exists, log_exists)
            == stage,
{
}

} // verus!
