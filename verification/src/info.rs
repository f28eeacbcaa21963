//! Task identity and meta-control commands.

use vstd::prelude::*;
use crate::text::str_eq;

verus! {

/// The stable hash of a task name: an FNV-style fold over the name's
/// characters with wrapping arithmetic.
pub open spec fn name_hash(s: Seq<char>) -> u32
    decreases s.len(),
{
    if s.len() == 0 {
        2166136261u32
    } else {
        vstd::wrapping::u32_specs::wrapping_mul(
            name_hash(s.drop_last()) ^ (s.last() as u32),
            16777619u32,
        )
    }
}

/// Compute the stable hash of a task name.
pub fn hash_name(s: &str) -> (h: u32)
    ensures
        h == name_hash(s@),
{
    let len = s.unicode_len();
    let mut h: u32 = 2166136261;
    let mut i: usize = 0;
    while i < len
        invariant
            len == s@.len(),
            i <= len,
            h == name_hash(s@.subrange(0, i as int)),
        decreases len - i,
    {
        let c = s.get_char(i);
        h = (h ^ (c as u32)).wrapping_mul(16777619);
        proof {
            assert(s@.subrange(0, i + 1).drop_last() =~= s@.subrange(0, i as int));
            assert(s@.subrange(0, i + 1).last() == s@[i as int]);
        }
        i = i + 1;
    }
    proof {
        assert(s@.subrange(0, len as int) =~= s@);
    }
    h
}

/// A task's identity: a name, the stable hash of the name, and whether
/// the task starts running as soon as it is registered.
pub struct TaskInfo {
    pub name: String,
    pub id: u32,
    pub insta_spawn: bool,
}

impl TaskInfo {
    /// A task identity for `name`, not insta-spawned.
    pub fn new(name: &str) -> (r: TaskInfo)
        ensures
            r.name@ == name@,
            r.id == name_hash(name@),
            !r.insta_spawn,
    {
        let id = hash_name(name);
        TaskInfo { name: String::from_str(name), id, insta_spawn: false }
    }

    /// The same identity, marked to start running on registration.
    pub fn with_insta_spawn(self) -> (r: TaskInfo)
        ensures
            r.name@ == self.name@,
            r.id == self.id,
            r.insta_spawn,
    {
        TaskInfo { insta_spawn: true, ..self }
    }

    /// Whether two identities name the same task: equality is by id.
    pub fn same_task(&self, other: &TaskInfo) -> (r: bool)
        ensures
            r == (self.id == other.id),
    {
        self.id == other.id
    }
}

impl Clone for TaskInfo {
    /// A copy with the same name, id and spawn mark.
    fn clone(&self) -> (r: Self)
        ensures
            r.name@ == self.name@,
            r.id == self.id,
            r.insta_spawn == self.insta_spawn,
    {
        TaskInfo { name: self.name.clone(), id: self.id, insta_spawn: self.insta_spawn }
    }
}

/// What a meta message asks the runner to do with a task.
#[derive(Debug, Clone, Copy, PartialEq, Eq, Structural)]
pub enum MetaCommand {
    SpawnTask,
    KillTask,
}

/// A lifecycle command aimed at a task identity.
pub struct MetaMessage {
    pub command: MetaCommand,
    pub task_info: TaskInfo,
}

impl MetaMessage {
    /// A meta message carrying `command` for `task_info`.
    pub fn new(command: MetaCommand, task_info: TaskInfo) -> (r: MetaMessage)
        ensures
            r.command == command,
            r.task_info == task_info,
    {
        MetaMessage { command, task_info }
    }
}

impl Clone for MetaMessage {
    /// A copy with the same command and identity fields.
    fn clone(&self) -> (r: Self)
        ensures
            r.command == self.command,
            r.task_info.name@ == self.task_info.name@,
            r.task_info.id == self.task_info.id,
            r.task_info.insta_spawn == self.task_info.insta_spawn,
    {
        MetaMessage { command: self.command, task_info: self.task_info.clone() }
    }
}

} // verus!
