//! The data a process shares with every descendant its forks produce:
//! environment variables, the open-resource table, and the semaphore
//! set.
//!
//! The kernel keeps one record per fork family in a reference-counted
//! table; a fork copies the handle, not the record, so a write through
//! any relative is visible to the whole family.

use vstd::prelude::*;
use crate::resource::{ResourceSet, Resource};
use crate::sync::{SemaphoreSet, SemaphoreResult};
use crate::input::{InputBuffer, input_contents};
use crate::pid::ProcessId;

verus! {

/// What `env` answers for a key under an association list.
pub open spec fn env_lookup(s: Seq<(String, String)>, key: Seq<char>) -> Option<Seq<char>>
    decreases s.len(),
{
    if s.len() == 0 {
        None
    } else if s[0].0@ == key {
        Some(s[0].1@)
    } else {
        env_lookup(s.drop_first(), key)
    }
}

/// The shared data of one fork family.
pub struct ProcessData {
    /// Environment variables, oldest binding first; a rebind replaces.
    pub env: Vec<(String, String)>,
    /// The open resources.
    pub resources: ResourceSet,
    /// The semaphores.
    pub semaphores: SemaphoreSet,
}

impl ProcessData {
    /// Fresh data: no environment, the console streams open, no
    /// semaphores.
    pub fn new() -> (r: ProcessData)
        ensures
            r.env@.len() == 0,
            r.semaphores.sems@ == Map::<u32, crate::sync::Semaphore>::empty(),
    {
        ProcessData { env: Vec::new(), resources: ResourceSet::new(), semaphores: SemaphoreSet::new() }
    }

    /// Look a variable up.
    pub fn env(&self, key: &String) -> (r: Option<String>)
        ensures
            match r {
                Some(v) => env_lookup(self.env@, key@) == Some(v@),
                None => env_lookup(self.env@, key@) is None,
            },
    {
        let mut i: usize = 0;
        proof {
            assert(self.env@.skip(0) =~= self.env@);
        }
        while i < self.env.len()
            invariant
                i <= self.env@.len(),
                env_lookup(self.env@, key@) == env_lookup(self.env@.skip(i as int), key@),
            decreases self.env@.len() - i,
        {
            proof {
                assert(self.env@.skip(i as int).drop_first() =~= self.env@.skip(i + 1));
            }
            if self.env[i].0.eq(key) {
                proof {
                    assert(self.env@.skip(i as int)[0] == self.env@[i as int]);
                }
                return Some(self.env[i].1.clone());
            }
            i = i + 1;
        }
        proof {
            assert(self.env@.skip(self.env@.len() as int).len() == 0);
        }
        None
    }

    /// Bind a variable, replacing an earlier binding of the same key.
    pub fn set_env(&mut self, key: String, value: String)
        ensures
            env_lookup(final(self).env@, key@) == Some(value@),
            final(self).resources == old(self).resources,
            final(self).semaphores == old(self).semaphores,
    {
        let mut i: usize = 0;
        while i < self.env.len()
            invariant
                i <= self.env@.len(),
                self.env@ == old(self).env@,
                self.resources == old(self).resources,
                self.semaphores == old(self).semaphores,
                forall|j: int| 0 <= j < i ==> self.env@[j].0@ != key@,
            decreases self.env@.len() - i,
        {
            if self.env[i].0.eq(&key) {
                self.env.set(i, (key, value));
                proof {
                    lemma_env_set(self.env@, key@, i as int);
                }
                return ;
            }
            i = i + 1;
        }
        self.env.push((key, value));
        proof {
            lemma_env_push(old(self).env@, self.env@[self.env@.len() - 1]);
        }
    }

    /// Create a semaphore under a key of this family.
    pub fn sem_new(&mut self, key: u32, value: usize) -> (r: bool)
        ensures
            r == !old(self).semaphores.sems@.contains_key(key),
            final(self).env == old(self).env,
            final(self).resources == old(self).resources,
            r ==> final(self).semaphores.sems@.contains_key(key)
                && final(self).semaphores.sems@[key].count == value
                && final(self).semaphores.sems@[key].wait_queue@.len() == 0,
            !r ==> final(self).semaphores.sems@ == old(self).semaphores.sems@,
    {
        self.semaphores.insert(key, value)
    }

    /// Drop a semaphore of this family.
    pub fn sem_remove(&mut self, key: u32) -> (r: bool)
        ensures
            r == old(self).semaphores.sems@.contains_key(key),
            final(self).semaphores.sems@ == old(self).semaphores.sems@.remove(key),
            final(self).env == old(self).env,
            final(self).resources == old(self).resources,
    {
        self.semaphores.remove(key)
    }

    /// Wait on a semaphore of this family.
    pub fn sem_wait(&mut self, key: u32, pid: ProcessId) -> (r: SemaphoreResult)
        ensures
            final(self).env == old(self).env,
            final(self).resources == old(self).resources,
            !old(self).semaphores.sems@.contains_key(key) ==> r == SemaphoreResult::NotExist
                && final(self).semaphores.sems@ == old(self).semaphores.sems@,
            old(self).semaphores.sems@.contains_key(key) ==> {
                let s = old(self).semaphores.sems@[key];
                let stepped = crate::sync::wait_step(s.count as nat, s.wait_queue@, pid);
                &&& final(self).semaphores.sems@.contains_key(key)
                &&& final(self).semaphores.sems@[key].count == stepped.0
                &&& final(self).semaphores.sems@[key].wait_queue@ == stepped.1
                &&& r == stepped.2
            },
    {
        self.semaphores.wait(key, pid)
    }

    /// Signal a semaphore of this family.
    pub fn sem_signal(&mut self, key: u32) -> (r: SemaphoreResult)
        ensures
            final(self).env == old(self).env,
            final(self).resources == old(self).resources,
            !old(self).semaphores.sems@.contains_key(key) ==> r == SemaphoreResult::NotExist
                && final(self).semaphores.sems@ == old(self).semaphores.sems@,
            old(self).semaphores.sems@.contains_key(key) ==> {
                let s = old(self).semaphores.sems@[key];
                let stepped = crate::sync::signal_step(s.count as nat, s.wait_queue@);
                &&& final(self).semaphores.sems@.contains_key(key)
                &&& final(self).semaphores.sems@[key].count == stepped.0
                &&& final(self).semaphores.sems@[key].wait_queue@ == stepped.1
                &&& r == stepped.2
            },
    {
        self.semaphores.signal(key)
    }

    /// Read from an open resource of this family.
    pub fn read(&mut self, fd: u8, buf: &mut Vec<u8>, input: &mut InputBuffer) -> (r: isize)
        ensures
            final(buf)@.len() == old(buf)@.len(),
            final(self).env == old(self).env,
            final(self).semaphores == old(self).semaphores,
            !old(self).resources.handles@.contains_key(fd) ==> r == -1
                && final(self).resources.handles@ == old(self).resources.handles@
                && input_contents(*final(input)) == input_contents(*old(input)) && final(buf)@
                == old(buf)@,
            old(self).resources.handles@.contains_key(fd) ==> {
                &&& final(self).resources.handles@ == old(self).resources.handles@.insert(
                    fd,
                    final(self).resources.handles@[fd],
                )
                &&& exists|rop: Option<usize>|
                    #[trigger] crate::resource::spec_read(
                        old(self).resources.handles@[fd],
                        final(self).resources.handles@[fd],
                        old(buf)@,
                        final(buf)@,
                        input_contents(*old(input)),
                        input_contents(*final(input)),
                        rop,
                    ) && r == (match rop {
                        Some(n) => if n <= isize::MAX as usize {
                            n as isize
                        } else {
                            -1isize
                        },
                        None => -1isize,
                    })
            },
    {
        let ghost res0 = self.resources;
        let r = self.resources.read(fd, buf, input);
        proof {
            if res0.handles@.contains_key(fd) {
                let rop = choose|rop: Option<usize>|
                    #[trigger] crate::resource::spec_read(
                        res0.handles@[fd],
                        self.resources.handles@[fd],
                        old(buf)@,
                        buf@,
                        input_contents(*old(input)),
                        input_contents(*input),
                        rop,
                    ) && r == (match rop {
                        Some(n) => if n <= isize::MAX as usize {
                            n as isize
                        } else {
                            -1isize
                        },
                        None => -1isize,
                    });
                assert(crate::resource::spec_read(
                    res0.handles@[fd],
                    self.resources.handles@[fd],
                    old(buf)@,
                    buf@,
                    input_contents(*old(input)),
                    input_contents(*input),
                    rop,
                ));
            }
        }
        r
    }

    /// Write to an open resource of this family.
    pub fn write(&mut self, fd: u8, buf: &Vec<u8>) -> (r: isize)
        ensures
            !old(self).resources.handles@.contains_key(fd) ==> r == -1,
            old(self).resources.handles@.contains_key(fd) && (old(self).resources.handles@[fd]
                matches Resource::Console(crate::resource::StdIO::Stdout)) && buf@.len()
                <= isize::MAX ==> r == buf@.len(),
    {
        self.resources.write(fd, buf)
    }

    /// Open a resource, as the storage stack hands a file over.
    pub fn open(&mut self, res: Resource) -> (r: u8)
        requires
            old(self).resources.handles@.dom().len() < 256,
            old(self).resources.handles@.dom().finite(),
        ensures
            r == old(self).resources.handles@.dom().len(),
            final(self).resources.handles@ == old(self).resources.handles@.insert(r, res),
            final(self).env == old(self).env,
            final(self).semaphores == old(self).semaphores,
    {
        self.resources.open(res)
    }

    /// Close a resource.
    pub fn close_file(&mut self, fd: u8) -> (r: bool)
        ensures
            r == old(self).resources.handles@.contains_key(fd),
            final(self).resources.handles@ == old(self).resources.handles@.remove(fd),
    {
        self.resources.close(fd)
    }
}

/// Replacing the binding at the key's first occurrence makes the lookup
/// answer the new value.
proof fn lemma_env_set(s: Seq<(String, String)>, key: Seq<char>, i: int)
    requires
        0 <= i < s.len(),
        s[i].0@ == key,
        forall|j: int| 0 <= j < i ==> s[j].0@ != key,
    ensures
        env_lookup(s, key) == Some(s[i].1@),
    decreases i,
{
    if i > 0 {
        assert(s.drop_first()[i - 1] == s[i]);
        assert forall|j: int| 0 <= j < i - 1 implies s.drop_first()[j].0@ != key by {
            assert(s.drop_first()[j] == s[j + 1]);
        }
        lemma_env_set(s.drop_first(), key, i - 1);
    }
}

/// Appending a binding for an absent key makes the lookup answer it.
proof fn lemma_env_push(s: Seq<(String, String)>, kv: (String, String))
    requires
        forall|j: int| 0 <= j < s.len() ==> s[j].0@ != kv.0@,
    ensures
        env_lookup(s.push(kv), kv.0@) == Some(kv.1@),
    decreases s.len(),
{
    let t = s.push(kv);
    if s.len() == 0 {
        assert(t[0] == kv);
    } else {
        assert(t[0] == s[0]);
        assert(t.drop_first() =~= s.drop_first().push(kv));
        assert forall|j: int| 0 <= j < s.drop_first().len() implies s.drop_first()[j].0@
            != kv.0@ by {
            assert(s.drop_first()[j] == s[j + 1]);
        }
        lemma_env_push(s.drop_first(), kv);
    }
}

} // verus!
