//! Tables of guest descriptors: each guest descriptor number names one host
//! object, and numbers are handed out in increasing order from a base.

use std::collections::HashMap;
use vstd::std_specs::iter::IteratorSpec;
use vstd::prelude::*;

verus! {

broadcast use vstd::std_specs::hash::group_hash_axioms;

/// `n + 1`, held at `i32::MAX` (`i32::saturating_add(n, 1)`).
pub open spec fn next_number(n: i32) -> i32 {
    if n < i32::MAX {
        (n + 1) as i32
    } else {
        i32::MAX
    }
}

/// Guest descriptors and the host objects they stand for.
pub struct FdTable<T> {
    next_fd: i32,
    entries: HashMap<i32, T>,
}

impl<T> FdTable<T> {
    /// The number the next `insert` hands out.
    pub closed spec fn next_fd(&self) -> i32 {
        self.next_fd
    }

    /// The open descriptors and their objects.
    pub closed spec fn entries(&self) -> Map<i32, T> {
        self.entries@
    }

    /// Every open descriptor was handed out before `next_fd`; once the
    /// counter is held at `i32::MAX`, that number itself may be open.
    pub open spec fn wf(&self) -> bool {
        forall|fd: i32|
            #[trigger] self.entries().contains_key(fd) ==> fd < self.next_fd() || (self.next_fd()
                == i32::MAX && fd == i32::MAX)
    }

    /// An empty table that hands out `base` first.
    pub fn new(base: i32) -> (t: Self)
        ensures
            t.next_fd() == base,
            t.entries() == Map::<i32, T>::empty(),
            t.wf(),
    {
        FdTable { next_fd: base, entries: HashMap::new() }
    }

    /// Stores `value` under the next descriptor number and returns that
    /// number; the counter moves on by one, held at `i32::MAX`.
    pub fn insert(&mut self, value: T) -> (fd: i32)
        ensures
            fd == old(self).next_fd(),
            final(self).next_fd() == next_number(old(self).next_fd()),
            final(self).entries() == old(self).entries().insert(fd, value),
            old(self).wf() ==> final(self).wf(),
    {
        let fd = self.next_fd;
        self.next_fd = if self.next_fd < i32::MAX {
            self.next_fd + 1
        } else {
            i32::MAX
        };
        self.entries.insert(fd, value);
        proof {
            if old(self).wf() {
                assert forall|k: i32| #[trigger] self.entries@.contains_key(k) implies k
                    < self.next_fd || (self.next_fd == i32::MAX && k == i32::MAX) by {
                    if k != fd {
                        assert(old(self).entries().contains_key(k));
                    }
                }
            }
        }
        fd
    }

    /// The object of descriptor `fd`, if it is open.
    pub fn get(&self, fd: i32) -> (r: Option<&T>)
        ensures
            match r {
                Some(v) => self.entries().contains_key(fd) && *v == self.entries()[fd],
                None => !self.entries().contains_key(fd),
            },
    {
        self.entries.get(&fd)
    }

    /// Replaces the object of the open descriptor `fd`; `false`, with the
    /// table unchanged, when `fd` is not open.
    pub fn set(&mut self, fd: i32, value: T) -> (found: bool)
        ensures
            found == old(self).entries().contains_key(fd),
            final(self).next_fd() == old(self).next_fd(),
            final(self).entries() == if found {
                old(self).entries().insert(fd, value)
            } else {
                old(self).entries()
            },
            old(self).wf() ==> final(self).wf(),
    {
        if self.entries.contains_key(&fd) {
            self.entries.insert(fd, value);
            true
        } else {
            false
        }
    }

    /// Closes descriptor `fd` and hands back its object, if it was open.
    pub fn remove(&mut self, fd: i32) -> (r: Option<T>)
        ensures
            final(self).next_fd() == old(self).next_fd(),
            final(self).entries() == old(self).entries().remove(fd),
            match r {
                Some(v) => old(self).entries().contains_key(fd) && v == old(self).entries()[fd],
                None => !old(self).entries().contains_key(fd),
            },
            old(self).wf() ==> final(self).wf(),
    {
        let r = self.entries.remove(&fd);
        proof {
            if old(self).wf() {
                assert forall|k: i32| #[trigger] self.entries@.contains_key(k) implies k
                    < self.next_fd || (self.next_fd == i32::MAX && k == i32::MAX) by {
                    assert(old(self).entries().contains_key(k));
                }
            }
        }
        r
    }

    /// The open descriptors, in no particular order.
    pub fn open_fds(&self) -> (fds: Vec<i32>)
        ensures
            fds@.to_set() == self.entries().dom(),
            fds@.no_duplicates(),
    {
        let mut fds: Vec<i32> = Vec::new();
        let ghost keys = vstd::std_specs::hash::spec_keys_iter(&self.entries).remaining();
        for fd in it: self.entries.keys()
            invariant
                it.seq() == keys,
                fds.len() == it.index(),
                fds@ == it.seq().take(it.index() as int).unref(),
        {
            fds.push(*fd);
            assert(fds@ =~= it.seq().take(fds.len() as int).unref());
        }
        assert(fds@ =~= keys.unref());
        fds
    }
}

/// Law: while the counter is below `i32::MAX`, `insert` hands out a number
/// that no open descriptor has, and a later `get` of it finds the value.
pub proof fn lemma_insert_is_fresh<T>(before: FdTable<T>, after: FdTable<T>, fd: i32, value: T)
    requires
        before.wf(),
        before.next_fd() < i32::MAX,
        fd == before.next_fd(),
        after.next_fd() == next_number(before.next_fd()),
        after.entries() == before.entries().insert(fd, value),
    ensures
        !before.entries().contains_key(fd),
        after.entries().contains_key(fd) && after.entries()[fd] == value,
        after.entries().remove(fd) == before.entries(),
        after.wf(),
{
    assert(after.entries().remove(fd) =~= before.entries());
}

/// Law: once an open descriptor is closed, a `get` of it finds nothing, and
/// while the counter is below `i32::MAX` the next `insert` does not hand its
/// number out again.
pub proof fn lemma_closed_fd_not_reissued<T>(before: FdTable<T>, after_close: FdTable<T>, fd: i32)
    requires
        before.wf(),
        before.next_fd() < i32::MAX,
        before.entries().contains_key(fd),
        after_close.next_fd() == before.next_fd(),
        after_close.entries() == before.entries().remove(fd),
    ensures
        !after_close.entries().contains_key(fd),
        after_close.next_fd() != fd,
        after_close.wf(),
{
    assert forall|k: i32| #[trigger] after_close.entries().contains_key(k) implies k
        < after_close.next_fd() || (after_close.next_fd() == i32::MAX && k == i32::MAX) by {
        assert(before.entries().contains_key(k));
    }
}

/// One step in the life of a table: the insert of some value under the
/// number the table hands out next (`inserted`), or the remove of some
/// descriptor.
pub open spec fn table_step<T>(a: FdTable<T>, b: FdTable<T>, inserted: bool) -> bool {
    if inserted {
        &&& b.next_fd() == next_number(a.next_fd())
        &&& exists|v: T| b.entries() == a.entries().insert(a.next_fd(), v)
    } else {
        &&& b.next_fd() == a.next_fd()
        &&& exists|fd: i32| b.entries() == a.entries().remove(fd)
    }
}

/// How many of the steps `ops` are inserts.
pub open spec fn count_inserts(ops: Seq<bool>) -> nat
    decreases ops.len(),
{
    if ops.len() == 0 {
        0
    } else {
        count_inserts(ops.drop_last()) + if ops.last() {
            1nat
        } else {
            0nat
        }
    }
}

/// Law (numbering): a table made by `new(base)` that has gone through the
/// steps `ops`, `k` of them inserts, hands out `base + k` next, while that
/// stays below `i32::MAX`; every number an insert handed out on the way is
/// smaller, and that number is not open.
pub proof fn lemma_numbering_from_base<T>(tables: Seq<FdTable<T>>, ops: Seq<bool>, base: i32)
    requires
        tables.len() == ops.len() + 1,
        tables[0].next_fd() == base,
        tables[0].entries() == Map::<i32, T>::empty(),
        forall|i: int| 0 <= i < ops.len() ==> table_step(tables[i], #[trigger] tables[i + 1], ops[i]),
        base + count_inserts(ops) < i32::MAX,
    ensures
        tables.last().next_fd() == base + count_inserts(ops),
        tables.last().wf(),
        !tables.last().entries().contains_key(tables.last().next_fd()),
        forall|i: int|
            0 <= i < ops.len() && #[trigger] ops[i] ==> tables[i].next_fd() < tables.last().next_fd(),
    decreases ops.len(),
{
    if ops.len() == 0 {
        assert(tables.last() == tables[0]);
    } else {
        let n = ops.len() - 1;
        let init = tables.drop_last();
        let ops0 = ops.drop_last();
        assert forall|i: int| 0 <= i < ops0.len() implies table_step(init[i], #[trigger] init[i + 1], ops0[i]) by {
            assert(table_step(tables[i], tables[i + 1], ops[i]));
        }
        lemma_numbering_from_base(init, ops0, base);
        let a = tables[n];
        let b = tables[n + 1];
        assert(init.last() == a);
        assert(table_step(a, b, ops[n]));
        assert(b == tables.last());
        if ops[n] {
            let v = choose|v: T| b.entries() == a.entries().insert(a.next_fd(), v);
            assert forall|k: i32| #[trigger] b.entries().contains_key(k) implies k < b.next_fd() by {
                if k != a.next_fd() {
                    assert(a.entries().contains_key(k));
                }
            }
        } else {
            let fd = choose|fd: i32| b.entries() == a.entries().remove(fd);
            assert forall|k: i32| #[trigger] b.entries().contains_key(k) implies k < b.next_fd() by {
                assert(a.entries().contains_key(k));
            }
        }
        assert forall|i: int| 0 <= i < ops.len() && #[trigger] ops[i] implies tables[i].next_fd()
            < tables.last().next_fd() by {
            if i < n {
                assert(ops0[i] == ops[i]);
                assert(init[i] == tables[i]);
            }
        }
    }
}

} // verus!
