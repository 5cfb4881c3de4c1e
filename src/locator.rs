use vstd::prelude::*;

use crate::path::{in_directory, lower_of, starts_with_chars};
use crate::process::ProcessInfo;

verus! {

/// How many process identifiers one enumeration of the process table can hold;
/// entries beyond it are not considered.
pub const ENUMERATION_CAPACITY: usize = 1024;

/// The answer of one enumeration of the process table.
pub enum ProcessTable {
    /// The enumeration failed.
    Unavailable,
    /// The identifier buffer, and the number of bytes that the enumeration wrote to it.
    Listed(Vec<u32>, u32),
}

/// The identifiers of `s` other than `0`, in order.
pub open spec fn nonzero_ids(s: Seq<u32>) -> Seq<u32>
    decreases s.len(),
{
    if s.len() == 0 {
        Seq::empty()
    } else if s.last() == 0 {
        nonzero_ids(s.drop_last())
    } else {
        nonzero_ids(s.drop_last()).push(s.last())
    }
}

/// How many entries of a buffer of `len` identifiers an enumeration that wrote
/// `bytes` bytes filled, within the capacity.
pub open spec fn listed_count(len: int, bytes: int) -> int {
    let n = bytes / 4;
    let m = if n < len { n } else { len };
    if m < ENUMERATION_CAPACITY as int {
        m
    } else {
        ENUMERATION_CAPACITY as int
    }
}

/// The identifiers worth resolving among those an enumeration listed.
pub open spec fn scanned_ids(buffer: Seq<u32>, bytes: int) -> Seq<u32> {
    nonzero_ids(buffer.take(listed_count(buffer.len() as int, bytes)))
}

/// The identifiers worth resolving in the answer of an enumeration.
pub open spec fn candidates_of(table: ProcessTable) -> Seq<u32> {
    match table {
        ProcessTable::Unavailable => Seq::empty(),
        ProcessTable::Listed(buffer, bytes) => scanned_ids(buffer@, bytes as int),
    }
}

/// Whether a resolution (the path of a resolved process, or `None`) lies under `dir`.
pub open spec fn resolution_matches(resolved: Option<Seq<char>>, dir: Seq<char>) -> bool {
    match resolved {
        Some(path) => in_directory(path, dir),
        None => false,
    }
}

/// What the locator asks for next.
pub enum LocatorStep {
    /// Resolve this process and offer the outcome.
    Query(u32),
    /// This process lies under the target directory.
    Found(u32),
    /// No listed process lies under the target directory.
    NotFound,
}

/// A search through one enumeration of the process table for the first process
/// whose executable lies under a target directory.
pub struct Locator {
    candidates: Vec<u32>,
    position: usize,
    found: bool,
    target_lower: String,
    target: Ghost<Seq<char>>,
    seen: Ghost<Seq<Option<Seq<char>>>>,
}

impl Locator {
    /// The identifiers to be tried, in enumeration order.
    pub closed spec fn candidates(&self) -> Seq<u32> {
        self.candidates@
    }

    /// The directory searched.
    pub closed spec fn target(&self) -> Seq<char> {
        self.target@
    }

    /// The resolutions offered so far, one for each candidate tried.
    pub closed spec fn seen(&self) -> Seq<Option<Seq<char>>> {
        self.seen@
    }

    /// The step that the search stands at.
    pub closed spec fn step_spec(&self) -> LocatorStep {
        if self.found {
            LocatorStep::Found(self.candidates@[self.position as int])
        } else if self.position < self.candidates@.len() {
            LocatorStep::Query(self.candidates@[self.position as int])
        } else {
            LocatorStep::NotFound
        }
    }

    pub closed spec fn wf(&self) -> bool {
        &&& self.position <= self.candidates@.len()
        &&& self.target_lower@ == lower_of(self.target@)
        &&& self.seen@.len() == self.position + if self.found { 1int } else { 0int }
        &&& forall|j: int|
            0 <= j < self.position ==> !resolution_matches(#[trigger] self.seen@[j], self.target@)
        &&& self.found ==> self.position < self.candidates@.len() && resolution_matches(
            self.seen@[self.position as int],
            self.target@,
        )
    }

    /// Starts a search of `table` for a process under `target_directory`.
    pub fn new(table: &ProcessTable, target_directory: &str) -> (r: Locator)
        ensures
            r.wf(),
            r.candidates() == candidates_of(*table),
            r.target() == target_directory@,
            r.seen() == Seq::<Option<Seq<char>>>::empty(),
            r.step_spec() == if candidates_of(*table).len() > 0 {
                LocatorStep::Query(candidates_of(*table)[0])
            } else {
                LocatorStep::NotFound
            },
    {
        let mut candidates: Vec<u32> = Vec::new();
        match table {
            ProcessTable::Unavailable => {},
            ProcessTable::Listed(buffer, bytes) => {
                let listed = (*bytes / 4) as usize;
                let mut count: usize = if listed < buffer.len() { listed } else { buffer.len() };
                if count > ENUMERATION_CAPACITY {
                    count = ENUMERATION_CAPACITY;
                }
                assert(count == listed_count(buffer@.len() as int, *bytes as int));
                let mut i: usize = 0;
                while i < count
                    invariant
                        i <= count <= buffer@.len(),
                        candidates@ == nonzero_ids(buffer@.take(i as int)),
                    decreases count - i,
                {
                    assert(buffer@.take(i + 1).drop_last() =~= buffer@.take(i as int));
                    if buffer[i] != 0 {
                        candidates.push(buffer[i]);
                    }
                    i = i + 1;
                }
            },
        }
        proof {
            if let ProcessTable::Unavailable = table {
                assert(candidates@ =~= Seq::<u32>::empty());
            }
        }
        Locator {
            candidates,
            position: 0,
            found: false,
            target_lower: crate::path::lowercase(target_directory),
            target: Ghost(target_directory@),
            seen: Ghost(Seq::empty()),
        }
    }

    /// The step that the search stands at.
    pub fn step(&self) -> (r: LocatorStep)
        requires
            self.wf(),
        ensures
            r == self.step_spec(),
    {
        if self.found {
            LocatorStep::Found(self.candidates[self.position])
        } else if self.position < self.candidates.len() {
            LocatorStep::Query(self.candidates[self.position])
        } else {
            LocatorStep::NotFound
        }
    }

    /// Offers the resolution of the process that the search asked for; the
    /// search stops there where its path lies under the target directory.
    pub fn offer(&mut self, resolved: &Option<ProcessInfo>)
        requires
            old(self).wf(),
            old(self).step_spec() is Query,
        ensures
            final(self).wf(),
            final(self).candidates() == old(self).candidates(),
            final(self).target() == old(self).target(),
            final(self).seen() == old(self).seen().push(
                match resolved {
                    Some(info) => Some(info.path@),
                    None => None,
                },
            ),
            ({
                let pid = old(self).step_spec()->Query_0;
                let i = old(self).seen().len() as int;
                if resolution_matches(final(self).seen()[i], old(self).target()) {
                    final(self).step_spec() == LocatorStep::Found(pid)
                } else if i + 1 < old(self).candidates().len() {
                    final(self).step_spec() == LocatorStep::Query(old(self).candidates()[i + 1])
                } else {
                    final(self).step_spec() == LocatorStep::NotFound
                }
            }),
    {
        let n = self.candidates.len();
        assert(self.position < n);
        let ghost entry = match resolved {
            Some(info) => Some(info.path@),
            None => None,
        };
        let hit = match resolved {
            Some(info) => {
                let lower_path = crate::path::lowercase(info.path.as_str());
                starts_with_chars(lower_path.as_str(), self.target_lower.as_str())
            },
            None => false,
        };
        proof {
            self.seen@ = self.seen@.push(entry);
        }
        if hit {
            self.found = true;
        } else {
            self.position = self.position + 1;
        }
    }
}

/// A search that has found a process found the first listed candidate, in
/// enumeration order, whose resolved path lies under the target directory,
/// ignoring case: the last resolution offered, after only misses.
pub proof fn lemma_found_lies_in_directory(loc: &Locator, pid: u32)
    requires
        loc.wf(),
        loc.step_spec() == LocatorStep::Found(pid),
    ensures
        exists|i: int|
            0 <= i < loc.seen().len() && i < loc.candidates().len() && loc.candidates()[i] == pid
                && resolution_matches(#[trigger] loc.seen()[i], loc.target()),
        loc.seen().len() >= 1,
        loc.seen().len() <= loc.candidates().len(),
        pid == loc.candidates()[loc.seen().len() - 1],
        resolution_matches(loc.seen().last(), loc.target()),
        forall|j: int|
            0 <= j < loc.seen().len() - 1 ==> !resolution_matches(#[trigger] loc.seen()[j], loc.target()),
{
    let i = loc.position as int;
    assert(loc.candidates()[i] == pid && resolution_matches(loc.seen()[i], loc.target()));
}

/// A search ends without a process exactly when every candidate has been tried
/// and none resolved to a path under the target directory.
pub proof fn lemma_not_found_iff_all_missed(loc: &Locator)
    requires
        loc.wf(),
    ensures
        loc.step_spec() is NotFound <==> (loc.seen().len() == loc.candidates().len() && forall|j: int|
            0 <= j < loc.seen().len() ==> !resolution_matches(#[trigger] loc.seen()[j], loc.target())),
{
    if loc.found {
        let p = loc.position as int;
        assert(resolution_matches(loc.seen()[p], loc.target()));
    }
}

/// Only the first `ENUMERATION_CAPACITY` entries of a listing are considered: what
/// lies beyond them changes nothing, and a full listing of exactly that many live
/// processes has every one of them considered.
pub proof fn lemma_capacity_boundary(buffer: Seq<u32>, bytes: u32)
    ensures
        buffer.len() > ENUMERATION_CAPACITY ==> scanned_ids(buffer, bytes as int) == scanned_ids(
            buffer.take(ENUMERATION_CAPACITY as int),
            bytes as int,
        ),
        buffer.len() == ENUMERATION_CAPACITY && bytes == 4 * ENUMERATION_CAPACITY ==> scanned_ids(
            buffer,
            bytes as int,
        ) == nonzero_ids(buffer),
{
    let k = listed_count(buffer.len() as int, bytes as int);
    if buffer.len() > ENUMERATION_CAPACITY {
        let front = buffer.take(ENUMERATION_CAPACITY as int);
        assert(listed_count(front.len() as int, bytes as int) == k);
        assert(front.take(k) =~= buffer.take(k));
    }
    if buffer.len() == ENUMERATION_CAPACITY && bytes == 4 * ENUMERATION_CAPACITY {
        assert(buffer.take(k) =~= buffer);
    }
}

/// The search ignores the case of its directory: two directories with the same
/// lower-case form accept exactly the same resolutions.
pub proof fn lemma_directory_case_ignored(resolved: Option<Seq<char>>, d1: Seq<char>, d2: Seq<char>)
    requires
        lower_of(d1) == lower_of(d2),
    ensures
        resolution_matches(resolved, d1) == resolution_matches(resolved, d2),
{
}

} // verus!
