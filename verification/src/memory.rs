//! The persistent memory model: free-form key/value entries the agent keeps
//! between sessions, plus a short per-iteration history trail.

use vstd::prelude::*;

verus! {

use crate::numfmt::dec_of;
use crate::numfmt::u64_to_string;
use crate::text::spec_truncate_string;
use crate::text::str_eq;
use crate::text::truncate_string;
use crate::timefmt::datetime_display_of;
use crate::timefmt::clamp_displayable;
use crate::timefmt::format_datetime;
use vstd::string::StrSliceExecFns;
use vstd::string::StringExecFns;

/// Compact record of one completed iteration.
pub struct IterationRecord {
    /// 1-based iteration number.
    pub iteration: u32,
    /// Seconds since the epoch when the record was written.
    pub timestamp: i64,
    /// Short summary of what was asked.
    pub prompt_summary: String,
    /// Short summary of what the agent replied.
    pub response_summary: String,
}

/// Persistent memory: entries the agent sets, and the iteration trail.
pub struct Memory {
    /// Key/value store, one entry per key, in insertion order.
    pub entries: Vec<(String, String)>,
    /// Record of each iteration's summarized outcome.
    pub history: Vec<IterationRecord>,
}

impl Memory {
    /// The entry keys, in order.
    pub open spec fn keys(self) -> Seq<Seq<char>> {
        Seq::new(self.entries@.len(), |i: int| self.entries@[i].0@)
    }

    /// One entry per key.
    pub open spec fn wf(self) -> bool {
        forall|i: int, j: int|
            0 <= i < j < self.keys().len() ==> #[trigger] self.keys()[i]
                != #[trigger] self.keys()[j]
    }

    /// An empty memory.
    pub fn new() -> (r: Memory)
        ensures
            r.entries@.len() == 0,
            r.history@.len() == 0,
            r.wf(),
    {
        Memory { entries: Vec::new(), history: Vec::new() }
    }
}

/// Handle for a loaded memory: where it lives, and its data.
pub struct MemoryStore {
    /// Filesystem location of the persisted document.
    pub path: String,
    /// In-memory data model.
    pub memory: Memory,
}

impl MemoryStore {
    /// A store for the given path, starting from the given data.
    pub fn new(path: String, memory: Memory) -> (r: MemoryStore)
        ensures
            r.path@ == path@,
            r.memory == memory,
    {
        MemoryStore { path, memory }
    }

    /// Set or replace one key's value: the entry for the key is updated in
    /// place when it exists, else appended; every other entry stands
    /// unchanged.
    pub fn set(&mut self, key: String, value: String)
        requires
            old(self).memory.wf(),
        ensures
            final(self).memory.wf(),
            final(self).path == old(self).path,
            final(self).memory.history == old(self).memory.history,
            final(self).memory.keys().contains(key@),
            ({
                let entries = old(self).memory.entries@;
                if exists|i: int| 0 <= i < entries.len() && (#[trigger] entries[i]).0@ == key@ {
                    let i = choose|i: int|
                        0 <= i < entries.len() && (#[trigger] entries[i]).0@ == key@;
                    final(self).memory.entries@ == entries.update(i, (entries[i].0, value))
                } else {
                    final(self).memory.entries@ == entries.push((key, value))
                }
            }),
    {
        let ghost key_v = key@;
        let ghost orig = self.memory.entries@;
        match find_key(&self.memory.entries, key.as_str()) {
            Some(i) => {
                let old_pair = self.memory.entries.remove(i);
                self.memory.entries.insert(i, (old_pair.0, value));
                proof {
                    assert(exists|j: int|
                        0 <= j < old(self).memory.entries@.len() && (#[trigger] old(
                        self).memory.entries@[j]).0@ == key@) by {
                        assert(orig[i as int].0@ == key@);
                    }
                    let w = choose|j: int|
                        0 <= j < old(self).memory.entries@.len() && (#[trigger] old(
                        self).memory.entries@[j]).0@ == key@;
                    assert(w == i) by {
                        if w != i {
                            if w < i {
                                assert(old(self).memory.keys()[w] != old(self).memory.keys()[
                                i as int]);
                            } else {
                                assert(old(self).memory.keys()[i as int] != old(
                                self).memory.keys()[w]);
                            }
                        }
                    }
                    assert(self.memory.entries@ =~= orig.update(i as int, (orig[i as int].0,
                    self.memory.entries@[i as int].1)));
                    assert(forall|j: int|
                        0 <= j < self.memory.keys().len() ==> #[trigger] self.memory.keys()[j]
                            == old(self).memory.keys()[j]);
                    assert(self.memory.keys()[i as int] == key_v);
                }
            },
            None => {
                self.memory.entries.push((key, value));
                proof {
                    let dv = self.memory.keys();
                    assert(forall|j: int|
                        0 <= j < orig.len() ==> #[trigger] self.memory.entries@[j] == orig[j]);
                    assert((self.memory.entries@[self.memory.entries@.len() - 1]).0@ == key_v);
                    assert(dv[dv.len() - 1] == key_v);
                    assert(dv.contains(key_v));
                    assert forall|i2: int, j2: int| 0 <= i2 < j2 < dv.len() implies dv[i2]
                        != dv[j2] by {
                        if j2 < orig.len() {
                            assert(old(self).memory.keys()[i2] != old(self).memory.keys()[j2]);
                        } else {
                            assert(dv[i2] == old(self).memory.keys()[i2]);
                            assert(orig[i2].0@ != key_v);
                        }
                    }
                }
            },
        }
    }

    /// Remove one key's entry, returning its value when it existed; every
    /// other entry stands unchanged.
    pub fn remove(&mut self, key: &str) -> (r: Option<String>)
        requires
            old(self).memory.wf(),
        ensures
            final(self).memory.wf(),
            final(self).path == old(self).path,
            final(self).memory.history == old(self).memory.history,
            !final(self).memory.keys().contains(key@),
            r is Some <==> old(self).memory.keys().contains(key@),
            ({
                let entries = old(self).memory.entries@;
                if exists|i: int| 0 <= i < entries.len() && (#[trigger] entries[i]).0@ == key@ {
                    let i = choose|i: int|
                        0 <= i < entries.len() && (#[trigger] entries[i]).0@ == key@;
                    final(self).memory.entries@ == entries.remove(i) && r == Some(entries[i].1)
                } else {
                    final(self).memory.entries@ == entries && r is None
                }
            }),
    {
        let ghost orig = self.memory.entries@;
        match find_key(&self.memory.entries, key) {
            Some(i) => {
                let pair = self.memory.entries.remove(i);
                proof {
                    assert(orig[i as int].0@ == key@);
                    assert(old(self).memory.keys()[i as int] == key@);
                    assert(old(self).memory.keys().contains(key@));
                    assert(exists|j: int|
                        0 <= j < old(self).memory.entries@.len() && (#[trigger] old(
                        self).memory.entries@[j]).0@ == key@);
                    let w = choose|j: int|
                        0 <= j < old(self).memory.entries@.len() && (#[trigger] old(
                        self).memory.entries@[j]).0@ == key@;
                    assert(w == i) by {
                        if w != i {
                            if w < i {
                                assert(old(self).memory.keys()[w] != old(self).memory.keys()[
                                i as int]);
                            } else {
                                assert(old(self).memory.keys()[i as int] != old(
                                self).memory.keys()[w]);
                            }
                        }
                    }
                    let dv = self.memory.keys();
                    assert(forall|j: int| 0 <= j < i ==> dv[j] == old(self).memory.keys()[j]);
                    assert(forall|j: int|
                        i <= j < dv.len() ==> dv[j] == old(self).memory.keys()[j + 1]);
                    assert(!dv.contains(key@)) by {
                        if dv.contains(key@) {
                            let j = choose|j: int| 0 <= j < dv.len() && dv[j] == key@;
                            if j < i {
                                assert(old(self).memory.keys()[j] != key@);
                            } else {
                                assert(old(self).memory.keys()[j + 1] == key@);
                                assert(old(self).memory.keys()[i as int] == key@);
                            }
                        }
                    }
                    assert forall|i2: int, j2: int| 0 <= i2 < j2 < dv.len() implies dv[i2]
                        != dv[j2] by {
                        let a = if i2 < i {
                            i2
                        } else {
                            i2 + 1
                        };
                        let b = if j2 < i {
                            j2
                        } else {
                            j2 + 1
                        };
                        assert(old(self).memory.keys()[a] != old(self).memory.keys()[b]);
                    }
                }
                Some(pair.1)
            },
            None => {
                proof {
                    if self.memory.keys().contains(key@) {
                        let j = choose|j: int|
                            0 <= j < self.memory.keys().len() && self.memory.keys()[j] == key@;
                        assert(self.memory.entries@[j].0@ == key@);
                    }
                }
                None
            },
        }
    }

    /// Remove every entry and the whole iteration trail.
    pub fn clear(&mut self)
        ensures
            final(self).path == old(self).path,
            final(self).memory.entries@.len() == 0,
            final(self).memory.history@.len() == 0,
            final(self).memory.wf(),
    {
        self.memory.entries.clear();
        self.memory.history.clear();
    }

    /// Append one iteration record to the trail.
    pub fn add_iteration(&mut self, iteration: u32, now: i64, prompt_summary: &str,
        response_summary: &str)
        ensures
            final(self).path == old(self).path,
            final(self).memory.entries == old(self).memory.entries,
            final(self).memory.history@.len() == old(self).memory.history@.len() + 1,
            forall|i: int|
                0 <= i < old(self).memory.history@.len() ==> final(self).memory.history@[i] == old(
                    self,
                ).memory.history@[i],
            ({
                let last = final(self).memory.history@.last();
                &&& last.iteration == iteration
                &&& last.timestamp == now
                &&& last.prompt_summary@ == prompt_summary@
                &&& last.response_summary@ == response_summary@
            }),
    {
        self.memory.history.push(
            IterationRecord {
                iteration,
                timestamp: now,
                prompt_summary: prompt_summary.to_owned(),
                response_summary: response_summary.to_owned(),
            },
        );
    }
}

/// The first entry with the given key.
fn find_key(entries: &Vec<(String, String)>, key: &str) -> (r: Option<usize>)
    ensures
        match r {
            Some(i) => i < entries@.len() && entries@[i as int].0@ == key@ && forall|j: int|
                0 <= j < i ==> (#[trigger] entries@[j]).0@ != key@,
            None => forall|j: int| 0 <= j < entries@.len() ==> (#[trigger] entries@[j]).0@ != key@,
        },
{
    let mut i: usize = 0;
    while i < entries.len()
        invariant
            i <= entries.len(),
            forall|j: int| 0 <= j < i ==> (#[trigger] entries@[j]).0@ != key@,
        decreases entries.len() - i,
    {
        if str_eq(entries[i].0.as_str(), key) {
            return Some(i);
        }
        i = i + 1;
    }
    None
}

/// One displayed entry line.
pub open spec fn spec_entry_line(k: Seq<char>, v: Seq<char>) -> Seq<char> {
    "  "@ + k + " = "@ + v + "\n"@
}

pub open spec fn spec_entry_lines(entries: Seq<(String, String)>) -> Seq<char>
    decreases entries.len(),
{
    if entries.len() == 0 {
        Seq::empty()
    } else {
        spec_entry_lines(entries.drop_last()) + spec_entry_line(
            entries.last().0@,
            entries.last().1@,
        )
    }
}

/// One displayed iteration line.
pub open spec fn spec_history_line(r: &IterationRecord) -> Seq<char> {
    "  ["@ + datetime_display_of(clamp_displayable(r.timestamp as int)) + "] iteration "@ + dec_of(
        r.iteration as int,
    ) + ": "@ + spec_truncate_string(r.response_summary@, 100) + "\n"@
}

pub open spec fn spec_history_lines(hist: Seq<IterationRecord>) -> Seq<char>
    decreases hist.len(),
{
    if hist.len() == 0 {
        Seq::empty()
    } else {
        spec_history_lines(hist.drop_last()) + spec_history_line(&hist.last())
    }
}

/// The whole human-readable dump.
pub open spec fn spec_display(m: &Memory) -> Seq<char> {
    (if m.entries@.len() == 0 {
        "No memory entries.\n"@
    } else {
        "## Entries\n"@ + spec_entry_lines(m.entries@)
    }) + (if m.history@.len() == 0 {
        "No iteration history.\n"@
    } else {
        "\n## History ("@ + dec_of(m.history@.len() as int) + " iterations)\n"@
            + spec_history_lines(m.history@)
    })
}

impl MemoryStore {
    /// Render a human-readable dump of the memory.
    pub fn display(&self) -> (r: String)
        ensures
            r@ == spec_display(&self.memory),
    {
        let mut out = String::new();
        if self.memory.entries.len() == 0 {
            out.append("No memory entries.\n");
        } else {
            out.append("## Entries\n");
            let ghost header = out@;
            let mut i: usize = 0;
            proof {
                assert(self.memory.entries@.subrange(0, 0) =~= Seq::<(String, String)>::empty());
                assert(out@ =~= header + spec_entry_lines(self.memory.entries@.subrange(0, 0)));
            }
            while i < self.memory.entries.len()
                invariant
                    i <= self.memory.entries.len(),
                    out@ == header + spec_entry_lines(self.memory.entries@.subrange(0, i as int)),
                decreases self.memory.entries.len() - i,
            {
                proof {
                    let pre = self.memory.entries@.subrange(0, i as int);
                    let cur = self.memory.entries@.subrange(0, i as int + 1);
                    assert(cur.drop_last() =~= pre);
                    assert(cur.last() == self.memory.entries@[i as int]);
                }
                out.append("  ");
                out.append(self.memory.entries[i].0.as_str());
                out.append(" = ");
                out.append(self.memory.entries[i].1.as_str());
                out.append("\n");
                proof {
                    assert(out@ =~= header + spec_entry_lines(
                        self.memory.entries@.subrange(0, i as int + 1),
                    ));
                }
                i = i + 1;
            }
            proof {
                assert(self.memory.entries@.subrange(0, self.memory.entries@.len() as int) =~=
                self.memory.entries@);
            }
        }
        let ghost first = out@;
        if self.memory.history.len() == 0 {
            out.append("No iteration history.\n");
        } else {
            out.append("\n## History (");
            out.append(u64_to_string(self.memory.history.len() as u64).as_str());
            out.append(" iterations)\n");
            let ghost header2 = out@;
            let mut i: usize = 0;
            proof {
                assert(self.memory.history@.subrange(0, 0) =~= Seq::<IterationRecord>::empty());
                assert(out@ =~= header2 + spec_history_lines(self.memory.history@.subrange(0, 0)));
            }
            while i < self.memory.history.len()
                invariant
                    i <= self.memory.history.len(),
                    out@ == header2 + spec_history_lines(
                        self.memory.history@.subrange(0, i as int),
                    ),
                decreases self.memory.history.len() - i,
            {
                proof {
                    let pre = self.memory.history@.subrange(0, i as int);
                    let cur = self.memory.history@.subrange(0, i as int + 1);
                    assert(cur.drop_last() =~= pre);
                    assert(cur.last() == self.memory.history@[i as int]);
                }
                let rec = &self.memory.history[i];
                out.append("  [");
                out.append(format_datetime(rec.timestamp).as_str());
                out.append("] iteration ");
                out.append(u64_to_string(rec.iteration as u64).as_str());
                out.append(": ");
                out.append(truncate_string(rec.response_summary.as_str(), 100).as_str());
                out.append("\n");
                proof {
                    assert(out@ =~= header2 + spec_history_lines(
                        self.memory.history@.subrange(0, i as int + 1),
                    ));
                }
                i = i + 1;
            }
            proof {
                assert(self.memory.history@.subrange(0, self.memory.history@.len() as int) =~=
                self.memory.history@);
                assert(out@ =~= first + ("\n## History ("@ + dec_of(
                    self.memory.history@.len() as int,
                ) + " iterations)\n"@ + spec_history_lines(self.memory.history@)));
            }
        }
        proof {
            assert(out@ =~= spec_display(&self.memory));
        }
        out
    }
}

} // verus!
