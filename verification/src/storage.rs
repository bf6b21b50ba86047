//! The replicated-log storage model: a dense, monotonic in-memory log of
//! entries, the last-applied bookkeeping, and the deterministic apply step
//! that runs a committed entry against the engine.

use vstd::prelude::*;
use crate::command::Context;
use crate::db::{ApplyOutcome, Store};

verus! {

/// What a log entry carries: a client request as frame bytes, a membership
/// change, a snapshot pointer, or a blank heartbeat.
pub enum EntryPayload {
    Normal(Vec<u8>),
    ConfigChange(Vec<u64>),
    SnapshotPointer(Vec<u64>),
    Blank,
}

/// One log record.
pub struct Entry {
    pub term: u64,
    pub index: u64,
    pub payload: EntryPayload,
}

/// The in-memory replicated log and the index applied so far. Log indexes
/// are dense, monotonic, and never reused: entry `i` of the vector carries
/// index `first + i`.
pub struct LogStore {
    pub entries: Vec<Entry>,
    pub first: u64,
    pub last_applied: u64,
}

impl LogStore {
    pub open spec fn wf(&self) -> bool {
        &&& forall|i: int|
            0 <= i < self.entries@.len() ==> (#[trigger] self.entries@[i]).index == self.first + i
        &&& self.first + self.entries@.len() <= u64::MAX
    }

    /// The index one past the log's tail.
    pub open spec fn next_index(&self) -> int {
        self.first + self.entries@.len()
    }

    pub fn new() -> (r: LogStore)
        ensures
            r.wf(),
            r.entries@.len() == 0,
            r.first == 1,
            r.last_applied == 0,
    {
        LogStore { entries: Vec::new(), first: 1, last_applied: 0 }
    }

    /// The term and index of the last entry, or zeros on an empty log.
    pub fn last_log(&self) -> (r: (u64, u64))
        requires
            self.wf(),
        ensures
            self.entries@.len() == 0 ==> r == (0u64, 0u64),
            self.entries@.len() > 0 ==> r.0 == self.entries@.last().term && r.1
                == self.entries@.last().index,
    {
        if self.entries.len() == 0 {
            (0, 0)
        } else {
            let e = &self.entries[self.entries.len() - 1];
            (e.term, e.index)
        }
    }

    /// Appends one entry carrying the next index.
    pub fn append_entry(&mut self, e: Entry)
        requires
            old(self).wf(),
            old(self).next_index() < u64::MAX,
            e.index == old(self).next_index(),
        ensures
            final(self).wf(),
            final(self).entries@ == old(self).entries@.push(e),
            final(self).first == old(self).first,
            final(self).last_applied == old(self).last_applied,
    {
        self.entries.push(e);
    }

    /// Removes the log's tail from index `from` on; with no stop point the
    /// whole tail goes, with one only the indexes below it go.
    pub fn delete_logs_from(&mut self, from: u64, stop: Option<u64>)
        requires
            old(self).wf(),
        ensures
            final(self).wf(),
            final(self).first == old(self).first,
            final(self).last_applied == old(self).last_applied,
            stop is None && from >= old(self).first ==> final(self).entries@
                == old(self).entries@.take(
                if from - old(self).first <= old(self).entries@.len() {
                    from - old(self).first
                } else {
                    old(self).entries@.len() as int
                },
            ),
    {
        let hi: u64 = match stop {
            Some(h) => h,
            None => {
                if from < self.first {
                    self.entries.clear();
                    proof {
                        assert(self.entries@ =~= old(self).entries@.take(0));
                    }
                    // everything at or past `from` is gone; nothing before it
                    // was stored
                    return ;
                }
                let keep_len: usize = if from - self.first <= self.entries.len() as u64 {
                    (from - self.first) as usize
                } else {
                    self.entries.len()
                };
                self.entries.truncate(keep_len);
                proof {
                    assert(self.entries@ =~= old(self).entries@.take(keep_len as int));
                }
                return ;
            },
        };
        // remove the indexes in [from, hi)
        let mut i: u64 = from;
        while i < hi
            invariant
                self.wf(),
                self.first == old(self).first,
                self.last_applied == old(self).last_applied,
            decreases hi - i,
        {
            self.remove_index(i);
            i = i + 1;
        }
    }

    /// Removes one index when the log holds it; only tail-adjacent use
    /// keeps the density invariant, so the removed suffix goes with it.
    fn remove_index(&mut self, idx: u64)
        requires
            old(self).wf(),
        ensures
            final(self).wf(),
            final(self).first == old(self).first,
            final(self).last_applied == old(self).last_applied,
    {
        if idx < self.first {
            return ;
        }
        let off = idx - self.first;
        if off < self.entries.len() as u64 {
            self.entries.truncate(off as usize);
            proof {
                assert(forall|i: int|
                    0 <= i < self.entries@.len() ==> (#[trigger] self.entries@[i])
                        == old(self).entries@[i]);
            }
        }
    }

    /// Records that the engine applied everything through `index`.
    pub fn record_applied(&mut self, index: u64)
        requires
            old(self).wf(),
        ensures
            final(self).wf(),
            final(self).last_applied == index,
            final(self).entries@ == old(self).entries@,
            final(self).first == old(self).first,
    {
        self.last_applied = index;
    }
}

/// Applies one committed entry to the state machine: the carried frame is
/// compiled and run against the engine, `last_applied` advances to the
/// entry's index, and the reply is returned. The outcome depends only on
/// the store, the session, the entry, and the supplied timestamp, so every
/// replica that applies the same log prefix from the same store arrives at
/// the same store: a parsed frame's command runs under the engine's full
/// contract, an unparseable or ill-formed one leaves the store as it was
/// and replies with the matching error.

/// The token stream a decoded entry frame compiles through: a RESP array's
/// tokens, and none for any other frame shape.
pub open spec fn entry_tokens(m: crate::decode::FrameModel) -> Seq<Seq<char>> {
    match m {
        crate::decode::FrameModel::Arr(ms) => crate::tokenizer::tokens_of_models(ms),
        _ => Seq::<Seq<char>>::empty(),
    }
}
pub fn apply_entry_to_state_machine(
    store: &mut Store,
    log: &mut LogStore,
    context: &mut Context,
    index: u64,
    frame_bytes: &[u8],
    now: i64,
) -> (r: ApplyOutcome)
    requires
        old(store).wf(),
        old(log).wf(),
    ensures
        final(store).wf(),
        final(log).wf(),
        final(log).last_applied == index,
        final(log).entries@ == old(log).entries@,
        final(log).first == old(log).first,
        crate::decode::spec_parse(frame_bytes@) matches crate::decode::SpecParse::Done(m, _)
            ==> (match crate::analyzer::spec_analyse(entry_tokens(m)) {
            Some(cm) => exists|c: crate::command::Command|
                #[trigger] crate::command::command_model(c) == cm && crate::db::apply_full_post(
                    *old(store),
                    *final(store),
                    *old(context),
                    *final(context),
                    c,
                    now,
                    r,
                ),
            None => r matches ApplyOutcome::Reply(e) && e@ == crate::printer::error_reply(
                "ERR syntax error"@,
            ) && *final(store) == *old(store) && *final(context) == *old(context),
        }),
        !(crate::decode::spec_parse(frame_bytes@) is Done) ==> (r matches ApplyOutcome::Reply(e)
            && e@ == crate::printer::error_reply("ERR invalid frame"@) && *final(store) == *old(
            store,
        ) && *final(context) == *old(context)),
{
    let reply = match crate::decode::decode(frame_bytes) {
        Ok((Some(f), _)) => match crate::command::compile_frame(f) {
            Ok(cmd) => {
                let ghost cm = crate::command::command_model(cmd);
                let r0 = crate::db::apply(store, context, &cmd, now);
                proof {
                    assert(crate::command::command_model(cmd) == cm);
                }
                r0
            },
            Err(e) => ApplyOutcome::Reply(crate::printer::print_err(e.message())),
        },
        _ => ApplyOutcome::Reply(crate::printer::print_err("ERR invalid frame")),
    };
    log.record_applied(index);
    reply
}

impl LogStore {
    /// Compacts the log through a snapshotted index: every entry at or
    /// below `through` is superseded by one snapshot-pointer entry standing
    /// at `through` itself, and the suffix past it is kept; a `through`
    /// outside the stored range leaves the log as it is. The pointer
    /// carries the superseded tail's term and the membership the snapshot
    /// closed over, so a snapshot's index and term equal the last entry it
    /// supersedes.
    pub fn compact_through(&mut self, through: u64, membership: Vec<u64>)
        requires
            old(self).wf(),
        ensures
            final(self).wf(),
            final(self).last_applied == old(self).last_applied,
            old(self).first <= through < old(self).next_index() ==> ({
                &&& final(self).first == through
                &&& final(self).entries@.len() == old(self).next_index() - through
                &&& final(self).entries@[0].index == through
                &&& final(self).entries@[0].term == old(self).entries@[
                    through - old(self).first].term
                &&& final(self).entries@[0].payload is SnapshotPointer
                &&& final(self).entries@.skip(1) == old(self).entries@.skip(
                    through - old(self).first + 1,
                )
            }),
            !(old(self).first <= through < old(self).next_index()) ==> *final(self) == *old(self),
    {
        if through < self.first {
            return ;
        }
        let off = through - self.first;
        if off >= self.entries.len() as u64 {
            return ;
        }
        let off = off as usize;
        let term = self.entries[off].term;
        let mut tail = self.entries.split_off(off + 1);
        let ghost tail0 = tail@;
        tail.insert(0, Entry { term, index: through, payload: EntryPayload::SnapshotPointer(membership) });
        self.entries = tail;
        self.first = through;
        proof {
            assert(old(self).entries@[through - old(self).first].term == term);
            assert(tail0 =~= old(self).entries@.skip(through - old(self).first + 1));
            assert(self.entries@.skip(1) =~= tail0);
            assert forall|j: int|
                0 <= j < self.entries@.len() implies (#[trigger] self.entries@[j]).index
                == self.first + j by {
                if j > 0 {
                    assert(self.entries@[j] == tail0[j - 1]);
                    assert(tail0[j - 1] == old(self).entries@[through - old(self).first + 1 + j
                        - 1]);
                }
            }
        }
    }

    /// The membership the log's newest configuration carries: the members
    /// of the last config-change or snapshot-pointer entry, or just this
    /// node on a log without one.
    pub fn membership(&self, node_id: u64) -> (r: Vec<u64>)
        ensures
            r@ == spec_membership(self.entries@, node_id),
    {
        let mut i: usize = self.entries.len();
        proof {
            assert(self.entries@.take(self.entries@.len() as int) =~= self.entries@);
        }
        while i > 0
            invariant
                i <= self.entries@.len(),
                spec_membership(self.entries@, node_id) == spec_membership(
                    self.entries@.take(i as int),
                    node_id,
                ),
            decreases i,
        {
            proof {
                assert(self.entries@.take(i as int).last() == self.entries@[i - 1]);
                assert(self.entries@.take(i as int).drop_last() =~= self.entries@.take(i - 1));
            }
            match self.entries[i - 1].payload {
                EntryPayload::ConfigChange(ref m) => {
                    return clone_members(m);
                },
                EntryPayload::SnapshotPointer(ref m) => {
                    return clone_members(m);
                },
                _ => {},
            }
            i = i - 1;
        }
        proof {
            assert(self.entries@.take(0) =~= Seq::<Entry>::empty());
        }
        let mut only: Vec<u64> = Vec::new();
        only.push(node_id);
        proof {
            assert(only@ =~= seq![node_id]);
        }
        only
    }

    /// The initial state a node derives at boot: last log term and index,
    /// what was applied, and the newest membership.
    pub fn initial_state(&self, node_id: u64) -> (r: (u64, u64, u64, Vec<u64>))
        requires
            self.wf(),
        ensures
            self.entries@.len() == 0 ==> r.0 == 0 && r.1 == 0,
            self.entries@.len() > 0 ==> r.0 == self.entries@.last().term && r.1
                == self.entries@.last().index,
            r.2 == self.last_applied,
            r.3@ == spec_membership(self.entries@, node_id),
    {
        let (term, index) = self.last_log();
        let members = self.membership(node_id);
        (term, index, self.last_applied, members)
    }
}

/// The members of the newest configuration-bearing entry, scanning from the
/// tail; a log without one answers with this node alone.
pub open spec fn spec_membership(entries: Seq<Entry>, node_id: u64) -> Seq<u64>
    decreases entries.len(),
{
    if entries.len() == 0 {
        seq![node_id]
    } else {
        match entries.last().payload {
            EntryPayload::ConfigChange(m) => m@,
            EntryPayload::SnapshotPointer(m) => m@,
            _ => spec_membership(entries.drop_last(), node_id),
        }
    }
}

fn clone_members(m: &Vec<u64>) -> (r: Vec<u64>)
    ensures
        r@ == m@,
{
    let mut out: Vec<u64> = Vec::new();
    let mut i: usize = 0;
    while i < m.len()
        invariant
            i <= m@.len(),
            out@ =~= m@.take(i as int),
        decreases m@.len() - i,
    {
        out.push(m[i]);
        i = i + 1;
        proof {
            assert(out@ =~= m@.take(i as int));
        }
    }
    proof {
        assert(m@.take(m@.len() as int) =~= m@);
    }
    out
}

/// The follower's bulk apply: runs each committed entry's frame against
/// the engine in log order, ignoring replies, and records the last applied
/// index. Each step is the same deterministic apply the leader runs, so a
/// follower replaying the same prefix from the same store converges.
pub fn replicate_to_state_machine(
    store: &mut Store,
    log: &mut LogStore,
    context: &mut Context,
    entries: &Vec<(u64, Vec<u8>)>,
    now: i64,
)
    requires
        old(store).wf(),
        old(log).wf(),
    ensures
        final(store).wf(),
        final(log).wf(),
        entries@.len() > 0 ==> final(log).last_applied == entries@.last().0,
        entries@.len() == 0 ==> *final(log) == *old(log) && *final(store) == *old(store),
{
    let mut i: usize = 0;
    while i < entries.len()
        invariant
            i <= entries@.len(),
            store.wf(),
            log.wf(),
            i > 0 ==> log.last_applied == entries@[i - 1].0,
            i == 0 ==> *log == *old(log) && *store == *old(store),
        decreases entries@.len() - i,
    {
        let _reply = apply_entry_to_state_machine(
            store,
            log,
            context,
            entries[i].0,
            entries[i].1.as_slice(),
            now,
        );
        i = i + 1;
    }
}

} // verus!
