//! The receive task's state machine.
//!
//! A receive binds a fresh endpoint, connects to the peer named by its
//! ticket, learns the sizes of the content, checks disk space, loads the
//! collection, resolves conflicts with files already present, exports each
//! entry in collection order, and reports progress throughout. The runtime
//! performs the network and filesystem work and feeds the outcomes into
//! these steps; every decision — what to emit, where to write, when to
//! fail — is taken here. Each step emits at most one terminal event, and
//! exactly when the task moves to its final phase (the one exception is a
//! resolver that closes without an answer, which ends the task silently).

use vstd::prelude::*;

use crate::events::{ConflictResolution, TransferProgress};
use crate::format::{binary_size_of, format_size_binary};
use crate::paths::{avail_name_spec, export_path, find_available_name, str_views, valid_name};
use crate::speed::{drop_stale, speed_of, SpeedTracker};
use crate::text::{chars_of, decimal_of, push_chars, push_decimal, split_at_seps, split_char,
    string_from_chars};

verus! {

/// Extra free space required beyond the payload: one gibibyte.
pub const MIN_FREE_SPACE: u64 = 1073741824;

/// Where a receive stands in its lifecycle.
#[derive(Debug, Clone, Copy, PartialEq, Eq, Structural)]
pub enum ReceivePhase {
    /// Waiting for the fresh endpoint to bind.
    Binding,
    /// Waiting for the connection to the peer.
    Connecting,
    /// Waiting for the content sizes.
    Sizing,
    /// Waiting for the collection metadata.
    Loading,
    /// Waiting to learn which target files already exist.
    CheckingConflicts,
    /// Waiting for the consumer's conflict resolution.
    AwaitingResolution,
    /// Exporting entries to the output directory.
    Exporting,
    /// Finished: completed, failed, or cancelled.
    Done,
}

/// One item of an export stream for a single entry.
#[derive(Debug)]
pub enum ExportItem {
    /// The entry's payload size.
    Size(u64),
    /// Bytes written so far for this entry.
    CopyProgress(u64),
    /// The entry finished cleanly.
    Done,
    /// The export failed, with the cause.
    Error(String),
}

/// What the runtime should do for the next collection entry.
#[derive(Debug)]
pub enum ExportStep {
    /// Export the entry at `index` to `target`, deleting the existing file
    /// first when `overwrite` is set.
    Export { index: usize, target: String, overwrite: bool },
    /// The entry was skipped; ask again for the next one.
    SkipEntry,
    /// Every entry is handled; report completion.
    Finished,
    /// Stop without completing.
    Stopped,
}

/// The sum of a size list, as an unbounded integer.
pub open spec fn sum_int(s: Seq<u64>) -> int
    decreases s.len(),
{
    if s.len() == 0 {
        0
    } else {
        sum_int(s.drop_last()) + s.last()
    }
}

/// The sum of every size after the first, saturated at `u64::MAX`: the
/// payload excludes the collection metadata blob.
pub open spec fn payload_of(sizes: Seq<u64>) -> int {
    if sizes.len() == 0 {
        0
    } else {
        let total = sum_int(sizes.skip(1));
        if total > u64::MAX {
            u64::MAX as int
        } else {
            total
        }
    }
}

/// The message reported when the disk cannot hold the payload.
pub open spec fn no_space_message(payload: u64, free: u64) -> Seq<char> {
    "insufficient disk space: need "@ + binary_size_of(payload) + " (+ "@ + binary_size_of(
        MIN_FREE_SPACE,
    ) + " buffer) but only "@ + binary_size_of(free) + " available"@
}

/// The message reported when exporting an entry fails.
pub open spec fn export_error_message(name: Seq<char>, cause: Seq<char>) -> Seq<char> {
    "error exporting "@ + name + ": "@ + cause
}

/// Whether `p` starts `s`.
pub open spec fn is_prefix_of(p: Seq<char>, s: Seq<char>) -> bool {
    p.len() <= s.len() && s.subrange(0, p.len() as int) == p
}

/// The label a receive reports in `Started`: the single entry's name, or
/// the leading path segment every name starts with, or `N files`.
pub open spec fn receive_label_spec(names: Seq<Seq<char>>) -> Seq<char> {
    if names.len() == 1 {
        names[0]
    } else {
        let first = if names.len() > 0 {
            names[0]
        } else {
            Seq::<char>::empty()
        };
        let folder = split_at_seps(first, '/')[0];
        if forall|i: int| 0 <= i < names.len() ==> is_prefix_of(folder, #[trigger] names[i]) {
            folder
        } else {
            decimal_of(names.len() as nat) + " files"@
        }
    }
}

/// Whether `p` starts `s`.
fn starts_with_chars(p: &Vec<char>, s: &Vec<char>) -> (r: bool)
    ensures
        r <==> is_prefix_of(p@, s@),
{
    if p.len() > s.len() {
        return false;
    }
    let mut i: usize = 0;
    while i < p.len()
        invariant
            0 <= i <= p@.len() <= s@.len(),
            forall|j: int| 0 <= j < i ==> p@[j] == s@[j],
        decreases p@.len() - i,
    {
        if p[i] != s[i] {
            proof {
                assert(s@.subrange(0, p@.len() as int)[i as int] == s@[i as int]);
            }
            return false;
        }
        i = i + 1;
    }
    proof {
        assert(s@.subrange(0, p@.len() as int) =~= p@);
    }
    true
}

/// Computes the `Started` label for a list of entry names.
fn receive_label(names: &Vec<String>) -> (r: String)
    ensures
        r@ == receive_label_spec(str_views(names@)),
{
    let ghost nv = str_views(names@);
    if names.len() == 1 {
        return names[0].clone();
    }
    let first: Vec<char> = if names.len() > 0 {
        chars_of(names[0].as_str())
    } else {
        Vec::new()
    };
    proof {
        if names@.len() > 0 {
            assert(nv[0] == names@[0]@);
        } else {
            assert(first@ =~= Seq::<char>::empty());
        }
    }
    let parts = split_char(&first, '/');
    proof {
        crate::text::lemma_split_len(first@, '/');
        assert(crate::text::views_of(parts@)[0] == parts@[0]@);
    }
    let folder = &parts[0];
    let mut all_prefixed = true;
    let mut i: usize = 0;
    while i < names.len()
        invariant
            0 <= i <= names@.len(),
            folder == &parts@[0],
            parts@[0]@ == split_at_seps(
                if names@.len() > 0 {
                    names@[0]@
                } else {
                    Seq::<char>::empty()
                },
                '/',
            )[0],
            all_prefixed <==> (forall|j: int|
                0 <= j < i ==> is_prefix_of(parts@[0]@, #[trigger] str_views(names@)[j])),
        decreases names@.len() - i,
    {
        let cur = chars_of(names[i].as_str());
        proof {
            assert(str_views(names@)[i as int] == names@[i as int]@);
        }
        if !starts_with_chars(folder, &cur) {
            all_prefixed = false;
        }
        i = i + 1;
    }
    if all_prefixed {
        string_from_chars(folder)
    } else {
        let mut out: Vec<char> = Vec::new();
        push_decimal(names.len() as u64, &mut out);
        let suffix = chars_of(" files");
        push_chars(&mut out, &suffix);
        proof {
            assert(names@.len() as u64 as nat == names@.len());
            assert(out@ =~= receive_label_spec(nv));
        }
        string_from_chars(&out)
    }
}

/// One receive in progress.
#[derive(Debug)]
pub struct ReceiveTask {
    /// The transfer id every event carries.
    pub id: String,
    /// The ticket text the receive was started from.
    pub ticket: String,
    /// Where exported files go.
    pub output_dir: String,
    /// Where the task stands.
    pub phase: ReceivePhase,
    /// Total payload bytes (every blob but the metadata).
    pub payload_size: u64,
    /// Collection entry names, in transfer order.
    pub entries: Vec<String>,
    /// The sanitized target path of each entry.
    pub targets: Vec<String>,
    /// Paths written this run and not yet completed, for cleanup on cancel.
    pub exported_files: Vec<String>,
    /// Payload bytes of entries already completed.
    pub cumulative_base: u64,
    /// The size announced for the entry being exported.
    pub current_size: u64,
    /// Index of the next entry to export.
    pub entry_index: usize,
    /// How conflicts with existing files are resolved.
    pub resolution: ConflictResolution,
    /// Rolling speed estimate.
    pub speed: SpeedTracker,
}

impl ReceiveTask {
    /// A receive for `ticket` into `output_dir`. The first event reports
    /// that the endpoint is being created.
    pub fn new(id: String, ticket: String, output_dir: String) -> (r: (
        ReceiveTask,
        Vec<TransferProgress>,
    ))
        ensures
            r.0.phase is Binding,
            r.0.id == id,
            r.0.ticket == ticket,
            r.0.output_dir == output_dir,
            r.0.payload_size == 0,
            r.0.entries@ == Seq::<String>::empty(),
            r.0.targets@ == Seq::<String>::empty(),
            r.0.exported_files@ == Seq::<String>::empty(),
            r.0.cumulative_base == 0,
            r.0.current_size == 0,
            r.0.entry_index == 0,
            r.0.resolution is Rename,
            r.0.speed.samples@ == Seq::<(u64, u64)>::empty(),
            r.0.speed.window_ms == crate::speed::DEFAULT_WINDOW_MS,
            r.1@.len() == 1,
            r.1@[0]@ == (crate::events::EventModel::Preparing {
                id: id@,
                status: "Creating endpoint..."@,
            }),
    {
        let mut events: Vec<TransferProgress> = Vec::new();
        events.push(
            TransferProgress::Preparing {
                id: id.clone(),
                status: "Creating endpoint...".to_owned(),
            },
        );
        let task = ReceiveTask {
            id,
            ticket,
            output_dir,
            phase: ReceivePhase::Binding,
            payload_size: 0,
            entries: Vec::new(),
            targets: Vec::new(),
            exported_files: Vec::new(),
            cumulative_base: 0,
            current_size: 0,
            entry_index: 0,
            resolution: ConflictResolution::Rename,
            speed: SpeedTracker::default_window(),
        };
        (task, events)
    }

    /// The fresh endpoint is bound; the task now waits for the peer.
    pub fn on_endpoint_ready(&mut self) -> (r: Vec<TransferProgress>)
        requires
            old(self).phase is Binding,
        ensures
            *final(self) == (ReceiveTask { phase: ReceivePhase::Connecting, ..*old(self) }),
            r@.len() == 1,
            r@[0]@ == (crate::events::EventModel::Connecting { id: old(self).id@ }),
    {
        self.phase = ReceivePhase::Connecting;
        let mut events: Vec<TransferProgress> = Vec::new();
        events.push(TransferProgress::Connecting { id: self.id.clone() });
        events
    }

    /// Binding or connecting failed; the task ends with one `Failed`.
    pub fn on_connect_failed(&mut self, error: String) -> (r: Vec<TransferProgress>)
        requires
            old(self).phase is Binding || old(self).phase is Connecting,
        ensures
            *final(self) == (ReceiveTask { phase: ReceivePhase::Done, ..*old(self) }),
            r@.len() == 1,
            r@[0]@ == (crate::events::EventModel::Failed { id: old(self).id@, error: error@ }),
    {
        self.phase = ReceivePhase::Done;
        let mut events: Vec<TransferProgress> = Vec::new();
        events.push(TransferProgress::Failed { id: self.id.clone(), error });
        events
    }

    /// Connected to the peer. The transport class is the runtime's
    /// classification where it has one; an unknown class is reported as a
    /// relay path, the conservative reading.
    pub fn on_connected(&mut self, transport_is_relay: Option<bool>) -> (r: Vec<TransferProgress>)
        requires
            old(self).phase is Connecting,
        ensures
            *final(self) == (ReceiveTask { phase: ReceivePhase::Sizing, ..*old(self) }),
            r@.len() == 1,
            r@[0]@ == (crate::events::EventModel::Connected {
                id: old(self).id@,
                is_relay: match transport_is_relay {
                    Some(b) => b,
                    None => true,
                },
            }),
    {
        self.phase = ReceivePhase::Sizing;
        let is_relay = match transport_is_relay {
            Some(b) => b,
            None => true,
        };
        let mut events: Vec<TransferProgress> = Vec::new();
        events.push(TransferProgress::Connected { id: self.id.clone(), is_relay });
        events
    }

    /// The content sizes arrived: the first is the collection metadata,
    /// the rest the payload. Requires `free_space` of at least the payload
    /// plus a one-gibibyte buffer; one byte short fails the task.
    pub fn on_sizes(&mut self, sizes: &Vec<u64>, free_space: u64) -> (r: Vec<TransferProgress>)
        requires
            old(self).phase is Sizing,
        ensures
            final(self).payload_size == payload_of(sizes@),
            free_space >= payload_of(sizes@) + MIN_FREE_SPACE ==> *final(self) == (ReceiveTask {
                phase: ReceivePhase::Loading,
                payload_size: final(self).payload_size,
                ..*old(self)
            }) && r@.len() == 0,
            free_space < payload_of(sizes@) + MIN_FREE_SPACE ==> *final(self) == (ReceiveTask {
                phase: ReceivePhase::Done,
                payload_size: final(self).payload_size,
                ..*old(self)
            }) && r@.len() == 1 && r@[0]@ == (crate::events::EventModel::Failed {
                id: old(self).id@,
                error: no_space_message(payload_of(sizes@) as u64, free_space),
            }),
    {
        let mut acc: u64 = 0;
        if sizes.len() >= 1 {
            let ghost tail = sizes@.skip(1);
            let mut i: usize = 1;
            proof {
                assert(tail.take(0) =~= Seq::<u64>::empty());
            }
            while i < sizes.len()
                invariant
                    1 <= i <= sizes@.len(),
                    tail == sizes@.skip(1),
                    ({
                        let total = sum_int(tail.take(i - 1));
                        acc == if total > u64::MAX {
                            u64::MAX as int
                        } else {
                            total
                        }
                    }),
                decreases sizes@.len() - i,
            {
                let ghost pre = tail.take(i - 1);
                let x = sizes[i];
                proof {
                    assert(tail.take(i as int).drop_last() =~= pre);
                    assert(tail.take(i as int).last() == sizes@[i as int]);
                }
                acc = match acc.checked_add(x) {
                    Some(v) => v,
                    None => u64::MAX,
                };
                i = i + 1;
            }
            proof {
                assert(tail.take(sizes@.len() - 1) =~= tail);
            }
        }
        proof {
            assert(acc == payload_of(sizes@));
        }
        self.payload_size = acc;
        let enough: bool = match acc.checked_add(MIN_FREE_SPACE) {
            Some(need) => free_space >= need,
            None => false,
        };
        if enough {
            self.phase = ReceivePhase::Loading;
            Vec::new()
        } else {
            self.phase = ReceivePhase::Done;
            let mut msg = chars_of("insufficient disk space: need ");
            let p = format_size_binary(acc);
            let pc = chars_of(p.as_str());
            push_chars(&mut msg, &pc);
            let mid = chars_of(" (+ ");
            push_chars(&mut msg, &mid);
            let b = format_size_binary(MIN_FREE_SPACE);
            let bc = chars_of(b.as_str());
            push_chars(&mut msg, &bc);
            let mid2 = chars_of(" buffer) but only ");
            push_chars(&mut msg, &mid2);
            let f = format_size_binary(free_space);
            let fc = chars_of(f.as_str());
            push_chars(&mut msg, &fc);
            let tail2 = chars_of(" available");
            push_chars(&mut msg, &tail2);
            proof {
                assert(msg@ =~= no_space_message(acc, free_space));
            }
            let mut events: Vec<TransferProgress> = Vec::new();
            events.push(
                TransferProgress::Failed { id: self.id.clone(), error: string_from_chars(&msg) },
            );
            events
        }
    }
}


/// How many entries the file list shows: the names, as far as sizes exist.
pub open spec fn listed_count(names: Seq<String>, sizes: Seq<u64>) -> int {
    let avail = if sizes.len() == 0 {
        0
    } else {
        sizes.len() - 1
    };
    if names.len() <= avail {
        names.len() as int
    } else {
        avail
    }
}

/// The final path component of a name.
pub open spec fn basename_of(s: Seq<char>) -> Seq<char> {
    let parts = split_at_seps(s, '/');
    parts[parts.len() - 1]
}

/// The `(basename, size)` pairs shown to the consumer.
pub open spec fn file_list_spec(names: Seq<String>, sizes: Seq<u64>) -> Seq<(Seq<char>, u64)> {
    Seq::new(listed_count(names, sizes) as nat, |i: int| (basename_of(names[i]@), sizes[i + 1]))
}

/// The `(name, existing path)` pairs of entries whose target exists.
pub open spec fn conflict_views(
    names: Seq<Seq<char>>,
    targets: Seq<Seq<char>>,
    exists: Seq<bool>,
) -> Seq<(Seq<char>, Seq<char>)>
    decreases exists.len(),
{
    if exists.len() == 0 || names.len() < exists.len() || targets.len() < exists.len() {
        Seq::<(Seq<char>, Seq<char>)>::empty()
    } else {
        let front = conflict_views(
            names.drop_last(),
            targets.drop_last(),
            exists.drop_last(),
        );
        if exists.last() {
            front.push((names.last(), targets.last()))
        } else {
            front
        }
    }
}

/// Index of the first name that cannot be written safely, or `-1`.
pub open spec fn first_invalid(names: Seq<String>) -> int
    decreases names.len(),
{
    if names.len() == 0 {
        -1
    } else if !valid_name(names[0]@) {
        0
    } else {
        let r = first_invalid(names.drop_first());
        if r == -1 {
            -1
        } else {
            r + 1
        }
    }
}

/// `first_invalid` finds exactly the first invalid name.
proof fn lemma_first_invalid(names: Seq<String>, i: int)
    requires
        0 <= i < names.len(),
        !valid_name(names[i]@),
        forall|j: int| 0 <= j < i ==> valid_name((#[trigger] names[j])@),
    ensures
        first_invalid(names) == i,
    decreases names.len(),
{
    if i > 0 {
        assert(forall|k: int|
            0 <= k < names.drop_first().len() ==> names.drop_first()[k] == names[k + 1]);
        lemma_first_invalid(names.drop_first(), i - 1);
    }
}

/// A list of only valid names has no first invalid one.
proof fn lemma_first_invalid_none(names: Seq<String>)
    requires
        forall|j: int| 0 <= j < names.len() ==> valid_name((#[trigger] names[j])@),
    ensures
        first_invalid(names) == -1,
    decreases names.len(),
{
    if names.len() > 0 {
        assert(forall|k: int|
            0 <= k < names.drop_first().len() ==> names.drop_first()[k] == names[k + 1]);
        lemma_first_invalid_none(names.drop_first());
    }
}

/// The message reported for a name that cannot be written safely.
pub open spec fn invalid_name_message(name: Seq<char>) -> Seq<char> {
    "invalid file name: "@ + (match crate::paths::name_violation(split_at_seps(name, '/')) {
        Some(e) => e.message_spec(),
        None => Seq::<char>::empty(),
    })
}

/// The final path component of a name, as characters.
fn basename_chars(name: &String) -> (r: Vec<char>)
    ensures
        r@ == basename_of(name@),
{
    let chars = chars_of(name.as_str());
    let parts = split_char(&chars, '/');
    proof {
        crate::text::lemma_split_len(name@, '/');
        assert(crate::text::views_of(parts@)[parts@.len() - 1] == parts@[parts@.len() - 1]@);
    }
    let last = &parts[parts.len() - 1];
    crate::text::sub_vec(last, 0, last.len())
}

impl ReceiveTask {
    /// The collection arrived: record its entry names, compute each
    /// entry's target path, and report the file list. A name that cannot
    /// be written safely under the output directory fails the task.
    /// `sizes` are the content sizes from the sizing step.
    pub fn on_collection(&mut self, names: Vec<String>, sizes: &Vec<u64>) -> (r: Vec<
        TransferProgress,
    >)
        requires
            old(self).phase is Loading,
        ensures
            final(self).entries@ == names@,
            final(self).id == old(self).id,
            final(self).ticket == old(self).ticket,
            final(self).output_dir == old(self).output_dir,
            final(self).payload_size == old(self).payload_size,
            final(self).exported_files@ == old(self).exported_files@,
            final(self).cumulative_base == old(self).cumulative_base,
            final(self).current_size == old(self).current_size,
            final(self).entry_index == old(self).entry_index,
            final(self).resolution == old(self).resolution,
            final(self).speed == old(self).speed,
            (forall|i: int| 0 <= i < names@.len() ==> valid_name((#[trigger] names@[i])@)) ==> ({
                &&& final(self).phase is CheckingConflicts
                &&& final(self).targets@.len() == names@.len()
                &&& (forall|i: int|
                    0 <= i < names@.len() ==> (#[trigger] final(self).targets@[i])@ == old(
                        self,
                    ).output_dir@ + seq!['/'] + names@[i]@)
                &&& if names@.len() > 0 {
                    r@.len() == 1 && r@[0]@ == (crate::events::EventModel::FileList {
                        id: old(self).id@,
                        files: file_list_spec(names@, sizes@),
                    })
                } else {
                    r@.len() == 0
                }
            }),
            (exists|i: int| 0 <= i < names@.len() && !valid_name((#[trigger] names@[i])@)) ==> ({
                &&& final(self).phase is Done
                &&& first_invalid(names@) >= 0
                &&& r@.len() >= 1
                &&& r@[r@.len() - 1]@ == (crate::events::EventModel::Failed {
                    id: old(self).id@,
                    error: invalid_name_message(names@[first_invalid(names@)]@),
                })
            }),
    {
        let mut events: Vec<TransferProgress> = Vec::new();
        if names.len() > 0 {
            let mut files: Vec<(String, u64)> = Vec::new();
            let avail: usize = if sizes.len() == 0 {
                0
            } else {
                sizes.len() - 1
            };
            let count: usize = if names.len() <= avail {
                names.len()
            } else {
                avail
            };
            let mut i: usize = 0;
            proof {
                assert(count == listed_count(names@, sizes@));
            }
            while i < count
                invariant
                    0 <= i <= count,
                    count == listed_count(names@, sizes@),
                    count <= names@.len(),
                    count == 0 || sizes@.len() >= count + 1,
                    crate::events::sized_views(files@) == file_list_spec(names@, sizes@).take(
                        i as int,
                    ),
                decreases count - i,
            {
                let base = basename_chars(&names[i]);
                let name_str = string_from_chars(&base);
                let size = sizes[i + 1];
                let ghost files0 = files@;
                files.push((name_str, size));
                proof {
                    assert(crate::events::sized_views(files@) =~= crate::events::sized_views(
                        files0,
                    ).push((basename_of(names@[i as int]@), sizes@[i as int + 1])));
                    assert(file_list_spec(names@, sizes@)[i as int] == (
                        basename_of(names@[i as int]@),
                        sizes@[i as int + 1],
                    ));
                    assert(crate::events::sized_views(files@) =~= file_list_spec(
                        names@,
                        sizes@,
                    ).take(i as int + 1));
                }
                i = i + 1;
            }
            proof {
                assert(file_list_spec(names@, sizes@).take(count as int) =~= file_list_spec(
                    names@,
                    sizes@,
                ));
            }
            events.push(TransferProgress::FileList { id: self.id.clone(), files });
        }
        let ghost evs0 = events@;
        let mut targets: Vec<String> = Vec::new();
        let mut i: usize = 0;
        while i < names.len()
            invariant
                0 <= i <= names@.len(),
                events@ == evs0,
                names@.len() > 0 ==> evs0.len() == 1 && evs0[0]@ == (
                crate::events::EventModel::FileList {
                    id: old(self).id@,
                    files: file_list_spec(names@, sizes@),
                }),
                names@.len() == 0 ==> evs0.len() == 0,
                forall|j: int| 0 <= j < i ==> valid_name((#[trigger] names@[j])@),
                targets@.len() == i,
                forall|j: int|
                    0 <= j < i ==> (#[trigger] targets@[j])@ == self.output_dir@ + seq!['/']
                        + names@[j]@,
                self.output_dir == old(self).output_dir,
                self.id == old(self).id,
                self.ticket == old(self).ticket,
                self.phase == old(self).phase,
                self.payload_size == old(self).payload_size,
                self.entries@ == old(self).entries@,
                self.exported_files@ == old(self).exported_files@,
                self.cumulative_base == old(self).cumulative_base,
                self.current_size == old(self).current_size,
                self.entry_index == old(self).entry_index,
                self.resolution == old(self).resolution,
                self.speed == old(self).speed,
            decreases names@.len() - i,
        {
            match export_path(self.output_dir.as_str(), names[i].as_str()) {
                Ok(t) => {
                    targets.push(t);
                },
                Err(e) => {
                    let mut msg = chars_of("invalid file name: ");
                    let m = chars_of(e.message());
                    push_chars(&mut msg, &m);
                    proof {
                        lemma_first_invalid(names@, i as int);
                        assert(msg@ =~= invalid_name_message(names@[i as int]@));
                    }
                    events.push(
                        TransferProgress::Failed {
                            id: self.id.clone(),
                            error: string_from_chars(&msg),
                        },
                    );
                    self.entries = names;
                    self.phase = ReceivePhase::Done;
                    proof {
                        assert(!valid_name(final(self).entries@[i as int]@));
                    }
                    return events;
                },
            }
            i = i + 1;
        }
        self.entries = names;
        self.targets = targets;
        self.phase = ReceivePhase::CheckingConflicts;
        events
    }

    /// Which target files already exist, entry by entry. Existing files
    /// raise one `FileConflicts` question; with none, the transfer starts
    /// at once, renaming on any conflict that appears later.
    pub fn on_existing(&mut self, exists: &Vec<bool>) -> (r: Vec<TransferProgress>)
        requires
            old(self).phase is CheckingConflicts,
            exists@.len() == old(self).entries@.len(),
            old(self).targets@.len() == old(self).entries@.len(),
        ensures
            final(self).id == old(self).id,
            final(self).ticket == old(self).ticket,
            final(self).output_dir == old(self).output_dir,
            final(self).entries@ == old(self).entries@,
            final(self).targets@ == old(self).targets@,
            final(self).payload_size == old(self).payload_size,
            final(self).exported_files@ == old(self).exported_files@,
            final(self).cumulative_base == old(self).cumulative_base,
            final(self).current_size == old(self).current_size,
            final(self).entry_index == old(self).entry_index,
            final(self).speed == old(self).speed,
            (exists|i: int| 0 <= i < exists@.len() && exists@[i]) ==> ({
                &&& final(self).phase is AwaitingResolution
                &&& final(self).resolution == old(self).resolution
                &&& r@.len() == 1
                &&& r@[0]@ == (crate::events::EventModel::FileConflicts {
                    id: old(self).id@,
                    conflicts: conflict_views(
                        str_views(old(self).entries@),
                        str_views(old(self).targets@),
                        exists@,
                    ),
                    total_bytes: old(self).payload_size,
                })
            }),
            (forall|i: int| 0 <= i < exists@.len() ==> !(#[trigger] exists@[i])) ==> ({
                &&& final(self).phase is Exporting
                &&& final(self).resolution is Rename
                &&& r@.len() == 1
                &&& r@[0]@ == (crate::events::EventModel::Started {
                    id: old(self).id@,
                    name: receive_label_spec(str_views(old(self).entries@)),
                    total_bytes: old(self).payload_size,
                })
            }),
    {
        let ghost nv = str_views(self.entries@);
        let ghost tv = str_views(self.targets@);
        let mut conflicts: Vec<(String, String)> = Vec::new();
        let mut i: usize = 0;
        proof {
            assert(crate::events::pair_views(conflicts@) =~= conflict_views(
                nv.take(0),
                tv.take(0),
                exists@.take(0),
            ));
        }
        while i < exists.len()
            invariant
                0 <= i <= exists@.len(),
                exists@.len() == self.entries@.len(),
                self.targets@.len() == self.entries@.len(),
                nv == str_views(self.entries@),
                tv == str_views(self.targets@),
                crate::events::pair_views(conflicts@) == conflict_views(
                    nv.take(i as int),
                    tv.take(i as int),
                    exists@.take(i as int),
                ),
                (exists|j: int| 0 <= j < i && exists@[j]) <==> conflicts@.len() > 0,
            decreases exists@.len() - i,
        {
            let ghost c0 = conflicts@;
            if exists[i] {
                let name = self.entries[i].clone();
                let target = self.targets[i].clone();
                conflicts.push((name, target));
            }
            proof {
                assert(nv.take(i as int + 1).drop_last() =~= nv.take(i as int));
                assert(tv.take(i as int + 1).drop_last() =~= tv.take(i as int));
                assert(exists@.take(i as int + 1).drop_last() =~= exists@.take(i as int));
                assert(nv.take(i as int + 1).last() == nv[i as int]);
                assert(tv.take(i as int + 1).last() == tv[i as int]);
                assert(exists@.take(i as int + 1).last() == exists@[i as int]);
                if exists@[i as int] {
                    assert(crate::events::pair_views(conflicts@) =~= crate::events::pair_views(
                        c0,
                    ).push((nv[i as int], tv[i as int])));
                    assert(crate::events::pair_views(conflicts@) =~= conflict_views(
                        nv.take(i as int + 1),
                        tv.take(i as int + 1),
                        exists@.take(i as int + 1),
                    ));
                } else {
                    assert(crate::events::pair_views(conflicts@) =~= conflict_views(
                        nv.take(i as int + 1),
                        tv.take(i as int + 1),
                        exists@.take(i as int + 1),
                    ));
                }
            }
            i = i + 1;
        }
        proof {
            assert(nv.take(exists@.len() as int) =~= nv);
            assert(tv.take(exists@.len() as int) =~= tv);
            assert(exists@.take(exists@.len() as int) =~= exists@);
        }
        let mut events: Vec<TransferProgress> = Vec::new();
        if conflicts.len() > 0 {
            events.push(
                TransferProgress::FileConflicts {
                    id: self.id.clone(),
                    conflicts,
                    total_bytes: self.payload_size,
                },
            );
            self.phase = ReceivePhase::AwaitingResolution;
        } else {
            self.resolution = ConflictResolution::Rename;
            self.phase = ReceivePhase::Exporting;
            let label = receive_label(&self.entries);
            events.push(
                TransferProgress::Started {
                    id: self.id.clone(),
                    name: label,
                    total_bytes: self.payload_size,
                },
            );
        }
        events
    }

    /// The consumer's answer to the conflict question. `None` means the
    /// resolver closed without answering: the task ends silently. `Cancel`
    /// ends it with one `Cancelled`. Anything else starts the transfer.
    pub fn on_resolution(&mut self, res: Option<ConflictResolution>) -> (r: Vec<TransferProgress>)
        requires
            old(self).phase is AwaitingResolution,
        ensures
            final(self).id == old(self).id,
            final(self).ticket == old(self).ticket,
            final(self).output_dir == old(self).output_dir,
            final(self).entries@ == old(self).entries@,
            final(self).targets@ == old(self).targets@,
            final(self).payload_size == old(self).payload_size,
            final(self).exported_files@ == old(self).exported_files@,
            final(self).cumulative_base == old(self).cumulative_base,
            final(self).current_size == old(self).current_size,
            final(self).entry_index == old(self).entry_index,
            final(self).speed == old(self).speed,
            res is None ==> final(self).phase is Done && r@.len() == 0,
            res == Some(ConflictResolution::Cancel) ==> final(self).phase is Done && r@.len() == 1
                && r@[0] == (TransferProgress::Cancelled { id: old(self).id }),
            (res is Some && !(res == Some(ConflictResolution::Cancel))) ==> ({
                &&& final(self).phase is Exporting
                &&& final(self).resolution == res->0
                &&& r@.len() == 1
                &&& r@[0]@ == (crate::events::EventModel::Started {
                    id: old(self).id@,
                    name: receive_label_spec(str_views(old(self).entries@)),
                    total_bytes: old(self).payload_size,
                })
            }),
    {
        let mut events: Vec<TransferProgress> = Vec::new();
        match res {
            None => {
                self.phase = ReceivePhase::Done;
            },
            Some(ConflictResolution::Cancel) => {
                self.phase = ReceivePhase::Done;
                events.push(TransferProgress::Cancelled { id: self.id.clone() });
            },
            Some(other) => {
                self.resolution = other;
                self.phase = ReceivePhase::Exporting;
                let label = receive_label(&self.entries);
                events.push(
                    TransferProgress::Started {
                        id: self.id.clone(),
                        name: label,
                        total_bytes: self.payload_size,
                    },
                );
            },
        }
        events
    }
}


impl ReceiveTask {
    /// Decides what to do for the next entry, given the names currently
    /// taken on disk: export to its target, rename past a conflict, delete
    /// and overwrite, skip, or stop, as the resolution directs. A target
    /// about to be written is remembered for cleanup on cancellation.
    pub fn next_entry(&mut self, occupied: &Vec<String>) -> (r: ExportStep)
        requires
            old(self).phase is Exporting,
            old(self).targets@.len() == old(self).entries@.len(),
        ensures
            final(self).phase is Exporting,
            final(self).id == old(self).id,
            final(self).entries@ == old(self).entries@,
            final(self).targets@ == old(self).targets@,
            final(self).payload_size == old(self).payload_size,
            final(self).cumulative_base == old(self).cumulative_base,
            final(self).resolution == old(self).resolution,
            old(self).entry_index >= old(self).entries@.len() ==> r is Finished && *final(self)
                == *old(self),
            old(self).entry_index < old(self).entries@.len() ==> ({
                let base = old(self).targets@[old(self).entry_index as int];
                let occ = str_views(occupied@);
                if !occ.contains(base@) {
                    &&& r matches ExportStep::Export { index, target, overwrite } && index == old(
                        self,
                    ).entry_index && target@ == base@ && overwrite == false
                    &&& final(self).exported_files@.len() == old(self).exported_files@.len() + 1
                    &&& final(self).exported_files@.last()@ == base@
                    &&& final(self).entry_index == old(self).entry_index
                    &&& final(self).current_size == 0
                } else {
                    match old(self).resolution {
                        ConflictResolution::Rename => {
                            &&& r matches ExportStep::Export { index, target, overwrite }
                                && index == old(self).entry_index && target@ == avail_name_spec(
                                base@,
                                occ,
                            ) && overwrite == false
                            &&& final(self).exported_files@.len() == old(
                                self,
                            ).exported_files@.len() + 1
                            &&& final(self).exported_files@.last()@ == avail_name_spec(base@, occ)
                            &&& final(self).entry_index == old(self).entry_index
                            &&& final(self).current_size == 0
                        },
                        ConflictResolution::Overwrite => {
                            &&& r matches ExportStep::Export { index, target, overwrite }
                                && index == old(self).entry_index && target@ == base@ && overwrite
                                == true
                            &&& final(self).exported_files@.len() == old(
                                self,
                            ).exported_files@.len() + 1
                            &&& final(self).exported_files@.last()@ == base@
                            &&& final(self).entry_index == old(self).entry_index
                            &&& final(self).current_size == 0
                        },
                        ConflictResolution::Skip => {
                            &&& r is SkipEntry
                            &&& final(self).exported_files@ == old(self).exported_files@
                            &&& final(self).entry_index == old(self).entry_index + 1
                        },
                        ConflictResolution::Cancel => {
                            &&& r is Stopped
                            &&& *final(self) == *old(self)
                        },
                    }
                }
            }),
    {
        if self.entry_index >= self.entries.len() {
            return ExportStep::Finished;
        }
        let base = &self.targets[self.entry_index];
        let base_chars = chars_of(base.as_str());
        let taken = crate::paths::name_taken(occupied, &base_chars);
        if !taken {
            let target = base.clone();
            self.exported_files.push(target.clone());
            self.current_size = 0;
            return ExportStep::Export { index: self.entry_index, target, overwrite: false };
        }
        match self.resolution {
            ConflictResolution::Rename => {
                let target = find_available_name(base.as_str(), occupied);
                self.exported_files.push(target.clone());
                self.current_size = 0;
                ExportStep::Export { index: self.entry_index, target, overwrite: false }
            },
            ConflictResolution::Overwrite => {
                let target = base.clone();
                self.exported_files.push(target.clone());
                self.current_size = 0;
                ExportStep::Export { index: self.entry_index, target, overwrite: true }
            },
            ConflictResolution::Skip => {
                self.entry_index = self.entry_index + 1;
                ExportStep::SkipEntry
            },
            ConflictResolution::Cancel => ExportStep::Stopped,
        }
    }

    /// One item from the export stream of the entry being written:
    /// records the announced size, turns copy progress into a `Progress`
    /// event with a fresh speed estimate, advances past a finished entry
    /// (which no longer needs cleanup), and fails the task on an error.
    /// The returned flag says the current entry is finished, cleanly or not.
    pub fn on_export_item(&mut self, item: ExportItem, now_ms: u64) -> (r: (
        Vec<TransferProgress>,
        bool,
    ))
        requires
            old(self).phase is Exporting,
            old(self).entry_index < old(self).entries@.len(),
        ensures
            final(self).id == old(self).id,
            final(self).entries@ == old(self).entries@,
            final(self).targets@ == old(self).targets@,
            final(self).payload_size == old(self).payload_size,
            item matches ExportItem::Size(sz) ==> *final(self) == (ReceiveTask {
                current_size: sz,
                ..*old(self)
            }) && r.0@.len() == 0 && r.1 == false,
            item matches ExportItem::CopyProgress(offset) ==> ({
                let cum: int = old(self).cumulative_base + offset;
                let cum64: u64 = if cum > u64::MAX {
                    u64::MAX
                } else {
                    cum as u64
                };
                &&& *final(self) == (ReceiveTask { speed: final(self).speed, ..*old(self) })
                &&& final(self).speed.samples@ == drop_stale(
                    old(self).speed.samples@.push((now_ms, cum64)),
                    now_ms,
                    old(self).speed.window_ms,
                )
                &&& final(self).speed.window_ms == old(self).speed.window_ms
                &&& r.0@.len() == 1
                &&& r.0@[0] == (TransferProgress::Progress {
                    id: old(self).id,
                    transferred_bytes: cum64,
                    speed_bps: speed_of(final(self).speed.samples@) as u64,
                })
                &&& r.1 == false
            }),
            item is Done ==> ({
                let cum: int = old(self).cumulative_base + old(self).current_size;
                &&& *final(self) == (ReceiveTask {
                    cumulative_base: if cum > u64::MAX {
                        u64::MAX
                    } else {
                        cum as u64
                    },
                    exported_files: final(self).exported_files,
                    entry_index: (old(self).entry_index + 1) as usize,
                    ..*old(self)
                })
                &&& final(self).exported_files@ == (if old(self).exported_files@.len() > 0 {
                    old(self).exported_files@.drop_last()
                } else {
                    old(self).exported_files@
                })
                &&& r.0@.len() == 0
                &&& r.1 == true
            }),
            item matches ExportItem::Error(cause) ==> ({
                &&& final(self).phase is Done
                &&& r.0@.len() == 1
                &&& r.0@[0]@ == (crate::events::EventModel::Failed {
                    id: old(self).id@,
                    error: export_error_message(
                        old(self).entries@[old(self).entry_index as int]@,
                        cause@,
                    ),
                })
                &&& r.1 == true
            }),
    {
        let mut events: Vec<TransferProgress> = Vec::new();
        match item {
            ExportItem::Size(sz) => {
                self.current_size = sz;
                (events, false)
            },
            ExportItem::CopyProgress(offset) => {
                let cum: u64 = match self.cumulative_base.checked_add(offset) {
                    Some(v) => v,
                    None => u64::MAX,
                };
                self.speed.add_sample_at(now_ms, cum);
                let bps = self.speed.speed_bps();
                events.push(
                    TransferProgress::Progress {
                        id: self.id.clone(),
                        transferred_bytes: cum,
                        speed_bps: bps,
                    },
                );
                (events, false)
            },
            ExportItem::Done => {
                self.cumulative_base = match self.cumulative_base.checked_add(self.current_size) {
                    Some(v) => v,
                    None => u64::MAX,
                };
                if self.exported_files.len() > 0 {
                    self.exported_files.pop();
                }
                if self.entry_index < self.entries.len() {
                    self.entry_index = self.entry_index + 1;
                }
                (events, true)
            },
            ExportItem::Error(cause) => {
                self.phase = ReceivePhase::Done;
                let mut msg = chars_of("error exporting ");
                let n = chars_of(self.entries[self.entry_index].as_str());
                push_chars(&mut msg, &n);
                let mid = chars_of(": ");
                push_chars(&mut msg, &mid);
                let c = chars_of(cause.as_str());
                push_chars(&mut msg, &c);
                proof {
                    assert(msg@ =~= export_error_message(
                        old(self).entries@[old(self).entry_index as int]@,
                        cause@,
                    ));
                }
                events.push(
                    TransferProgress::Failed {
                        id: self.id.clone(),
                        error: string_from_chars(&msg),
                    },
                );
                (events, true)
            },
        }
    }

    /// Every entry is done: the task completes with the payload size and
    /// the elapsed time.
    pub fn finish(&mut self, duration_millis: u64) -> (r: Vec<TransferProgress>)
        requires
            old(self).phase is Exporting,
            old(self).entry_index >= old(self).entries@.len(),
        ensures
            *final(self) == (ReceiveTask { phase: ReceivePhase::Done, ..*old(self) }),
            r@.len() == 1,
            r@[0] == (TransferProgress::Completed {
                id: old(self).id,
                total_bytes: old(self).payload_size,
                duration_millis,
            }),
    {
        self.phase = ReceivePhase::Done;
        let mut events: Vec<TransferProgress> = Vec::new();
        events.push(
            TransferProgress::Completed {
                id: self.id.clone(),
                total_bytes: self.payload_size,
                duration_millis,
            },
        );
        events
    }

    /// The cancellation token fired: the task ends with one `Cancelled`,
    /// handing back the partial files to delete.
    pub fn cancel(&mut self) -> (r: (Vec<String>, Vec<TransferProgress>))
        requires
            !(old(self).phase is Done),
        ensures
            final(self).phase is Done,
            final(self).exported_files@ == Seq::<String>::empty(),
            r.0@ == old(self).exported_files@,
            r.1@.len() == 1,
            r.1@[0] == (TransferProgress::Cancelled { id: old(self).id }),
    {
        self.phase = ReceivePhase::Done;
        let ghost self0 = *self;
        let ghost orig = self.exported_files@;
        let mut cleanup: Vec<String> = Vec::new();
        proof {
            assert(cleanup@ + self.exported_files@ =~= orig);
        }
        while self.exported_files.len() > 0
            invariant
                self.id == self0.id,
                self.phase == self0.phase,
                cleanup@ + self.exported_files@ == orig,
            decreases self.exported_files@.len(),
        {
            let ghost pre = self.exported_files@;
            let f = self.exported_files.remove(0);
            let ghost c0 = cleanup@;
            cleanup.push(f);
            proof {
                assert(self.exported_files@ =~= pre.drop_first());
                assert(cleanup@ + self.exported_files@ =~= c0 + pre);
            }
        }
        proof {
            assert(cleanup@ =~= orig);
            assert(self.exported_files@ =~= Seq::<String>::empty());
        }
        let mut events: Vec<TransferProgress> = Vec::new();
        events.push(TransferProgress::Cancelled { id: self.id.clone() });
        (cleanup, events)
    }
}


} // verus!
